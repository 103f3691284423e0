//! Turns a user-supplied path or pattern into a glob pattern for archives.

use vstd::prelude::*;
use crate::utils::string_push_str;

verus! {

/// True when `s` ends with the characters of `suffix`.
pub open spec fn chars_end_with(s: Seq<char>, suffix: Seq<char>) -> bool {
    s.len() >= suffix.len() && s.subrange(s.len() - suffix.len(), s.len() as int)
        == suffix
}

/// Relies on str::ends_with: true exactly when the characters of `suffix`
/// are a suffix of the string.
#[verifier::external_body]
fn str_ends_with(s: &str, suffix: &str) -> (r: bool)
    ensures
        r == chars_end_with(s@, suffix@),
{
    s.ends_with(suffix)
}

/// Expands a path to a recursive archive pattern: a pattern that already
/// names `.pak` files is kept as it is; anything else is treated as a
/// directory and `**/*.pak` is appended, with a separator where one is
/// missing.
pub fn prepare_file_pattern(file_pattern: &str) -> (r: String)
    ensures
        chars_end_with(file_pattern@, ".pak"@) ==> r@ == file_pattern@,
        !chars_end_with(file_pattern@, ".pak"@) && (chars_end_with(file_pattern@, "/"@)
            || chars_end_with(file_pattern@, "\\"@)) ==> r@ == file_pattern@ + "**/*.pak"@,
        !chars_end_with(file_pattern@, ".pak"@) && !chars_end_with(file_pattern@, "/"@)
            && !chars_end_with(file_pattern@, "\\"@) ==> r@ == file_pattern@ + "/"@
            + "**/*.pak"@,
{
    if str_ends_with(file_pattern, ".pak") {
        file_pattern.to_owned()
    } else {
        let mut out = file_pattern.to_owned();
        if !str_ends_with(file_pattern, "/") && !str_ends_with(file_pattern, "\\") {
            string_push_str(&mut out, "/");
        }
        string_push_str(&mut out, "**/*.pak");
        out
    }
}

} // verus!
