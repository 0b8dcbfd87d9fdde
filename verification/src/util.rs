//! The file-name glob the repository maintenance uses: an exact name, or
//! a `<prefix>*.apk` pattern.

use vstd::prelude::*;

use crate::chars::{ends_with, starts_with, str_ends_with, str_eq, str_starts_with};

verus! {

/// Whether `name` matches `pattern`: a pattern ending in `*.apk` matches
/// any name with the pattern's prefix and the `.apk` suffix; any other
/// pattern matches only itself.
pub open spec fn glob_matches(name: Seq<char>, pattern: Seq<char>) -> bool {
    if ends_with(pattern, "*.apk"@) {
        starts_with(name, pattern.take(pattern.len() - ("*.apk"@).len())) && ends_with(
            name,
            ".apk"@,
        )
    } else {
        name == pattern
    }
}

/// Matches a file name against a pattern, per `glob_matches`.
pub fn matches_glob(name: &str, pattern: &str) -> (r: bool)
    ensures
        r == glob_matches(name@, pattern@),
{
    if str_ends_with(pattern, "*.apk") {
        proof {
            reveal_strlit("*.apk");
        }
        let pn = pattern.unicode_len();
        let prefix = pattern.substring_char(0, pn - 5);
        proof {
            assert(prefix@ =~= pattern@.take(pattern@.len() - 5));
        }
        str_starts_with(name, prefix) && str_ends_with(name, ".apk")
    } else {
        str_eq(name, pattern)
    }
}

} // verus!
