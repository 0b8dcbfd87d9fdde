//! Reading the device's identity out of its system files: the OS version
//! from a key-value release file, the device code from the machine name,
//! and the package architecture from the processor name.

use vstd::prelude::*;

use crate::chars::{lines_of, split_lines, starts_with, str_eq, str_strip_prefix, str_trim,
    to_chars, trim_spec};

verus! {

/// A quote character the release files may wrap a value in.
pub open spec fn is_quote(c: char) -> bool {
    c == '"' || c == '\''
}

/// `s` with quote characters removed from both ends.
pub open spec fn trim_quotes_front(s: Seq<char>) -> Seq<char>
    decreases s.len(),
{
    if s.len() > 0 && is_quote(s[0]) {
        trim_quotes_front(s.drop_first())
    } else {
        s
    }
}

pub open spec fn trim_quotes_back(s: Seq<char>) -> Seq<char>
    decreases s.len(),
{
    if s.len() > 0 && is_quote(s.last()) {
        trim_quotes_back(s.drop_last())
    } else {
        s
    }
}

pub open spec fn trim_quotes(s: Seq<char>) -> Seq<char> {
    trim_quotes_back(trim_quotes_front(s))
}

/// Strips quote characters from both ends, as `str::trim_matches` does.
fn strip_quotes<'a>(s: &'a str) -> (r: &'a str)
    ensures
        r@ == trim_quotes(s@),
{
    let n = s.unicode_len();
    let cv = to_chars(s);
    let mut a: usize = 0;
    proof {
        assert(s@.skip(0) =~= s@);
    }
    while a < n && (cv[a] == '"' || cv[a] == '\'')
        invariant
            0 <= a <= n,
            n == s@.len(),
            cv@ == s@,
            trim_quotes_front(s@) == trim_quotes_front(s@.skip(a as int)),
        decreases n - a,
    {
        proof {
            let tail = s@.skip(a as int);
            assert(tail[0] == s@[a as int]);
            assert(tail.drop_first() =~= s@.skip(a + 1int));
        }
        a += 1;
    }
    proof {
        let tail = s@.skip(a as int);
        if a < n {
            assert(tail[0] == s@[a as int]);
        }
        assert(trim_quotes_front(s@) == tail);
    }
    let mut b: usize = n;
    proof {
        assert(s@.skip(a as int) =~= s@.subrange(a as int, n as int));
    }
    while b > a && (cv[b - 1] == '"' || cv[b - 1] == '\'')
        invariant
            a <= b <= n,
            n == s@.len(),
            cv@ == s@,
            trim_quotes_front(s@) == s@.skip(a as int),
            trim_quotes_back(s@.skip(a as int)) == trim_quotes_back(
                s@.subrange(a as int, b as int),
            ),
        decreases b,
    {
        proof {
            let part = s@.subrange(a as int, b as int);
            assert(part.last() == s@[b - 1int]);
            assert(part.drop_last() =~= s@.subrange(a as int, b - 1int));
        }
        b -= 1;
    }
    proof {
        let part = s@.subrange(a as int, b as int);
        if b > a {
            assert(part.last() == s@[b - 1int]);
        }
        assert(trim_quotes_back(part) == part);
    }
    let r = s.substring_char(a, b);
    assert(r@ =~= s@.subrange(a as int, b as int));
    r
}

/// The version declared in a release file: the value of the first line
/// opening with the key prefix whose unquoted value is nonempty.
pub open spec fn version_in_release(ls: Seq<Seq<char>>, prefix: Seq<char>) -> Option<Seq<char>>
    decreases ls.len(),
{
    if ls.len() == 0 {
        None
    } else {
        let v = trim_quotes(ls[0].skip(prefix.len() as int));
        if starts_with(ls[0], prefix) && v.len() > 0 {
            Some(v)
        } else {
            version_in_release(ls.drop_first(), prefix)
        }
    }
}

/// Reads the OS version out of a release file's content, per
/// `version_in_release`.
pub fn os_version_from_release(content: &str, prefix: &str) -> (r: Option<String>)
    ensures
        r.deep_view() == version_in_release(lines_of(content@), prefix@),
{
    let lines = split_lines(content);
    let ghost lv = lines.deep_view();
    let n = lines.len();
    let mut i: usize = 0;
    proof {
        assert(lv.skip(0) =~= lv);
    }
    while i < n
        invariant
            0 <= i <= n,
            n == lines.len(),
            lv == lines.deep_view(),
            lv == lines_of(content@),
            version_in_release(lv, prefix@) == version_in_release(lv.skip(i as int), prefix@),
        decreases n - i,
    {
        proof {
            assert(lv.skip(i as int)[0] == lv[i as int]);
            assert(lv.skip(i as int).drop_first() =~= lv.skip(i + 1int));
        }
        if let Some(rest) = str_strip_prefix(lines[i], prefix) {
            let v = strip_quotes(rest);
            if v.unicode_len() > 0 {
                return Some(v.to_owned());
            }
        }
        i += 1;
    }
    proof {
        assert(lv.skip(n as int) =~= Seq::<Seq<char>>::empty());
    }
    None
}

/// The device code for a machine name, or none for an unknown machine.
pub open spec fn device_code_of(machine: Seq<char>) -> Option<Seq<char>> {
    let m = trim_spec(machine);
    if m == "Ferrari"@ {
        Some("rmpp"@)
    } else if m == "Chiappa"@ {
        Some("rmppm"@)
    } else if m == "reMarkable 1.0"@ {
        Some("rm1"@)
    } else if m == "reMarkable 2.0"@ {
        Some("rm2"@)
    } else {
        None
    }
}

/// Maps the machine file's content to the device code.
pub fn device_type_from_machine(machine: &str) -> (r: Option<String>)
    ensures
        r.deep_view() == device_code_of(machine@),
{
    let m = str_trim(machine);
    if str_eq(m, "Ferrari") {
        Some(String::from_str("rmpp"))
    } else if str_eq(m, "Chiappa") {
        Some(String::from_str("rmppm"))
    } else if str_eq(m, "reMarkable 1.0") {
        Some(String::from_str("rm1"))
    } else if str_eq(m, "reMarkable 2.0") {
        Some(String::from_str("rm2"))
    } else {
        None
    }
}

/// The package architecture for a processor name, or none where only the
/// caller's fallback applies.
pub open spec fn arch_of(machine: Seq<char>) -> Option<Seq<char>> {
    if machine == "aarch64"@ {
        Some("aarch64"@)
    } else if machine == "armv7l"@ {
        Some("armv7"@)
    } else {
        None
    }
}

/// Maps a processor name to the package architecture.
pub fn arch_from_machine(machine: &str) -> (r: Option<String>)
    ensures
        r.deep_view() == arch_of(machine@),
{
    if str_eq(machine, "aarch64") {
        Some(String::from_str("aarch64"))
    } else if str_eq(machine, "armv7l") {
        Some(String::from_str("armv7"))
    } else {
        None
    }
}

} // verus!
