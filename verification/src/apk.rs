//! The interface to the device's package tool: the paths and base
//! arguments every invocation uses, and the parsers for the tool's
//! output.

use vstd::prelude::*;

use crate::chars::{
    lines_of, split_lines, split_ws, split_ws_tokens, starts_with, str_strip_prefix, to_chars,
};
use vstd::string::StringExecFns;

verus! {

broadcast use vstd::string::group_string_axioms;

/// A handle on the package tool rooted at an installation directory.
pub struct Apk {
    root: String,
}

impl Apk {
    /// The installation root this handle works under.
    pub closed spec fn root_spec(&self) -> Seq<char> {
        self.root@
    }

    pub fn new(vellum_root: &str) -> (r: Apk)
        ensures
            r.root_spec() == vellum_root@,
    {
        Apk { root: vellum_root.to_owned() }
    }

    /// The path of the package tool binary under the root.
    pub fn bin_path(&self) -> (r: String)
        ensures
            r@ == self.root_spec() + "/bin/apk.vellum"@,
    {
        let mut s = self.root.clone();
        s.append("/bin/apk.vellum");
        s
    }

    /// The arguments every invocation of the tool starts with.
    pub fn base_args(&self) -> (r: Vec<String>)
        ensures
            r.deep_view() =~= seq![
                "--root"@,
                self.root_spec(),
                "--install-root"@,
                "/"@,
                "--no-logfile"@,
            ],
    {
        let mut r: Vec<String> = Vec::new();
        r.push(String::from_str("--root"));
        r.push(self.root.clone());
        r.push(String::from_str("--install-root"));
        r.push(String::from_str("/"));
        r.push(String::from_str("--no-logfile"));
        r
    }

    /// The path of the tool's configuration file under the root.
    pub fn config_path(&self) -> (r: String)
        ensures
            r@ == self.root_spec() + "/etc/apk/config"@,
    {
        let mut s = self.root.clone();
        s.append("/etc/apk/config");
        s
    }
}

/// The installed-package names in a listing: one name per line.
pub fn parse_installed_list(out: &str) -> (r: Vec<String>)
    ensures
        r.deep_view() == lines_of(out@),
{
    let lines = split_lines(out);
    let ghost lv = lines.deep_view();
    let n = lines.len();
    let mut r: Vec<String> = Vec::new();
    let mut i: usize = 0;
    while i < n
        invariant
            0 <= i <= n,
            n == lines.len(),
            lv == lines.deep_view(),
            r.deep_view().len() == i,
            forall|j: int| 0 <= j < i ==> r.deep_view()[j] == lv[j],
        decreases n - i,
    {
        let ghost prev = r.deep_view();
        r.push(lines[i].to_owned());
        proof {
            assert(r.deep_view() =~= prev.push(lv[i as int]));
        }
        i += 1;
    }
    proof {
        assert(r.deep_view() =~= lv);
    }
    r
}

/// The position of the last `-r` pair in `s`, where a release suffix
/// begins.
pub open spec fn rfind_dash_r(s: Seq<char>) -> Option<int>
    decreases s.len(),
{
    if s.len() < 2 {
        None
    } else if s[s.len() - 2] == '-' && s[s.len() - 1] == 'r' {
        Some(s.len() - 2)
    } else {
        rfind_dash_r(s.drop_last())
    }
}

/// The version in a `list` line for package `pkg`: the first field of the
/// first line, its `<pkg>-` prefix removed, cut before the last `-r`.
pub open spec fn version_from_listing(pkg: Seq<char>, out: Seq<char>) -> Option<Seq<char>> {
    if out.len() == 0 {
        None
    } else {
        let first_line = lines_of(out)[0];
        let toks = split_ws(first_line);
        let ff = if toks.len() > 0 {
            toks[0]
        } else {
            Seq::<char>::empty()
        };
        let prefix = pkg + seq!['-'];
        if starts_with(ff, prefix) {
            let rest = ff.skip(prefix.len() as int);
            match rfind_dash_r(rest) {
                Some(i) => Some(rest.take(i)),
                None => None,
            }
        } else {
            None
        }
    }
}

/// Extracts the installed version of `pkg` from the tool's listing
/// output, per `version_from_listing`.
pub fn parse_package_version(pkg: &str, out: &str) -> (r: Option<String>)
    ensures
        r.deep_view() == version_from_listing(pkg@, out@),
{
    if out.unicode_len() == 0 {
        return None;
    }
    let lines = split_lines(out);
    proof {
        crate::chars::lemma_lines_of_nonempty(out@);
    }
    let first_line = lines[0];
    let toks = split_ws_tokens(first_line);
    let ff: &str = if toks.len() > 0 {
        toks[0].as_str()
    } else {
        ""
    };
    proof {
        reveal_strlit("");
        assert((""@).len() == 0);
        if split_ws(first_line@).len() == 0 {
            assert(ff@ =~= Seq::<char>::empty());
        }
    }
    let mut prefix = pkg.to_owned();
    prefix.append("-");
    proof {
        reveal_strlit("-");
        assert(prefix@ =~= pkg@ + seq!['-']);
    }
    let rest = match str_strip_prefix(ff, prefix.as_str()) {
        Some(t) => t,
        None => {
            return None;
        },
    };
    let cv = to_chars(rest);
    let n = cv.len();
    let mut j: usize = n;
    proof {
        assert(rest@.take(n as int) =~= rest@);
    }
    while j >= 2
        invariant
            0 <= j <= n,
            n == rest@.len(),
            cv@ == rest@,
            rfind_dash_r(rest@) == rfind_dash_r(rest@.take(j as int)),
            version_from_listing(pkg@, out@) == match rfind_dash_r(rest@) {
                Some(i) => Some(rest@.take(i)),
                None => None,
            },
        decreases j,
    {
        proof {
            assert(rest@.take(j as int)[j - 2] == rest@[j - 2]);
            assert(rest@.take(j as int)[j - 1] == rest@[j - 1]);
            assert(rest@.take(j as int).drop_last() =~= rest@.take(j - 1));
        }
        if cv[j - 2] == '-' && cv[j - 1] == 'r' {
            let v = rest.substring_char(0, j - 2);
            assert(v@ =~= rest@.take(j - 2));
            return Some(v.to_owned());
        }
        j -= 1;
    }
    None
}

} // verus!
