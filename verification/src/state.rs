//! Small persistent-state helpers: the state directory layout, the
//! testing-repository switch in the repositories file, and the selection
//! of the remote repository URL from that file.

use vstd::prelude::*;

use crate::chars::{
    contains_sub, join_lines, join_nl, lines_of, split_lines, starts_with, str_find,
    str_starts_with, str_trim, trim_spec,
};
use vstd::string::StringExecFns;

verus! {

broadcast use vstd::string::group_string_axioms;

/// A handle on the manager's state directory under an installation root.
pub struct State {
    root: String,
}

impl State {
    /// The installation root this handle works under.
    pub closed spec fn root_spec(&self) -> Seq<char> {
        self.root@
    }

    pub fn new(vellum_root: &str) -> (r: State)
        ensures
            r.root_spec() == vellum_root@,
    {
        State { root: vellum_root.to_owned() }
    }

    /// The directory the state files live in.
    pub fn dir(&self) -> (r: String)
        ensures
            r@ == self.root_spec() + "/state"@,
    {
        let mut s = self.root.clone();
        s.append("/state");
        s
    }
}

/// The tag that opens the testing repository's line.
pub open spec fn testing_tag() -> Seq<char> {
    "@testing"@
}

/// The full line that enables the testing repository.
pub open spec fn testing_repo_line() -> Seq<char> {
    "@testing https://packages.vellum.delivery/testing"@
}

/// A line that, trimmed, opens with the testing tag.
pub open spec fn is_testing_line(l: Seq<char>) -> bool {
    starts_with(trim_spec(l), testing_tag())
}

/// Whether the repositories file content has the testing repository
/// enabled.
pub open spec fn testing_enabled_in(content: Seq<char>) -> bool {
    exists|i: int|
        0 <= i < lines_of(content).len() && is_testing_line(#[trigger] lines_of(content)[i])
}

/// The position of the first line that mentions the local repository.
pub open spec fn first_local_repo(ls: Seq<Seq<char>>) -> Option<int>
    decreases ls.len(),
{
    if ls.len() == 0 {
        None
    } else if contains_sub(ls[0], "local-repo"@) {
        Some(0int)
    } else {
        match first_local_repo(ls.drop_first()) {
            Some(i) => Some(i + 1),
            None => None,
        }
    }
}

/// The found line is in range, mentions the local repository, and no
/// earlier line does.
pub proof fn lemma_first_local_repo_props(ls: Seq<Seq<char>>)
    ensures
        match first_local_repo(ls) {
            Some(k) => 0 <= k < ls.len() && contains_sub(ls[k], "local-repo"@) && forall|j: int|
                0 <= j < k ==> !contains_sub(#[trigger] ls[j], "local-repo"@),
            None => forall|j: int|
                0 <= j < ls.len() ==> !contains_sub(#[trigger] ls[j], "local-repo"@),
        },
    decreases ls.len(),
{
    if ls.len() > 0 && !contains_sub(ls[0], "local-repo"@) {
        let d = ls.drop_first();
        lemma_first_local_repo_props(d);
        assert(forall|j: int| 0 <= j < d.len() ==> d[j] == ls[j + 1]);
        match first_local_repo(ls) {
            Some(k) => {
                assert forall|j: int| 0 <= j < k implies !contains_sub(
                    #[trigger] ls[j],
                    "local-repo"@,
                ) by {
                    if j > 0 {
                        assert(ls[j] == d[j - 1]);
                    }
                }
            },
            None => {
                assert forall|j: int| 0 <= j < ls.len() implies !contains_sub(
                    #[trigger] ls[j],
                    "local-repo"@,
                ) by {
                    if j > 0 {
                        assert(ls[j] == d[j - 1]);
                    }
                }
            },
        }
    }
}

/// The repositories file with the testing line added: after the first
/// line mentioning the local repository, or at the top where none does.
pub open spec fn testing_enabled_content(content: Seq<char>) -> Seq<char> {
    let ls = lines_of(content);
    match first_local_repo(ls) {
        Some(k) => join_nl(ls.take(k + 1) + seq![testing_repo_line()] + ls.skip(k + 1)),
        None => join_nl(seq![testing_repo_line()] + ls),
    }
}

/// The repositories file with every testing line removed.
pub open spec fn testing_disabled_content(content: Seq<char>) -> Seq<char> {
    join_nl(lines_of(content).filter(|l: Seq<char>| !is_testing_line(l)))
}

/// The manager of the testing-repository switch, tied to the
/// repositories file under an installation root.
pub struct TestingManager {
    repos_path: String,
}

impl TestingManager {
    /// The path of the repositories file this manager works on.
    pub closed spec fn path_spec(&self) -> Seq<char> {
        self.repos_path@
    }

    pub fn new(vellum_root: &str) -> (r: TestingManager)
        ensures
            r.path_spec() == vellum_root@ + "/etc/apk/repositories"@,
    {
        let mut p = vellum_root.to_owned();
        p.append("/etc/apk/repositories");
        TestingManager { repos_path: p }
    }

    /// The path of the repositories file, for the caller that reads and
    /// writes it.
    pub fn repos_path(&self) -> (r: &str)
        ensures
            r@ == self.path_spec(),
    {
        self.repos_path.as_str()
    }

    /// Whether this repositories file content has the testing repository
    /// enabled.
    pub fn is_enabled(&self, content: &str) -> (r: bool)
        ensures
            r == testing_enabled_in(content@),
    {
        let lines = split_lines(content);
        let ghost lv = lines.deep_view();
        let n = lines.len();
        let mut i: usize = 0;
        while i < n
            invariant
                0 <= i <= n,
                n == lines.len(),
                lv == lines.deep_view(),
                lv == lines_of(content@),
                forall|j: int| 0 <= j < i ==> !is_testing_line(#[trigger] lv[j]),
            decreases n - i,
        {
            let t = str_trim(lines[i]);
            if str_starts_with(t, "@testing") {
                assert(is_testing_line(lv[i as int]));
                return true;
            }
            assert(!is_testing_line(lv[i as int]));
            i += 1;
        }
        false
    }

    /// The file content with the testing repository enabled, per
    /// `testing_enabled_content`.
    pub fn enable(&self, content: &str) -> (r: String)
        ensures
            r@ == testing_enabled_content(content@),
    {
        let lines = split_lines(content);
        let ghost lv = lines.deep_view();
        let n = lines.len();
        let mut out: Vec<String> = Vec::new();
        let mut inserted = false;
        let ghost spec_k = first_local_repo(lv);
        let mut i: usize = 0;
        proof {
            lemma_first_local_repo_props(lv);
        }
        while i < n
            invariant
                0 <= i <= n,
                n == lines.len(),
                lv == lines.deep_view(),
                lv == lines_of(content@),
                spec_k == first_local_repo(lv),
                spec_k matches Some(k) ==> 0 <= k < lv.len() && contains_sub(
                    lv[k],
                    "local-repo"@,
                ) && forall|j: int| 0 <= j < k ==> !contains_sub(#[trigger] lv[j], "local-repo"@),
                spec_k is None ==> forall|j: int|
                    0 <= j < lv.len() ==> !contains_sub(#[trigger] lv[j], "local-repo"@),
                inserted == (spec_k matches Some(k) && k < i),
                !inserted ==> out.deep_view() =~= lv.take(i as int),
                inserted ==> out.deep_view() =~= lv.take(spec_k->0 + 1) + seq![
                    testing_repo_line(),
                ] + lv.subrange(spec_k->0 + 1, i as int),
            decreases n - i,
        {
            let line = lines[i];
            let ghost prev = out.deep_view();
            out.push(line.to_owned());
            proof {
                assert(out.deep_view() =~= prev.push(lv[i as int]));
            }
            if !inserted && str_find(line, "local-repo").is_some() {
                assert(contains_sub(lv[i as int], "local-repo"@));
                proof {
                    if spec_k is None {
                        assert(false);
                    } else if spec_k->0 > i {
                        assert(!contains_sub(lv[i as int], "local-repo"@));
                        assert(false);
                    }
                    assert(spec_k == Some(i as int));
                }
                let ghost prev2 = out.deep_view();
                out.push(String::from_str("@testing https://packages.vellum.delivery/testing"));
                inserted = true;
                proof {
                    assert(out.deep_view() =~= prev2.push(testing_repo_line()));
                    assert(out.deep_view() =~= lv.take(i + 1) + seq![testing_repo_line()]
                        + lv.subrange(i + 1int, i + 1int));
                }
            } else {
                proof {
                    if inserted {
                        assert(out.deep_view() =~= lv.take(spec_k->0 + 1) + seq![
                            testing_repo_line(),
                        ] + lv.subrange(spec_k->0 + 1, i + 1int));
                    } else {
                        assert(!contains_sub(lv[i as int], "local-repo"@));
                        assert(out.deep_view() =~= lv.take(i + 1int));
                    }
                }
            }
            i += 1;
        }
        if !inserted {
            proof {
                assert(spec_k is None);
                assert(lv.take(n as int) =~= lv);
            }
            let ghost outv = out.deep_view();
            let mut front: Vec<String> = Vec::new();
            front.push(String::from_str("@testing https://packages.vellum.delivery/testing"));
            front.append(&mut out);
            proof {
                assert(outv =~= lv);
                assert(front.deep_view() =~= seq![testing_repo_line()] + lv);
            }
            return join_lines(&front);
        }
        proof {
            assert(lv.take(n as int) =~= lv);
            assert(out.deep_view() =~= lv.take(spec_k->0 + 1) + seq![testing_repo_line()]
                + lv.skip(spec_k->0 + 1));
        }
        join_lines(&out)
    }

    /// The file content with the testing repository disabled, per
    /// `testing_disabled_content`.
    pub fn disable(&self, content: &str) -> (r: String)
        ensures
            r@ == testing_disabled_content(content@),
    {
        let lines = split_lines(content);
        let ghost lv = lines.deep_view();
        let ghost pred = |l: Seq<char>| !is_testing_line(l);
        let n = lines.len();
        let mut out: Vec<String> = Vec::new();
        let mut i: usize = 0;
        proof {
            assert(lv.take(0) =~= Seq::<Seq<char>>::empty());
            reveal(Seq::filter);
            assert(out.deep_view() =~= lv.take(0).filter(pred));
        }
        while i < n
            invariant
                0 <= i <= n,
                n == lines.len(),
                lv == lines.deep_view(),
                lv == lines_of(content@),
                pred == (|l: Seq<char>| !is_testing_line(l)),
                out.deep_view() == lv.take(i as int).filter(pred),
            decreases n - i,
        {
            let line = lines[i];
            proof {
                assert(lv.take(i + 1) =~= lv.take(i as int).push(line@));
                crate::compat::lemma_filter_push(lv.take(i as int), pred, line@);
            }
            let t = str_trim(line);
            if !str_starts_with(t, "@testing") {
                let ghost prev = out.deep_view();
                out.push(line.to_owned());
                proof {
                    assert(out.deep_view() =~= prev.push(line@));
                }
            }
            i += 1;
        }
        proof {
            assert(lv.take(n as int) =~= lv);
        }
        join_lines(&out)
    }
}

/// The remote repository URL declared in the repositories file: the first
/// line that, trimmed, is neither empty, a comment, nor the local
/// repository's.
pub open spec fn repo_url_of(ls: Seq<Seq<char>>) -> Option<Seq<char>>
    decreases ls.len(),
{
    if ls.len() == 0 {
        None
    } else {
        let t = trim_spec(ls[0]);
        if t.len() == 0 || t[0] == '#' {
            repo_url_of(ls.drop_first())
        } else if !contains_sub(t, "local-repo"@) {
            Some(t)
        } else {
            repo_url_of(ls.drop_first())
        }
    }
}

/// Picks the remote repository URL out of the repositories file content,
/// per `repo_url_of`.
pub fn repo_url_from_config(content: &str) -> (r: Option<String>)
    ensures
        r.deep_view() == repo_url_of(lines_of(content@)),
{
    let lines = split_lines(content);
    let ghost lv = lines.deep_view();
    let n = lines.len();
    let mut i: usize = 0;
    proof {
        assert(lv.skip(0) =~= lv);
    }
    while i < n
        invariant
            0 <= i <= n,
            n == lines.len(),
            lv == lines.deep_view(),
            lv == lines_of(content@),
            repo_url_of(lv) == repo_url_of(lv.skip(i as int)),
        decreases n - i,
    {
        proof {
            assert(lv.skip(i as int)[0] == lv[i as int]);
            assert(lv.skip(i as int).drop_first() =~= lv.skip(i + 1int));
        }
        let t = str_trim(lines[i]);
        let tn = t.unicode_len();
        if tn == 0 || t.get_char(0) == '#' {
            i += 1;
        } else if str_find(t, "local-repo").is_none() {
            return Some(t.to_owned());
        } else {
            i += 1;
        }
    }
    proof {
        assert(lv.skip(n as int) =~= Seq::<Seq<char>>::empty());
    }
    None
}

} // verus!
