//! The package index model: one record per package version, the OS-version
//! constraints derived from its dependency tokens, and the parser for the
//! `APKINDEX` key-value record text.

use vstd::prelude::*;

use crate::chars::{
    lines_of, split_lines, split_ws, split_ws_tokens, starts_with, str_eq, str_strip_prefix,
};
use crate::errors::ApkError;
use crate::outside::{gunzip_concat, gunzip_concat_of, tar_entries_of, tar_list_entries,
    utf8_checked};
use crate::version::{spec_version_gte, spec_version_lt, version_gte, version_lt};
use vstd::utf8::{decode_utf8, valid_utf8};

verus! {

/// One package version record from a catalog: its name, its version, and
/// its raw dependency tokens in order.
#[derive(Debug, Clone)]
pub struct Package {
    pub name: String,
    pub version: String,
    pub depends: Vec<String>,
}

/// The mathematical reading of a `Package`.
pub struct PackageModel {
    pub name: Seq<char>,
    pub version: Seq<char>,
    pub depends: Seq<Seq<char>>,
}

impl View for Package {
    type V = PackageModel;

    open spec fn view(&self) -> PackageModel {
        PackageModel {
            name: self.name@,
            version: self.version@,
            depends: self.depends.deep_view(),
        }
    }
}

impl DeepView for Package {
    type V = PackageModel;

    open spec fn deep_view(&self) -> PackageModel {
        self.view()
    }
}

/// The dependency token prefix that sets an inclusive minimum OS version.
pub open spec fn min_token_prefix() -> Seq<char> {
    "remarkable-os>="@
}

/// The dependency token prefix that sets an exclusive maximum OS version.
pub open spec fn max_token_prefix() -> Seq<char> {
    "remarkable-os<"@
}

/// The minimum OS version declared by `deps`: the rest of the last token
/// carrying the minimum prefix, later tokens overwriting earlier ones.
pub open spec fn os_min(deps: Seq<Seq<char>>) -> Option<Seq<char>>
    decreases deps.len(),
{
    if deps.len() == 0 {
        None
    } else if starts_with(deps.last(), min_token_prefix()) {
        Some(deps.last().skip(min_token_prefix().len() as int))
    } else {
        os_min(deps.drop_last())
    }
}

/// The maximum OS version declared by `deps`, scanned the same way.
pub open spec fn os_max(deps: Seq<Seq<char>>) -> Option<Seq<char>>
    decreases deps.len(),
{
    if deps.len() == 0 {
        None
    } else if starts_with(deps.last(), max_token_prefix()) {
        Some(deps.last().skip(max_token_prefix().len() as int))
    } else {
        os_max(deps.drop_last())
    }
}

/// Whether `deps` declares any OS-version constraint at all.
pub open spec fn has_os_constraint(deps: Seq<Seq<char>>) -> bool {
    os_min(deps) is Some || os_max(deps) is Some
}

/// Whether a record with dependencies `deps` admits the target OS version
/// `t`: no constraint means always compatible, a minimum is inclusive and
/// a maximum is exclusive.
pub open spec fn os_compatible(deps: Seq<Seq<char>>, t: Seq<char>) -> bool {
    if os_min(deps) is None && os_max(deps) is None {
        true
    } else {
        (os_min(deps) matches Some(mn) ==> spec_version_gte(t, mn)) && (os_max(
            deps,
        ) matches Some(mx) ==> spec_version_lt(t, mx))
    }
}

impl Package {
    /// The `(minimum, maximum)` OS-version constraints of this record,
    /// scanned from its dependency tokens with the last token of each kind
    /// winning.
    pub fn get_os_constraints(&self) -> (r: (Option<String>, Option<String>))
        ensures
            r.0.deep_view() == os_min(self@.depends),
            r.1.deep_view() == os_max(self@.depends),
    {
        let ghost all = self@.depends;
        let mut min_ver: Option<String> = None;
        let mut max_ver: Option<String> = None;
        let n = self.depends.len();
        proof {
            assert(all.take(0) =~= Seq::<Seq<char>>::empty());
        }
        let mut i: usize = 0;
        while i < n
            invariant
                0 <= i <= n,
                n == self.depends.len(),
                all == self@.depends,
                min_ver.deep_view() == os_min(all.take(i as int)),
                max_ver.deep_view() == os_max(all.take(i as int)),
            decreases n - i,
        {
            let dep = &self.depends[i];
            proof {
                assert(all.take(i + 1).drop_last() =~= all.take(i as int));
                assert(all.take(i + 1).last() == dep@);
            }
            if let Some(v) = str_strip_prefix(dep.as_str(), "remarkable-os>=") {
                proof {
                    reveal_strlit("remarkable-os>=");
                    reveal_strlit("remarkable-os<");
                    if starts_with(dep@, max_token_prefix()) {
                        assert(dep@.take(15)[13] == dep@[13]);
                        assert(dep@.take(14)[13] == dep@[13]);
                        assert(false);
                    }
                }
                min_ver = Some(v.to_owned());
            } else if let Some(v) = str_strip_prefix(dep.as_str(), "remarkable-os<") {
                max_ver = Some(v.to_owned());
            }
            i += 1;
        }
        proof {
            assert(all.take(n as int) =~= all);
        }
        (min_ver, max_ver)
    }

    /// Whether this record admits the target OS version.
    pub fn is_compatible_with_os(&self, os_version: &str) -> (r: bool)
        ensures
            r == os_compatible(self@.depends, os_version@),
    {
        let (min_ver, max_ver) = self.get_os_constraints();

        if min_ver.is_none() && max_ver.is_none() {
            return true;
        }

        if let Some(mn) = &min_ver {
            if !version_gte(os_version, mn.as_str()) {
                return false;
            }
        }

        if let Some(mx) = &max_ver {
            if !version_lt(os_version, mx.as_str()) {
                return false;
            }
        }

        true
    }
}

/// A record with both a minimum and a maximum, the minimum not below the
/// maximum, admits no target version at all: the admissible range is empty.
pub proof fn lemma_empty_range_incompatible(deps: Seq<Seq<char>>, t: Seq<char>)
    requires
        os_min(deps) is Some,
        os_max(deps) is Some,
        spec_version_gte(os_min(deps)->0, os_max(deps)->0),
    ensures
        !os_compatible(deps, t),
{
    let mn = os_min(deps)->0;
    let mx = os_max(deps)->0;
    if os_compatible(deps, t) {
        crate::version::lemma_version_gte_transitive(t, mn, mx);
    }
}

/// A record under construction with no fields set yet.
pub open spec fn empty_record() -> PackageModel {
    PackageModel { name: Seq::empty(), version: Seq::empty(), depends: Seq::empty() }
}

/// A finished record is kept only when a name was seen.
pub open spec fn flush_record(cur: PackageModel) -> Seq<PackageModel> {
    if cur.name.len() > 0 {
        seq![cur]
    } else {
        Seq::empty()
    }
}

/// One content line applied to the record under construction: a
/// two-character `P:`/`V:`/`D:` key sets a field, anything else is
/// ignored.
pub open spec fn apply_line(cur: PackageModel, line: Seq<char>) -> PackageModel {
    if line.len() >= 2 && line[1] == ':' {
        if line[0] == 'P' {
            PackageModel { name: line.skip(2), ..cur }
        } else if line[0] == 'V' {
            PackageModel { version: line.skip(2), ..cur }
        } else if line[0] == 'D' {
            PackageModel { depends: split_ws(line.skip(2)), ..cur }
        } else {
            cur
        }
    } else {
        cur
    }
}

/// The records accumulated from `lines`, a blank line ending the record
/// under construction.
pub open spec fn parse_records(lines: Seq<Seq<char>>, cur: PackageModel) -> Seq<PackageModel>
    decreases lines.len(),
{
    if lines.len() == 0 {
        flush_record(cur)
    } else if lines[0].len() == 0 {
        flush_record(cur) + parse_records(lines.drop_first(), empty_record())
    } else {
        parse_records(lines.drop_first(), apply_line(cur, lines[0]))
    }
}

/// The package records held in an `APKINDEX` text.
pub open spec fn apkindex_records(s: Seq<char>) -> Seq<PackageModel> {
    parse_records(lines_of(s), empty_record())
}

/// Parses the flat key-value `APKINDEX` record format: records separated
/// by blank lines, `P:` naming a package, `V:` its version, `D:` its
/// whitespace-separated dependency tokens, other lines ignored, and a
/// record without a name dropped.
pub fn parse_apkindex(input: &str) -> (r: Vec<Package>)
    ensures
        r.deep_view() == apkindex_records(input@),
{
    let lines = split_lines(input);
    let ghost lv = lines.deep_view();
    let n = lines.len();
    let mut packages: Vec<Package> = Vec::new();
    let mut current = Package { name: String::new(), version: String::new(), depends: Vec::new() };
    proof {
        assert(current@ == empty_record()) by {
            assert(current@.depends =~= Seq::<Seq<char>>::empty());
        }
        assert(lv.skip(0) =~= lv);
        assert(packages.deep_view().len() == 0);
    }
    let mut i: usize = 0;
    while i < n
        invariant
            0 <= i <= n,
            n == lines.len(),
            lv == lines.deep_view(),
            lv == lines_of(input@),
            apkindex_records(input@) =~= packages.deep_view() + parse_records(
                lv.skip(i as int),
                current@,
            ),
        decreases n - i,
    {
        let line = lines[i];
        let ghost tail = lv.skip(i as int);
        let ghost old_cur = current@;
        proof {
            assert(tail[0] == lv[i as int]);
            assert(tail.drop_first() =~= lv.skip(i + 1int));
        }
        let ln = line.unicode_len();
        if ln == 0 {
            if !current.name.as_str().is_empty() {
                let ghost prev = packages.deep_view();
                let done = current;
                current = Package {
                    name: String::new(),
                    version: String::new(),
                    depends: Vec::new(),
                };
                packages.push(done);
                proof {
                    assert(packages.deep_view() =~= prev.push(done@));
                    assert(current@ == empty_record()) by {
                        assert(current@.depends =~= Seq::<Seq<char>>::empty());
                    }
                    assert(flush_record(done@) =~= seq![done@]);
                }
            } else {
                let ghost keep = current@;
                current = Package {
                    name: String::new(),
                    version: String::new(),
                    depends: Vec::new(),
                };
                proof {
                    assert(flush_record(keep) =~= Seq::<PackageModel>::empty());
                    assert(current@ == empty_record()) by {
                        assert(current@.depends =~= Seq::<Seq<char>>::empty());
                    }
                }
            }
        } else if ln >= 2 && line.get_char(1) == ':' {
            let key = line.get_char(0);
            if key == 'P' {
                let v = line.substring_char(2, ln).to_owned();
                assert(v@ =~= lv[i as int].skip(2));
                current = Package { name: v, ..current };
            } else if key == 'V' {
                let v = line.substring_char(2, ln).to_owned();
                assert(v@ =~= lv[i as int].skip(2));
                current = Package { version: v, ..current };
            } else if key == 'D' {
                let sub = line.substring_char(2, ln);
                assert(sub@ =~= lv[i as int].skip(2));
                let toks = split_ws_tokens(sub);
                current = Package { depends: toks, ..current };
            }
            assert(current@ == apply_line(old_cur, lv[i as int]));
        } else {
            assert(current@ == apply_line(old_cur, lv[i as int]));
        }
        i += 1;
    }
    proof {
        assert(lv.skip(n as int) =~= Seq::<Seq<char>>::empty());
    }
    if !current.name.as_str().is_empty() {
        let ghost prev = packages.deep_view();
        let done = current;
        packages.push(done);
        proof {
            assert(packages.deep_view() =~= prev.push(done@));
            assert(flush_record(done@) =~= seq![done@]);
        }
    }
    packages
}

/// The contents of the first archive entry named `name`, if any.
pub open spec fn find_entry(entries: Seq<(Seq<char>, Seq<u8>)>, name: Seq<char>) -> Option<Seq<u8>>
    decreases entries.len(),
{
    if entries.len() == 0 {
        None
    } else if entries[0].0 == name {
        Some(entries[0].1)
    } else {
        find_entry(entries.drop_first(), name)
    }
}

/// What decoding an index container yields: the concatenated gzip streams
/// decompressed as one, the inner archive scanned for its `APKINDEX`
/// entry, and that entry's text parsed; `None` where any step fails,
/// including an entry that is not valid UTF-8.
pub open spec fn decoded_index(data: Seq<u8>) -> Option<Seq<PackageModel>> {
    match gunzip_concat_of(data) {
        None => None,
        Some(t) => match tar_entries_of(t) {
            None => None,
            Some(es) => match find_entry(es, "APKINDEX"@) {
                None => None,
                Some(content) => if valid_utf8(content) {
                    Some(apkindex_records(decode_utf8(content)))
                } else {
                    None
                },
            },
        },
    }
}

/// Decodes an index container: decompresses the concatenated gzip
/// streams with a decompressor that reads past each end-of-stream marker,
/// finds the `APKINDEX` entry in the inner archive, and parses its text.
/// Fails with `Format` exactly when decompression or archive reading
/// fails, no such entry exists, or its contents are not valid UTF-8.
pub fn parse_index_bytes(data: &[u8]) -> (r: Result<Vec<Package>, ApkError>)
    ensures
        r is Ok <==> decoded_index(data@) is Some,
        r matches Ok(pkgs) ==> decoded_index(data@) == Some(pkgs.deep_view()),
        r matches Err(e) ==> e == ApkError::Format,
{
    let tarball = match gunzip_concat(data) {
        Ok(t) => t,
        Err(_) => {
            return Err(ApkError::Format);
        },
    };
    let entries = match tar_list_entries(tarball.as_slice()) {
        Ok(es) => es,
        Err(_) => {
            return Err(ApkError::Format);
        },
    };
    let ghost es = entries.deep_view();
    let n = entries.len();
    let mut i: usize = 0;
    proof {
        assert(es.skip(0) =~= es);
    }
    while i < n
        invariant
            0 <= i <= n,
            n == entries.len(),
            es == entries.deep_view(),
            tar_entries_of(tarball@) == Some(es),
            gunzip_concat_of(data@) == Some(tarball@),
            find_entry(es, "APKINDEX"@) == find_entry(es.skip(i as int), "APKINDEX"@),
        decreases n - i,
    {
        let entry = &entries[i];
        proof {
            assert(es.skip(i as int)[0] == es[i as int]);
            assert(es.skip(i as int).drop_first() =~= es.skip(i + 1int));
        }
        if str_eq(entry.0.as_str(), "APKINDEX") {
            proof {
                assert(es[i as int].0 == entry.0@);
                assert(es[i as int].1 == entry.1@);
                assert(find_entry(es.skip(i as int), "APKINDEX"@) == Some(es[i as int].1));
            }
            let text = match utf8_checked(entry.1.as_slice()) {
                Some(t) => t,
                None => {
                    return Err(ApkError::Format);
                },
            };
            let packages = parse_apkindex(text);
            return Ok(packages);
        }
        i += 1;
    }
    proof {
        assert(es.skip(n as int) =~= Seq::<(Seq<char>, Seq<u8>)>::empty());
    }
    Err(ApkError::Format)
}

} // verus!
