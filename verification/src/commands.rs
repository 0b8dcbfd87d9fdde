//! The decision logic behind the package-manager commands: resolving add
//! arguments against the catalog, reading the upgrade simulation output,
//! upgrade argument handling, world-file pin cleaning, and the guards on
//! protected and virtual packages.

use vstd::prelude::*;

use crate::chars::{
    contains_char, contains_sub, find_sub, join_lines, join_nl, lines_of, split_lines, starts_with,
    str_eq, str_find, str_starts_with, str_trim, to_chars, trim_spec,
};
use crate::compat::{best_candidate, name_in_catalog, scan_name};
use crate::index::{Package, PackageModel};
use vstd::string::StringExecFns;

verus! {

broadcast use vstd::string::group_string_axioms;

/// An argument the resolver passes through untouched: one that already
/// pins or constrains a version, or an option flag.
pub open spec fn arg_passthrough(a: Seq<char>) -> bool {
    contains_char(a, '=') || contains_char(a, '<') || contains_char(a, '>') || (a.len() > 0 && a[0]
        == '-')
}

/// What one argument contributes to the resolved argument list: a pinned
/// `name=version` where a best compatible version exists, nothing where
/// the name is known but no version is compatible, and the argument
/// itself otherwise.
pub open spec fn resolved_arg(
    cat: Seq<PackageModel>,
    t: Seq<char>,
    a: Seq<char>,
) -> Seq<Seq<char>> {
    if arg_passthrough(a) {
        seq![a]
    } else {
        match best_candidate(cat, a, t) {
            Some(i) => seq![cat[i].name + seq!['='] + cat[i].version],
            None => if name_in_catalog(cat, a) {
                Seq::<Seq<char>>::empty()
            } else {
                seq![a]
            },
        }
    }
}

/// What one argument contributes to the list of names that were pinned.
pub open spec fn pinned_arg(cat: Seq<PackageModel>, t: Seq<char>, a: Seq<char>) -> Seq<Seq<char>> {
    if !arg_passthrough(a) && best_candidate(cat, a, t) is Some {
        seq![cat[best_candidate(cat, a, t)->0].name]
    } else {
        Seq::<Seq<char>>::empty()
    }
}

/// What one argument contributes to the list of names with no compatible
/// version.
pub open spec fn incompatible_arg(
    cat: Seq<PackageModel>,
    t: Seq<char>,
    a: Seq<char>,
) -> Seq<Seq<char>> {
    if !arg_passthrough(a) && best_candidate(cat, a, t) is None && name_in_catalog(cat, a) {
        seq![a]
    } else {
        Seq::<Seq<char>>::empty()
    }
}

/// The resolved argument list for a whole command line.
pub open spec fn resolved_args_of(
    args: Seq<Seq<char>>,
    cat: Seq<PackageModel>,
    t: Seq<char>,
) -> Seq<Seq<char>>
    decreases args.len(),
{
    if args.len() == 0 {
        Seq::<Seq<char>>::empty()
    } else {
        resolved_args_of(args.drop_last(), cat, t) + resolved_arg(cat, t, args.last())
    }
}

/// The pinned names for a whole command line.
pub open spec fn pinned_of(
    args: Seq<Seq<char>>,
    cat: Seq<PackageModel>,
    t: Seq<char>,
) -> Seq<Seq<char>>
    decreases args.len(),
{
    if args.len() == 0 {
        Seq::<Seq<char>>::empty()
    } else {
        pinned_of(args.drop_last(), cat, t) + pinned_arg(cat, t, args.last())
    }
}

/// The incompatible names for a whole command line.
pub open spec fn incompatible_of(
    args: Seq<Seq<char>>,
    cat: Seq<PackageModel>,
    t: Seq<char>,
) -> Seq<Seq<char>>
    decreases args.len(),
{
    if args.len() == 0 {
        Seq::<Seq<char>>::empty()
    } else {
        incompatible_of(args.drop_last(), cat, t) + incompatible_arg(cat, t, args.last())
    }
}

/// The outcome of resolving an add command line against the catalog.
pub struct AddResolution {
    pub args: Vec<String>,
    pub pinned: Vec<String>,
    pub incompatible: Vec<String>,
}

fn is_passthrough_arg(a: &str) -> (r: bool)
    ensures
        r == arg_passthrough(a@),
{
    let cv = to_chars(a);
    let n = cv.len();
    if n > 0 && cv[0] == '-' {
        return true;
    }
    let mut i: usize = 0;
    while i < n
        invariant
            0 <= i <= n,
            n == a@.len(),
            cv@ == a@,
            forall|j: int| 0 <= j < i ==> a@[j] != '=' && a@[j] != '<' && a@[j] != '>',
        decreases n - i,
    {
        let c = cv[i];
        if c == '=' || c == '<' || c == '>' {
            return true;
        }
        i += 1;
    }
    false
}

/// Resolves an add command line: version-constrained arguments and flags
/// pass through; a plain name with a best compatible catalog version is
/// pinned to it; a name known to the catalog with no compatible version
/// is reported incompatible; an unknown name passes through.
pub fn resolve_add_args(args: &[String], os_version: &str, index: &[Package]) -> (r: AddResolution)
    ensures
        r.args.deep_view() == resolved_args_of(args.deep_view(), index.deep_view(), os_version@),
        r.pinned.deep_view() == pinned_of(args.deep_view(), index.deep_view(), os_version@),
        r.incompatible.deep_view() == incompatible_of(
            args.deep_view(),
            index.deep_view(),
            os_version@,
        ),
{
    let ghost av = args.deep_view();
    let ghost cat = index.deep_view();
    let n = args.len();
    let mut r = AddResolution { args: Vec::new(), pinned: Vec::new(), incompatible: Vec::new() };
    let mut i: usize = 0;
    proof {
        assert(av.take(0) =~= Seq::<Seq<char>>::empty());
    }
    while i < n
        invariant
            0 <= i <= n,
            n == args.len(),
            av == args.deep_view(),
            cat == index.deep_view(),
            r.args.deep_view() == resolved_args_of(av.take(i as int), cat, os_version@),
            r.pinned.deep_view() == pinned_of(av.take(i as int), cat, os_version@),
            r.incompatible.deep_view() == incompatible_of(av.take(i as int), cat, os_version@),
        decreases n - i,
    {
        let arg = &args[i];
        proof {
            assert(av.take(i + 1).drop_last() =~= av.take(i as int));
            assert(av.take(i + 1).last() == arg@);
        }
        if is_passthrough_arg(arg.as_str()) {
            let ghost prev = r.args.deep_view();
            r.args.push(arg.clone());
            proof {
                assert(r.args.deep_view() =~= prev.push(arg@));
            }
        } else {
            match crate::compat::find_best_compatible_version(arg.as_str(), os_version, index) {
                Some(b) => {
                    let mut pin = index[b].name.clone();
                    pin.append("=");
                    pin.append(index[b].version.as_str());
                    proof {
                        reveal_strlit("=");
                        assert(("="@) =~= seq!['=']);
                        assert(pin@ == cat[b as int].name + seq!['='] + cat[b as int].version);
                    }
                    let ghost prev_args = r.args.deep_view();
                    let ghost prev_pinned = r.pinned.deep_view();
                    r.args.push(pin);
                    r.pinned.push(index[b].name.clone());
                    proof {
                        assert(r.args.deep_view() =~= prev_args.push(
                            cat[b as int].name + seq!['='] + cat[b as int].version,
                        ));
                        assert(r.pinned.deep_view() =~= prev_pinned.push(cat[b as int].name));
                    }
                },
                None => {
                    let (found, _, _) = scan_name(index, arg.as_str(), os_version);
                    if found {
                        let ghost prev = r.incompatible.deep_view();
                        r.incompatible.push(arg.clone());
                        proof {
                            assert(r.incompatible.deep_view() =~= prev.push(arg@));
                        }
                    } else {
                        let ghost prev = r.args.deep_view();
                        r.args.push(arg.clone());
                        proof {
                            assert(r.args.deep_view() =~= prev.push(arg@));
                        }
                    }
                },
            }
        }
        i += 1;
    }
    proof {
        assert(av.take(n as int) =~= av);
    }
    r
}

/// An argument that answers the upgrade confirmation ahead of time.
pub open spec fn is_yes_flag(a: Seq<char>) -> bool {
    a == "-y"@ || a == "--yes"@
}

/// Splits the upgrade command line into the confirmation flag and the
/// arguments handed on to the tool.
pub fn parse_upgrade_flags(args: &[String]) -> (r: (bool, Vec<String>))
    ensures
        r.0 == exists|i: int|
            0 <= i < args.deep_view().len() && is_yes_flag(#[trigger] args.deep_view()[i]),
        r.1.deep_view() == args.deep_view().filter(|a: Seq<char>| !is_yes_flag(a)),
{
    let ghost av = args.deep_view();
    let ghost pred = |a: Seq<char>| !is_yes_flag(a);
    let n = args.len();
    let mut yes = false;
    let mut rest: Vec<String> = Vec::new();
    let mut i: usize = 0;
    proof {
        assert(av.take(0) =~= Seq::<Seq<char>>::empty());
        reveal(Seq::filter);
        assert(rest.deep_view() =~= av.take(0).filter(pred));
    }
    while i < n
        invariant
            0 <= i <= n,
            n == args.len(),
            av == args.deep_view(),
            pred == (|a: Seq<char>| !is_yes_flag(a)),
            yes == exists|j: int| 0 <= j < i && is_yes_flag(#[trigger] av[j]),
            rest.deep_view() == av.take(i as int).filter(pred),
        decreases n - i,
    {
        let arg = &args[i];
        proof {
            assert(av.take(i + 1).drop_last() =~= av.take(i as int));
            assert(av.take(i + 1) =~= av.take(i as int).push(arg@));
            crate::compat::lemma_filter_push(av.take(i as int), pred, arg@);
        }
        if str_eq(arg.as_str(), "-y") || str_eq(arg.as_str(), "--yes") {
            yes = true;
            assert(is_yes_flag(av[i as int]));
        } else {
            let ghost prev = rest.deep_view();
            rest.push(arg.clone());
            proof {
                assert(rest.deep_view() =~= prev.push(arg@));
                assert(forall|j: int|
                    0 <= j < i + 1 && is_yes_flag(#[trigger] av[j]) ==> j < i);
            }
        }
        i += 1;
    }
    proof {
        assert(av.take(n as int) =~= av);
    }
    (yes, rest)
}

/// The argument list of an upgrade invocation: the subcommand, the
/// simulation switch when only probing, the availability switch on a
/// downgrade, then the caller's remaining arguments.
pub fn upgrade_command_args(simulate: bool, downgrade: bool, rest: &[String]) -> (r: Vec<String>)
    ensures
        r.deep_view() =~= seq!["upgrade"@] + (if simulate {
            seq!["--simulate"@]
        } else {
            Seq::<Seq<char>>::empty()
        }) + (if downgrade {
            seq!["--available"@]
        } else {
            Seq::<Seq<char>>::empty()
        }) + rest.deep_view(),
{
    let ghost rv = rest.deep_view();
    let mut r: Vec<String> = Vec::new();
    r.push(String::from_str("upgrade"));
    if simulate {
        r.push(String::from_str("--simulate"));
    }
    if downgrade {
        r.push(String::from_str("--available"));
    }
    let ghost head = r.deep_view();
    let n = rest.len();
    let mut i: usize = 0;
    proof {
        assert(rv.take(0) =~= Seq::<Seq<char>>::empty());
        assert(head + rv.take(0) =~= head);
    }
    while i < n
        invariant
            0 <= i <= n,
            n == rest.len(),
            rv == rest.deep_view(),
            r.deep_view() == head + rv.take(i as int),
        decreases n - i,
    {
        let ghost prev = r.deep_view();
        r.push(rest[i].clone());
        proof {
            assert(r.deep_view() =~= prev.push(rv[i as int]));
            assert(head + rv.take(i + 1) =~= (head + rv.take(i as int)).push(rv[i as int]));
        }
        i += 1;
    }
    proof {
        assert(rv.take(n as int) =~= rv);
    }
    r
}

/// The package name announced by one line of the upgrade simulation: the
/// text after the first `Upgrading ` marker up to the next marker, cut
/// before any ` (`, trimmed; nothing where the marker is absent or the
/// name comes out empty.
pub open spec fn upgrading_pkg_of(line: Seq<char>) -> Option<Seq<char>> {
    match find_sub(line, "Upgrading "@) {
        None => None,
        Some(i) => {
            let after = line.skip(i + ("Upgrading "@).len());
            let piece = match find_sub(after, "Upgrading "@) {
                Some(j) => after.take(j),
                None => after,
            };
            let name = match find_sub(piece, " ("@) {
                Some(k) => piece.take(k),
                None => piece,
            };
            let trimmed = trim_spec(name);
            if trimmed.len() > 0 {
                Some(trimmed)
            } else {
                None
            }
        },
    }
}

/// The names announced by the whole simulation output, in order.
pub open spec fn upgrades_of(lines: Seq<Seq<char>>) -> Seq<Seq<char>>
    decreases lines.len(),
{
    if lines.len() == 0 {
        Seq::<Seq<char>>::empty()
    } else {
        upgrades_of(lines.drop_last()) + (match upgrading_pkg_of(lines.last()) {
            Some(n) => seq![n],
            None => Seq::<Seq<char>>::empty(),
        })
    }
}

/// Reads the package names out of the upgrade simulation output.
pub fn parse_upgrade_simulation(out: &str) -> (r: Vec<String>)
    ensures
        r.deep_view() == upgrades_of(lines_of(out@)),
{
    let lines = split_lines(out);
    let ghost lv = lines.deep_view();
    let n = lines.len();
    let mut r: Vec<String> = Vec::new();
    let mut i: usize = 0;
    proof {
        assert(lv.take(0) =~= Seq::<Seq<char>>::empty());
    }
    while i < n
        invariant
            0 <= i <= n,
            n == lines.len(),
            lv == lines.deep_view(),
            r.deep_view() == upgrades_of(lv.take(i as int)),
        decreases n - i,
    {
        let line = lines[i];
        proof {
            assert(lv.take(i + 1).drop_last() =~= lv.take(i as int));
            assert(lv.take(i + 1).last() == line@);
        }
        match str_find(line, "Upgrading ") {
            None => {
                proof {
                    assert(upgrades_of(lv.take(i + 1)) =~= upgrades_of(lv.take(i as int)));
                }
            },
            Some(p) => {
                proof {
                    reveal_strlit("Upgrading ");
                    crate::chars::lemma_find_sub_props(line@, "Upgrading "@);
                }
                let ln = line.unicode_len();
                let after = line.substring_char(p + 10, ln);
                assert(after@ =~= line@.skip(p + ("Upgrading "@).len()));
                let piece = match str_find(after, "Upgrading ") {
                    Some(q) => {
                        proof {
                            crate::chars::lemma_find_sub_props(after@, "Upgrading "@);
                        }
                        let t = after.substring_char(0, q);
                        assert(t@ =~= after@.take(q as int));
                        t
                    },
                    None => after,
                };
                let name = match str_find(piece, " (") {
                    Some(k) => {
                        proof {
                            reveal_strlit(" (");
                            crate::chars::lemma_find_sub_props(piece@, " ("@);
                        }
                        let t = piece.substring_char(0, k);
                        assert(t@ =~= piece@.take(k as int));
                        t
                    },
                    None => piece,
                };
                let trimmed = str_trim(name);
                if trimmed.unicode_len() > 0 {
                    assert(upgrading_pkg_of(line@) == Some(trimmed@));
                    let ghost prev = r.deep_view();
                    r.push(trimmed.to_owned());
                    proof {
                        assert(r.deep_view() =~= prev.push(trimmed@));
                        assert(upgrades_of(lv.take(i + 1)) =~= upgrades_of(
                            lv.take(i as int),
                        ).push(trimmed@));
                    }
                } else {
                    proof {
                        assert(upgrading_pkg_of(line@) is None);
                        assert(upgrades_of(lv.take(i + 1)) =~= upgrades_of(lv.take(i as int)));
                    }
                }
            },
        }
        i += 1;
    }
    proof {
        assert(lv.take(n as int) =~= lv);
    }
    r
}

/// What one world-file line becomes: the first listed package whose
/// `name=` pin opens the line, un-pinned back to the bare name; any other
/// line unchanged.
pub open spec fn unpin_line(line: Seq<char>, pkgs: Seq<Seq<char>>) -> Seq<char>
    decreases pkgs.len(),
{
    if pkgs.len() == 0 {
        line
    } else if starts_with(line, pkgs[0] + seq!['=']) {
        pkgs[0]
    } else {
        unpin_line(line, pkgs.drop_first())
    }
}

/// The world file with the listed packages' version pins removed.
pub open spec fn unpinned_world(content: Seq<char>, pkgs: Seq<Seq<char>>) -> Seq<char> {
    join_nl(lines_of(content).map_values(|l: Seq<char>| unpin_line(l, pkgs)))
}

/// The first listed package whose pin opens the line, if any.
fn unpin_match<'a>(line: &str, packages: &'a [String]) -> (r: Option<&'a String>)
    ensures
        match r {
            Some(p) => unpin_line(line@, packages.deep_view()) == p@,
            None => unpin_line(line@, packages.deep_view()) == line@,
        },
{
    let ghost pv = packages.deep_view();
    let m = packages.len();
    let mut k: usize = 0;
    proof {
        assert(pv.skip(0) =~= pv);
    }
    while k < m
        invariant
            0 <= k <= m,
            m == packages.len(),
            pv == packages.deep_view(),
            unpin_line(line@, pv) == unpin_line(line@, pv.skip(k as int)),
        decreases m - k,
    {
        let pkg = &packages[k];
        proof {
            assert(pv.skip(k as int)[0] == pv[k as int]);
            assert(pv.skip(k as int).drop_first() =~= pv.skip(k + 1int));
        }
        let mut pin = pkg.clone();
        pin.append("=");
        proof {
            reveal_strlit("=");
            assert(("="@) =~= seq!['=']);
            assert(pin@ == pv[k as int] + seq!['=']);
        }
        if str_starts_with(line, pin.as_str()) {
            assert(unpin_line(line@, pv) == pv[k as int]);
            return Some(pkg);
        }
        k += 1;
    }
    proof {
        assert(pv.skip(m as int) =~= Seq::<Seq<char>>::empty());
    }
    None
}

/// Removes the version pins of the listed packages from the world file's
/// lines, per `unpinned_world`.
pub fn unpin_world_lines(content: &str, packages: &[String]) -> (r: String)
    ensures
        r@ == unpinned_world(content@, packages.deep_view()),
{
    let ghost pv = packages.deep_view();
    let lines = split_lines(content);
    let ghost lv = lines.deep_view();
    let n = lines.len();
    let mut out: Vec<String> = Vec::new();
    let mut i: usize = 0;
    while i < n
        invariant
            0 <= i <= n,
            n == lines.len(),
            lv == lines.deep_view(),
            pv == packages.deep_view(),
            out.deep_view().len() == i,
            forall|j: int| 0 <= j < i ==> out.deep_view()[j] == unpin_line(lv[j], pv),
        decreases n - i,
    {
        let line = lines[i];
        match unpin_match(line, packages) {
            Some(p) => {
                let ghost prev = out.deep_view();
                out.push(p.clone());
                proof {
                    assert(out.deep_view() =~= prev.push(unpin_line(lv[i as int], pv)));
                }
            },
            None => {
                let ghost prev = out.deep_view();
                out.push(line.to_owned());
                proof {
                    assert(out.deep_view() =~= prev.push(unpin_line(lv[i as int], pv)));
                }
            },
        }
        i += 1;
    }
    proof {
        assert(out.deep_view() =~= lv.map_values(|l: Seq<char>| unpin_line(l, pv)));
    }
    join_lines(&out)
}

/// The virtual packages the device repository provides itself: the OS
/// marker and the device markers.
pub open spec fn is_virtual_name(name: Seq<char>) -> bool {
    name == "remarkable-os"@ || name == "rm1"@ || name == "rm2"@ || name == "rmpp"@ || name
        == "rmppm"@
}

/// Whether a package is one of the repository's own virtual packages.
pub fn is_virtual_package(name: &str) -> (r: bool)
    ensures
        r == is_virtual_name(name@),
{
    str_eq(name, "remarkable-os") || str_eq(name, "rm1") || str_eq(name, "rm2") || str_eq(
        name,
        "rmpp",
    ) || str_eq(name, "rmppm")
}

/// The installed names that are real user packages: the virtual ones
/// dropped.
pub fn filter_user_packages(installed: &[String]) -> (r: Vec<String>)
    ensures
        r.deep_view() == installed.deep_view().filter(|n: Seq<char>| !is_virtual_name(n)),
{
    let ghost iv = installed.deep_view();
    let ghost pred = |n: Seq<char>| !is_virtual_name(n);
    let n = installed.len();
    let mut r: Vec<String> = Vec::new();
    let mut i: usize = 0;
    proof {
        assert(iv.take(0) =~= Seq::<Seq<char>>::empty());
        reveal(Seq::filter);
        assert(r.deep_view() =~= iv.take(0).filter(pred));
    }
    while i < n
        invariant
            0 <= i <= n,
            n == installed.len(),
            iv == installed.deep_view(),
            pred == (|n: Seq<char>| !is_virtual_name(n)),
            r.deep_view() == iv.take(i as int).filter(pred),
        decreases n - i,
    {
        let name = &installed[i];
        proof {
            assert(iv.take(i + 1) =~= iv.take(i as int).push(name@));
            crate::compat::lemma_filter_push(iv.take(i as int), pred, name@);
        }
        if !is_virtual_package(name.as_str()) {
            let ghost prev = r.deep_view();
            r.push(name.clone());
            proof {
                assert(r.deep_view() =~= prev.push(name@));
            }
        }
        i += 1;
    }
    proof {
        assert(iv.take(n as int) =~= iv);
    }
    r
}

/// Whether a command line names the manager's own package, which the
/// remove commands refuse to touch.
pub fn names_own_package(args: &[String]) -> (r: bool)
    ensures
        r == exists|i: int|
            0 <= i < args.deep_view().len() && #[trigger] args.deep_view()[i] == "vellum"@,
{
    let ghost av = args.deep_view();
    let n = args.len();
    let mut i: usize = 0;
    while i < n
        invariant
            0 <= i <= n,
            n == args.len(),
            av == args.deep_view(),
            forall|j: int| 0 <= j < i ==> #[trigger] av[j] != "vellum"@,
        decreases n - i,
    {
        if str_eq(args[i].as_str(), "vellum") {
            assert(av[i as int] == "vellum"@);
            return true;
        }
        assert(av[i as int] != "vellum"@);
        i += 1;
    }
    false
}

/// Whether a dependency list mentions the OS package at all.
pub fn has_os_dependency(deps: &[String]) -> (r: bool)
    ensures
        r == exists|i: int|
            0 <= i < deps.deep_view().len() && contains_sub(
                #[trigger] deps.deep_view()[i],
                "remarkable-os"@,
            ),
{
    let ghost dv = deps.deep_view();
    let n = deps.len();
    let mut i: usize = 0;
    while i < n
        invariant
            0 <= i <= n,
            n == deps.len(),
            dv == deps.deep_view(),
            forall|j: int|
                0 <= j < i ==> !contains_sub(#[trigger] dv[j], "remarkable-os"@),
        decreases n - i,
    {
        let found = str_find(deps[i].as_str(), "remarkable-os");
        if found.is_some() {
            assert(contains_sub(dv[i as int], "remarkable-os"@));
            return true;
        }
        assert(!contains_sub(dv[i as int], "remarkable-os"@));
        i += 1;
    }
    false
}

/// Whether a command may run while the recorded OS version and the
/// running one disagree: everything but installing new packages.
pub fn is_allowed_during_mismatch(cmd: &str) -> (r: bool)
    ensures
        r == !(cmd@ == "add"@ || cmd@ == "install"@),
{
    !(str_eq(cmd, "add") || str_eq(cmd, "install"))
}

} // verus!
