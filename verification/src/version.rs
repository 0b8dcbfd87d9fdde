//! The version comparator: dot-separated version strings compared
//! numerically component by component, with any release suffix after a `-`
//! inside a component ignored and a longer version winning a tie.

use vstd::prelude::*;

use crate::chars::{contains_char, split_on};
use core::cmp::Ordering;

verus! {

/// A decimal digit.
pub open spec fn is_digit(c: char) -> bool {
    0x30 <= c as u32 && c as u32 <= 0x39
}

pub open spec fn digit_val(c: char) -> int {
    c as u32 - 0x30
}

pub open spec fn all_digits(s: Seq<char>) -> bool {
    forall|i: int| 0 <= i < s.len() ==> is_digit(s[i])
}

/// The value of a string of decimal digits.
pub open spec fn digits_val(s: Seq<char>) -> int
    decreases s.len(),
{
    if s.len() == 0 {
        0
    } else {
        digits_val(s.drop_last()) * 10 + digit_val(s.last())
    }
}

/// The text of a component before its first `-`, where a release suffix
/// such as `r1` may begin.
pub open spec fn pre_dash(c: Seq<char>) -> Seq<char>
    decreases c.len(),
{
    if c.len() == 0 {
        c
    } else if c[0] == '-' {
        Seq::<char>::empty()
    } else {
        seq![c[0]] + pre_dash(c.drop_first())
    }
}

/// What parsing `s` as a 32-bit signed integer yields: an optional sign,
/// then at least one decimal digit, with the value in range.
pub open spec fn parse_i32(s: Seq<char>) -> Option<int> {
    if s.len() == 0 {
        None
    } else {
        let neg = s[0] == '-';
        let rest = if s[0] == '-' || s[0] == '+' {
            s.drop_first()
        } else {
            s
        };
        if rest.len() == 0 || !all_digits(rest) {
            None
        } else {
            let v = digits_val(rest);
            if neg {
                if v <= 0x8000_0000 {
                    Some(-v)
                } else {
                    None
                }
            } else {
                if v <= 0x7FFF_FFFF {
                    Some(v)
                } else {
                    None
                }
            }
        }
    }
}

/// The numeric value of one version component: the text before the first
/// `-`, read as an integer, with anything unparsable counting as zero.
pub open spec fn comp_num(c: Seq<char>) -> int {
    match parse_i32(pre_dash(c)) {
        Some(v) => v,
        None => 0,
    }
}

/// The numeric components of a version string.
pub open spec fn nums_of(s: Seq<char>) -> Seq<int> {
    split_on(s, '.').map_values(|c: Seq<char>| comp_num(c))
}

/// Lexicographic comparison of integer sequences, a strict prefix ranking
/// below its extensions.
pub open spec fn lex_cmp(x: Seq<int>, y: Seq<int>) -> Ordering
    decreases x.len(),
{
    if x.len() == 0 && y.len() == 0 {
        Ordering::Equal
    } else if x.len() == 0 {
        Ordering::Less
    } else if y.len() == 0 {
        Ordering::Greater
    } else if x[0] < y[0] {
        Ordering::Less
    } else if x[0] > y[0] {
        Ordering::Greater
    } else {
        lex_cmp(x.drop_first(), y.drop_first())
    }
}

/// How version `a` compares to version `b`: by numeric dot-components,
/// then by component count.
pub open spec fn version_cmp(a: Seq<char>, b: Seq<char>) -> Ordering {
    lex_cmp(nums_of(a), nums_of(b))
}

pub open spec fn spec_version_gte(a: Seq<char>, b: Seq<char>) -> bool {
    version_cmp(a, b) != Ordering::Less
}

pub open spec fn spec_version_lt(a: Seq<char>, b: Seq<char>) -> bool {
    version_cmp(a, b) == Ordering::Less
}

/// The numeric value of the component `c`, clamped into `i32` by the
/// parse-failure-is-zero rule.
fn component_value(c: &str) -> (x: i32)
    ensures
        x as int == comp_num(c@),
{
    let parts = crate::chars::split_str(c, '-');
    proof {
        lemma_pre_dash_is_first_piece(c@);
        crate::chars::lemma_split_on_len(c@, '-');
        assert(parts.deep_view().len() >= 1);
    }
    let p = parts[0];
    assert(p@ == pre_dash(c@));
    parse_i32_or_zero(p)
}

proof fn lemma_pre_dash_is_first_piece(c: Seq<char>)
    ensures
        split_on(c, '-')[0] == pre_dash(c),
    decreases c.len(),
{
    if c.len() == 0 {
    } else if c[0] == '-' {
    } else {
        lemma_pre_dash_is_first_piece(c.drop_first());
    }
}

/// Parses `s` as `i32`, with anything unparsable counting as zero.
#[verifier::rlimit(50)]
fn parse_i32_or_zero(s: &str) -> (x: i32)
    ensures
        x as int == match parse_i32(s@) {
            Some(v) => v,
            None => 0,
        },
{
    let cv = crate::chars::to_chars(s);
    let n = cv.len();
    if n == 0 {
        return 0;
    }
    let neg = cv[0] == '-';
    let start: usize = if cv[0] == '-' || cv[0] == '+' {
        1
    } else {
        0
    };
    let ghost rest = if s@[0] == '-' || s@[0] == '+' {
        s@.drop_first()
    } else {
        s@
    };
    proof {
        assert(rest =~= s@.skip(start as int));
    }
    if n == start {
        return 0;
    }
    let mut i: usize = start;
    let mut acc: u64 = 0;
    let mut big: bool = false;
    while i < n
        invariant
            start <= i <= n,
            n == s@.len(),
            cv@ == s@,
            rest == s@.skip(start as int),
            rest == if s@[0] == '-' || s@[0] == '+' {
                s@.drop_first()
            } else {
                s@
            },
            neg == (s@[0] == '-'),
            start <= 1,
            rest.len() > 0,
            all_digits(s@.subrange(start as int, i as int)),
            !big ==> acc == digits_val(s@.subrange(start as int, i as int)),
            !big ==> acc <= 0x8000_0000,
            big ==> digits_val(s@.subrange(start as int, i as int)) > 0x8000_0000,
        decreases n - i,
    {
        let c = cv[i];
        let u = c as u32;
        if !(0x30 <= u && u <= 0x39) {
            assert(!is_digit(s@[i as int]));
            assert(!all_digits(rest)) by {
                assert(rest[i - start] == s@[i as int]);
            }
            return 0;
        }
        let d: u64 = (u - 0x30) as u64;
        proof {
            let taken = s@.subrange(start as int, i as int);
            let taken1 = s@.subrange(start as int, i + 1int);
            assert(taken1.drop_last() =~= taken);
            assert(taken1.last() == s@[i as int]);
        }
        if big {
            proof {
                let taken = s@.subrange(start as int, i as int);
                let taken1 = s@.subrange(start as int, i + 1int);
                assert(digits_val(taken1) == digits_val(taken) * 10 + digit_val(s@[i as int]));
                assert(digits_val(taken) * 10 > 0x8000_0000);
            }
        } else {
            let next = acc * 10 + d;
            if next > 0x8000_0000 {
                big = true;
            } else {
                acc = next;
            }
        }
        i += 1;
    }
    proof {
        assert(s@.subrange(start as int, n as int) =~= rest);
    }
    if big {
        return 0;
    }
    if neg {
        if acc == 0x8000_0000 {
            i32::MIN
        } else {
            -(acc as i32)
        }
    } else {
        if acc > 0x7FFF_FFFF {
            0
        } else {
            acc as i32
        }
    }
}

/// Compares two dot-separated version strings: equal components are
/// skipped, the first numeric difference decides, and otherwise the version
/// with more components is the greater.
pub fn compare_versions(a: &str, b: &str) -> (r: Ordering)
    ensures
        r == version_cmp(a@, b@),
{
    let ap = crate::chars::split_str(a, '.');
    let bp = crate::chars::split_str(b, '.');
    let ghost xs = nums_of(a@);
    let ghost ys = nums_of(b@);
    let an = ap.len();
    let bn = bp.len();
    let min = if an < bn {
        an
    } else {
        bn
    };
    let mut i: usize = 0;
    proof {
        assert(xs.skip(0) =~= xs);
        assert(ys.skip(0) =~= ys);
    }
    while i < min
        invariant
            0 <= i <= min,
            min == if an < bn {
                an as int
            } else {
                bn as int
            },
            an == ap.len(),
            bn == bp.len(),
            ap.deep_view() == split_on(a@, '.'),
            bp.deep_view() == split_on(b@, '.'),
            xs == nums_of(a@),
            ys == nums_of(b@),
            xs.len() == an,
            ys.len() == bn,
            version_cmp(a@, b@) == lex_cmp(xs.skip(i as int), ys.skip(i as int)),
        decreases min - i,
    {
        let x = component_value(ap[i]);
        let y = component_value(bp[i]);
        proof {
            assert(xs[i as int] == comp_num(ap.deep_view()[i as int]));
            assert(ys[i as int] == comp_num(bp.deep_view()[i as int]));
            assert(xs.skip(i as int)[0] == xs[i as int]);
            assert(ys.skip(i as int)[0] == ys[i as int]);
        }
        if x < y {
            return Ordering::Less;
        } else if x > y {
            return Ordering::Greater;
        }
        proof {
            assert(xs.skip(i as int).drop_first() =~= xs.skip(i + 1int));
            assert(ys.skip(i as int).drop_first() =~= ys.skip(i + 1int));
        }
        i += 1;
    }
    proof {
        if an < bn {
            assert(xs.skip(i as int).len() == 0);
            assert(ys.skip(i as int).len() > 0);
        } else if an > bn {
            assert(ys.skip(i as int).len() == 0);
            assert(xs.skip(i as int).len() > 0);
        } else {
            assert(xs.skip(i as int).len() == 0);
            assert(ys.skip(i as int).len() == 0);
        }
    }
    if an < bn {
        Ordering::Less
    } else if an > bn {
        Ordering::Greater
    } else {
        Ordering::Equal
    }
}

/// Whether version `a` is at least version `b`.
pub fn version_gte(a: &str, b: &str) -> (r: bool)
    ensures
        r == spec_version_gte(a@, b@),
{
    !matches!(compare_versions(a, b), Ordering::Less)
}

/// Whether version `a` is strictly below version `b`.
pub fn version_lt(a: &str, b: &str) -> (r: bool)
    ensures
        r == spec_version_lt(a@, b@),
{
    matches!(compare_versions(a, b), Ordering::Less)
}

proof fn lemma_lex_cmp_refl(x: Seq<int>)
    ensures
        lex_cmp(x, x) == Ordering::Equal,
    decreases x.len(),
{
    if x.len() > 0 {
        lemma_lex_cmp_refl(x.drop_first());
    }
}

proof fn lemma_lex_cmp_flip(x: Seq<int>, y: Seq<int>)
    ensures
        (lex_cmp(x, y) == Ordering::Less) <==> (lex_cmp(y, x) == Ordering::Greater),
        (lex_cmp(x, y) == Ordering::Equal) <==> (lex_cmp(y, x) == Ordering::Equal),
    decreases x.len(),
{
    if x.len() > 0 && y.len() > 0 && x[0] == y[0] {
        lemma_lex_cmp_flip(x.drop_first(), y.drop_first());
    }
}

proof fn lemma_lex_cmp_lt_trans(x: Seq<int>, y: Seq<int>, z: Seq<int>)
    requires
        lex_cmp(x, y) == Ordering::Less,
        lex_cmp(y, z) == Ordering::Less,
    ensures
        lex_cmp(x, z) == Ordering::Less,
    decreases x.len(),
{
    if x.len() == 0 {
    } else {
        if x[0] == y[0] && y[0] == z[0] {
            lemma_lex_cmp_lt_trans(x.drop_first(), y.drop_first(), z.drop_first());
        }
    }
}

proof fn lemma_lex_cmp_ge_trans(x: Seq<int>, y: Seq<int>, z: Seq<int>)
    requires
        lex_cmp(x, y) != Ordering::Less,
        lex_cmp(y, z) != Ordering::Less,
    ensures
        lex_cmp(x, z) != Ordering::Less,
    decreases x.len(),
{
    if x.len() > 0 && z.len() > 0 && y.len() > 0 && x[0] == y[0] && y[0] == z[0] {
        lemma_lex_cmp_ge_trans(x.drop_first(), y.drop_first(), z.drop_first());
    }
}

/// The comparator relates every version to itself as equal.
pub proof fn lemma_version_cmp_reflexive(a: Seq<char>)
    ensures
        version_cmp(a, a) == Ordering::Equal,
{
    lemma_lex_cmp_refl(nums_of(a));
}

/// Swapping the arguments swaps `Less` and `Greater` and keeps `Equal`, so
/// the comparator orders versions consistently from either side.
pub proof fn lemma_version_cmp_antisymmetric(a: Seq<char>, b: Seq<char>)
    ensures
        (version_cmp(a, b) == Ordering::Less) <==> (version_cmp(b, a) == Ordering::Greater),
        (version_cmp(a, b) == Ordering::Equal) <==> (version_cmp(b, a) == Ordering::Equal),
{
    lemma_lex_cmp_flip(nums_of(a), nums_of(b));
}

/// Strict comparison is transitive, which with reflexivity, antisymmetry
/// and the match-everything result type makes the comparator a total order
/// on the numeric reading of versions.
pub proof fn lemma_version_cmp_transitive(a: Seq<char>, b: Seq<char>, c: Seq<char>)
    requires
        version_cmp(a, b) == Ordering::Less,
        version_cmp(b, c) == Ordering::Less,
    ensures
        version_cmp(a, c) == Ordering::Less,
{
    lemma_lex_cmp_lt_trans(nums_of(a), nums_of(b), nums_of(c));
}

proof fn lemma_lex_cmp_le_lt_trans(x: Seq<int>, y: Seq<int>, z: Seq<int>)
    requires
        lex_cmp(x, y) != Ordering::Greater,
        lex_cmp(y, z) == Ordering::Less,
    ensures
        lex_cmp(x, z) == Ordering::Less,
    decreases x.len(),
{
    if x.len() > 0 && y.len() > 0 && z.len() > 0 && x[0] == y[0] && y[0] == z[0] {
        lemma_lex_cmp_le_lt_trans(x.drop_first(), y.drop_first(), z.drop_first());
    }
}

/// At most something and strictly below a third: strictly below it too.
pub proof fn lemma_version_cmp_le_lt_transitive(a: Seq<char>, b: Seq<char>, c: Seq<char>)
    requires
        version_cmp(a, b) != Ordering::Greater,
        version_cmp(b, c) == Ordering::Less,
    ensures
        version_cmp(a, c) == Ordering::Less,
{
    lemma_lex_cmp_le_lt_trans(nums_of(a), nums_of(b), nums_of(c));
}

/// The non-strict order is transitive too.
pub proof fn lemma_version_gte_transitive(a: Seq<char>, b: Seq<char>, c: Seq<char>)
    requires
        spec_version_gte(a, b),
        spec_version_gte(b, c),
    ensures
        spec_version_gte(a, c),
{
    lemma_lex_cmp_ge_trans(nums_of(a), nums_of(b), nums_of(c));
}

proof fn lemma_pre_dash_id(c: Seq<char>)
    requires
        !contains_char(c, '-'),
    ensures
        pre_dash(c) == c,
    decreases c.len(),
{
    if c.len() > 0 {
        assert(c[0] != '-');
        assert(!contains_char(c.drop_first(), '-')) by {
            assert(forall|i: int|
                0 <= i < c.drop_first().len() ==> c.drop_first()[i] == c[i + 1]);
        }
        lemma_pre_dash_id(c.drop_first());
        assert(seq![c[0]] + c.drop_first() =~= c);
    }
}

/// A nonempty string of decimal digits, in range, reads as its value.
pub proof fn lemma_comp_num_of_digits(d: Seq<char>)
    requires
        d.len() > 0,
        all_digits(d),
        digits_val(d) <= 0x7FFF_FFFF,
    ensures
        comp_num(d) == digits_val(d),
{
    assert(forall|i: int| 0 <= i < d.len() ==> d[i] != '-' && d[i] != '+');
    assert(!contains_char(d, '-'));
    lemma_pre_dash_id(d);
    assert(parse_i32(d) == Some(digits_val(d)));
}

/// The comparator agrees with numeric comparison of a final dot-component:
/// for any common prefix without a dot and two numeric components, the
/// version carrying the larger number is the greater.
pub proof fn lemma_version_numeric_order(p: Seq<char>, da: Seq<char>, db: Seq<char>)
    requires
        !contains_char(p, '.'),
        da.len() > 0,
        all_digits(da),
        digits_val(da) <= 0x7FFF_FFFF,
        db.len() > 0,
        all_digits(db),
        digits_val(db) <= 0x7FFF_FFFF,
        digits_val(da) > digits_val(db),
    ensures
        version_cmp(p + seq!['.'] + da, p + seq!['.'] + db) == Ordering::Greater,
{
    lemma_split_dot_tail(p, da);
    lemma_split_dot_tail(p, db);
    let sa = p + seq!['.'] + da;
    let sb = p + seq!['.'] + db;
    lemma_comp_num_of_digits(da);
    lemma_comp_num_of_digits(db);
    assert(nums_of(sa) =~= seq![comp_num(p), digits_val(da)]);
    assert(nums_of(sb) =~= seq![comp_num(p), digits_val(db)]);
    let ta = seq![digits_val(da)];
    let tb = seq![digits_val(db)];
    assert(lex_cmp(ta, tb) == Ordering::Greater);
    assert(nums_of(sa).drop_first() =~= ta);
    assert(nums_of(sb).drop_first() =~= tb);
    assert(nums_of(sa)[0] == nums_of(sb)[0]);
    assert(lex_cmp(nums_of(sa), nums_of(sb)) == lex_cmp(ta, tb));
}

proof fn lemma_split_dot_tail(p: Seq<char>, d: Seq<char>)
    requires
        !contains_char(p, '.'),
        d.len() > 0,
        all_digits(d),
    ensures
        split_on(p + seq!['.'] + d, '.') =~= seq![p, d],
{
    let s = p + seq!['.'] + d;
    assert(forall|i: int| 0 <= i < d.len() ==> d[i] != '.');
    assert(!contains_char(d, '.'));
    assert(s[p.len() as int] == '.');
    assert(forall|j: int| 0 <= j < p.len() ==> s[j] == p[j] && s[j] != '.');
    crate::chars::lemma_split_on_first(s, '.', p.len() as int);
    assert(s.take(p.len() as int) =~= p);
    assert(s.skip(p.len() as int + 1) =~= d);
    crate::chars::lemma_split_on_none(d, '.');
}

} // verus!
