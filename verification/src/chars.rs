//! Character-sequence models and executable helpers shared by the parsers:
//! splitting on a separator, line splitting with the usual CRLF handling,
//! whitespace tokenising, prefix and suffix tests, and trimming.

use vstd::prelude::*;

verus! {

broadcast use vstd::string::group_string_axioms;

use vstd::std_specs::iter::IteratorSpec;

/// Whether `c` occurs in `s`.
pub open spec fn contains_char(s: Seq<char>, c: char) -> bool {
    exists|i: int| 0 <= i < s.len() && s[i] == c
}

/// `p` is a prefix of `s`.
pub open spec fn starts_with(s: Seq<char>, p: Seq<char>) -> bool {
    s.len() >= p.len() && s.take(p.len() as int) == p
}

/// `p` is a suffix of `s`.
pub open spec fn ends_with(s: Seq<char>, p: Seq<char>) -> bool {
    s.len() >= p.len() && s.skip(s.len() - p.len()) == p
}

/// The pieces of `s` between occurrences of `sep`, in order; a string
/// without the separator is a single piece, so the result is never empty.
pub open spec fn split_on(s: Seq<char>, sep: char) -> Seq<Seq<char>>
    decreases s.len(),
{
    if s.len() == 0 {
        seq![s]
    } else if s[0] == sep {
        seq![Seq::<char>::empty()] + split_on(s.drop_first(), sep)
    } else {
        let rest = split_on(s.drop_first(), sep);
        seq![seq![s[0]] + rest[0]] + rest.drop_first()
    }
}

pub proof fn lemma_split_on_len(s: Seq<char>, sep: char)
    ensures
        split_on(s, sep).len() >= 1,
    decreases s.len(),
{
    if s.len() > 0 && s[0] != sep {
        lemma_split_on_len(s.drop_first(), sep);
    }
}

/// A string without the separator splits into itself alone.
pub proof fn lemma_split_on_none(s: Seq<char>, sep: char)
    requires
        !contains_char(s, sep),
    ensures
        split_on(s, sep) =~= seq![s],
    decreases s.len(),
{
    if s.len() == 0 {
    } else {
        assert(s[0] != sep);
        assert(!contains_char(s.drop_first(), sep)) by {
            assert(forall|i: int|
                0 <= i < s.drop_first().len() ==> s.drop_first()[i] == s[i + 1]);
        }
        lemma_split_on_none(s.drop_first(), sep);
        assert(seq![s[0]] + s.drop_first() =~= s);
    }
}

/// Splitting at the first occurrence of the separator peels off the text
/// before it.
pub proof fn lemma_split_on_first(s: Seq<char>, sep: char, i: int)
    requires
        0 <= i < s.len(),
        s[i] == sep,
        forall|j: int| 0 <= j < i ==> s[j] != sep,
    ensures
        split_on(s, sep) =~= seq![s.take(i)] + split_on(s.skip(i + 1), sep),
    decreases i,
{
    if i == 0 {
        assert(s.take(0) =~= Seq::<char>::empty());
        assert(s.skip(1) =~= s.drop_first());
    } else {
        assert(s[0] != sep);
        let d = s.drop_first();
        assert(forall|j: int| 0 <= j < d.len() ==> d[j] == s[j + 1]);
        lemma_split_on_first(d, sep, i - 1);
        lemma_split_on_len(d.skip(i), sep);
        assert(d.take(i - 1) =~= s.take(i).drop_first());
        assert(d.skip(i) =~= s.skip(i + 1));
        let rest = split_on(d, sep);
        assert(rest =~= seq![d.take(i - 1)] + split_on(d.skip(i), sep));
        assert(rest[0] == d.take(i - 1));
        assert(seq![s[0]] + rest[0] =~= s.take(i));
        assert(rest.drop_first() =~= split_on(d.skip(i), sep));
    }
}

/// One trailing carriage return removed, as line readers do before a
/// newline.
pub open spec fn strip_cr(s: Seq<char>) -> Seq<char> {
    if s.len() > 0 && s.last() == '\r' {
        s.drop_last()
    } else {
        s
    }
}

/// The lines of `s` as a line reader yields them: split on `'\n'`, a
/// carriage return before each newline stripped, no final empty line for a
/// trailing newline, and no lines at all for an empty string.
pub open spec fn lines_of(s: Seq<char>) -> Seq<Seq<char>> {
    if s.len() == 0 {
        Seq::<Seq<char>>::empty()
    } else {
        let ps = split_on(s, '\n');
        if s.last() == '\n' {
            ps.drop_last().map_values(|p: Seq<char>| strip_cr(p))
        } else {
            ps.take(ps.len() - 1).map_values(|p: Seq<char>| strip_cr(p)) + seq![ps.last()]
        }
    }
}

/// A string that holds the separator splits into at least two pieces.
pub proof fn lemma_split_on_contains(s: Seq<char>, sep: char)
    requires
        contains_char(s, sep),
    ensures
        split_on(s, sep).len() >= 2,
    decreases s.len(),
{
    if s.len() > 0 && s[0] != sep {
        let d = s.drop_first();
        let i = choose|i: int| 0 <= i < s.len() && s[i] == sep;
        assert(d[i - 1] == sep);
        lemma_split_on_contains(d, sep);
    } else if s.len() > 0 {
        lemma_split_on_len(s.drop_first(), sep);
    }
}

/// A nonempty string has at least one line.
pub proof fn lemma_lines_of_nonempty(s: Seq<char>)
    requires
        s.len() > 0,
    ensures
        lines_of(s).len() >= 1,
{
    lemma_split_on_len(s, '\n');
    if s.last() == '\n' {
        assert(contains_char(s, '\n'));
        lemma_split_on_contains(s, '\n');
    }
}

/// The Unicode `White_Space` property, the set `char::is_whitespace` and
/// `str::trim` go by.
pub open spec fn is_space(c: char) -> bool {
    let u = c as u32;
    (0x9 <= u && u <= 0xD) || u == 0x20 || u == 0x85 || u == 0xA0 || u == 0x1680 || (0x2000 <= u
        && u <= 0x200A) || u == 0x2028 || u == 0x2029 || u == 0x202F || u == 0x205F || u == 0x3000
}

pub fn is_space_char(c: char) -> (r: bool)
    ensures
        r == is_space(c),
{
    let u = c as u32;
    (0x9 <= u && u <= 0xD) || u == 0x20 || u == 0x85 || u == 0xA0 || u == 0x1680 || (0x2000 <= u
        && u <= 0x200A) || u == 0x2028 || u == 0x2029 || u == 0x202F || u == 0x205F || u == 0x3000
}

/// The maximal runs of non-whitespace characters in `s`, in order.
pub open spec fn split_ws(s: Seq<char>) -> Seq<Seq<char>>
    decreases s.len(),
{
    if s.len() == 0 {
        Seq::<Seq<char>>::empty()
    } else if is_space(s[0]) {
        split_ws(s.drop_first())
    } else {
        let rest = split_ws(s.drop_first());
        if s.len() > 1 && !is_space(s[1]) {
            seq![seq![s[0]] + rest[0]] + rest.drop_first()
        } else {
            seq![seq![s[0]]] + rest
        }
    }
}

/// A token starting at the front of `s` runs to the first whitespace
/// character (or the end) and is followed by the remaining tokens.
pub proof fn lemma_split_ws_token(s: Seq<char>, j: int)
    requires
        0 < j <= s.len(),
        forall|k: int| 0 <= k < j ==> !is_space(s[k]),
        j < s.len() ==> is_space(s[j]),
    ensures
        split_ws(s) =~= seq![s.take(j)] + split_ws(s.skip(j)),
    decreases j,
{
    let d = s.drop_first();
    assert(forall|i: int| 0 <= i < d.len() ==> d[i] == s[i + 1]);
    if j == 1 {
        if s.len() > 1 {
            assert(is_space(s[1]));
            assert(s.take(1) =~= seq![s[0]]);
            assert(s.skip(1) =~= d);
        } else {
            assert(s.take(1) =~= seq![s[0]]);
            assert(s.skip(1) =~= Seq::<char>::empty());
        }
    } else {
        assert(!is_space(s[1]));
        lemma_split_ws_token(d, j - 1);
        let rest = split_ws(d);
        assert(rest =~= seq![d.take(j - 1)] + split_ws(d.skip(j - 1)));
        assert(rest[0] == d.take(j - 1));
        assert(seq![s[0]] + rest[0] =~= s.take(j));
        assert(rest.drop_first() =~= split_ws(d.skip(j - 1)));
        assert(d.skip(j - 1) =~= s.skip(j));
    }
}

/// `s` with leading whitespace removed.
pub open spec fn trim_front(s: Seq<char>) -> Seq<char>
    decreases s.len(),
{
    if s.len() > 0 && is_space(s[0]) {
        trim_front(s.drop_first())
    } else {
        s
    }
}

/// `s` with trailing whitespace removed.
pub open spec fn trim_back(s: Seq<char>) -> Seq<char>
    decreases s.len(),
{
    if s.len() > 0 && is_space(s.last()) {
        trim_back(s.drop_last())
    } else {
        s
    }
}

/// `s` with whitespace removed from both ends, as `str::trim` does.
pub open spec fn trim_spec(s: Seq<char>) -> Seq<char> {
    trim_back(trim_front(s))
}

/// The position of the first occurrence of `p` as a contiguous sub-sequence
/// of `s`, if any.
pub open spec fn find_sub(s: Seq<char>, p: Seq<char>) -> Option<int>
    decreases s.len(),
{
    if s.len() < p.len() {
        None
    } else if starts_with(s, p) {
        Some(0int)
    } else if s.len() == 0 {
        None
    } else {
        match find_sub(s.drop_first(), p) {
            Some(i) => Some(i + 1),
            None => None,
        }
    }
}

/// `p` occurs somewhere in `s`.
pub open spec fn contains_sub(s: Seq<char>, p: Seq<char>) -> bool {
    find_sub(s, p) is Some
}

/// A found position is in range and `p` indeed stands there.
pub proof fn lemma_find_sub_props(s: Seq<char>, p: Seq<char>)
    ensures
        find_sub(s, p) matches Some(i) ==> 0 <= i && i + p.len() <= s.len() && starts_with(
            s.skip(i),
            p,
        ),
    decreases s.len(),
{
    if s.len() < p.len() {
    } else if starts_with(s, p) {
        assert(s.skip(0) =~= s);
    } else if s.len() == 0 {
    } else {
        lemma_find_sub_props(s.drop_first(), p);
        if find_sub(s.drop_first(), p) is Some {
            let j = find_sub(s.drop_first(), p)->0;
            assert(s.drop_first().skip(j) =~= s.skip(j + 1));
        }
    }
}

/// The lines joined with single newlines, none at the end.
pub open spec fn join_nl(ls: Seq<Seq<char>>) -> Seq<char>
    decreases ls.len(),
{
    if ls.len() == 0 {
        Seq::<char>::empty()
    } else if ls.len() == 1 {
        ls[0]
    } else {
        join_nl(ls.drop_last()) + seq!['\n'] + ls.last()
    }
}

/// Joins lines with single newlines, per `join_nl`.
pub fn join_lines(ls: &Vec<String>) -> (r: String)
    ensures
        r@ == join_nl(ls.deep_view()),
{
    let ghost lv = ls.deep_view();
    let n = ls.len();
    let mut r = String::new();
    let mut i: usize = 0;
    proof {
        assert(join_nl(lv.take(0)) =~= Seq::<char>::empty());
    }
    while i < n
        invariant
            0 <= i <= n,
            n == ls.len(),
            lv == ls.deep_view(),
            r@ == join_nl(lv.take(i as int)),
        decreases n - i,
    {
        if i > 0 {
            r.append("\n");
            proof {
                reveal_strlit("\n");
                assert(("\n"@) =~= seq!['\n']);
            }
        }
        r.append(ls[i].as_str());
        proof {
            assert(lv.take(i + 1).drop_last() =~= lv.take(i as int));
            assert(lv.take(i + 1).last() == lv[i as int]);
            if i == 0 {
                assert(join_nl(lv.take(1int)) == lv[0]);
                assert(Seq::<char>::empty() + lv[0] =~= lv[0]);
            }
        }
        i += 1;
    }
    proof {
        assert(lv.take(n as int) =~= lv);
    }
    r
}

/// The characters of `s` as a vector, for random access while scanning.
pub fn to_chars(s: &str) -> (r: Vec<char>)
    ensures
        r@ == s@,
{
    let mut it = s.chars();
    let mut r: Vec<char> = Vec::new();
    loop
        invariant
            r@ + it.remaining() == s@,
            it.obeys_prophetic_iter_laws(),
            it.decrease() is Some,
        decreases it.decrease()->0,
    {
        match it.next() {
            Some(c) => r.push(c),
            None => {
                assert(it.remaining().len() == 0);
                assert(r@ =~= s@);
                return r;
            },
        }
    }
}

/// Character-for-character string equality.
pub fn str_eq(a: &str, b: &str) -> (r: bool)
    ensures
        r == (a@ == b@),
{
    let an = a.unicode_len();
    let bn = b.unicode_len();
    if an != bn {
        assert(a@ != b@);
        return false;
    }
    let mut i: usize = 0;
    while i < an
        invariant
            0 <= i <= an,
            an == a@.len(),
            an == b@.len(),
            forall|j: int| 0 <= j < i ==> a@[j] == b@[j],
        decreases an - i,
    {
        if a.get_char(i) != b.get_char(i) {
            return false;
        }
        i += 1;
    }
    assert(a@ =~= b@);
    true
}

/// Whether `s` begins with `p`.
pub fn str_starts_with(s: &str, p: &str) -> (r: bool)
    ensures
        r == starts_with(s@, p@),
{
    let sn = s.unicode_len();
    let pn = p.unicode_len();
    if sn < pn {
        return false;
    }
    let mut i: usize = 0;
    while i < pn
        invariant
            0 <= i <= pn,
            pn <= sn,
            sn == s@.len(),
            pn == p@.len(),
            forall|j: int| 0 <= j < i ==> s@[j] == p@[j],
        decreases pn - i,
    {
        if s.get_char(i) != p.get_char(i) {
            assert(s@.take(pn as int)[i as int] != p@[i as int]);
            return false;
        }
        i += 1;
    }
    assert(s@.take(pn as int) =~= p@);
    true
}

/// Whether `s` ends with `p`.
pub fn str_ends_with(s: &str, p: &str) -> (r: bool)
    ensures
        r == ends_with(s@, p@),
{
    let sn = s.unicode_len();
    let pn = p.unicode_len();
    if sn < pn {
        return false;
    }
    let off = sn - pn;
    let mut i: usize = 0;
    while i < pn
        invariant
            0 <= i <= pn,
            pn <= sn,
            off == sn - pn,
            sn == s@.len(),
            pn == p@.len(),
            forall|j: int| 0 <= j < i ==> s@[off + j] == p@[j],
        decreases pn - i,
    {
        if s.get_char(off + i) != p.get_char(i) {
            assert(s@.skip(off as int)[i as int] != p@[i as int]);
            return false;
        }
        i += 1;
    }
    assert(s@.skip(off as int) =~= p@);
    true
}

/// The rest of `s` after the prefix `p`, when `s` begins with it.
pub fn str_strip_prefix<'a>(s: &'a str, p: &str) -> (r: Option<&'a str>)
    ensures
        match r {
            Some(t) => starts_with(s@, p@) && t@ == s@.skip(p@.len() as int),
            None => !starts_with(s@, p@),
        },
{
    if str_starts_with(s, p) {
        let sn = s.unicode_len();
        let pn = p.unicode_len();
        let t = s.substring_char(pn, sn);
        assert(t@ =~= s@.skip(p@.len() as int));
        Some(t)
    } else {
        None
    }
}

/// The pieces of `s` between occurrences of `sep`, per `split_on`.
pub fn split_str<'a>(s: &'a str, sep: char) -> (r: Vec<&'a str>)
    ensures
        r.deep_view() == split_on(s@, sep),
{
    let cv = to_chars(s);
    let n = cv.len();
    let mut r: Vec<&'a str> = Vec::new();
    let mut start: usize = 0;
    proof {
        assert(s@.skip(0) =~= s@);
        assert(r.deep_view() + split_on(s@, sep) =~= split_on(s@, sep));
    }
    loop
        invariant
            0 <= start <= n,
            n == s@.len(),
            cv@ == s@,
            split_on(s@, sep) =~= r.deep_view() + split_on(s@.skip(start as int), sep),
        decreases n - start,
    {
        // scan for the next separator
        let mut j: usize = start;
        while j < n && cv[j] != sep
            invariant
                start <= j <= n,
                n == s@.len(),
                cv@ == s@,
                forall|k: int| start <= k < j ==> s@[k] != sep,
            decreases n - j,
        {
            j += 1;
        }
        let ghost tail = s@.skip(start as int);
        let piece = s.substring_char(start, j);
        if j < n {
            proof {
                assert(forall|k: int|
                    0 <= k < tail.len() ==> tail[k] == s@[start + k]);
                lemma_split_on_first(tail, sep, j - start);
                assert(tail.take(j - start) =~= piece@);
                assert(tail.skip(j - start + 1) =~= s@.skip(j + 1));
            }
            r.push(piece);
            proof {
                assert(r.deep_view() =~= r.deep_view().drop_last() + seq![piece@]);
                assert(split_on(s@, sep) =~= r.deep_view() + split_on(
                    s@.skip(j + 1int),
                    sep,
                ));
            }
            start = j + 1;
        } else {
            proof {
                assert(forall|k: int|
                    0 <= k < tail.len() ==> tail[k] == s@[start + k]);
                assert(!contains_char(tail, sep));
                lemma_split_on_none(tail, sep);
                assert(tail =~= piece@);
            }
            r.push(piece);
            proof {
                assert(r.deep_view() =~= r.deep_view().drop_last() + seq![piece@]);
                assert(split_on(s@, sep) =~= r.deep_view());
            }
            return r;
        }
    }
}

/// The lines of `s`, per `lines_of`.
pub fn split_lines<'a>(s: &'a str) -> (r: Vec<&'a str>)
    ensures
        r.deep_view() == lines_of(s@),
{
    let n = s.unicode_len();
    if n == 0 {
        let r: Vec<&'a str> = Vec::new();
        assert(r.deep_view() =~= lines_of(s@));
        return r;
    }
    let ps = split_str(s, '\n');
    proof {
        lemma_split_on_len(s@, '\n');
    }
    let last_is_nl = s.get_char(n - 1) == '\n';
    let ghost psv = ps.deep_view();
    let m = ps.len() - 1;
    let mut r: Vec<&'a str> = Vec::new();
    let mut i: usize = 0;
    while i < m
        invariant
            0 <= i <= m,
            m + 1 == psv.len(),
            psv == ps.deep_view(),
            psv == split_on(s@, '\n'),
            r.deep_view().len() == i,
            forall|j: int| 0 <= j < i ==> r.deep_view()[j] == strip_cr(psv[j]),
        decreases m - i,
    {
        let piece = ps[i];
        let pn = piece.unicode_len();
        let line = if pn > 0 && piece.get_char(pn - 1) == '\r' {
            let t = piece.substring_char(0, pn - 1);
            assert(t@ =~= piece@.drop_last());
            t
        } else {
            piece
        };
        assert(line@ == strip_cr(psv[i as int]));
        let ghost prev = r.deep_view();
        r.push(line);
        proof {
            assert(r.deep_view() =~= prev.push(line@));
        }
        i += 1;
    }
    if !last_is_nl {
        let piece = ps[ps.len() - 1];
        let ghost prev = r.deep_view();
        r.push(piece);
        proof {
            assert(r.deep_view() =~= prev.push(piece@));
        }
    }
    proof {
        let f = |p: Seq<char>| strip_cr(p);
        if last_is_nl {
            assert(r.deep_view() =~= psv.drop_last().map_values(f));
        } else {
            assert(r.deep_view() =~= psv.take(psv.len() - 1).map_values(f) + seq![psv.last()]);
        }
    }
    r
}

/// The whitespace-separated tokens of `s`, per `split_ws`, as owned strings.
pub fn split_ws_tokens(s: &str) -> (r: Vec<String>)
    ensures
        r.deep_view() == split_ws(s@),
{
    let cv = to_chars(s);
    let n = cv.len();
    let mut r: Vec<String> = Vec::new();
    let mut i: usize = 0;
    proof {
        assert(s@.skip(0) =~= s@);
        assert(r.deep_view() + split_ws(s@) =~= split_ws(s@));
    }
    loop
        invariant
            0 <= i <= n,
            n == s@.len(),
            cv@ == s@,
            split_ws(s@) =~= r.deep_view() + split_ws(s@.skip(i as int)),
        decreases n - i,
    {
        if i == n {
            assert(s@.skip(i as int) =~= Seq::<char>::empty());
            assert(split_ws(s@) =~= r.deep_view());
            return r;
        }
        let ghost tail = s@.skip(i as int);
        proof {
            assert(forall|k: int| 0 <= k < tail.len() ==> tail[k] == s@[i + k]);
        }
        if is_space_char(cv[i]) {
            proof {
                assert(tail.drop_first() =~= s@.skip(i + 1int));
            }
            i += 1;
        } else {
            let mut j: usize = i + 1;
            while j < n && !is_space_char(cv[j])
                invariant
                    i < j <= n,
                    n == s@.len(),
                    cv@ == s@,
                    forall|k: int| i <= k < j ==> !is_space(s@[k]),
                decreases n - j,
            {
                j += 1;
            }
            let tok = s.substring_char(i, j).to_owned();
            proof {
                lemma_split_ws_token(tail, j - i);
                assert(tail.take(j - i) =~= tok@);
                assert(tail.skip(j - i) =~= s@.skip(j as int));
            }
            r.push(tok);
            proof {
                assert(r.deep_view() =~= r.deep_view().drop_last() + seq![tok@]);
                assert(split_ws(s@) =~= r.deep_view() + split_ws(s@.skip(j as int)));
            }
            i = j;
        }
    }
}

/// `s` with whitespace removed from both ends, per `trim_spec`.
pub fn str_trim<'a>(s: &'a str) -> (r: &'a str)
    ensures
        r@ == trim_spec(s@),
{
    let n = s.unicode_len();
    let cv = to_chars(s);
    let mut a: usize = 0;
    proof {
        assert(s@.skip(0) =~= s@);
    }
    while a < n && is_space_char(cv[a])
        invariant
            0 <= a <= n,
            n == s@.len(),
            cv@ == s@,
            trim_front(s@) == trim_front(s@.skip(a as int)),
        decreases n - a,
    {
        proof {
            let tail = s@.skip(a as int);
            assert(tail[0] == s@[a as int]);
            assert(tail.drop_first() =~= s@.skip(a + 1int));
        }
        a += 1;
    }
    proof {
        let tail = s@.skip(a as int);
        if a < n {
            assert(tail[0] == s@[a as int]);
        }
        assert(trim_front(s@) == tail);
    }
    let mut b: usize = n;
    proof {
        assert(s@.skip(a as int) =~= s@.subrange(a as int, n as int));
    }
    while b > a && is_space_char(cv[b - 1])
        invariant
            a <= b <= n,
            n == s@.len(),
            cv@ == s@,
            trim_front(s@) == s@.skip(a as int),
            trim_back(s@.skip(a as int)) == trim_back(s@.subrange(a as int, b as int)),
        decreases b,
    {
        proof {
            let part = s@.subrange(a as int, b as int);
            assert(part.last() == s@[b - 1int]);
            assert(part.drop_last() =~= s@.subrange(a as int, b - 1int));
        }
        b -= 1;
    }
    proof {
        let part = s@.subrange(a as int, b as int);
        if b > a {
            assert(part.last() == s@[b - 1int]);
        }
        assert(trim_back(part) == part);
    }
    let r = s.substring_char(a, b);
    assert(r@ =~= s@.subrange(a as int, b as int));
    r
}

/// The position of the first occurrence of `p` in `s`, per `find_sub`.
pub fn str_find(s: &str, p: &str) -> (r: Option<usize>)
    ensures
        match r {
            Some(i) => find_sub(s@, p@) == Some(i as int),
            None => find_sub(s@, p@) is None,
        },
{
    let n = s.unicode_len();
    let pn = p.unicode_len();
    if pn > n {
        proof {
            lemma_find_sub_none(s@, p@, 0);
        }
        return None;
    }
    if pn == 0 {
        proof {
            assert(s@.skip(0) =~= s@);
            assert(s@.take(0) =~= p@);
            lemma_find_sub_at(s@, p@, 0);
        }
        return Some(0);
    }
    let mut i: usize = 0;
    loop
        invariant
            0 <= i <= n - pn + 1,
            0 < pn <= n,
            n == s@.len(),
            pn == p@.len(),
            forall|k: int| 0 <= k < i ==> !starts_with(#[trigger] s@.skip(k), p@),
        decreases n - i,
    {
        if i > n - pn {
            proof {
                lemma_find_sub_none(s@, p@, i as int);
            }
            return None;
        }
        let sub = s.substring_char(i, i + pn);
        if str_eq(sub, p) {
            proof {
                assert(sub@ =~= s@.skip(i as int).take(pn as int));
                assert(starts_with(s@.skip(i as int), p@));
                lemma_find_sub_at(s@, p@, i as int);
            }
            return Some(i);
        }
        proof {
            assert(sub@ =~= s@.skip(i as int).take(pn as int));
            assert(!starts_with(s@.skip(i as int), p@));
        }
        i += 1;
    }
}

/// When every start position has been ruled out up to where `p` no longer
/// fits, `p` does not occur at all.
proof fn lemma_find_sub_none(s: Seq<char>, p: Seq<char>, i: int)
    requires
        0 <= i <= s.len() + 1,
        i + p.len() > s.len(),
        forall|k: int| 0 <= k < i ==> !starts_with(#[trigger] s.skip(k), p),
    ensures
        find_sub(s, p) is None,
    decreases s.len(),
{
    if s.len() >= p.len() {
        assert(starts_with(s, p) ==> starts_with(s.skip(0), p)) by {
            assert(s.skip(0) =~= s);
        }
        assert(i > 0);
        if s.len() == 0 {
        } else {
            let d = s.drop_first();
            assert forall|k: int| 0 <= k < i - 1 implies !starts_with(#[trigger] d.skip(k), p) by {
                assert(d.skip(k) =~= s.skip(k + 1));
            }
            lemma_find_sub_none(d, p, i - 1);
        }
    }
}

/// When `p` occurs at `i` and nowhere earlier, `find_sub` yields `i`.
proof fn lemma_find_sub_at(s: Seq<char>, p: Seq<char>, i: int)
    requires
        0 <= i,
        i + p.len() <= s.len(),
        starts_with(s.skip(i), p),
        forall|k: int| 0 <= k < i ==> !starts_with(#[trigger] s.skip(k), p),
    ensures
        find_sub(s, p) == Some(i),
    decreases s.len(),
{
    assert(s.skip(0) =~= s);
    if i == 0 {
        assert(starts_with(s, p));
    } else {
        assert(!starts_with(s, p));
        let d = s.drop_first();
        assert(d.skip(i - 1) =~= s.skip(i));
        assert forall|k: int| 0 <= k < i - 1 implies !starts_with(#[trigger] d.skip(k), p) by {
            assert(d.skip(k) =~= s.skip(k + 1));
        }
        lemma_find_sub_at(d, p, i - 1);
    }
}

} // verus!
