//! The text grammar of derivation components: `[xpub]/path` optionally
//! followed by `/ranges`, and splitting of text at a separator.

use vstd::prelude::*;

use crate::path::split_on;
use crate::text::{is_digit, split_where};

verus! {

/// The parts of `chars[lo..hi]` between separators, as index pairs.
pub open spec fn parts_view(chars: Seq<char>, parts: Seq<(usize, usize)>) -> Seq<Seq<char>> {
    parts.map_values(|p: (usize, usize)| chars.subrange(p.0 as int, p.1 as int))
}

/// Splits `chars[lo..hi]` at `sep`, as `str::split` does, giving the bounds
/// of each part.
pub fn split_positions(chars: &Vec<char>, lo: usize, hi: usize, sep: char) -> (r: Vec<(usize, usize)>)
    requires
        lo <= hi <= chars@.len(),
    ensures
        parts_view(chars@, r@) == split_on(chars@.subrange(lo as int, hi as int), sep),
        r@.len() >= 1,
        forall|k: int| 0 <= k < r@.len() ==> lo <= (#[trigger] r@[k]).0 <= r@[k].1 <= hi,
{
    let mut parts: Vec<(usize, usize)> = Vec::new();
    let mut cur: usize = lo;
    let mut i: usize = lo;
    assert(chars@.subrange(lo as int, lo as int) =~= Seq::<char>::empty());
    assert(parts_view(chars@, parts@).push(chars@.subrange(cur as int, i as int)) =~= seq![
        Seq::<char>::empty(),
    ]);
    while i < hi
        invariant
            lo <= cur <= i <= hi <= chars@.len(),
            split_on(chars@.subrange(lo as int, i as int), sep) == parts_view(chars@, parts@).push(
                chars@.subrange(cur as int, i as int),
            ),
            forall|k: int| 0 <= k < parts@.len() ==> lo <= (#[trigger] parts@[k]).0 <= parts@[k].1 <= cur,
        decreases hi - i,
    {
        let ghost prev = chars@.subrange(lo as int, i as int);
        let ghost next = chars@.subrange(lo as int, i + 1);
        assert(next.drop_last() =~= prev);
        assert(next.last() == chars@[i as int]);
        if chars[i] == sep {
            let ghost old_view = parts_view(chars@, parts@);
            let ghost old_cur = cur;
            parts.push((cur, i));
            assert(parts_view(chars@, parts@) =~= old_view.push(chars@.subrange(old_cur as int, i as int)));
            cur = i + 1;
            i = i + 1;
            assert(chars@.subrange(cur as int, i as int) =~= Seq::<char>::empty());
            assert(split_on(next, sep) =~= parts_view(chars@, parts@).push(
                chars@.subrange(cur as int, i as int),
            ));
        } else {
            i = i + 1;
            assert(chars@.subrange(cur as int, (i - 1) as int).push(chars@[i - 1]) =~= chars@.subrange(
                cur as int,
                i as int,
            ));
            assert(split_on(next, sep) =~= parts_view(chars@, parts@).push(
                chars@.subrange(cur as int, i as int),
            ));
        }
    }
    parts.push((cur, hi));
    assert(parts_view(chars@, parts@) =~= split_on(chars@.subrange(lo as int, hi as int), sep));
    parts
}


/// A Base58 digit: `[1-9A-HJ-NP-Za-km-z]`.
pub open spec fn is_base58(c: char) -> bool {
    ('1' <= c && c <= '9') || ('A' <= c && c <= 'H') || ('J' <= c && c <= 'N') || ('P' <= c
        && c <= 'Z') || ('a' <= c && c <= 'k') || ('m' <= c && c <= 'z')
}

/// The first letter of a SLIP-132 public key prefix: `[xyztuvXYZTUV]`.
pub open spec fn is_xpub_lead(c: char) -> bool {
    c == 'x' || c == 'y' || c == 'z' || c == 't' || c == 'u' || c == 'v' || c == 'X' || c == 'Y'
        || c == 'Z' || c == 'T' || c == 'U' || c == 'V'
}

/// Text of an extended public key in the grammar:
/// `[xyztuvXYZTUV]pub[1-9A-HJ-NP-Za-km-z]{107,108}`.
pub open spec fn xpub_chars(x: Seq<char>) -> bool {
    &&& x.len() == 111 || x.len() == 112
    &&& is_xpub_lead(x[0])
    &&& x[1] == 'p' && x[2] == 'u' && x[3] == 'b'
    &&& forall|i: int| 4 <= i < x.len() ==> #[trigger] is_base58(x[i])
}

/// A hardened-step mark: `h` or `'`.
pub open spec fn is_mark(c: char) -> bool {
    c == 'h' || c == '\''
}

/// Text of a path in the grammar, `([0-9]{1,10}[h']?)+`: digits, each mark
/// right after a digit, starting with a digit.
pub open spec fn deriv_chars(d: Seq<char>) -> bool {
    &&& d.len() > 0
    &&& forall|i: int|
        0 <= i < d.len() ==> #[trigger] is_digit(d[i]) || (is_mark(d[i]) && i > 0 && is_digit(d[i - 1]))
}

/// A separator of index ranges: `,` or `-`.
pub open spec fn is_range_sep(c: char) -> bool {
    c == ',' || c == '-'
}

/// The range separators.
pub open spec fn range_sep() -> spec_fn(char) -> bool {
    |c: char| is_range_sep(c)
}

/// The groups of `s` between range separators.
pub open spec fn split_groups(s: Seq<char>) -> Seq<Seq<char>> {
    split_where(s, range_sep())
}

/// A group of one to ten decimal digits.
pub open spec fn digit_group(g: Seq<char>) -> bool {
    1 <= g.len() <= 10 && forall|i: int| 0 <= i < g.len() ==> #[trigger] is_digit(g[i])
}

/// Text of index ranges in the grammar,
/// `\*|[0-9]{1,10}([,-][0-9]{1,10})*`.
pub open spec fn range_chars(r: Seq<char>) -> bool {
    r == seq!['*'] || forall|k: int| 0 <= k < split_groups(r).len() ==> #[trigger] digit_group(
        split_groups(r)[k],
    )
}

/// The text after the path: nothing, or `/` and the ranges.
pub open spec fn ranges_tail(r: Option<Seq<char>>) -> Seq<char> {
    match r {
        None => Seq::empty(),
        Some(rr) => seq!['/'] + rr,
    }
}

/// `t` is `[x]/d` or `[x]/d/r`, with `x`, `d` and `r` in the grammar of an
/// extended public key, a path and index ranges: the anchored pattern
/// `^\[xpub\]/deriv(/range)?$`.
pub open spec fn derivation_match(t: Seq<char>, x: Seq<char>, d: Seq<char>, r: Option<Seq<char>>) -> bool {
    &&& t == seq!['['] + x + seq![']', '/'] + d + ranges_tail(r)
    &&& xpub_chars(x)
    &&& deriv_chars(d)
    &&& match r {
        None => true,
        Some(rr) => range_chars(rr),
    }
}

/// The parts of `t` that match the grammar, if it matches.
#[verifier::opaque]
pub open spec fn derivation_captures(t: Seq<char>) -> Option<(Seq<char>, Seq<char>, Option<Seq<char>>)> {
    if exists|x: Seq<char>, d: Seq<char>, r: Option<Seq<char>>| derivation_match(t, x, d, r) {
        Some(choose|x: Seq<char>, d: Seq<char>, r: Option<Seq<char>>| derivation_match(t, x, d, r))
    } else {
        None
    }
}

/// Where the parts of a match stand in the text.
proof fn lemma_match_shape(t: Seq<char>, x: Seq<char>, d: Seq<char>, r: Option<Seq<char>>)
    requires
        derivation_match(t, x, d, r),
    ensures
        ({
            let xl = x.len() as int;
            let dl = d.len() as int;
            &&& t.len() >= xl + 3 + dl
            &&& t[0] == '['
            &&& t[1 + xl] == ']'
            &&& t[2 + xl] == '/'
            &&& forall|i: int| 1 <= i < 1 + xl ==> t[i] != ']'
            &&& t.subrange(1, 1 + xl) == x
            &&& forall|i: int| 3 + xl <= i < 3 + xl + dl ==> t[i] != '/'
            &&& t.subrange(3 + xl, 3 + xl + dl) == d
            &&& r is None ==> t.len() == xl + 3 + dl
            &&& r matches Some(rr) ==> (t.len() == xl + 4 + dl + rr.len() && t[3 + xl + dl] == '/'
                && t.subrange(4 + xl + dl, t.len() as int) == rr)
        }),
{
    let xl = x.len() as int;
    let dl = d.len() as int;
    let b = 3 + xl;
    assert forall|i: int| 1 <= i < 1 + xl implies t[i] != ']' by {
        assert(t[i] == x[i - 1]);
        if i - 1 >= 4 {
            assert(is_base58(x[i - 1]));
        }
    }
    assert(t.subrange(1, 1 + xl) =~= x);
    assert forall|i: int| b <= i < b + dl implies t[i] != '/' by {
        assert(t[i] == d[i - b]);
        assert(is_digit(d[i - b]) || is_mark(d[i - b]));
    }
    assert(t.subrange(b, b + dl) =~= d);
    if let Some(rr) = r {
        assert(t.subrange(b + dl + 1, t.len() as int) =~= rr);
    }
}

/// A text matches the grammar in at most one way.
pub proof fn lemma_match_unique(
    t: Seq<char>,
    x1: Seq<char>,
    d1: Seq<char>,
    r1: Option<Seq<char>>,
    x2: Seq<char>,
    d2: Seq<char>,
    r2: Option<Seq<char>>,
)
    requires
        derivation_match(t, x1, d1, r1),
        derivation_match(t, x2, d2, r2),
    ensures
        x1 == x2 && d1 == d2 && r1 == r2,
{
    lemma_match_shape(t, x1, d1, r1);
    lemma_match_shape(t, x2, d2, r2);
    if x1.len() < x2.len() {
        assert(t[1 + x1.len() as int] != ']');
    }
    if x2.len() < x1.len() {
        assert(t[1 + x2.len() as int] != ']');
    }
    let b = 3 + x1.len() as int;
    if d1.len() < d2.len() {
        assert(t[b + d1.len() as int] != '/');
    }
    if d2.len() < d1.len() {
        assert(t[b + d2.len() as int] != '/');
    }
    match (r1, r2) {
        (Some(a), Some(c)) => {},
        (None, None) => {},
        (Some(a), None) => {},
        (None, Some(c)) => {},
    }
}

/// The bounds, in the text, of the parts of a match.
pub struct Captures {
    pub xpub: (usize, usize),
    pub deriv: (usize, usize),
    pub range: Option<(usize, usize)>,
}

/// The parts of `t` that the bounds stand for.
pub open spec fn captures_view(t: Seq<char>, c: Captures) -> (Seq<char>, Seq<char>, Option<Seq<char>>) {
    (
        t.subrange(c.xpub.0 as int, c.xpub.1 as int),
        t.subrange(c.deriv.0 as int, c.deriv.1 as int),
        match c.range {
            None => None,
            Some(b) => Some(t.subrange(b.0 as int, b.1 as int)),
        },
    )
}

fn check_xpub(c: &Vec<char>, lo: usize, hi: usize) -> (r: bool)
    requires
        lo <= hi <= c@.len(),
    ensures
        r == xpub_chars(c@.subrange(lo as int, hi as int)),
{
    let ghost x = c@.subrange(lo as int, hi as int);
    let len = hi - lo;
    if len != 111 && len != 112 {
        return false;
    }
    let l = c[lo];
    if !(l == 'x' || l == 'y' || l == 'z' || l == 't' || l == 'u' || l == 'v' || l == 'X' || l
        == 'Y' || l == 'Z' || l == 'T' || l == 'U' || l == 'V') {
        assert(x[0] == l);
        return false;
    }
    if !(c[lo + 1] == 'p' && c[lo + 2] == 'u' && c[lo + 3] == 'b') {
        assert(x[1] == c@[lo + 1] && x[2] == c@[lo + 2] && x[3] == c@[lo + 3]);
        return false;
    }
    assert(x[0] == l && x[1] == c@[lo + 1] && x[2] == c@[lo + 2] && x[3] == c@[lo + 3]);
    let mut i: usize = lo + 4;
    while i < hi
        invariant
            lo + 4 <= i <= hi <= c@.len(),
            x == c@.subrange(lo as int, hi as int),
            forall|j: int| 4 <= j < i - lo ==> #[trigger] is_base58(x[j]),
        decreases hi - i,
    {
        let ch = c[i];
        assert(x[i - lo] == ch);
        if !(('1' <= ch && ch <= '9') || ('A' <= ch && ch <= 'H') || ('J' <= ch && ch <= 'N') || (
        'P' <= ch && ch <= 'Z') || ('a' <= ch && ch <= 'k') || ('m' <= ch && ch <= 'z')) {
            assert(!is_base58(x[(i - lo) as int]));
            return false;
        }
        i = i + 1;
    }
    true
}

fn check_deriv(c: &Vec<char>, lo: usize, hi: usize) -> (r: bool)
    requires
        lo <= hi <= c@.len(),
    ensures
        r == deriv_chars(c@.subrange(lo as int, hi as int)),
{
    let ghost d = c@.subrange(lo as int, hi as int);
    if lo == hi {
        return false;
    }
    let mut i: usize = lo;
    while i < hi
        invariant
            lo <= i <= hi <= c@.len(),
            lo < hi,
            d == c@.subrange(lo as int, hi as int),
            forall|j: int|
                0 <= j < i - lo ==> #[trigger] is_digit(d[j]) || (is_mark(d[j]) && j > 0 && is_digit(
                    d[j - 1],
                )),
        decreases hi - i,
    {
        let ch = c[i];
        assert(d[i - lo] == ch);
        let digit = '0' <= ch && ch <= '9';
        if !digit {
            let mark = ch == 'h' || ch == '\'';
            if !(mark && i > lo && '0' <= c[i - 1] && c[i - 1] <= '9') {
                proof {
                    let j = (i - lo) as int;
                    if i > lo {
                        assert(d[j - 1] == c@[i - 1]);
                    }
                    assert(!(is_digit(d[j]) || (is_mark(d[j]) && j > 0 && is_digit(d[j - 1]))));
                }
                return false;
            }
            assert(d[i - lo - 1] == c@[i - 1]);
        }
        i = i + 1;
    }
    true
}

proof fn lemma_split_groups_step(s: Seq<char>, i: int)
    requires
        0 <= i < s.len(),
    ensures
        split_groups(s.take(i + 1)) == (if is_range_sep(s[i]) {
            split_groups(s.take(i)).push(Seq::empty())
        } else {
            let g = split_groups(s.take(i));
            g.update(g.len() - 1, g.last().push(s[i]))
        }),
{
    assert(s.take(i + 1).drop_last() =~= s.take(i));
    assert(s.take(i + 1).last() == s[i]);
}

fn check_range(c: &Vec<char>, lo: usize, hi: usize) -> (r: bool)
    requires
        lo <= hi <= c@.len(),
    ensures
        r == range_chars(c@.subrange(lo as int, hi as int)),
{
    let ghost s = c@.subrange(lo as int, hi as int);
    if hi - lo == 1 && c[lo] == '*' {
        assert(s =~= seq!['*']);
        return true;
    }
    assert(s != seq!['*']) by {
        if s.len() == 1 {
            assert(s[0] == c@[lo as int]);
            assert(s[0] != '*');
            assert(seq!['*'][0] == '*');
        } else {
            assert(seq!['*'].len() == 1);
        }
    }
    // The groups before the current one are valid; `run` is the length of
    // the current group, whose characters are digits.
    let mut run: usize = 0;
    let mut i: usize = lo;
    assert(s.take(0) =~= Seq::<char>::empty());
    assert(split_groups(s.take(0)) =~= seq![Seq::<char>::empty()]);
    while i < hi
        invariant
            lo <= i <= hi <= c@.len(),
            s == c@.subrange(lo as int, hi as int),
            s != seq!['*'],
            split_groups(s.take(i - lo)).len() >= 1,
            run == split_groups(s.take(i - lo)).last().len(),
            run <= 10,
            forall|j: int|
                0 <= j < run ==> #[trigger] is_digit(split_groups(s.take(i - lo)).last()[j]),
            forall|k: int|
                0 <= k < split_groups(s.take(i - lo)).len() - 1 ==> #[trigger] digit_group(
                    split_groups(s.take(i - lo))[k],
                ),
        decreases hi - i,
    {
        let ch = c[i];
        let ghost k = i - lo;
        let ghost before = split_groups(s.take(k));
        proof {
            assert(s[k] == ch);
            lemma_split_groups_step(s, k);
        }
        if ch == ',' || ch == '-' {
            if run == 0 {
                proof {
                    let after = split_groups(s.take(k + 1));
                    assert(after[before.len() - 1] == before.last());
                    lemma_groups_invalid_at(s, k + 1, before.len() - 1);
                }
                return false;
            }
            proof {
                let after = split_groups(s.take(k + 1));
                assert(after[before.len() - 1] == before.last());
                assert(digit_group(before.last()));
                assert forall|m: int| 0 <= m < after.len() - 1 implies #[trigger] digit_group(
                    after[m],
                ) by {
                    if m < before.len() - 1 {
                        assert(after[m] == before[m]);
                    }
                }
            }
            run = 0;
        } else if '0' <= ch && ch <= '9' && run < 10 {
            proof {
                let after = split_groups(s.take(k + 1));
                assert(after.last() == before.last().push(ch));
                assert forall|m: int| 0 <= m < after.len() - 1 implies #[trigger] digit_group(
                    after[m],
                ) by {
                    assert(after[m] == before[m]);
                }
            }
            run = run + 1;
        } else {
            proof {
                let after = split_groups(s.take(k + 1));
                let g = after.last();
                assert(g == before.last().push(ch));
                assert(!digit_group(g)) by {
                    if !('0' <= ch && ch <= '9') {
                        assert(!is_digit(g[g.len() - 1]));
                    }
                }
                lemma_groups_invalid_at(s, k + 1, after.len() - 1);
            }
            return false;
        }
        i = i + 1;
    }
    assert(s.take(hi - lo) =~= s);
    if run == 0 {
        proof {
            let g = split_groups(s);
            assert(!digit_group(g[g.len() - 1]));
        }
        return false;
    }
    proof {
        let g = split_groups(s);
        assert(digit_group(g.last()));
        assert forall|m: int| 0 <= m < g.len() implies #[trigger] digit_group(g[m]) by {
            if m == g.len() - 1 {
                assert(g[m] == g.last());
            }
        }
    }
    true
}

/// A group that is already complete, or the current one when it is not a
/// digit group at all (a separator followed it, or a non-digit or an
/// eleventh digit joined it), stays invalid in every longer text: the
/// groups of a prefix, but for the last, are groups of the whole text, and
/// the last one is a prefix of the corresponding group.
proof fn lemma_groups_invalid_at(s: Seq<char>, i: int, m: int)
    requires
        0 <= i <= s.len(),
        0 <= m < split_groups(s.take(i)).len(),
        !digit_group(split_groups(s.take(i))[m]),
        m < split_groups(s.take(i)).len() - 1 || split_groups(s.take(i))[m].len() > 10 || exists|
            j: int,
        |
            0 <= j < split_groups(s.take(i))[m].len() && !is_digit(
                #[trigger] split_groups(s.take(i))[m][j],
            ),
    ensures
        !range_chars(s) || s == seq!['*'],
    decreases s.len() - i,
{
    if i == s.len() {
        assert(s.take(i) =~= s);
    } else {
        lemma_split_groups_step(s, i);
        let before = split_groups(s.take(i));
        let after = split_groups(s.take(i + 1));
        if is_range_sep(s[i]) {
            assert(after[m] == before[m]);
            lemma_groups_invalid_at(s, i + 1, m);
        } else {
            if m < before.len() - 1 {
                assert(after[m] == before[m]);
                lemma_groups_invalid_at(s, i + 1, m);
            } else {
                let g = before[m];
                let g2 = after[m];
                assert(g2 == g.push(s[i]));
                if g.len() > 10 {
                    assert(!digit_group(g2));
                } else {
                    let j = choose|j: int| 0 <= j < g.len() && !is_digit(#[trigger] g[j]);
                    assert(g2[j] == g[j]);
                }
                lemma_groups_invalid_at(s, i + 1, m);
            }
        }
    }
}


/// When the text matches, its captures are the parts of that match.
pub proof fn lemma_captures_of_match(t: Seq<char>, x: Seq<char>, d: Seq<char>, r: Option<Seq<char>>)
    requires
        derivation_match(t, x, d, r),
    ensures
        derivation_captures(t) == Some((x, d, r)),
{
    reveal(derivation_captures);
    let (x2, d2, r2) = choose|x: Seq<char>, d: Seq<char>, r: Option<Seq<char>>|
        derivation_match(t, x, d, r);
    lemma_match_unique(t, x, d, r, x2, d2, r2);
}

/// The parts that `derivation_captures` gives are a match.
pub proof fn lemma_match_of_captures(t: Seq<char>)
    ensures
        derivation_captures(t) matches Some((x, d, r)) ==> derivation_match(t, x, d, r),
        derivation_captures(t) is None ==> forall|x: Seq<char>, d: Seq<char>, r: Option<Seq<char>>|
            !derivation_match(t, x, d, r),
{
    reveal(derivation_captures);
}

/// The text `[x]/d`.
pub open spec fn bracketed_path(x: Seq<char>, d: Seq<char>) -> Seq<char> {
    seq!['['] + x + seq![']', '/'] + d
}

/// A match of `[x]/d/*`, where `x` has no `]` and `d` no `/`, has the parts
/// `x`, `d` and `*`; one of `[x]/d` has the parts `x`, `d` and no range.
proof fn lemma_bracketed_match(x: Seq<char>, d: Seq<char>, x2: Seq<char>, d2: Seq<char>, r2: Option<Seq<char>>, star: bool)
    requires
        forall|i: int| 0 <= i < x.len() ==> x[i] != ']',
        forall|i: int| 0 <= i < d.len() ==> d[i] != '/',
        derivation_match(
            if star { bracketed_path(x, d) + seq!['/', '*'] } else { bracketed_path(x, d) },
            x2,
            d2,
            r2,
        ),
    ensures
        x2 == x,
        d2 == d,
        r2 == (if star { Some(seq!['*']) } else { None::<Seq<char>> }),
{
    let t = if star { bracketed_path(x, d) + seq!['/', '*'] } else { bracketed_path(x, d) };
    lemma_match_shape(t, x2, d2, r2);
    let xl = x.len() as int;
    let dl = d.len() as int;
    assert(t[1 + xl] == ']');
    assert(t[2 + xl] == '/');
    if x2.len() < xl {
        assert(t[1 + x2.len() as int] == x[x2.len() as int]);
    }
    assert(x2.len() == xl);
    assert(t.subrange(1, 1 + xl) =~= x);
    let b = 3 + xl;
    if star {
        assert(t[b + dl] == '/');
        assert(t.len() == b + dl + 2);
    } else {
        assert(t.len() == b + dl);
    }
    if d2.len() < dl {
        assert(t[b + d2.len() as int] == d[d2.len() as int]);
    }
    assert(d2.len() == dl);
    assert(t.subrange(b, b + dl) =~= d);
    if let Some(rr) = r2 {
        assert(rr =~= seq!['*']);
    }
}

/// `[x]/d/*`, where `x` has no `]` and `d` no `/`, matches the grammar
/// exactly where `[x]/d` does, with the range `*` where that has none.
pub proof fn lemma_star_captures(x: Seq<char>, d: Seq<char>)
    requires
        forall|i: int| 0 <= i < x.len() ==> x[i] != ']',
        forall|i: int| 0 <= i < d.len() ==> d[i] != '/',
    ensures
        derivation_captures(bracketed_path(x, d) + seq!['/', '*']) == match derivation_captures(
            bracketed_path(x, d),
        ) {
            None => None,
            Some((x1, d1, _)) => Some((x1, d1, Some(seq!['*']))),
        },
        derivation_captures(bracketed_path(x, d)) matches Some((_, _, r)) ==> r is None,
{
    let t = bracketed_path(x, d);
    let t2 = t + seq!['/', '*'];
    lemma_match_of_captures(t);
    lemma_match_of_captures(t2);
    assert(range_chars(seq!['*']));
    assert(t2 == bracketed_path(x, d) + ranges_tail(Some(seq!['*']))) by {
        assert(seq!['/'] + seq!['*'] =~= seq!['/', '*']);
    }
    assert(t == bracketed_path(x, d) + ranges_tail(None)) by {
        assert(t + Seq::<char>::empty() =~= t);
    }
    match derivation_captures(t) {
        Some((x1, d1, r1)) => {
            lemma_bracketed_match(x, d, x1, d1, r1, false);
            assert(derivation_match(t2, x, d, Some(seq!['*'])));
            lemma_captures_of_match(t2, x, d, Some(seq!['*']));
        },
        None => {
            if let Some((x2, d2, r2)) = derivation_captures(t2) {
                lemma_bracketed_match(x, d, x2, d2, r2, true);
                assert(derivation_match(t, x, d, None));
            }
        },
    }
}

/// Finds the parts of `c` in the grammar `[xpub]/deriv(/range)?`.
pub fn match_derivation(c: &Vec<char>) -> (r: Option<Captures>)
    ensures
        match r {
            None => derivation_captures(c@) is None,
            Some(caps) => {
                &&& caps.xpub.0 <= caps.xpub.1 <= caps.deriv.0 <= caps.deriv.1 <= c@.len()
                &&& (caps.range matches Some(b) ==> caps.deriv.1 <= b.0 <= b.1 <= c@.len())
                &&& derivation_captures(c@) == Some(captures_view(c@, caps))
                &&& captures_view(c@, caps).0.len() >= 111
                &&& captures_view(c@, caps).0[0] != '1'
            },
        },
{
    reveal(derivation_captures);
    let n = c.len();
    if n == 0 || c[0] != '[' {
        proof {
            if derivation_captures(c@) is Some {
                let (x, d, rr) = derivation_captures(c@)->0;
                lemma_match_shape(c@, x, d, rr);
            }
        }
        return None;
    }
    let mut p: usize = 1;
    while p < n && c[p] != ']'
        invariant
            1 <= p <= n,
            n == c@.len(),
            forall|i: int| 1 <= i < p ==> c@[i] != ']',
        decreases n - p,
    {
        p = p + 1;
    }
    // Where a match exists, its key ends at the first `]`.
    proof {
        if derivation_captures(c@) is Some {
            let (x, d, rr) = derivation_captures(c@)->0;
            lemma_match_shape(c@, x, d, rr);
            assert(p == 1 + x.len());
        }
    }
    if p == n || !check_xpub(c, 1, p) || p + 1 >= n || c[p + 1] != '/' {
        proof {
            if derivation_captures(c@) is Some {
                let (x, d, rr) = derivation_captures(c@)->0;
                lemma_match_shape(c@, x, d, rr);
            }
        }
        return None;
    }
    let b = p + 2;
    let mut q: usize = b;
    while q < n && c[q] != '/'
        invariant
            b <= q <= n,
            n == c@.len(),
            forall|i: int| b <= i < q ==> c@[i] != '/',
        decreases n - q,
    {
        q = q + 1;
    }
    proof {
        if derivation_captures(c@) is Some {
            let (x, d, rr) = derivation_captures(c@)->0;
            lemma_match_shape(c@, x, d, rr);
            assert(q == b + d.len());
        }
    }
    if !check_deriv(c, b, q) {
        proof {
            if derivation_captures(c@) is Some {
                let (x, d, rr) = derivation_captures(c@)->0;
                lemma_match_shape(c@, x, d, rr);
            }
        }
        return None;
    }
    let range = if q == n {
        None
    } else {
        if !check_range(c, q + 1, n) {
            proof {
                if derivation_captures(c@) is Some {
                    let (x, d, rr) = derivation_captures(c@)->0;
                    lemma_match_shape(c@, x, d, rr);
                }
            }
            return None;
        }
        Some((q + 1, n))
    };
    let caps = Captures { xpub: (1, p), deriv: (b, q), range };
    proof {
        let (x, d, rr) = captures_view(c@, caps);
        let tail = ranges_tail(rr);
        if q == n {
            assert(tail =~= Seq::<char>::empty());
        } else {
            assert(c@[q as int] == '/');
            assert(tail =~= c@.subrange(q as int, n as int));
        }
        assert(c@ =~= seq!['['] + x + seq![']', '/'] + d + tail);
        lemma_captures_of_match(c@, x, d, rr);
    }
    Some(caps)
}

} // verus!
