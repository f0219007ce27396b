//! Derivation components: `[master xpub]/branch path=[branch xpub]/terminal
//! path/index ranges`, their text form, their parser and the keys they
//! derive.

use vstd::prelude::*;

use bitcoin::util::bip32::DerivationPath;

use crate::btc::{
    path_children, path_children_of, path_clone, path_extend, path_from_children, path_from_str,
    path_into_child, path_to_string, xpub_derive, xpub_derive_pub, xpub_fingerprint, xpub_text,
};
use crate::error::{bip32_error_text, Bip32Error};
use crate::grammar::{
    bracketed_path, captures_view, deriv_chars, derivation_captures, derivation_match, digit_group, is_base58, is_mark, lemma_captures_of_match, lemma_match_of_captures, lemma_star_captures, match_derivation, parts_view, range_chars, range_sep, ranges_tail, split_groups, split_positions, xpub_chars,
};
use crate::index::{child_number_from_str_spec, Child, UnhardenedIndex, HARDENED_INDEX_BOUNDARY};
use crate::branch::strip_leading;
use crate::path::{child_index, child_text, children_from_parts, lemma_child_text_reads, is_sep, normal_steps, lemma_terminal_start, path_from_str_spec, path_text, split_on, steps_text, terminal_start, HardenedNormalSplit};
use crate::range::{range_len, range_text, DerivationRange};
use crate::slip::{slip132_xpub, xpub_from_slip132_str};
use crate::text::{decimal, is_digit, lemma_split_join, lemma_split_len, lemma_split_single, chars_to_string, hex_lower, parse_u32_chars, parse_u32_spec, push_str, str_to_chars, sub_string};
use crate::xpub::{xpub_depth, xpub_public_key, PublicKey, Xpub};

verus! {

/// An error of reading derivation components, with its message.
#[derive(Clone, PartialEq, Eq, Hash, Debug, PartialOrd, Ord)]
pub struct ComponentsParseError(pub String);

/// Message for text with more than one `=`.
pub open spec fn too_many_parts_message() -> Seq<char> {
    "Derivation components string must contain at most two parts separated by `=`"@
}

/// Message for text outside the grammar.
pub open spec fn wrong_composition_message() -> Seq<char> {
    "Wrong composition of derivation components data"@
}

/// Message for a terminal path with a hardened step.
pub open spec fn hardened_terminal_message() -> Seq<char> {
    "Terminal derivation path must not contain hardened keys"@
}

/// The bounds of one range item, `start` or `start-end` (a further `-bound`
/// is ignored), each read as `u32::from_str` reads it; `None` where a bound
/// does not fit in a `u32`.
pub open spec fn range_item_spec(item: Seq<char>) -> Option<(u32, u32)> {
    let bounds = split_on(item, '-');
    match parse_u32_spec(bounds[0]) {
        None => None,
        Some(start) => if bounds.len() >= 2 {
            match parse_u32_spec(bounds[1]) {
                None => None,
                Some(end) => Some((start, end)),
            }
        } else {
            Some((start, start))
        },
    }
}

/// Whether every item of the comma-separated ranges has bounds that fit in a
/// `u32`.
pub open spec fn ranges_readable(r: Seq<char>) -> bool {
    forall|k: int| 0 <= k < split_on(r, ',').len() ==> (#[trigger] range_item_spec(split_on(r, ',')[k])) is Some
}

/// The ranges of the comma-separated items of `r`.
pub open spec fn ranges_spec(r: Seq<char>) -> Seq<(u32, u32)> {
    split_on(r, ',').map_values(|item: Seq<char>| range_item_spec(item)->0)
}

/// The ranges of the range part: none for `*`, else the items.
pub open spec fn index_ranges_spec(r: Option<Seq<char>>) -> Option<Seq<(u32, u32)>> {
    match r {
        None => None,
        Some(rr) => if rr == seq!['*'] {
            None
        } else {
            Some(ranges_spec(rr))
        },
    }
}

/// The view of derivation components: the keys by their serialization, the
/// branch path by its steps, the ranges by their bounds.
pub struct ComponentsView {
    pub master: Seq<u8>,
    pub branch_path: Seq<Child>,
    pub branch: Seq<u8>,
    pub terminal: Seq<u32>,
    pub ranges: Option<Seq<(u32, u32)>>,
}

/// The text `m/` followed by `d`.
pub open spec fn master_prefixed(d: Seq<char>) -> Seq<char> {
    seq!['m', '/'] + d
}

/// What reading the terminal part gives where no range bound overflows (see
/// `terminal_bound_overflows`; such text is refused): the part must match the grammar; its key is read by SLIP-132 and its path by
/// `DerivationPath::from_str` after `m/`, and must have no hardened step; its
/// ranges are none for `*`. The result is the key's serialization, the
/// indexes of the path and the ranges.
pub open spec fn terminal_part_spec(t: Seq<char>) -> Result<(Seq<u8>, Seq<u32>, Option<Seq<(u32, u32)>>), Seq<char>> {
    match derivation_captures(t) {
        None => Err(wrong_composition_message()),
        Some((x, d, r)) => match slip132_xpub(x) {
            Err(m) => Err(m),
            Ok(key) => match path_from_str_spec(master_prefixed(d)) {
                Err(e) => Err(bip32_error_text(e)),
                Ok(cs) => if terminal_start(cs) != 0 {
                    Err(hardened_terminal_message())
                } else {
                    Ok((key, cs.map_values(|c: Child| child_index(c)), index_ranges_spec(r)))
                },
            },
        },
    }
}

/// Terminal parts that the library refuses to read: once their key and
/// path are read, a range bound does not fit in a `u32`.
pub open spec fn terminal_bound_overflows(t: Seq<char>) -> bool {
    &&& derivation_captures(t) matches Some((x, d, r))
    &&& slip132_xpub(x) is Ok
    &&& path_from_str_spec(master_prefixed(d)) matches Ok(cs)
    &&& terminal_start(cs) == 0
    &&& r matches Some(rr)
    &&& rr != seq!['*']
    &&& !ranges_readable(rr)
}

/// What reading the branch part gives: where there is one and it matches
/// the grammar, the master key (read by SLIP-132) and the branch path (read
/// by `DerivationPath::from_str` after `m/`); otherwise nothing.
pub open spec fn branch_part_spec(b: Option<Seq<char>>) -> Result<Option<(Seq<u8>, Seq<Child>)>, Seq<char>> {
    match b {
        None => Ok(None),
        Some(b) => match derivation_captures(b) {
            None => Ok(None),
            Some((x, d, _)) => match slip132_xpub(x) {
                Err(m) => Err(m),
                Ok(key) => match path_from_str_spec(master_prefixed(d)) {
                    Err(e) => Err(bip32_error_text(e)),
                    Ok(cs) => Ok(Some((key, cs))),
                },
            },
        },
    }
}

/// What `DerivationComponents::from_str` gives where no range bound
/// overflows (see `components_bound_overflows`; such text is refused): the
/// text is split at `=` into an optional branch part and a terminal part
/// (more than two parts are refused); the terminal part is read, then the
/// branch part. Without a branch part that matches the grammar, the
/// master key is the branch key and the branch path is empty.
pub open spec fn components_from_str_spec(s: Seq<char>) -> Result<ComponentsView, Seq<char>> {
    let parts = split_on(s, '=');
    if parts.len() > 2 {
        Err(too_many_parts_message())
    } else {
        match terminal_part_spec(parts.last()) {
            Err(m) => Err(m),
            Ok((branch, terminal, ranges)) => {
                let branch_part = if parts.len() == 2 { Some(parts[0]) } else { None };
                match branch_part_spec(branch_part) {
                    Err(m) => Err(m),
                    Ok(None) => Ok(
                        ComponentsView { master: branch, branch_path: Seq::empty(), branch, terminal, ranges },
                    ),
                    Ok(Some((master, branch_path))) => Ok(
                        ComponentsView { master, branch_path, branch, terminal, ranges },
                    ),
                }
            },
        }
    }
}

/// Texts that the library refuses to read: at most two parts, and a
/// terminal part that it refuses (see `terminal_bound_overflows`).
pub open spec fn components_bound_overflows(s: Seq<char>) -> bool {
    let parts = split_on(s, '=');
    parts.len() <= 2 && terminal_bound_overflows(parts.last())
}

/// The bounds of ranges, in order.
pub open spec fn ranges_view(rs: Seq<DerivationRange>) -> Seq<(u32, u32)> {
    rs.map_values(|r: DerivationRange| (r.start_spec(), r.end_spec()))
}

/// Derivation components: the master key, the path from it to the branch
/// key, the branch key, the unhardened indexes from the branch key to the
/// terminal keys, and the ranges of the last index (all, where none).
#[derive(PartialEq, Eq, PartialOrd, Ord, Hash, Debug)]
pub struct DerivationComponents {
    pub master_xpub: Xpub,
    pub branch_path: DerivationPath,
    pub branch_xpub: Xpub,
    pub terminal_path: Vec<u32>,
    pub index_ranges: Option<Vec<DerivationRange>>,
}

impl View for DerivationComponents {
    type V = ComponentsView;

    open spec fn view(&self) -> ComponentsView {
        ComponentsView {
            master: self.master_xpub@,
            branch_path: path_children(self.branch_path),
            branch: self.branch_xpub@,
            terminal: self.terminal_path@,
            ranges: match self.index_ranges {
                None => None,
                Some(rs) => Some(ranges_view(rs@)),
            },
        }
    }
}

impl Clone for DerivationComponents {
    fn clone(&self) -> (r: Self)
        ensures
            r@ == self@,
    {
        let index_ranges = match &self.index_ranges {
            None => None,
            Some(ranges) => {
                let copy = ranges.clone();
                assert(copy@ =~= ranges@);
                Some(copy)
            },
        };
        DerivationComponents {
            master_xpub: self.master_xpub.clone(),
            branch_path: path_clone(&self.branch_path),
            branch_xpub: self.branch_xpub.clone(),
            terminal_path: self.terminal_path.clone(),
            index_ranges,
        }
    }
}

/// Reads the comma-separated ranges of `c[lo..hi]`; `None` where a bound
/// does not fit in a `u32`.
fn parse_ranges(c: &Vec<char>, lo: usize, hi: usize) -> (r: Option<Vec<DerivationRange>>)
    requires
        lo <= hi <= c@.len(),
    ensures
        ({
            let text = c@.subrange(lo as int, hi as int);
            &&& r is Some <==> ranges_readable(text)
            &&& r matches Some(rs) ==> ranges_view(rs@) == ranges_spec(text)
        }),
{
    let ghost text = c@.subrange(lo as int, hi as int);
    let items = split_positions(c, lo, hi, ',');
    let mut ranges: Vec<DerivationRange> = Vec::new();
    let mut k: usize = 0;
    while k < items.len()
        invariant
            k <= items@.len(),
            lo <= hi <= c@.len(),
            text == c@.subrange(lo as int, hi as int),
            parts_view(c@, items@) == split_on(text, ','),
            forall|m: int| 0 <= m < items@.len() ==> lo <= (#[trigger] items@[m]).0 <= items@[m].1 <= hi,
            forall|m: int| 0 <= m < k ==> (#[trigger] range_item_spec(split_on(text, ',')[m])) is Some,
            ranges_view(ranges@) == ranges_spec(text).take(k as int),
        decreases items@.len() - k,
    {
        let (a, b) = items[k];
        let ghost item = c@.subrange(a as int, b as int);
        assert(item == split_on(text, ',')[k as int]);
        let bounds = split_positions(c, a, b, '-');
        let (s0, s1) = bounds[0];
        let start = match parse_u32_chars(c, s0, s1) {
            Some(v) => v,
            None => {
                assert(range_item_spec(item) is None);
                return None;
            },
        };
        let end = if bounds.len() >= 2 {
            let (e0, e1) = bounds[1];
            match parse_u32_chars(c, e0, e1) {
                Some(v) => v,
                None => {
                    assert(range_item_spec(item) is None);
                    return None;
                },
            }
        } else {
            start
        };
        assert(range_item_spec(item) == Some((start, end)));
        let ghost old_view = ranges_view(ranges@);
        ranges.push(DerivationRange::new(start, end));
        assert(ranges_view(ranges@) =~= old_view.push((start, end)));
        assert(ranges_spec(text)[k as int] == (start, end));
        k = k + 1;
        assert(ranges_view(ranges@) =~= ranges_spec(text).take(k as int));
    }
    assert(ranges_spec(text).take(k as int) =~= ranges_spec(text));
    Some(ranges)
}

/// Reads the terminal part `[xpub]/path(/ranges)`; `None` exactly where a
/// range bound overflows.
#[verifier::rlimit(50)]
fn read_terminal(t: &Vec<char>) -> (r: Option<Result<(Xpub, Vec<u32>, Option<Vec<DerivationRange>>), ComponentsParseError>>)
    ensures
        r is None <==> terminal_bound_overflows(t@),
        r matches Some(Ok((key, path, ranges))) ==> terminal_part_spec(t@) == Ok::<(Seq<u8>, Seq<u32>, Option<Seq<(u32, u32)>>), Seq<char>>(
            (key@, path@, match ranges { None => None, Some(rs) => Some(ranges_view(rs@)) }),
        ),
        r matches Some(Err(e)) ==> terminal_part_spec(t@) == Err::<(Seq<u8>, Seq<u32>, Option<Seq<(u32, u32)>>), Seq<char>>(e.0@),
{
    let caps = match match_derivation(t) {
        Some(caps) => caps,
        None => {
            return Some(Err(ComponentsParseError("Wrong composition of derivation components data".to_owned())));
        },
    };
    let ghost (x, d, rr) = captures_view(t@, caps);
    let xpub_part = sub_string(t, caps.xpub.0, caps.xpub.1);
    let key = match xpub_from_slip132_str(xpub_part.as_str()) {
        Ok(data) => Xpub::from_bytes(data),
        Err(m) => {
            return Some(Err(ComponentsParseError(m)));
        },
    };
    let path_part = prefixed_path(t, caps.deriv.0, caps.deriv.1);
    let full_path = match path_from_str(path_part.as_str()) {
        Ok(p) => p,
        Err(e) => {
            return Some(Err(ComponentsParseError(e.to_string())));
        },
    };
    let (prefix, indexes) = full_path.hardened_normal_split();
    if path_children_of(&prefix).len() != 0 {
        return Some(Err(ComponentsParseError("Terminal derivation path must not contain hardened keys".to_owned())));
    }
    proof {
        let cs = path_children(full_path);
        lemma_terminal_start(cs);
        assert(terminal_start(cs) == 0);
        assert(cs.skip(0) =~= cs);
        assert(indexes@ =~= cs.map_values(|c: Child| child_index(c)));
        assert(captures_view(t@, caps).2 == range_part(t@, caps.range));
    }
    let ranges = match read_ranges(t, caps.range) {
        Some(ranges) => ranges,
        None => {
            return None;
        },
    };
    Some(Ok((key, indexes, ranges)))
}

/// The range part that the bounds stand for.
pub open spec fn range_part(t: Seq<char>, range: Option<(usize, usize)>) -> Option<Seq<char>> {
    match range {
        None => None,
        Some(b) => Some(t.subrange(b.0 as int, b.1 as int)),
    }
}

/// Reads the range part, if any: none for `*`, else the comma-separated
/// ranges; `None` where a bound does not fit in a `u32`.
fn read_ranges(t: &Vec<char>, range: Option<(usize, usize)>) -> (r: Option<Option<Vec<DerivationRange>>>)
    requires
        range matches Some(b) ==> b.0 <= b.1 <= t@.len(),
    ensures
        r is None <==> (range_part(t@, range) matches Some(rr) && rr != seq!['*'] && !ranges_readable(rr)),
        r matches Some(rs) ==> index_ranges_spec(range_part(t@, range)) == match rs {
            None => None,
            Some(rs) => Some(ranges_view(rs@)),
        },
{
    match range {
        None => Some(None),
        Some((rlo, rhi)) => {
            if rhi - rlo == 1 && t[rlo] == '*' {
                assert(t@.subrange(rlo as int, rhi as int) =~= seq!['*']);
                Some(None)
            } else {
                proof {
                    let text = t@.subrange(rlo as int, rhi as int);
                    if text.len() == 1 {
                        assert(text[0] == t@[rlo as int]);
                    }
                    assert(seq!['*'].len() == 1 && seq!['*'][0] == '*');
                    assert(text != seq!['*']);
                }
                match parse_ranges(t, rlo, rhi) {
                    Some(rs) => Some(Some(rs)),
                    None => None,
                }
            }
        },
    }
}

/// Reads the branch part: where it matches the grammar, its key and path.
fn read_branch(b: &Vec<char>) -> (r: Result<Option<(Xpub, DerivationPath)>, ComponentsParseError>)
    ensures
        match r {
            Ok(None) => branch_part_spec(Some(b@)) == Ok::<Option<(Seq<u8>, Seq<Child>)>, Seq<char>>(None),
            Ok(Some((key, path))) => branch_part_spec(Some(b@)) == Ok::<Option<(Seq<u8>, Seq<Child>)>, Seq<char>>(Some((key@, path_children(path)))),
            Err(e) => branch_part_spec(Some(b@)) == Err::<Option<(Seq<u8>, Seq<Child>)>, Seq<char>>(e.0@),
        },
{
    let caps = match match_derivation(b) {
        Some(caps) => caps,
        None => {
            return Ok(None);
        },
    };
    let xpub_part = sub_string(b, caps.xpub.0, caps.xpub.1);
    let key = match xpub_from_slip132_str(xpub_part.as_str()) {
        Ok(data) => Xpub::from_bytes(data),
        Err(m) => {
            return Err(ComponentsParseError(m));
        },
    };
    let path_part = prefixed_path(b, caps.deriv.0, caps.deriv.1);
    match path_from_str(path_part.as_str()) {
        Ok(p) => Ok(Some((key, p))),
        Err(e) => Err(ComponentsParseError(e.to_string())),
    }
}

impl DerivationComponents {
    /// Reads derivation components; `None` exactly where a range bound does
    /// not fit in a `u32`.
    fn parse(s: &str) -> (r: Option<Result<DerivationComponents, ComponentsParseError>>)
        ensures
            r is None <==> components_bound_overflows(s@),
            r matches Some(Ok(c)) ==> components_from_str_spec(s@) == Ok::<ComponentsView, Seq<char>>(c@),
            r matches Some(Err(e)) ==> components_from_str_spec(s@) == Err::<ComponentsView, Seq<char>>(e.0@),
    {
        let chars = str_to_chars(s);
        let n = chars.len();
        let parts = split_positions(&chars, 0, n, '=');
        assert(chars@.subrange(0, n as int) =~= s@);
        if parts.len() > 2 {
            return Some(Err(ComponentsParseError("Derivation components string must contain at most two parts separated by `=`".to_owned())));
        }
        let (tlo, thi) = parts[parts.len() - 1];
        let terminal = slice_chars(&chars, tlo, thi);
        let (branch_xpub, terminal_path, index_ranges) = match read_terminal(&terminal) {
            None => {
                return None;
            },
            Some(Err(e)) => {
                return Some(Err(e));
            },
            Some(Ok(parts)) => parts,
        };
        let branch = if parts.len() == 2 {
            let (blo, bhi) = parts[0];
            let branch = slice_chars(&chars, blo, bhi);
            match read_branch(&branch) {
                Err(e) => {
                    return Some(Err(e));
                },
                Ok(found) => found,
            }
        } else {
            None
        };
        let (master_xpub, branch_path) = match branch {
            Some((key, path)) => (key, path),
            None => (branch_xpub.clone(), path_from_children(Vec::new())),
        };
        Some(
            Ok(
                DerivationComponents {
                    master_xpub,
                    branch_path,
                    branch_xpub,
                    terminal_path,
                    index_ranges,
                },
            ),
        )
    }
}

/// The characters `c[lo..hi]`.
fn slice_chars(c: &Vec<char>, lo: usize, hi: usize) -> (r: Vec<char>)
    requires
        lo <= hi <= c@.len(),
    ensures
        r@ == c@.subrange(lo as int, hi as int),
{
    let mut v: Vec<char> = Vec::new();
    let mut i: usize = lo;
    while i < hi
        invariant
            lo <= i <= hi <= c@.len(),
            v@ == c@.subrange(lo as int, i as int),
        decreases hi - i,
    {
        v.push(c[i]);
        i = i + 1;
        assert(v@ =~= c@.subrange(lo as int, i as int));
    }
    v
}

/// The text `m/` followed by `c[lo..hi]`.
fn prefixed_path(c: &Vec<char>, lo: usize, hi: usize) -> (r: String)
    requires
        lo <= hi <= c@.len(),
    ensures
        r@ == master_prefixed(c@.subrange(lo as int, hi as int)),
{
    let mut v: Vec<char> = Vec::new();
    v.push('m');
    v.push('/');
    let mut i: usize = lo;
    while i < hi
        invariant
            lo <= i <= hi <= c@.len(),
            v@ == master_prefixed(c@.subrange(lo as int, i as int)),
        decreases hi - i,
    {
        v.push(c[i]);
        i = i + 1;
        assert(v@ =~= master_prefixed(c@.subrange(lo as int, i as int)));
    }
    chars_to_string(v.as_slice())
}


/// The total number of indexes of the ranges.
pub open spec fn ranges_count(rs: Seq<(u32, u32)>) -> int
    decreases rs.len(),
{
    if rs.len() == 0 {
        0
    } else {
        ranges_count(rs.drop_last()) + range_len(rs.last().0, rs.last().1)
    }
}

/// Whether counting the ranges stays within `u32`: no range is reversed or
/// covers all `u32` values, and the total fits in a `u32`.
pub open spec fn ranges_countable(rs: Seq<(u32, u32)>) -> bool {
    &&& forall|k: int| 0 <= k < rs.len() ==> (#[trigger] rs[k]).0 <= rs[k].1 && rs[k].1 - rs[k].0 < u32::MAX
    &&& ranges_count(rs) <= u32::MAX
}

proof fn lemma_ranges_count_prefix(rs: Seq<(u32, u32)>, i: int)
    requires
        0 <= i <= rs.len(),
        forall|k: int| 0 <= k < rs.len() ==> (#[trigger] rs[k]).0 <= rs[k].1,
    ensures
        ranges_count(rs.take(i)) <= ranges_count(rs),
    decreases rs.len() - i,
{
    if i < rs.len() {
        lemma_ranges_count_prefix(rs, i + 1);
        assert(rs.take(i + 1).drop_last() =~= rs.take(i));
        assert(rs.take(i + 1).last() == rs[i]);
    } else {
        assert(rs.take(i) =~= rs);
    }
}

/// The ranges written one after the other, separated by `,`.
pub open spec fn ranges_join(rs: Seq<(u32, u32)>) -> Seq<char>
    decreases rs.len(),
{
    if rs.len() == 0 {
        Seq::empty()
    } else if rs.len() == 1 {
        range_text(rs[0].0, rs[0].1)
    } else {
        ranges_join(rs.drop_last()) + ","@ + range_text(rs.last().0, rs.last().1)
    }
}

/// The text form of derivation components: `[master]`, the steps of the
/// branch path, `=[branch]` where the branch key differs from the master
/// key, the steps of the terminal path, `/` and the ranges joined by `,` (or
/// `*` for all). The alternate form writes the master key's fingerprint in
/// lower-case hexadecimal and a bare `/` in place of the branch key.
pub open spec fn components_text(c: ComponentsView, alternate: bool) -> Seq<char> {
    (if alternate {
        "["@ + hex_lower(xpub_fingerprint(c.master)) + "]"@
    } else {
        "["@ + xpub_text(c.master) + "]"@
    }) + steps_text(c.branch_path) + (if alternate {
        "/"@
    } else if c.branch != c.master {
        "=["@ + xpub_text(c.branch) + "]"@
    } else {
        Seq::empty()
    }) + steps_text(normal_steps(c.terminal)) + "/"@ + match c.ranges {
        Some(rs) => ranges_join(rs),
        None => "*"@,
    }
}

impl DerivationComponents {
    /// Reads derivation components from their text form (see
    /// `components_from_str_spec`). Text with a range bound that does not fit
    /// in a `u32` is refused: it must not be given (`try_from_str` takes it).
    pub fn from_str(s: &str) -> (r: Result<DerivationComponents, ComponentsParseError>)
        requires
            !components_bound_overflows(s@),
        ensures
            match r {
                Ok(c) => components_from_str_spec(s@) == Ok::<ComponentsView, Seq<char>>(c@),
                Err(e) => components_from_str_spec(s@) == Err::<ComponentsView, Seq<char>>(e.0@),
            },
    {
        Self::parse(s).unwrap()
    }

    /// Reads derivation components as `from_str` does, or gives `None` for
    /// text that `from_str` refuses (a range bound that does not fit in a
    /// `u32`).
    pub fn try_from_str(s: &str) -> (r: Option<Result<DerivationComponents, ComponentsParseError>>)
        ensures
            r is None <==> components_bound_overflows(s@),
            r matches Some(Ok(c)) ==> components_from_str_spec(s@) == Ok::<ComponentsView, Seq<char>>(c@),
            r matches Some(Err(e)) ==> components_from_str_spec(s@) == Err::<ComponentsView, Seq<char>>(e.0@),
    {
        if !Self::may_overflow(s) {
            return Some(Self::from_str(s));
        }
        match Self::parse(s) {
            None => None,
            Some(_) => Some(Self::from_str(s)),
        }
    }

    /// Whether the text could have a range bound that does not fit in a
    /// `u32`: its terminal part matches the grammar and has a range part
    /// that cannot be read. This looks at no key or path.
    fn may_overflow(s: &str) -> (r: bool)
        ensures
            components_bound_overflows(s@) ==> r,
    {
        let chars = str_to_chars(s);
        let n = chars.len();
        let parts = split_positions(&chars, 0, n, '=');
        assert(chars@.subrange(0, n as int) =~= s@);
        if parts.len() > 2 {
            return false;
        }
        let (tlo, thi) = parts[parts.len() - 1];
        let terminal = slice_chars(&chars, tlo, thi);
        match match_derivation(&terminal) {
            None => false,
            Some(caps) => {
                proof {
                    assert(captures_view(terminal@, caps).2 == range_part(terminal@, caps.range));
                }
                read_ranges(&terminal, caps.range).is_none()
            },
        }
    }

    /// The number of keys the components stand for: `u32::MAX` where every
    /// index is allowed, else the total of the ranges' counts. Counting must
    /// not overflow (see `ranges_countable`).
    pub fn count(&self) -> (r: u32)
        requires
            self@.ranges matches Some(rs) ==> ranges_countable(rs),
        ensures
            r == match self@.ranges {
                None => u32::MAX as int,
                Some(rs) => ranges_count(rs),
            },
    {
        match &self.index_ranges {
            None => u32::MAX,
            Some(ranges) => {
                let ghost rs = ranges_view(ranges@);
                let mut sum: u32 = 0;
                let mut i: usize = 0;
                while i < ranges.len()
                    invariant
                        i <= ranges@.len(),
                        rs == ranges_view(ranges@),
                        ranges_countable(rs),
                        sum == ranges_count(rs.take(i as int)),
                    decreases ranges@.len() - i,
                {
                    proof {
                        assert(rs[i as int] == (ranges@[i as int].start_spec(), ranges@[i as int].end_spec()));
                        assert(rs.take(i + 1).drop_last() =~= rs.take(i as int));
                        assert(rs.take(i + 1).last() == rs[i as int]);
                        lemma_ranges_count_prefix(rs, i + 1);
                    }
                    sum = sum + ranges[i].count();
                    i = i + 1;
                }
                assert(rs.take(i as int) =~= rs);
                sum
            },
        }
    }

    /// The terminal path as a derivation path of unhardened steps.
    pub fn terminal_path(&self) -> (r: DerivationPath)
        ensures
            path_children(r) == normal_steps(self.terminal_path@),
    {
        let mut steps: Vec<Child> = Vec::new();
        let mut i: usize = 0;
        while i < self.terminal_path.len()
            invariant
                i <= self.terminal_path@.len(),
                steps@ == normal_steps(self.terminal_path@.take(i as int)),
            decreases self.terminal_path@.len() - i,
        {
            steps.push(Child::Normal { index: self.terminal_path[i] });
            i = i + 1;
            assert(steps@ =~= normal_steps(self.terminal_path@.take(i as int)));
        }
        assert(self.terminal_path@.take(i as int) =~= self.terminal_path@);
        path_from_children(steps)
    }

    /// The whole path from the master key: the branch path followed by the
    /// terminal path.
    pub fn derivation_path(&self) -> (r: DerivationPath)
        ensures
            path_children(r) == path_children(self.branch_path) + normal_steps(self.terminal_path@),
    {
        let terminal = self.terminal_path();
        path_extend(&self.branch_path, &terminal)
    }

    /// The ranges written one after the other, separated by `,`; empty where
    /// every index is allowed.
    pub fn index_ranges_string(&self) -> (r: String)
        ensures
            r@ == match self@.ranges {
                None => Seq::empty(),
                Some(rs) => ranges_join(rs),
            },
    {
        let mut v: Vec<char> = Vec::new();
        self.push_ranges(&mut v);
        assert(v@ =~= match self@.ranges {
            None => Seq::empty(),
            Some(rs) => ranges_join(rs),
        });
        chars_to_string(v.as_slice())
    }

    fn push_ranges(&self, out: &mut Vec<char>)
        ensures
            final(out)@ == old(out)@ + match self@.ranges {
                None => Seq::<char>::empty(),
                Some(rs) => ranges_join(rs),
            },
    {
        match &self.index_ranges {
            None => {
                assert(old(out)@ + Seq::<char>::empty() =~= old(out)@);
            },
            Some(ranges) => {
                let ghost start = out@;
                let ghost rs = ranges_view(ranges@);
                let mut i: usize = 0;
                while i < ranges.len()
                    invariant
                        i <= ranges@.len(),
                        rs == ranges_view(ranges@),
                        out@ == start + ranges_join(rs.take(i as int)),
                    decreases ranges@.len() - i,
                {
                    proof {
                        assert(rs[i as int] == (ranges@[i as int].start_spec(), ranges@[i as int].end_spec()));
                        assert(rs.take(i + 1).drop_last() =~= rs.take(i as int));
                        assert(rs.take(i + 1).last() == rs[i as int]);
                    }
                    if i > 0 {
                        push_str(out, ",");
                    }
                    ranges[i].push_text(out);
                    i = i + 1;
                    proof {
                        if i == 1 {
                            assert(rs.take(0) =~= Seq::<(u32, u32)>::empty());
                            assert(rs.take(1)[0] == rs[0]);
                        }
                    }
                    assert(out@ =~= start + ranges_join(rs.take(i as int)));
                }
                assert(rs.take(i as int) =~= rs);
            },
        }
    }

    /// The steps from the branch key to the key of child `child` of the
    /// terminal path.
    pub open spec fn child_steps(&self, child: u32) -> Seq<Child> {
        normal_steps(self.terminal_path@).push(Child::Normal { index: child })
    }

    /// Whether a key derived from the branch key along the terminal path and
    /// one more step stays within the depth that a key can record (255).
    pub open spec fn child_depth_fits(&self) -> bool {
        xpub_depth(self.branch_xpub@) + self.terminal_path@.len() + 1 <= 255
    }

    /// Whether the key of child `child` of the terminal path can be derived:
    /// its depth fits and the derivation succeeds.
    pub open spec fn child_derivable(&self, child: u32) -> bool {
        self.child_depth_fits() && xpub_derive(self.branch_xpub@, self.child_steps(child)) is Some
    }

    /// The serialization of the key of child `child` of the terminal path,
    /// derived from the branch key, where it can be derived.
    pub open spec fn child_key(&self, child: u32) -> Seq<u8> {
        xpub_derive(self.branch_xpub@, self.child_steps(child))->0
    }

    fn derive_child(&self, child: u32) -> (r: Option<Xpub>)
        requires
            self.child_depth_fits(),
        ensures
            r is Some <==> self.child_derivable(child),
            r matches Some(k) ==> k@ == self.child_key(child),
    {
        let derivation = path_into_child(self.terminal_path(), Child::Normal { index: child });
        assert(path_children(derivation).len() == self.terminal_path@.len() + 1);
        match xpub_derive_pub(self.branch_xpub.as_bytes(), &derivation) {
            Some(data) => Some(Xpub::from_bytes(data)),
            None => None,
        }
    }

    /// The key of child `child` of the terminal path, derived from the branch
    /// key, where it can be derived (see `child_derivable`).
    pub fn try_child(&self, child: u32) -> (r: Option<Xpub>)
        ensures
            r is Some <==> self.child_derivable(child),
            r matches Some(k) ==> k@ == self.child_key(child),
    {
        let depth: u8 = self.branch_xpub.as_bytes()[4];
        if self.terminal_path.len() >= 255 || depth as usize + self.terminal_path.len() >= 255 {
            return None;
        }
        self.derive_child(child)
    }

    /// The key of child `child` of the terminal path, derived from the branch
    /// key; it must be derivable: the depth must fit and the derivation
    /// succeed (it fails only where an elliptic-curve tweak is out of range).
    pub fn child(&self, child: u32) -> (r: Xpub)
        requires
            self.child_derivable(child),
        ensures
            r@ == self.child_key(child),
    {
        self.derive_child(child).unwrap()
    }

    /// The public key of the terminal child `child_index`, where that child
    /// can be derived.
    pub fn try_derive_public_key(&self, child_index: UnhardenedIndex) -> (r: Option<PublicKey>)
        ensures
            r is Some <==> self.child_derivable(child_index@),
            r matches Some(k) ==> k@ == xpub_public_key(self.child_key(child_index@)),
    {
        match self.try_child(u32::from(child_index)) {
            Some(key) => Some(key.public_key()),
            None => None,
        }
    }

    /// The public key of the terminal child `child_index`: that of the key
    /// `child` gives; the child must be derivable.
    pub fn derive_public_key(&self, child_index: UnhardenedIndex) -> (r: PublicKey)
        requires
            self.child_derivable(child_index@),
        ensures
            r@ == xpub_public_key(self.child_key(child_index@)),
    {
        self.child(u32::from(child_index)).public_key()
    }

    /// The text form (see `components_text`).
    pub fn to_string(&self) -> (r: String)
        ensures
            r@ == components_text(self@, false),
    {
        self.text(false)
    }

    /// The alternate text form (see `components_text`).
    pub fn to_string_alternate(&self) -> (r: String)
        ensures
            r@ == components_text(self@, true),
    {
        self.text(true)
    }

    fn text(&self, alternate: bool) -> (r: String)
        ensures
            r@ == components_text(self@, alternate),
    {
        let mut v: Vec<char> = Vec::new();
        push_str(&mut v, "[");
        if alternate {
            push_str(&mut v, self.master_xpub.fingerprint().to_string().as_str());
        } else {
            push_str(&mut v, self.master_xpub.to_string().as_str());
        }
        push_str(&mut v, "]");
        let ghost head = v@;
        push_steps(&mut v, &self.branch_path);
        let ghost with_branch = v@;
        if alternate {
            push_str(&mut v, "/");
        } else if !self.branch_xpub.same_key(&self.master_xpub) {
            push_str(&mut v, "=[");
            push_str(&mut v, self.branch_xpub.to_string().as_str());
            push_str(&mut v, "]");
        }
        let ghost with_key = v@;
        push_steps(&mut v, &self.terminal_path());
        push_str(&mut v, "/");
        let ghost before_ranges = v@;
        if self.index_ranges.is_some() {
            self.push_ranges(&mut v);
        } else {
            push_str(&mut v, "*");
        }
        assert(v@ =~= components_text(self@, alternate));
        chars_to_string(v.as_slice())
    }
}

/// Appends the text form of `path` without its leading `m`.
fn push_steps(out: &mut Vec<char>, path: &DerivationPath)
    ensures
        final(out)@ == old(out)@ + steps_text(path_children(*path)),
{
    let text = path_to_string(path);
    let chars = str_to_chars(text.as_str());
    proof {
        lemma_path_text_strip(path_children(*path));
    }
    let mut i: usize = 0;
    assert(chars@.skip(0) =~= chars@);
    while i < chars.len() && chars[i] == 'm'
        invariant
            i <= chars@.len(),
            strip_leading(chars@, 'm') == strip_leading(chars@.skip(i as int), 'm'),
        decreases chars@.len() - i,
    {
        proof {
            assert(chars@.skip(i as int).drop_first() =~= chars@.skip(i + 1));
        }
        i = i + 1;
    }
    proof {
        if i < chars@.len() {
            assert(chars@.skip(i as int)[0] == chars@[i as int]);
        }
    }
    let ghost start = out@;
    let mut j: usize = i;
    while j < chars.len()
        invariant
            i <= j <= chars@.len(),
            out@ == start + chars@.subrange(i as int, j as int),
        decreases chars@.len() - j,
    {
        out.push(chars[j]);
        j = j + 1;
        assert(out@ =~= start + chars@.subrange(i as int, j as int));
    }
    assert(chars@.subrange(i as int, j as int) =~= chars@.skip(i as int));
}

/// Removing the leading `m` of a path's text leaves its steps.
proof fn lemma_path_text_strip(cs: Seq<Child>)
    ensures
        strip_leading(path_text(cs), 'm') == steps_text(cs),
{
    reveal_strlit("m");
    lemma_steps_text_start(cs);
    let t = path_text(cs);
    assert(t[0] == 'm');
    assert(t.drop_first() =~= steps_text(cs));
    assert(strip_leading(t, 'm') == strip_leading(t.drop_first(), 'm'));
    assert(strip_leading(steps_text(cs), 'm') == steps_text(cs));
}

/// The text of steps is empty or starts with `/`.
proof fn lemma_steps_text_start(cs: Seq<Child>)
    ensures
        steps_text(cs).len() == 0 || steps_text(cs)[0] == '/',
    decreases cs.len(),
{
    reveal_strlit("/");
    if cs.len() > 0 {
        lemma_steps_text_start(cs.drop_last());
    }
}


/// Types that derive a public key for a given unhardened child index.
pub trait DerivePublicKey {
    /// The public key of child `child_index`.
    fn derive_public_key(&self, child_index: UnhardenedIndex) -> PublicKey;
}

/// Law: components read from text without `=` have their branch key as
/// master key and an empty branch path.
pub proof fn law_single_part_master_is_branch(s: Seq<char>)
    requires
        split_on(s, '=').len() == 1,
        components_from_str_spec(s) is Ok,
    ensures
        ({
            let c = components_from_str_spec(s)->Ok_0;
            c.master == c.branch && c.branch_path == Seq::<Child>::empty()
        }),
{
}


/// Law: components read from text have a terminal path of exactly one
/// index, which lies below the hardened boundary, and a list of ranges, where
/// there is one, that is not empty.
pub proof fn law_read_components_shape(s: Seq<char>)
    requires
        components_from_str_spec(s) is Ok,
    ensures
        ({
            let c = components_from_str_spec(s)->Ok_0;
            &&& c.terminal.len() == 1
            &&& c.terminal[0] < HARDENED_INDEX_BOUNDARY
            &&& c.ranges matches Some(rs) ==> rs.len() > 0
        }),
{
    let t = split_on(s, '=').last();
    lemma_match_of_captures(t);
    let (x, d, r) = derivation_captures(t)->0;
    assert forall|i: int| 0 <= i < d.len() implies d[i] != '/' by {
        assert(is_digit(d[i]) || is_mark(d[i]));
    }
    lemma_one_step_path(d);
    if let Some(rr) = r {
        lemma_split_len(rr, is_sep(','));
    }
}

/// `m/d`, where `d` holds no `/`, reads as the path of the one child number
/// that `d` reads as.
proof fn lemma_one_step_path(d: Seq<char>)
    requires
        forall|i: int| 0 <= i < d.len() ==> d[i] != '/',
    ensures
        path_from_str_spec(master_prefixed(d)) == match child_number_from_str_spec(d) {
            Err(e) => Err(e),
            Ok(c) => Ok::<Seq<Child>, Bip32Error>(seq![c]),
        },
{
    let m = seq!['m'];
    assert forall|i: int| 0 <= i < d.len() implies !is_sep('/')(#[trigger] d[i]) by {
        assert(d[i] != '/');
    }
    assert forall|i: int| 0 <= i < m.len() implies !is_sep('/')(#[trigger] m[i]) by {
        assert(m[i] == 'm');
    }
    lemma_split_single(d, is_sep('/'));
    lemma_split_single(m, is_sep('/'));
    assert(master_prefixed(d) =~= m + seq!['/'] + d);
    lemma_split_join(m, d, '/', is_sep('/'));
    let parts = split_on(master_prefixed(d), '/');
    assert(parts =~= seq![m, d]);
    reveal_strlit("m");
    assert(parts[0] =~= "m"@);
    assert(parts.drop_first() =~= seq![d]);
    assert(seq![d].drop_first() =~= Seq::<Seq<char>>::empty());
    assert(children_from_parts(Seq::<Seq<char>>::empty()) == Ok::<Seq<Child>, Bip32Error>(Seq::empty()));
    if let Ok(c) = child_number_from_str_spec(d) {
        assert(children_from_parts(seq![d]) == Ok::<Seq<Child>, Bip32Error>(seq![c] + Seq::<Child>::empty()));
        assert(seq![c] + Seq::<Child>::empty() =~= seq![c]);
    }
}

/// Law: a range part of `*` reads as no range part: `[x]/d/*` and `[x]/d`
/// give the same, where `x` holds no `]` and neither holds `=` or `/`.
pub proof fn law_star_is_no_range(x: Seq<char>, d: Seq<char>)
    requires
        forall|i: int| 0 <= i < x.len() ==> x[i] != ']' && x[i] != '=',
        forall|i: int| 0 <= i < d.len() ==> d[i] != '/' && d[i] != '=',
    ensures
        components_from_str_spec(bracketed_path(x, d) + seq!['/', '*']) == components_from_str_spec(
            bracketed_path(x, d),
        ),
{
    let t = bracketed_path(x, d);
    let t2 = t + seq!['/', '*'];
    lemma_star_captures(x, d);
    assert forall|i: int| 0 <= i < t.len() implies !is_sep('=')(#[trigger] t[i]) by {
        if 1 <= i < 1 + x.len() {
            assert(t[i] == x[i - 1]);
        } else if i >= 3 + x.len() {
            assert(t[i] == d[i - 3 - x.len()]);
        }
    }
    assert forall|i: int| 0 <= i < t2.len() implies !is_sep('=')(#[trigger] t2[i]) by {
        if i < t.len() {
            assert(t2[i] == t[i]);
            assert(!is_sep('=')(t[i]));
        }
    }
    lemma_split_single(t, is_sep('='));
    lemma_split_single(t2, is_sep('='));
}

/// Whether SLIP-132 refused the key of `part`, read by the grammar, with
/// message `m`.
pub open spec fn key_refused_with(part: Seq<char>, m: Seq<char>) -> bool {
    derivation_captures(part) matches Some((x, _, _)) && slip132_xpub(x) == Err::<Seq<u8>, Seq<char>>(m)
}

/// Reading the steps of a path fails only with a child number error.
proof fn lemma_children_errors(parts: Seq<Seq<char>>)
    ensures
        children_from_parts(parts) matches Err(e) ==> (e is InvalidChildNumberFormat || e is InvalidChildNumber),
    decreases parts.len(),
{
    if parts.len() > 0 {
        lemma_children_errors(parts.drop_first());
    }
}

/// No message of reading a path is the message for too many parts.
proof fn lemma_path_message_differs(p: Seq<char>)
    ensures
        path_from_str_spec(p) matches Err(e) ==> bip32_error_text(e) != too_many_parts_message(),
{
    reveal_strlit("Derivation components string must contain at most two parts separated by `=`");
    reveal_strlit("child number ");
    reveal_strlit("invalid child number format");
    reveal_strlit("invalid derivation path format");
    lemma_children_errors(split_on(p, '/').drop_first());
    if let Err(e) = path_from_str_spec(p) {
        assert(bip32_error_text(e)[0] != too_many_parts_message()[0]);
    }
}

/// Law: text with more than two `=`-separated parts is refused with the
/// message for too many parts; text with at most two parts is refused with
/// that message only where SLIP-132 refused the key of one of its parts with
/// it.
pub proof fn law_too_many_parts_message(s: Seq<char>)
    ensures
        split_on(s, '=').len() > 2 ==> components_from_str_spec(s) == Err::<ComponentsView, Seq<char>>(
            too_many_parts_message(),
        ),
        ({
            let parts = split_on(s, '=');
            (parts.len() <= 2 && components_from_str_spec(s) == Err::<ComponentsView, Seq<char>>(
                too_many_parts_message(),
            )) ==> (key_refused_with(parts.last(), too_many_parts_message()) || (parts.len() == 2
                && key_refused_with(parts[0], too_many_parts_message())))
        }),
{
    reveal_strlit("Derivation components string must contain at most two parts separated by `=`");
    reveal_strlit("Wrong composition of derivation components data");
    reveal_strlit("Terminal derivation path must not contain hardened keys");
    let parts = split_on(s, '=');
    let t = parts.last();
    assert(wrong_composition_message()[0] != too_many_parts_message()[0]);
    assert(hardened_terminal_message()[0] != too_many_parts_message()[0]);
    if let Some((x, d, r)) = derivation_captures(t) {
        lemma_path_message_differs(master_prefixed(d));
    }
    if parts.len() == 2 {
        if let Some((x, d, r)) = derivation_captures(parts[0]) {
            lemma_path_message_differs(master_prefixed(d));
        }
    }
}

/// The text of a range holds only digits and `-`.
proof fn lemma_range_text_chars(a: u32, b: u32)
    ensures
        forall|i: int| 0 <= i < range_text(a, b).len() ==> range_text(a, b)[i] != ',',
        range_item_spec(range_text(a, b)) == Some((a, b)),
{
    reveal_strlit("-");
    crate::text::lemma_decimal_digits(a as nat);
    crate::text::lemma_decimal_digits(b as nat);
    crate::text::lemma_parse_decimal(a);
    crate::text::lemma_parse_decimal(b);
    let da = decimal(a as nat);
    let db = decimal(b as nat);
    assert forall|i: int| 0 <= i < da.len() implies da[i] != '-' && da[i] != ',' by {
        assert(is_digit(da[i]));
    }
    assert forall|i: int| 0 <= i < db.len() implies db[i] != '-' && db[i] != ',' by {
        assert(is_digit(db[i]));
    }
    lemma_split_single(da, is_sep('-'));
    lemma_split_single(db, is_sep('-'));
    if a != b {
        assert(range_text(a, b) =~= da + seq!['-'] + db);
        lemma_split_join(da, db, '-', is_sep('-'));
        assert(split_on(range_text(a, b), '-') =~= seq![da, db]);
        assert forall|i: int| 0 <= i < range_text(a, b).len() implies range_text(a, b)[i] != ',' by {
            if i < da.len() {
                assert(is_digit(da[i]));
            } else if i > da.len() {
                assert(is_digit(db[i - da.len() - 1]));
            }
        }
    } else {
        assert forall|i: int| 0 <= i < range_text(a, b).len() implies range_text(a, b)[i] != ',' by {
            assert(is_digit(da[i]));
        }
    }
}

/// The parts at `,` of joined ranges are the texts of the ranges.
proof fn lemma_split_ranges_join(rs: Seq<(u32, u32)>)
    requires
        rs.len() >= 1,
    ensures
        split_on(ranges_join(rs), ',') == rs.map_values(|r: (u32, u32)| range_text(r.0, r.1)),
    decreases rs.len(),
{
    reveal_strlit(",");
    lemma_range_text_chars(rs.last().0, rs.last().1);
    lemma_split_single(range_text(rs.last().0, rs.last().1), is_sep(','));
    if rs.len() == 1 {
        assert(rs.map_values(|r: (u32, u32)| range_text(r.0, r.1)) =~= seq![range_text(rs[0].0, rs[0].1)]);
    } else {
        lemma_split_ranges_join(rs.drop_last());
        let left = ranges_join(rs.drop_last());
        let right = range_text(rs.last().0, rs.last().1);
        assert(ranges_join(rs) =~= left + seq![','] + right);
        lemma_split_join(left, right, ',', is_sep(','));
        assert(rs.map_values(|r: (u32, u32)| range_text(r.0, r.1)) =~= rs.drop_last().map_values(
            |r: (u32, u32)| range_text(r.0, r.1),
        ) + seq![right]);
    }
}

/// Law: the ranges written by `index_ranges_string` read back as the same
/// ranges, as `from_str` reads the range part (for at least one range; the
/// text of no range is empty and reads as nothing).
pub proof fn law_ranges_text_roundtrip(rs: Seq<(u32, u32)>)
    requires
        rs.len() >= 1,
    ensures
        ranges_readable(ranges_join(rs)),
        ranges_spec(ranges_join(rs)) == rs,
{
    lemma_split_ranges_join(rs);
    let items = split_on(ranges_join(rs), ',');
    assert forall|k: int| 0 <= k < items.len() implies (#[trigger] range_item_spec(items[k])) == Some(rs[k]) by {
        lemma_range_text_chars(rs[k].0, rs[k].1);
    }
    assert(ranges_spec(ranges_join(rs)) =~= rs);
}


/// `10^k`.
spec fn ten_pow(k: nat) -> nat
    decreases k,
{
    if k == 0 {
        1
    } else {
        10 * ten_pow((k - 1) as nat)
    }
}

/// A number below `10^k` has at most `k` decimal digits.
proof fn lemma_decimal_len(n: nat, k: nat)
    requires
        n < ten_pow(k),
        k >= 1,
    ensures
        decimal(n).len() <= k,
    decreases k,
{
    if n >= 10 {
        let smaller = ten_pow((k - 1) as nat);
        assert(n / 10 < smaller) by (nonlinear_arith)
            requires
                n < 10 * smaller,
        ;
        if k == 1 {
            assert(ten_pow(0) == 1);
            assert(false);
        }
        lemma_decimal_len(n / 10, (k - 1) as nat);
    }
}

/// The groups of a range's text are digit groups.
proof fn lemma_range_text_groups(a: u32, b: u32)
    ensures
        split_groups(range_text(a, b)) == (if a == b {
            seq![decimal(a as nat)]
        } else {
            seq![decimal(a as nat), decimal(b as nat)]
        }),
        digit_group(decimal(a as nat)),
        digit_group(decimal(b as nat)),
{
    reveal_strlit("-");
    crate::text::lemma_decimal_digits(a as nat);
    crate::text::lemma_decimal_digits(b as nat);
    assert(ten_pow(10) == 10000000000) by {
        reveal_with_fuel(ten_pow, 11);
    }
    lemma_decimal_len(a as nat, 10);
    lemma_decimal_len(b as nat, 10);
    let da = decimal(a as nat);
    let db = decimal(b as nat);
    assert(forall|i: int| 0 <= i < da.len() ==> #[trigger] is_digit(da[i]));
    assert(forall|i: int| 0 <= i < db.len() ==> #[trigger] is_digit(db[i]));
    assert forall|i: int| 0 <= i < da.len() implies !range_sep()(#[trigger] da[i]) by {
        assert(is_digit(da[i]));
    }
    assert forall|i: int| 0 <= i < db.len() implies !range_sep()(#[trigger] db[i]) by {
        assert(is_digit(db[i]));
    }
    lemma_split_single(da, range_sep());
    lemma_split_single(db, range_sep());
    if a != b {
        assert(range_text(a, b) =~= da + seq!['-'] + db);
        lemma_split_join(da, db, '-', range_sep());
    }
}

/// The groups of joined ranges are digit groups.
proof fn lemma_ranges_join_groups(rs: Seq<(u32, u32)>)
    requires
        rs.len() >= 1,
    ensures
        forall|k: int| 0 <= k < split_groups(ranges_join(rs)).len() ==> #[trigger] digit_group(
            split_groups(ranges_join(rs))[k],
        ),
    decreases rs.len(),
{
    reveal_strlit(",");
    lemma_range_text_groups(rs.last().0, rs.last().1);
    let right = range_text(rs.last().0, rs.last().1);
    if rs.len() > 1 {
        lemma_ranges_join_groups(rs.drop_last());
        let left = ranges_join(rs.drop_last());
        assert(ranges_join(rs) =~= left + seq![','] + right);
        lemma_split_join(left, right, ',', range_sep());
        let g = split_groups(ranges_join(rs));
        assert forall|k: int| 0 <= k < g.len() implies #[trigger] digit_group(g[k]) by {
            if k < split_groups(left).len() {
                assert(g[k] == split_groups(left)[k]);
            } else {
                assert(g[k] == split_groups(right)[k - split_groups(left).len()]);
            }
        }
    }
}

/// Law: the ranges written by `index_ranges_string` are in the grammar of
/// the range part that `from_str` accepts (for at least one range).
pub proof fn law_ranges_text_in_grammar(rs: Seq<(u32, u32)>)
    requires
        rs.len() >= 1,
    ensures
        range_chars(ranges_join(rs)),
{
    lemma_ranges_join_groups(rs);
}

/// `[x]/d` followed by the range part `r`, where `x` is a key and `d` a
/// child number's text in the grammar, matches the grammar with the parts
/// `x`, `d` and `r`, and holds no `=`.
proof fn lemma_part_captures(x: Seq<char>, c: Child, r: Option<Seq<char>>)
    requires
        xpub_chars(x),
        child_index(c) < HARDENED_INDEX_BOUNDARY,
        r matches Some(rr) ==> range_chars(rr) && forall|i: int| 0 <= i < rr.len() ==> rr[i] != '=',
    ensures
        derivation_captures(bracketed_path(x, child_text(c)) + ranges_tail(r)) == Some(
            (x, child_text(c), r),
        ),
        forall|i: int|
            0 <= i < (bracketed_path(x, child_text(c)) + ranges_tail(r)).len() ==> (bracketed_path(
                x,
                child_text(c),
            ) + ranges_tail(r))[i] != '=',
{
    lemma_child_text_reads(c);
    let d = child_text(c);
    let t = bracketed_path(x, d) + ranges_tail(r);
    assert(derivation_match(t, x, d, r));
    lemma_captures_of_match(t, x, d, r);
    assert forall|i: int| 0 <= i < t.len() implies t[i] != '=' by {
        let xl = x.len() as int;
        let dl = d.len() as int;
        if 1 <= i < 1 + xl {
            assert(t[i] == x[i - 1]);
            if i - 1 >= 4 {
                assert(is_base58(x[i - 1]));
            }
        } else if 3 + xl <= i < 3 + xl + dl {
            assert(t[i] == d[i - 3 - xl]);
        } else if i > 3 + xl + dl {
            let rr = r->0;
            assert(t[i] == rr[i - 4 - xl - dl]);
        }
    }
}

/// The text of ranges holds no `=`.
proof fn lemma_ranges_join_no_eq(rs: Seq<(u32, u32)>)
    ensures
        forall|i: int| 0 <= i < ranges_join(rs).len() ==> ranges_join(rs)[i] != '=',
    decreases rs.len(),
{
    reveal_strlit(",");
    reveal_strlit("-");
    if rs.len() > 0 {
        let (a, b) = rs.last();
        crate::text::lemma_decimal_digits(a as nat);
        crate::text::lemma_decimal_digits(b as nat);
        let da = decimal(a as nat);
        let db = decimal(b as nat);
        assert forall|i: int| 0 <= i < range_text(a, b).len() implies range_text(a, b)[i] != '=' by {
            if a == b {
                assert(is_digit(da[i]));
            } else if i < da.len() {
                assert(range_text(a, b)[i] == da[i]);
                assert(is_digit(da[i]));
            } else if i > da.len() {
                assert(range_text(a, b)[i] == db[i - da.len() - 1]);
                assert(is_digit(db[i - da.len() - 1]));
            }
        }
        if rs.len() > 1 {
            lemma_ranges_join_no_eq(rs.drop_last());
            let left = ranges_join(rs.drop_last());
            assert forall|i: int| 0 <= i < ranges_join(rs).len() implies ranges_join(rs)[i] != '=' by {
                if i < left.len() {
                    assert(ranges_join(rs)[i] == left[i]);
                } else if i > left.len() {
                    assert(ranges_join(rs)[i] == range_text(a, b)[i - left.len() - 1]);
                }
            }
        } else {
            assert(rs[0] == rs.last());
        }
    }
}

/// The range part `*` cannot be read as ranges.
proof fn lemma_star_unreadable()
    ensures
        !ranges_readable(seq!['*']),
{
    let star = seq!['*'];
    assert forall|i: int| 0 <= i < star.len() implies !is_sep(',')(#[trigger] star[i]) by {
        assert(star[i] == '*');
    }
    assert forall|i: int| 0 <= i < star.len() implies !is_sep('-')(#[trigger] star[i]) by {
        assert(star[i] == '*');
    }
    lemma_split_single(star, is_sep(','));
    lemma_split_single(star, is_sep('-'));
    assert(!is_digit(star[0]));
    assert(split_on(star, ',')[0] == star);
    assert(range_item_spec(split_on(star, ',')[0]) is None);
}

/// Components whose text form reads back as them: one terminal index below
/// the hardened boundary; a branch path of at most one step, below the
/// hardened boundary, empty exactly where the branch key is the master key;
/// and ranges, where given, not empty.
pub open spec fn components_text_reads_back(c: ComponentsView) -> bool {
    &&& c.terminal.len() == 1
    &&& c.terminal[0] < HARDENED_INDEX_BOUNDARY
    &&& c.branch_path.len() <= 1
    &&& (c.branch_path.len() == 0) == (c.branch == c.master)
    &&& c.branch_path.len() == 1 ==> child_index(c.branch_path[0]) < HARDENED_INDEX_BOUNDARY
    &&& c.ranges matches Some(rs) ==> rs.len() > 0
}

/// Law: the text form of components reads back as the components, where
/// the components are such (see `components_text_reads_back`) and the text
/// of each of their keys is a key in the grammar that SLIP-132 reads back as
/// that key; the reading refuses nothing on the way.
#[verifier::rlimit(40)]
pub proof fn law_components_text_roundtrip(c: ComponentsView)
    requires
        components_text_reads_back(c),
        xpub_chars(xpub_text(c.master)),
        slip132_xpub(xpub_text(c.master)) == Ok::<Seq<u8>, Seq<char>>(c.master),
        xpub_chars(xpub_text(c.branch)),
        slip132_xpub(xpub_text(c.branch)) == Ok::<Seq<u8>, Seq<char>>(c.branch),
    ensures
        !components_bound_overflows(components_text(c, false)),
        components_from_str_spec(components_text(c, false)) == Ok::<ComponentsView, Seq<char>>(c),
{
    reveal_strlit("[");
    reveal_strlit("]");
    reveal_strlit("/");
    reveal_strlit("=[");
    reveal_strlit("*");
    let text = components_text(c, false);
    let tc = Child::Normal { index: c.terminal[0] };
    let r = match c.ranges {
        Some(rs) => ranges_join(rs),
        None => "*"@,
    };
    assert(normal_steps(c.terminal) =~= seq![tc]);
    assert(seq![tc].drop_last() =~= Seq::<Child>::empty());
    assert(seq![tc].last() == tc);
    assert(steps_text(seq![tc]) == steps_text(Seq::<Child>::empty()) + "/"@ + child_text(tc));
    assert(steps_text(seq![tc]) =~= "/"@ + child_text(tc));
    match c.ranges {
        Some(rs) => {
            law_ranges_text_in_grammar(rs);
            law_ranges_text_roundtrip(rs);
            lemma_ranges_join_no_eq(rs);
            lemma_star_unreadable();
        },
        None => {
            assert(r =~= seq!['*']);
        },
    }
    lemma_part_captures(xpub_text(c.branch), tc, Some(r));
    lemma_child_text_reads(tc);
    lemma_one_step_path(child_text(tc));
    let t = bracketed_path(xpub_text(c.branch), child_text(tc)) + ranges_tail(Some(r));
    assert(seq![tc].map_values(|s: Child| child_index(s)) =~= c.terminal);
    assert(terminal_start(seq![tc]) == 0) by {
        assert(terminal_start(Seq::<Child>::empty()) == 0);
    }
    if c.branch_path.len() == 0 {
        assert(c.branch_path =~= Seq::<Child>::empty());
        assert(text =~= t);
        lemma_split_single(t, is_sep('='));
        assert(split_on(text, '=') == seq![t]);
    } else {
        let bc = c.branch_path[0];
        assert(c.branch_path =~= seq![bc]);
        assert(seq![bc].drop_last() =~= Seq::<Child>::empty());
        assert(seq![bc].last() == bc);
    assert(steps_text(seq![bc]) == steps_text(Seq::<Child>::empty()) + "/"@ + child_text(bc));
    assert(steps_text(seq![bc]) =~= "/"@ + child_text(bc));
        lemma_part_captures(xpub_text(c.master), bc, None);
        lemma_child_text_reads(bc);
        lemma_one_step_path(child_text(bc));
        let b = bracketed_path(xpub_text(c.master), child_text(bc)) + ranges_tail(None);
        assert(text =~= b + seq!['='] + t);
        lemma_split_single(t, is_sep('='));
        lemma_split_single(b, is_sep('='));
        lemma_split_join(b, t, '=', is_sep('='));
        assert(split_on(text, '=') =~= seq![b, t]);
    }
}

/// Law: the key of child `c` is the one derived from the branch key along
/// the terminal path followed by exactly one more unhardened step, with index
/// `c`; it can be derived where the depth fits and that derivation succeeds.
pub proof fn law_child_key_derivation(dc: DerivationComponents, c: u32)
    ensures
        ({
            let steps = normal_steps(dc.terminal_path@) + seq![Child::Normal { index: c }];
            &&& steps.len() == dc.terminal_path@.len() + 1
            &&& steps.last() == (Child::Normal { index: c })
            &&& forall|k: int| 0 <= k < dc.terminal_path@.len() ==> #[trigger] steps[k] == (Child::Normal {
                index: dc.terminal_path@[k],
            })
            &&& dc.child_derivable(c) == (xpub_depth(dc.branch_xpub@) + dc.terminal_path@.len() + 1 <= 255
                && xpub_derive(dc.branch_xpub@, steps) is Some)
            &&& dc.child_key(c) == xpub_derive(dc.branch_xpub@, steps)->0
        }),
{
    let steps = normal_steps(dc.terminal_path@) + seq![Child::Normal { index: c }];
    assert(dc.child_steps(c) =~= steps);
}

/// Law: the alternate text form starts with `[`, the fingerprint of the
/// master key in lower-case hexadecimal and `]`, whatever the branch key is.
pub proof fn law_alternate_text_starts_with_master_fingerprint(c: ComponentsView)
    ensures
        ({
            let head = "["@ + hex_lower(xpub_fingerprint(c.master)) + "]"@;
            components_text(c, true).take(head.len() as int) == head
        }),
{
    let head = "["@ + hex_lower(xpub_fingerprint(c.master)) + "]"@;
    let t = components_text(c, true);
    assert(t.take(head.len() as int) =~= head);
}

/// Law: the plain text form starts with `[`, the text of the master key and
/// `]`, whatever the branch key is.
pub proof fn law_text_starts_with_master_key(c: ComponentsView)
    ensures
        ({
            let head = "["@ + xpub_text(c.master) + "]"@;
            components_text(c, false).take(head.len() as int) == head
        }),
{
    let head = "["@ + xpub_text(c.master) + "]"@;
    let t = components_text(c, false);
    assert(t.take(head.len() as int) =~= head);
}

/// Law: where the text has at most two parts and SLIP-132 refuses the key
/// of its terminal part with message `m`, reading fails with `m`; where the
/// terminal part reads and there is a branch part whose key SLIP-132 refuses
/// with `m`, reading fails with `m` as well.
pub proof fn law_refused_key_message(s: Seq<char>, m: Seq<char>)
    ensures
        ({
            let parts = split_on(s, '=');
            parts.len() <= 2 && key_refused_with(parts.last(), m) ==> components_from_str_spec(s) == Err::<
                ComponentsView,
                Seq<char>,
            >(m)
        }),
        ({
            let parts = split_on(s, '=');
            parts.len() == 2 && terminal_part_spec(parts.last()) is Ok && key_refused_with(parts[0], m)
                ==> components_from_str_spec(s) == Err::<ComponentsView, Seq<char>>(m)
        }),
{
}

/// Law: counting ranges adds up: the count of two lists of ranges one
/// after the other is the sum of their counts, and one range counts as its
/// own count.
pub proof fn law_ranges_count_additive(a: Seq<(u32, u32)>, b: Seq<(u32, u32)>)
    ensures
        ranges_count(a + b) == ranges_count(a) + ranges_count(b),
        b.len() == 1 ==> ranges_count(b) == range_len(b[0].0, b[0].1),
    decreases b.len(),
{
    if b.len() > 0 {
        law_ranges_count_additive(a, b.drop_last());
        assert((a + b).drop_last() =~= a + b.drop_last());
        assert((a + b).last() == b.last());
        if b.len() == 1 {
            assert(b.drop_last() =~= Seq::<(u32, u32)>::empty());
        }
    } else {
        assert(a + b =~= a);
    }
}

/// Law: the alternate text form is the plain one with the master key
/// written as its fingerprint and the branch key written as a bare `/`: after
/// the branch path both go on with the same terminal steps and ranges.
pub proof fn law_alternate_text_from_plain(c: ComponentsView)
    ensures
        ({
            let plain_head = "["@ + xpub_text(c.master) + "]"@ + steps_text(c.branch_path) + (if c.branch
                != c.master {
                "=["@ + xpub_text(c.branch) + "]"@
            } else {
                Seq::empty()
            });
            let alt_head = "["@ + hex_lower(xpub_fingerprint(c.master)) + "]"@ + steps_text(c.branch_path)
                + "/"@;
            &&& components_text(c, false).take(plain_head.len() as int) == plain_head
            &&& components_text(c, true).take(alt_head.len() as int) == alt_head
            &&& components_text(c, true).skip(alt_head.len() as int) == components_text(c, false).skip(
                plain_head.len() as int,
            )
        }),
{
    let plain_head = "["@ + xpub_text(c.master) + "]"@ + steps_text(c.branch_path) + (if c.branch != c.master {
        "=["@ + xpub_text(c.branch) + "]"@
    } else {
        Seq::empty()
    });
    let alt_head = "["@ + hex_lower(xpub_fingerprint(c.master)) + "]"@ + steps_text(c.branch_path) + "/"@;
    let tail = steps_text(normal_steps(c.terminal)) + "/"@ + match c.ranges {
        Some(rs) => ranges_join(rs),
        None => "*"@,
    };
    assert(components_text(c, false) =~= plain_head + tail);
    assert(components_text(c, true) =~= alt_head + tail);
    assert((plain_head + tail).take(plain_head.len() as int) =~= plain_head);
    assert((alt_head + tail).take(alt_head.len() as int) =~= alt_head);
    assert((plain_head + tail).skip(plain_head.len() as int) =~= tail);
    assert((alt_head + tail).skip(alt_head.len() as int) =~= tail);
}

} // verus!
