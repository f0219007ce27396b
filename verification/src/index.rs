//! BIP32 child indexes: the child number of a derivation step, and the
//! unhardened and hardened indexes.

use vstd::prelude::*;

use crate::error::Bip32Error;
use crate::text::{chars_to_string, decimal, parse_u32, parse_u32_spec, push_decimal, push_str};
use crate::btc::child_number_from_str;
use vstd::std_specs::convert::FromSpecImpl;

verus! {

/// Index boundary at and above which a `u32` child number denotes a
/// hardened child.
pub const HARDENED_INDEX_BOUNDARY: u32 = 2147483648;

/// A child number of a derivation step, as the `bitcoin` crate's
/// `bip32::Child` holds it.
#[derive(Clone, Copy, PartialEq, Eq, Structural, Debug, Hash, PartialOrd, Ord)]
pub enum Child {
    /// Non-hardened key, index within [0, 2^31 - 1]
    Normal { index: u32 },
    /// Hardened key, index within [0, 2^31 - 1]
    Hardened { index: u32 },
}

/// Common behaviour of the child index types.
pub trait ChildIndex: Sized {
    /// The index held, if any.
    spec fn index_spec(&self) -> Option<u32>;

    /// The value with its index replaced by `index`.
    spec fn with_index_spec(&self, index: u32) -> Self;

    /// What `from_index` gives for `index`.
    spec fn from_index_spec(index: u32) -> Result<Self, Bip32Error>;

    /// Whether the type stands for hardened derivation.
    spec fn is_hardened_spec(&self) -> bool;

    /// Indexes below the hardened boundary are always accepted.
    proof fn lemma_small_index_accepted(index: u32)
        requires
            index < HARDENED_INDEX_BOUNDARY,
        ensures
            Self::from_index_spec(index) is Ok,
    ;

    /// The index 0.
    fn zero() -> (r: Self)
        ensures
            Self::from_index_spec(0) == Ok::<Self, Bip32Error>(r),
    {
        proof {
            Self::lemma_small_index_accepted(0);
        }
        Self::from_index(0).unwrap()
    }

    /// The index 1.
    fn one() -> (r: Self)
        ensures
            Self::from_index_spec(1) == Ok::<Self, Bip32Error>(r),
    {
        proof {
            Self::lemma_small_index_accepted(1);
        }
        Self::from_index(1).unwrap()
    }

    /// Constructs the index type from a `u32`.
    fn from_index(index: u32) -> (r: Result<Self, Bip32Error>)
        ensures
            r == Self::from_index_spec(index),
    ;

    /// The index held, if any; an unhardened index lies below the hardened
    /// boundary.
    fn index(&self) -> (r: Option<u32>)
        ensures
            r == self.index_spec(),
            r matches Some(i) ==> i < HARDENED_INDEX_BOUNDARY || self.is_hardened_spec(),
    ;

    /// Replaces the index held by `index`, which for an unhardened index must
    /// lie below the hardened boundary (an unhardened index holds no other).
    fn set_index(&mut self, index: u32)
        requires
            index < HARDENED_INDEX_BOUNDARY || old(self).is_hardened_spec(),
            old(self).index_spec() is Some,
        ensures
            *final(self) == old(self).with_index_spec(index),
    ;

    /// Increments the index in place and returns the new index; fails where
    /// there is no index, where the index is at or above the hardened
    /// boundary, or, for an unhardened index, where the incremented index
    /// would reach that boundary (the index is then left as it was).
    fn try_increment(&mut self) -> (r: Result<u32, Bip32Error>)
        ensures
            match old(self).index_spec() {
                None => r == Err::<u32, Bip32Error>(Bip32Error::InvalidChildNumberFormat)
                    && *final(self) == *old(self),
                Some(i) => if i >= HARDENED_INDEX_BOUNDARY {
                    r == Err::<u32, Bip32Error>(Bip32Error::InvalidChildNumber(i))
                        && *final(self) == *old(self)
                } else if i + 1 >= HARDENED_INDEX_BOUNDARY && !old(self).is_hardened_spec() {
                    r == Err::<u32, Bip32Error>(Bip32Error::InvalidChildNumber((i + 1) as u32))
                        && *final(self) == *old(self)
                } else {
                    r == Ok::<u32, Bip32Error>((i + 1) as u32) && *final(self)
                        == old(self).with_index_spec((i + 1) as u32)
                },
            },
    {
        match self.index() {
            None => Err(Bip32Error::InvalidChildNumberFormat),
            Some(index) => {
                if index >= HARDENED_INDEX_BOUNDARY {
                    Err(Bip32Error::InvalidChildNumber(index))
                } else if index == HARDENED_INDEX_BOUNDARY - 1 && !self.is_hardened() {
                    Err(Bip32Error::InvalidChildNumber(index + 1))
                } else {
                    self.set_index(index + 1);
                    Ok(index + 1)
                }
            },
        }
    }

    /// Decrements the index in place and returns the new index; fails where
    /// there is no index or the index is 0 (the index is then left as it
    /// was).
    fn try_decrement(&mut self) -> (r: Result<u32, Bip32Error>)
        ensures
            match old(self).index_spec() {
                None => r == Err::<u32, Bip32Error>(Bip32Error::InvalidChildNumberFormat)
                    && *final(self) == *old(self),
                Some(i) => if i == 0 {
                    r == Err::<u32, Bip32Error>(Bip32Error::InvalidChildNumber(i))
                        && *final(self) == *old(self)
                } else {
                    r == Ok::<u32, Bip32Error>((i - 1) as u32) && *final(self)
                        == old(self).with_index_spec((i - 1) as u32)
                },
            },
    {
        match self.index() {
            None => Err(Bip32Error::InvalidChildNumberFormat),
            Some(index) => {
                if index == 0 {
                    Err(Bip32Error::InvalidChildNumber(index))
                } else {
                    self.set_index(index - 1);
                    Ok(index - 1)
                }
            },
        }
    }

    /// The value with its index incremented; fails as `try_increment` does.
    fn incremented(self) -> (r: Result<Self, Bip32Error>)
        ensures
            match self.index_spec() {
                None => r == Err::<Self, Bip32Error>(Bip32Error::InvalidChildNumberFormat),
                Some(i) => if i >= HARDENED_INDEX_BOUNDARY {
                    r == Err::<Self, Bip32Error>(Bip32Error::InvalidChildNumber(i))
                } else if i + 1 >= HARDENED_INDEX_BOUNDARY && !self.is_hardened_spec() {
                    r == Err::<Self, Bip32Error>(Bip32Error::InvalidChildNumber((i + 1) as u32))
                } else {
                    r == Ok::<Self, Bip32Error>(self.with_index_spec((i + 1) as u32))
                },
            },
    {
        let mut s = self;
        match s.try_increment() {
            Ok(_) => Ok(s),
            Err(e) => Err(e),
        }
    }

    /// The value with its index decremented; fails where there is no index
    /// or the index is 0.
    fn decremented(self) -> (r: Result<Self, Bip32Error>)
        ensures
            match self.index_spec() {
                None => r == Err::<Self, Bip32Error>(Bip32Error::InvalidChildNumberFormat),
                Some(i) => if i == 0 {
                    r == Err::<Self, Bip32Error>(Bip32Error::InvalidChildNumber(i))
                } else {
                    r == Ok::<Self, Bip32Error>(self.with_index_spec((i - 1) as u32))
                },
            },
    {
        let mut s = self;
        match s.try_decrement() {
            Ok(_) => Ok(s),
            Err(e) => Err(e),
        }
    }

    /// Whether the type stands for hardened derivation.
    fn is_hardened(&self) -> (r: bool)
        ensures
            r == self.is_hardened_spec(),
    ;
}


/// What `bitcoin`'s `Child::from_str` returns: a trailing `'` or `h`
/// marks a hardened index, the rest is read as `u32::from_str` reads it, and an
/// index at or above 2^31 is refused.
pub open spec fn child_number_from_str_spec(s: Seq<char>) -> Result<Child, Bip32Error> {
    let hardened = s.len() > 0 && (s.last() == '\'' || s.last() == 'h');
    let digits = if hardened { s.drop_last() } else { s };
    match parse_u32_spec(digits) {
        None => Err(Bip32Error::InvalidChildNumberFormat),
        Some(i) => if i >= HARDENED_INDEX_BOUNDARY {
            Err(Bip32Error::InvalidChildNumber(i))
        } else if hardened {
            Ok(Child::Hardened { index: i })
        } else {
            Ok(Child::Normal { index: i })
        },
    }
}

/// Index for unhardened children derivation; ensures that the wrapped value
/// < 2^31.
#[derive(Clone, Copy, PartialEq, Eq, Structural, Debug, Hash, PartialOrd, Ord)]
pub struct UnhardenedIndex(u32);

impl View for UnhardenedIndex {
    type V = u32;

    closed spec fn view(&self) -> u32 {
        self.0
    }
}

impl ChildIndex for UnhardenedIndex {
    open spec fn index_spec(&self) -> Option<u32> {
        Some(self@)
    }

    closed spec fn with_index_spec(&self, index: u32) -> Self {
        UnhardenedIndex(index)
    }

    open spec fn from_index_spec(index: u32) -> Result<Self, Bip32Error> {
        if index >= HARDENED_INDEX_BOUNDARY {
            Err(Bip32Error::InvalidChildNumber(index))
        } else {
            Ok(Self::from_value_spec(index))
        }
    }

    open spec fn is_hardened_spec(&self) -> bool {
        false
    }

    proof fn lemma_small_index_accepted(index: u32) {
    }

    fn from_index(index: u32) -> (r: Result<Self, Bip32Error>) {
        if index >= HARDENED_INDEX_BOUNDARY {
            Err(Bip32Error::InvalidChildNumber(index))
        } else {
            Ok(UnhardenedIndex(index))
        }
    }

    fn index(&self) -> (r: Option<u32>) {
        proof {
            use_type_invariant(self);
        }
        Some(self.0)
    }

    fn set_index(&mut self, index: u32) {
        self.0 = index;
    }

    fn is_hardened(&self) -> (r: bool) {
        false
    }
}

impl UnhardenedIndex {
    /// Every index held lies below the hardened boundary.
    #[verifier::type_invariant]
    spec fn below_boundary(self) -> bool {
        self.0 < HARDENED_INDEX_BOUNDARY
    }

    /// The index holding `value`.
    pub closed spec fn from_value_spec(value: u32) -> Self {
        UnhardenedIndex(value)
    }

    /// The index holding `value` holds `value`, and an index is determined
    /// by the value it holds.
    pub broadcast proof fn lemma_value(value: u32)
        ensures
            (#[trigger] Self::from_value_spec(value))@ == value,
    {
    }

    /// An index is the one holding its value.
    pub broadcast proof fn lemma_own_value(self)
        ensures
            #[trigger] Self::from_value_spec(self@) == self,
    {
    }

    /// Incrementing or decrementing an index holding `value` gives the index
    /// holding the new value.
    pub broadcast proof fn lemma_with_index(self, index: u32)
        ensures
            #[trigger] self.with_index_spec(index) == Self::from_value_spec(index),
    {
    }

    /// Parses the decimal form, as `u32::from_str` reads it, of an index
    /// below 2^31.
    pub fn from_str(s: &str) -> (r: Result<Self, Bip32Error>)
        ensures
            r == match parse_u32_spec(s@) {
                None => Err(Bip32Error::InvalidChildNumberFormat),
                Some(i) => Self::from_index_spec(i),
            },
    {
        match parse_u32(s) {
            None => Err(Bip32Error::InvalidChildNumberFormat),
            Some(i) => Self::from_index(i),
        }
    }

    /// The text form: the index in decimal.
    pub fn to_string(&self) -> (r: String)
        ensures
            r@ == decimal(self@ as nat),
    {
        let mut v: Vec<char> = Vec::new();
        push_decimal(&mut v, self.0 as u64);
        assert(v@ =~= decimal(self@ as nat));
        chars_to_string(v.as_slice())
    }

    /// The unhardened child number of this index.
    pub fn child_number(self) -> (r: Child)
        ensures
            r == (Child::Normal { index: self@ }),
    {
        Child::Normal { index: self.0 }
    }

    /// The index of an unhardened child number; a hardened one is refused,
    /// and so is an index at or above the hardened boundary.
    pub fn try_from_child_number(value: Child) -> (r: Result<Self, Bip32Error>)
        ensures
            r == match value {
                Child::Normal { index } => Self::from_index_spec(index),
                Child::Hardened { .. } => Err(Bip32Error::InvalidChildNumberFormat),
            },
    {
        match value {
            Child::Normal { index } => Self::from_index(index),
            Child::Hardened { .. } => Err(Bip32Error::InvalidChildNumberFormat),
        }
    }
}

impl Default for UnhardenedIndex {
    /// The index 0.
    fn default() -> (r: Self)
        ensures
            r@ == 0,
    {
        UnhardenedIndex(0)
    }
}

impl From<u8> for UnhardenedIndex {
    fn from(v: u8) -> (r: Self) {
        UnhardenedIndex(v as u32)
    }
}

impl FromSpecImpl<u8> for UnhardenedIndex {
    open spec fn obeys_from_spec() -> bool {
        true
    }

    open spec fn from_spec(v: u8) -> Self {
        Self::from_value_spec(v as u32)
    }
}

impl From<u16> for UnhardenedIndex {
    fn from(v: u16) -> (r: Self) {
        UnhardenedIndex(v as u32)
    }
}

impl FromSpecImpl<u16> for UnhardenedIndex {
    open spec fn obeys_from_spec() -> bool {
        true
    }

    open spec fn from_spec(v: u16) -> Self {
        Self::from_value_spec(v as u32)
    }
}

impl From<UnhardenedIndex> for u32 {
    fn from(index: UnhardenedIndex) -> (r: u32) {
        index.0
    }
}

impl FromSpecImpl<UnhardenedIndex> for u32 {
    open spec fn obeys_from_spec() -> bool {
        true
    }

    open spec fn from_spec(v: UnhardenedIndex) -> u32 {
        v@
    }
}

/// Index for hardened children derivation: the index of a hardened child
/// number, which its `u32` form offsets by 2^31. `from_index` takes an index
/// at or above 2^31 as that form and removes the offset.
#[derive(Clone, Copy, PartialEq, Eq, Structural, Debug, Hash, PartialOrd, Ord)]
pub struct HardenedIndex(u32);

impl View for HardenedIndex {
    type V = u32;

    closed spec fn view(&self) -> u32 {
        self.0
    }
}

impl ChildIndex for HardenedIndex {
    open spec fn index_spec(&self) -> Option<u32> {
        Some(self@)
    }

    closed spec fn with_index_spec(&self, index: u32) -> Self {
        HardenedIndex(index)
    }

    open spec fn from_index_spec(index: u32) -> Result<Self, Bip32Error> {
        if index >= HARDENED_INDEX_BOUNDARY {
            Ok(Self::from_value_spec((index - HARDENED_INDEX_BOUNDARY) as u32))
        } else {
            Ok(Self::from_value_spec(index))
        }
    }

    open spec fn is_hardened_spec(&self) -> bool {
        true
    }

    proof fn lemma_small_index_accepted(index: u32) {
    }

    fn from_index(index: u32) -> (r: Result<Self, Bip32Error>) {
        if index >= HARDENED_INDEX_BOUNDARY {
            Ok(HardenedIndex(index - HARDENED_INDEX_BOUNDARY))
        } else {
            Ok(HardenedIndex(index))
        }
    }

    fn index(&self) -> (r: Option<u32>) {
        Some(self.0)
    }

    fn set_index(&mut self, index: u32) {
        self.0 = index;
    }

    fn is_hardened(&self) -> (r: bool) {
        true
    }
}

impl HardenedIndex {
    /// The index holding `value`.
    pub closed spec fn from_value_spec(value: u32) -> Self {
        HardenedIndex(value)
    }

    /// The index holding `value` holds `value`, and an index is determined
    /// by the value it holds.
    pub broadcast proof fn lemma_value(value: u32)
        ensures
            (#[trigger] Self::from_value_spec(value))@ == value,
    {
    }

    /// An index is the one holding its value.
    pub broadcast proof fn lemma_own_value(self)
        ensures
            #[trigger] Self::from_value_spec(self@) == self,
    {
    }

    /// Incrementing or decrementing an index holding `value` gives the index
    /// holding the new value.
    pub broadcast proof fn lemma_with_index(self, index: u32)
        ensures
            #[trigger] self.with_index_spec(index) == Self::from_value_spec(index),
    {
    }

    /// Parses a hardened child number (`7'` or `7h`) with `bitcoin`'s
    /// `Child::from_str`; an unhardened one is refused.
    pub fn from_str(s: &str) -> (r: Result<Self, Bip32Error>)
        ensures
            r == match child_number_from_str_spec(s@) {
                Err(e) => Err(e),
                Ok(Child::Normal { .. }) => Err(Bip32Error::InvalidChildNumberFormat),
                Ok(Child::Hardened { index }) => Ok(Self::from_value_spec(index)),
            },
    {
        match child_number_from_str(s) {
            Err(e) => Err(e),
            Ok(Child::Normal { .. }) => Err(Bip32Error::InvalidChildNumberFormat),
            Ok(Child::Hardened { index }) => Ok(HardenedIndex(index)),
        }
    }

    /// The text form: the index in decimal followed by `'`.
    pub fn to_string(&self) -> (r: String)
        ensures
            r@ == decimal(self@ as nat) + "'"@,
    {
        let mut v: Vec<char> = Vec::new();
        push_decimal(&mut v, self.0 as u64);
        push_str(&mut v, "'");
        chars_to_string(v.as_slice())
    }

    /// The alternate text form: the index in decimal followed by `h`.
    pub fn to_string_alternate(&self) -> (r: String)
        ensures
            r@ == decimal(self@ as nat) + "h"@,
    {
        let mut v: Vec<char> = Vec::new();
        push_decimal(&mut v, self.0 as u64);
        push_str(&mut v, "h");
        chars_to_string(v.as_slice())
    }

    /// The hardened child number of this index.
    pub fn child_number(self) -> (r: Child)
        ensures
            r == (Child::Hardened { index: self@ }),
    {
        Child::Hardened { index: self.0 }
    }

    /// The index of a hardened child number, whatever its value; an
    /// unhardened one is refused.
    pub fn try_from_child_number(value: Child) -> (r: Result<Self, Bip32Error>)
        ensures
            r == match value {
                Child::Hardened { index } => Ok(Self::from_value_spec(index)),
                Child::Normal { .. } => Err(Bip32Error::InvalidChildNumberFormat),
            },
    {
        match value {
            Child::Hardened { index } => Ok(HardenedIndex(index)),
            Child::Normal { .. } => Err(Bip32Error::InvalidChildNumberFormat),
        }
    }
}

impl Default for HardenedIndex {
    /// The index 0.
    fn default() -> (r: Self)
        ensures
            r@ == 0,
    {
        HardenedIndex(0)
    }
}

impl From<u8> for HardenedIndex {
    fn from(v: u8) -> (r: Self) {
        HardenedIndex(v as u32)
    }
}

impl FromSpecImpl<u8> for HardenedIndex {
    open spec fn obeys_from_spec() -> bool {
        true
    }

    open spec fn from_spec(v: u8) -> Self {
        Self::from_value_spec(v as u32)
    }
}

impl From<u16> for HardenedIndex {
    fn from(v: u16) -> (r: Self) {
        HardenedIndex(v as u32)
    }
}

impl FromSpecImpl<u16> for HardenedIndex {
    open spec fn obeys_from_spec() -> bool {
        true
    }

    open spec fn from_spec(v: u16) -> Self {
        Self::from_value_spec(v as u32)
    }
}

impl From<HardenedIndex> for u32 {
    fn from(index: HardenedIndex) -> (r: u32) {
        index.0
    }
}

impl FromSpecImpl<HardenedIndex> for u32 {
    open spec fn obeys_from_spec() -> bool {
        true
    }

    open spec fn from_spec(v: HardenedIndex) -> u32 {
        v@
    }
}


/// Law: the text of an unhardened index below the hardened boundary reads
/// back as that index (`from_str(to_string(x)) == Ok(x)`).
pub proof fn law_unhardened_text_roundtrip(x: UnhardenedIndex)
    requires
        x@ < HARDENED_INDEX_BOUNDARY,
    ensures
        match parse_u32_spec(decimal(x@ as nat)) {
            None => Err(Bip32Error::InvalidChildNumberFormat),
            Some(i) => UnhardenedIndex::from_index_spec(i),
        } == Ok::<UnhardenedIndex, Bip32Error>(x),
{
    crate::text::lemma_parse_decimal(x@);
}

/// Law: both text forms of a hardened index below the hardened boundary
/// (`7'` and `7h`) read back as that index.
pub proof fn law_hardened_text_roundtrip(x: HardenedIndex)
    requires
        x@ < HARDENED_INDEX_BOUNDARY,
    ensures
        child_number_from_str_spec(decimal(x@ as nat) + "'"@) == Ok::<Child, Bip32Error>(
            Child::Hardened { index: x@ },
        ),
        child_number_from_str_spec(decimal(x@ as nat) + "h"@) == Ok::<Child, Bip32Error>(
            Child::Hardened { index: x@ },
        ),
        HardenedIndex::from_value_spec(x@) == x,
{
    reveal_strlit("'");
    reveal_strlit("h");
    crate::text::lemma_parse_decimal(x@);
    let d = decimal(x@ as nat);
    assert((d + "'"@).drop_last() =~= d);
    assert((d + "h"@).drop_last() =~= d);
}

/// Law: incrementing an unhardened index, where that is allowed, and then
/// decrementing it gives the index back; decrementing a non-zero one and then
/// incrementing it gives it back.
pub proof fn law_unhardened_increment_decrement(x: UnhardenedIndex)
    ensures
        x@ + 1 < HARDENED_INDEX_BOUNDARY ==> ({
            let up = x.with_index_spec((x@ + 1) as u32);
            &&& up.index_spec() == Some((x@ + 1) as u32)
            &&& up@ != 0
            &&& up.with_index_spec(x@) == x
        }),
        0 < x@ ==> ({
            let down = x.with_index_spec((x@ - 1) as u32);
            &&& down.index_spec() == Some((x@ - 1) as u32)
            &&& down@ + 1 == x@
            &&& down.with_index_spec(x@) == x
        }),
{
}

/// Law: incrementing a hardened index, where that is allowed, and then
/// decrementing it gives the index back; decrementing a non-zero one and then
/// incrementing it gives it back.
pub proof fn law_hardened_increment_decrement(x: HardenedIndex)
    ensures
        x@ < HARDENED_INDEX_BOUNDARY ==> ({
            let up = x.with_index_spec((x@ + 1) as u32);
            &&& up.index_spec() == Some((x@ + 1) as u32)
            &&& up@ != 0
            &&& up.with_index_spec(x@) == x
        }),
        0 < x@ ==> ({
            let down = x.with_index_spec((x@ - 1) as u32);
            &&& down.index_spec() == Some((x@ - 1) as u32)
            &&& down@ + 1 == x@
            &&& down.with_index_spec(x@) == x
        }),
{
}

/// Law: an index converted to its child number converts back to that
/// index: `try_from_child_number(x.child_number()) == Ok(x)`, for an
/// unhardened index below the hardened boundary and for every hardened index.
pub proof fn law_child_number_roundtrip(u: UnhardenedIndex, h: HardenedIndex)
    requires
        u@ < HARDENED_INDEX_BOUNDARY,
    ensures
        UnhardenedIndex::from_index_spec(u@) == Ok::<UnhardenedIndex, Bip32Error>(u),
        HardenedIndex::from_value_spec(h@) == h,
{
}

/// Law: a hardened index made from any `u32` holds that number without the
/// hardened offset, which lies below the hardened boundary; an unhardened
/// index made from a `u32` holds it exactly where it lies below the boundary.
pub proof fn law_from_index_values(x: u32)
    ensures
        HardenedIndex::from_index_spec(x) matches Ok(h) && h@ == x % HARDENED_INDEX_BOUNDARY
            && h@ < HARDENED_INDEX_BOUNDARY,
        (UnhardenedIndex::from_index_spec(x) is Ok) == (x < HARDENED_INDEX_BOUNDARY),
        UnhardenedIndex::from_index_spec(x) matches Ok(u) ==> u@ == x,
{
}

/// Law: a child number read from text has an index below the hardened
/// boundary, and is hardened exactly where the text ends with `'` or `h`.
pub proof fn law_child_number_text_bounds(s: Seq<char>)
    ensures
        child_number_from_str_spec(s) matches Ok(c) ==> match c {
            Child::Normal { index } => index < HARDENED_INDEX_BOUNDARY && s.last() != '\'' && s.last() != 'h',
            Child::Hardened { index } => index < HARDENED_INDEX_BOUNDARY && (s.last() == '\'' || s.last() == 'h'),
        },
{
}

} // verus!
