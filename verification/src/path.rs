//! Derivation paths: their text form and their split into a hardened
//! branch and an unhardened terminal part.

use vstd::prelude::*;

use bitcoin::util::bip32::DerivationPath;

use crate::btc::{path_children, path_children_of, path_from_children, path_len};
use crate::error::Bip32Error;
use crate::grammar::{deriv_chars, is_mark};
use crate::index::{child_number_from_str_spec, Child, HARDENED_INDEX_BOUNDARY};
use crate::text::{decimal, is_digit, lemma_split_join, lemma_split_single, split_where};

verus! {

/// The characters equal to `sep`.
pub open spec fn is_sep(sep: char) -> spec_fn(char) -> bool {
    |c: char| c == sep
}

/// The parts of `s` between the separators `sep`, as `str::split` yields
/// them (so there is always at least one part).
pub open spec fn split_on(s: Seq<char>, sep: char) -> Seq<Seq<char>> {
    split_where(s, is_sep(sep))
}

/// The child numbers read from `parts` in order; the first part that is no
/// child number gives the error.
pub open spec fn children_from_parts(parts: Seq<Seq<char>>) -> Result<Seq<Child>, Bip32Error>
    decreases parts.len(),
{
    if parts.len() == 0 {
        Ok(Seq::empty())
    } else {
        match child_number_from_str_spec(parts[0]) {
            Err(e) => Err(e),
            Ok(c) => match children_from_parts(parts.drop_first()) {
                Err(e) => Err(e),
                Ok(cs) => Ok(seq![c] + cs),
            },
        }
    }
}

/// What `bitcoin`'s `DerivationPath::from_str` returns: the text is split at
/// `/`, the first part must be `m` and each further part is a child number.
pub open spec fn path_from_str_spec(s: Seq<char>) -> Result<Seq<Child>, Bip32Error> {
    let parts = split_on(s, '/');
    if parts[0] != "m"@ {
        Err(Bip32Error::InvalidDerivationPathFormat)
    } else {
        children_from_parts(parts.drop_first())
    }
}

/// The text form of a child number: its index in decimal, followed by `'`
/// when hardened.
pub open spec fn child_text(c: Child) -> Seq<char> {
    match c {
        Child::Normal { index } => decimal(index as nat),
        Child::Hardened { index } => decimal(index as nat) + "'"@,
    }
}

/// The steps of a path written as `/step/step...` (empty for no step).
pub open spec fn steps_text(cs: Seq<Child>) -> Seq<char>
    decreases cs.len(),
{
    if cs.len() == 0 {
        Seq::empty()
    } else {
        steps_text(cs.drop_last()) + "/"@ + child_text(cs.last())
    }
}

/// The text form of a derivation path: `m` followed by its steps.
pub open spec fn path_text(cs: Seq<Child>) -> Seq<char> {
    "m"@ + steps_text(cs)
}

/// Where the trailing run of unhardened steps of `cs` starts.
pub open spec fn terminal_start(cs: Seq<Child>) -> nat
    decreases cs.len(),
{
    if cs.len() == 0 {
        0
    } else if cs.last() is Normal {
        terminal_start(cs.drop_last())
    } else {
        cs.len()
    }
}

/// The unhardened steps of the indexes.
pub open spec fn normal_steps(indexes: Seq<u32>) -> Seq<Child> {
    indexes.map_values(|i: u32| Child::Normal { index: i })
}

/// The index of a child number.
pub open spec fn child_index(c: Child) -> u32 {
    match c {
        Child::Normal { index } => index,
        Child::Hardened { index } => index,
    }
}

/// The trailing run of unhardened steps starts within the path, every step
/// after it is unhardened and the step before it, if any, is hardened.
pub proof fn lemma_terminal_start(cs: Seq<Child>)
    ensures
        terminal_start(cs) <= cs.len(),
        forall|j: int| terminal_start(cs) <= j < cs.len() ==> (#[trigger] cs[j]) is Normal,
        terminal_start(cs) > 0 ==> cs[terminal_start(cs) - 1] is Hardened,
    decreases cs.len(),
{
    if cs.len() > 0 && cs.last() is Normal {
        lemma_terminal_start(cs.drop_last());
        assert forall|j: int| terminal_start(cs) <= j < cs.len() implies (#[trigger] cs[j]) is Normal by {
            if j < cs.len() - 1 {
                assert(cs[j] == cs.drop_last()[j]);
            }
        }
    }
}

/// Extension trait adding the master path to `DerivationPath`.
pub trait DerivationPathMaster: Sized {
    /// Whether the path stands for the master key.
    spec fn is_master_spec(&self) -> bool;

    /// Returns derivation path for a master key (i.e. empty derivation path)
    fn master() -> (r: Self)
        ensures
            r.is_master_spec(),
    ;

    /// Returns whether derivation path represents master key (i.e. its length
    /// is empty). True for `m` path.
    fn is_master(&self) -> (r: bool)
        ensures
            r == self.is_master_spec(),
    ;
}

impl DerivationPathMaster for DerivationPath {
    open spec fn is_master_spec(&self) -> bool {
        path_children(*self).len() == 0
    }

    fn master() -> (r: DerivationPath)
        ensures
            path_children(r) == Seq::<Child>::empty(),
    {
        path_from_children(Vec::new())
    }

    fn is_master(&self) -> (r: bool) {
        path_len(self) == 0
    }
}

/// Splitting a derivation path into the part up to its last hardened step
/// and the indexes of the unhardened steps after it.
pub trait HardenedNormalSplit {
    /// The path up to and including its last hardened step, and the indexes
    /// of the unhardened steps that follow it.
    fn hardened_normal_split(&self) -> (DerivationPath, Vec<u32>);
}

impl HardenedNormalSplit for DerivationPath {
    fn hardened_normal_split(&self) -> (r: (DerivationPath, Vec<u32>))
        ensures
            ({
                let cs = path_children(*self);
                let k = terminal_start(cs) as int;
                &&& path_children(r.0) == cs.take(k)
                &&& r.1@ == cs.skip(k).map_values(|c: Child| child_index(c))
            }),
    {
        let children = path_children_of(self);
        let n = children.len();
        let ghost cs = children@;
        let mut k: usize = n;
        assert(cs.take(n as int) =~= cs);
        while k > 0 && matches!(children[k - 1], Child::Normal { .. })
            invariant
                k <= n,
                n == cs.len(),
                cs == children@,
                terminal_start(cs) == terminal_start(cs.take(k as int)),
            decreases k,
        {
            proof {
                assert(cs.take(k as int).drop_last() =~= cs.take(k - 1));
                assert(cs.take(k as int).last() == cs[k - 1]);
            }
            k = k - 1;
        }
        proof {
            if k > 0 {
                assert(cs.take(k as int).last() == cs[k - 1]);
            }
            assert(terminal_start(cs.take(k as int)) == k);
        }
        let mut branch: Vec<Child> = Vec::new();
        let mut i: usize = 0;
        while i < k
            invariant
                i <= k <= n,
                n == cs.len(),
                cs == children@,
                branch@ == cs.take(i as int),
            decreases k - i,
        {
            branch.push(children[i]);
            i = i + 1;
            assert(branch@ =~= cs.take(i as int));
        }
        let mut terminal: Vec<u32> = Vec::new();
        let mut j: usize = k;
        while j < n
            invariant
                k <= j <= n,
                n == cs.len(),
                cs == children@,
                terminal@ == cs.subrange(k as int, j as int).map_values(|c: Child| child_index(c)),
            decreases n - j,
        {
            let index = match children[j] {
                Child::Normal { index } => index,
                Child::Hardened { index } => index,
            };
            terminal.push(index);
            j = j + 1;
            assert(terminal@ =~= cs.subrange(k as int, j as int).map_values(|c: Child| child_index(c)));
        }
        assert(cs.subrange(k as int, n as int) =~= cs.skip(k as int));
        (path_from_children(branch), terminal)
    }
}


/// Law: the split of a path puts it back together: the branch part followed
/// by the unhardened steps of the terminal indexes is the path; the
/// terminal indexes come from unhardened steps only, and the branch part is
/// empty or ends with a hardened step.
pub proof fn law_split_recombines(cs: Seq<Child>)
    ensures
        ({
            let k = terminal_start(cs) as int;
            let terminal = cs.skip(k).map_values(|c: Child| child_index(c));
            &&& cs.take(k) + normal_steps(terminal) == cs
            &&& forall|j: int| k <= j < cs.len() ==> (#[trigger] cs[j]) is Normal
            &&& (k == 0 || cs.take(k).last() is Hardened)
        }),
{
    lemma_terminal_start(cs);
    let k = terminal_start(cs) as int;
    let terminal = cs.skip(k).map_values(|c: Child| child_index(c));
    assert forall|j: int| 0 <= j < cs.len() implies #[trigger] (cs.take(k) + normal_steps(terminal))[j] == cs[j] by {
        if j >= k {
            assert(cs[j] is Normal);
        }
    }
    assert(cs.take(k) + normal_steps(terminal) =~= cs);
}

/// The text of a child number below the hardened boundary is a path step
/// in the grammar that reads back as that child number.
pub proof fn lemma_child_text_reads(c: Child)
    requires
        child_index(c) < HARDENED_INDEX_BOUNDARY,
    ensures
        child_number_from_str_spec(child_text(c)) == Ok::<Child, Bip32Error>(c),
        deriv_chars(child_text(c)),
        forall|i: int| 0 <= i < child_text(c).len() ==> is_digit(#[trigger] child_text(c)[i]) || child_text(c)[i] == '\'',
{
    reveal_strlit("'");
    let i = child_index(c);
    let d = decimal(i as nat);
    crate::text::lemma_decimal_digits(i as nat);
    crate::text::lemma_parse_decimal(i);
    assert(is_digit(d[d.len() - 1]));
    match c {
        Child::Normal { .. } => {
            assert(child_text(c) == d);
        },
        Child::Hardened { .. } => {
            let t = d + "'"@;
            assert(child_text(c) == t);
            assert(t.drop_last() =~= d);
            assert forall|k: int| 0 <= k < t.len() implies #[trigger] is_digit(t[k]) || (is_mark(t[k]) && k > 0
                && is_digit(t[k - 1])) by {
                if k < d.len() {
                    assert(t[k] == d[k]);
                } else {
                    assert(t[k] == '\'');
                    assert(t[k - 1] == d[d.len() - 1]);
                }
            }
        },
    }
}

/// Reading child numbers from parts one after the other reads each list
/// in turn.
proof fn lemma_children_append(a: Seq<Seq<char>>, b: Seq<Seq<char>>)
    ensures
        children_from_parts(a + b) == match children_from_parts(a) {
            Err(e) => Err(e),
            Ok(x) => match children_from_parts(b) {
                Err(e) => Err(e),
                Ok(y) => Ok::<Seq<Child>, Bip32Error>(x + y),
            },
        },
    decreases a.len(),
{
    if a.len() == 0 {
        assert(a + b =~= b);
        if let Ok(y) = children_from_parts(b) {
            assert(Seq::<Child>::empty() + y =~= y);
        }
    } else {
        assert((a + b)[0] == a[0]);
        assert((a + b).drop_first() =~= a.drop_first() + b);
        lemma_children_append(a.drop_first(), b);
        if let Ok(c) = child_number_from_str_spec(a[0]) {
            if let Ok(x) = children_from_parts(a.drop_first()) {
                if let Ok(y) = children_from_parts(b) {
                    assert(seq![c] + (x + y) =~= (seq![c] + x) + y);
                }
            }
        }
    }
}

/// The text of a path splits at `/` into `m` and the text of each step.
proof fn lemma_path_text_split(cs: Seq<Child>)
    requires
        forall|k: int| 0 <= k < cs.len() ==> child_index(#[trigger] cs[k]) < HARDENED_INDEX_BOUNDARY,
    ensures
        split_on(path_text(cs), '/') == seq!["m"@] + cs.map_values(|c: Child| child_text(c)),
    decreases cs.len(),
{
    reveal_strlit("m");
    reveal_strlit("/");
    if cs.len() == 0 {
        let m = "m"@;
        assert(path_text(cs) =~= m);
        assert forall|i: int| 0 <= i < m.len() implies !is_sep('/')(#[trigger] m[i]) by {
            assert(m[i] == 'm');
        }
        lemma_split_single(m, is_sep('/'));
        assert(seq!["m"@] + cs.map_values(|c: Child| child_text(c)) =~= seq![m]);
    } else {
        let init = cs.drop_last();
        let c = cs.last();
        assert(child_index(cs[cs.len() - 1]) < HARDENED_INDEX_BOUNDARY);
        assert forall|k: int| 0 <= k < init.len() implies child_index(#[trigger] init[k]) < HARDENED_INDEX_BOUNDARY by {
            assert(init[k] == cs[k]);
        }
        lemma_path_text_split(init);
        lemma_child_text_reads(c);
        let t = child_text(c);
        assert forall|i: int| 0 <= i < t.len() implies !is_sep('/')(#[trigger] t[i]) by {
            assert(is_digit(t[i]) || t[i] == '\'');
        }
        lemma_split_single(t, is_sep('/'));
        assert(path_text(cs) =~= path_text(init) + seq!['/'] + t);
        lemma_split_join(path_text(init), t, '/', is_sep('/'));
        assert(cs.map_values(|c: Child| child_text(c)) =~= init.map_values(|c: Child| child_text(c)).push(t));
        assert(split_on(path_text(cs), '/') =~= seq!["m"@] + cs.map_values(|c: Child| child_text(c)));
    }
}

/// The texts of child numbers below the hardened boundary read back as them.
proof fn lemma_children_texts(cs: Seq<Child>)
    requires
        forall|k: int| 0 <= k < cs.len() ==> child_index(#[trigger] cs[k]) < HARDENED_INDEX_BOUNDARY,
    ensures
        children_from_parts(cs.map_values(|c: Child| child_text(c))) == Ok::<Seq<Child>, Bip32Error>(cs),
    decreases cs.len(),
{
    let texts = cs.map_values(|c: Child| child_text(c));
    if cs.len() == 0 {
        assert(texts =~= Seq::<Seq<char>>::empty());
        assert(cs =~= Seq::<Child>::empty());
    } else {
        let init = cs.drop_last();
        let c = cs.last();
        assert(child_index(cs[cs.len() - 1]) < HARDENED_INDEX_BOUNDARY);
        assert forall|k: int| 0 <= k < init.len() implies child_index(#[trigger] init[k]) < HARDENED_INDEX_BOUNDARY by {
            assert(init[k] == cs[k]);
        }
        lemma_children_texts(init);
        lemma_child_text_reads(c);
        let one = seq![child_text(c)];
        assert(texts =~= init.map_values(|c: Child| child_text(c)) + one);
        lemma_children_append(init.map_values(|c: Child| child_text(c)), one);
        assert(one.drop_first() =~= Seq::<Seq<char>>::empty());
        assert(one[0] == child_text(c));
        assert(children_from_parts(Seq::<Seq<char>>::empty()) == Ok::<Seq<Child>, Bip32Error>(Seq::empty()));
        assert(children_from_parts(one) == Ok::<Seq<Child>, Bip32Error>(seq![c] + Seq::<Child>::empty()));
        assert(seq![c] + Seq::<Child>::empty() =~= seq![c]);
        assert(init + seq![c] =~= cs);
        assert(children_from_parts(texts) == Ok::<Seq<Child>, Bip32Error>(init + seq![c]));
    }
}

/// Law: the text form of a path whose steps lie below the hardened boundary
/// reads back as that path (`DerivationPath::from_str` of its `to_string`).
pub proof fn law_path_text_roundtrip(cs: Seq<Child>)
    requires
        forall|k: int| 0 <= k < cs.len() ==> child_index(#[trigger] cs[k]) < HARDENED_INDEX_BOUNDARY,
    ensures
        path_from_str_spec(path_text(cs)) == Ok::<Seq<Child>, Bip32Error>(cs),
{
    reveal_strlit("m");
    lemma_path_text_split(cs);
    lemma_children_texts(cs);
    let parts = split_on(path_text(cs), '/');
    assert(parts[0] == "m"@);
    assert(parts.drop_first() =~= cs.map_values(|c: Child| child_text(c)));
}

} // verus!
