//! Derivation templates: paths whose steps may be wildcards.

use vstd::prelude::*;

use crate::text::{chars_to_string, decimal, lemma_parse_decimal, parse_u32_spec, push_decimal, push_str};
use crate::xpub::Fingerprint;

verus! {

/// A step of a derivation template: an index, hardened or not, or a
/// wildcard standing for any index, hardened or not.
#[derive(Clone, Copy, PartialEq, Eq, Structural, Hash, Debug)]
pub enum DerivationStep {
    Normal(u32),
    Hardened(u32),
    WildcardNormal,
    WildcardHardened,
}

/// The text form of a step: the index, followed by `'` when hardened; `*`
/// for a wildcard, followed by `'` when hardened.
pub open spec fn step_text(s: DerivationStep) -> Seq<char> {
    match s {
        DerivationStep::Normal(i) => decimal(i as nat),
        DerivationStep::Hardened(i) => decimal(i as nat) + "'"@,
        DerivationStep::WildcardNormal => "*"@,
        DerivationStep::WildcardHardened => "*'"@,
    }
}

impl DerivationStep {
    /// The text form of the step.
    pub fn to_string(&self) -> (r: String)
        ensures
            r@ == step_text(*self),
    {
        let mut v: Vec<char> = Vec::new();
        match self {
            DerivationStep::Normal(i) => {
                push_decimal(&mut v, *i as u64);
            },
            DerivationStep::Hardened(i) => {
                push_decimal(&mut v, *i as u64);
                push_str(&mut v, "'");
            },
            DerivationStep::WildcardNormal => {
                push_str(&mut v, "*");
            },
            DerivationStep::WildcardHardened => {
                push_str(&mut v, "*'");
            },
        }
        assert(v@ =~= step_text(*self));
        chars_to_string(v.as_slice())
    }
}

/// Types that stand for a derivation template.
pub trait IntoDerivationTemplate {
}

/// A derivation template: a sequence of steps.
#[derive(Clone, PartialEq, Eq, Debug, Hash, Default)]
pub struct DerivationTemplate(Vec<DerivationStep>);

impl View for DerivationTemplate {
    type V = Seq<DerivationStep>;

    closed spec fn view(&self) -> Seq<DerivationStep> {
        self.0@
    }
}

impl DerivationTemplate {
    /// The template made of `steps`, in order.
    pub fn from_steps(steps: Vec<DerivationStep>) -> (r: Self)
        ensures
            r@ == steps@,
    {
        DerivationTemplate(steps)
    }

    /// The steps of the template, in order.
    pub fn steps(&self) -> (r: &[DerivationStep])
        ensures
            r@ == self@,
    {
        self.0.as_slice()
    }
}

/// The fingerprint of a master key and a template of derivations from it.
#[derive(Clone, PartialEq, Eq, Debug, Hash, Default)]
pub struct DerivationInfo {
    pub fingerprint: Fingerprint,
    pub derivation: DerivationTemplate,
}

/// Law: a hardened step is written as its unhardened form followed by `'`,
/// and the text of an index step reads back as its index.
pub proof fn law_step_text(i: u32)
    ensures
        step_text(DerivationStep::Hardened(i)) == step_text(DerivationStep::Normal(i)) + "'"@,
        step_text(DerivationStep::WildcardHardened) == step_text(DerivationStep::WildcardNormal) + "'"@,
        parse_u32_spec(step_text(DerivationStep::Normal(i))) == Some(i),
{
    reveal_strlit("*");
    reveal_strlit("*'");
    reveal_strlit("'");
    assert("*'"@ =~= "*"@ + "'"@);
    lemma_parse_decimal(i);
}

} // verus!
