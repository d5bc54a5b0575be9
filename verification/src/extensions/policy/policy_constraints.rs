//! `PolicyConstraints` (id 28).
//! `PolicyConstraints` = [
//!     requireExplicitPolicy: uint / null,
//!     inhibitPolicyMapping: uint / null,
//!   ]
use vstd::prelude::*;

use crate::cbor::{head, lemma_matches_split, matches_at, put_array};
use crate::common::{
    decode_opt_uint, enc_opt_uint, encode_opt_uint, expect_array_len, lemma_array_head,
    lemma_opt_uint, spec_expect_array_len, spec_opt_uint,
};
use crate::error::{outcome, Error, Fault, Parsed};

verus! {

/// `PolicyConstraints` = [
///     requireExplicitPolicy: uint / null,
///     inhibitPolicyMapping: uint / null,
///   ]
#[derive(Clone, Copy, PartialEq, Eq, Debug)]
pub struct PolicyConstraints {
    /// The require explicit policy.
    pub require_explicit_policy: Option<u32>,
    /// The inhibit policy mapping.
    pub inhibit_policy_mapping: Option<u32>,
}

impl DeepView for PolicyConstraints {
    type V = PolicyConstraints;

    open spec fn deep_view(&self) -> PolicyConstraints {
        *self
    }
}

/// Decoding a `PolicyConstraints`: a two-element array of `uint / null`.
pub open spec fn spec_policy_constraints(input: Seq<u8>, pos: int) -> Parsed<PolicyConstraints> {
    match spec_expect_array_len(input, pos, 2) {
        Ok((_, e)) => match spec_opt_uint(input, e) {
            Ok((a, e1)) => match spec_opt_uint(input, e1) {
                Ok((b, e2)) => Ok(
                    (PolicyConstraints { require_explicit_policy: a, inhibit_policy_mapping: b }, e2),
                ),
                Err(f) => Err(f),
            },
            Err(f) => Err(f),
        },
        Err(f) => Err(f),
    }
}

/// The encoding of a `PolicyConstraints`.
pub open spec fn enc_policy_constraints(v: PolicyConstraints) -> Seq<u8> {
    head(4, 2) + enc_opt_uint(v.require_explicit_policy) + enc_opt_uint(v.inhibit_policy_mapping)
}

impl PolicyConstraints {
    /// Decode a `PolicyConstraints`.
    pub fn decode(input: &[u8], pos: usize) -> (r: Result<(Self, usize), Error>)
        ensures
            outcome(r) == spec_policy_constraints(input@, pos as int),
    {
        let (_, e) = expect_array_len(input, pos, 2)?;
        let (require_explicit_policy, e1) = decode_opt_uint(input, e)?;
        let (inhibit_policy_mapping, e2) = decode_opt_uint(input, e1)?;
        Ok((Self { require_explicit_policy, inhibit_policy_mapping }, e2))
    }

    /// Encode a `PolicyConstraints`.
    pub fn encode(&self, buf: &mut Vec<u8>)
        ensures
            final(buf)@ == old(buf)@ + enc_policy_constraints(*self),
    {
        put_array(buf, 2);
        encode_opt_uint(buf, self.require_explicit_policy);
        encode_opt_uint(buf, self.inhibit_policy_mapping);
    }
}

/// A `PolicyConstraints` is read back as written.
pub proof fn lemma_policy_constraints(input: Seq<u8>, pos: int, v: PolicyConstraints)
    requires
        matches_at(input, pos, enc_policy_constraints(v)),
    ensures
        spec_policy_constraints(input, pos) == Ok::<(PolicyConstraints, int), Fault>(
            (v, pos + enc_policy_constraints(v).len()),
        ),
{
    let h = head(4, 2);
    let a = enc_opt_uint(v.require_explicit_policy);
    let b = enc_opt_uint(v.inhibit_policy_mapping);
    assert(enc_policy_constraints(v) == h + (a + b));
    lemma_matches_split(input, pos, h, a + b);
    lemma_matches_split(input, pos + h.len(), a, b);
    lemma_array_head(input, pos, 2);
    lemma_opt_uint(input, pos + h.len(), v.require_explicit_policy);
    lemma_opt_uint(input, pos + h.len() + a.len(), v.inhibit_policy_mapping);
}

/// The first element of the array is `requireExplicitPolicy` and the
/// second `inhibitPolicyMapping`, whatever their values: the decoder reads
/// them in that order, and the encoder writes them in that order.
pub proof fn law_policy_constraints_order(input: Seq<u8>, pos: int, require: Option<u32>, inhibit: Option<u32>)
    ensures
        matches_at(input, pos, head(4, 2) + enc_opt_uint(require) + enc_opt_uint(inhibit)) ==> spec_policy_constraints(
            input,
            pos,
        ) == Ok::<(PolicyConstraints, int), Fault>(
            (
                PolicyConstraints { require_explicit_policy: require, inhibit_policy_mapping: inhibit },
                pos + (head(4, 2) + enc_opt_uint(require) + enc_opt_uint(inhibit)).len(),
            ),
        ),
        enc_policy_constraints(PolicyConstraints { require_explicit_policy: require, inhibit_policy_mapping: inhibit })
            == head(4, 2) + enc_opt_uint(require) + enc_opt_uint(inhibit),
{
    let v = PolicyConstraints { require_explicit_policy: require, inhibit_policy_mapping: inhibit };
    if matches_at(input, pos, head(4, 2) + enc_opt_uint(require) + enc_opt_uint(inhibit)) {
        lemma_policy_constraints(input, pos, v);
    }
}

} // verus!
