//! `PolicyMappings` (id 27).
//! `PolicyMappings` = [
//!     + (issuerDomainPolicy: int/~oid, subjectDomainPolicy: int/~oid)
//!   ]
use vstd::prelude::*;

use crate::cbor::{lemma_matches_split, matches_at, put_array};
use crate::common::{
    definite_array_len, enc_int_or_oid, int_or_oid_wf, lemma_int_or_oid, spec_int_or_oid, IntOrOid,
    IntOrOidModel,
};
use crate::error::{outcome, Error, Fault, Parsed};
use crate::repeat::{
    enc_all, enc_paired, lemma_enc_all_push, lemma_paired, lemma_parse_n_next, lemma_parse_n_stop,
    parse_n, reads_back, spec_paired,
};

verus! {

/// `PolicyMappings = [ + (issuerDomainPolicy: int/~oid, subjectDomainPolicy: int/~oid) ]`
#[derive(Clone, PartialEq, Eq, Debug)]
pub struct PolicyMappings(pub Vec<(IntOrOid, IntOrOid)>);

impl DeepView for PolicyMappings {
    type V = Seq<(IntOrOidModel, IntOrOidModel)>;

    open spec fn deep_view(&self) -> Seq<(IntOrOidModel, IntOrOidModel)> {
        self.0.deep_view()
    }
}

/// Reading one mapping: the issuer's policy, then the subject's.
pub open spec fn spec_policy_mapping(input: Seq<u8>, pos: int) -> Parsed<(IntOrOidModel, IntOrOidModel)> {
    match spec_int_or_oid(input, pos) {
        Ok((a, e)) => match spec_int_or_oid(input, e) {
            Ok((b, e2)) => Ok(((a, b), e2)),
            Err(f) => Err(f),
        },
        Err(f) => Err(f),
    }
}

/// Writing one mapping.
pub open spec fn enc_policy_mapping(m: (IntOrOidModel, IntOrOidModel)) -> Seq<u8> {
    enc_int_or_oid(m.0) + enc_int_or_oid(m.1)
}

/// The reader of one mapping.
pub open spec fn policy_mapping_parser() -> spec_fn(Seq<u8>, int) -> Parsed<(IntOrOidModel, IntOrOidModel)> {
    |i: Seq<u8>, p: int| spec_policy_mapping(i, p)
}

/// The writer of one mapping.
pub open spec fn policy_mapping_writer() -> spec_fn((IntOrOidModel, IntOrOidModel)) -> Seq<u8> {
    |m: (IntOrOidModel, IntOrOidModel)| enc_policy_mapping(m)
}

/// Decoding a `PolicyMappings`: `2 * n` items hold `n` mappings.
pub open spec fn spec_policy_mappings(input: Seq<u8>, pos: int) -> Parsed<Seq<(IntOrOidModel, IntOrOidModel)>> {
    spec_paired(
        input,
        pos,
        "PolicyMappings array must have an even number of elements",
        policy_mapping_parser(),
    )
}

/// The encoding of a `PolicyMappings`.
pub open spec fn enc_policy_mappings(v: Seq<(IntOrOidModel, IntOrOidModel)>) -> Seq<u8> {
    enc_paired(v, policy_mapping_writer())
}

/// A `PolicyMappings` that survives encoding: its OIDs are kept by the
/// `oid` crate.
pub open spec fn policy_mappings_wf(v: Seq<(IntOrOidModel, IntOrOidModel)>) -> bool {
    &&& v.len() * 2 <= u64::MAX
    &&& forall|k: int| 0 <= k < v.len() ==> int_or_oid_wf(#[trigger] v[k].0) && int_or_oid_wf(v[k].1)
}

impl PolicyMappings {
    /// Decode a `PolicyMappings`. Its `+ (issuerDomainPolicy, subjectDomainPolicy)`
    /// entries are flattened pairs, so the array length is `2 * entries.len()`.
    #[verifier::spinoff_prover]
    #[verifier::rlimit(20)]
    pub fn decode(input: &[u8], pos: usize) -> (r: Result<(Self, usize), Error>)
        ensures
            outcome(r) == spec_policy_mappings(input@, pos as int),
    {
        let (len, start) = definite_array_len(input, pos)?;
        if len % 2 != 0 {
            return Err(Error::Malformed("PolicyMappings array must have an even number of elements"));
        }
        let n = len / 2;
        let mut out: Vec<(IntOrOid, IntOrOid)> = Vec::new();
        let mut p = start;
        let mut i: u64 = 0;
        assert(out.deep_view() =~= Seq::<(IntOrOidModel, IntOrOidModel)>::empty());
        while i < n
            invariant
                i <= n,
                spec_policy_mappings(input@, pos as int) == parse_n(input@, start as int, n as nat, policy_mapping_parser()),
                parse_n(input@, start as int, i as nat, policy_mapping_parser()) == Ok::<(Seq<(IntOrOidModel, IntOrOidModel)>, int), Fault>(
                    (out.deep_view(), p as int),
                ),
            decreases n - i,
        {
            proof {
                lemma_parse_n_next(input@, start as int, i as nat, policy_mapping_parser(), out.deep_view(), p as int);
            }
            let item: Result<((IntOrOid, IntOrOid), usize), Error> = match IntOrOid::decode(input, p) {
                Ok((issuer_domain_policy, e)) => match IntOrOid::decode(input, e) {
                    Ok((subject_domain_policy, e2)) => Ok(((issuer_domain_policy, subject_domain_policy), e2)),
                    Err(err) => Err(err),
                },
                Err(err) => Err(err),
            };
            match item {
                Ok((m, q)) => {
                    let ghost before = out.deep_view();
                    out.push(m);
                    assert(out.deep_view() =~= before.push(m.deep_view()));
                    p = q;
                },
                Err(e) => {
                    proof {
                        lemma_parse_n_stop(input@, start as int, i as nat, n as nat, policy_mapping_parser(), out.deep_view(), p as int, e.fault());
                    }
                    return Err(e);
                },
            }
            i = i + 1;
        }
        Ok((Self(out), p))
    }

    /// Encode a `PolicyMappings`.
    pub fn encode(&self, buf: &mut Vec<u8>)
        requires
            self.deep_view().len() * 2 <= u64::MAX,
        ensures
            final(buf)@ == old(buf)@ + enc_policy_mappings(self.deep_view()),
    {
        let v = &self.0;
        put_array(buf, v.len() as u64 * 2);
        let ghost after_head = buf@;
        let mut i: usize = 0;
        while i < v.len()
            invariant
                i <= v@.len(),
                v == &self.0,
                buf@ == after_head + enc_all(v.deep_view().take(i as int), policy_mapping_writer()),
            decreases v@.len() - i,
        {
            v[i].0.encode(buf);
            v[i].1.encode(buf);
            proof {
                lemma_enc_all_push(v.deep_view().take(i as int), v.deep_view()[i as int], policy_mapping_writer());
                assert(v.deep_view().take(i as int).push(v.deep_view()[i as int]) =~= v.deep_view().take(i + 1));
            }
            i = i + 1;
        }
        assert(v.deep_view().take(i as int) =~= v.deep_view());
    }
}

/// A `PolicyMappings` is read back as written.
pub proof fn lemma_policy_mappings(input: Seq<u8>, pos: int, v: Seq<(IntOrOidModel, IntOrOidModel)>)
    requires
        policy_mappings_wf(v),
        matches_at(input, pos, enc_policy_mappings(v)),
    ensures
        spec_policy_mappings(input, pos) == Ok::<(Seq<(IntOrOidModel, IntOrOidModel)>, int), Fault>(
            (v, pos + enc_policy_mappings(v).len()),
        ),
{
    assert forall|k: int| 0 <= k < v.len() implies reads_back(
        policy_mapping_parser(),
        policy_mapping_writer(),
        #[trigger] v[k],
    ) by {
        let m = v[k];
        assert(int_or_oid_wf(m.0) && int_or_oid_wf(m.1));
        assert forall|i: Seq<u8>, p: int| #[trigger] matches_at(i, p, policy_mapping_writer()(m)) implies policy_mapping_parser()(i, p)
            == Ok::<((IntOrOidModel, IntOrOidModel), int), Fault>((m, p + policy_mapping_writer()(m).len())) by {
            lemma_matches_split(i, p, enc_int_or_oid(m.0), enc_int_or_oid(m.1));
            lemma_int_or_oid(i, p, m.0);
            lemma_int_or_oid(i, p + enc_int_or_oid(m.0).len(), m.1);
        }
    }
    lemma_paired(
        input,
        pos,
        "PolicyMappings array must have an even number of elements",
        v,
        policy_mapping_parser(),
        policy_mapping_writer(),
    );
}

/// Of each pair, the first policy read is the issuer's domain policy and
/// the second the subject's, whatever they are.
pub proof fn law_policy_mapping_order(input: Seq<u8>, pos: int, issuer: IntOrOidModel, subject: IntOrOidModel)
    requires
        int_or_oid_wf(issuer),
        int_or_oid_wf(subject),
        matches_at(input, pos, enc_int_or_oid(issuer) + enc_int_or_oid(subject)),
    ensures
        spec_policy_mapping(input, pos) == Ok::<((IntOrOidModel, IntOrOidModel), int), Fault>(
            ((issuer, subject), pos + (enc_int_or_oid(issuer) + enc_int_or_oid(subject)).len()),
        ),
{
    lemma_matches_split(input, pos, enc_int_or_oid(issuer), enc_int_or_oid(subject));
    lemma_int_or_oid(input, pos, issuer);
    lemma_int_or_oid(input, pos + enc_int_or_oid(issuer).len(), subject);
}

} // verus!
