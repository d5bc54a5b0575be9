//! `CertificatePolicies` (id 6).
//! `CertificatePolicies = [ + ( PolicyIdentifier, [ * PolicyQualifierInfo ] ) ]`
use vstd::prelude::*;

use crate::cbor::{cbor_str, lemma_matches_split, lemma_tstr, matches_at, put_array, put_str, spec_text, tstr};
use crate::common::{
    definite_array_len, enc_int_or_oid, int_or_oid_wf, lemma_int_or_oid, spec_int_or_oid, IntOrOid,
    IntOrOidModel,
};
use crate::error::{outcome, Error, Fault, Parsed};
use crate::repeat::{
    enc_all, enc_paired, lemma_enc_all_push, lemma_paired, lemma_parse_n_next, lemma_parse_n_stop,
    parse_n, reads_back, spec_paired,
};
use vstd::utf8::encode_utf8;

verus! {

/// `PolicyIdentifier = int / ~oid`.
pub type PolicyIdentifier = IntOrOid;

/// `PolicyQualifierInfo = ( policyQualifierId: int / ~oid, qualifier: text )`
#[derive(Clone, PartialEq, Eq, Debug)]
pub struct PolicyQualifierInfo {
    /// The policy qualifier identifier.
    pub id: IntOrOid,
    /// The policy qualifier.
    pub qualifier: String,
}

/// The model of a [`PolicyQualifierInfo`].
pub struct PolicyQualifierInfoModel {
    pub id: IntOrOidModel,
    pub qualifier: Seq<char>,
}

impl DeepView for PolicyQualifierInfo {
    type V = PolicyQualifierInfoModel;

    open spec fn deep_view(&self) -> PolicyQualifierInfoModel {
        PolicyQualifierInfoModel { id: self.id.deep_view(), qualifier: self.qualifier@ }
    }
}

/// `CertificatePolicies = [ + ( PolicyIdentifier, [ * PolicyQualifierInfo ] ) ]`
#[derive(Clone, PartialEq, Eq, Debug)]
pub struct CertificatePolicies(pub Vec<(PolicyIdentifier, Vec<PolicyQualifierInfo>)>);

/// The model of one policy: its identifier and its qualifiers.
pub type PolicyModel = (IntOrOidModel, Seq<PolicyQualifierInfoModel>);

impl DeepView for CertificatePolicies {
    type V = Seq<PolicyModel>;

    open spec fn deep_view(&self) -> Seq<PolicyModel> {
        self.0.deep_view()
    }
}

/// Reading one `PolicyQualifierInfo`: its identifier, then its text.
pub open spec fn spec_policy_qualifier(input: Seq<u8>, pos: int) -> Parsed<PolicyQualifierInfoModel> {
    match spec_int_or_oid(input, pos) {
        Ok((id, e)) => match spec_text(input, e) {
            Ok((q, e2)) => Ok((PolicyQualifierInfoModel { id, qualifier: q }, e2)),
            Err(f) => Err(f),
        },
        Err(f) => Err(f),
    }
}

/// Writing one `PolicyQualifierInfo`.
pub open spec fn enc_policy_qualifier(q: PolicyQualifierInfoModel) -> Seq<u8> {
    enc_int_or_oid(q.id) + tstr(q.qualifier)
}

/// The reader of one `PolicyQualifierInfo`.
pub open spec fn policy_qualifier_parser() -> spec_fn(Seq<u8>, int) -> Parsed<PolicyQualifierInfoModel> {
    |i: Seq<u8>, p: int| spec_policy_qualifier(i, p)
}

/// The writer of one `PolicyQualifierInfo`.
pub open spec fn policy_qualifier_writer() -> spec_fn(PolicyQualifierInfoModel) -> Seq<u8> {
    |q: PolicyQualifierInfoModel| enc_policy_qualifier(q)
}

/// Decoding `[ * PolicyQualifierInfo ]`: `2 * n` items hold `n` qualifiers.
pub open spec fn spec_policy_qualifiers(input: Seq<u8>, pos: int) -> Parsed<Seq<PolicyQualifierInfoModel>> {
    spec_paired(
        input,
        pos,
        "PolicyQualifierInfo array must have an even number of elements",
        policy_qualifier_parser(),
    )
}

/// Reading one policy: its identifier, then its qualifiers.
pub open spec fn spec_policy(input: Seq<u8>, pos: int) -> Parsed<PolicyModel> {
    match spec_int_or_oid(input, pos) {
        Ok((id, e)) => match spec_policy_qualifiers(input, e) {
            Ok((qs, e2)) => Ok(((id, qs), e2)),
            Err(f) => Err(f),
        },
        Err(f) => Err(f),
    }
}

/// Writing one policy.
pub open spec fn enc_policy(p: PolicyModel) -> Seq<u8> {
    enc_int_or_oid(p.0) + enc_paired(p.1, policy_qualifier_writer())
}

/// The reader of one policy.
pub open spec fn policy_parser() -> spec_fn(Seq<u8>, int) -> Parsed<PolicyModel> {
    |i: Seq<u8>, p: int| spec_policy(i, p)
}

/// The writer of one policy.
pub open spec fn policy_writer() -> spec_fn(PolicyModel) -> Seq<u8> {
    |p: PolicyModel| enc_policy(p)
}

/// Decoding a `CertificatePolicies`: `2 * n` items hold `n` policies.
pub open spec fn spec_certificate_policies(input: Seq<u8>, pos: int) -> Parsed<Seq<PolicyModel>> {
    spec_paired(
        input,
        pos,
        "CertificatePolicies array must have an even number of elements",
        policy_parser(),
    )
}

/// The encoding of a `CertificatePolicies`.
pub open spec fn enc_certificate_policies(v: Seq<PolicyModel>) -> Seq<u8> {
    enc_paired(v, policy_writer())
}

/// A policy whose array headers can be written.
pub open spec fn policy_fits(p: PolicyModel) -> bool {
    p.1.len() * 2 <= u64::MAX
}

/// A `CertificatePolicies` whose array headers can be written.
pub open spec fn certificate_policies_fit(v: Seq<PolicyModel>) -> bool {
    &&& v.len() * 2 <= u64::MAX
    &&& forall|k: int| 0 <= k < v.len() ==> policy_fits(#[trigger] v[k])
}

/// A qualifier that survives encoding.
pub open spec fn policy_qualifier_wf(q: PolicyQualifierInfoModel) -> bool {
    int_or_oid_wf(q.id) && encode_utf8(q.qualifier).len() <= u64::MAX
}

/// A policy that survives encoding.
pub open spec fn policy_wf(p: PolicyModel) -> bool {
    &&& int_or_oid_wf(p.0)
    &&& policy_fits(p)
    &&& forall|k: int| 0 <= k < p.1.len() ==> policy_qualifier_wf(#[trigger] p.1[k])
}

/// A `CertificatePolicies` that survives encoding.
pub open spec fn certificate_policies_wf(v: Seq<PolicyModel>) -> bool {
    &&& v.len() * 2 <= u64::MAX
    &&& forall|k: int| 0 <= k < v.len() ==> policy_wf(#[trigger] v[k])
}

impl PolicyQualifierInfo {
    /// Decode a `PolicyQualifierInfo`.
    fn decode(input: &[u8], pos: usize) -> (r: Result<(Self, usize), Error>)
        ensures
            outcome(r) == spec_policy_qualifier(input@, pos as int),
    {
        let (id, e) = IntOrOid::decode(input, pos)?;
        match cbor_str(input, e) {
            Ok((qualifier, e2)) => Ok((Self { id, qualifier }, e2)),
            Err(err) => Err(Error::Cbor(err)),
        }
    }

    /// Encode a `PolicyQualifierInfo`.
    fn encode(&self, buf: &mut Vec<u8>)
        ensures
            final(buf)@ == old(buf)@ + enc_policy_qualifier(self.deep_view()),
    {
        self.id.encode(buf);
        put_str(buf, self.qualifier.as_str());
    }
}

/// Decode `[ * PolicyQualifierInfo ]`.
fn decode_policy_qualifiers(input: &[u8], pos: usize) -> (r: Result<(Vec<PolicyQualifierInfo>, usize), Error>)
    ensures
        outcome(r) == spec_policy_qualifiers(input@, pos as int),
{
    let (len, start) = definite_array_len(input, pos)?;
    if len % 2 != 0 {
        return Err(Error::Malformed("PolicyQualifierInfo array must have an even number of elements"));
    }
    let n = len / 2;
    let mut out: Vec<PolicyQualifierInfo> = Vec::new();
    let mut p = start;
    let mut i: u64 = 0;
    assert(out.deep_view() =~= Seq::<PolicyQualifierInfoModel>::empty());
    while i < n
        invariant
            i <= n,
            spec_policy_qualifiers(input@, pos as int) == parse_n(input@, start as int, n as nat, policy_qualifier_parser()),
            parse_n(input@, start as int, i as nat, policy_qualifier_parser()) == Ok::<(Seq<PolicyQualifierInfoModel>, int), Fault>(
                (out.deep_view(), p as int),
            ),
        decreases n - i,
    {
        proof {
            lemma_parse_n_next(input@, start as int, i as nat, policy_qualifier_parser(), out.deep_view(), p as int);
        }
        match PolicyQualifierInfo::decode(input, p) {
            Ok((q, e)) => {
                let ghost before = out.deep_view();
                out.push(q);
                assert(out.deep_view() =~= before.push(q.deep_view()));
                p = e;
            },
            Err(e) => {
                proof {
                    lemma_parse_n_stop(input@, start as int, i as nat, n as nat, policy_qualifier_parser(), out.deep_view(), p as int, e.fault());
                }
                return Err(e);
            },
        }
        i = i + 1;
    }
    Ok((out, p))
}

/// Encode `[ * PolicyQualifierInfo ]`.
fn encode_policy_qualifiers(v: &Vec<PolicyQualifierInfo>, buf: &mut Vec<u8>)
    requires
        v.deep_view().len() * 2 <= u64::MAX,
    ensures
        final(buf)@ == old(buf)@ + enc_paired(v.deep_view(), policy_qualifier_writer()),
{
    put_array(buf, v.len() as u64 * 2);
    let ghost after_head = buf@;
    let mut i: usize = 0;
    while i < v.len()
        invariant
            i <= v@.len(),
            buf@ == after_head + enc_all(v.deep_view().take(i as int), policy_qualifier_writer()),
        decreases v@.len() - i,
    {
        v[i].encode(buf);
        proof {
            lemma_enc_all_push(v.deep_view().take(i as int), v.deep_view()[i as int], policy_qualifier_writer());
            assert(v.deep_view().take(i as int).push(v.deep_view()[i as int]) =~= v.deep_view().take(i + 1));
        }
        i = i + 1;
    }
    assert(v.deep_view().take(i as int) =~= v.deep_view());
}

impl CertificatePolicies {
    /// Decode a `CertificatePolicies`. Its `+ ( PolicyIdentifier, [ * PolicyQualifierInfo ] )`
    /// entries are flattened pairs, so the array length is `2 * entries.len()`.
    #[verifier::spinoff_prover]
    #[verifier::rlimit(20)]
    pub fn decode(input: &[u8], pos: usize) -> (r: Result<(Self, usize), Error>)
        ensures
            outcome(r) == spec_certificate_policies(input@, pos as int),
    {
        let (len, start) = definite_array_len(input, pos)?;
        if len % 2 != 0 {
            return Err(Error::Malformed("CertificatePolicies array must have an even number of elements"));
        }
        let n = len / 2;
        let mut out: Vec<(PolicyIdentifier, Vec<PolicyQualifierInfo>)> = Vec::new();
        let mut p = start;
        let mut i: u64 = 0;
        assert(out.deep_view() =~= Seq::<PolicyModel>::empty());
        while i < n
            invariant
                i <= n,
                spec_certificate_policies(input@, pos as int) == parse_n(input@, start as int, n as nat, policy_parser()),
                parse_n(input@, start as int, i as nat, policy_parser()) == Ok::<(Seq<PolicyModel>, int), Fault>(
                    (out.deep_view(), p as int),
                ),
            decreases n - i,
        {
            proof {
                lemma_parse_n_next(input@, start as int, i as nat, policy_parser(), out.deep_view(), p as int);
            }
            let item: Result<((PolicyIdentifier, Vec<PolicyQualifierInfo>), usize), Error> = match IntOrOid::decode(input, p) {
                Ok((policy_identifier, e)) => match decode_policy_qualifiers(input, e) {
                    Ok((qualifiers, e2)) => Ok(((policy_identifier, qualifiers), e2)),
                    Err(err) => Err(err),
                },
                Err(err) => Err(err),
            };
            match item {
                Ok((x, q)) => {
                    let ghost before = out.deep_view();
                    out.push(x);
                    assert(out.deep_view() =~= before.push(x.deep_view()));
                    p = q;
                },
                Err(e) => {
                    proof {
                        lemma_parse_n_stop(input@, start as int, i as nat, n as nat, policy_parser(), out.deep_view(), p as int, e.fault());
                    }
                    return Err(e);
                },
            }
            i = i + 1;
        }
        Ok((Self(out), p))
    }

    /// Encode a `CertificatePolicies`.
    pub fn encode(&self, buf: &mut Vec<u8>)
        requires
            certificate_policies_fit(self.deep_view()),
        ensures
            final(buf)@ == old(buf)@ + enc_certificate_policies(self.deep_view()),
    {
        let v = &self.0;
        put_array(buf, v.len() as u64 * 2);
        let ghost after_head = buf@;
        let mut i: usize = 0;
        while i < v.len()
            invariant
                i <= v@.len(),
                v == &self.0,
                certificate_policies_fit(v.deep_view()),
                buf@ == after_head + enc_all(v.deep_view().take(i as int), policy_writer()),
            decreases v@.len() - i,
        {
            assert(policy_fits(v.deep_view()[i as int]));
            v[i].0.encode(buf);
            encode_policy_qualifiers(&v[i].1, buf);
            proof {
                lemma_enc_all_push(v.deep_view().take(i as int), v.deep_view()[i as int], policy_writer());
                assert(v.deep_view().take(i as int).push(v.deep_view()[i as int]) =~= v.deep_view().take(i + 1));
            }
            i = i + 1;
        }
        assert(v.deep_view().take(i as int) =~= v.deep_view());
    }
}

/// One policy is read back as written.
proof fn lemma_policy(input: Seq<u8>, pos: int, p: PolicyModel)
    requires
        policy_wf(p),
        matches_at(input, pos, enc_policy(p)),
    ensures
        spec_policy(input, pos) == Ok::<(PolicyModel, int), Fault>((p, pos + enc_policy(p).len())),
{
    let a = enc_int_or_oid(p.0);
    let b = enc_paired(p.1, policy_qualifier_writer());
    lemma_matches_split(input, pos, a, b);
    lemma_int_or_oid(input, pos, p.0);
    assert forall|k: int| 0 <= k < p.1.len() implies reads_back(
        policy_qualifier_parser(),
        policy_qualifier_writer(),
        #[trigger] p.1[k],
    ) by {
        let q = p.1[k];
        assert(policy_qualifier_wf(q));
        assert forall|i: Seq<u8>, x: int| #[trigger] matches_at(i, x, policy_qualifier_writer()(q)) implies policy_qualifier_parser()(i, x)
            == Ok::<(PolicyQualifierInfoModel, int), Fault>((q, x + policy_qualifier_writer()(q).len())) by {
            lemma_matches_split(i, x, enc_int_or_oid(q.id), tstr(q.qualifier));
            lemma_int_or_oid(i, x, q.id);
            lemma_tstr(i, x + enc_int_or_oid(q.id).len(), q.qualifier);
        }
    }
    lemma_paired(
        input,
        pos + a.len(),
        "PolicyQualifierInfo array must have an even number of elements",
        p.1,
        policy_qualifier_parser(),
        policy_qualifier_writer(),
    );
}

/// A `CertificatePolicies` is read back as written.
pub proof fn lemma_certificate_policies(input: Seq<u8>, pos: int, v: Seq<PolicyModel>)
    requires
        certificate_policies_wf(v),
        matches_at(input, pos, enc_certificate_policies(v)),
    ensures
        spec_certificate_policies(input, pos) == Ok::<(Seq<PolicyModel>, int), Fault>(
            (v, pos + enc_certificate_policies(v).len()),
        ),
{
    assert forall|k: int| 0 <= k < v.len() implies reads_back(policy_parser(), policy_writer(), #[trigger] v[k]) by {
        assert(policy_wf(v[k]));
        assert forall|i: Seq<u8>, x: int| #[trigger] matches_at(i, x, policy_writer()(v[k])) implies policy_parser()(i, x)
            == Ok::<(PolicyModel, int), Fault>((v[k], x + policy_writer()(v[k]).len())) by {
            lemma_policy(i, x, v[k]);
        }
    }
    lemma_paired(
        input,
        pos,
        "CertificatePolicies array must have an even number of elements",
        v,
        policy_parser(),
        policy_writer(),
    );
}

} // verus!
