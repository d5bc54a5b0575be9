//! `AccessDescription`, shared by `AuthorityInfoAccess` (id 9) and
//! `SubjectInfoAccess` (id 31).
//! `AccessDescription = ( accessMethod: int / ~oid , uri: text )`
use vstd::prelude::*;

use crate::cbor::{cbor_str, lemma_matches_split, lemma_tstr, matches_at, put_array, put_str, spec_datatype, spec_text, tstr, CborType};
use crate::common::{
    definite_array_len, enc_int_or_oid, int_or_oid_wf, lemma_int_or_oid, spec_int_or_oid, IntOrOid,
    IntOrOidModel,
};
use crate::error::{outcome, Error, Fault, Parsed};
use crate::repeat::{
    enc_all, enc_paired, lemma_enc_all_push, lemma_paired, lemma_parse_n_next, lemma_parse_n_stop,
    parse_n, reads_back, spec_paired,
};
use vstd::utf8::encode_utf8;

verus! {

/// An `AccessDescription`
#[derive(Clone, PartialEq, Eq, Debug)]
pub struct AccessDescription {
    /// The access method, either an integer or an OID.
    pub access_method: IntOrOid,
    /// The URI of the access description.
    pub uri: String,
}

/// The model of an [`AccessDescription`].
pub struct AccessDescriptionModel {
    pub access_method: IntOrOidModel,
    pub uri: Seq<char>,
}

impl DeepView for AccessDescription {
    type V = AccessDescriptionModel;

    open spec fn deep_view(&self) -> AccessDescriptionModel {
        AccessDescriptionModel { access_method: self.access_method.deep_view(), uri: self.uri@ }
    }
}

/// Reading one `AccessDescription`: the method, then the URI.
pub open spec fn spec_access_description(input: Seq<u8>, pos: int) -> Parsed<AccessDescriptionModel> {
    match spec_int_or_oid(input, pos) {
        Ok((m, e)) => match spec_text(input, e) {
            Ok((u, e2)) => Ok((AccessDescriptionModel { access_method: m, uri: u }, e2)),
            Err(f) => Err(f),
        },
        Err(f) => Err(f),
    }
}

/// Writing one `AccessDescription`.
pub open spec fn enc_access_description(a: AccessDescriptionModel) -> Seq<u8> {
    enc_int_or_oid(a.access_method) + tstr(a.uri)
}

/// The reader of one `AccessDescription`.
pub open spec fn access_description_parser() -> spec_fn(Seq<u8>, int) -> Parsed<AccessDescriptionModel> {
    |i: Seq<u8>, p: int| spec_access_description(i, p)
}

/// The writer of one `AccessDescription`.
pub open spec fn access_description_writer() -> spec_fn(AccessDescriptionModel) -> Seq<u8> {
    |a: AccessDescriptionModel| enc_access_description(a)
}

/// Decoding `AccessDescription`s: `2 * n` items for `n` descriptions.
pub open spec fn spec_access_descriptions(input: Seq<u8>, pos: int) -> Parsed<Seq<AccessDescriptionModel>> {
    spec_paired(
        input,
        pos,
        "AccessDescription array must have an even number of elements",
        access_description_parser(),
    )
}

/// The encoding of `AccessDescription`s.
pub open spec fn enc_access_descriptions(v: Seq<AccessDescriptionModel>) -> Seq<u8> {
    enc_paired(v, access_description_writer())
}

/// `AccessDescription`s that survive encoding.
pub open spec fn access_descriptions_wf(v: Seq<AccessDescriptionModel>) -> bool {
    &&& v.len() * 2 <= u64::MAX
    &&& forall|k: int|
        0 <= k < v.len() ==> int_or_oid_wf(#[trigger] v[k].access_method) && encode_utf8(v[k].uri).len()
            <= u64::MAX
}

impl AccessDescription {
    /// Decode `AccessDescription`s.
    #[verifier::spinoff_prover]
    #[verifier::rlimit(20)]
    pub fn decode(input: &[u8], pos: usize) -> (r: Result<(Vec<Self>, usize), Error>)
        ensures
            outcome(r) == spec_access_descriptions(input@, pos as int),
    {
        let (len, start) = definite_array_len(input, pos)?;
        if len % 2 != 0 {
            return Err(Error::Malformed("AccessDescription array must have an even number of elements"));
        }
        let n = len / 2;
        let mut out: Vec<AccessDescription> = Vec::new();
        let mut p = start;
        let mut i: u64 = 0;
        assert(out.deep_view() =~= Seq::<AccessDescriptionModel>::empty());
        while i < n
            invariant
                i <= n,
                spec_access_descriptions(input@, pos as int) == parse_n(input@, start as int, n as nat, access_description_parser()),
                parse_n(input@, start as int, i as nat, access_description_parser()) == Ok::<(Seq<AccessDescriptionModel>, int), Fault>(
                    (out.deep_view(), p as int),
                ),
            decreases n - i,
        {
            proof {
                lemma_parse_n_next(input@, start as int, i as nat, access_description_parser(), out.deep_view(), p as int);
            }
            let item: Result<(AccessDescription, usize), Error> = match IntOrOid::decode(input, p) {
                Ok((access_method, e)) => match cbor_str(input, e) {
                    Ok((uri, e2)) => Ok((AccessDescription { access_method, uri }, e2)),
                    Err(err) => Err(Error::Cbor(err)),
                },
                Err(err) => Err(err),
            };
            match item {
                Ok((a, q)) => {
                    let ghost before = out.deep_view();
                    out.push(a);
                    assert(out.deep_view() =~= before.push(a.deep_view()));
                    p = q;
                },
                Err(e) => {
                    proof {
                        lemma_parse_n_stop(input@, start as int, i as nat, n as nat, access_description_parser(), out.deep_view(), p as int, e.fault());
                    }
                    return Err(e);
                },
            }
            i = i + 1;
        }
        Ok((out, p))
    }

    /// Encode `AccessDescription`s.
    pub fn encode(v: &Vec<AccessDescription>, buf: &mut Vec<u8>)
        requires
            v.deep_view().len() * 2 <= u64::MAX,
        ensures
            final(buf)@ == old(buf)@ + enc_access_descriptions(v.deep_view()),
    {
        put_array(buf, v.len() as u64 * 2);
        let ghost after_head = buf@;
        let mut i: usize = 0;
        while i < v.len()
            invariant
                i <= v@.len(),
                buf@ == after_head + enc_all(v.deep_view().take(i as int), access_description_writer()),
            decreases v@.len() - i,
        {
            v[i].access_method.encode(buf);
            put_str(buf, v[i].uri.as_str());
            proof {
                lemma_enc_all_push(v.deep_view().take(i as int), v.deep_view()[i as int], access_description_writer());
                assert(v.deep_view().take(i as int).push(v.deep_view()[i as int]) =~= v.deep_view().take(i + 1));
            }
            i = i + 1;
        }
        assert(v.deep_view().take(i as int) =~= v.deep_view());
    }
}

/// `AccessDescription`s are read back as written.
pub proof fn lemma_access_descriptions(input: Seq<u8>, pos: int, v: Seq<AccessDescriptionModel>)
    requires
        access_descriptions_wf(v),
        matches_at(input, pos, enc_access_descriptions(v)),
    ensures
        spec_access_descriptions(input, pos) == Ok::<(Seq<AccessDescriptionModel>, int), Fault>(
            (v, pos + enc_access_descriptions(v).len()),
        ),
{
    assert forall|k: int| 0 <= k < v.len() implies reads_back(
        access_description_parser(),
        access_description_writer(),
        #[trigger] v[k],
    ) by {
        let a = v[k];
        assert(int_or_oid_wf(a.access_method));
        assert forall|i: Seq<u8>, p: int| #[trigger] matches_at(i, p, access_description_writer()(a)) implies access_description_parser()(i, p)
            == Ok::<(AccessDescriptionModel, int), Fault>((a, p + access_description_writer()(a).len())) by {
            lemma_matches_split(i, p, enc_int_or_oid(a.access_method), tstr(a.uri));
            lemma_int_or_oid(i, p, a.access_method);
            lemma_tstr(i, p + enc_int_or_oid(a.access_method).len(), a.uri);
        }
    }
    lemma_paired(
        input,
        pos,
        "AccessDescription array must have an even number of elements",
        v,
        access_description_parser(),
        access_description_writer(),
    );
}

} // verus!
