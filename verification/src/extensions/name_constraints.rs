//! `NameConstraints` (id 26).
//! `NameConstraints = [ permittedSubtrees: GeneralSubtrees / null,
//!                     excludedSubtrees: GeneralSubtrees / null ]`
use vstd::prelude::*;

use crate::cbor::{cbor_null, head, lemma_matches_split, matches_at, put_array, put_null, spec_datatype, spec_null, CborType};
use crate::common::{datatype, expect_array_len, lemma_array_head, spec_expect_array_len};
use crate::error::{outcome, Error, Fault, Parsed};
use crate::extensions::general_name::{
    decode_general_names, enc_general_names, encode_general_names, general_names_fit,
    general_names_wf, lemma_general_names, spec_general_names, GeneralName, GeneralNameModel,
};

verus! {

/// A `NameConstraints` extension.
/// `NameConstraints = [ permittedSubtrees: GeneralSubtrees / null,
///                     excludedSubtrees: GeneralSubtrees / null ]`
#[derive(Clone, PartialEq, Eq, Debug)]
pub struct NameConstraints {
    pub permitted: Option<Vec<GeneralName>>,
    pub excluded: Option<Vec<GeneralName>>,
}

/// The model of a [`NameConstraints`].
pub struct NameConstraintsModel {
    pub permitted: Option<Seq<GeneralNameModel>>,
    pub excluded: Option<Seq<GeneralNameModel>>,
}

impl DeepView for NameConstraints {
    type V = NameConstraintsModel;

    open spec fn deep_view(&self) -> NameConstraintsModel {
        NameConstraintsModel { permitted: self.permitted.deep_view(), excluded: self.excluded.deep_view() }
    }
}

/// Decoding `GeneralSubtrees / null`.
pub open spec fn spec_opt_subtree(input: Seq<u8>, pos: int) -> Parsed<Option<Seq<GeneralNameModel>>> {
    match spec_datatype(input, pos) {
        None => Err(Fault::Cbor),
        Some(CborType::Null) => match spec_null(input, pos) {
            Ok((_, e)) => Ok((None, e)),
            Err(f) => Err(f),
        },
        Some(_) => match spec_general_names(input, pos) {
            Ok((v, e)) => Ok((Some(v), e)),
            Err(f) => Err(f),
        },
    }
}

/// The encoding of `GeneralSubtrees / null`.
pub open spec fn enc_opt_subtree(v: Option<Seq<GeneralNameModel>>) -> Seq<u8> {
    match v {
        None => seq![0xf6u8],
        Some(names) => enc_general_names(names),
    }
}

/// Decoding a `NameConstraints`: a two-element array.
pub open spec fn spec_name_constraints(input: Seq<u8>, pos: int) -> Parsed<NameConstraintsModel> {
    match spec_expect_array_len(input, pos, 2) {
        Ok((_, e)) => match spec_opt_subtree(input, e) {
            Ok((p, e1)) => match spec_opt_subtree(input, e1) {
                Ok((x, e2)) => Ok((NameConstraintsModel { permitted: p, excluded: x }, e2)),
                Err(f) => Err(f),
            },
            Err(f) => Err(f),
        },
        Err(f) => Err(f),
    }
}

/// The encoding of a `NameConstraints`.
pub open spec fn enc_name_constraints(v: NameConstraintsModel) -> Seq<u8> {
    head(4, 2) + enc_opt_subtree(v.permitted) + enc_opt_subtree(v.excluded)
}

/// A `NameConstraints` that can be written.
pub open spec fn name_constraints_fit(v: NameConstraintsModel) -> bool {
    &&& (v.permitted matches Some(n) ==> general_names_fit(n))
    &&& (v.excluded matches Some(n) ==> general_names_fit(n))
}

/// A `NameConstraints` that survives encoding.
pub open spec fn name_constraints_wf(v: NameConstraintsModel) -> bool {
    &&& (v.permitted matches Some(n) ==> general_names_wf(n))
    &&& (v.excluded matches Some(n) ==> general_names_wf(n))
}

impl NameConstraints {
    /// Decode a `NameConstraints`.
    pub fn decode(input: &[u8], pos: usize) -> (r: Result<(Self, usize), Error>)
        ensures
            outcome(r) == spec_name_constraints(input@, pos as int),
    {
        let (_, e) = expect_array_len(input, pos, 2)?;
        let (permitted, e1) = decode_opt_general_subtree(input, e)?;
        let (excluded, e2) = decode_opt_general_subtree(input, e1)?;
        Ok((NameConstraints { permitted, excluded }, e2))
    }

    /// Encode a `NameConstraints`.
    pub fn encode(&self, buf: &mut Vec<u8>)
        requires
            name_constraints_fit(self.deep_view()),
        ensures
            final(buf)@ == old(buf)@ + enc_name_constraints(self.deep_view()),
    {
        put_array(buf, 2);
        encode_opt_general_subtree(&self.permitted, buf);
        encode_opt_general_subtree(&self.excluded, buf);
    }
}

/// Decode an optional `GeneralSubtree`.
fn decode_opt_general_subtree(input: &[u8], pos: usize) -> (r: Result<(Option<Vec<GeneralName>>, usize), Error>)
    ensures
        outcome(r) == spec_opt_subtree(input@, pos as int),
{
    if let CborType::Null = datatype(input, pos)? {
        match cbor_null(input, pos) {
            Ok((_, e)) => Ok((None, e)),
            Err(err) => Err(Error::Cbor(err)),
        }
    } else {
        let (v, e) = decode_general_names(input, pos)?;
        Ok((Some(v), e))
    }
}

/// Encode an optional `GeneralSubtree`.
fn encode_opt_general_subtree(v: &Option<Vec<GeneralName>>, buf: &mut Vec<u8>)
    requires
        v.deep_view() matches Some(n) ==> general_names_fit(n),
    ensures
        final(buf)@ == old(buf)@ + enc_opt_subtree(v.deep_view()),
{
    match v {
        Some(names) => encode_general_names(names, buf),
        None => {
            put_null(buf);
            assert(old(buf)@.push(0xf6) =~= old(buf)@ + seq![0xf6u8]);
        },
    }
}

/// `GeneralSubtrees / null` is read back as written.
proof fn lemma_opt_subtree(input: Seq<u8>, pos: int, v: Option<Seq<GeneralNameModel>>)
    requires
        v matches Some(n) ==> general_names_wf(n),
        matches_at(input, pos, enc_opt_subtree(v)),
    ensures
        spec_opt_subtree(input, pos) == Ok::<(Option<Seq<GeneralNameModel>>, int), Fault>(
            (v, pos + enc_opt_subtree(v).len()),
        ),
{
    match v {
        None => {
            assert(input[pos] == input.subrange(pos, pos + 1)[0]);
        },
        Some(n) => {
            lemma_general_names(input, pos, n);
        },
    }
}

/// A `NameConstraints` is read back as written.
pub proof fn lemma_name_constraints(input: Seq<u8>, pos: int, v: NameConstraintsModel)
    requires
        name_constraints_wf(v),
        matches_at(input, pos, enc_name_constraints(v)),
    ensures
        spec_name_constraints(input, pos) == Ok::<(NameConstraintsModel, int), Fault>(
            (v, pos + enc_name_constraints(v).len()),
        ),
{
    let h = head(4, 2);
    let a = enc_opt_subtree(v.permitted);
    let b = enc_opt_subtree(v.excluded);
    assert(enc_name_constraints(v) == h + (a + b));
    lemma_matches_split(input, pos, h, a + b);
    lemma_matches_split(input, pos + h.len(), a, b);
    lemma_array_head(input, pos, 2);
    lemma_opt_subtree(input, pos + h.len(), v.permitted);
    lemma_opt_subtree(input, pos + h.len() + a.len(), v.excluded);
}

/// The first element of the array is the permitted subtrees and the second
/// the excluded ones, whatever they hold: the decoder reads them in that
/// order.
pub proof fn law_name_constraints_order(
    input: Seq<u8>,
    pos: int,
    permitted: Option<Seq<GeneralNameModel>>,
    excluded: Option<Seq<GeneralNameModel>>,
)
    requires
        permitted matches Some(n) ==> general_names_wf(n),
        excluded matches Some(n) ==> general_names_wf(n),
        matches_at(input, pos, head(4, 2) + enc_opt_subtree(permitted) + enc_opt_subtree(excluded)),
    ensures
        spec_name_constraints(input, pos) == Ok::<(NameConstraintsModel, int), Fault>(
            (
                NameConstraintsModel { permitted, excluded },
                pos + (head(4, 2) + enc_opt_subtree(permitted) + enc_opt_subtree(excluded)).len(),
            ),
        ),
{
    lemma_name_constraints(input, pos, NameConstraintsModel { permitted, excluded });
}

} // verus!
