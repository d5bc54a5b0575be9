//! `AlgorithmIdentifier` (Section 3.1.3 / 3.1.7):
//!
//! ```text
//! AlgorithmIdentifier = int / ~oid /
//!                     [ algorithm: ~oid, parameters: bytes ]
//! ```
//!
//! Used for both `issuerSignatureAlgorithm` and `subjectPublicKeyAlgorithm`.
//! The three alternatives are told apart by CBOR major type alone
//! (int / bytes / array), since `~oid` carries no CBOR tag on the wire.
use vstd::prelude::*;

use crate::cbor::{
    bstr, cbor_bytes, cbor_i32, head, int_head, lemma_bstr, lemma_int_head, lemma_matches_split,
    matches_at, put_array, put_bytes, put_i32, spec_bytes, spec_datatype, spec_i32, CborType,
};
use crate::common::{
    datatype, definite_array_len, is_array_type, lemma_array_head, lemma_oid,
    spec_definite_array_len,
};
use crate::error::{outcome, Error, Fault, Parsed};
use crate::oid::{decode_oid, oid_stable, spec_oid, Oid};

verus! {

/// An algorithm identifier.
#[derive(Clone, PartialEq, Eq, Debug)]
pub enum AlgorithmIdentifier {
    /// A registry value from Section 8.14 (signature algorithms) or Section
    /// 8.15 (public key algorithms).
    Int(i32),
    /// An algorithm identified by OID, with DER-encoded parameters carried
    /// verbatim as an opaque byte string when present.
    Oid { algorithm: Oid, parameters: Option<Vec<u8>> },
}

/// The model of an [`AlgorithmIdentifier`].
pub enum AlgorithmIdentifierModel {
    Int(i32),
    Oid { algorithm: Seq<u8>, parameters: Option<Seq<u8>> },
}

impl DeepView for AlgorithmIdentifier {
    type V = AlgorithmIdentifierModel;

    open spec fn deep_view(&self) -> AlgorithmIdentifierModel {
        match self {
            AlgorithmIdentifier::Int(n) => AlgorithmIdentifierModel::Int(*n),
            AlgorithmIdentifier::Oid { algorithm, parameters } => AlgorithmIdentifierModel::Oid {
                algorithm: algorithm@,
                parameters: match parameters {
                    Some(p) => Some(p@),
                    None => None,
                },
            },
        }
    }
}

/// Decoding an `AlgorithmIdentifier`.
pub open spec fn spec_algorithm(input: Seq<u8>, pos: int) -> Parsed<AlgorithmIdentifierModel> {
    match spec_datatype(input, pos) {
        None => Err(Fault::Cbor),
        Some(t) => if is_array_type(t) {
            match spec_definite_array_len(input, pos) {
                Ok((len, e)) => if len != 2 {
                    Err(Fault::Malformed("AlgorithmIdentifier array must have exactly 2 elements"))
                } else {
                    match spec_oid(input, e) {
                        Ok((a, e2)) => match spec_bytes(input, e2) {
                            Ok((p, e3)) => Ok(
                                (AlgorithmIdentifierModel::Oid { algorithm: a, parameters: Some(p) }, e3),
                            ),
                            Err(f) => Err(f),
                        },
                        Err(f) => Err(f),
                    }
                },
                Err(f) => Err(f),
            }
        } else if t is Bytes {
            match spec_oid(input, pos) {
                Ok((a, e)) => Ok((AlgorithmIdentifierModel::Oid { algorithm: a, parameters: None }, e)),
                Err(f) => Err(f),
            }
        } else {
            match spec_i32(input, pos) {
                Ok((n, e)) => Ok((AlgorithmIdentifierModel::Int(n), e)),
                Err(f) => Err(f),
            }
        },
    }
}

/// The encoding of an `AlgorithmIdentifier`.
pub open spec fn enc_algorithm(v: AlgorithmIdentifierModel) -> Seq<u8> {
    match v {
        AlgorithmIdentifierModel::Int(n) => int_head(n as int),
        AlgorithmIdentifierModel::Oid { algorithm, parameters: None } => bstr(algorithm),
        AlgorithmIdentifierModel::Oid { algorithm, parameters: Some(p) } => head(4, 2) + bstr(
            algorithm,
        ) + bstr(p),
    }
}

/// An `AlgorithmIdentifier` that survives encoding: an OID that the `oid`
/// crate keeps.
pub open spec fn algorithm_wf(v: AlgorithmIdentifierModel) -> bool {
    match v {
        AlgorithmIdentifierModel::Int(_) => true,
        AlgorithmIdentifierModel::Oid { algorithm, parameters } => oid_stable(algorithm)
            && algorithm.len() <= u64::MAX && (parameters matches Some(p) ==> p.len() <= u64::MAX),
    }
}

impl AlgorithmIdentifier {
    /// Decode an `AlgorithmIdentifier`.
    pub fn decode(input: &[u8], pos: usize) -> (r: Result<(Self, usize), Error>)
        ensures
            outcome(r) == spec_algorithm(input@, pos as int),
    {
        match datatype(input, pos)? {
            CborType::Array | CborType::ArrayIndef => {
                let (len, e) = definite_array_len(input, pos)?;
                if len != 2 {
                    return Err(Error::Malformed("AlgorithmIdentifier array must have exactly 2 elements"));
                }
                let (algorithm, e2) = decode_oid(input, e)?;
                match cbor_bytes(input, e2) {
                    Ok((p, e3)) => Ok((AlgorithmIdentifier::Oid { algorithm, parameters: Some(p) }, e3)),
                    Err(err) => Err(Error::Cbor(err)),
                }
            },
            CborType::Bytes => {
                let (algorithm, e) = decode_oid(input, pos)?;
                Ok((AlgorithmIdentifier::Oid { algorithm, parameters: None }, e))
            },
            _ => match cbor_i32(input, pos) {
                Ok((n, e)) => Ok((AlgorithmIdentifier::Int(n), e)),
                Err(err) => Err(Error::Cbor(err)),
            },
        }
    }

    /// Encode an `AlgorithmIdentifier`.
    pub fn encode(&self, buf: &mut Vec<u8>)
        ensures
            final(buf)@ == old(buf)@ + enc_algorithm(self.deep_view()),
    {
        match self {
            AlgorithmIdentifier::Int(n) => put_i32(buf, *n),
            AlgorithmIdentifier::Oid { algorithm, parameters: None } => put_bytes(buf, algorithm.as_bytes()),
            AlgorithmIdentifier::Oid { algorithm, parameters: Some(params) } => {
                put_array(buf, 2);
                put_bytes(buf, algorithm.as_bytes());
                put_bytes(buf, params.as_slice());
            },
        }
    }
}

/// An `AlgorithmIdentifier` is read back as written.
pub proof fn lemma_algorithm(input: Seq<u8>, pos: int, v: AlgorithmIdentifierModel)
    requires
        algorithm_wf(v),
        matches_at(input, pos, enc_algorithm(v)),
    ensures
        spec_algorithm(input, pos) == Ok::<(AlgorithmIdentifierModel, int), Fault>(
            (v, pos + enc_algorithm(v).len()),
        ),
{
    match v {
        AlgorithmIdentifierModel::Int(n) => lemma_int_head(input, pos, n as int),
        AlgorithmIdentifierModel::Oid { algorithm, parameters: None } => lemma_oid(input, pos, algorithm),
        AlgorithmIdentifierModel::Oid { algorithm, parameters: Some(p) } => {
            let h = head(4, 2);
            assert(enc_algorithm(v) == h + (bstr(algorithm) + bstr(p)));
            lemma_matches_split(input, pos, h, bstr(algorithm) + bstr(p));
            lemma_matches_split(input, pos + h.len(), bstr(algorithm), bstr(p));
            lemma_array_head(input, pos, 2);
            lemma_oid(input, pos + h.len(), algorithm);
            lemma_bstr(input, pos + h.len() + bstr(algorithm).len(), p);
        },
    }
}

} // verus!
