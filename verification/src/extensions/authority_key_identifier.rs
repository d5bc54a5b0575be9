//! `AuthorityKeyIdentifier` (id 7).
//! `AuthorityKeyIdentifier = KeyIdentifierArray / KeyIdentifier`
use vstd::prelude::*;

use crate::cbor::{bstr, cbor_bytes, head, lemma_bstr, lemma_matches_split, matches_at, put_array, put_bytes, spec_bytes, spec_datatype, CborType};
use crate::common::{
    biguint_be, biguint_canonical, datatype, expect_array_len, lemma_array_head, read_biguint,
    spec_biguint, spec_expect_array_len, serial_bytes,
};
use crate::error::{outcome, Error, Fault, Parsed};
use crate::extensions::general_name::{
    decode_general_names, enc_general_names, encode_general_names, general_names_fit,
    general_names_wf, lemma_general_names, spec_general_names, GeneralName, GeneralNameModel,
};

verus! {

/// An `AuthorityKeyIdentifier`
#[derive(Clone, PartialEq, Eq, Debug)]
pub struct AuthorityKeyIdentifier {
    /// The key identifier.
    pub key_identifier: Vec<u8>,
    /// The certificate issuer.
    pub cert_issuer: Option<Vec<GeneralName>>,
    /// The certificate serial number, as big-endian magnitude bytes.
    pub cert_serial: Option<Vec<u8>>,
}

/// The model of an [`AuthorityKeyIdentifier`].
pub struct AuthorityKeyIdentifierModel {
    pub key_identifier: Seq<u8>,
    pub cert_issuer: Option<Seq<GeneralNameModel>>,
    pub cert_serial: Option<Seq<u8>>,
}

impl DeepView for AuthorityKeyIdentifier {
    type V = AuthorityKeyIdentifierModel;

    open spec fn deep_view(&self) -> AuthorityKeyIdentifierModel {
        AuthorityKeyIdentifierModel {
            key_identifier: self.key_identifier@,
            cert_issuer: self.cert_issuer.deep_view(),
            cert_serial: match self.cert_serial {
                Some(s) => Some(s@),
                None => None,
            },
        }
    }
}

/// Decoding an `AuthorityKeyIdentifier`: a bare key identifier, or the
/// array `[ keyIdentifier, authorityCertIssuer, authorityCertSerialNumber ]`.
pub open spec fn spec_authority_key_identifier(input: Seq<u8>, pos: int) -> Parsed<AuthorityKeyIdentifierModel> {
    match spec_datatype(input, pos) {
        None => Err(Fault::Cbor),
        Some(CborType::Bytes) => match spec_bytes(input, pos) {
            Ok((k, e)) => Ok(
                (AuthorityKeyIdentifierModel { key_identifier: k, cert_issuer: None, cert_serial: None }, e),
            ),
            Err(f) => Err(f),
        },
        Some(_) => match spec_expect_array_len(input, pos, 3) {
            Ok((_, e)) => match spec_bytes(input, e) {
                Ok((k, e2)) => match spec_general_names(input, e2) {
                    Ok((g, e3)) => match spec_biguint(input, e3) {
                        Ok((s, e4)) => Ok(
                            (
                                AuthorityKeyIdentifierModel {
                                    key_identifier: k,
                                    cert_issuer: Some(g),
                                    cert_serial: Some(s),
                                },
                                e4,
                            ),
                        ),
                        Err(f) => Err(f),
                    },
                    Err(f) => Err(f),
                },
                Err(f) => Err(f),
            },
            Err(f) => Err(f),
        },
    }
}

/// The encoding of an `AuthorityKeyIdentifier` that has one.
pub open spec fn enc_authority_key_identifier(v: AuthorityKeyIdentifierModel) -> Seq<u8> {
    match (v.cert_issuer, v.cert_serial) {
        (Some(g), Some(s)) => head(4, 3) + bstr(v.key_identifier) + enc_general_names(g) + bstr(
            biguint_be(s),
        ),
        _ => bstr(v.key_identifier),
    }
}

/// An `AuthorityKeyIdentifier` with an encoding: issuer and serial both
/// present or both absent.
pub open spec fn authority_key_identifier_encodes(v: AuthorityKeyIdentifierModel) -> bool {
    v.cert_issuer is Some == v.cert_serial is Some
}

/// An `AuthorityKeyIdentifier` that can be written.
pub open spec fn authority_key_identifier_fits(v: AuthorityKeyIdentifierModel) -> bool {
    v.cert_issuer matches Some(g) ==> general_names_fit(g)
}

/// An `AuthorityKeyIdentifier` that survives encoding.
pub open spec fn authority_key_identifier_wf(v: AuthorityKeyIdentifierModel) -> bool {
    &&& authority_key_identifier_encodes(v)
    &&& v.key_identifier.len() <= u64::MAX
    &&& v.cert_issuer matches Some(g) ==> general_names_wf(g)
    &&& v.cert_serial matches Some(s) ==> biguint_canonical(s) && s.len() <= u64::MAX
}

impl AuthorityKeyIdentifier {
    /// Decode an `AuthorityKeyIdentifier`.
    pub fn decode(input: &[u8], pos: usize) -> (r: Result<(Self, usize), Error>)
        ensures
            outcome(r) == spec_authority_key_identifier(input@, pos as int),
    {
        match datatype(input, pos)? {
            CborType::Bytes => match cbor_bytes(input, pos) {
                Ok((key_identifier, e)) => Ok(
                    (AuthorityKeyIdentifier { key_identifier, cert_issuer: None, cert_serial: None }, e),
                ),
                Err(err) => Err(Error::Cbor(err)),
            },
            _ => {
                let (_, e) = expect_array_len(input, pos, 3)?;
                let (key_identifier, e2) = match cbor_bytes(input, e) {
                    Ok(x) => x,
                    Err(err) => return Err(Error::Cbor(err)),
                };
                let (issuer, e3) = decode_general_names(input, e2)?;
                let (serial, e4) = read_biguint(input, e3)?;
                assert(serial.deep_view() =~= serial@);
                Ok(
                    (
                        AuthorityKeyIdentifier {
                            key_identifier,
                            cert_issuer: Some(issuer),
                            cert_serial: Some(serial),
                        },
                        e4,
                    ),
                )
            },
        }
    }

    /// Encode an `AuthorityKeyIdentifier`; issuer and serial must be both
    /// present or both absent.
    pub fn encode(&self, buf: &mut Vec<u8>) -> (r: Result<(), &'static str>)
        requires
            authority_key_identifier_fits(self.deep_view()),
        ensures
            r is Ok <==> authority_key_identifier_encodes(self.deep_view()),
            r is Ok ==> final(buf)@ == old(buf)@ + enc_authority_key_identifier(self.deep_view()),
    {
        match (&self.cert_issuer, &self.cert_serial) {
            (None, None) => {
                put_bytes(buf, self.key_identifier.as_slice());
                Ok(())
            },
            (Some(issuer), Some(serial)) => {
                put_array(buf, 3);
                put_bytes(buf, self.key_identifier.as_slice());
                encode_general_names(issuer, buf);
                let s = serial_bytes(serial.as_slice());
                put_bytes(buf, s.as_slice());
                Ok(())
            },
            _ => Err("AuthorityKeyIdentifier requires both cert_issuer and cert_serial, or neither"),
        }
    }
}

/// An `AuthorityKeyIdentifier` is read back as written.
pub proof fn lemma_authority_key_identifier(input: Seq<u8>, pos: int, v: AuthorityKeyIdentifierModel)
    requires
        authority_key_identifier_wf(v),
        matches_at(input, pos, enc_authority_key_identifier(v)),
    ensures
        spec_authority_key_identifier(input, pos) == Ok::<(AuthorityKeyIdentifierModel, int), Fault>(
            (v, pos + enc_authority_key_identifier(v).len()),
        ),
{
    match (v.cert_issuer, v.cert_serial) {
        (Some(g), Some(s)) => {
            let h = head(4, 3);
            let k = bstr(v.key_identifier);
            let gn = enc_general_names(g);
            let sn = bstr(biguint_be(s));
            assert(enc_authority_key_identifier(v) == h + (k + (gn + sn)));
            lemma_matches_split(input, pos, h, k + (gn + sn));
            lemma_matches_split(input, pos + h.len(), k, gn + sn);
            lemma_matches_split(input, pos + h.len() + k.len(), gn, sn);
            lemma_array_head(input, pos, 3);
            lemma_bstr(input, pos + h.len(), v.key_identifier);
            lemma_general_names(input, pos + h.len() + k.len(), g);
            lemma_bstr(input, pos + h.len() + k.len() + gn.len(), s);
        },
        _ => {
            lemma_bstr(input, pos, v.key_identifier);
        },
    }
}

/// The first element is the key identifier, the second the issuer's names
/// and the third the issuer's serial; a lone byte string is the key
/// identifier alone. The decoder reads them so, whatever they hold.
pub proof fn law_authority_key_identifier_order(
    input: Seq<u8>,
    pos: int,
    key_identifier: Seq<u8>,
    issuer: Seq<GeneralNameModel>,
    serial: Seq<u8>,
)
    requires
        key_identifier.len() <= u64::MAX,
        general_names_wf(issuer),
        biguint_canonical(serial),
        serial.len() <= u64::MAX,
    ensures
        matches_at(input, pos, bstr(key_identifier)) ==> spec_authority_key_identifier(input, pos) == Ok::<
            (AuthorityKeyIdentifierModel, int),
            Fault,
        >(
            (
                AuthorityKeyIdentifierModel { key_identifier, cert_issuer: None, cert_serial: None },
                pos + bstr(key_identifier).len(),
            ),
        ),
        matches_at(input, pos, head(4, 3) + bstr(key_identifier) + enc_general_names(issuer) + bstr(biguint_be(serial)))
            ==> spec_authority_key_identifier(input, pos) == Ok::<(AuthorityKeyIdentifierModel, int), Fault>(
            (
                AuthorityKeyIdentifierModel { key_identifier, cert_issuer: Some(issuer), cert_serial: Some(serial) },
                pos + (head(4, 3) + bstr(key_identifier) + enc_general_names(issuer) + bstr(biguint_be(serial))).len(),
            ),
        ),
{
    let short = AuthorityKeyIdentifierModel { key_identifier, cert_issuer: None, cert_serial: None };
    let long = AuthorityKeyIdentifierModel { key_identifier, cert_issuer: Some(issuer), cert_serial: Some(serial) };
    if matches_at(input, pos, bstr(key_identifier)) {
        lemma_authority_key_identifier(input, pos, short);
    }
    if matches_at(input, pos, head(4, 3) + bstr(key_identifier) + enc_general_names(issuer) + bstr(biguint_be(serial))) {
        lemma_authority_key_identifier(input, pos, long);
    }
}

} // verus!
