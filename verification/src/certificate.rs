//! `C509Certificate` / `TBSCertificate` (Section 3.1, Figure 1).
//!
//! ```text
//! C509Certificate = [
//!    TBSCertificate,
//!    issuerSignatureValue : any,
//! ]
//!
//! ; The elements of the following group are used in a CBOR Sequence:
//! TBSCertificate = (
//!    c509CertificateType: int,
//!    certificateSerialNumber: CertificateSerialNumber,
//!    issuerSignatureAlgorithm: AlgorithmIdentifier,
//!    issuer: Name / null,
//!    validityNotBefore: ~time,
//!    validityNotAfter: ~time / null,
//!    subject: Name,
//!    subjectPublicKeyAlgorithm: AlgorithmIdentifier,
//!    subjectPublicKey: Defined,
//!    extensions: Extensions,
//! )
//! ```
//!
//! Because `TBSCertificate` is spliced into `C509Certificate` as a CBOR
//! Sequence, the wire format is **one flat 11-element array**, not a
//! 2-element array containing a nested array.
use vstd::prelude::*;

use crate::algorithm::{algorithm_wf, enc_algorithm, lemma_algorithm, spec_algorithm, AlgorithmIdentifier, AlgorithmIdentifierModel};
use crate::cbor::{
    bstr, cbor_array, cbor_bytes, cbor_i32, cbor_null, head, int_head, lemma_bstr, lemma_int_head,
    lemma_matches_split, matches_at, put_array, put_bytes, put_i32, put_null, spec_array,
    spec_bytes, spec_datatype, spec_i32, spec_null, CborType,
};
use crate::common::{
    biguint_be, biguint_canonical, datatype, is_array_type, encode_time, into_cbor, lemma_time, read_biguint,
    read_time, serial_bytes, spec_biguint, spec_time, RdnAttributeModel,
};
use crate::error::{Error, Fault, Parsed};
use crate::extensions::{
    enc_extensions, extensions_encode, extensions_fit, extensions_wf, lemma_extensions,
    spec_extensions, ExtensionModel, Extensions,
};
use crate::name::{enc_name, enc_opt_name, lemma_name, lemma_opt_name, name_fits, name_wf, spec_name, spec_opt_name, Name};
use crate::repeat::as_cbor;

verus! {

/// The number of items of the flat certificate array.
pub const FIELD_COUNT: u64 = 11;

/// The latest moment a C509 validity time can hold (9999-12-31T23:59:59Z),
/// the end of the range of `time::OffsetDateTime`.
pub const MAX_TIME: i64 = 253_402_300_799;

/// The to-be-signed part of a certificate.
#[derive(Clone, PartialEq, Eq, Debug)]
pub struct TbsCertificate {
    /// The X.509 `version` and the C509 wire format both live here: `2` for
    /// a natively signed certificate, `3` for a CBOR re-encoding of a
    /// DER-encoded certificate (Section 8.2).
    pub c509_certificate_type: i32,
    /// `~biguint`: the big-endian magnitude bytes, as `num_bigint` writes
    /// them (no leading `0x00` byte; zero is a single `0x00`).
    pub certificate_serial_number: Vec<u8>,
    pub issuer_signature_algorithm: AlgorithmIdentifier,
    /// `None` means "identical to `subject`" (self-signed).
    pub issuer: Option<Name>,
    /// POSIX seconds (UTC).
    pub validity_not_before: i64,
    /// `None` means "no expiration" (X.509 `99991231235959Z`).
    pub validity_not_after: Option<i64>,
    pub subject: Name,
    pub subject_public_key_algorithm: AlgorithmIdentifier,
    /// Opaque public key bytes, exactly as they appear on the C509 wire
    /// (already point-compressed for EC keys, modulus-only for RSA with
    /// e=65537, etc. — see Section 3.2.1). This crate does not perform
    /// ASN.1/DER conversion.
    pub subject_public_key: Vec<u8>,
    pub extensions: Extensions,
}

/// A C509 certificate.
#[derive(Clone, PartialEq, Eq, Debug)]
pub struct C509Certificate {
    pub tbs: TbsCertificate,
    /// Opaque signature bytes, exactly as they appear on the C509 wire
    /// (e.g. already R‖S packed for ECDSA — see Section 3.2.2).
    pub issuer_signature_value: Vec<u8>,
}

/// The model of a [`C509Certificate`]: its eleven fields.
pub struct CertificateModel {
    pub c509_certificate_type: i32,
    pub certificate_serial_number: Seq<u8>,
    pub issuer_signature_algorithm: AlgorithmIdentifierModel,
    pub issuer: Option<Seq<RdnAttributeModel>>,
    pub validity_not_before: i64,
    pub validity_not_after: Option<i64>,
    pub subject: Seq<RdnAttributeModel>,
    pub subject_public_key_algorithm: AlgorithmIdentifierModel,
    pub subject_public_key: Seq<u8>,
    pub extensions: Seq<ExtensionModel>,
    pub issuer_signature_value: Seq<u8>,
}

impl DeepView for C509Certificate {
    type V = CertificateModel;

    open spec fn deep_view(&self) -> CertificateModel {
        CertificateModel {
            c509_certificate_type: self.tbs.c509_certificate_type,
            certificate_serial_number: self.tbs.certificate_serial_number@,
            issuer_signature_algorithm: self.tbs.issuer_signature_algorithm.deep_view(),
            issuer: self.tbs.issuer.deep_view(),
            validity_not_before: self.tbs.validity_not_before,
            validity_not_after: self.tbs.validity_not_after,
            subject: self.tbs.subject.deep_view(),
            subject_public_key_algorithm: self.tbs.subject_public_key_algorithm.deep_view(),
            subject_public_key: self.tbs.subject_public_key@,
            extensions: self.tbs.extensions.deep_view(),
            issuer_signature_value: self.issuer_signature_value@,
        }
    }
}

/// Decoding `~time / null`.
pub open spec fn spec_opt_time(input: Seq<u8>, pos: int) -> Parsed<Option<i64>> {
    match spec_datatype(input, pos) {
        None => Err(Fault::Cbor),
        Some(CborType::Null) => match spec_null(input, pos) {
            Ok((_, e)) => Ok((None, e)),
            Err(f) => Err(f),
        },
        Some(_) => match spec_time(input, pos) {
            Ok((t, e)) => Ok((Some(t), e)),
            Err(f) => Err(f),
        },
    }
}

/// Decoding the type, serial, issuer algorithm and issuer.
#[verifier::opaque]
pub open spec fn spec_issuer_part(input: Seq<u8>, pos: int) -> Parsed<
    (i32, Seq<u8>, AlgorithmIdentifierModel, Option<Seq<RdnAttributeModel>>),
> {
    match spec_i32(input, pos) {
        Ok((ty, e1)) => match spec_biguint(input, e1) {
            Ok((serial, e2)) => match spec_algorithm(input, e2) {
                Ok((alg, e3)) => match spec_opt_name(input, e3) {
                    Ok((issuer, e4)) => Ok(((ty, serial, alg, issuer), e4)),
                    Err(f) => Err(f),
                },
                Err(f) => Err(f),
            },
            Err(f) => Err(f),
        },
        Err(f) => Err(f),
    }
}

/// Decoding the validity period.
#[verifier::opaque]
pub open spec fn spec_validity(input: Seq<u8>, pos: int) -> Parsed<(i64, Option<i64>)> {
    match spec_time(input, pos) {
        Ok((nb, e1)) => match spec_opt_time(input, e1) {
            Ok((na, e2)) => Ok(((nb, na), e2)),
            Err(f) => Err(f),
        },
        Err(f) => Err(f),
    }
}

/// Decoding the subject, its key algorithm and its key.
#[verifier::opaque]
pub open spec fn spec_subject_part(input: Seq<u8>, pos: int) -> Parsed<
    (Seq<RdnAttributeModel>, AlgorithmIdentifierModel, Seq<u8>),
> {
    match spec_name(input, pos) {
        Ok((subject, e1)) => match spec_algorithm(input, e1) {
            Ok((alg, e2)) => match spec_bytes(input, e2) {
                Ok((key, e3)) => Ok(((subject, alg, key), e3)),
                Err(f) => Err(f),
            },
            Err(f) => Err(f),
        },
        Err(f) => Err(f),
    }
}

/// Decoding the eleven fields of a certificate, one after another.
pub open spec fn spec_fields(input: Seq<u8>, pos: int) -> Parsed<CertificateModel> {
    match spec_issuer_part(input, pos) {
        Ok(((ty, serial, issuer_alg, issuer), e4)) => match spec_validity(input, e4) {
            Ok(((not_before, not_after), e6)) => match spec_subject_part(input, e6) {
                Ok(((subject, spk_alg, spk), e9)) => match spec_extensions(input, e9) {
                    Ok((exts, e10)) => match spec_bytes(input, e10) {
                        Ok((sig, e11)) => Ok(
                            (
                                CertificateModel {
                                    c509_certificate_type: ty,
                                    certificate_serial_number: serial,
                                    issuer_signature_algorithm: issuer_alg,
                                    issuer,
                                    validity_not_before: not_before,
                                    validity_not_after: not_after,
                                    subject,
                                    subject_public_key_algorithm: spk_alg,
                                    subject_public_key: spk,
                                    extensions: exts,
                                    issuer_signature_value: sig,
                                },
                                e11,
                            ),
                        ),
                        Err(f) => Err(f),
                    },
                    Err(f) => Err(f),
                },
                Err(f) => Err(f),
            },
            Err(f) => Err(f),
        },
        Err(f) => Err(f),
    }
}

/// The certificate a CBOR Sequence of the eleven fields decodes to; bytes
/// after them are not read.
pub open spec fn spec_decode_sequence(bytes: Seq<u8>) -> Result<CertificateModel, Fault> {
    match spec_fields(bytes, 0) {
        Ok((c, _)) => Ok(c),
        Err(f) => Err(f),
    }
}

/// The certificate a wrapped `C509Certificate` decodes to: an array of
/// exactly eleven items holding the fields. As `minicbor::decode` reports
/// it, every failure is a CBOR failure; bytes after the array are not read.
pub open spec fn spec_decode_certificate(bytes: Seq<u8>) -> Result<CertificateModel, Fault> {
    match spec_array(bytes, 0) {
        Ok((Some(n), e)) => if n != FIELD_COUNT {
            Err(Fault::Cbor)
        } else {
            match as_cbor(spec_fields(bytes, e)) {
                Ok((c, _)) => Ok(c),
                Err(f) => Err(f),
            }
        },
        Ok((None, _)) => Err(Fault::Cbor),
        Err(f) => Err(f),
    }
}

/// The encoding of `~time / null`.
pub open spec fn enc_opt_time(t: Option<i64>) -> Seq<u8> {
    match t {
        Some(s) => head(0, s as u64),
        None => seq![0xf6u8],
    }
}

/// Decoding either wire form, told apart by the first item: the wrapped
/// form always starts with an array header, the bare CBOR Sequence never
/// does (it starts with `c509CertificateType`, an int).
pub open spec fn spec_decode_either(bytes: Seq<u8>) -> Result<CertificateModel, Fault> {
    match spec_datatype(bytes, 0) {
        Some(t) => if is_array_type(t) {
            spec_decode_certificate(bytes)
        } else {
            spec_decode_sequence(bytes)
        },
        None => spec_decode_sequence(bytes),
    }
}

/// The encoding of the type, serial, issuer algorithm and issuer.
#[verifier::opaque]
pub open spec fn enc_issuer_part(c: CertificateModel) -> Seq<u8> {
    int_head(c.c509_certificate_type as int) + bstr(biguint_be(c.certificate_serial_number)) + enc_algorithm(
        c.issuer_signature_algorithm,
    ) + enc_opt_name(c.issuer)
}

/// The encoding of the validity period.
#[verifier::opaque]
pub open spec fn enc_validity(c: CertificateModel) -> Seq<u8> {
    head(0, c.validity_not_before as u64) + enc_opt_time(c.validity_not_after)
}

/// The encoding of the subject, its key algorithm and its key.
#[verifier::opaque]
pub open spec fn enc_subject_part(c: CertificateModel) -> Seq<u8> {
    enc_name(c.subject) + enc_algorithm(c.subject_public_key_algorithm) + bstr(c.subject_public_key)
}

/// The encoding of the eleven fields, one after another.
pub open spec fn enc_fields(c: CertificateModel) -> Seq<u8> {
    enc_issuer_part(c) + enc_validity(c) + enc_subject_part(c) + enc_extensions(c.extensions) + bstr(
        c.issuer_signature_value,
    )
}

/// The encoding of a wrapped `C509Certificate`.
pub open spec fn enc_certificate(c: CertificateModel) -> Seq<u8> {
    head(4, FIELD_COUNT) + enc_fields(c)
}

/// A certificate that can be written without overflow.
pub open spec fn certificate_fits(c: CertificateModel) -> bool {
    &&& (c.issuer matches Some(n) ==> name_fits(n))
    &&& name_fits(c.subject)
    &&& extensions_fit(c.extensions)
}

/// A certificate that has an encoding: no validity time before the Unix
/// epoch, and extensions that have one.
pub open spec fn certificate_encodes(c: CertificateModel) -> bool {
    &&& c.validity_not_before >= 0
    &&& (c.validity_not_after matches Some(t) ==> t >= 0)
    &&& extensions_encode(c.extensions)
}

/// A certificate that survives encoding: it has an encoding, its serial is
/// written as `num_bigint` writes it, its times are ones a decoder accepts,
/// and its parts survive their own encoding.
pub open spec fn certificate_wf(c: CertificateModel) -> bool {
    &&& biguint_canonical(c.certificate_serial_number)
    &&& c.certificate_serial_number.len() <= u64::MAX
    &&& algorithm_wf(c.issuer_signature_algorithm)
    &&& (c.issuer matches Some(n) ==> name_wf(n))
    &&& 0 <= c.validity_not_before <= MAX_TIME
    &&& (c.validity_not_after matches Some(t) ==> 0 <= t <= MAX_TIME)
    &&& name_wf(c.subject)
    &&& algorithm_wf(c.subject_public_key_algorithm)
    &&& c.subject_public_key.len() <= u64::MAX
    &&& extensions_wf(c.extensions)
    &&& extensions_encode(c.extensions)
    &&& c.issuer_signature_value.len() <= u64::MAX
}

/// Read a byte string, mapping the error.
fn read_bytes(input: &[u8], pos: usize) -> (r: Result<(Vec<u8>, usize), Error>)
    ensures
        match r {
            Ok((b, e)) => spec_bytes(input@, pos as int) == Ok::<(Seq<u8>, int), Fault>((b@, e as int)),
            Err(err) => spec_bytes(input@, pos as int) == Err::<(Seq<u8>, int), Fault>(err.fault()),
        },
{
    match cbor_bytes(input, pos) {
        Ok(x) => Ok(x),
        Err(err) => Err(Error::Cbor(err)),
    }
}

/// Decode `~time / null`.
fn decode_opt_time(input: &[u8], pos: usize) -> (r: Result<(Option<i64>, usize), Error>)
    ensures
        crate::error::outcome(r) == spec_opt_time(input@, pos as int),
{
    if let CborType::Null = datatype(input, pos)? {
        match cbor_null(input, pos) {
            Ok((_, e)) => Ok((None, e)),
            Err(err) => Err(Error::Cbor(err)),
        }
    } else {
        let (t, e) = read_time(input, pos)?;
        Ok((Some(t), e))
    }
}

impl C509Certificate {
    /// Decode a `C509Certificate` CBOR item (the wrapped array form:
    /// `[ TBSCertificate, issuerSignatureValue ]`, i.e. one 11-element
    /// array on the wire).
    pub fn decode(bytes: &[u8]) -> (r: Result<Self, Error>)
        ensures
            match r {
                Ok(c) => spec_decode_certificate(bytes@) == Ok::<CertificateModel, Fault>(c.deep_view()),
                Err(e) => spec_decode_certificate(bytes@) == Err::<CertificateModel, Fault>(e.fault()),
            },
    {
        let (n, e) = match cbor_array(bytes, 0) {
            Ok(x) => x,
            Err(err) => return Err(Error::Cbor(err)),
        };
        match n {
            None => Err(Error::Cbor(crate::cbor::cbor_message("C509Certificate must be a definite-length array"))),
            Some(n) => {
                if n != FIELD_COUNT {
                    return Err(Error::Cbor(crate::cbor::cbor_message("C509Certificate array must have exactly 11 elements")));
                }
                match Self::decode_fields(bytes, e) {
                    Ok((c, _)) => Ok(c),
                    Err(err) => Err(into_cbor(err)),
                }
            },
        }
    }

    /// Decode the "unwrapped `~C509Certificate`" form used throughout the
    /// draft's own examples: an RFC 8742 CBOR Sequence of the same 11 items,
    /// with **no** outer array header.
    pub fn decode_sequence(bytes: &[u8]) -> (r: Result<Self, Error>)
        ensures
            match r {
                Ok(c) => spec_decode_sequence(bytes@) == Ok::<CertificateModel, Fault>(c.deep_view()),
                Err(e) => spec_decode_sequence(bytes@) == Err::<CertificateModel, Fault>(e.fault()),
            },
    {
        match Self::decode_fields(bytes, 0) {
            Ok((c, _)) => Ok(c),
            Err(err) => Err(err),
        }
    }

    /// Whether this certificate has an encoding: validity times from the
    /// Unix epoch on, and extensions that have one.
    pub fn has_encoding(&self) -> (r: bool)
        ensures
            r == certificate_encodes(self.deep_view()),
    {
        let times = self.tbs.validity_not_before >= 0 && match self.tbs.validity_not_after {
            Some(t) => t >= 0,
            None => true,
        };
        times && self.tbs.extensions.has_encoding()
    }

    /// Encode as the wrapped `C509Certificate` CBOR array item.
    pub fn encode(&self) -> (r: Vec<u8>)
        requires
            certificate_fits(self.deep_view()),
            certificate_encodes(self.deep_view()),
        ensures
            r@ == enc_certificate(self.deep_view()),
    {
        let mut buf: Vec<u8> = Vec::new();
        put_array(&mut buf, FIELD_COUNT);
        let ok = self.encode_fields(&mut buf);
        assert(ok is Ok);
        assert(buf@ =~= enc_certificate(self.deep_view()));
        buf
    }

    /// Encode as the bare 11-item CBOR Sequence (no outer array header).
    /// This is the byte string that natively signed certificates are
    /// signed over (Section 3.1.12).
    pub fn encode_sequence(&self) -> (r: Vec<u8>)
        requires
            certificate_fits(self.deep_view()),
            certificate_encodes(self.deep_view()),
        ensures
            r@ == enc_fields(self.deep_view()),
    {
        let mut buf: Vec<u8> = Vec::new();
        let ok = self.encode_fields(&mut buf);
        assert(ok is Ok);
        assert(buf@ =~= enc_fields(self.deep_view()));
        buf
    }

    /// Decode the eleven fields from `pos` on.
    fn decode_fields(input: &[u8], pos: usize) -> (r: Result<(Self, usize), Error>)
        ensures
            crate::error::outcome(r) == spec_fields(input@, pos as int),
    {
        proof {
            reveal(spec_issuer_part);
            reveal(spec_validity);
            reveal(spec_subject_part);
        }
        let (c509_certificate_type, e1) = match cbor_i32(input, pos) {
            Ok(x) => x,
            Err(err) => return Err(Error::Cbor(err)),
        };
        let (certificate_serial_number, e2) = read_biguint(input, e1)?;
        let (issuer_signature_algorithm, e3) = AlgorithmIdentifier::decode(input, e2)?;
        let (issuer, e4) = Name::decode_optional(input, e3)?;
        let (validity_not_before, e5) = read_time(input, e4)?;
        let (validity_not_after, e6) = decode_opt_time(input, e5)?;
        let (subject, e7) = Name::decode(input, e6)?;
        let (subject_public_key_algorithm, e8) = AlgorithmIdentifier::decode(input, e7)?;
        let (subject_public_key, e9) = read_bytes(input, e8)?;
        let (extensions, e10) = Extensions::decode(input, e9)?;
        let (issuer_signature_value, e11) = read_bytes(input, e10)?;
        let c = C509Certificate {
            tbs: TbsCertificate {
                c509_certificate_type,
                certificate_serial_number,
                issuer_signature_algorithm,
                issuer,
                validity_not_before,
                validity_not_after,
                subject,
                subject_public_key_algorithm,
                subject_public_key,
                extensions,
            },
            issuer_signature_value,
        };
        assert(c.deep_view().certificate_serial_number == certificate_serial_number.deep_view());
        Ok((c, e11))
    }

    /// Encode the type, serial, issuer algorithm and issuer.
    fn encode_issuer_part(&self, buf: &mut Vec<u8>)
        requires
            self.deep_view().issuer matches Some(n) ==> name_fits(n),
        ensures
            final(buf)@ == old(buf)@ + enc_issuer_part(self.deep_view()),
    {
        proof {
            reveal(enc_issuer_part);
        }
        let tbs = &self.tbs;
        put_i32(buf, tbs.c509_certificate_type);
        let serial = serial_bytes(tbs.certificate_serial_number.as_slice());
        put_bytes(buf, serial.as_slice());
        tbs.issuer_signature_algorithm.encode(buf);
        Name::encode_optional(&tbs.issuer, buf);
    }

    /// Encode the validity period; a time before the Unix epoch has no
    /// encoding.
    fn encode_validity(&self, buf: &mut Vec<u8>) -> (r: Result<(), &'static str>)
        ensures
            r is Ok <==> (self.tbs.validity_not_before >= 0 && (self.tbs.validity_not_after matches Some(t) ==> t >= 0)),
            r is Ok ==> final(buf)@ == old(buf)@ + enc_validity(self.deep_view()),
    {
        proof {
            reveal(enc_validity);
        }
        encode_time(buf, self.tbs.validity_not_before)?;
        match self.tbs.validity_not_after {
            Some(t) => {
                encode_time(buf, t)?;
            },
            None => {
                put_null(buf);
            },
        }
        assert(buf@ =~= old(buf)@ + enc_validity(self.deep_view()));
        Ok(())
    }

    /// Encode the subject, its key algorithm and its key.
    fn encode_subject_part(&self, buf: &mut Vec<u8>)
        requires
            name_fits(self.deep_view().subject),
        ensures
            final(buf)@ == old(buf)@ + enc_subject_part(self.deep_view()),
    {
        proof {
            reveal(enc_subject_part);
        }
        let tbs = &self.tbs;
        tbs.subject.encode(buf);
        tbs.subject_public_key_algorithm.encode(buf);
        put_bytes(buf, tbs.subject_public_key.as_slice());
    }

    /// Encode the eleven fields.
    fn encode_fields(&self, buf: &mut Vec<u8>) -> (r: Result<(), &'static str>)
        requires
            certificate_fits(self.deep_view()),
        ensures
            r is Ok <==> certificate_encodes(self.deep_view()),
            r is Ok ==> final(buf)@ == old(buf)@ + enc_fields(self.deep_view()),
    {
        let ghost c = self.deep_view();
        self.encode_issuer_part(buf);
        let ghost s1 = buf@;
        self.encode_validity(buf)?;
        let ghost s2 = buf@;
        self.encode_subject_part(buf);
        let ghost s3 = buf@;
        self.tbs.extensions.encode(buf)?;
        let ghost s4 = buf@;
        put_bytes(buf, self.issuer_signature_value.as_slice());
        assert(buf@ =~= old(buf)@ + enc_fields(c));
        Ok(())
    }
}

// ------------------------------------------------------------------ laws

/// `~time / null` is read back as written, for a time a decoder accepts.
proof fn lemma_opt_time(input: Seq<u8>, pos: int, t: Option<i64>)
    requires
        t matches Some(s) ==> 0 <= s <= MAX_TIME,
        matches_at(input, pos, enc_opt_time(t)),
    ensures
        spec_opt_time(input, pos) == Ok::<(Option<i64>, int), Fault>((t, pos + enc_opt_time(t).len())),
{
    match t {
        Some(s) => lemma_time(input, pos, s),
        None => {
            assert(input[pos] == input.subrange(pos, pos + 1)[0]);
        },
    }
}

/// The first four fields are read back as written.
proof fn lemma_issuer_part(input: Seq<u8>, pos: int, c: CertificateModel)
    requires
        certificate_wf(c),
        matches_at(input, pos, enc_issuer_part(c)),
    ensures
        spec_issuer_part(input, pos) == Ok::<
            ((i32, Seq<u8>, AlgorithmIdentifierModel, Option<Seq<RdnAttributeModel>>), int),
            Fault,
        >(
            (
                (c.c509_certificate_type, c.certificate_serial_number, c.issuer_signature_algorithm, c.issuer),
                pos + enc_issuer_part(c).len(),
            ),
        ),
{
    reveal(spec_issuer_part);
    reveal(enc_issuer_part);
    let a1 = int_head(c.c509_certificate_type as int);
    let a2 = bstr(biguint_be(c.certificate_serial_number));
    let a3 = enc_algorithm(c.issuer_signature_algorithm);
    let a4 = enc_opt_name(c.issuer);
    assert(enc_issuer_part(c) =~= a1 + (a2 + (a3 + a4)));
    lemma_matches_split(input, pos, a1, a2 + (a3 + a4));
    lemma_matches_split(input, pos + a1.len(), a2, a3 + a4);
    lemma_matches_split(input, pos + a1.len() + a2.len(), a3, a4);
    lemma_int_head(input, pos, c.c509_certificate_type as int);
    lemma_bstr(input, pos + a1.len(), c.certificate_serial_number);
    lemma_algorithm(input, pos + a1.len() + a2.len(), c.issuer_signature_algorithm);
    lemma_opt_name(input, pos + a1.len() + a2.len() + a3.len(), c.issuer);
}

/// The validity period is read back as written.
proof fn lemma_validity(input: Seq<u8>, pos: int, c: CertificateModel)
    requires
        certificate_wf(c),
        matches_at(input, pos, enc_validity(c)),
    ensures
        spec_validity(input, pos) == Ok::<((i64, Option<i64>), int), Fault>(
            ((c.validity_not_before, c.validity_not_after), pos + enc_validity(c).len()),
        ),
{
    reveal(spec_validity);
    reveal(enc_validity);
    let a1 = head(0, c.validity_not_before as u64);
    lemma_matches_split(input, pos, a1, enc_opt_time(c.validity_not_after));
    lemma_time(input, pos, c.validity_not_before);
    lemma_opt_time(input, pos + a1.len(), c.validity_not_after);
}

/// The subject, its key algorithm and its key are read back as written.
proof fn lemma_subject_part(input: Seq<u8>, pos: int, c: CertificateModel)
    requires
        certificate_wf(c),
        matches_at(input, pos, enc_subject_part(c)),
    ensures
        spec_subject_part(input, pos) == Ok::<
            ((Seq<RdnAttributeModel>, AlgorithmIdentifierModel, Seq<u8>), int),
            Fault,
        >(((c.subject, c.subject_public_key_algorithm, c.subject_public_key), pos + enc_subject_part(c).len())),
{
    reveal(spec_subject_part);
    reveal(enc_subject_part);
    let a1 = enc_name(c.subject);
    let a2 = enc_algorithm(c.subject_public_key_algorithm);
    let a3 = bstr(c.subject_public_key);
    assert(enc_subject_part(c) =~= a1 + (a2 + a3));
    lemma_matches_split(input, pos, a1, a2 + a3);
    lemma_matches_split(input, pos + a1.len(), a2, a3);
    lemma_name(input, pos, c.subject);
    lemma_algorithm(input, pos + a1.len(), c.subject_public_key_algorithm);
    lemma_bstr(input, pos + a1.len() + a2.len(), c.subject_public_key);
}

/// The eleven fields are read back as written, wherever they stand.
#[verifier::spinoff_prover]
#[verifier::rlimit(40)]
pub proof fn lemma_fields(input: Seq<u8>, pos: int, c: CertificateModel)
    requires
        certificate_wf(c),
        matches_at(input, pos, enc_fields(c)),
    ensures
        spec_fields(input, pos) == Ok::<(CertificateModel, int), Fault>((c, pos + enc_fields(c).len())),
{
    let b1 = enc_issuer_part(c);
    let b2 = enc_validity(c);
    let b3 = enc_subject_part(c);
    let b4 = enc_extensions(c.extensions);
    let b5 = bstr(c.issuer_signature_value);
    assert(enc_fields(c) =~= b1 + (b2 + (b3 + (b4 + b5))));
    lemma_matches_split(input, pos, b1, b2 + (b3 + (b4 + b5)));
    lemma_matches_split(input, pos + b1.len(), b2, b3 + (b4 + b5));
    lemma_matches_split(input, pos + b1.len() + b2.len(), b3, b4 + b5);
    lemma_matches_split(input, pos + b1.len() + b2.len() + b3.len(), b4, b5);
    lemma_issuer_part(input, pos, c);
    lemma_validity(input, pos + b1.len(), c);
    lemma_subject_part(input, pos + b1.len() + b2.len(), c);
    lemma_extensions(input, pos + b1.len() + b2.len() + b3.len(), c.extensions);
    lemma_bstr(input, pos + b1.len() + b2.len() + b3.len() + b4.len(), c.issuer_signature_value);
}

/// Decode either wire form of a certificate, auto-detected from the first
/// byte, so there is nothing for a caller to disambiguate.
pub fn decode_certificate(bytes: &[u8]) -> (r: Result<C509Certificate, Error>)
    ensures
        match r {
            Ok(c) => spec_decode_either(bytes@) == Ok::<CertificateModel, Fault>(c.deep_view()),
            Err(e) => spec_decode_either(bytes@) == Err::<CertificateModel, Fault>(e.fault()),
        },
{
    match datatype(bytes, 0) {
        Ok(CborType::Array) | Ok(CborType::ArrayIndef) => C509Certificate::decode(bytes),
        _ => C509Certificate::decode_sequence(bytes),
    }
}

/// The bare CBOR Sequence of a certificate starts with an integer.
proof fn lemma_sequence_starts_with_int(c: CertificateModel)
    ensures
        spec_datatype(enc_fields(c), 0) matches Some(t) && !is_array_type(t),
{
    reveal(enc_issuer_part);
    let b = enc_fields(c);
    let t = int_head(c.c509_certificate_type as int);
    assert(b.subrange(0, t.len() as int) =~= t);
    lemma_int_head(b, 0, c.c509_certificate_type as int);
}

/// The wrapped form of a certificate starts with an array header.
proof fn lemma_wrapped_starts_with_array(c: CertificateModel)
    ensures
        spec_datatype(enc_certificate(c), 0) == Some(CborType::Array),
{
    let w = enc_certificate(c);
    let h = head(4, FIELD_COUNT);
    assert(w.subrange(0, h.len() as int) =~= h);
    crate::cbor::lemma_head_datatype(w, 0, 4, FIELD_COUNT);
}

/// Either wire form of a certificate is read back as the certificate by
/// the auto-detecting decoder ([`decode_certificate`]).
pub proof fn law_either_form_roundtrip(c: CertificateModel)
    requires
        certificate_wf(c),
    ensures
        spec_decode_either(enc_certificate(c)) == Ok::<CertificateModel, Fault>(c),
        spec_decode_either(enc_fields(c)) == Ok::<CertificateModel, Fault>(c),
{
    law_certificate_roundtrip(c);
    law_sequence_roundtrip(c);
    lemma_wrapped_starts_with_array(c);
    lemma_sequence_starts_with_int(c);
}

/// Decoding the CBOR Sequence a certificate is encoded as
/// ([`C509Certificate::encode_sequence`] read by
/// [`C509Certificate::decode_sequence`]) gives the certificate back.
pub proof fn law_sequence_roundtrip(c: CertificateModel)
    requires
        certificate_wf(c),
    ensures
        spec_decode_sequence(enc_fields(c)) == Ok::<CertificateModel, Fault>(c),
{
    let b = enc_fields(c);
    assert(b.subrange(0, b.len() as int) =~= b);
    lemma_fields(b, 0, c);
}

/// Decoding the wrapped array a certificate is encoded as
/// ([`C509Certificate::encode`] read by [`C509Certificate::decode`]) gives
/// the certificate back.
pub proof fn law_certificate_roundtrip(c: CertificateModel)
    requires
        certificate_wf(c),
    ensures
        spec_decode_certificate(enc_certificate(c)) == Ok::<CertificateModel, Fault>(c),
{
    let b = enc_certificate(c);
    let h = head(4, FIELD_COUNT);
    assert(b.subrange(0, b.len() as int) =~= b);
    lemma_matches_split(b, 0, h, enc_fields(c));
    crate::cbor::lemma_head_at(b, 0, 4, FIELD_COUNT);
    assert(b[0] != 0x9f);
    lemma_fields(b, h.len() as int, c);
}

/// The bytes of the eleven fields, in the order the CDDL gives them.
pub open spec fn cddl_layout(c: CertificateModel) -> Seq<u8> {
    int_head(c.c509_certificate_type as int) + bstr(biguint_be(c.certificate_serial_number)) + enc_algorithm(
        c.issuer_signature_algorithm,
    ) + enc_opt_name(c.issuer) + head(0, c.validity_not_before as u64) + enc_opt_time(c.validity_not_after)
        + enc_name(c.subject) + enc_algorithm(c.subject_public_key_algorithm) + bstr(c.subject_public_key)
        + enc_extensions(c.extensions) + bstr(c.issuer_signature_value)
}

/// The fields are read in the CDDL's order, each from its own position:
/// type, serial, issuer algorithm, issuer, validityNotBefore,
/// validityNotAfter, subject, subject key algorithm, subject key,
/// extensions, signature. The CBOR Sequence of those items is read as the
/// certificate that holds them there, and the encoder writes exactly that
/// sequence.
pub proof fn law_certificate_field_order(c: CertificateModel)
    requires
        certificate_wf(c),
    ensures
        spec_decode_sequence(cddl_layout(c)) == Ok::<CertificateModel, Fault>(c),
        enc_fields(c) == cddl_layout(c),
{
    reveal(enc_issuer_part);
    reveal(enc_validity);
    reveal(enc_subject_part);
    assert(enc_fields(c) =~= cddl_layout(c));
    law_sequence_roundtrip(c);
}

/// A certificate that survives encoding has one: encoding it does not fail.
pub proof fn law_wf_encodes(c: CertificateModel)
    requires
        certificate_wf(c),
    ensures
        certificate_encodes(c),
{
}

} // verus!
