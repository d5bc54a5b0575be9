//! Convert a real X.509 certificate (PEM or DER) into a
//! [`C509Certificate`], via [`from_x509`].
//!
//! Targets `c509CertificateType = 3` ("DER re-encoded"): the subject public
//! key and the signature value are carried through as opaque bytes exactly
//! as they appear in the DER certificate, with no algorithm-specific
//! repacking (no EC point compression, no RSA exponent elision, no ECDSA
//! DER `SEQUENCE(r, s)` -> raw `r‖s` conversion).
//!
//! `x509-parser` reads the DER; what the conversion needs of it is taken
//! out as plain values ([`X509Fields`]), and [`convert_fields`] turns those
//! into a certificate. Algorithm and RDN-attribute OIDs are mapped to C509
//! registry ids only for the well-known, unambiguous cases below; anything
//! else is reported as an [`Error::X509`] rather than guessed.
use vstd::prelude::*;

use crate::algorithm::{AlgorithmIdentifier, AlgorithmIdentifierModel};
use crate::cert_json::{
    dns_name_of, special_text, special_text_of, EXT_AUTHORITY_KEY_IDENTIFIER_ID, EXT_BASIC_CONSTRAINTS_ID,
    EXT_EXT_KEY_USAGE_ID, EXT_KEY_USAGE_ID, EXT_SUBJECT_ALT_NAME_ID, GENERAL_NAME_DNS,
};
use crate::certificate::{C509Certificate, CertificateModel, TbsCertificate};
use crate::common::{biguint_be, serial_bytes, IntOrOid, IntOrOidModel, RdnAttr, RdnAttrModel, RdnAttributeModel};
use crate::error::Error;
use crate::extensions::authority_key_identifier::{AuthorityKeyIdentifier, AuthorityKeyIdentifierModel};
use crate::extensions::basic_constraints::BasicConstraints;
use crate::extensions::ext_key_usage::ExtKeyUsage;
use crate::extensions::general_name::{GeneralName, GeneralNameModel, GeneralNameValue, GeneralNameValueModel};
use crate::extensions::{Extension, ExtensionModel, ExtensionValue, ExtensionValueModel, Extensions};
use crate::name::{Name, RdnAttribute};
use crate::oid::{oid_text, Oid};
use crate::registry::{public_key_algorithm_table, rdn_attribute_table, signature_algorithm_table};
use x509_parser::oid_registry::{
    OID_DOMAIN_COMPONENT, OID_EC_P256, OID_KEY_TYPE_EC_PUBLIC_KEY, OID_NIST_EC_P384, OID_NIST_EC_P521,
    OID_PKCS1_RSAENCRYPTION, OID_PKCS1_SHA256WITHRSA, OID_PKCS1_SHA384WITHRSA, OID_PKCS1_SHA512WITHRSA,
    OID_PKCS9_EMAIL_ADDRESS, OID_PKCS9_UNSTRUCTURED_NAME, OID_SIG_ECDSA_WITH_SHA256, OID_SIG_ECDSA_WITH_SHA384,
    OID_SIG_ECDSA_WITH_SHA512, OID_SIG_ED25519, OID_SIG_ED448, OID_USERID, OID_X509_BUSINESS_CATEGORY,
    OID_X509_COMMON_NAME, OID_X509_COUNTRY_NAME, OID_X509_DN_QUALIFIER, OID_X509_GENERATION_QUALIFIER,
    OID_X509_GIVEN_NAME, OID_X509_INITIALS, OID_X509_LOCALITY_NAME, OID_X509_NAME, OID_X509_ORGANIZATIONAL_UNIT,
    OID_X509_ORGANIZATION_NAME, OID_X509_POSTAL_CODE, OID_X509_SERIALNUMBER, OID_X509_STATE_OR_PROVINCE_NAME,
    OID_X509_STREET_ADDRESS, OID_X509_SURNAME, OID_X509_TITLE,
};
use x509_parser::extensions::{GeneralName as X509GeneralName, ParsedExtension};

verus! {

/// `c509CertificateType = 3`, "CBOR re-encoding of a DER-encoded
/// certificate" (Section 3.1).
pub const CERTIFICATE_TYPE_DER_REENCODED: i32 = 3;

/// `9999-12-31T23:59:59Z`, RFC 5280's "no well-defined expiration date"
/// sentinel, mapped to C509's `validityNotAfter = null`.
pub const NO_EXPIRATION_TIMESTAMP: i64 = 253_402_300_799;

/// The ASN.1 tag number of `PrintableString`.
pub const PRINTABLE_STRING_TAG: u32 = 19;

// ------------------------------------------------------------ plain values

/// One attribute of an X.509 name, as read from the DER.
pub struct X509Attribute {
    /// The attribute type's OID, as DER content octets.
    pub oid: Vec<u8>,
    /// The ASN.1 tag number of the value.
    pub tag: u32,
    /// The value as text, or why it is not text.
    pub text: Result<String, String>,
}

/// The key purposes of an `extKeyUsage` extension: those `x509-parser`
/// names, and the number of others (OID-form purposes).
pub struct KeyPurposes {
    pub any: bool,
    pub server_auth: bool,
    pub client_auth: bool,
    pub code_signing: bool,
    pub email_protection: bool,
    pub time_stamping: bool,
    pub ocsp_signing: bool,
    pub others: usize,
}

/// What the conversion reads of an X.509 certificate.
///
/// Each extension is `Ok(None)` when absent, `Ok(Some((critical, value)))`
/// when present once, and `Err(message)` when it could not be read.
pub struct X509Fields {
    /// The serial number's content octets.
    pub serial: Vec<u8>,
    /// The outer signature algorithm's OID (DER content octets).
    pub signature_algorithm: Vec<u8>,
    pub issuer: Vec<X509Attribute>,
    /// POSIX seconds.
    pub not_before: i64,
    /// POSIX seconds.
    pub not_after: i64,
    pub subject: Vec<X509Attribute>,
    /// The public key algorithm's OID (DER content octets).
    pub public_key_algorithm: Vec<u8>,
    /// The public key algorithm's parameters read as an OID (the curve of an
    /// EC key): `None` without parameters.
    pub public_key_curve: Option<Result<Vec<u8>, String>>,
    /// The public key bits.
    pub public_key: Vec<u8>,
    /// `(critical, (cA, pathLenConstraint))`.
    pub basic_constraints: Result<Option<(bool, (bool, Option<u32>))>, String>,
    /// `(critical, flags)`.
    pub key_usage: Result<Option<(bool, u16)>, String>,
    pub ext_key_usage: Result<Option<(bool, KeyPurposes)>, String>,
    /// `(critical, names)`: each name its `dNSName` text, or a description
    /// of a name of another kind.
    pub subject_alt_name: Result<Option<(bool, Vec<Result<String, String>>)>, String>,
    /// `(critical, keyIdentifier)`: the inner error where the extension's
    /// value could not be parsed.
    pub authority_key_identifier: Result<Option<(bool, Result<Option<Vec<u8>>, String>)>, String>,
    /// The signature bits.
    pub signature_value: Vec<u8>,
}

/// The model of what was read of an X.509 certificate: [`X509Fields`] with
/// its byte and attribute lists by their views.
pub struct X509Reading {
    pub serial: Seq<u8>,
    pub signature_algorithm: Seq<u8>,
    pub issuer: Seq<X509Attribute>,
    pub not_before: i64,
    pub not_after: i64,
    pub subject: Seq<X509Attribute>,
    pub public_key_algorithm: Seq<u8>,
    pub public_key_curve: Option<Result<Vec<u8>, String>>,
    pub public_key: Seq<u8>,
    pub basic_constraints: Result<Option<(bool, (bool, Option<u32>))>, String>,
    pub key_usage: Result<Option<(bool, u16)>, String>,
    pub ext_key_usage: Result<Option<(bool, KeyPurposes)>, String>,
    pub subject_alt_name: Result<Option<(bool, Vec<Result<String, String>>)>, String>,
    pub authority_key_identifier: Result<Option<(bool, Result<Option<Vec<u8>>, String>)>, String>,
    pub signature_value: Seq<u8>,
}

/// The model of the fields read.
pub open spec fn reading_of(f: X509Fields) -> X509Reading {
    X509Reading {
        serial: f.serial@,
        signature_algorithm: f.signature_algorithm@,
        issuer: f.issuer@,
        not_before: f.not_before,
        not_after: f.not_after,
        subject: f.subject@,
        public_key_algorithm: f.public_key_algorithm@,
        public_key_curve: f.public_key_curve,
        public_key: f.public_key@,
        basic_constraints: f.basic_constraints,
        key_usage: f.key_usage,
        ext_key_usage: f.ext_key_usage,
        subject_alt_name: f.subject_alt_name,
        authority_key_identifier: f.authority_key_identifier,
        signature_value: f.signature_value@,
    }
}

// ------------------------------------------------------------ byte compare

/// Whether `want` occurs in `input` at `pos`.
pub open spec fn occurs_at(input: Seq<u8>, pos: int, want: Seq<u8>) -> bool {
    0 <= pos && pos + want.len() <= input.len() && input.subrange(pos, pos + want.len()) == want
}

/// Whether the bytes `want` occur in `input` at `pos`.
pub fn bytes_at(input: &[u8], pos: usize, want: &[u8]) -> (r: bool)
    ensures
        r == occurs_at(input@, pos as int, want@),
{
    if pos > input.len() || want.len() > input.len() - pos {
        return false;
    }
    let mut i: usize = 0;
    while i < want.len()
        invariant
            i <= want@.len(),
            pos + want@.len() <= input@.len(),
            input@.len() <= usize::MAX,
            forall|k: int| 0 <= k < i ==> input@[pos + k] == want@[k],
        decreases want@.len() - i,
    {
        if input[pos + i] != want[i] {
            assert(input@.subrange(pos as int, pos + want@.len())[i as int] != want@[i as int]);
            return false;
        }
        i = i + 1;
    }
    assert(input@.subrange(pos as int, pos + want@.len()) =~= want@);
    true
}

/// Whether an OID's content octets are exactly `want`.
fn oid_is(oid: &[u8], want: &[u8]) -> (r: bool)
    ensures
        r == (oid@ == want@),
{
    if oid.len() != want.len() {
        return false;
    }
    let r = bytes_at(oid, 0, want);
    assert(oid@.subrange(0, oid@.len() as int) =~= oid@);
    r
}

/// A message about an OID: `before`, the OID's dotted text, then `after`.
fn oid_message(before: &str, oid: &[u8], after: &str) -> (r: String)
    ensures
        r@ == before@ + oid_text(oid@) + after@,
{
    let mut s = String::from_str(before);
    let text = Oid::new(vstd::slice::slice_to_vec(oid)).to_string();
    s.append(text.as_str());
    s.append(after);
    s
}

// ------------------------------------------------------------ OID tables

/// `ecdsa-with-SHA256` (1.2.840.10045.4.3.2) and its SHA-384 and SHA-512
/// siblings, by their last arc.
pub open spec fn ecdsa_with(last: u8) -> Seq<u8> {
    seq![0x2Au8, 0x86, 0x48, 0xCE, 0x3D, 0x04, 0x03, last]
}

/// `Ed25519` (1.3.101.112) and `Ed448` (1.3.101.113), by their last arc.
pub open spec fn edwards(last: u8) -> Seq<u8> {
    seq![0x2Bu8, 0x65, last]
}

/// PKCS #1 (1.2.840.113549.1.1.x): `rsaEncryption` is 1,
/// `sha256WithRSAEncryption` 11, `sha384...` 12, `sha512...` 13.
pub open spec fn pkcs1(last: u8) -> Seq<u8> {
    seq![0x2Au8, 0x86, 0x48, 0x86, 0xF7, 0x0D, 0x01, 0x01, last]
}

/// PKCS #9 attributes (1.2.840.113549.1.9.x): `emailAddress` is 1,
/// `unstructuredName` 2.
pub open spec fn pkcs9(last: u8) -> Seq<u8> {
    seq![0x2Au8, 0x86, 0x48, 0x86, 0xF7, 0x0D, 0x01, 0x09, last]
}

/// `id-ecPublicKey` (1.2.840.10045.2.1).
pub open spec fn ec_public_key() -> Seq<u8> {
    seq![0x2Au8, 0x86, 0x48, 0xCE, 0x3D, 0x02, 0x01]
}

/// The pilot attribute types (0.9.2342.19200300.100.1.x): `uid` is 1,
/// `domainComponent` 25.
pub open spec fn pilot(last: u8) -> Seq<u8> {
    seq![0x09u8, 0x92, 0x26, 0x89, 0x93, 0xF2, 0x2C, 0x64, 0x01, last]
}

/// X.520 attribute types (2.5.4.x).
pub open spec fn x520(last: u8) -> Seq<u8> {
    seq![0x55u8, 0x04, last]
}

/// The id a table gives an OID: that of its first entry with the OID;
/// `None` where no entry has it.
pub open spec fn lookup<T>(oids: Seq<Seq<u8>>, ids: Seq<T>, oid: Seq<u8>) -> Option<T>
    decreases oids.len(),
{
    if oids.len() == 0 || ids.len() == 0 {
        None
    } else if oids[0] == oid {
        Some(ids[0])
    } else {
        lookup(oids.drop_first(), ids.drop_first(), oid)
    }
}

/// The content octets of each OID of a table.
pub open spec fn octets_of(oids: Seq<Vec<u8>>) -> Seq<Seq<u8>> {
    oids.map_values(|v: Vec<u8>| v@)
}

/// Look an OID up in a table of OIDs and their ids.
fn lookup_oid<T: Copy>(oid: &[u8], oids: &Vec<Vec<u8>>, ids: &[T]) -> (r: Option<T>)
    requires
        oids@.len() == ids@.len(),
    ensures
        r == lookup(octets_of(oids@), ids@, oid@),
{
    let ghost table = octets_of(oids@);
    assert(table.skip(0) =~= table);
    assert(ids@.skip(0) =~= ids@);
    let mut i: usize = 0;
    while i < oids.len()
        invariant
            i <= oids@.len(),
            oids@.len() == ids@.len(),
            table == octets_of(oids@),
            lookup(table, ids@, oid@) == lookup(table.skip(i as int), ids@.skip(i as int), oid@),
        decreases oids@.len() - i,
    {
        let found = oid_is(oid, oids[i].as_slice());
        assert(table.skip(i as int)[0] == oids@[i as int]@);
        assert(ids@.skip(i as int)[0] == ids@[i as int]);
        if found {
            return Some(ids[i]);
        }
        assert(table.skip(i as int).drop_first() =~= table.skip(i + 1));
        assert(ids@.skip(i as int).drop_first() =~= ids@.skip(i + 1));
        i = i + 1;
    }
    assert(table.skip(i as int).len() == 0);
    None
}

/// `oid_registry`'s `OID_SIG_ECDSA_WITH_SHA256`, `..._SHA384`,
/// `..._SHA512`, `OID_SIG_ED25519`, `OID_SIG_ED448`,
/// `OID_PKCS1_SHA256WITHRSA`, `..._SHA384...` and `..._SHA512...`, in this
/// order, as DER content octets.
#[verifier::external_body]
fn signature_algorithm_oids() -> (r: Vec<Vec<u8>>)
    ensures
        octets_of(r@) == signature_oid_table(),
{
    [
        OID_SIG_ECDSA_WITH_SHA256, OID_SIG_ECDSA_WITH_SHA384, OID_SIG_ECDSA_WITH_SHA512,
        OID_SIG_ED25519, OID_SIG_ED448,
        OID_PKCS1_SHA256WITHRSA, OID_PKCS1_SHA384WITHRSA, OID_PKCS1_SHA512WITHRSA,
    ].iter().map(|o| o.as_bytes().to_vec()).collect()
}

/// The signature algorithm OIDs this converter recognizes.
pub open spec fn signature_oid_table() -> Seq<Seq<u8>> {
    seq![ecdsa_with(2), ecdsa_with(3), ecdsa_with(4), edwards(112), edwards(113), pkcs1(11), pkcs1(12), pkcs1(13)]
}

/// Section 8.14 "C509 Signature Algorithms Registry" ids of the signature
/// algorithms this converter recognizes: ecdsa-with-SHA256/384/512 0, 1, 2,
/// Ed25519 12, Ed448 13, sha256/384/512WithRSAEncryption 23, 24, 25.
pub open spec fn signature_algorithm_of(oid: Seq<u8>) -> Option<i32> {
    lookup(signature_oid_table(), seq![0i32, 1, 2, 12, 13, 23, 24, 25], oid)
}

/// The registry id of a signature algorithm OID this converter recognizes.
pub fn signature_algorithm_id(oid: &[u8]) -> (r: Option<i32>)
    ensures
        r == signature_algorithm_of(oid@),
{
    let oids = signature_algorithm_oids();
    let ids: [i32; 8] = [0, 1, 2, 12, 13, 23, 24, 25];
    assert(ids@ =~= seq![0i32, 1, 2, 12, 13, 23, 24, 25]);
    lookup_oid(oid, &oids, ids.as_slice())
}

/// `oid_registry`'s `OID_EC_P256`, `OID_NIST_EC_P384` and
/// `OID_NIST_EC_P521`, in this order, as DER content octets.
#[verifier::external_body]
fn curve_oids() -> (r: Vec<Vec<u8>>)
    ensures
        octets_of(r@) == curve_oid_table(),
{
    [OID_EC_P256, OID_NIST_EC_P384, OID_NIST_EC_P521].iter().map(|o| o.as_bytes().to_vec()).collect()
}

/// The curves this converter recognizes for `id-ecPublicKey`: P-256
/// (1.2.840.10045.3.1.7), P-384 (1.3.132.0.34), P-521 (1.3.132.0.35).
pub open spec fn curve_oid_table() -> Seq<Seq<u8>> {
    seq![
        seq![0x2Au8, 0x86, 0x48, 0xCE, 0x3D, 0x03, 0x01, 0x07],
        seq![0x2Bu8, 0x81, 0x04, 0x00, 0x22],
        seq![0x2Bu8, 0x81, 0x04, 0x00, 0x23],
    ]
}

/// The registry ids of the curves this converter recognizes: P-256 1,
/// P-384 2, P-521 3.
pub open spec fn curve_of(oid: Seq<u8>) -> Option<i32> {
    lookup(curve_oid_table(), seq![1i32, 2, 3], oid)
}

/// `oid_registry`'s `OID_PKCS1_RSAENCRYPTION`, `OID_SIG_ED25519` and
/// `OID_SIG_ED448`, in this order, as DER content octets.
#[verifier::external_body]
fn public_key_algorithm_oids() -> (r: Vec<Vec<u8>>)
    ensures
        octets_of(r@) == public_key_oid_table(),
{
    [OID_PKCS1_RSAENCRYPTION, OID_SIG_ED25519, OID_SIG_ED448].iter().map(|o| o.as_bytes().to_vec()).collect()
}

/// `oid_registry`'s `OID_KEY_TYPE_EC_PUBLIC_KEY`, as DER content octets.
#[verifier::external_body]
fn ec_public_key_oid() -> (r: Vec<u8>)
    ensures
        r@ == ec_public_key(),
{
    OID_KEY_TYPE_EC_PUBLIC_KEY.as_bytes().to_vec()
}

/// The public key algorithm OIDs this converter recognizes without
/// parameters.
pub open spec fn public_key_oid_table() -> Seq<Seq<u8>> {
    seq![pkcs1(1), edwards(112), edwards(113)]
}

/// Section 8.15 "C509 Public Key Algorithms Registry" ids of the public key
/// algorithms this converter recognizes: rsaEncryption 0, Ed25519 12,
/// Ed448 13, and an EC key by its curve, which its parameters must name.
pub open spec fn public_key_algorithm_of(oid: Seq<u8>, curve: Option<Result<Vec<u8>, String>>) -> Option<i32> {
    match lookup(public_key_oid_table(), seq![0i32, 12, 13], oid) {
        Some(id) => Some(id),
        None => if oid == ec_public_key() {
            match curve {
                Some(Ok(c)) => curve_of(c@),
                _ => None,
            }
        } else {
            None
        },
    }
}

/// The registry id of the subject public key algorithm; an error where this
/// converter does not recognize it, or where an EC key's parameters do not
/// name a curve it recognizes.
pub fn public_key_algorithm_id(oid: &[u8], curve: &Option<Result<Vec<u8>, String>>) -> (r: Result<i32, Error>)
    ensures
        match r {
            Ok(id) => public_key_algorithm_of(oid@, *curve) == Some(id),
            Err(e) => public_key_algorithm_of(oid@, *curve) is None && e is X509,
        },
{
    let table = public_key_algorithm_oids();
    let ids: [i32; 3] = [0, 12, 13];
    assert(ids@ =~= seq![0i32, 12, 13]);
    if let Some(id) = lookup_oid(oid, &table, ids.as_slice()) {
        return Ok(id);
    }
    let ec = ec_public_key_oid();
    if oid_is(oid, ec.as_slice()) {
        match curve {
            None => Err(Error::X509("subjectPublicKeyAlgorithm: EC key is missing its curve OID".to_owned())),
            Some(Err(e)) => Err(Error::X509(e.clone())),
            Some(Ok(c)) => {
                let curves = curve_oids();
                let curve_ids: [i32; 3] = [1, 2, 3];
                assert(curve_ids@ =~= seq![1i32, 2, 3]);
                match lookup_oid(c.as_slice(), &curves, curve_ids.as_slice()) {
                    Some(id) => Ok(id),
                    None => Err(
                        Error::X509(
                            oid_message(
                                "subjectPublicKeyAlgorithm: unrecognized EC curve OID ",
                                c.as_slice(),
                                " (this converter only knows P-256/P-384/P-521)",
                            ),
                        ),
                    ),
                }
            },
        }
    } else {
        Err(
            Error::X509(
                oid_message(
                    "subjectPublicKeyAlgorithm: unrecognized OID ",
                    oid,
                    " (this converter only knows a handful of common algorithms)",
                ),
            ),
        )
    }
}

/// `oid_registry`'s `OID_PKCS9_EMAIL_ADDRESS`, `OID_X509_COMMON_NAME`,
/// `OID_X509_SURNAME`, `OID_X509_SERIALNUMBER`, `OID_X509_COUNTRY_NAME`,
/// `OID_X509_LOCALITY_NAME`, `OID_X509_STATE_OR_PROVINCE_NAME`,
/// `OID_X509_STREET_ADDRESS`, `OID_X509_ORGANIZATION_NAME`,
/// `OID_X509_ORGANIZATIONAL_UNIT`, `OID_X509_TITLE`,
/// `OID_X509_BUSINESS_CATEGORY`, `OID_X509_POSTAL_CODE`,
/// `OID_X509_GIVEN_NAME`, `OID_X509_INITIALS`,
/// `OID_X509_GENERATION_QUALIFIER`, `OID_X509_DN_QUALIFIER`,
/// `OID_DOMAIN_COMPONENT`, `OID_X509_NAME`, `OID_USERID` and
/// `OID_PKCS9_UNSTRUCTURED_NAME`, in this order, as DER content octets.
#[verifier::external_body]
fn rdn_attribute_oids() -> (r: Vec<Vec<u8>>)
    ensures
        octets_of(r@) == rdn_oid_table(),
{
    [
        OID_PKCS9_EMAIL_ADDRESS, OID_X509_COMMON_NAME, OID_X509_SURNAME, OID_X509_SERIALNUMBER,
        OID_X509_COUNTRY_NAME, OID_X509_LOCALITY_NAME, OID_X509_STATE_OR_PROVINCE_NAME,
        OID_X509_STREET_ADDRESS, OID_X509_ORGANIZATION_NAME, OID_X509_ORGANIZATIONAL_UNIT,
        OID_X509_TITLE, OID_X509_BUSINESS_CATEGORY, OID_X509_POSTAL_CODE, OID_X509_GIVEN_NAME,
        OID_X509_INITIALS, OID_X509_GENERATION_QUALIFIER, OID_X509_DN_QUALIFIER,
        OID_DOMAIN_COMPONENT, OID_X509_NAME, OID_USERID, OID_PKCS9_UNSTRUCTURED_NAME,
    ].iter().map(|o| o.as_bytes().to_vec()).collect()
}

/// The name attribute OIDs this converter recognizes: emailAddress,
/// commonName, surname, serialNumber, countryName, localityName,
/// stateOrProvinceName, streetAddress, organizationName,
/// organizationalUnitName, title, businessCategory, postalCode, givenName,
/// initials, generationQualifier, dnQualifier, domainComponent, name, uid,
/// unstructuredName.
pub open spec fn rdn_oid_table() -> Seq<Seq<u8>> {
    seq![
        pkcs9(1), x520(3), x520(4), x520(5), x520(6), x520(7), x520(8), x520(9), x520(10), x520(11),
        x520(12), x520(15), x520(17), x520(42), x520(43), x520(44), x520(46), pilot(25), x520(41),
        pilot(1), pkcs9(2),
    ]
}

/// Section 8.6 "C509 RDN Attributes Registry" ids of the entries of
/// `rdn_oid_table`, in its order.
pub open spec fn rdn_id_table() -> Seq<u16> {
    seq![0u16, 1, 2, 3, 4, 5, 6, 7, 8, 9, 10, 11, 12, 13, 14, 15, 16, 22, 25, 28, 29]
}

/// The registry id of a name attribute OID this converter recognizes.
pub open spec fn rdn_attribute_of(oid: Seq<u8>) -> Option<u16> {
    lookup(rdn_oid_table(), rdn_id_table(), oid)
}

/// The registry id of a name attribute OID this converter recognizes.
pub fn rdn_attribute_id(oid: &[u8]) -> (r: Option<u16>)
    ensures
        r == rdn_attribute_of(oid@),
{
    let oids = rdn_attribute_oids();
    let ids: [u16; 21] = [0, 1, 2, 3, 4, 5, 6, 7, 8, 9, 10, 11, 12, 13, 14, 15, 16, 22, 25, 28, 29];
    assert(ids@ =~= rdn_id_table());
    lookup_oid(oid, &oids, ids.as_slice())
}

// ------------------------------------------------------------ conversion

/// The `extKeyUsage` entry for `id` where `present`, else none.
pub open spec fn purpose(present: bool, id: i32) -> Seq<IntOrOidModel> {
    if present {
        seq![IntOrOidModel::Int(id)]
    } else {
        Seq::empty()
    }
}

/// Section 8.12 "C509 Extended Key Usages Registry" ids of the named key
/// purposes, in this order: anyExtendedKeyUsage 0, serverAuth 1,
/// clientAuth 2, codeSigning 3, emailProtection 4, timeStamping 8,
/// OCSPSigning 9.
pub open spec fn key_purposes_of(p: KeyPurposes) -> Seq<IntOrOidModel> {
    purpose(p.any, 0) + purpose(p.server_auth, 1) + purpose(p.client_auth, 2) + purpose(p.code_signing, 3)
        + purpose(p.email_protection, 4) + purpose(p.time_stamping, 8) + purpose(p.ocsp_signing, 9)
}

/// Whether the key purpose with registry id `id` is set in `p`.
pub open spec fn purpose_set(p: KeyPurposes, id: int) -> bool {
    if id == 0 {
        p.any
    } else if id == 1 {
        p.server_auth
    } else if id == 2 {
        p.client_auth
    } else if id == 3 {
        p.code_signing
    } else if id == 4 {
        p.email_protection
    } else if id == 8 {
        p.time_stamping
    } else if id == 9 {
        p.ocsp_signing
    } else {
        false
    }
}

/// How many of the named key purposes are set in `p`.
pub open spec fn purposes_set_count(p: KeyPurposes) -> int {
    (if p.any { 1int } else { 0 }) + (if p.server_auth { 1int } else { 0 }) + (if p.client_auth { 1int } else { 0 })
        + (if p.code_signing { 1int } else { 0 }) + (if p.email_protection { 1int } else { 0 }) + (if p.time_stamping {
        1int
    } else {
        0
    }) + (if p.ocsp_signing { 1int } else { 0 })
}

/// Registry ids in `[lo, hi)`, strictly increasing, each one of a purpose
/// set in `p`.
pub open spec fn ranked_purposes(s: Seq<IntOrOidModel>, p: KeyPurposes, lo: int, hi: int) -> bool {
    &&& forall|k: int| 0 <= k < s.len() ==> (#[trigger] s[k]) is Int && lo <= s[k]->Int_0 < hi && purpose_set(p, s[k]->Int_0 as int)
    &&& forall|i: int, j: int| 0 <= i < j < s.len() ==> (#[trigger] s[i])->Int_0 < (#[trigger] s[j])->Int_0
}

proof fn lemma_ranked_concat(a: Seq<IntOrOidModel>, b: Seq<IntOrOidModel>, p: KeyPurposes, lo: int, mid: int, hi: int)
    requires
        lo <= mid <= hi,
        ranked_purposes(a, p, lo, mid),
        ranked_purposes(b, p, mid, hi),
    ensures
        ranked_purposes(a + b, p, lo, hi),
{
    let s = a + b;
    assert forall|k: int| 0 <= k < s.len() implies (#[trigger] s[k]) is Int && lo <= s[k]->Int_0 < hi && purpose_set(p, s[k]->Int_0 as int) by {
        if k < a.len() {
            assert(s[k] == a[k]);
        } else {
            assert(s[k] == b[k - a.len()]);
        }
    }
    assert forall|i: int, j: int| 0 <= i < j < s.len() implies (#[trigger] s[i])->Int_0 < (#[trigger] s[j])->Int_0 by {
        if j < a.len() {
            assert(s[i] == a[i] && s[j] == a[j]);
        } else if i >= a.len() {
            assert(s[i] == b[i - a.len()] && s[j] == b[j - a.len()]);
        } else {
            assert(s[i] == a[i] && s[j] == b[j - a.len()]);
        }
    }
}

/// The `extKeyUsage` entries of the named key purposes are exactly those
/// set, one each, in increasing registry id order.
pub proof fn law_key_purposes(p: KeyPurposes)
    ensures
        key_purposes_of(p).len() == purposes_set_count(p),
        ranked_purposes(key_purposes_of(p), p, 0, 10),
{
    let s0 = purpose(p.any, 0);
    let s1 = purpose(p.server_auth, 1);
    let s2 = purpose(p.client_auth, 2);
    let s3 = purpose(p.code_signing, 3);
    let s4 = purpose(p.email_protection, 4);
    let s8 = purpose(p.time_stamping, 8);
    let s9 = purpose(p.ocsp_signing, 9);
    assert(ranked_purposes(s0, p, 0, 1));
    assert(ranked_purposes(s1, p, 1, 2));
    assert(ranked_purposes(s2, p, 2, 3));
    assert(ranked_purposes(s3, p, 3, 4));
    assert(ranked_purposes(s4, p, 4, 5));
    assert(ranked_purposes(s8, p, 5, 9));
    assert(ranked_purposes(s9, p, 9, 10));
    lemma_ranked_concat(s0, s1, p, 0, 1, 2);
    lemma_ranked_concat(s0 + s1, s2, p, 0, 2, 3);
    lemma_ranked_concat(s0 + s1 + s2, s3, p, 0, 3, 4);
    lemma_ranked_concat(s0 + s1 + s2 + s3, s4, p, 0, 4, 5);
    lemma_ranked_concat(s0 + s1 + s2 + s3 + s4, s8, p, 0, 5, 9);
    lemma_ranked_concat(s0 + s1 + s2 + s3 + s4 + s8, s9, p, 0, 9, 10);
}

/// Push the entry for `id` when `present`.
fn push_if(v: &mut Vec<IntOrOid>, present: bool, id: i32)
    ensures
        final(v).deep_view() == old(v).deep_view() + purpose(present, id),
{
    if present {
        let ghost before = v.deep_view();
        v.push(IntOrOid::Int(id));
        assert(v.deep_view() =~= before + purpose(present, id));
    } else {
        assert(v.deep_view() =~= v.deep_view() + purpose(present, id));
    }
}

/// The key purpose ids of `p`, as `extKeyUsage` entries.
pub fn extended_key_usage_ids(p: &KeyPurposes) -> (r: Vec<IntOrOid>)
    ensures
        r.deep_view() == key_purposes_of(*p),
{
    let mut v: Vec<IntOrOid> = Vec::new();
    push_if(&mut v, p.any, 0);
    assert(v.deep_view() =~= purpose(p.any, 0));
    push_if(&mut v, p.server_auth, 1);
    push_if(&mut v, p.client_auth, 2);
    push_if(&mut v, p.code_signing, 3);
    push_if(&mut v, p.email_protection, 4);
    push_if(&mut v, p.time_stamping, 8);
    push_if(&mut v, p.ocsp_signing, 9);
    v
}

/// The C509 attribute an X.509 name attribute becomes: a registered
/// attribute, printableString where the value was tagged so, whose value is
/// a MAC address where the text reads as one; `None` where the attribute
/// type is not recognized or the value is not text.
pub open spec fn x509_attribute_of(a: X509Attribute) -> Option<RdnAttributeModel> {
    match (rdn_attribute_of(a.oid@), a.text) {
        (Some(id), Ok(t)) => Some(
            RdnAttrModel::Registered { id, printable_string: a.tag == PRINTABLE_STRING_TAG, value: special_text_of(t@) },
        ),
        _ => None,
    }
}

/// The C509 name an X.509 name becomes: its attributes in turn; `None`
/// where one of them has none.
pub open spec fn x509_name_of(attrs: Seq<X509Attribute>) -> Option<Seq<RdnAttributeModel>> {
    if forall|i: int| 0 <= i < attrs.len() ==> (#[trigger] x509_attribute_of(attrs[i])) is Some {
        Some(Seq::new(attrs.len(), |i: int| x509_attribute_of(attrs[i])->Some_0))
    } else {
        None
    }
}

/// Convert the attributes of an X.509 name.
pub fn name_to_rdn(attrs: &Vec<X509Attribute>) -> (r: Result<Name, Error>)
    ensures
        match r {
            Ok(n) => x509_name_of(attrs@) == Some(n.deep_view()),
            Err(e) => x509_name_of(attrs@) is None && e is X509,
        },
{
    let mut v: Vec<RdnAttribute> = Vec::new();
    let mut i: usize = 0;
    while i < attrs.len()
        invariant
            i <= attrs@.len(),
            forall|k: int| 0 <= k < i ==> (#[trigger] x509_attribute_of(attrs@[k])) is Some,
            v.deep_view() =~= Seq::new(i as nat, |k: int| x509_attribute_of(attrs@[k])->Some_0),
        decreases attrs@.len() - i,
    {
        let a = &attrs[i];
        let id = match rdn_attribute_id(a.oid.as_slice()) {
            Some(id) => id,
            None => {
                assert(x509_attribute_of(attrs@[i as int]) is None);
                return Err(
                    Error::X509(oid_message("name attribute OID ", a.oid.as_slice(), " isn't supported by this converter")),
                );
            },
        };
        let value = match &a.text {
            Ok(t) => special_text(t.as_str()),
            Err(e) => {
                assert(x509_attribute_of(attrs@[i as int]) is None);
                return Err(Error::X509(e.clone()));
            },
        };
        let ghost before = v.deep_view();
        v.push(RdnAttr::Registered { id, printable_string: a.tag == PRINTABLE_STRING_TAG, value });
        assert(v.deep_view() =~= before.push(x509_attribute_of(attrs@[i as int])->Some_0));
        i = i + 1;
    }
    let n = Name(v);
    assert(n.deep_view() =~= Seq::new(attrs@.len(), |k: int| x509_attribute_of(attrs@[k])->Some_0));
    Ok(n)
}

/// The `basicConstraints` extension the X.509 one becomes, if present.
pub open spec fn basic_constraints_part(x: Result<Option<(bool, (bool, Option<u32>))>, String>) -> Option<Seq<ExtensionModel>> {
    match x {
        Err(_) => None,
        Ok(None) => Some(Seq::empty()),
        Ok(Some((critical, (ca, path_len)))) => Some(
            seq![
                ExtensionModel {
                    id: IntOrOidModel::Int(EXT_BASIC_CONSTRAINTS_ID),
                    critical,
                    value: ExtensionValueModel::BasicConstraints(
                        if ca {
                            BasicConstraints::Ca { path_len }
                        } else {
                            BasicConstraints::NotCa
                        },
                    ),
                },
            ],
        ),
    }
}

/// The `keyUsage` extension the X.509 one becomes, if present: its flags
/// as an unsigned integer.
pub open spec fn key_usage_part(x: Result<Option<(bool, u16)>, String>) -> Option<Seq<ExtensionModel>> {
    match x {
        Err(_) => None,
        Ok(None) => Some(Seq::empty()),
        Ok(Some((critical, flags))) => Some(
            seq![
                ExtensionModel {
                    id: IntOrOidModel::Int(EXT_KEY_USAGE_ID),
                    critical,
                    value: ExtensionValueModel::KeyUsage(flags as u32),
                },
            ],
        ),
    }
}

/// The `extKeyUsage` extension the X.509 one becomes, if present; `None`
/// where it has OID-form purposes, which this converter does not carry.
pub open spec fn ext_key_usage_part(x: Result<Option<(bool, KeyPurposes)>, String>) -> Option<Seq<ExtensionModel>> {
    match x {
        Err(_) => None,
        Ok(None) => Some(Seq::empty()),
        Ok(Some((critical, p))) => if p.others > 0 {
            None
        } else {
            Some(
                seq![
                    ExtensionModel {
                        id: IntOrOidModel::Int(EXT_EXT_KEY_USAGE_ID),
                        critical,
                        value: ExtensionValueModel::ExtKeyUsage(key_purposes_of(p)),
                    },
                ],
            )
        },
    }
}

/// The `subjectAltName` extension the X.509 one becomes, if present;
/// `None` where one of its names is not a `dNSName`.
pub open spec fn subject_alt_name_part(x: Result<Option<(bool, Vec<Result<String, String>>)>, String>) -> Option<Seq<ExtensionModel>> {
    match x {
        Err(_) => None,
        Ok(None) => Some(Seq::empty()),
        Ok(Some((critical, names))) => if forall|i: int| 0 <= i < names@.len() ==> (#[trigger] names@[i]) is Ok {
            Some(
                seq![
                    ExtensionModel {
                        id: IntOrOidModel::Int(EXT_SUBJECT_ALT_NAME_ID),
                        critical,
                        value: ExtensionValueModel::SubjectAltName(
                            Seq::new(names@.len(), |i: int| dns_name_of(names@[i]->Ok_0@)),
                        ),
                    },
                ],
            )
        } else {
            None
        },
    }
}

/// The `authorityKeyIdentifier` extension the X.509 one becomes, if
/// present; `None` where its value could not be parsed or lacks the
/// `keyIdentifier`, the only form this converter carries.
pub open spec fn authority_key_identifier_part(x: Result<Option<(bool, Result<Option<Vec<u8>>, String>)>, String>) -> Option<Seq<ExtensionModel>> {
    match x {
        Err(_) => None,
        Ok(None) => Some(Seq::empty()),
        Ok(Some((critical, Ok(Some(k))))) => Some(
            seq![
                ExtensionModel {
                    id: IntOrOidModel::Int(EXT_AUTHORITY_KEY_IDENTIFIER_ID),
                    critical,
                    value: ExtensionValueModel::AuthorityKeyIdentifier(
                        AuthorityKeyIdentifierModel { key_identifier: k@, cert_issuer: None, cert_serial: None },
                    ),
                },
            ],
        ),
        Ok(Some(_)) => None,
    }
}

/// The C509 extensions of an X.509 certificate: basicConstraints,
/// keyUsage, extKeyUsage, subjectAltName and authorityKeyIdentifier, in
/// this order, those present; `None` where one of them cannot be carried.
pub open spec fn x509_extensions_of(f: X509Reading) -> Option<Seq<ExtensionModel>> {
    match (
        basic_constraints_part(f.basic_constraints),
        key_usage_part(f.key_usage),
        ext_key_usage_part(f.ext_key_usage),
        subject_alt_name_part(f.subject_alt_name),
        authority_key_identifier_part(f.authority_key_identifier),
    ) {
        (Some(a), Some(b), Some(c), Some(d), Some(e)) => Some(a + b + c + d + e),
        _ => None,
    }
}

/// Append the `basicConstraints` extension, if present.
fn push_basic_constraints(exts: &mut Vec<Extension>, x: &Result<Option<(bool, (bool, Option<u32>))>, String>) -> (r: Result<(), Error>)
    ensures
        match r {
            Ok(()) => basic_constraints_part(*x) matches Some(p) && final(exts).deep_view() == old(exts).deep_view() + p,
            Err(e) => basic_constraints_part(*x) is None && e is X509,
        },
{
    match x {
        Err(e) => Err(Error::X509(e.clone())),
        Ok(None) => {
            assert(exts.deep_view() =~= exts.deep_view() + Seq::<ExtensionModel>::empty());
            Ok(())
        },
        Ok(Some((critical, (ca, path_len)))) => {
            let value = if *ca {
                BasicConstraints::Ca { path_len: *path_len }
            } else {
                BasicConstraints::NotCa
            };
            let ghost before = exts.deep_view();
            exts.push(Extension {
                id: IntOrOid::Int(EXT_BASIC_CONSTRAINTS_ID),
                critical: *critical,
                value: ExtensionValue::BasicConstraints(value),
            });
            assert(exts.deep_view() =~= before + basic_constraints_part(*x)->Some_0);
            Ok(())
        },
    }
}

/// Append the `keyUsage` extension, if present.
fn push_key_usage(exts: &mut Vec<Extension>, x: &Result<Option<(bool, u16)>, String>) -> (r: Result<(), Error>)
    ensures
        match r {
            Ok(()) => key_usage_part(*x) matches Some(p) && final(exts).deep_view() == old(exts).deep_view() + p,
            Err(e) => key_usage_part(*x) is None && e is X509,
        },
{
    match x {
        Err(e) => Err(Error::X509(e.clone())),
        Ok(None) => {
            assert(exts.deep_view() =~= exts.deep_view() + Seq::<ExtensionModel>::empty());
            Ok(())
        },
        Ok(Some((critical, flags))) => {
            let ghost before = exts.deep_view();
            exts.push(Extension {
                id: IntOrOid::Int(EXT_KEY_USAGE_ID),
                critical: *critical,
                value: ExtensionValue::KeyUsage(*flags as u32),
            });
            assert(exts.deep_view() =~= before + key_usage_part(*x)->Some_0);
            Ok(())
        },
    }
}

/// Append the `extKeyUsage` extension, if present.
fn push_ext_key_usage(exts: &mut Vec<Extension>, x: &Result<Option<(bool, KeyPurposes)>, String>) -> (r: Result<(), Error>)
    ensures
        match r {
            Ok(()) => ext_key_usage_part(*x) matches Some(p) && final(exts).deep_view() == old(exts).deep_view() + p,
            Err(e) => ext_key_usage_part(*x) is None && e is X509,
        },
{
    match x {
        Err(e) => Err(Error::X509(e.clone())),
        Ok(None) => {
            assert(exts.deep_view() =~= exts.deep_view() + Seq::<ExtensionModel>::empty());
            Ok(())
        },
        Ok(Some((critical, p))) => {
            if p.others > 0 {
                return Err(Error::X509(
                    "extKeyUsage: OID-form KeyPurposeIds aren't supported by this converter".to_owned(),
                ));
            }
            let ids = extended_key_usage_ids(p);
            let ghost before = exts.deep_view();
            exts.push(Extension {
                id: IntOrOid::Int(EXT_EXT_KEY_USAGE_ID),
                critical: *critical,
                value: ExtensionValue::ExtKeyUsage(ExtKeyUsage(ids)),
            });
            assert(exts.deep_view() =~= before + ext_key_usage_part(*x)->Some_0);
            Ok(())
        },
    }
}

/// Append the `subjectAltName` extension, if present.
#[verifier::spinoff_prover]
#[verifier::rlimit(20)]
fn push_subject_alt_name(exts: &mut Vec<Extension>, x: &Result<Option<(bool, Vec<Result<String, String>>)>, String>) -> (r: Result<(), Error>)
    ensures
        match r {
            Ok(()) => subject_alt_name_part(*x) matches Some(p) && final(exts).deep_view() == old(exts).deep_view() + p,
            Err(e) => subject_alt_name_part(*x) is None && e is X509,
        },
{
    match x {
        Err(e) => Err(Error::X509(e.clone())),
        Ok(None) => {
            assert(exts.deep_view() =~= exts.deep_view() + Seq::<ExtensionModel>::empty());
            Ok(())
        },
        Ok(Some((critical, names))) => {
            let mut v: Vec<GeneralName> = Vec::new();
            let mut i: usize = 0;
            while i < names.len()
                invariant
                    *x == Ok::<Option<(bool, Vec<Result<String, String>>)>, String>(Some((*critical, *names))),
                    i <= names@.len(),
                    forall|k: int| 0 <= k < i ==> (#[trigger] names@[k]) is Ok,
                    v.deep_view() =~= Seq::new(i as nat, |k: int| dns_name_of(names@[k]->Ok_0@)),
                decreases names@.len() - i,
            {
                match &names[i] {
                    Ok(s) => {
                        let ghost before = v.deep_view();
                        v.push(GeneralName { kind: GENERAL_NAME_DNS, value: GeneralNameValue::DnsName(s.as_str().to_owned()) });
                        assert(v.deep_view() =~= before.push(dns_name_of(names@[i as int]->Ok_0@)));
                    },
                    Err(e) => {
                        assert(!(names@[i as int] is Ok));
                        assert(subject_alt_name_part(*x) is None);
                        let mut msg = String::from_str(
                            "subjectAltName: only dNSName entries are supported by this converter, found ",
                        );
                        msg.append(e.as_str());
                        return Err(Error::X509(msg));
                    },
                }
                i = i + 1;
            }
            let ghost before = exts.deep_view();
            let x509_names: Ghost<Seq<GeneralNameModel>> = Ghost(v.deep_view());
            exts.push(Extension {
                id: IntOrOid::Int(EXT_SUBJECT_ALT_NAME_ID),
                critical: *critical,
                value: ExtensionValue::SubjectAltName(v),
            });
            assert(x509_names@ =~= Seq::new(names@.len(), |k: int| dns_name_of(names@[k]->Ok_0@)));
            assert(exts.deep_view() =~= before + subject_alt_name_part(*x)->Some_0);
            Ok(())
        },
    }
}

/// Append the `authorityKeyIdentifier` extension, if present.
fn push_authority_key_identifier(exts: &mut Vec<Extension>, x: &Result<Option<(bool, Result<Option<Vec<u8>>, String>)>, String>) -> (r: Result<(), Error>)
    ensures
        match r {
            Ok(()) => authority_key_identifier_part(*x) matches Some(p) && final(exts).deep_view() == old(exts).deep_view() + p,
            Err(e) => authority_key_identifier_part(*x) is None && e is X509,
        },
{
    match x {
        Err(e) => Err(Error::X509(e.clone())),
        Ok(None) => {
            assert(exts.deep_view() =~= exts.deep_view() + Seq::<ExtensionModel>::empty());
            Ok(())
        },
        Ok(Some((_, Err(e)))) => {
            let mut msg = String::from_str("authorityKeyIdentifier: could not parse this extension's form (");
            msg.append(e.as_str());
            msg.append(")");
            Err(Error::X509(msg))
        },
        Ok(Some((_, Ok(None)))) => Err(Error::X509(
            "authorityKeyIdentifier: only the keyIdentifier form is supported by this converter".to_owned(),
        )),
        Ok(Some((critical, Ok(Some(k))))) => {
            let ghost before = exts.deep_view();
            exts.push(Extension {
                id: IntOrOid::Int(EXT_AUTHORITY_KEY_IDENTIFIER_ID),
                critical: *critical,
                value: ExtensionValue::AuthorityKeyIdentifier(
                    AuthorityKeyIdentifier { key_identifier: k.clone(), cert_issuer: None, cert_serial: None },
                ),
            });
            assert(exts.deep_view() =~= before + authority_key_identifier_part(*x)->Some_0);
            Ok(())
        },
    }
}

/// The C509 certificate an X.509 certificate becomes (type 3, "DER
/// re-encoded"): its serial as a magnitude, its algorithms by registry id,
/// its names attribute by attribute, the "no expiration" sentinel as no
/// `validityNotAfter`, its key and signature bits as they are, and the
/// extensions this converter carries; `None` where an algorithm, a name
/// attribute or an extension cannot be carried.
pub open spec fn x509_certificate_of(f: X509Reading) -> Option<CertificateModel> {
    match (
        x509_extensions_of(f),
        signature_algorithm_of(f.signature_algorithm),
        x509_name_of(f.issuer),
        x509_name_of(f.subject),
        public_key_algorithm_of(f.public_key_algorithm, f.public_key_curve),
    ) {
        (Some(extensions), Some(sig), Some(issuer), Some(subject), Some(pk)) => Some(
            CertificateModel {
                c509_certificate_type: CERTIFICATE_TYPE_DER_REENCODED,
                certificate_serial_number: biguint_be(f.serial),
                issuer_signature_algorithm: AlgorithmIdentifierModel::Int(sig),
                issuer: Some(issuer),
                validity_not_before: f.not_before,
                validity_not_after: if f.not_after == NO_EXPIRATION_TIMESTAMP {
                    None
                } else {
                    Some(f.not_after)
                },
                subject,
                subject_public_key_algorithm: AlgorithmIdentifierModel::Int(pk),
                subject_public_key: f.public_key,
                extensions,
                issuer_signature_value: f.signature_value,
            },
        ),
        _ => None,
    }
}

/// Convert what was read of an X.509 certificate into a C509 certificate.
#[verifier::spinoff_prover]
#[verifier::rlimit(20)]
pub fn convert_fields(f: X509Fields) -> (r: Result<C509Certificate, Error>)
    ensures
        match r {
            Ok(c) => x509_certificate_of(reading_of(f)) == Some(c.deep_view()),
            Err(e) => x509_certificate_of(reading_of(f)) is None && e is X509,
        },
{
    let ghost g = reading_of(f);
    let mut exts: Vec<Extension> = Vec::new();
    push_basic_constraints(&mut exts, &f.basic_constraints)?;
    assert(exts.deep_view() =~= basic_constraints_part(g.basic_constraints)->Some_0);
    push_key_usage(&mut exts, &f.key_usage)?;
    push_ext_key_usage(&mut exts, &f.ext_key_usage)?;
    push_subject_alt_name(&mut exts, &f.subject_alt_name)?;
    push_authority_key_identifier(&mut exts, &f.authority_key_identifier)?;
    assert(x509_extensions_of(g) == Some(exts.deep_view()));
    let sig = match signature_algorithm_id(f.signature_algorithm.as_slice()) {
        Some(id) => id,
        None => {
            return Err(
                Error::X509(
                    oid_message(
                        "issuerSignatureAlgorithm: unrecognized OID ",
                        f.signature_algorithm.as_slice(),
                        " (this converter only knows a handful of common algorithms)",
                    ),
                ),
            );
        },
    };
    let issuer = name_to_rdn(&f.issuer)?;
    let subject = name_to_rdn(&f.subject)?;
    let pk = public_key_algorithm_id(f.public_key_algorithm.as_slice(), &f.public_key_curve)?;
    let validity_not_after = if f.not_after == NO_EXPIRATION_TIMESTAMP {
        None
    } else {
        Some(f.not_after)
    };
    let c = C509Certificate {
        tbs: TbsCertificate {
            c509_certificate_type: CERTIFICATE_TYPE_DER_REENCODED,
            certificate_serial_number: serial_bytes(f.serial.as_slice()),
            issuer_signature_algorithm: AlgorithmIdentifier::Int(sig),
            issuer: Some(issuer),
            validity_not_before: f.not_before,
            validity_not_after,
            subject,
            subject_public_key_algorithm: AlgorithmIdentifier::Int(pk),
            subject_public_key: f.public_key,
            extensions: Extensions(exts),
        },
        issuer_signature_value: f.signature_value,
    };
    assert(c.deep_view() == x509_certificate_of(g)->Some_0);
    Ok(c)
}

// ----------------------------------------------------- reading the DER

/// Whether `x509_parser::parse_x509_certificate` accepts the DER bytes.
pub uninterp spec fn der_parses(der: Seq<u8>) -> bool;

/// The decoded contents of the first PEM block `x509_parser::pem::Pem::read`
/// finds in the input; `None` where it finds none.
pub uninterp spec fn pem_der_of(input: Seq<u8>) -> Option<Seq<u8>>;

/// `TbsCertificate::raw_serial` of the certificate the DER bytes hold.
pub uninterp spec fn x509_serial_of(der: Seq<u8>) -> Seq<u8>;

/// `(notBefore, notAfter)` of the certificate the DER bytes hold, each as
/// `ASN1Time::timestamp` gives it.
pub uninterp spec fn x509_validity_of(der: Seq<u8>) -> (i64, i64);

/// The outer signature algorithm's OID and the signature bits of the
/// certificate the DER bytes hold.
pub uninterp spec fn x509_signature_of(der: Seq<u8>) -> (Seq<u8>, Seq<u8>);

/// The subject public key algorithm's OID and the key bits of the
/// certificate the DER bytes hold.
pub uninterp spec fn x509_public_key_of(der: Seq<u8>) -> (Seq<u8>, Seq<u8>);

/// `Any::oid` over the subject public key algorithm's parameters of the
/// certificate the DER bytes hold, as [`X509Fields::public_key_curve`].
pub uninterp spec fn x509_public_key_curve_of(der: Seq<u8>) -> Option<Result<Vec<u8>, String>>;

/// The issuer's attributes of the certificate the DER bytes hold.
pub uninterp spec fn x509_issuer_of(der: Seq<u8>) -> Seq<X509Attribute>;

/// The subject's attributes of the certificate the DER bytes hold.
pub uninterp spec fn x509_subject_of(der: Seq<u8>) -> Seq<X509Attribute>;

/// `TbsCertificate::basic_constraints` of the certificate the DER bytes
/// hold, as [`X509Fields::basic_constraints`].
pub uninterp spec fn x509_basic_constraints_of(der: Seq<u8>) -> Result<Option<(bool, (bool, Option<u32>))>, String>;

/// `TbsCertificate::key_usage` of the certificate the DER bytes hold.
pub uninterp spec fn x509_key_usage_of(der: Seq<u8>) -> Result<Option<(bool, u16)>, String>;

/// `TbsCertificate::extended_key_usage` of the certificate the DER bytes
/// hold.
pub uninterp spec fn x509_ext_key_usage_of(der: Seq<u8>) -> Result<Option<(bool, KeyPurposes)>, String>;

/// `TbsCertificate::subject_alternative_name` of the certificate the DER
/// bytes hold.
pub uninterp spec fn x509_subject_alt_name_of(der: Seq<u8>) -> Result<Option<(bool, Vec<Result<String, String>>)>, String>;

/// `TbsCertificate::get_extension_unique` for `authorityKeyIdentifier` of
/// the certificate the DER bytes hold.
pub uninterp spec fn x509_authority_key_identifier_of(der: Seq<u8>) -> Result<Option<(bool, Result<Option<Vec<u8>>, String>)>, String>;

/// `x509_parser::pem::Pem::read` over the input: the decoded contents of
/// its first PEM block, or `x509-parser`'s description of why it has none.
/// The result is named `pem_der_of`.
#[verifier::external_body]
fn pem_contents(input: &[u8]) -> (r: Result<Vec<u8>, String>)
    ensures
        match r {
            Ok(der) => pem_der_of(input@) == Some(der@),
            Err(_) => pem_der_of(input@) is None,
        },
{
    x509_parser::pem::Pem::read(std::io::Cursor::new(input))
        .map(|(pem, _)| pem.contents)
        .map_err(|e| format!("failed to read PEM: {e}"))
}

/// `x509_parser::parse_x509_certificate`: whether the DER bytes hold a
/// certificate, or `x509-parser`'s description of why they hold none after
/// the given context. Which bytes it accepts is named `der_parses`; empty
/// input is no certificate.
#[verifier::external_body]
fn check_der(der: &[u8], context: &str) -> (r: Result<(), String>)
    ensures
        r is Ok <==> der_parses(der@),
        der@.len() == 0 ==> r is Err,
{
    x509_parser::parse_x509_certificate(der).map(|_| ()).map_err(|e| format!("{context}: {e}"))
}

/// `TbsCertificate::raw_serial` of the parsed certificate.
#[verifier::external_body]
fn x509_serial(der: &[u8]) -> (r: Vec<u8>)
    requires
        der_parses(der@),
    ensures
        r@ == x509_serial_of(der@),
{
    match x509_parser::parse_x509_certificate(der) {
        Ok((_, cert)) => cert.tbs_certificate.raw_serial().to_vec(),
        Err(_) => Vec::new(),
    }
}

/// `TbsCertificate::validity` of the parsed certificate, each time as
/// `ASN1Time::timestamp` gives it.
#[verifier::external_body]
fn x509_validity(der: &[u8]) -> (r: (i64, i64))
    requires
        der_parses(der@),
    ensures
        r == x509_validity_of(der@),
{
    match x509_parser::parse_x509_certificate(der) {
        Ok((_, cert)) => (cert.tbs_certificate.validity().not_before.timestamp(), cert.tbs_certificate.validity().not_after.timestamp()),
        Err(_) => (0, 0),
    }
}

/// The outer signature algorithm's OID and the signature bits of the
/// parsed certificate, as `x509-parser` holds them.
#[verifier::external_body]
fn x509_signature(der: &[u8]) -> (r: (Vec<u8>, Vec<u8>))
    requires
        der_parses(der@),
    ensures
        (r.0@, r.1@) == x509_signature_of(der@),
{
    match x509_parser::parse_x509_certificate(der) {
        Ok((_, cert)) => (cert.signature_algorithm.algorithm.as_bytes().to_vec(), cert.signature_value.data.to_vec()),
        Err(_) => (Vec::new(), Vec::new()),
    }
}

/// The subject public key algorithm's OID and the key bits of the parsed
/// certificate, as `x509-parser` holds them.
#[verifier::external_body]
fn x509_public_key(der: &[u8]) -> (r: (Vec<u8>, Vec<u8>))
    requires
        der_parses(der@),
    ensures
        (r.0@, r.1@) == x509_public_key_of(der@),
{
    match x509_parser::parse_x509_certificate(der) {
        Ok((_, cert)) => {
            let spki = &cert.tbs_certificate.subject_pki;
            (spki.algorithm.algorithm.as_bytes().to_vec(), spki.subject_public_key.data.to_vec())
        },
        Err(_) => (Vec::new(), Vec::new()),
    }
}

/// `Any::oid` over the subject public key algorithm's parameters of the
/// parsed certificate: `None` without parameters, else the OID they hold or
/// `x509-parser`'s description of why they hold none.
#[verifier::external_body]
fn x509_public_key_curve(der: &[u8]) -> (r: Option<Result<Vec<u8>, String>>)
    requires
        der_parses(der@),
    ensures
        r == x509_public_key_curve_of(der@),
{
    let (_, cert) = x509_parser::parse_x509_certificate(der).ok()?;
    cert.tbs_certificate.subject_pki.algorithm.parameters.clone().map(|p| {
        p.oid()
            .map(|o| o.as_bytes().to_vec())
            .map_err(|e| format!("subjectPublicKeyAlgorithm: EC curve parameter: {e}"))
    })
}

/// `X509Name::iter_attributes` of the parsed certificate's issuer, each
/// attribute with its type's OID, its value's tag and
/// `AttributeTypeAndValue::as_str` of it (or the reason it is not text).
#[verifier::external_body]
fn x509_issuer(der: &[u8]) -> (r: Vec<X509Attribute>)
    requires
        der_parses(der@),
    ensures
        r@ == x509_issuer_of(der@),
{
    let mut attrs = Vec::new();
    if let Ok((_, cert)) = x509_parser::parse_x509_certificate(der) {
        for a in cert.tbs_certificate.issuer().iter_attributes() {
            attrs.push(X509Attribute {
                oid: a.attr_type().as_bytes().to_vec(),
                tag: a.attr_value().tag().0,
                text: a.as_str().map(|s| s.to_string()).map_err(|e| format!("name attribute OID {}: {e}", a.attr_type())),
            });
        }
    }
    attrs
}

/// `X509Name::iter_attributes` of the parsed certificate's subject, as for
/// the issuer.
#[verifier::external_body]
fn x509_subject(der: &[u8]) -> (r: Vec<X509Attribute>)
    requires
        der_parses(der@),
    ensures
        r@ == x509_subject_of(der@),
{
    let mut attrs = Vec::new();
    if let Ok((_, cert)) = x509_parser::parse_x509_certificate(der) {
        for a in cert.tbs_certificate.subject().iter_attributes() {
            attrs.push(X509Attribute {
                oid: a.attr_type().as_bytes().to_vec(),
                tag: a.attr_value().tag().0,
                text: a.as_str().map(|s| s.to_string()).map_err(|e| format!("name attribute OID {}: {e}", a.attr_type())),
            });
        }
    }
    attrs
}

/// `TbsCertificate::basic_constraints` of the parsed certificate:
/// `(critical, (cA, pathLenConstraint))` where present.
#[verifier::external_body]
fn x509_basic_constraints(der: &[u8]) -> (r: Result<Option<(bool, (bool, Option<u32>))>, String>)
    requires
        der_parses(der@),
    ensures
        r == x509_basic_constraints_of(der@),
{
    let (_, cert) = x509_parser::parse_x509_certificate(der).map_err(|e| e.to_string())?;
    match cert.tbs_certificate.basic_constraints() {
        Ok(x) => Ok(x.map(|bc| (bc.critical, (bc.value.ca, bc.value.path_len_constraint)))),
        Err(e) => Err(format!("basicConstraints: {e}")),
    }
}

/// `TbsCertificate::key_usage` of the parsed certificate: `(critical,
/// flags)` where present.
#[verifier::external_body]
fn x509_key_usage(der: &[u8]) -> (r: Result<Option<(bool, u16)>, String>)
    requires
        der_parses(der@),
    ensures
        r == x509_key_usage_of(der@),
{
    let (_, cert) = x509_parser::parse_x509_certificate(der).map_err(|e| e.to_string())?;
    match cert.tbs_certificate.key_usage() {
        Ok(x) => Ok(x.map(|ku| (ku.critical, ku.value.flags))),
        Err(e) => Err(format!("keyUsage: {e}")),
    }
}

/// `TbsCertificate::extended_key_usage` of the parsed certificate:
/// `(critical, purposes)` where present, the OID-form purposes by their
/// number.
#[verifier::external_body]
fn x509_ext_key_usage(der: &[u8]) -> (r: Result<Option<(bool, KeyPurposes)>, String>)
    requires
        der_parses(der@),
    ensures
        r == x509_ext_key_usage_of(der@),
{
    let (_, cert) = x509_parser::parse_x509_certificate(der).map_err(|e| e.to_string())?;
    match cert.tbs_certificate.extended_key_usage() {
        Ok(x) => Ok(x.map(|u| (u.critical, KeyPurposes {
            any: u.value.any,
            server_auth: u.value.server_auth,
            client_auth: u.value.client_auth,
            code_signing: u.value.code_signing,
            email_protection: u.value.email_protection,
            time_stamping: u.value.time_stamping,
            ocsp_signing: u.value.ocsp_signing,
            others: u.value.other.len(),
        }))),
        Err(e) => Err(format!("extKeyUsage: {e}")),
    }
}

/// `TbsCertificate::subject_alternative_name` of the parsed certificate:
/// `(critical, names)` where present, each `dNSName` by its text and any
/// other name by its debug description.
#[verifier::external_body]
fn x509_subject_alt_name(der: &[u8]) -> (r: Result<Option<(bool, Vec<Result<String, String>>)>, String>)
    requires
        der_parses(der@),
    ensures
        r == x509_subject_alt_name_of(der@),
{
    let (_, cert) = x509_parser::parse_x509_certificate(der).map_err(|e| e.to_string())?;
    match cert.tbs_certificate.subject_alternative_name() {
        Ok(x) => Ok(x.map(|san| (san.critical, san.value.general_names.iter().map(|n| match n {
            X509GeneralName::DNSName(s) => Ok(s.to_string()),
            other => Err(format!("{other:?}")),
        }).collect()))),
        Err(e) => Err(format!("subjectAltName: {e}")),
    }
}

/// `TbsCertificate::get_extension_unique` for `authorityKeyIdentifier` of
/// the parsed certificate: `(critical, keyIdentifier)` where present, or the
/// debug description of the extension's value where `x509-parser` did not
/// parse it as one.
#[verifier::external_body]
fn x509_authority_key_identifier(der: &[u8]) -> (r: Result<Option<(bool, Result<Option<Vec<u8>>, String>)>, String>)
    requires
        der_parses(der@),
    ensures
        r == x509_authority_key_identifier_of(der@),
{
    let (_, cert) = x509_parser::parse_x509_certificate(der).map_err(|e| e.to_string())?;
    let oid = x509_parser::oid_registry::OID_X509_EXT_AUTHORITY_KEY_IDENTIFIER;
    match cert.tbs_certificate.get_extension_unique(&oid) {
        Ok(x) => Ok(x.map(|ext| (ext.critical, match ext.parsed_extension() {
            ParsedExtension::AuthorityKeyIdentifier(aki) => Ok(aki.key_identifier.as_ref().map(|k| k.0.to_vec())),
            other => Err(format!("{other:?}")),
        }))),
        Err(e) => Err(format!("authorityKeyIdentifier: {e}")),
    }
}

/// What the conversion reads of the certificate DER bytes hold.
pub open spec fn der_reading(der: Seq<u8>) -> X509Reading {
    X509Reading {
        serial: x509_serial_of(der),
        signature_algorithm: x509_signature_of(der).0,
        issuer: x509_issuer_of(der),
        not_before: x509_validity_of(der).0,
        not_after: x509_validity_of(der).1,
        subject: x509_subject_of(der),
        public_key_algorithm: x509_public_key_of(der).0,
        public_key_curve: x509_public_key_curve_of(der),
        public_key: x509_public_key_of(der).1,
        basic_constraints: x509_basic_constraints_of(der),
        key_usage: x509_key_usage_of(der),
        ext_key_usage: x509_ext_key_usage_of(der),
        subject_alt_name: x509_subject_alt_name_of(der),
        authority_key_identifier: x509_authority_key_identifier_of(der),
        signature_value: x509_signature_of(der).1,
    }
}

/// The C509 certificate DER bytes convert to: `None` where `x509-parser`
/// reads no certificate from them or the one it reads cannot be carried.
pub open spec fn der_certificate(der: Seq<u8>) -> Option<CertificateModel> {
    if der_parses(der) {
        x509_certificate_of(der_reading(der))
    } else {
        None
    }
}

/// Read what the conversion needs of the certificate the DER bytes hold,
/// and convert it; `context` heads the message where they hold none.
fn convert_certificate(der: &[u8], context: &str) -> (r: Result<C509Certificate, Error>)
    ensures
        match r {
            Ok(c) => der_certificate(der@) == Some(c.deep_view()),
            Err(e) => der_certificate(der@) is None && e is X509,
        },
        der@.len() == 0 ==> r is Err,
{
    match check_der(der, context) {
        Ok(()) => {},
        Err(msg) => return Err(Error::X509(msg)),
    }
    let (not_before, not_after) = x509_validity(der);
    let (signature_algorithm, signature_value) = x509_signature(der);
    let (public_key_algorithm, public_key) = x509_public_key(der);
    let f = X509Fields {
        serial: x509_serial(der),
        signature_algorithm,
        issuer: x509_issuer(der),
        not_before,
        not_after,
        subject: x509_subject(der),
        public_key_algorithm,
        public_key_curve: x509_public_key_curve(der),
        public_key,
        basic_constraints: x509_basic_constraints(der),
        key_usage: x509_key_usage(der),
        ext_key_usage: x509_ext_key_usage(der),
        subject_alt_name: x509_subject_alt_name(der),
        authority_key_identifier: x509_authority_key_identifier(der),
        signature_value,
    };
    assert(reading_of(f) == der_reading(der@));
    convert_fields(f)
}

/// `-----BEGIN `, the start of a PEM block.
pub open spec fn pem_begin() -> Seq<u8> {
    seq![0x2Du8, 0x2D, 0x2D, 0x2D, 0x2D, 0x42, 0x45, 0x47, 0x49, 0x4E, 0x20]
}

/// How far into the input a PEM block's start is looked for.
pub const PEM_PROBE_LEN: usize = 1024;

/// Whether the input looks like PEM: `-----BEGIN ` occurs within its first
/// 1024 bytes.
pub open spec fn looks_like_pem_spec(input: Seq<u8>) -> bool {
    exists|i: int| 0 <= i && i + 11 <= PEM_PROBE_LEN && #[trigger] occurs_at(input, i, pem_begin())
}

/// Whether the input looks like PEM rather than raw DER.
pub fn looks_like_pem(input: &[u8]) -> (r: bool)
    ensures
        r == looks_like_pem_spec(input@),
{
    let marker: [u8; 11] = [0x2D, 0x2D, 0x2D, 0x2D, 0x2D, 0x42, 0x45, 0x47, 0x49, 0x4E, 0x20];
    assert(marker@ =~= pem_begin());
    let mut i: usize = 0;
    while i + 11 <= PEM_PROBE_LEN
        invariant
            i + 11 <= PEM_PROBE_LEN + 1,
            marker@ == pem_begin(),
            forall|k: int| 0 <= k < i ==> !#[trigger] occurs_at(input@, k, pem_begin()),
        decreases PEM_PROBE_LEN - i,
    {
        if bytes_at(input, i, marker.as_slice()) {
            return true;
        }
        i = i + 1;
    }
    false
}

/// The DER bytes a C509 certificate is read from: the contents of the
/// first PEM block where the input looks like PEM, the input itself
/// otherwise.
pub open spec fn x509_der_of(input: Seq<u8>) -> Option<Seq<u8>> {
    if looks_like_pem_spec(input) {
        pem_der_of(input)
    } else {
        Some(input)
    }
}

/// The C509 certificate an X.509 certificate (PEM or DER) converts to;
/// `None` where none can be read or it cannot be carried.
pub open spec fn x509_result(input: Seq<u8>) -> Option<CertificateModel> {
    match x509_der_of(input) {
        Some(der) => der_certificate(der),
        None => None,
    }
}

/// Parse `input` as PEM (where it looks like a `-----BEGIN` block) or raw
/// DER X.509, and convert it into a C509 certificate.
pub fn from_x509(input: &[u8]) -> (r: Result<C509Certificate, Error>)
    ensures
        match r {
            Ok(c) => x509_result(input@) == Some(c.deep_view()),
            Err(e) => x509_result(input@) is None && e is X509,
        },
        input@.len() == 0 ==> r is Err,
{
    if looks_like_pem(input) {
        let der = match pem_contents(input) {
            Ok(der) => der,
            Err(msg) => return Err(Error::X509(msg)),
        };
        convert_certificate(der.as_slice(), "failed to parse X.509 DER inside PEM")
    } else {
        convert_certificate(input, "failed to parse X.509 DER")
    }
}

/// The id a table gives is one of the table's ids.
proof fn lemma_lookup_found<T>(oids: Seq<Seq<u8>>, ids: Seq<T>, oid: Seq<u8>) -> (i: int)
    requires
        lookup(oids, ids, oid) is Some,
    ensures
        0 <= i < ids.len(),
        lookup(oids, ids, oid) == Some(ids[i]),
    decreases oids.len(),
{
    if oids[0] == oid {
        0
    } else {
        let j = lemma_lookup_found(oids.drop_first(), ids.drop_first(), oid);
        j + 1
    }
}

/// The criticality of an X.509 extension that was read, if present.
pub open spec fn criticality_of<T>(x: Result<Option<(bool, T)>, String>) -> Option<bool> {
    match x {
        Ok(Some((critical, _))) => Some(critical),
        _ => None,
    }
}

/// The (id, criticality) entry of the extension `id` where it was present.
pub open spec fn entry_if(id: i32, critical: Option<bool>) -> Seq<(IntOrOidModel, bool)> {
    match critical {
        Some(c) => seq![(IntOrOidModel::Int(id), c)],
        None => Seq::empty(),
    }
}

/// The id and criticality of each extension.
pub open spec fn id_and_criticality(exts: Seq<ExtensionModel>) -> Seq<(IntOrOidModel, bool)> {
    exts.map_values(|x: ExtensionModel| (x.id, x.critical))
}

/// A name attribute that is registered under an id the RDN attributes
/// registry names.
pub open spec fn registered_attribute(a: RdnAttributeModel) -> bool {
    a matches RdnAttrModel::Registered { id, .. } && rdn_attribute_table(id) is Some
}

proof fn lemma_map_concat(a: Seq<ExtensionModel>, b: Seq<ExtensionModel>)
    ensures
        id_and_criticality(a + b) == id_and_criticality(a) + id_and_criticality(b),
{
    assert(id_and_criticality(a + b) =~= id_and_criticality(a) + id_and_criticality(b));
}

proof fn lemma_name_registered(attrs: Seq<X509Attribute>)
    requires
        x509_name_of(attrs) is Some,
    ensures
        forall|i: int| 0 <= i < x509_name_of(attrs)->Some_0.len() ==> registered_attribute(
            #[trigger] x509_name_of(attrs)->Some_0[i],
        ),
{
    assert forall|i: int| 0 <= i < x509_name_of(attrs)->Some_0.len() implies registered_attribute(
        #[trigger] x509_name_of(attrs)->Some_0[i],
    ) by {
        assert(x509_attribute_of(attrs[i]) is Some);
        let j = lemma_lookup_found(rdn_oid_table(), rdn_id_table(), attrs[i].oid@);
        assert(0 <= j < 21);
    }
}

/// What a converted certificate holds: registry ids that the registries
/// name for both algorithms and for every issuer and subject attribute,
/// and, of the extensions, basicConstraints, keyUsage, extKeyUsage,
/// subjectAltName and authorityKeyIdentifier (ids 4, 2, 8, 3, 7), in this
/// order, each once where the X.509 certificate has it and not otherwise,
/// with the criticality it has there.
pub proof fn law_x509_conversion_shape(f: X509Reading)
    requires
        x509_certificate_of(f) is Some,
    ensures
        ({
            let c = x509_certificate_of(f)->Some_0;
            &&& c.issuer_signature_algorithm matches AlgorithmIdentifierModel::Int(s) && signature_algorithm_table(s) is Some
            &&& c.subject_public_key_algorithm matches AlgorithmIdentifierModel::Int(k) && public_key_algorithm_table(k) is Some
            &&& c.issuer matches Some(n) && forall|i: int| 0 <= i < n.len() ==> registered_attribute(#[trigger] n[i])
            &&& forall|i: int| 0 <= i < c.subject.len() ==> registered_attribute(#[trigger] c.subject[i])
            &&& id_and_criticality(c.extensions) == entry_if(4, criticality_of(f.basic_constraints)) + entry_if(
                2,
                criticality_of(f.key_usage),
            ) + entry_if(8, criticality_of(f.ext_key_usage)) + entry_if(3, criticality_of(f.subject_alt_name))
                + entry_if(7, criticality_of(f.authority_key_identifier))
        }),
{
    let sig_ids = seq![0i32, 1, 2, 12, 13, 23, 24, 25];
    let j = lemma_lookup_found(signature_oid_table(), sig_ids, f.signature_algorithm);
    assert(0 <= j < 8);
    match lookup(public_key_oid_table(), seq![0i32, 12, 13], f.public_key_algorithm) {
        Some(_) => {
            let k = lemma_lookup_found(public_key_oid_table(), seq![0i32, 12, 13], f.public_key_algorithm);
            assert(0 <= k < 3);
        },
        None => {
            let c = f.public_key_curve->Some_0->Ok_0@;
            let k = lemma_lookup_found(curve_oid_table(), seq![1i32, 2, 3], c);
            assert(0 <= k < 3);
        },
    }
    lemma_name_registered(f.issuer);
    lemma_name_registered(f.subject);
    let a = basic_constraints_part(f.basic_constraints)->Some_0;
    let b = key_usage_part(f.key_usage)->Some_0;
    let c = ext_key_usage_part(f.ext_key_usage)->Some_0;
    let d = subject_alt_name_part(f.subject_alt_name)->Some_0;
    let e = authority_key_identifier_part(f.authority_key_identifier)->Some_0;
    assert(id_and_criticality(a) =~= entry_if(4, criticality_of(f.basic_constraints)));
    assert(id_and_criticality(b) =~= entry_if(2, criticality_of(f.key_usage)));
    assert(id_and_criticality(c) =~= entry_if(8, criticality_of(f.ext_key_usage)));
    assert(id_and_criticality(d) =~= entry_if(3, criticality_of(f.subject_alt_name)));
    assert(id_and_criticality(e) =~= entry_if(7, criticality_of(f.authority_key_identifier)));
    lemma_map_concat(a, b);
    lemma_map_concat(a + b, c);
    lemma_map_concat(a + b + c, d);
    lemma_map_concat(a + b + c + d, e);
}

/// `names` are exactly the `dNSName`s `texts` read, one per name, in order.
pub open spec fn dns_names_of_texts(names: Seq<GeneralNameModel>, texts: Seq<Result<String, String>>) -> bool {
    &&& names.len() == texts.len()
    &&& forall|j: int| 0 <= j < names.len() ==> #[trigger] names[j] == GeneralNameModel {
        kind: 2,
        value: GeneralNameValueModel::DnsName(texts[j]->Ok_0@),
    }
}

/// The subjectAltName (id 3) of a converted certificate holds one `dNSName`
/// per name that was read of the X.509 extension, in the same order, and
/// carries that extension's criticality.
pub proof fn law_x509_subject_alt_name(f: X509Reading)
    requires
        x509_certificate_of(f) is Some,
    ensures
        forall|k: int| 0 <= k < x509_certificate_of(f)->Some_0.extensions.len() && (
        #[trigger] x509_certificate_of(f)->Some_0.extensions[k]).id == IntOrOidModel::Int(3) ==> {
            let x = x509_certificate_of(f)->Some_0.extensions[k];
            &&& f.subject_alt_name matches Ok(Some((critical, texts)))
            &&& x.critical == critical
            &&& x.value matches ExtensionValueModel::SubjectAltName(g)
            &&& dns_names_of_texts(g, texts@)
        },
{
    let a = basic_constraints_part(f.basic_constraints)->Some_0;
    let b = key_usage_part(f.key_usage)->Some_0;
    let c = ext_key_usage_part(f.ext_key_usage)->Some_0;
    let d = subject_alt_name_part(f.subject_alt_name)->Some_0;
    let e = authority_key_identifier_part(f.authority_key_identifier)->Some_0;
    let xs = x509_certificate_of(f)->Some_0.extensions;
    assert(xs == a + b + c + d + e);
    assert forall|k: int| 0 <= k < xs.len() && (#[trigger] xs[k]).id == IntOrOidModel::Int(3) implies {
        let x = xs[k];
        &&& f.subject_alt_name matches Ok(Some((critical, texts)))
        &&& x.critical == critical
        &&& x.value matches ExtensionValueModel::SubjectAltName(g)
        &&& dns_names_of_texts(g, texts@)
    } by {
        let n = a.len() + b.len() + c.len();
        assert(k >= n && k < n + d.len()) by {
            if k < a.len() {
                assert(xs[k] == a[k]);
            } else if k < a.len() + b.len() {
                assert(xs[k] == b[k - a.len()]);
            } else if k < n {
                assert(xs[k] == c[k - a.len() - b.len()]);
            } else if k >= n + d.len() {
                assert(xs[k] == e[k - n - d.len()]);
            }
        }
        assert(xs[k] == d[k - n]);
    }
}

/// An X.509 name converts attribute by attribute: one C509 attribute per
/// X.509 attribute, in the same order, registered under the id its OID
/// has, printableString exactly where the value was tagged so, with the
/// value's text.
pub proof fn law_x509_name(attrs: Seq<X509Attribute>)
    requires
        x509_name_of(attrs) is Some,
    ensures
        x509_name_of(attrs)->Some_0.len() == attrs.len(),
        forall|k: int| 0 <= k < attrs.len() ==> #[trigger] x509_name_of(attrs)->Some_0[k] == (RdnAttributeModel::Registered {
            id: rdn_attribute_of(attrs[k].oid@)->Some_0,
            printable_string: attrs[k].tag == PRINTABLE_STRING_TAG,
            value: special_text_of(attrs[k].text->Ok_0@),
        }),
{
    assert forall|k: int| 0 <= k < attrs.len() implies #[trigger] x509_name_of(attrs)->Some_0[k] == (RdnAttributeModel::Registered {
        id: rdn_attribute_of(attrs[k].oid@)->Some_0,
        printable_string: attrs[k].tag == PRINTABLE_STRING_TAG,
        value: special_text_of(attrs[k].text->Ok_0@),
    }) by {
        assert(x509_attribute_of(attrs[k]) is Some);
    }
}

/// The algorithm OIDs this converter recognizes become ids whose registry
/// names are the names of those algorithms; an algorithm known both as a
/// signature and as a public key algorithm has the same name in both
/// registries.
pub proof fn law_x509_algorithm_names()
    ensures
        signature_algorithm_of(ecdsa_with(2)) matches Some(i) && signature_algorithm_table(i) == Some("ecdsa-with-SHA256"),
        signature_algorithm_of(ecdsa_with(3)) matches Some(i) && signature_algorithm_table(i) == Some("ecdsa-with-SHA384"),
        signature_algorithm_of(ecdsa_with(4)) matches Some(i) && signature_algorithm_table(i) == Some("ecdsa-with-SHA512"),
        signature_algorithm_of(edwards(112)) matches Some(i) && signature_algorithm_table(i) == Some("id-Ed25519"),
        signature_algorithm_of(edwards(113)) matches Some(i) && signature_algorithm_table(i) == Some("id-Ed448"),
        signature_algorithm_of(pkcs1(11)) matches Some(i) && signature_algorithm_table(i) == Some("sha256WithRSAEncryption"),
        signature_algorithm_of(pkcs1(12)) matches Some(i) && signature_algorithm_table(i) == Some("sha384WithRSAEncryption"),
        signature_algorithm_of(pkcs1(13)) matches Some(i) && signature_algorithm_table(i) == Some("sha512WithRSAEncryption"),
        public_key_algorithm_of(pkcs1(1), None) matches Some(i) && public_key_algorithm_table(i) == Some("rsaEncryption"),
        public_key_algorithm_of(edwards(112), None) matches Some(i) && public_key_algorithm_table(i) == Some("id-Ed25519"),
        public_key_algorithm_of(edwards(113), None) matches Some(i) && public_key_algorithm_table(i) == Some("id-Ed448"),
        signature_algorithm_table(signature_algorithm_of(edwards(112))->Some_0) == public_key_algorithm_table(
            public_key_algorithm_of(edwards(112), None)->Some_0,
        ),
        signature_algorithm_table(signature_algorithm_of(edwards(113))->Some_0) == public_key_algorithm_table(
            public_key_algorithm_of(edwards(113), None)->Some_0,
        ),
        curve_of(curve_oid_table()[0]) matches Some(i) && public_key_algorithm_table(i) == Some("id-ecPublicKey (secp256r1)"),
        curve_of(curve_oid_table()[1]) matches Some(i) && public_key_algorithm_table(i) == Some("id-ecPublicKey (secp384r1)"),
        curve_of(curve_oid_table()[2]) matches Some(i) && public_key_algorithm_table(i) == Some("id-ecPublicKey (secp521r1)"),
{
    reveal_with_fuel(lookup, 9);
}

/// The name attribute OIDs this converter recognizes become ids whose
/// registry names are the names of those attribute types.
pub proof fn law_x509_attribute_names()
    ensures
        rdn_attribute_of(pkcs9(1)) matches Some(i) && rdn_attribute_table(i) == Some("emailAddress"),
        rdn_attribute_of(x520(3)) matches Some(i) && rdn_attribute_table(i) == Some("commonName"),
        rdn_attribute_of(x520(4)) matches Some(i) && rdn_attribute_table(i) == Some("surname"),
        rdn_attribute_of(x520(5)) matches Some(i) && rdn_attribute_table(i) == Some("serialNumber"),
        rdn_attribute_of(x520(6)) matches Some(i) && rdn_attribute_table(i) == Some("countryName"),
        rdn_attribute_of(x520(7)) matches Some(i) && rdn_attribute_table(i) == Some("localityName"),
        rdn_attribute_of(x520(8)) matches Some(i) && rdn_attribute_table(i) == Some("stateOrProvinceName"),
        rdn_attribute_of(x520(9)) matches Some(i) && rdn_attribute_table(i) == Some("streetAddress"),
        rdn_attribute_of(x520(10)) matches Some(i) && rdn_attribute_table(i) == Some("organizationName"),
        rdn_attribute_of(x520(11)) matches Some(i) && rdn_attribute_table(i) == Some("organizationalUnitName"),
        rdn_attribute_of(x520(12)) matches Some(i) && rdn_attribute_table(i) == Some("title"),
        rdn_attribute_of(x520(15)) matches Some(i) && rdn_attribute_table(i) == Some("businessCategory"),
        rdn_attribute_of(x520(17)) matches Some(i) && rdn_attribute_table(i) == Some("postalCode"),
        rdn_attribute_of(x520(42)) matches Some(i) && rdn_attribute_table(i) == Some("givenName"),
        rdn_attribute_of(x520(43)) matches Some(i) && rdn_attribute_table(i) == Some("initials"),
        rdn_attribute_of(x520(44)) matches Some(i) && rdn_attribute_table(i) == Some("generationQualifier"),
        rdn_attribute_of(x520(46)) matches Some(i) && rdn_attribute_table(i) == Some("dnQualifier"),
        rdn_attribute_of(pilot(25)) matches Some(i) && rdn_attribute_table(i) == Some("domainComponent"),
        rdn_attribute_of(x520(41)) matches Some(i) && rdn_attribute_table(i) == Some("name"),
        rdn_attribute_of(pilot(1)) matches Some(i) && rdn_attribute_table(i) == Some("uid"),
        rdn_attribute_of(pkcs9(2)) matches Some(i) && rdn_attribute_table(i) == Some("unstructuredName"),
{
    reveal_with_fuel(lookup, 22);
}

/// A certificate converts alike from its PEM armour and from its DER bytes.
pub proof fn law_pem_der_agree(pem: Seq<u8>, der: Seq<u8>)
    requires
        looks_like_pem_spec(pem),
        pem_der_of(pem) == Some(der),
        !looks_like_pem_spec(der),
    ensures
        x509_result(pem) == x509_result(der),
{
}

} // verus!
