//! A hand-authored JSON schema for building a [`C509Certificate`] from a
//! human-edited file. This is *not* a mechanical mirror of the crate's CBOR
//! types: dates are RFC 3339 strings, byte fields are hex strings, and only
//! the core `TBSCertificate` fields plus a handful of the most common
//! extensions are supported.
//!
//! The JSON text itself is read into these types by `serde`; this module
//! turns them into a certificate.
use vstd::prelude::*;

use crate::algorithm::{AlgorithmIdentifier, AlgorithmIdentifierModel};
use crate::certificate::{C509Certificate, CertificateModel, TbsCertificate};
use crate::common::{
    biguint_be, serial_bytes, IntOrOid, IntOrOidModel, MacAddr, RdnAttr, RdnAttrModel,
    RdnAttributeModel, SpecialText, SpecialTextModel,
};
use crate::extensions::authority_key_identifier::{AuthorityKeyIdentifier, AuthorityKeyIdentifierModel};
use crate::extensions::basic_constraints::BasicConstraints;
use crate::extensions::ext_key_usage::ExtKeyUsage;
use crate::extensions::general_name::{GeneralName, GeneralNameModel, GeneralNameValue, GeneralNameValueModel};
use crate::extensions::{Extension, ExtensionModel, ExtensionValue, ExtensionValueModel, Extensions};
use crate::name::{Name, RdnAttribute};

verus! {

/// Registry id (Section 8.8 "C509 Extensions Registry") of `keyUsage`.
pub const EXT_KEY_USAGE_ID: i32 = 2;

/// Registry id of `subjectAltName`.
pub const EXT_SUBJECT_ALT_NAME_ID: i32 = 3;

/// Registry id of `basicConstraints`.
pub const EXT_BASIC_CONSTRAINTS_ID: i32 = 4;

/// Registry id of `authorityKeyIdentifier`.
pub const EXT_AUTHORITY_KEY_IDENTIFIER_ID: i32 = 7;

/// Registry id of `extKeyUsage`.
pub const EXT_EXT_KEY_USAGE_ID: i32 = 8;

/// Registry id for `commonName` (Section 8.6), used for the plain-string
/// form of [`JsonName`].
pub const COMMON_NAME_ID: u16 = 1;

/// `dNSName` (Section 8.13 "C509 General Names Registry").
pub const GENERAL_NAME_DNS: i32 = 2;

/// A certificate as the JSON schema describes it.
pub struct JsonCertificate {
    pub certificate_type: i32,
    /// Hex, whitespace allowed.
    pub serial_number: String,
    pub issuer_signature_algorithm: i32,
    pub issuer: Option<JsonName>,
    /// RFC 3339.
    pub validity_not_before: String,
    /// RFC 3339.
    pub validity_not_after: Option<String>,
    pub subject: JsonName,
    pub subject_public_key_algorithm: i32,
    /// Hex, whitespace allowed.
    pub subject_public_key: String,
    pub extensions: Vec<JsonExtension>,
    /// Hex, whitespace allowed.
    pub issuer_signature_value: String,
}

/// Either a bare string (compact single `commonName`) or a full list of RDN
/// attributes.
pub enum JsonName {
    CommonName(String),
    Attributes(Vec<JsonRdnAttribute>),
}

/// One RDN attribute of a [`JsonName`].
pub struct JsonRdnAttribute {
    /// Registry id, Section 8.6 "C509 RDN Attributes Registry".
    pub id: u16,
    pub printable_string: bool,
    pub value: String,
}

/// Only the most common extensions are supported; anything else must be
/// added here as this schema grows.
pub enum JsonExtension {
    BasicConstraints { critical: bool, ca: bool, path_len: Option<u32> },
    KeyUsage { critical: bool, value: u32 },
    SubjectAltName { critical: bool, dns_names: Vec<String> },
    /// Only the bare `keyIdentifier` form; `cert_issuer`/`cert_serial`
    /// aren't exposed by this schema yet.
    AuthorityKeyIdentifier { critical: bool, key_identifier: String },
    /// Registered `KeyPurposeId`s only; OID-form purposes aren't exposed by
    /// this schema yet.
    ExtKeyUsage { critical: bool, oids: Vec<i32> },
}

// ------------------------------------------------------------------- hex

/// The value of a hexadecimal digit, either case.
pub open spec fn hex_digit(c: char) -> Option<u8> {
    if '0' <= c && c <= '9' {
        Some((c as int - '0' as int) as u8)
    } else if 'a' <= c && c <= 'f' {
        Some((c as int - 'a' as int + 10) as u8)
    } else if 'A' <= c && c <= 'F' {
        Some((c as int - 'A' as int + 10) as u8)
    } else {
        None
    }
}

/// The bytes a hex string stands for: each pair of digits one byte; `None`
/// for an odd number of characters or one that is not a hex digit.
pub open spec fn hex_value(s: Seq<char>) -> Option<Seq<u8>>
    decreases s.len(),
{
    if s.len() == 0 {
        Some(Seq::empty())
    } else if s.len() == 1 {
        None
    } else {
        match (hex_digit(s[0]), hex_digit(s[1]), hex_value(s.skip(2))) {
            (Some(h), Some(l), Some(rest)) => Some(seq![(h * 16 + l) as u8] + rest),
            _ => None,
        }
    }
}

/// The characters Unicode gives the `White_Space` property, which
/// `char::is_whitespace` tests for.
pub open spec fn is_white_space(c: char) -> bool {
    ||| ('\u{9}' <= c && c <= '\u{d}')
    ||| c == '\u{20}'
    ||| c == '\u{85}'
    ||| c == '\u{a0}'
    ||| c == '\u{1680}'
    ||| ('\u{2000}' <= c && c <= '\u{200a}')
    ||| c == '\u{2028}'
    ||| c == '\u{2029}'
    ||| c == '\u{202f}'
    ||| c == '\u{205f}'
    ||| c == '\u{3000}'
}

/// Whether `c` has the Unicode `White_Space` property, as
/// `char::is_whitespace` tests for.
fn char_is_whitespace(c: char) -> (r: bool)
    ensures
        r == is_white_space(c),
{
    ('\u{9}' <= c && c <= '\u{d}') || c == '\u{20}' || c == '\u{85}' || c == '\u{a0}' || c == '\u{1680}' || (
    '\u{2000}' <= c && c <= '\u{200a}') || c == '\u{2028}' || c == '\u{2029}' || c == '\u{202f}' || c == '\u{205f}'
        || c == '\u{3000}'
}

/// `hex::decode` of the string the characters `chars` make up: the bytes of
/// each pair of hex digits (either case), or an error for an odd length or
/// a character that is not a hex digit. The error's message is `hex`'s
/// description of it after the field's name.
#[verifier::external_body]
fn hex_decode(field: &str, chars: &[char]) -> (r: Result<Vec<u8>, String>)
    ensures
        match r {
            Ok(b) => hex_value(chars@) == Some(b@),
            Err(_) => hex_value(chars@) is None,
        },
{
    let text: String = chars.iter().collect();
    hex::decode(&text).map_err(|e| format!("{field}: invalid hex: {e}"))
}

/// The characters of `s` that are not white space.
pub open spec fn without_white_space(s: Seq<char>) -> Seq<char> {
    s.filter(|c: char| !is_white_space(c))
}

/// The characters of `s` without its white space.
fn strip_white_space(s: &str) -> (r: Vec<char>)
    ensures
        r@ == without_white_space(s@),
{
    let mut out: Vec<char> = Vec::new();
    for c in it: s.chars()
        invariant
            it.seq() == s@,
            out@ == without_white_space(it.seq().take(it.index() as int)),
    {
        let ghost before = it.seq().take(it.index() as int);
        if !char_is_whitespace(c) {
            out.push(c);
        }
        proof {
            assert(it.seq().take(it.index() + 1) =~= before.push(c));
            reveal(Seq::filter);
            assert(before.push(c).drop_last() =~= before);
        }
    }
    assert(s@.take(s@.len() as int) =~= s@);
    out
}

/// The bytes of a hex field: its white space dropped, then decoded.
pub open spec fn hex_field(s: Seq<char>) -> Option<Seq<u8>> {
    hex_value(without_white_space(s))
}

/// Parse a whitespace-tolerant hex string into bytes.
pub fn hex_bytes(field: &str, s: &str) -> (r: Result<Vec<u8>, String>)
    ensures
        match r {
            Ok(b) => hex_field(s@) == Some(b@),
            Err(_) => hex_field(s@) is None,
        },
{
    let cleaned = strip_white_space(s);
    hex_decode(field, cleaned.as_slice())
}

// -------------------------------------------------------- MAC and time

/// What `macaddr::MacAddr`'s `FromStr` makes of a string: the bytes of the
/// EUI-48 or EUI-64 address it reads, or `None` where it rejects it.
pub uninterp spec fn mac_from_text(s: Seq<char>) -> Option<Seq<u8>>;

/// `s.parse::<macaddr::MacAddr>()`, as the address's bytes: 6 for an
/// EUI-48 address, 8 for an EUI-64 one. Which texts it accepts (the
/// separators and groupings `macaddr` allows) is left to the name
/// `mac_from_text`.
#[verifier::external_body]
fn parse_mac_text(s: &str) -> (r: Option<Vec<u8>>)
    ensures
        match r {
            Some(b) => mac_from_text(s@) == Some(b@) && (b@.len() == 6 || b@.len() == 8),
            None => mac_from_text(s@) is None,
        },
{
    match s.parse::<macaddr::MacAddr>() {
        Ok(mac) => Some(mac.as_bytes().to_vec()),
        Err(_) => None,
    }
}

/// The POSIX seconds of the moment an RFC 3339 timestamp names, as
/// `time::OffsetDateTime::parse` with `Rfc3339` reads it; `None` where it
/// rejects the text.
pub uninterp spec fn rfc3339_seconds(s: Seq<char>) -> Option<i64>;

/// `time::OffsetDateTime::parse(s, &Rfc3339)`, taken to its
/// `unix_timestamp`. Which texts it accepts is left to the name
/// `rfc3339_seconds`; the error's message is `time`'s description of it
/// after the field's name.
#[verifier::external_body]
fn parse_rfc3339(field: &str, s: &str) -> (r: Result<i64, String>)
    ensures
        match r {
            Ok(t) => rfc3339_seconds(s@) == Some(t),
            Err(_) => rfc3339_seconds(s@) is None,
        },
{
    time::OffsetDateTime::parse(s, &time::format_description::well_known::Rfc3339)
        .map(|t| t.unix_timestamp())
        .map_err(|e| format!("{field}: {e}"))
}

// --------------------------------------------------------- conversion

/// A bare string's value: a MAC address where it reads as one, otherwise
/// the text.
pub open spec fn special_text_of(s: Seq<char>) -> SpecialTextModel {
    match mac_from_text(s) {
        Some(b) => SpecialTextModel::Mac(b),
        None => SpecialTextModel::Text(s),
    }
}

/// A bare string becomes a [`SpecialText::Mac`] if it parses as a MAC
/// address, otherwise a [`SpecialText::Text`].
pub fn special_text(s: &str) -> (r: SpecialText)
    ensures
        r.deep_view() == special_text_of(s@),
{
    match parse_mac_text(s) {
        Some(bytes) => match MacAddr::from_bytes(bytes.as_slice()) {
            Some(mac) => SpecialText::Mac(mac),
            None => SpecialText::Text(s.to_owned()),
        },
        None => SpecialText::Text(s.to_owned()),
    }
}

/// The attribute a JSON attribute stands for.
pub open spec fn attribute_of(a: JsonRdnAttribute) -> RdnAttributeModel {
    RdnAttrModel::Registered { id: a.id, printable_string: a.printable_string, value: special_text_of(a.value@) }
}

/// The name a JSON name stands for: a bare string is a lone utf8String
/// `commonName`.
pub open spec fn name_of(n: JsonName) -> Seq<RdnAttributeModel> {
    match n {
        JsonName::CommonName(s) => seq![
            RdnAttrModel::Registered { id: COMMON_NAME_ID, printable_string: false, value: special_text_of(s@) },
        ],
        JsonName::Attributes(attrs) => Seq::new(attrs@.len(), |i: int| attribute_of(attrs@[i])),
    }
}

impl JsonName {
    /// The name this stands for.
    pub fn into_name(self) -> (r: Name)
        ensures
            r.deep_view() == name_of(self),
    {
        match self {
            JsonName::CommonName(s) => {
                let mut v: Vec<RdnAttribute> = Vec::new();
                v.push(RdnAttr::Registered { id: COMMON_NAME_ID, printable_string: false, value: special_text(s.as_str()) });
                let r = Name(v);
                assert(r.deep_view() =~= name_of(JsonName::CommonName(s)));
                r
            },
            JsonName::Attributes(attrs) => {
                let mut v: Vec<RdnAttribute> = Vec::new();
                let mut i: usize = 0;
                while i < attrs.len()
                    invariant
                        i <= attrs@.len(),
                        v.deep_view() =~= Seq::new(i as nat, |k: int| attribute_of(attrs@[k])),
                    decreases attrs@.len() - i,
                {
                    let a = &attrs[i];
                    let ghost before = v.deep_view();
                    v.push(RdnAttr::Registered { id: a.id, printable_string: a.printable_string, value: special_text(a.value.as_str()) });
                    assert(v.deep_view() =~= before.push(attribute_of(attrs@[i as int])));
                    i = i + 1;
                    assert(v.deep_view() =~= Seq::new(i as nat, |k: int| attribute_of(attrs@[k])));
                }
                let r = Name(v);
                assert(r.deep_view() =~= name_of(JsonName::Attributes(attrs)));
                r
            },
        }
    }
}

/// The `dNSName` a string of the schema stands for.
pub open spec fn dns_name_of(s: Seq<char>) -> GeneralNameModel {
    GeneralNameModel { kind: GENERAL_NAME_DNS, value: GeneralNameValueModel::DnsName(s) }
}

/// The extension a JSON extension stands for; `None` where its hex does not
/// decode.
pub open spec fn extension_of(x: JsonExtension) -> Option<ExtensionModel> {
    match x {
        JsonExtension::BasicConstraints { critical, ca, path_len } => Some(
            ExtensionModel {
                id: IntOrOidModel::Int(EXT_BASIC_CONSTRAINTS_ID),
                critical,
                value: ExtensionValueModel::BasicConstraints(
                    if ca {
                        BasicConstraints::Ca { path_len }
                    } else {
                        BasicConstraints::NotCa
                    },
                ),
            },
        ),
        JsonExtension::KeyUsage { critical, value } => Some(
            ExtensionModel {
                id: IntOrOidModel::Int(EXT_KEY_USAGE_ID),
                critical,
                value: ExtensionValueModel::KeyUsage(value),
            },
        ),
        JsonExtension::SubjectAltName { critical, dns_names } => Some(
            ExtensionModel {
                id: IntOrOidModel::Int(EXT_SUBJECT_ALT_NAME_ID),
                critical,
                value: ExtensionValueModel::SubjectAltName(
                    Seq::new(dns_names@.len(), |i: int| dns_name_of(dns_names@[i]@)),
                ),
            },
        ),
        JsonExtension::AuthorityKeyIdentifier { critical, key_identifier } => match hex_field(key_identifier@) {
            Some(k) => Some(
                ExtensionModel {
                    id: IntOrOidModel::Int(EXT_AUTHORITY_KEY_IDENTIFIER_ID),
                    critical,
                    value: ExtensionValueModel::AuthorityKeyIdentifier(
                        AuthorityKeyIdentifierModel { key_identifier: k, cert_issuer: None, cert_serial: None },
                    ),
                },
            ),
            None => None,
        },
        JsonExtension::ExtKeyUsage { critical, oids } => Some(
            ExtensionModel {
                id: IntOrOidModel::Int(EXT_EXT_KEY_USAGE_ID),
                critical,
                value: ExtensionValueModel::ExtKeyUsage(Seq::new(oids@.len(), |i: int| IntOrOidModel::Int(oids@[i]))),
            },
        ),
    }
}

impl JsonExtension {
    /// The extension this stands for.
    #[verifier::spinoff_prover]
    #[verifier::rlimit(20)]
    pub fn into_extension(self) -> (r: Result<Extension, String>)
        ensures
            match r {
                Ok(x) => extension_of(self) == Some(x.deep_view()),
                Err(_) => extension_of(self) is None,
            },
    {
        match self {
            JsonExtension::BasicConstraints { critical, ca, path_len } => Ok(
                Extension {
                    id: IntOrOid::Int(EXT_BASIC_CONSTRAINTS_ID),
                    critical,
                    value: ExtensionValue::BasicConstraints(
                        if ca {
                            BasicConstraints::Ca { path_len }
                        } else {
                            BasicConstraints::NotCa
                        },
                    ),
                },
            ),
            JsonExtension::KeyUsage { critical, value } => Ok(
                Extension { id: IntOrOid::Int(EXT_KEY_USAGE_ID), critical, value: ExtensionValue::KeyUsage(value) },
            ),
            JsonExtension::SubjectAltName { critical, dns_names } => {
                let mut names: Vec<GeneralName> = Vec::new();
                let mut i: usize = 0;
                while i < dns_names.len()
                    invariant
                        i <= dns_names@.len(),
                        names.deep_view() =~= Seq::new(i as nat, |k: int| dns_name_of(dns_names@[k]@)),
                    decreases dns_names@.len() - i,
                {
                    let ghost before = names.deep_view();
                    names.push(GeneralName { kind: GENERAL_NAME_DNS, value: GeneralNameValue::DnsName(dns_names[i].as_str().to_owned()) });
                    assert(names.deep_view() =~= before.push(dns_name_of(dns_names@[i as int]@)));
                    i = i + 1;
                    assert(names.deep_view() =~= Seq::new(i as nat, |k: int| dns_name_of(dns_names@[k]@)));
                }
                let x = Extension { id: IntOrOid::Int(EXT_SUBJECT_ALT_NAME_ID), critical, value: ExtensionValue::SubjectAltName(names) };
                assert(x.deep_view().value == ExtensionValueModel::SubjectAltName(
                    Seq::new(dns_names@.len(), |k: int| dns_name_of(dns_names@[k]@)),
                ));
                Ok(x)
            },
            JsonExtension::AuthorityKeyIdentifier { critical, key_identifier } => {
                let k = hex_bytes("authority_key_identifier.key_identifier", key_identifier.as_str())?;
                Ok(
                    Extension {
                        id: IntOrOid::Int(EXT_AUTHORITY_KEY_IDENTIFIER_ID),
                        critical,
                        value: ExtensionValue::AuthorityKeyIdentifier(
                            AuthorityKeyIdentifier { key_identifier: k, cert_issuer: None, cert_serial: None },
                        ),
                    },
                )
            },
            JsonExtension::ExtKeyUsage { critical, oids } => {
                let mut v: Vec<IntOrOid> = Vec::new();
                let mut i: usize = 0;
                while i < oids.len()
                    invariant
                        i <= oids@.len(),
                        v.deep_view() =~= Seq::new(i as nat, |k: int| IntOrOidModel::Int(oids@[k])),
                    decreases oids@.len() - i,
                {
                    let ghost before = v.deep_view();
                    v.push(IntOrOid::Int(oids[i]));
                    assert(v.deep_view() =~= before.push(IntOrOidModel::Int(oids@[i as int])));
                    i = i + 1;
                    assert(v.deep_view() =~= Seq::new(i as nat, |k: int| IntOrOidModel::Int(oids@[k])));
                }
                let x = Extension { id: IntOrOid::Int(EXT_EXT_KEY_USAGE_ID), critical, value: ExtensionValue::ExtKeyUsage(ExtKeyUsage(v)) };
                assert(x.deep_view().value == ExtensionValueModel::ExtKeyUsage(
                    Seq::new(oids@.len(), |k: int| IntOrOidModel::Int(oids@[k])),
                ));
                Ok(x)
            },
        }
    }
}

/// The extensions a list of JSON extensions stands for: each in turn; `None`
/// where one of them has no extension.
pub open spec fn extensions_of(xs: Seq<JsonExtension>) -> Option<Seq<ExtensionModel>>
    decreases xs.len(),
{
    if xs.len() == 0 {
        Some(Seq::empty())
    } else {
        match (extensions_of(xs.drop_last()), extension_of(xs.last())) {
            (Some(init), Some(x)) => Some(init.push(x)),
            _ => None,
        }
    }
}

/// Once one extension has none, the longer lists have none.
proof fn lemma_extensions_of_fails(xs: Seq<JsonExtension>, n: int)
    requires
        0 <= n <= xs.len(),
        extensions_of(xs.take(n)) is None,
    ensures
        extensions_of(xs) is None,
    decreases xs.len() - n,
{
    if n < xs.len() {
        assert(xs.take(n + 1).drop_last() =~= xs.take(n));
        lemma_extensions_of_fails(xs, n + 1);
    } else {
        assert(xs.take(n) =~= xs);
    }
}

/// The certificate a JSON certificate stands for; `None` where one of its
/// hex fields does not decode or one of its times does not parse.
pub open spec fn certificate_of(j: JsonCertificate) -> Option<CertificateModel> {
    match (
        hex_field(j.serial_number@),
        rfc3339_seconds(j.validity_not_before@),
        match j.validity_not_after {
            Some(s) => match rfc3339_seconds(s@) {
                Some(t) => Some(Some(t)),
                None => None,
            },
            None => Some(None),
        },
        hex_field(j.subject_public_key@),
        hex_field(j.issuer_signature_value@),
        extensions_of(j.extensions@),
    ) {
        (Some(serial), Some(not_before), Some(not_after), Some(spk), Some(sig), Some(exts)) => Some(
            CertificateModel {
                c509_certificate_type: j.certificate_type,
                certificate_serial_number: biguint_be(serial),
                issuer_signature_algorithm: AlgorithmIdentifierModel::Int(j.issuer_signature_algorithm),
                issuer: match j.issuer {
                    Some(n) => Some(name_of(n)),
                    None => None,
                },
                validity_not_before: not_before,
                validity_not_after: not_after,
                subject: name_of(j.subject),
                subject_public_key_algorithm: AlgorithmIdentifierModel::Int(j.subject_public_key_algorithm),
                subject_public_key: spk,
                extensions: exts,
                issuer_signature_value: sig,
            },
        ),
        _ => None,
    }
}

/// Convert each JSON extension in turn, stopping at the first that fails.
#[verifier::spinoff_prover]
#[verifier::rlimit(20)]
fn convert_extensions(xs: Vec<JsonExtension>) -> (r: Result<Vec<Extension>, String>)
    ensures
        match r {
            Ok(v) => extensions_of(xs@) == Some(v.deep_view()),
            Err(_) => extensions_of(xs@) is None,
        },
{
    let ghost all = xs@;
    let total = xs.len();
    let mut out: Vec<Extension> = Vec::new();
    let mut rest = xs;
    let mut i: usize = 0;
    assert(out.deep_view() =~= Seq::<ExtensionModel>::empty());
    assert(all.take(0) =~= Seq::<JsonExtension>::empty());
    while rest.len() > 0
        invariant
            i + rest@.len() == all.len(),
            all.len() == total,
            all == xs@,
            rest@ == all.skip(i as int),
            extensions_of(all.take(i as int)) == Some(out.deep_view()),
        decreases rest@.len(),
    {
        let x = rest.remove(0);
        assert(x == all[i as int]);
        assert(rest@ =~= all.skip(i + 1));
        assert(all.take(i + 1).drop_last() =~= all.take(i as int));
        assert(all.take(i + 1).last() == x);
        match x.into_extension() {
            Ok(e) => {
                let ghost before = out.deep_view();
                out.push(e);
                assert(out.deep_view() =~= before.push(e.deep_view()));
            },
            Err(msg) => {
                proof {
                    assert(extension_of(x) is None);
                    assert(extensions_of(all.take(i + 1)) is None);
                    lemma_extensions_of_fails(all, i + 1);
                }
                return Err(msg);
            },
        }
        i = i + 1;
    }
    assert(all.take(i as int) =~= all);
    Ok(out)
}

impl JsonCertificate {
    /// The certificate this describes.
    pub fn into_certificate(self) -> (r: Result<C509Certificate, String>)
        ensures
            match r {
                Ok(c) => certificate_of(self) == Some(c.deep_view()),
                Err(_) => certificate_of(self) is None,
            },
    {
        let ghost j = self;
        let serial = hex_bytes("serial_number", self.serial_number.as_str())?;
        let certificate_serial_number = serial_bytes(serial.as_slice());
        let validity_not_before = parse_rfc3339("validity_not_before", self.validity_not_before.as_str())?;
        let validity_not_after = match &self.validity_not_after {
            Some(s) => Some(parse_rfc3339("validity_not_after", s.as_str())?),
            None => None,
        };
        let subject_public_key = hex_bytes("subject_public_key", self.subject_public_key.as_str())?;
        let issuer_signature_value = hex_bytes("issuer_signature_value", self.issuer_signature_value.as_str())?;
        let extensions = convert_extensions(self.extensions)?;
        let issuer = match self.issuer {
            Some(n) => Some(n.into_name()),
            None => None,
        };
        let c = C509Certificate {
            tbs: TbsCertificate {
                c509_certificate_type: self.certificate_type,
                certificate_serial_number,
                issuer_signature_algorithm: AlgorithmIdentifier::Int(self.issuer_signature_algorithm),
                issuer,
                validity_not_before,
                validity_not_after,
                subject: self.subject.into_name(),
                subject_public_key_algorithm: AlgorithmIdentifier::Int(self.subject_public_key_algorithm),
                subject_public_key,
                extensions: Extensions(extensions),
            },
            issuer_signature_value,
        };
        assert(c.deep_view() == certificate_of(j).unwrap());
        Ok(c)
    }
}

/// A JSON attribute list becomes a name attribute by attribute: one RDN
/// attribute per JSON attribute, in the same order, with its id,
/// printableString flag and value.
pub proof fn law_json_name_attributes(attrs: Vec<JsonRdnAttribute>)
    ensures
        name_of(JsonName::Attributes(attrs)).len() == attrs@.len(),
        forall|k: int| 0 <= k < attrs@.len() ==> #[trigger] name_of(JsonName::Attributes(attrs))[k] == (RdnAttributeModel::Registered {
            id: attrs@[k].id,
            printable_string: attrs@[k].printable_string,
            value: special_text_of(attrs@[k].value@),
        }),
{
}

/// A JSON subjectAltName holds one `dNSName` per JSON name, in the same
/// order; a JSON extKeyUsage one registered purpose per JSON id, in the
/// same order.
pub proof fn law_json_extension_lists(critical: bool, dns_names: Vec<String>, oids: Vec<i32>)
    ensures
        extension_of(JsonExtension::SubjectAltName { critical, dns_names }) matches Some(x) && x.value matches ExtensionValueModel::SubjectAltName(g) && g.len() == dns_names@.len() && forall|k: int| 0 <= k < g.len() ==> #[trigger] g[k] == (GeneralNameModel { kind: 2, value: GeneralNameValueModel::DnsName(dns_names@[k]@) }),
        extension_of(JsonExtension::ExtKeyUsage { critical, oids }) matches Some(x) && x.value matches ExtensionValueModel::ExtKeyUsage(p) && p.len() == oids@.len() && forall|k: int| 0 <= k < p.len() ==> #[trigger] p[k] == IntOrOidModel::Int(oids@[k]),
{
}

/// A list of JSON extensions converts extension by extension: where each
/// converts, the list converts to as many extensions, in the same order;
/// where one does not, the list does not.
pub proof fn law_json_extensions(xs: Seq<JsonExtension>)
    ensures
        (forall|k: int| 0 <= k < xs.len() ==> (#[trigger] extension_of(xs[k])) is Some) <==> extensions_of(xs) is Some,
        extensions_of(xs) is Some ==> extensions_of(xs)->Some_0.len() == xs.len() && forall|k: int| 0 <= k < xs.len() ==> Some(#[trigger] extensions_of(xs)->Some_0[k]) == extension_of(xs[k]),
    decreases xs.len(),
{
    if xs.len() > 0 {
        let init = xs.drop_last();
        law_json_extensions(init);
        assert forall|k: int| 0 <= k < init.len() implies #[trigger] init[k] == xs[k] by {}
        if forall|k: int| 0 <= k < xs.len() ==> (#[trigger] extension_of(xs[k])) is Some {
            assert(extension_of(xs[xs.len() - 1]) is Some);
            assert forall|k: int| 0 <= k < init.len() implies (#[trigger] extension_of(init[k])) is Some by {
                assert(extension_of(xs[k]) is Some);
            }
        }
        if extensions_of(xs) is Some {
            assert forall|k: int| 0 <= k < xs.len() implies (#[trigger] extension_of(xs[k])) is Some by {
                if k < init.len() {
                    assert(extension_of(init[k]) is Some);
                }
            }
            assert forall|k: int| 0 <= k < xs.len() implies Some(#[trigger] extensions_of(xs)->Some_0[k]) == extension_of(xs[k]) by {
                if k < init.len() {
                    assert(Some(extensions_of(init)->Some_0[k]) == extension_of(init[k]));
                }
            }
        }
    }
}

} // verus!
