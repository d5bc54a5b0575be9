//! `GeneralName` (Section 8.13 "C509 General Names Registry"), used by
//! `SubjectAltName`/`IssuerAltName`, `AuthorityKeyIdentifier`, and
//! `NameConstraints`.
use vstd::prelude::*;

use crate::cbor::{
    bstr, cbor_bytes, cbor_i32, cbor_str, head, int_head, lemma_bstr, lemma_int_head,
    lemma_matches_split, lemma_tstr, matches_at, put_array, put_bytes, put_i32, put_str,
    raw_item_wf, spec_bytes, spec_datatype, spec_i32, spec_text, tstr, CborType,
};
use crate::common::{
    datatype, decode_mac, definite_array_len, expect_array_len, lemma_array_head, lemma_oid,
    lemma_raw_item, raw_item, spec_expect_array_len, spec_mac, spec_raw_item, write_raw, MacAddr,
};
use crate::error::{outcome, Error, Fault, Parsed};
use crate::name::{enc_name, lemma_name, name_fits, name_wf, spec_name, Name};
use crate::common::RdnAttributeModel;
use crate::oid::{decode_oid, oid_stable, spec_oid, Oid};
use crate::repeat::{
    enc_all, enc_paired, lemma_enc_all_push, lemma_paired, lemma_parse_n_next, lemma_parse_n_stop,
    parse_n, reads_back, spec_paired,
};
use vstd::utf8::encode_utf8;

use crate::registry::general_name_type_table;

verus! {

/// Section 8.13 "C509 General Names Registry": the value of a name, by its
/// registry type.
#[derive(Clone, PartialEq, Eq, Debug)]
pub enum GeneralNameValue {
    /// `otherName` (registry value 0): `[ ~oid, bytes ]`.
    OtherName { type_id: Oid, value: Vec<u8> },
    /// `otherName` with `id-on-hardwareModuleName` (registry value -1).
    HardwareModuleName { hw_type: Oid, hw_serial_num: Vec<u8> },
    /// `otherName` with `id-on-SmtpUTF8Mailbox` (registry value -2).
    SmtpUtf8Mailbox(String),
    /// `otherName` with `id-on-MACAddress` (registry value -3).
    MacAddress(MacAddr),
    /// registry value 1
    Rfc822Name(String),
    /// registry value 2
    DnsName(String),
    /// registry value 4
    DirectoryName(Name),
    /// registry value 6
    Uri(String),
    /// registry value 7
    IpAddress(Vec<u8>),
    /// registry value 8
    RegisteredId(Oid),
    /// A `GeneralNameType` this crate does not decode; the raw CBOR item.
    Raw(Vec<u8>),
}

/// The model of a [`GeneralNameValue`].
pub enum GeneralNameValueModel {
    OtherName { type_id: Seq<u8>, value: Seq<u8> },
    HardwareModuleName { hw_type: Seq<u8>, hw_serial_num: Seq<u8> },
    SmtpUtf8Mailbox(Seq<char>),
    MacAddress(Seq<u8>),
    Rfc822Name(Seq<char>),
    DnsName(Seq<char>),
    DirectoryName(Seq<RdnAttributeModel>),
    Uri(Seq<char>),
    IpAddress(Seq<u8>),
    RegisteredId(Seq<u8>),
    Raw(Seq<u8>),
}

impl DeepView for GeneralNameValue {
    type V = GeneralNameValueModel;

    open spec fn deep_view(&self) -> GeneralNameValueModel {
        match self {
            GeneralNameValue::OtherName { type_id, value } => GeneralNameValueModel::OtherName {
                type_id: type_id@,
                value: value@,
            },
            GeneralNameValue::HardwareModuleName { hw_type, hw_serial_num } => {
                GeneralNameValueModel::HardwareModuleName { hw_type: hw_type@, hw_serial_num: hw_serial_num@ }
            },
            GeneralNameValue::SmtpUtf8Mailbox(s) => GeneralNameValueModel::SmtpUtf8Mailbox(s@),
            GeneralNameValue::MacAddress(m) => GeneralNameValueModel::MacAddress(m@),
            GeneralNameValue::Rfc822Name(s) => GeneralNameValueModel::Rfc822Name(s@),
            GeneralNameValue::DnsName(s) => GeneralNameValueModel::DnsName(s@),
            GeneralNameValue::DirectoryName(n) => GeneralNameValueModel::DirectoryName(n.deep_view()),
            GeneralNameValue::Uri(s) => GeneralNameValueModel::Uri(s@),
            GeneralNameValue::IpAddress(b) => GeneralNameValueModel::IpAddress(b@),
            GeneralNameValue::RegisteredId(o) => GeneralNameValueModel::RegisteredId(o@),
            GeneralNameValue::Raw(b) => GeneralNameValueModel::Raw(b@),
        }
    }
}

/// A `GeneralName` is a single name in a list of names.
#[derive(Clone, PartialEq, Eq, Debug)]
pub struct GeneralName {
    pub kind: i32,
    pub value: GeneralNameValue,
}

/// The model of a [`GeneralName`].
pub struct GeneralNameModel {
    pub kind: i32,
    pub value: GeneralNameValueModel,
}

impl DeepView for GeneralName {
    type V = GeneralNameModel;

    open spec fn deep_view(&self) -> GeneralNameModel {
        GeneralNameModel { kind: self.kind, value: self.value.deep_view() }
    }
}

/// Reading `[ ~oid, bytes ]`.
pub open spec fn spec_oid_and_bytes(input: Seq<u8>, pos: int) -> Parsed<(Seq<u8>, Seq<u8>)> {
    match spec_expect_array_len(input, pos, 2) {
        Ok((_, e)) => match spec_oid(input, e) {
            Ok((o, e2)) => match spec_bytes(input, e2) {
                Ok((b, e3)) => Ok(((o, b), e3)),
                Err(f) => Err(f),
            },
            Err(f) => Err(f),
        },
        Err(f) => Err(f),
    }
}

/// Decoding the value of a `GeneralName` of registry type `kind`; a type
/// this crate does not decode is kept as its raw CBOR item.
pub open spec fn spec_general_name_value(input: Seq<u8>, pos: int, kind: i32) -> Parsed<GeneralNameValueModel> {
    if kind == -3 {
        match spec_bytes(input, pos) {
            Ok((b, e)) => match spec_mac(b) {
                Ok(m) => Ok((GeneralNameValueModel::MacAddress(m), e)),
                Err(f) => Err(f),
            },
            Err(f) => Err(f),
        }
    } else if kind == -2 || kind == 1 || kind == 2 || kind == 6 {
        match spec_text(input, pos) {
            Ok((s, e)) => Ok(
                (
                    if kind == -2 {
                        GeneralNameValueModel::SmtpUtf8Mailbox(s)
                    } else if kind == 1 {
                        GeneralNameValueModel::Rfc822Name(s)
                    } else if kind == 2 {
                        GeneralNameValueModel::DnsName(s)
                    } else {
                        GeneralNameValueModel::Uri(s)
                    },
                    e,
                ),
            ),
            Err(f) => Err(f),
        }
    } else if kind == -1 || kind == 0 {
        match spec_oid_and_bytes(input, pos) {
            Ok(((o, b), e)) => Ok(
                (
                    if kind == -1 {
                        GeneralNameValueModel::HardwareModuleName { hw_type: o, hw_serial_num: b }
                    } else {
                        GeneralNameValueModel::OtherName { type_id: o, value: b }
                    },
                    e,
                ),
            ),
            Err(f) => Err(f),
        }
    } else if kind == 4 {
        match spec_name(input, pos) {
            Ok((n, e)) => Ok((GeneralNameValueModel::DirectoryName(n), e)),
            Err(f) => Err(f),
        }
    } else if kind == 7 {
        match spec_bytes(input, pos) {
            Ok((b, e)) => Ok((GeneralNameValueModel::IpAddress(b), e)),
            Err(f) => Err(f),
        }
    } else if kind == 8 {
        match spec_oid(input, pos) {
            Ok((o, e)) => Ok((GeneralNameValueModel::RegisteredId(o), e)),
            Err(f) => Err(f),
        }
    } else {
        match spec_raw_item(input, pos) {
            Ok((b, e)) => Ok((GeneralNameValueModel::Raw(b), e)),
            Err(f) => Err(f),
        }
    }
}

/// Decoding a `GeneralName`: its registry type, then the value.
pub open spec fn spec_general_name(input: Seq<u8>, pos: int) -> Parsed<GeneralNameModel> {
    match spec_i32(input, pos) {
        Ok((kind, e)) => match spec_general_name_value(input, e, kind) {
            Ok((v, e2)) => Ok((GeneralNameModel { kind, value: v }, e2)),
            Err(f) => Err(f),
        },
        Err(f) => Err(f),
    }
}

/// The encoding of a `GeneralName`'s value.
pub open spec fn enc_general_name_value(v: GeneralNameValueModel) -> Seq<u8> {
    match v {
        GeneralNameValueModel::MacAddress(m) => bstr(m),
        GeneralNameValueModel::SmtpUtf8Mailbox(s) => tstr(s),
        GeneralNameValueModel::HardwareModuleName { hw_type, hw_serial_num } => head(4, 2) + bstr(
            hw_type,
        ) + bstr(hw_serial_num),
        GeneralNameValueModel::OtherName { type_id, value } => head(4, 2) + bstr(type_id) + bstr(
            value,
        ),
        GeneralNameValueModel::Rfc822Name(s) => tstr(s),
        GeneralNameValueModel::DnsName(s) => tstr(s),
        GeneralNameValueModel::Uri(s) => tstr(s),
        GeneralNameValueModel::DirectoryName(n) => enc_name(n),
        GeneralNameValueModel::IpAddress(b) => bstr(b),
        GeneralNameValueModel::RegisteredId(o) => bstr(o),
        GeneralNameValueModel::Raw(b) => b,
    }
}

/// The encoding of a `GeneralName`.
pub open spec fn enc_general_name(g: GeneralNameModel) -> Seq<u8> {
    int_head(g.kind as int) + enc_general_name_value(g.value)
}

/// A `GeneralName` that can be written: a directory name's header fits.
pub open spec fn general_name_fits(g: GeneralNameModel) -> bool {
    g.value matches GeneralNameValueModel::DirectoryName(n) ==> name_fits(n)
}

/// The registry types whose values this crate decodes into a typed form;
/// the value of any other type is kept as its raw CBOR item.
pub open spec fn typed_general_name_kind(kind: i32) -> bool {
    -3 <= kind <= 2 || kind == 4 || kind == 6 || kind == 7 || kind == 8
}

/// A `GeneralName` that survives encoding: its `kind` is the registry type
/// of its typed value, or one with no typed form for a raw value that is
/// one complete CBOR data item; and its parts survive their own encoding.
pub open spec fn general_name_wf(g: GeneralNameModel) -> bool {
    match g.value {
        GeneralNameValueModel::MacAddress(m) => g.kind == -3 && (m.len() == 6 || m.len() == 8),
        GeneralNameValueModel::SmtpUtf8Mailbox(s) => g.kind == -2 && encode_utf8(s).len() <= u64::MAX,
        GeneralNameValueModel::HardwareModuleName { hw_type, hw_serial_num } => g.kind == -1
            && oid_stable(hw_type) && hw_type.len() <= u64::MAX && hw_serial_num.len() <= u64::MAX,
        GeneralNameValueModel::OtherName { type_id, value } => g.kind == 0 && oid_stable(type_id)
            && type_id.len() <= u64::MAX && value.len() <= u64::MAX,
        GeneralNameValueModel::Rfc822Name(s) => g.kind == 1 && encode_utf8(s).len() <= u64::MAX,
        GeneralNameValueModel::DnsName(s) => g.kind == 2 && encode_utf8(s).len() <= u64::MAX,
        GeneralNameValueModel::DirectoryName(n) => g.kind == 4 && name_wf(n),
        GeneralNameValueModel::Uri(s) => g.kind == 6 && encode_utf8(s).len() <= u64::MAX,
        GeneralNameValueModel::IpAddress(b) => g.kind == 7 && b.len() <= u64::MAX,
        GeneralNameValueModel::RegisteredId(o) => g.kind == 8 && oid_stable(o) && o.len() <= u64::MAX,
        GeneralNameValueModel::Raw(b) => !typed_general_name_kind(g.kind) && raw_item_wf(b),
    }
}

/// The registry name of the kind of general name a typed value is.
pub open spec fn general_name_kind_name(v: GeneralNameValueModel) -> Option<&'static str> {
    match v {
        GeneralNameValueModel::OtherName { .. } => Some("otherName"),
        GeneralNameValueModel::HardwareModuleName { .. } => Some("otherName (hardwareModuleName)"),
        GeneralNameValueModel::SmtpUtf8Mailbox(_) => Some("otherName (SmtpUTF8Mailbox)"),
        GeneralNameValueModel::MacAddress(_) => Some("otherName (MACAddress)"),
        GeneralNameValueModel::Rfc822Name(_) => Some("rfc822Name"),
        GeneralNameValueModel::DnsName(_) => Some("dNSName"),
        GeneralNameValueModel::DirectoryName(_) => Some("directoryName"),
        GeneralNameValueModel::Uri(_) => Some("uniformResourceIdentifier"),
        GeneralNameValueModel::IpAddress(_) => Some("iPAddress"),
        GeneralNameValueModel::RegisteredId(_) => Some("registeredID"),
        GeneralNameValueModel::Raw(_) => None,
    }
}

/// A general name that survives encoding carries, for a typed value, the
/// registry type whose name is the name of its kind.
pub proof fn law_general_name_kind_names(g: GeneralNameModel)
    requires
        general_name_wf(g),
        g.value !is Raw,
    ensures
        general_name_type_table(g.kind) == general_name_kind_name(g.value),
{
}

/// Read `[ ~oid, bytes ]`.
fn decode_oid_and_bytes(input: &[u8], pos: usize) -> (r: Result<((Oid, Vec<u8>), usize), Error>)
    ensures
        match r {
            Ok(((o, b), e)) => spec_oid_and_bytes(input@, pos as int) == Ok::<((Seq<u8>, Seq<u8>), int), Fault>(((o@, b@), e as int)),
            Err(err) => spec_oid_and_bytes(input@, pos as int) == Err::<((Seq<u8>, Seq<u8>), int), Fault>(err.fault()),
        },
{
    let (_, e) = expect_array_len(input, pos, 2)?;
    let (o, e2) = decode_oid(input, e)?;
    match cbor_bytes(input, e2) {
        Ok((b, e3)) => Ok(((o, b), e3)),
        Err(err) => Err(Error::Cbor(err)),
    }
}

/// Read a text string, mapping the error.
fn decode_text(input: &[u8], pos: usize) -> (r: Result<(String, usize), Error>)
    ensures
        match r {
            Ok((s, e)) => spec_text(input@, pos as int) == Ok::<(Seq<char>, int), Fault>((s@, e as int)),
            Err(err) => spec_text(input@, pos as int) == Err::<(Seq<char>, int), Fault>(err.fault()),
        },
{
    match cbor_str(input, pos) {
        Ok(x) => Ok(x),
        Err(err) => Err(Error::Cbor(err)),
    }
}

/// Read a byte string, mapping the error.
fn decode_bytes(input: &[u8], pos: usize) -> (r: Result<(Vec<u8>, usize), Error>)
    ensures
        match r {
            Ok((b, e)) => spec_bytes(input@, pos as int) == Ok::<(Seq<u8>, int), Fault>((b@, e as int)),
            Err(err) => spec_bytes(input@, pos as int) == Err::<(Seq<u8>, int), Fault>(err.fault()),
        },
{
    match cbor_bytes(input, pos) {
        Ok(x) => Ok(x),
        Err(err) => Err(Error::Cbor(err)),
    }
}

impl GeneralName {
    /// Decode a `GeneralName`.
    pub fn decode(input: &[u8], pos: usize) -> (r: Result<(Self, usize), Error>)
        ensures
            outcome(r) == spec_general_name(input@, pos as int),
    {
        let (kind, e) = match cbor_i32(input, pos) {
            Ok(x) => x,
            Err(err) => return Err(Error::Cbor(err)),
        };
        let (value, e2) = if kind == -3 {
            let (b, e2) = decode_bytes(input, e)?;
            (GeneralNameValue::MacAddress(decode_mac(b.as_slice())?), e2)
        } else if kind == -2 {
            let (s, e2) = decode_text(input, e)?;
            (GeneralNameValue::SmtpUtf8Mailbox(s), e2)
        } else if kind == -1 {
            let ((hw_type, hw_serial_num), e2) = decode_oid_and_bytes(input, e)?;
            (GeneralNameValue::HardwareModuleName { hw_type, hw_serial_num }, e2)
        } else if kind == 0 {
            let ((type_id, value), e2) = decode_oid_and_bytes(input, e)?;
            (GeneralNameValue::OtherName { type_id, value }, e2)
        } else if kind == 1 {
            let (s, e2) = decode_text(input, e)?;
            (GeneralNameValue::Rfc822Name(s), e2)
        } else if kind == 2 {
            let (s, e2) = decode_text(input, e)?;
            (GeneralNameValue::DnsName(s), e2)
        } else if kind == 4 {
            let (n, e2) = Name::decode(input, e)?;
            (GeneralNameValue::DirectoryName(n), e2)
        } else if kind == 6 {
            let (s, e2) = decode_text(input, e)?;
            (GeneralNameValue::Uri(s), e2)
        } else if kind == 7 {
            let (b, e2) = decode_bytes(input, e)?;
            (GeneralNameValue::IpAddress(b), e2)
        } else if kind == 8 {
            let (o, e2) = decode_oid(input, e)?;
            (GeneralNameValue::RegisteredId(o), e2)
        } else {
            let (b, e2) = raw_item(input, e)?;
            assert(b.deep_view() =~= b@);
            (GeneralNameValue::Raw(b), e2)
        };
        Ok((GeneralName { kind, value }, e2))
    }

    /// Encode a `GeneralName`.
    pub fn encode(&self, buf: &mut Vec<u8>)
        requires
            general_name_fits(self.deep_view()),
        ensures
            final(buf)@ == old(buf)@ + enc_general_name(self.deep_view()),
    {
        put_i32(buf, self.kind);
        match &self.value {
            GeneralNameValue::MacAddress(mac) => put_bytes(buf, mac.as_bytes()),
            GeneralNameValue::SmtpUtf8Mailbox(s) => put_str(buf, s.as_str()),
            GeneralNameValue::HardwareModuleName { hw_type, hw_serial_num } => {
                put_array(buf, 2);
                put_bytes(buf, hw_type.as_bytes());
                put_bytes(buf, hw_serial_num.as_slice());
            },
            GeneralNameValue::OtherName { type_id, value } => {
                put_array(buf, 2);
                put_bytes(buf, type_id.as_bytes());
                put_bytes(buf, value.as_slice());
            },
            GeneralNameValue::Rfc822Name(s) => put_str(buf, s.as_str()),
            GeneralNameValue::DnsName(s) => put_str(buf, s.as_str()),
            GeneralNameValue::Uri(s) => put_str(buf, s.as_str()),
            GeneralNameValue::DirectoryName(n) => n.encode(buf),
            GeneralNameValue::IpAddress(b) => put_bytes(buf, b.as_slice()),
            GeneralNameValue::RegisteredId(oid) => put_bytes(buf, oid.as_bytes()),
            GeneralNameValue::Raw(bytes) => write_raw(buf, bytes.as_slice()),
        }
    }
}

/// A `GeneralName` is read back as written.
#[verifier::spinoff_prover]
#[verifier::rlimit(30)]
pub proof fn lemma_general_name(input: Seq<u8>, pos: int, g: GeneralNameModel)
    requires
        general_name_wf(g),
        matches_at(input, pos, enc_general_name(g)),
    ensures
        spec_general_name(input, pos) == Ok::<(GeneralNameModel, int), Fault>(
            (g, pos + enc_general_name(g).len()),
        ),
        input[pos] != 0xf6,
        input[pos] != 0xff,
{
    let h = int_head(g.kind as int);
    let v = enc_general_name_value(g.value);
    lemma_matches_split(input, pos, h, v);
    lemma_int_head(input, pos, g.kind as int);
    let e = pos + h.len();
    match g.value {
        GeneralNameValueModel::MacAddress(m) => lemma_bstr(input, e, m),
        GeneralNameValueModel::SmtpUtf8Mailbox(s) => lemma_tstr(input, e, s),
        GeneralNameValueModel::Rfc822Name(s) => lemma_tstr(input, e, s),
        GeneralNameValueModel::DnsName(s) => lemma_tstr(input, e, s),
        GeneralNameValueModel::Uri(s) => lemma_tstr(input, e, s),
        GeneralNameValueModel::HardwareModuleName { hw_type: o, hw_serial_num: b } => {
            let ah = head(4, 2);
            assert(v == ah + (bstr(o) + bstr(b)));
            lemma_matches_split(input, e, ah, bstr(o) + bstr(b));
            lemma_matches_split(input, e + ah.len(), bstr(o), bstr(b));
            lemma_array_head(input, e, 2);
            lemma_oid(input, e + ah.len(), o);
            lemma_bstr(input, e + ah.len() + bstr(o).len(), b);
        },
        GeneralNameValueModel::OtherName { type_id: o, value: b } => {
            let ah = head(4, 2);
            assert(v == ah + (bstr(o) + bstr(b)));
            lemma_matches_split(input, e, ah, bstr(o) + bstr(b));
            lemma_matches_split(input, e + ah.len(), bstr(o), bstr(b));
            lemma_array_head(input, e, 2);
            lemma_oid(input, e + ah.len(), o);
            lemma_bstr(input, e + ah.len() + bstr(o).len(), b);
        },
        GeneralNameValueModel::DirectoryName(n) => lemma_name(input, e, n),
        GeneralNameValueModel::IpAddress(b) => lemma_bstr(input, e, b),
        GeneralNameValueModel::RegisteredId(o) => lemma_oid(input, e, o),
        GeneralNameValueModel::Raw(b) => lemma_raw_item(input, e, b),
    }
}

/// The reader of one `GeneralName`.
pub open spec fn general_name_parser() -> spec_fn(Seq<u8>, int) -> Parsed<GeneralNameModel> {
    |i: Seq<u8>, p: int| spec_general_name(i, p)
}

/// The writer of one `GeneralName`.
pub open spec fn general_name_writer() -> spec_fn(GeneralNameModel) -> Seq<u8> {
    |g: GeneralNameModel| enc_general_name(g)
}

/// Decoding `GeneralNames`: an array of `2 * n` items holds `n` names.
pub open spec fn spec_general_names(input: Seq<u8>, pos: int) -> Parsed<Seq<GeneralNameModel>> {
    spec_paired(input, pos, "GeneralNames array must have an even number of elements", general_name_parser())
}

/// The encoding of `GeneralNames`.
pub open spec fn enc_general_names(names: Seq<GeneralNameModel>) -> Seq<u8> {
    enc_paired(names, general_name_writer())
}

/// `GeneralNames` that can be written.
pub open spec fn general_names_fit(names: Seq<GeneralNameModel>) -> bool {
    &&& names.len() * 2 <= u64::MAX
    &&& forall|k: int| 0 <= k < names.len() ==> general_name_fits(#[trigger] names[k])
}

/// `GeneralNames` that survive encoding.
pub open spec fn general_names_wf(names: Seq<GeneralNameModel>) -> bool {
    &&& names.len() * 2 <= u64::MAX
    &&& forall|k: int| 0 <= k < names.len() ==> general_name_wf(#[trigger] names[k])
}

/// Decode a list of `GeneralName`s.
pub fn decode_general_names(input: &[u8], pos: usize) -> (r: Result<(Vec<GeneralName>, usize), Error>)
    ensures
        outcome(r) == spec_general_names(input@, pos as int),
{
    let (len, start) = definite_array_len(input, pos)?;
    if len % 2 != 0 {
        return Err(Error::Malformed("GeneralNames array must have an even number of elements"));
    }
    let n = len / 2;
    let mut out: Vec<GeneralName> = Vec::new();
    let mut p = start;
    let mut i: u64 = 0;
    assert(out.deep_view() =~= Seq::<GeneralNameModel>::empty());
    while i < n
        invariant
            i <= n,
            spec_general_names(input@, pos as int) == parse_n(input@, start as int, n as nat, general_name_parser()),
            parse_n(input@, start as int, i as nat, general_name_parser()) == Ok::<(Seq<GeneralNameModel>, int), Fault>(
                (out.deep_view(), p as int),
            ),
        decreases n - i,
    {
        proof {
            lemma_parse_n_next(input@, start as int, i as nat, general_name_parser(), out.deep_view(), p as int);
        }
        match GeneralName::decode(input, p) {
            Ok((g, q)) => {
                let ghost before = out.deep_view();
                out.push(g);
                assert(out.deep_view() =~= before.push(g.deep_view()));
                p = q;
            },
            Err(e) => {
                proof {
                    lemma_parse_n_stop(input@, start as int, i as nat, n as nat, general_name_parser(), out.deep_view(), p as int, e.fault());
                }
                return Err(e);
            },
        }
        i = i + 1;
    }
    Ok((out, p))
}

/// Encode a list of `GeneralName`s.
pub fn encode_general_names(names: &Vec<GeneralName>, buf: &mut Vec<u8>)
    requires
        general_names_fit(names.deep_view()),
    ensures
        final(buf)@ == old(buf)@ + enc_general_names(names.deep_view()),
{
    put_array(buf, names.len() as u64 * 2);
    let ghost after_head = buf@;
    let mut i: usize = 0;
    while i < names.len()
        invariant
            i <= names@.len(),
            general_names_fit(names.deep_view()),
            buf@ == after_head + enc_all(names.deep_view().take(i as int), general_name_writer()),
        decreases names@.len() - i,
    {
        assert(general_name_fits(names.deep_view()[i as int]));
        names[i].encode(buf);
        proof {
            lemma_enc_all_push(names.deep_view().take(i as int), names.deep_view()[i as int], general_name_writer());
            assert(names.deep_view().take(i as int).push(names.deep_view()[i as int]) =~= names.deep_view().take(i + 1));
        }
        i = i + 1;
    }
    assert(names.deep_view().take(i as int) =~= names.deep_view());
}

/// `GeneralNames` are read back as written.
pub proof fn lemma_general_names(input: Seq<u8>, pos: int, names: Seq<GeneralNameModel>)
    requires
        general_names_wf(names),
        matches_at(input, pos, enc_general_names(names)),
    ensures
        spec_general_names(input, pos) == Ok::<(Seq<GeneralNameModel>, int), Fault>(
            (names, pos + enc_general_names(names).len()),
        ),
        spec_datatype(input, pos) == Some(CborType::Array),
        input[pos] != 0xf6,
        input[pos] != 0xff,
{
    assert forall|k: int| 0 <= k < names.len() implies reads_back(
        general_name_parser(),
        general_name_writer(),
        #[trigger] names[k],
    ) by {
        assert(general_name_wf(names[k]));
        assert forall|i: Seq<u8>, p: int| #[trigger] matches_at(i, p, general_name_writer()(names[k])) implies general_name_parser()(i, p)
            == Ok::<(GeneralNameModel, int), Fault>((names[k], p + general_name_writer()(names[k]).len())) by {
            lemma_general_name(i, p, names[k]);
        }
    }
    lemma_paired(input, pos, "GeneralNames array must have an even number of elements", names, general_name_parser(), general_name_writer());
}

/// The single `dNSName` that the bare-text form of an alternative name
/// stands for.
pub open spec fn dns_name(s: Seq<char>) -> GeneralNameModel {
    GeneralNameModel { kind: 2, value: GeneralNameValueModel::DnsName(s) }
}

/// Decoding a `SubjectAltName` or `IssuerAltName`:
/// `GeneralNames / text`, where text is a single `dNSName`.
pub open spec fn spec_alt_name(input: Seq<u8>, pos: int) -> Parsed<Seq<GeneralNameModel>> {
    match spec_datatype(input, pos) {
        None => Err(Fault::Cbor),
        Some(CborType::Text) => match spec_text(input, pos) {
            Ok((s, e)) => Ok((seq![dns_name(s)], e)),
            Err(f) => Err(f),
        },
        Some(_) => spec_general_names(input, pos),
    }
}

/// The name text of a list that is a lone `dNSName`.
pub open spec fn lone_dns_name(names: Seq<GeneralNameModel>) -> Option<Seq<char>> {
    if names.len() == 1 && names[0].kind == 2 {
        match names[0].value {
            GeneralNameValueModel::DnsName(s) => Some(s),
            _ => None,
        }
    } else {
        None
    }
}

/// The encoding of an alternative name: a lone `dNSName` as bare text.
pub open spec fn enc_alt_name(names: Seq<GeneralNameModel>) -> Seq<u8> {
    match lone_dns_name(names) {
        Some(s) => tstr(s),
        None => enc_general_names(names),
    }
}

/// Decode a `SubjectAltName` or `IssuerAltName`.
/// `SubjectAltName = GeneralNames / text` (and identically `IssuerAltName`)
pub fn decode_alt_name(input: &[u8], pos: usize) -> (r: Result<(Vec<GeneralName>, usize), Error>)
    ensures
        outcome(r) == spec_alt_name(input@, pos as int),
{
    match datatype(input, pos)? {
        CborType::Text => {
            let (s, e) = decode_text(input, pos)?;
            let mut out: Vec<GeneralName> = Vec::new();
            out.push(GeneralName { kind: 2, value: GeneralNameValue::DnsName(s) });
            assert(out.deep_view() =~= seq![dns_name(s@)]);
            Ok((out, e))
        },
        _ => decode_general_names(input, pos),
    }
}

/// Encode a `SubjectAltName` or `IssuerAltName`.
pub fn encode_alt_name(names: &Vec<GeneralName>, buf: &mut Vec<u8>)
    requires
        general_names_fit(names.deep_view()),
    ensures
        final(buf)@ == old(buf)@ + enc_alt_name(names.deep_view()),
{
    if names.len() == 1 && names[0].kind == 2 {
        match &names[0].value {
            GeneralNameValue::DnsName(s) => {
                put_str(buf, s.as_str());
                return;
            },
            _ => {},
        }
    }
    encode_general_names(names, buf);
}

/// An alternative name is read back as written.
pub proof fn lemma_alt_name(input: Seq<u8>, pos: int, names: Seq<GeneralNameModel>)
    requires
        general_names_wf(names),
        matches_at(input, pos, enc_alt_name(names)),
    ensures
        spec_alt_name(input, pos) == Ok::<(Seq<GeneralNameModel>, int), Fault>(
            (names, pos + enc_alt_name(names).len()),
        ),
        input[pos] != 0xf6,
        input[pos] != 0xff,
{
    match lone_dns_name(names) {
        Some(s) => {
            assert(general_name_wf(names[0]));
            lemma_tstr(input, pos, s);
            assert(seq![dns_name(s)] =~= names);
        },
        None => {
            lemma_general_names(input, pos, names);
        },
    }
}

} // verus!
