//! X.509 extension encoding (Section 3.1.10 / Section 3.3).
//!
//! ```text
//! Extensions = [ * Extension ] / int
//!
//! Extension = (
//!     ( extensionID: int, extensionValue: Defined ) //
//!     ( extensionID: ~oid, extensionValue: bytes / [ bytes ] )
//! )
//! ```
//!
//! Every extension listed in Section 3.3 gets a typed [`ExtensionValue`]
//! variant; anything else (an unrecognized int `extensionID`, or any
//! `~oid`-identified extension) is kept as [`ExtensionValue::Raw`] — the
//! undecoded DER `extnValue` bytes for the oid form, or the raw CBOR item
//! bytes for an unrecognized int form.
pub mod access_description;
pub mod authority_key_identifier;
pub mod basic_constraints;
pub mod distribution_point;
pub mod ext_key_usage;
pub mod general_name;
pub mod ip_addr;
pub mod name_constraints;
pub mod policy;
pub mod subject_directory_attributes;

use vstd::prelude::*;

use crate::cbor::{
    bstr, cbor_array, cbor_bytes, cbor_datatype, cbor_i32, cbor_null, cbor_u32, head, int_head,
    lemma_bstr, lemma_head_at_advance, lemma_int_head, lemma_matches_split, matches_at, put_array,
    put_bytes, put_i32, put_null, put_u32, spec_array, spec_bytes, spec_datatype, spec_i32,
    spec_null, spec_u32, raw_item_wf, CborType,
};
use crate::common::{
    datatype, definite_array_len, expect_array_len, into_cbor, is_array_type,
    lemma_array_head, lemma_oid, lemma_raw_item, raw_item, spec_expect_array_len, spec_raw_item, write_raw,
    IntOrOid, IntOrOidModel,
};
use crate::error::{outcome, Error, Fault, Parsed};
use crate::oid::{decode_oid, oid_stable, spec_oid};
use crate::repeat::{
    as_cbor, enc_all, enc_counted, enc_paired, lemma_counted, lemma_enc_all_push, lemma_paired,
    lemma_parse_n_next, lemma_parse_n_stop, parse_n, parse_until_break, prepend, reads_back,
    spec_any_array, spec_paired,
};
use access_description::{
    access_descriptions_wf, enc_access_descriptions, lemma_access_descriptions,
    spec_access_descriptions, AccessDescription, AccessDescriptionModel,
};
use authority_key_identifier::{
    authority_key_identifier_encodes, authority_key_identifier_fits, authority_key_identifier_wf,
    enc_authority_key_identifier, lemma_authority_key_identifier, spec_authority_key_identifier,
    AuthorityKeyIdentifier, AuthorityKeyIdentifierModel,
};
use basic_constraints::{
    basic_constraints_encodes, enc_basic_constraints, lemma_basic_constraints,
    spec_basic_constraints, BasicConstraints,
};
use distribution_point::{
    distribution_points_fit, distribution_points_wf, enc_distribution_points,
    lemma_distribution_points, spec_distribution_points, DistributionPointName,
    DistributionPointNameModel,
};
use ext_key_usage::{enc_ext_key_usage, ext_key_usage_wf, lemma_ext_key_usage, spec_ext_key_usage, ExtKeyUsage};
use general_name::{
    decode_alt_name, enc_alt_name, encode_alt_name, general_names_fit, general_names_wf,
    lemma_alt_name, spec_alt_name, GeneralName, GeneralNameModel,
};
use ip_addr::{
    decode_as_identifiers, decode_ip_address_families, enc_as_identifiers, enc_ip_families,
    encode_as_identifiers, encode_ip_address_families, ip_families_fit, ip_families_wf,
    lemma_as_identifiers, lemma_ip_families, spec_as_identifiers, spec_ip_families, AsIdOrRange,
    IpAddressFamily, IpAddressFamilyModel,
};
use name_constraints::{
    enc_name_constraints, lemma_name_constraints, name_constraints_fit, name_constraints_wf,
    spec_name_constraints, NameConstraints, NameConstraintsModel,
};
use policy::certificate_policies::{
    certificate_policies_fit, certificate_policies_wf, enc_certificate_policies,
    lemma_certificate_policies, spec_certificate_policies, CertificatePolicies, PolicyModel,
};
use policy::policy_constraints::{
    enc_policy_constraints, lemma_policy_constraints, spec_policy_constraints, PolicyConstraints,
};
use policy::policy_mappings::{
    enc_policy_mappings, lemma_policy_mappings, policy_mappings_wf, spec_policy_mappings,
    PolicyMappings,
};
use subject_directory_attributes::{
    enc_subject_directory_attributes, lemma_subject_directory_attributes,
    spec_subject_directory_attributes, subject_directory_attributes_fit,
    subject_directory_attributes_wf, RdnAttributesModel, SubjectDirectoryAttributes,
};

use crate::registry::extension_table;

verus! {

// ============================== ExtensionValue ===============================

/// An extension value.
#[derive(Clone, PartialEq, Eq, Debug)]
pub enum ExtensionValue {
    /// id 1
    SubjectKeyIdentifier(Vec<u8>),
    /// id 2 — `KeyUsage` BIT STRING interpreted as an unsigned int (network
    /// byte order).
    KeyUsage(u32),
    /// id 3
    SubjectAltName(Vec<GeneralName>),
    /// id 4
    BasicConstraints(BasicConstraints),
    /// id 5
    CrlDistributionPoints(Vec<DistributionPointName>),
    /// id 6
    CertificatePolicies(CertificatePolicies),
    /// id 7
    AuthorityKeyIdentifier(AuthorityKeyIdentifier),
    /// id 8
    ExtKeyUsage(ExtKeyUsage),
    /// id 9
    AuthorityInfoAccess(Vec<AccessDescription>),
    /// id 24
    SubjectDirectoryAttributes(SubjectDirectoryAttributes),
    /// id 25
    IssuerAltName(Vec<GeneralName>),
    /// id 26
    NameConstraints(NameConstraints),
    /// id 27
    PolicyMappings(PolicyMappings),
    /// id 28
    PolicyConstraints(PolicyConstraints),
    /// id 29
    FreshestCrl(Vec<DistributionPointName>),
    /// id 30
    InhibitAnyPolicy(u32),
    /// id 31
    SubjectInfoAccess(Vec<AccessDescription>),
    /// id 32 (`id-pe-ipAddrBlocks`, RFC 3779)
    IpAddrBlocks(Vec<IpAddressFamily>),
    /// id 33 (`id-pe-autonomousSysIds`, RFC 3779)
    AsIdentifiers(Option<Vec<AsIdOrRange>>),
    /// id 34 (`id-pe-ipAddrBlocks-v2`, RFC 8360)
    IpAddrBlocksV2(Vec<IpAddressFamily>),
    /// id 35 (`id-pe-autonomousSysIds-v2`, RFC 8360)
    AsIdentifiersV2(Option<Vec<AsIdOrRange>>),
    /// id 36 (`id-pkix-ocsp-nocheck`)
    OcspNoCheck,
    /// id 38 (`id-pe-tlsfeature`)
    TlsFeatures(Vec<u32>),
    /// Any int `extensionID` not special-cased above, or any `~oid`
    /// extension: the raw undecoded value (DER `extnValue` bytes for the
    /// oid form, raw CBOR item bytes for the int form).
    Raw(Vec<u8>),
}

/// The model of an [`ExtensionValue`].
pub enum ExtensionValueModel {
    SubjectKeyIdentifier(Seq<u8>),
    KeyUsage(u32),
    SubjectAltName(Seq<GeneralNameModel>),
    BasicConstraints(BasicConstraints),
    CrlDistributionPoints(Seq<DistributionPointNameModel>),
    CertificatePolicies(Seq<PolicyModel>),
    AuthorityKeyIdentifier(AuthorityKeyIdentifierModel),
    ExtKeyUsage(Seq<IntOrOidModel>),
    AuthorityInfoAccess(Seq<AccessDescriptionModel>),
    SubjectDirectoryAttributes(Seq<RdnAttributesModel>),
    IssuerAltName(Seq<GeneralNameModel>),
    NameConstraints(NameConstraintsModel),
    PolicyMappings(Seq<(IntOrOidModel, IntOrOidModel)>),
    PolicyConstraints(PolicyConstraints),
    FreshestCrl(Seq<DistributionPointNameModel>),
    InhibitAnyPolicy(u32),
    SubjectInfoAccess(Seq<AccessDescriptionModel>),
    IpAddrBlocks(Seq<IpAddressFamilyModel>),
    AsIdentifiers(Option<Seq<AsIdOrRange>>),
    IpAddrBlocksV2(Seq<IpAddressFamilyModel>),
    AsIdentifiersV2(Option<Seq<AsIdOrRange>>),
    OcspNoCheck,
    TlsFeatures(Seq<u32>),
    Raw(Seq<u8>),
}

impl DeepView for ExtensionValue {
    type V = ExtensionValueModel;

    open spec fn deep_view(&self) -> ExtensionValueModel {
        match self {
            ExtensionValue::SubjectKeyIdentifier(b) => ExtensionValueModel::SubjectKeyIdentifier(b@),
            ExtensionValue::KeyUsage(n) => ExtensionValueModel::KeyUsage(*n),
            ExtensionValue::SubjectAltName(g) => ExtensionValueModel::SubjectAltName(g.deep_view()),
            ExtensionValue::BasicConstraints(b) => ExtensionValueModel::BasicConstraints(*b),
            ExtensionValue::CrlDistributionPoints(d) => ExtensionValueModel::CrlDistributionPoints(d.deep_view()),
            ExtensionValue::CertificatePolicies(p) => ExtensionValueModel::CertificatePolicies(p.deep_view()),
            ExtensionValue::AuthorityKeyIdentifier(a) => ExtensionValueModel::AuthorityKeyIdentifier(a.deep_view()),
            ExtensionValue::ExtKeyUsage(k) => ExtensionValueModel::ExtKeyUsage(k.deep_view()),
            ExtensionValue::AuthorityInfoAccess(a) => ExtensionValueModel::AuthorityInfoAccess(a.deep_view()),
            ExtensionValue::SubjectDirectoryAttributes(s) => ExtensionValueModel::SubjectDirectoryAttributes(
                s.deep_view(),
            ),
            ExtensionValue::IssuerAltName(g) => ExtensionValueModel::IssuerAltName(g.deep_view()),
            ExtensionValue::NameConstraints(n) => ExtensionValueModel::NameConstraints(n.deep_view()),
            ExtensionValue::PolicyMappings(m) => ExtensionValueModel::PolicyMappings(m.deep_view()),
            ExtensionValue::PolicyConstraints(c) => ExtensionValueModel::PolicyConstraints(*c),
            ExtensionValue::FreshestCrl(d) => ExtensionValueModel::FreshestCrl(d.deep_view()),
            ExtensionValue::InhibitAnyPolicy(n) => ExtensionValueModel::InhibitAnyPolicy(*n),
            ExtensionValue::SubjectInfoAccess(a) => ExtensionValueModel::SubjectInfoAccess(a.deep_view()),
            ExtensionValue::IpAddrBlocks(f) => ExtensionValueModel::IpAddrBlocks(f.deep_view()),
            ExtensionValue::AsIdentifiers(a) => ExtensionValueModel::AsIdentifiers(a.deep_view()),
            ExtensionValue::IpAddrBlocksV2(f) => ExtensionValueModel::IpAddrBlocksV2(f.deep_view()),
            ExtensionValue::AsIdentifiersV2(a) => ExtensionValueModel::AsIdentifiersV2(a.deep_view()),
            ExtensionValue::OcspNoCheck => ExtensionValueModel::OcspNoCheck,
            ExtensionValue::TlsFeatures(v) => ExtensionValueModel::TlsFeatures(v@),
            ExtensionValue::Raw(b) => ExtensionValueModel::Raw(b@),
        }
    }
}

/// The reader of one TLS feature.
pub open spec fn u32_parser() -> spec_fn(Seq<u8>, int) -> Parsed<u32> {
    |i: Seq<u8>, p: int| spec_u32(i, p)
}

/// The writer of one TLS feature.
pub open spec fn u32_writer() -> spec_fn(u32) -> Seq<u8> {
    |n: u32| head(0, n as u64)
}

/// Decoding the value of an extension with registry id `id`; an id this
/// crate does not decode is kept as its raw CBOR item.
pub open spec fn spec_extension_value(input: Seq<u8>, pos: int, id: u32) -> Parsed<ExtensionValueModel> {
    if id == 1 {
        match spec_bytes(input, pos) {
            Ok((b, e)) => Ok((ExtensionValueModel::SubjectKeyIdentifier(b), e)),
            Err(f) => Err(f),
        }
    } else if id == 2 || id == 30 {
        match spec_u32(input, pos) {
            Ok((n, e)) => Ok(
                (
                    if id == 2 {
                        ExtensionValueModel::KeyUsage(n)
                    } else {
                        ExtensionValueModel::InhibitAnyPolicy(n)
                    },
                    e,
                ),
            ),
            Err(f) => Err(f),
        }
    } else if id == 3 || id == 25 {
        match spec_alt_name(input, pos) {
            Ok((g, e)) => Ok(
                (
                    if id == 3 {
                        ExtensionValueModel::SubjectAltName(g)
                    } else {
                        ExtensionValueModel::IssuerAltName(g)
                    },
                    e,
                ),
            ),
            Err(f) => Err(f),
        }
    } else if id == 4 {
        match spec_basic_constraints(input, pos) {
            Ok((b, e)) => Ok((ExtensionValueModel::BasicConstraints(b), e)),
            Err(f) => Err(f),
        }
    } else if id == 5 || id == 29 {
        match spec_distribution_points(input, pos) {
            Ok((d, e)) => Ok(
                (
                    if id == 5 {
                        ExtensionValueModel::CrlDistributionPoints(d)
                    } else {
                        ExtensionValueModel::FreshestCrl(d)
                    },
                    e,
                ),
            ),
            Err(f) => Err(f),
        }
    } else if id == 6 {
        match spec_certificate_policies(input, pos) {
            Ok((p, e)) => Ok((ExtensionValueModel::CertificatePolicies(p), e)),
            Err(f) => Err(f),
        }
    } else if id == 7 {
        match spec_authority_key_identifier(input, pos) {
            Ok((a, e)) => Ok((ExtensionValueModel::AuthorityKeyIdentifier(a), e)),
            Err(f) => Err(f),
        }
    } else if id == 8 {
        match spec_ext_key_usage(input, pos) {
            Ok((k, e)) => Ok((ExtensionValueModel::ExtKeyUsage(k), e)),
            Err(f) => Err(f),
        }
    } else if id == 9 || id == 31 {
        match spec_access_descriptions(input, pos) {
            Ok((a, e)) => Ok(
                (
                    if id == 9 {
                        ExtensionValueModel::AuthorityInfoAccess(a)
                    } else {
                        ExtensionValueModel::SubjectInfoAccess(a)
                    },
                    e,
                ),
            ),
            Err(f) => Err(f),
        }
    } else if id == 24 {
        match spec_subject_directory_attributes(input, pos) {
            Ok((s, e)) => Ok((ExtensionValueModel::SubjectDirectoryAttributes(s), e)),
            Err(f) => Err(f),
        }
    } else if id == 26 {
        match spec_name_constraints(input, pos) {
            Ok((n, e)) => Ok((ExtensionValueModel::NameConstraints(n), e)),
            Err(f) => Err(f),
        }
    } else if id == 27 {
        match spec_policy_mappings(input, pos) {
            Ok((m, e)) => Ok((ExtensionValueModel::PolicyMappings(m), e)),
            Err(f) => Err(f),
        }
    } else if id == 28 {
        match spec_policy_constraints(input, pos) {
            Ok((c, e)) => Ok((ExtensionValueModel::PolicyConstraints(c), e)),
            Err(f) => Err(f),
        }
    } else if id == 32 || id == 34 {
        match spec_ip_families(input, pos) {
            Ok((f, e)) => Ok(
                (
                    if id == 32 {
                        ExtensionValueModel::IpAddrBlocks(f)
                    } else {
                        ExtensionValueModel::IpAddrBlocksV2(f)
                    },
                    e,
                ),
            ),
            Err(f) => Err(f),
        }
    } else if id == 33 || id == 35 {
        match spec_as_identifiers(input, pos) {
            Ok((a, e)) => Ok(
                (
                    if id == 33 {
                        ExtensionValueModel::AsIdentifiers(a)
                    } else {
                        ExtensionValueModel::AsIdentifiersV2(a)
                    },
                    e,
                ),
            ),
            Err(f) => Err(f),
        }
    } else if id == 36 {
        match spec_null(input, pos) {
            Ok((_, e)) => Ok((ExtensionValueModel::OcspNoCheck, e)),
            Err(f) => Err(f),
        }
    } else if id == 38 {
        match as_cbor(spec_any_array(input, pos, u32_parser())) {
            Ok((v, e)) => Ok((ExtensionValueModel::TlsFeatures(v), e)),
            Err(f) => Err(f),
        }
    } else {
        match spec_raw_item(input, pos) {
            Ok((b, e)) => Ok((ExtensionValueModel::Raw(b), e)),
            Err(f) => Err(f),
        }
    }
}

/// The encoding of an extension value.
pub open spec fn enc_extension_value(v: ExtensionValueModel) -> Seq<u8> {
    match v {
        ExtensionValueModel::SubjectKeyIdentifier(b) => bstr(b),
        ExtensionValueModel::KeyUsage(n) => head(0, n as u64),
        ExtensionValueModel::SubjectAltName(g) => enc_alt_name(g),
        ExtensionValueModel::BasicConstraints(b) => enc_basic_constraints(b),
        ExtensionValueModel::CrlDistributionPoints(d) => enc_distribution_points(d),
        ExtensionValueModel::CertificatePolicies(p) => enc_certificate_policies(p),
        ExtensionValueModel::AuthorityKeyIdentifier(a) => enc_authority_key_identifier(a),
        ExtensionValueModel::ExtKeyUsage(k) => enc_ext_key_usage(k),
        ExtensionValueModel::AuthorityInfoAccess(a) => enc_access_descriptions(a),
        ExtensionValueModel::SubjectDirectoryAttributes(s) => enc_subject_directory_attributes(s),
        ExtensionValueModel::IssuerAltName(g) => enc_alt_name(g),
        ExtensionValueModel::NameConstraints(n) => enc_name_constraints(n),
        ExtensionValueModel::PolicyMappings(m) => enc_policy_mappings(m),
        ExtensionValueModel::PolicyConstraints(c) => enc_policy_constraints(c),
        ExtensionValueModel::FreshestCrl(d) => enc_distribution_points(d),
        ExtensionValueModel::InhibitAnyPolicy(n) => head(0, n as u64),
        ExtensionValueModel::SubjectInfoAccess(a) => enc_access_descriptions(a),
        ExtensionValueModel::IpAddrBlocks(f) => enc_ip_families(f),
        ExtensionValueModel::AsIdentifiers(a) => enc_as_identifiers(a),
        ExtensionValueModel::IpAddrBlocksV2(f) => enc_ip_families(f),
        ExtensionValueModel::AsIdentifiersV2(a) => enc_as_identifiers(a),
        ExtensionValueModel::OcspNoCheck => seq![0xf6u8],
        ExtensionValueModel::TlsFeatures(v) => enc_counted(v, u32_writer()),
        ExtensionValueModel::Raw(b) => b,
    }
}

/// An extension value whose array headers can be written.
pub open spec fn extension_value_fits(v: ExtensionValueModel) -> bool {
    match v {
        ExtensionValueModel::SubjectAltName(g) => general_names_fit(g),
        ExtensionValueModel::IssuerAltName(g) => general_names_fit(g),
        ExtensionValueModel::CrlDistributionPoints(d) => distribution_points_fit(d),
        ExtensionValueModel::FreshestCrl(d) => distribution_points_fit(d),
        ExtensionValueModel::CertificatePolicies(p) => certificate_policies_fit(p),
        ExtensionValueModel::AuthorityKeyIdentifier(a) => authority_key_identifier_fits(a),
        ExtensionValueModel::ExtKeyUsage(k) => k.len() <= u64::MAX,
        ExtensionValueModel::AuthorityInfoAccess(a) => a.len() * 2 <= u64::MAX,
        ExtensionValueModel::SubjectInfoAccess(a) => a.len() * 2 <= u64::MAX,
        ExtensionValueModel::SubjectDirectoryAttributes(s) => subject_directory_attributes_fit(s),
        ExtensionValueModel::NameConstraints(n) => name_constraints_fit(n),
        ExtensionValueModel::PolicyMappings(m) => m.len() * 2 <= u64::MAX,
        ExtensionValueModel::IpAddrBlocks(f) => ip_families_fit(f),
        ExtensionValueModel::IpAddrBlocksV2(f) => ip_families_fit(f),
        ExtensionValueModel::TlsFeatures(v) => v.len() <= u64::MAX,
        _ => true,
    }
}

/// An extension value that has an encoding: a `BasicConstraints` path
/// length that fits a signed CBOR int, an `AuthorityKeyIdentifier` with
/// issuer and serial both present or both absent.
pub open spec fn extension_value_encodes(v: ExtensionValueModel) -> bool {
    match v {
        ExtensionValueModel::BasicConstraints(b) => basic_constraints_encodes(b),
        ExtensionValueModel::AuthorityKeyIdentifier(a) => authority_key_identifier_encodes(a),
        _ => true,
    }
}

/// The registry id a typed extension value is decoded under; `-1` for a
/// raw value.
pub open spec fn value_id(v: ExtensionValueModel) -> int {
    match v {
        ExtensionValueModel::SubjectKeyIdentifier(_) => 1,
        ExtensionValueModel::KeyUsage(_) => 2,
        ExtensionValueModel::SubjectAltName(_) => 3,
        ExtensionValueModel::BasicConstraints(_) => 4,
        ExtensionValueModel::CrlDistributionPoints(_) => 5,
        ExtensionValueModel::CertificatePolicies(_) => 6,
        ExtensionValueModel::AuthorityKeyIdentifier(_) => 7,
        ExtensionValueModel::ExtKeyUsage(_) => 8,
        ExtensionValueModel::AuthorityInfoAccess(_) => 9,
        ExtensionValueModel::SubjectDirectoryAttributes(_) => 24,
        ExtensionValueModel::IssuerAltName(_) => 25,
        ExtensionValueModel::NameConstraints(_) => 26,
        ExtensionValueModel::PolicyMappings(_) => 27,
        ExtensionValueModel::PolicyConstraints(_) => 28,
        ExtensionValueModel::FreshestCrl(_) => 29,
        ExtensionValueModel::InhibitAnyPolicy(_) => 30,
        ExtensionValueModel::SubjectInfoAccess(_) => 31,
        ExtensionValueModel::IpAddrBlocks(_) => 32,
        ExtensionValueModel::AsIdentifiers(_) => 33,
        ExtensionValueModel::IpAddrBlocksV2(_) => 34,
        ExtensionValueModel::AsIdentifiersV2(_) => 35,
        ExtensionValueModel::OcspNoCheck => 36,
        ExtensionValueModel::TlsFeatures(_) => 38,
        ExtensionValueModel::Raw(_) => -1,
    }
}

/// The registry ids whose values this crate decodes into a typed form;
/// the value of any other id is kept as its raw CBOR item.
pub open spec fn typed_extension_id(id: int) -> bool {
    1 <= id <= 9 || 24 <= id <= 36 || id == 38
}

/// An extension value that survives encoding: a typed value whose parts
/// survive their own encoding, or a raw value that is one complete CBOR
/// data item.
pub open spec fn extension_value_wf(v: ExtensionValueModel) -> bool {
    match v {
        ExtensionValueModel::SubjectKeyIdentifier(b) => b.len() <= u64::MAX,
        ExtensionValueModel::KeyUsage(_) => true,
        ExtensionValueModel::SubjectAltName(g) => general_names_wf(g),
        ExtensionValueModel::BasicConstraints(b) => basic_constraints_encodes(b),
        ExtensionValueModel::CrlDistributionPoints(d) => distribution_points_wf(d),
        ExtensionValueModel::CertificatePolicies(p) => certificate_policies_wf(p),
        ExtensionValueModel::AuthorityKeyIdentifier(a) => authority_key_identifier_wf(a),
        ExtensionValueModel::ExtKeyUsage(k) => ext_key_usage_wf(k),
        ExtensionValueModel::AuthorityInfoAccess(a) => access_descriptions_wf(a),
        ExtensionValueModel::SubjectDirectoryAttributes(s) => subject_directory_attributes_wf(s),
        ExtensionValueModel::IssuerAltName(g) => general_names_wf(g),
        ExtensionValueModel::NameConstraints(n) => name_constraints_wf(n),
        ExtensionValueModel::PolicyMappings(m) => policy_mappings_wf(m),
        ExtensionValueModel::PolicyConstraints(_) => true,
        ExtensionValueModel::FreshestCrl(d) => distribution_points_wf(d),
        ExtensionValueModel::InhibitAnyPolicy(_) => true,
        ExtensionValueModel::SubjectInfoAccess(a) => access_descriptions_wf(a),
        ExtensionValueModel::IpAddrBlocks(f) => ip_families_wf(f),
        ExtensionValueModel::AsIdentifiers(a) => a matches Some(xs) ==> xs.len() <= u64::MAX,
        ExtensionValueModel::IpAddrBlocksV2(f) => ip_families_wf(f),
        ExtensionValueModel::AsIdentifiersV2(a) => a matches Some(xs) ==> xs.len() <= u64::MAX,
        ExtensionValueModel::OcspNoCheck => true,
        ExtensionValueModel::TlsFeatures(v) => v.len() <= u64::MAX,
        ExtensionValueModel::Raw(b) => raw_item_wf(b),
    }
}

/// Read a homogeneous array of `u32`s, definite or indefinite.
#[verifier::spinoff_prover]
#[verifier::rlimit(20)]
fn decode_u32_array(input: &[u8], pos: usize) -> (r: Result<(Vec<u32>, usize), Error>)
    ensures
        outcome(r) == spec_any_array(input@, pos as int, u32_parser()),
{
    let (len, start) = match cbor_array(input, pos) {
        Ok(x) => x,
        Err(err) => return Err(Error::Cbor(err)),
    };
    let mut out: Vec<u32> = Vec::new();
    let mut p = start;
    assert(out.deep_view() =~= Seq::<u32>::empty());
    match len {
        Some(n) => {
            let mut i: u64 = 0;
            while i < n
                invariant
                    i <= n,
                    spec_any_array(input@, pos as int, u32_parser()) == parse_n(input@, start as int, n as nat, u32_parser()),
                    parse_n(input@, start as int, i as nat, u32_parser()) == Ok::<(Seq<u32>, int), Fault>(
                        (out.deep_view(), p as int),
                    ),
                decreases n - i,
            {
                proof {
                    lemma_parse_n_next(input@, start as int, i as nat, u32_parser(), out.deep_view(), p as int);
                }
                match cbor_u32(input, p) {
                    Ok((v, q)) => {
                        let ghost before = out.deep_view();
                        out.push(v);
                        assert(out.deep_view() =~= before.push(v));
                        p = q;
                    },
                    Err(err) => {
                        proof {
                            lemma_parse_n_stop(input@, start as int, i as nat, n as nat, u32_parser(), out.deep_view(), p as int, Fault::Cbor);
                        }
                        return Err(Error::Cbor(err));
                    },
                }
                i = i + 1;
            }
            Ok((out, p))
        },
        None => {
            loop
                invariant
                    start <= p <= input@.len(),
                    spec_any_array(input@, pos as int, u32_parser()) == prepend(
                        out.deep_view(),
                        parse_until_break(input@, p as int, u32_parser()),
                    ),
                decreases input@.len() - p,
            {
                let t = match cbor_datatype(input, p) {
                    Ok(t) => t,
                    Err(err) => return Err(Error::Cbor(err)),
                };
                if let CborType::Break = t {
                    let n = input.len();
                    assert(p < n);
                    proof {
                        assert(out.deep_view() + Seq::<u32>::empty() =~= out.deep_view());
                    }
                    return Ok((out, p + 1));
                }
                match cbor_u32(input, p) {
                    Ok((v, q)) => {
                        proof {
                            lemma_head_at_advance(input@, p as int);
                        }
                        let ghost before = out.deep_view();
                        let ghost rest = parse_until_break(input@, q as int, u32_parser());
                        out.push(v);
                        assert(out.deep_view() =~= before.push(v));
                        proof {
                            match rest {
                                Ok((ys, r)) => {
                                    assert(before + (seq![v] + ys) =~= out.deep_view() + ys);
                                },
                                Err(_) => {},
                            }
                        }
                        p = q;
                    },
                    Err(err) => return Err(Error::Cbor(err)),
                }
            }
        },
    }
}

/// Read a `u32`, mapping the error.
fn read_u32(input: &[u8], pos: usize) -> (r: Result<(u32, usize), Error>)
    ensures
        outcome(r) == spec_u32(input@, pos as int),
{
    match cbor_u32(input, pos) {
        Ok(x) => Ok(x),
        Err(err) => Err(Error::Cbor(err)),
    }
}

impl ExtensionValue {
    /// Decode an extension value, given its registry `id`.
    #[verifier::spinoff_prover]
    #[verifier::rlimit(40)]
    fn decode(id: u32, input: &[u8], pos: usize) -> (r: Result<(Self, usize), Error>)
        ensures
            outcome(r) == spec_extension_value(input@, pos as int, id),
    {
        if id == 1 {
            match cbor_bytes(input, pos) {
                Ok((b, e)) => Ok((ExtensionValue::SubjectKeyIdentifier(b), e)),
                Err(err) => Err(Error::Cbor(err)),
            }
        } else if id == 2 {
            let (n, e) = read_u32(input, pos)?;
            Ok((ExtensionValue::KeyUsage(n), e))
        } else if id == 3 {
            let (g, e) = decode_alt_name(input, pos)?;
            Ok((ExtensionValue::SubjectAltName(g), e))
        } else if id == 4 {
            let (b, e) = BasicConstraints::decode(input, pos)?;
            Ok((ExtensionValue::BasicConstraints(b), e))
        } else if id == 5 {
            let (d, e) = DistributionPointName::decode(input, pos)?;
            Ok((ExtensionValue::CrlDistributionPoints(d), e))
        } else if id == 6 {
            let (p, e) = CertificatePolicies::decode(input, pos)?;
            Ok((ExtensionValue::CertificatePolicies(p), e))
        } else if id == 7 {
            let (a, e) = AuthorityKeyIdentifier::decode(input, pos)?;
            Ok((ExtensionValue::AuthorityKeyIdentifier(a), e))
        } else if id == 8 {
            let (k, e) = ExtKeyUsage::decode(input, pos)?;
            Ok((ExtensionValue::ExtKeyUsage(k), e))
        } else if id == 9 {
            let (a, e) = AccessDescription::decode(input, pos)?;
            Ok((ExtensionValue::AuthorityInfoAccess(a), e))
        } else if id == 24 {
            let (s, e) = SubjectDirectoryAttributes::decode(input, pos)?;
            Ok((ExtensionValue::SubjectDirectoryAttributes(s), e))
        } else if id == 25 {
            let (g, e) = decode_alt_name(input, pos)?;
            Ok((ExtensionValue::IssuerAltName(g), e))
        } else if id == 26 {
            let (n, e) = NameConstraints::decode(input, pos)?;
            Ok((ExtensionValue::NameConstraints(n), e))
        } else if id == 27 {
            let (m, e) = PolicyMappings::decode(input, pos)?;
            Ok((ExtensionValue::PolicyMappings(m), e))
        } else if id == 28 {
            let (c, e) = PolicyConstraints::decode(input, pos)?;
            Ok((ExtensionValue::PolicyConstraints(c), e))
        } else if id == 29 {
            let (d, e) = DistributionPointName::decode(input, pos)?;
            Ok((ExtensionValue::FreshestCrl(d), e))
        } else if id == 30 {
            let (n, e) = read_u32(input, pos)?;
            Ok((ExtensionValue::InhibitAnyPolicy(n), e))
        } else if id == 31 {
            let (a, e) = AccessDescription::decode(input, pos)?;
            Ok((ExtensionValue::SubjectInfoAccess(a), e))
        } else if id == 32 {
            let (f, e) = decode_ip_address_families(input, pos)?;
            Ok((ExtensionValue::IpAddrBlocks(f), e))
        } else if id == 33 {
            let (a, e) = decode_as_identifiers(input, pos)?;
            Ok((ExtensionValue::AsIdentifiers(a), e))
        } else if id == 34 {
            let (f, e) = decode_ip_address_families(input, pos)?;
            Ok((ExtensionValue::IpAddrBlocksV2(f), e))
        } else if id == 35 {
            let (a, e) = decode_as_identifiers(input, pos)?;
            Ok((ExtensionValue::AsIdentifiersV2(a), e))
        } else if id == 36 {
            match cbor_null(input, pos) {
                Ok((_, e)) => Ok((ExtensionValue::OcspNoCheck, e)),
                Err(err) => Err(Error::Cbor(err)),
            }
        } else if id == 38 {
            match decode_u32_array(input, pos) {
                Ok((v, e)) => {
                    assert(v.deep_view() =~= v@);
                    Ok((ExtensionValue::TlsFeatures(v), e))
                },
                Err(err) => Err(into_cbor(err)),
            }
        } else {
            let (b, e) = raw_item(input, pos)?;
            assert(b.deep_view() =~= b@);
            Ok((ExtensionValue::Raw(b), e))
        }
    }

    /// Encode an extension value.
    fn encode(&self, buf: &mut Vec<u8>) -> (r: Result<(), &'static str>)
        requires
            extension_value_fits(self.deep_view()),
        ensures
            r is Ok <==> extension_value_encodes(self.deep_view()),
            r is Ok ==> final(buf)@ == old(buf)@ + enc_extension_value(self.deep_view()),
    {
        match self {
            ExtensionValue::SubjectKeyIdentifier(b) => put_bytes(buf, b.as_slice()),
            ExtensionValue::KeyUsage(n) => put_u32(buf, *n),
            ExtensionValue::SubjectAltName(names) => encode_alt_name(names, buf),
            ExtensionValue::IssuerAltName(names) => encode_alt_name(names, buf),
            ExtensionValue::BasicConstraints(bc) => return bc.encode(buf),
            ExtensionValue::CrlDistributionPoints(dp) => DistributionPointName::encode(dp, buf),
            ExtensionValue::FreshestCrl(dp) => DistributionPointName::encode(dp, buf),
            ExtensionValue::CertificatePolicies(v) => v.encode(buf),
            ExtensionValue::AuthorityKeyIdentifier(v) => return v.encode(buf),
            ExtensionValue::ExtKeyUsage(v) => v.encode(buf),
            ExtensionValue::AuthorityInfoAccess(v) => AccessDescription::encode(v, buf),
            ExtensionValue::SubjectInfoAccess(v) => AccessDescription::encode(v, buf),
            ExtensionValue::SubjectDirectoryAttributes(v) => v.encode(buf),
            ExtensionValue::NameConstraints(v) => v.encode(buf),
            ExtensionValue::PolicyMappings(v) => v.encode(buf),
            ExtensionValue::PolicyConstraints(v) => v.encode(buf),
            ExtensionValue::InhibitAnyPolicy(n) => put_u32(buf, *n),
            ExtensionValue::IpAddrBlocks(v) => encode_ip_address_families(v, buf),
            ExtensionValue::IpAddrBlocksV2(v) => encode_ip_address_families(v, buf),
            ExtensionValue::AsIdentifiers(v) => encode_as_identifiers(v, buf),
            ExtensionValue::AsIdentifiersV2(v) => encode_as_identifiers(v, buf),
            ExtensionValue::OcspNoCheck => {
                put_null(buf);
                assert(old(buf)@.push(0xf6) =~= old(buf)@ + seq![0xf6u8]);
            },
            ExtensionValue::TlsFeatures(v) => encode_u32_array(v, buf),
            ExtensionValue::Raw(bytes) => write_raw(buf, bytes.as_slice()),
        }
        Ok(())
    }
}

/// Encode an array of `u32`s.
fn encode_u32_array(v: &Vec<u32>, buf: &mut Vec<u8>)
    requires
        v@.len() <= u64::MAX,
    ensures
        final(buf)@ == old(buf)@ + enc_counted(v@, u32_writer()),
{
    put_array(buf, v.len() as u64);
    let ghost after_head = buf@;
    let mut i: usize = 0;
    while i < v.len()
        invariant
            i <= v@.len(),
            buf@ == after_head + enc_all(v@.take(i as int), u32_writer()),
        decreases v@.len() - i,
    {
        put_u32(buf, v[i]);
        proof {
            lemma_enc_all_push(v@.take(i as int), v@[i as int], u32_writer());
            assert(v@.take(i as int).push(v@[i as int]) =~= v@.take(i + 1));
        }
        i = i + 1;
    }
    assert(v@.take(i as int) =~= v@);
}

// ================================= Extension =================================

/// One extension: its registry id or OID, its criticality, and its value.
#[derive(Clone, PartialEq, Eq, Debug)]
pub struct Extension {
    /// The registry id (Section 8.8) or OID of this extension. Note the
    /// criticality *sign* used on the wire is not folded in here; see
    /// [`Extension::critical`].
    pub id: IntOrOid,
    pub critical: bool,
    pub value: ExtensionValue,
}

/// The model of an [`Extension`].
pub struct ExtensionModel {
    pub id: IntOrOidModel,
    pub critical: bool,
    pub value: ExtensionValueModel,
}

impl DeepView for Extension {
    type V = ExtensionModel;

    open spec fn deep_view(&self) -> ExtensionModel {
        ExtensionModel { id: self.id.deep_view(), critical: self.critical, value: self.value.deep_view() }
    }
}

/// The magnitude of a signed 32-bit int, as `i32::unsigned_abs` gives it.
pub open spec fn unsigned_abs(raw: i32) -> u32 {
    if raw < 0 {
        (-(raw as int)) as u32
    } else {
        raw as u32
    }
}

/// The registry id a signed `extensionID` is kept as: its magnitude, read
/// back as an `i32` (so `i32::MIN` stays itself).
pub open spec fn extension_id(raw: i32) -> i32 {
    if raw == i32::MIN {
        i32::MIN
    } else if raw < 0 {
        (-raw) as i32
    } else {
        raw
    }
}

/// Decoding an `Extension`: an OID with its raw `extnValue` (wrapped in a
/// one-element array when critical), or a signed registry id (negative when
/// critical) with the value decoded for that id.
pub open spec fn spec_extension(input: Seq<u8>, pos: int) -> Parsed<ExtensionModel> {
    match spec_datatype(input, pos) {
        None => Err(Fault::Cbor),
        Some(CborType::Bytes) => match spec_oid(input, pos) {
            Ok((o, e)) => match spec_datatype(input, e) {
                None => Err(Fault::Cbor),
                Some(t) => if is_array_type(t) {
                    match spec_expect_array_len(input, e, 1) {
                        Ok((_, e1)) => match spec_bytes(input, e1) {
                            Ok((b, e2)) => Ok(
                                (
                                    ExtensionModel {
                                        id: IntOrOidModel::Oid(o),
                                        critical: true,
                                        value: ExtensionValueModel::Raw(b),
                                    },
                                    e2,
                                ),
                            ),
                            Err(f) => Err(f),
                        },
                        Err(f) => Err(f),
                    }
                } else {
                    match spec_bytes(input, e) {
                        Ok((b, e2)) => Ok(
                            (
                                ExtensionModel {
                                    id: IntOrOidModel::Oid(o),
                                    critical: false,
                                    value: ExtensionValueModel::Raw(b),
                                },
                                e2,
                            ),
                        ),
                        Err(f) => Err(f),
                    }
                },
            },
            Err(f) => Err(f),
        },
        Some(_) => match spec_i32(input, pos) {
            Ok((raw, e)) => match spec_extension_value(input, e, unsigned_abs(raw)) {
                Ok((v, e2)) => Ok(
                    (
                        ExtensionModel { id: IntOrOidModel::Int(extension_id(raw)), critical: raw < 0, value: v },
                        e2,
                    ),
                ),
                Err(f) => Err(f),
            },
            Err(f) => Err(f),
        },
    }
}

/// The encoding of an `Extension` that has one.
pub open spec fn enc_extension(x: ExtensionModel) -> Seq<u8> {
    match x.id {
        IntOrOidModel::Int(id) => int_head(
            if x.critical {
                -(id as int)
            } else {
                id as int
            },
        ) + enc_extension_value(x.value),
        IntOrOidModel::Oid(o) => bstr(o) + match x.value {
            ExtensionValueModel::Raw(b) => if x.critical {
                head(4, 1) + bstr(b)
            } else {
                bstr(b)
            },
            _ => Seq::empty(),
        },
    }
}

/// An `Extension` that can be written without overflow: a critical
/// registry id can be negated, and the value's headers fit.
pub open spec fn extension_fits(x: ExtensionModel) -> bool {
    match x.id {
        IntOrOidModel::Int(id) => (x.critical ==> id != i32::MIN) && extension_value_fits(x.value),
        IntOrOidModel::Oid(_) => true,
    }
}

/// An `Extension` that has an encoding: an OID-identified one carries a raw
/// value.
pub open spec fn extension_encodes(x: ExtensionModel) -> bool {
    match x.id {
        IntOrOidModel::Int(_) => extension_value_encodes(x.value),
        IntOrOidModel::Oid(_) => x.value is Raw,
    }
}

/// The id `i32::unsigned_abs` keeps, as the registry id is.
fn unsigned_abs_of(raw: i32) -> (r: u32)
    ensures
        r == unsigned_abs(raw),
{
    if raw < 0 {
        let m: i64 = -(raw as i64);
        m as u32
    } else {
        raw as u32
    }
}

/// The registry id a signed `extensionID` is kept as.
fn extension_id_of(raw: i32) -> (r: i32)
    ensures
        r == extension_id(raw),
{
    if raw == i32::MIN {
        i32::MIN
    } else if raw < 0 {
        -raw
    } else {
        raw
    }
}

impl Extension {
    /// Decode an `Extension`.
    #[verifier::spinoff_prover]
    #[verifier::rlimit(20)]
    pub fn decode(input: &[u8], pos: usize) -> (r: Result<(Self, usize), Error>)
        ensures
            outcome(r) == spec_extension(input@, pos as int),
    {
        match datatype(input, pos)? {
            CborType::Bytes => {
                let (oid, e) = decode_oid(input, pos)?;
                let (critical, raw, e2) = match datatype(input, e)? {
                    CborType::Array | CborType::ArrayIndef => {
                        let (_, e1) = expect_array_len(input, e, 1)?;
                        match cbor_bytes(input, e1) {
                            Ok((b, e2)) => (true, b, e2),
                            Err(err) => return Err(Error::Cbor(err)),
                        }
                    },
                    _ => match cbor_bytes(input, e) {
                        Ok((b, e2)) => (false, b, e2),
                        Err(err) => return Err(Error::Cbor(err)),
                    },
                };
                Ok((Extension { id: IntOrOid::Oid(oid), critical, value: ExtensionValue::Raw(raw) }, e2))
            },
            _ => {
                let (raw_id, e) = match cbor_i32(input, pos) {
                    Ok(x) => x,
                    Err(err) => return Err(Error::Cbor(err)),
                };
                let critical = raw_id < 0;
                let id = unsigned_abs_of(raw_id);
                let (value, e2) = ExtensionValue::decode(id, input, e)?;
                Ok((Extension { id: IntOrOid::Int(extension_id_of(raw_id)), critical, value }, e2))
            },
        }
    }

    /// Encode an `Extension`.
    #[verifier::spinoff_prover]
    #[verifier::rlimit(20)]
    pub fn encode(&self, buf: &mut Vec<u8>) -> (r: Result<(), &'static str>)
        requires
            extension_fits(self.deep_view()),
        ensures
            r is Ok <==> extension_encodes(self.deep_view()),
            r is Ok ==> final(buf)@ == old(buf)@ + enc_extension(self.deep_view()),
    {
        match &self.id {
            IntOrOid::Int(id) => {
                let signed = if self.critical {
                    -*id
                } else {
                    *id
                };
                put_i32(buf, signed);
                let r = self.value.encode(buf);
                proof {
                    if r is Ok {
                        assert(buf@ =~= old(buf)@ + enc_extension(self.deep_view()));
                    }
                }
                r
            },
            IntOrOid::Oid(oid) => {
                put_bytes(buf, oid.as_bytes());
                let raw = match &self.value {
                    ExtensionValue::Raw(b) => b,
                    _ => {
                        return Err("oid-identified extensions must use ExtensionValue::Raw");
                    },
                };
                if self.critical {
                    put_array(buf, 1);
                    put_bytes(buf, raw.as_slice());
                } else {
                    put_bytes(buf, raw.as_slice());
                }
                proof {
                    assert(buf@ =~= old(buf)@ + enc_extension(self.deep_view()));
                }
                Ok(())
            },
        }
    }
}

// ================================= Extensions ================================

/// The extensions of a certificate.
#[derive(Clone, PartialEq, Eq, Debug)]
pub struct Extensions(pub Vec<Extension>);

impl Default for Extensions {
    /// No extensions.
    fn default() -> (r: Extensions)
        ensures
            r.deep_view() == Seq::<ExtensionModel>::empty(),
    {
        let r = Extensions(Vec::new());
        assert(r.deep_view() =~= Seq::<ExtensionModel>::empty());
        r
    }
}

impl DeepView for Extensions {
    type V = Seq<ExtensionModel>;

    open spec fn deep_view(&self) -> Seq<ExtensionModel> {
        self.0.deep_view()
    }
}

/// The reader of one `Extension`.
pub open spec fn extension_parser() -> spec_fn(Seq<u8>, int) -> Parsed<ExtensionModel> {
    |i: Seq<u8>, p: int| spec_extension(i, p)
}

/// The writer of one `Extension`.
pub open spec fn extension_writer() -> spec_fn(ExtensionModel) -> Seq<u8> {
    |x: ExtensionModel| enc_extension(x)
}

/// The `keyUsage` extension (registry id 2) that the compact form stands
/// for.
pub open spec fn key_usage_extension(critical: bool, v: u32) -> ExtensionModel {
    ExtensionModel { id: IntOrOidModel::Int(2), critical, value: ExtensionValueModel::KeyUsage(v) }
}

/// Decoding `Extensions`: an array of `2 * n` items holds `n` extensions;
/// any other item is the compact form, a single `keyUsage` whose sign is
/// its criticality and whose magnitude is its bitmask.
pub open spec fn spec_extensions(input: Seq<u8>, pos: int) -> Parsed<Seq<ExtensionModel>> {
    match spec_datatype(input, pos) {
        None => Err(Fault::Cbor),
        Some(t) => if is_array_type(t) {
            spec_paired(input, pos, "Extensions array must have an even number of elements", extension_parser())
        } else {
            match spec_i32(input, pos) {
                Ok((raw, e)) => Ok((seq![key_usage_extension(raw < 0, unsigned_abs(raw))], e)),
                Err(f) => Err(f),
            }
        },
    }
}

/// The criticality and bitmask of a list that is a lone `keyUsage`.
pub open spec fn compact_key_usage(xs: Seq<ExtensionModel>) -> Option<(bool, u32)> {
    if xs.len() == 1 && xs[0].id == IntOrOidModel::Int(2) {
        match xs[0].value {
            ExtensionValueModel::KeyUsage(v) => Some((xs[0].critical, v)),
            _ => None,
        }
    } else {
        None
    }
}

/// The signed int a lone `keyUsage` is written as: the bitmask taken as an
/// `i32` (two's complement, so a bitmask above `i32::MAX` wraps to a
/// negative number), negated when critical.
pub open spec fn key_usage_word(critical: bool, v: u32) -> int {
    let w = if v <= i32::MAX {
        v as int
    } else {
        v - 0x1_0000_0000
    };
    if critical {
        -w
    } else {
        w
    }
}

/// The encoding of `Extensions`: a lone `keyUsage` as its signed bitmask.
pub open spec fn enc_extensions(xs: Seq<ExtensionModel>) -> Seq<u8> {
    match compact_key_usage(xs) {
        Some((critical, v)) => int_head(key_usage_word(critical, v)),
        None => enc_paired(xs, extension_writer()),
    }
}

/// `Extensions` that can be written without overflow: the bitmask of a
/// lone critical `keyUsage` is not the one whose wrapped `i32` is
/// `i32::MIN`, which cannot be negated.
pub open spec fn extensions_fit(xs: Seq<ExtensionModel>) -> bool {
    match compact_key_usage(xs) {
        Some((critical, v)) => !(critical && v == 0x8000_0000),
        None => xs.len() * 2 <= u64::MAX && forall|k: int| 0 <= k < xs.len() ==> extension_fits(#[trigger] xs[k]),
    }
}

/// `Extensions` that have an encoding: a lone `keyUsage` always has one;
/// otherwise every extension has one.
pub open spec fn extensions_encode(xs: Seq<ExtensionModel>) -> bool {
    match compact_key_usage(xs) {
        Some(_) => true,
        None => forall|k: int| 0 <= k < xs.len() ==> extension_encodes(#[trigger] xs[k]),
    }
}

/// Whether an extension has an encoding.
fn extension_has_encoding(x: &Extension) -> (r: bool)
    ensures
        r == extension_encodes(x.deep_view()),
{
    match &x.id {
        IntOrOid::Int(_) => match &x.value {
            ExtensionValue::BasicConstraints(BasicConstraints::Ca { path_len: Some(n) }) => *n <= 0x7fff_ffff,
            ExtensionValue::AuthorityKeyIdentifier(a) => a.cert_issuer.is_some() == a.cert_serial.is_some(),
            _ => true,
        },
        IntOrOid::Oid(_) => match &x.value {
            ExtensionValue::Raw(_) => true,
            _ => false,
        },
    }
}

impl Extensions {
    /// Whether these extensions have an encoding: [`Extensions::encode`]
    /// succeeds exactly on those.
    pub fn has_encoding(&self) -> (r: bool)
        ensures
            r == extensions_encode(self.deep_view()),
    {
        let v = &self.0;
        if v.len() == 1 {
            if let (IntOrOid::Int(2), ExtensionValue::KeyUsage(_)) = (&v[0].id, &v[0].value) {
                return true;
            }
        }
        assert(compact_key_usage(v.deep_view()) is None);
        let mut i: usize = 0;
        while i < v.len()
            invariant
                i <= v@.len(),
                v == &self.0,
                compact_key_usage(v.deep_view()) is None,
                forall|k: int| 0 <= k < i ==> extension_encodes(#[trigger] v.deep_view()[k]),
            decreases v@.len() - i,
        {
            if !extension_has_encoding(&v[i]) {
                assert(!extension_encodes(v.deep_view()[i as int]));
                return false;
            }
            i = i + 1;
        }
        true
    }
}

impl Extensions {
    /// Decode `Extensions`.
    #[verifier::spinoff_prover]
    #[verifier::rlimit(20)]
    pub fn decode(input: &[u8], pos: usize) -> (r: Result<(Self, usize), Error>)
        ensures
            outcome(r) == spec_extensions(input@, pos as int),
    {
        match datatype(input, pos)? {
            CborType::Array | CborType::ArrayIndef => {
                let (len, start) = definite_array_len(input, pos)?;
                if len % 2 != 0 {
                    return Err(Error::Malformed("Extensions array must have an even number of elements"));
                }
                let n = len / 2;
                let mut out: Vec<Extension> = Vec::new();
                let mut p = start;
                let mut i: u64 = 0;
                assert(out.deep_view() =~= Seq::<ExtensionModel>::empty());
                while i < n
                    invariant
                        i <= n,
                        spec_extensions(input@, pos as int) == parse_n(input@, start as int, n as nat, extension_parser()),
                        parse_n(input@, start as int, i as nat, extension_parser()) == Ok::<(Seq<ExtensionModel>, int), Fault>(
                            (out.deep_view(), p as int),
                        ),
                    decreases n - i,
                {
                    proof {
                        lemma_parse_n_next(input@, start as int, i as nat, extension_parser(), out.deep_view(), p as int);
                    }
                    match Extension::decode(input, p) {
                        Ok((x, q)) => {
                            let ghost before = out.deep_view();
                            out.push(x);
                            assert(out.deep_view() =~= before.push(x.deep_view()));
                            p = q;
                        },
                        Err(e) => {
                            proof {
                                lemma_parse_n_stop(input@, start as int, i as nat, n as nat, extension_parser(), out.deep_view(), p as int, e.fault());
                            }
                            return Err(e);
                        },
                    }
                    i = i + 1;
                }
                Ok((Extensions(out), p))
            },
            // Compact single-extension shortcut, only defined for keyUsage
            // (registry id 2): sign = criticality, absolute value = the
            // KeyUsage bitmask.
            _ => {
                let (raw, e) = match cbor_i32(input, pos) {
                    Ok(x) => x,
                    Err(err) => return Err(Error::Cbor(err)),
                };
                let critical = raw < 0;
                let value = unsigned_abs_of(raw);
                let mut out: Vec<Extension> = Vec::new();
                out.push(Extension { id: IntOrOid::Int(2), critical, value: ExtensionValue::KeyUsage(value) });
                assert(out.deep_view() =~= seq![key_usage_extension(critical, value)]);
                Ok((Extensions(out), e))
            },
        }
    }

    /// Encode `Extensions`.
    #[verifier::spinoff_prover]
    #[verifier::rlimit(20)]
    pub fn encode(&self, buf: &mut Vec<u8>) -> (r: Result<(), &'static str>)
        requires
            extensions_fit(self.deep_view()),
        ensures
            r is Ok <==> extensions_encode(self.deep_view()),
            r is Ok ==> final(buf)@ == old(buf)@ + enc_extensions(self.deep_view()),
    {
        let v = &self.0;
        if v.len() == 1 {
            let ext = &v[0];
            match (&ext.id, &ext.value) {
                (IntOrOid::Int(id), ExtensionValue::KeyUsage(bits)) => {
                    if *id == 2 {
                        // The bitmask is taken as an `i32`, wrapping as `as` does.
                        let w: i32 = if *bits <= 0x7fff_ffff {
                            *bits as i32
                        } else {
                            ((*bits - 0x8000_0000) as i32) - 0x7fff_ffff - 1
                        };
                        let signed = if ext.critical {
                            -w
                        } else {
                            w
                        };
                        put_i32(buf, signed);
                        return Ok(());
                    }
                },
                _ => {},
            }
        }
        assert(compact_key_usage(v.deep_view()) is None);
        put_array(buf, v.len() as u64 * 2);
        let ghost after_head = buf@;
        let mut i: usize = 0;
        while i < v.len()
            invariant
                i <= v@.len(),
                v == &self.0,
                compact_key_usage(v.deep_view()) is None,
                extensions_fit(v.deep_view()),
                forall|k: int| 0 <= k < i ==> extension_encodes(#[trigger] v.deep_view()[k]),
                buf@ == after_head + enc_all(v.deep_view().take(i as int), extension_writer()),
            decreases v@.len() - i,
        {
            assert(extension_fits(v.deep_view()[i as int]));
            match v[i].encode(buf) {
                Ok(()) => {},
                Err(e) => {
                    return Err(e);
                },
            }
            proof {
                lemma_enc_all_push(v.deep_view().take(i as int), v.deep_view()[i as int], extension_writer());
                assert(v.deep_view().take(i as int).push(v.deep_view()[i as int]) =~= v.deep_view().take(i + 1));
            }
            i = i + 1;
        }
        assert(v.deep_view().take(i as int) =~= v.deep_view());
        Ok(())
    }
}

// ============================ reading back ============================

/// The registry ids under which a value is decoded as it was written: for a
/// typed value the id of its kind; for a raw value an id that has no typed
/// form, nonnegative, and nonzero when critical (`-0` is `0`).
pub open spec fn extension_id_fits_value(id: i32, critical: bool, v: ExtensionValueModel) -> bool {
    match v {
        ExtensionValueModel::Raw(_) => 0 <= id && !typed_extension_id(id as int) && (critical ==> id != 0),
        _ => id as int == value_id(v),
    }
}

/// An `Extension` that survives encoding: a registry id under which its
/// value is decoded as written, or an OID (kept by the `oid` crate) with a
/// raw value.
pub open spec fn extension_wf(x: ExtensionModel) -> bool {
    match x.id {
        IntOrOidModel::Int(id) => extension_id_fits_value(id, x.critical, x.value) && extension_value_wf(x.value),
        IntOrOidModel::Oid(o) => oid_stable(o) && o.len() <= u64::MAX && (x.value matches ExtensionValueModel::Raw(
            b,
        ) && b.len() <= u64::MAX),
    }
}

/// `Extensions` that survive encoding: a lone `keyUsage` needs a bitmask
/// that is a nonnegative `i32`, nonzero when critical (`-0` is `0`).
pub open spec fn extensions_wf(xs: Seq<ExtensionModel>) -> bool {
    match compact_key_usage(xs) {
        Some((critical, v)) => v <= i32::MAX && (critical ==> v != 0),
        None => xs.len() * 2 <= u64::MAX && forall|k: int| 0 <= k < xs.len() ==> extension_wf(#[trigger] xs[k]),
    }
}

/// An array of `u32`s is read back as written.
proof fn lemma_u32_array(input: Seq<u8>, pos: int, v: Seq<u32>)
    requires
        v.len() <= u64::MAX,
        matches_at(input, pos, enc_counted(v, u32_writer())),
    ensures
        spec_any_array(input, pos, u32_parser()) == Ok::<(Seq<u32>, int), Fault>(
            (v, pos + enc_counted(v, u32_writer()).len()),
        ),
{
    assert forall|k: int| 0 <= k < v.len() implies reads_back(u32_parser(), u32_writer(), #[trigger] v[k]) by {
        assert forall|i: Seq<u8>, p: int| #[trigger] matches_at(i, p, u32_writer()(v[k])) implies u32_parser()(i, p)
            == Ok::<(u32, int), Fault>((v[k], p + u32_writer()(v[k]).len())) by {
            lemma_int_head(i, p, v[k] as int);
        }
    }
    lemma_counted(input, pos, v, u32_parser(), u32_writer());
    lemma_matches_split(input, pos, head(4, v.len() as u64), enc_all(v, u32_writer()));
    lemma_array_head(input, pos, v.len() as u64);
}

/// The registry name of the extension a typed value is the value of.
pub open spec fn extension_kind_name(v: ExtensionValueModel) -> Option<&'static str> {
    match v {
        ExtensionValueModel::SubjectKeyIdentifier(_) => Some("subjectKeyIdentifier"),
        ExtensionValueModel::KeyUsage(_) => Some("keyUsage"),
        ExtensionValueModel::SubjectAltName(_) => Some("subjectAltName"),
        ExtensionValueModel::BasicConstraints(_) => Some("basicConstraints"),
        ExtensionValueModel::CrlDistributionPoints(_) => Some("cRLDistributionPoints"),
        ExtensionValueModel::CertificatePolicies(_) => Some("certificatePolicies"),
        ExtensionValueModel::AuthorityKeyIdentifier(_) => Some("authorityKeyIdentifier"),
        ExtensionValueModel::ExtKeyUsage(_) => Some("extKeyUsage"),
        ExtensionValueModel::AuthorityInfoAccess(_) => Some("authorityInfoAccess"),
        ExtensionValueModel::SubjectDirectoryAttributes(_) => Some("subjectDirectoryAttributes"),
        ExtensionValueModel::IssuerAltName(_) => Some("issuerAltName"),
        ExtensionValueModel::NameConstraints(_) => Some("nameConstraints"),
        ExtensionValueModel::PolicyMappings(_) => Some("policyMappings"),
        ExtensionValueModel::PolicyConstraints(_) => Some("policyConstraints"),
        ExtensionValueModel::FreshestCrl(_) => Some("freshestCRL"),
        ExtensionValueModel::InhibitAnyPolicy(_) => Some("inhibitAnyPolicy"),
        ExtensionValueModel::SubjectInfoAccess(_) => Some("subjectInfoAccess"),
        ExtensionValueModel::IpAddrBlocks(_) => Some("id-pe-ipAddrBlocks"),
        ExtensionValueModel::AsIdentifiers(_) => Some("id-pe-autonomousSysIds"),
        ExtensionValueModel::IpAddrBlocksV2(_) => Some("id-pe-ipAddrBlocks-v2"),
        ExtensionValueModel::AsIdentifiersV2(_) => Some("id-pe-autonomousSysIds-v2"),
        ExtensionValueModel::OcspNoCheck => Some("id-pkix-ocsp-nocheck"),
        ExtensionValueModel::TlsFeatures(_) => Some("id-pe-tlsfeature"),
        ExtensionValueModel::Raw(_) => None,
    }
}

/// Each typed value is decoded under the registry id whose name is the
/// name of its extension, and that id has a typed form.
pub proof fn law_extension_value_names(v: ExtensionValueModel)
    requires
        v !is Raw,
    ensures
        extension_table(value_id(v) as u16) == extension_kind_name(v),
        typed_extension_id(value_id(v)),
{
}

/// An extension value is read back as written, under a registry id that
/// fits it: a typed value under the id of its kind, a raw item under any id
/// that has no typed form.
#[verifier::spinoff_prover]
#[verifier::rlimit(40)]
pub proof fn lemma_extension_value(input: Seq<u8>, pos: int, id: u32, v: ExtensionValueModel)
    requires
        extension_value_wf(v),
        v is Raw ==> !typed_extension_id(id as int),
        v !is Raw ==> id as int == value_id(v),
        matches_at(input, pos, enc_extension_value(v)),
    ensures
        spec_extension_value(input, pos, id) == Ok::<(ExtensionValueModel, int), Fault>(
            (v, pos + enc_extension_value(v).len()),
        ),
{
    match v {
        ExtensionValueModel::SubjectKeyIdentifier(b) => lemma_bstr(input, pos, b),
        ExtensionValueModel::KeyUsage(n) => lemma_int_head(input, pos, n as int),
        ExtensionValueModel::SubjectAltName(g) => lemma_alt_name(input, pos, g),
        ExtensionValueModel::BasicConstraints(b) => lemma_basic_constraints(input, pos, b),
        ExtensionValueModel::CrlDistributionPoints(d) => lemma_distribution_points(input, pos, d),
        ExtensionValueModel::CertificatePolicies(p) => lemma_certificate_policies(input, pos, p),
        ExtensionValueModel::AuthorityKeyIdentifier(a) => lemma_authority_key_identifier(input, pos, a),
        ExtensionValueModel::ExtKeyUsage(k) => lemma_ext_key_usage(input, pos, k),
        ExtensionValueModel::AuthorityInfoAccess(a) => lemma_access_descriptions(input, pos, a),
        ExtensionValueModel::SubjectDirectoryAttributes(s) => lemma_subject_directory_attributes(input, pos, s),
        ExtensionValueModel::IssuerAltName(g) => lemma_alt_name(input, pos, g),
        ExtensionValueModel::NameConstraints(n) => lemma_name_constraints(input, pos, n),
        ExtensionValueModel::PolicyMappings(m) => lemma_policy_mappings(input, pos, m),
        ExtensionValueModel::PolicyConstraints(c) => lemma_policy_constraints(input, pos, c),
        ExtensionValueModel::FreshestCrl(d) => lemma_distribution_points(input, pos, d),
        ExtensionValueModel::InhibitAnyPolicy(n) => lemma_int_head(input, pos, n as int),
        ExtensionValueModel::SubjectInfoAccess(a) => lemma_access_descriptions(input, pos, a),
        ExtensionValueModel::IpAddrBlocks(f) => lemma_ip_families(input, pos, f),
        ExtensionValueModel::AsIdentifiers(a) => lemma_as_identifiers(input, pos, a),
        ExtensionValueModel::IpAddrBlocksV2(f) => lemma_ip_families(input, pos, f),
        ExtensionValueModel::AsIdentifiersV2(a) => lemma_as_identifiers(input, pos, a),
        ExtensionValueModel::OcspNoCheck => {
            assert(input[pos] == input.subrange(pos, pos + 1)[0]);
        },
        ExtensionValueModel::TlsFeatures(t) => lemma_u32_array(input, pos, t),
        ExtensionValueModel::Raw(b) => lemma_raw_item(input, pos, b),
    }
}

/// The value under a registry id with no typed form is the raw CBOR item
/// that stands there; under a typed id it is never raw, and its kind is
/// the one of that id.
pub proof fn law_extension_value_dispatch(input: Seq<u8>, pos: int, id: u32)
    ensures
        !typed_extension_id(id as int) ==> spec_extension_value(input, pos, id) == match spec_raw_item(input, pos) {
            Ok((b, e)) => Ok::<(ExtensionValueModel, int), Fault>((ExtensionValueModel::Raw(b), e)),
            Err(f) => Err(f),
        },
        typed_extension_id(id as int) ==> (spec_extension_value(input, pos, id) matches Ok((v, _)) ==> value_id(v)
            == id as int),
{
}

/// An `Extension` is read back as written.
#[verifier::spinoff_prover]
#[verifier::rlimit(30)]
proof fn lemma_extension(input: Seq<u8>, pos: int, x: ExtensionModel)
    requires
        extension_wf(x),
        matches_at(input, pos, enc_extension(x)),
    ensures
        spec_extension(input, pos) == Ok::<(ExtensionModel, int), Fault>((x, pos + enc_extension(x).len())),
{
    match x.id {
        IntOrOidModel::Int(id) => {
            let signed = if x.critical {
                -(id as int)
            } else {
                id as int
            };
            let h = int_head(signed);
            lemma_matches_split(input, pos, h, enc_extension_value(x.value));
            lemma_int_head(input, pos, signed);
            lemma_extension_value(input, pos + h.len(), id as u32, x.value);
            assert(unsigned_abs(signed as i32) == id as u32);
            assert(extension_id(signed as i32) == id);
        },
        IntOrOidModel::Oid(o) => {
            let b = x.value->Raw_0;
            let rest = if x.critical {
                head(4, 1) + bstr(b)
            } else {
                bstr(b)
            };
            lemma_matches_split(input, pos, bstr(o), rest);
            lemma_oid(input, pos, o);
            let e = pos + bstr(o).len();
            if x.critical {
                lemma_matches_split(input, e, head(4, 1), bstr(b));
                lemma_array_head(input, e, 1);
                lemma_bstr(input, e + head(4, 1).len(), b);
            } else {
                lemma_bstr(input, e, b);
            }
        },
    }
}

/// `Extensions` are read back as written.
#[verifier::spinoff_prover]
#[verifier::rlimit(30)]
pub proof fn lemma_extensions(input: Seq<u8>, pos: int, xs: Seq<ExtensionModel>)
    requires
        extensions_wf(xs),
        matches_at(input, pos, enc_extensions(xs)),
    ensures
        spec_extensions(input, pos) == Ok::<(Seq<ExtensionModel>, int), Fault>(
            (xs, pos + enc_extensions(xs).len()),
        ),
{
    match compact_key_usage(xs) {
        Some((critical, v)) => {
            let signed = key_usage_word(critical, v);
            lemma_int_head(input, pos, signed);
            assert(unsigned_abs(signed as i32) == v);
            assert(seq![key_usage_extension(critical, v)] =~= xs);
        },
        None => {
            assert forall|k: int| 0 <= k < xs.len() implies reads_back(
                extension_parser(),
                extension_writer(),
                #[trigger] xs[k],
            ) by {
                assert(extension_wf(xs[k]));
                assert forall|i: Seq<u8>, p: int| #[trigger] matches_at(i, p, extension_writer()(xs[k])) implies extension_parser()(i, p)
                    == Ok::<(ExtensionModel, int), Fault>((xs[k], p + extension_writer()(xs[k]).len())) by {
                    lemma_extension(i, p, xs[k]);
                }
            }
            lemma_paired(
                input,
                pos,
                "Extensions array must have an even number of elements",
                xs,
                extension_parser(),
                extension_writer(),
            );
        },
    }
}

} // verus!
