//! A verified parser and encoder for C509 certificates: the CBOR encoding of
//! X.509 certificates (`draft-ietf-cose-cbor-encoded-cert`).
//!
//! ```text
//! C509Certificate = [
//!    TBSCertificate,
//!    issuerSignatureValue : any,
//! ]
//! ```
//!
//! Every decoder is specified by a spec function over the input bytes, every
//! encoder by the bytes it appends, and the modules prove that decoding an
//! encoding gives the value back.
//!
//! This crate parses and builds the C509 CBOR wire structures. It does not
//! verify signatures or validate certificate semantics: it is a codec, not a
//! certificate validator. [`from_x509`] converts a real X.509 certificate
//! into a C509 one at the structural level only: public keys and signature
//! values are carried as opaque bytes exactly as they appear in the DER (no
//! point compression, RSA exponent elision or ECDSA `R‖S` packing).
#![allow(unused_imports)]

pub mod algorithm;
pub mod cbor;
pub mod cert_json;
pub mod certificate;
pub mod common;
pub mod error;
pub mod extensions;
pub mod name;
pub mod oid;
pub mod registry;
pub mod repeat;
pub mod x509;

pub use algorithm::AlgorithmIdentifier;
pub use cert_json::JsonCertificate;
pub use certificate::{C509Certificate, TbsCertificate};
pub use common::{IntOrOid, MacAddr, RdnAttr, SpecialText};
pub use error::{Error, Fault};
pub use extensions::access_description::AccessDescription;
pub use extensions::authority_key_identifier::AuthorityKeyIdentifier;
pub use extensions::basic_constraints::BasicConstraints;
pub use extensions::distribution_point::DistributionPointName;
pub use extensions::ext_key_usage::ExtKeyUsage;
pub use extensions::general_name::{GeneralName, GeneralNameValue};
pub use extensions::ip_addr::{AsIdOrRange, IpAddr, IpAddressChoice, IpAddressFamily, IpAddressOrRange, IpNet};
pub use extensions::name_constraints::NameConstraints;
pub use extensions::policy::certificate_policies::{CertificatePolicies, PolicyIdentifier, PolicyQualifierInfo};
pub use extensions::policy::policy_constraints::PolicyConstraints;
pub use extensions::policy::policy_mappings::PolicyMappings;
pub use extensions::subject_directory_attributes::{RdnAttributes, SubjectDirectoryAttributes};
pub use extensions::{Extension, ExtensionValue, Extensions};
pub use name::{Name, RdnAttribute};
pub use oid::Oid;
pub use x509::from_x509;
