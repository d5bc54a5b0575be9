//! Human-readable name lookups for the IANA "CBOR Encoded X.509 (C509)"
//! registry tables (Section 8 of the C509 certificate specification).
//!
//! These are deliberately *not* closed enums: every table reserves ranges
//! for future IANA assignment and/or Private Use (generally `>= 32768`), so
//! a conforming parser must accept and preserve unrecognized-but-valid
//! integer values rather than reject them. All identifier fields on the
//! public structs are therefore plain integers; these functions are a
//! best-effort naming aid layered on top.
use vstd::prelude::*;

verus! {
/// The entries of the registry table that [`rdn_attribute_name`] reads.
pub open spec fn rdn_attribute_table(id: u16) -> Option<&'static str> {
    match id {
        0 => Some("emailAddress"),
        1 => Some("commonName"),
        2 => Some("surname"),
        3 => Some("serialNumber"),
        4 => Some("countryName"),
        5 => Some("localityName"),
        6 => Some("stateOrProvinceName"),
        7 => Some("streetAddress"),
        8 => Some("organizationName"),
        9 => Some("organizationalUnitName"),
        10 => Some("title"),
        11 => Some("businessCategory"),
        12 => Some("postalCode"),
        13 => Some("givenName"),
        14 => Some("initials"),
        15 => Some("generationQualifier"),
        16 => Some("dnQualifier"),
        17 => Some("pseudonym"),
        18 => Some("organizationIdentifier"),
        19 => Some("jurisdictionLocalityName"),
        20 => Some("jurisdictionStateOrProvinceName"),
        21 => Some("jurisdictionCountryName"),
        22 => Some("domainComponent"),
        25 => Some("name"),
        26 => Some("telephoneNumber"),
        27 => Some("dmdName"),
        28 => Some("uid"),
        29 => Some("unstructuredName"),
        30 => Some("unstructuredAddress"),
        _ => None,
    }
}

/// Section 8.6 "C509 RDN Attributes Registry" (Figure 10).
pub fn rdn_attribute_name(id: u16) -> (r: Option<&'static str>)
    ensures
        r == rdn_attribute_table(id),
{
    match id {
        0 => Some("emailAddress"),
        1 => Some("commonName"),
        2 => Some("surname"),
        3 => Some("serialNumber"),
        4 => Some("countryName"),
        5 => Some("localityName"),
        6 => Some("stateOrProvinceName"),
        7 => Some("streetAddress"),
        8 => Some("organizationName"),
        9 => Some("organizationalUnitName"),
        10 => Some("title"),
        11 => Some("businessCategory"),
        12 => Some("postalCode"),
        13 => Some("givenName"),
        14 => Some("initials"),
        15 => Some("generationQualifier"),
        16 => Some("dnQualifier"),
        17 => Some("pseudonym"),
        18 => Some("organizationIdentifier"),
        19 => Some("jurisdictionLocalityName"),
        20 => Some("jurisdictionStateOrProvinceName"),
        21 => Some("jurisdictionCountryName"),
        22 => Some("domainComponent"),
        25 => Some("name"),
        26 => Some("telephoneNumber"),
        27 => Some("dmdName"),
        28 => Some("uid"),
        29 => Some("unstructuredName"),
        30 => Some("unstructuredAddress"),
        _ => None,
    }
}

/// The entries of the registry table that [`extension_name`] reads.
pub open spec fn extension_table(id: u16) -> Option<&'static str> {
    match id {
        1 => Some("subjectKeyIdentifier"),
        2 => Some("keyUsage"),
        3 => Some("subjectAltName"),
        4 => Some("basicConstraints"),
        5 => Some("cRLDistributionPoints"),
        6 => Some("certificatePolicies"),
        7 => Some("authorityKeyIdentifier"),
        8 => Some("extKeyUsage"),
        9 => Some("authorityInfoAccess"),
        24 => Some("subjectDirectoryAttributes"),
        25 => Some("issuerAltName"),
        26 => Some("nameConstraints"),
        27 => Some("policyMappings"),
        28 => Some("policyConstraints"),
        29 => Some("freshestCRL"),
        30 => Some("inhibitAnyPolicy"),
        31 => Some("subjectInfoAccess"),
        32 => Some("id-pe-ipAddrBlocks"),
        33 => Some("id-pe-autonomousSysIds"),
        34 => Some("id-pe-ipAddrBlocks-v2"),
        35 => Some("id-pe-autonomousSysIds-v2"),
        36 => Some("id-pkix-ocsp-nocheck"),
        38 => Some("id-pe-tlsfeature"),
        _ => None,
    }
}

/// Section 8.8 "C509 Extensions Registry" (Figure 12).
pub fn extension_name(id: u16) -> (r: Option<&'static str>)
    ensures
        r == extension_table(id),
{
    match id {
        1 => Some("subjectKeyIdentifier"),
        2 => Some("keyUsage"),
        3 => Some("subjectAltName"),
        4 => Some("basicConstraints"),
        5 => Some("cRLDistributionPoints"),
        6 => Some("certificatePolicies"),
        7 => Some("authorityKeyIdentifier"),
        8 => Some("extKeyUsage"),
        9 => Some("authorityInfoAccess"),
        24 => Some("subjectDirectoryAttributes"),
        25 => Some("issuerAltName"),
        26 => Some("nameConstraints"),
        27 => Some("policyMappings"),
        28 => Some("policyConstraints"),
        29 => Some("freshestCRL"),
        30 => Some("inhibitAnyPolicy"),
        31 => Some("subjectInfoAccess"),
        32 => Some("id-pe-ipAddrBlocks"),
        33 => Some("id-pe-autonomousSysIds"),
        34 => Some("id-pe-ipAddrBlocks-v2"),
        35 => Some("id-pe-autonomousSysIds-v2"),
        36 => Some("id-pkix-ocsp-nocheck"),
        38 => Some("id-pe-tlsfeature"),
        _ => None,
    }
}

/// The entries of the registry table that [`extended_key_usage_name`] reads.
pub open spec fn extended_key_usage_table(id: i16) -> Option<&'static str> {
    match id {
        0 => Some("anyExtendedKeyUsage"),
        1 => Some("id-kp-serverAuth"),
        2 => Some("id-kp-clientAuth"),
        3 => Some("id-kp-codeSigning"),
        4 => Some("id-kp-emailProtection"),
        8 => Some("id-kp-timeStamping"),
        9 => Some("id-kp-OCSPSigning"),
        10 => Some("id-pkinit-KPClientAuth"),
        11 => Some("id-pkinit-KPKdc"),
        12 => Some("id-kp-secureShellClient"),
        13 => Some("id-kp-secureShellServer"),
        14 => Some("id-kp-bundleSecurity"),
        15 => Some("id-kp-cmcCA"),
        16 => Some("id-kp-cmcRA"),
        17 => Some("id-kp-cmcArchive"),
        18 => Some("id-kp-cmKGA"),
        20 => Some("id-kp-wisun-fan-device"),
        _ => None,
    }
}

/// Section 8.12 "C509 Extended Key Usages Registry" (Figure 16).
pub fn extended_key_usage_name(id: i16) -> (r: Option<&'static str>)
    ensures
        r == extended_key_usage_table(id),
{
    match id {
        0 => Some("anyExtendedKeyUsage"),
        1 => Some("id-kp-serverAuth"),
        2 => Some("id-kp-clientAuth"),
        3 => Some("id-kp-codeSigning"),
        4 => Some("id-kp-emailProtection"),
        8 => Some("id-kp-timeStamping"),
        9 => Some("id-kp-OCSPSigning"),
        10 => Some("id-pkinit-KPClientAuth"),
        11 => Some("id-pkinit-KPKdc"),
        12 => Some("id-kp-secureShellClient"),
        13 => Some("id-kp-secureShellServer"),
        14 => Some("id-kp-bundleSecurity"),
        15 => Some("id-kp-cmcCA"),
        16 => Some("id-kp-cmcRA"),
        17 => Some("id-kp-cmcArchive"),
        18 => Some("id-kp-cmKGA"),
        20 => Some("id-kp-wisun-fan-device"),
        _ => None,
    }
}

/// The entries of the registry table that [`general_name_type_name`] reads.
pub open spec fn general_name_type_table(id: i32) -> Option<&'static str> {
    match id {
        -3 => Some("otherName (MACAddress)"),
        -2 => Some("otherName (SmtpUTF8Mailbox)"),
        -1 => Some("otherName (hardwareModuleName)"),
        0 => Some("otherName"),
        1 => Some("rfc822Name"),
        2 => Some("dNSName"),
        4 => Some("directoryName"),
        6 => Some("uniformResourceIdentifier"),
        7 => Some("iPAddress"),
        8 => Some("registeredID"),
        _ => None,
    }
}

/// Section 8.13 "C509 General Names Registry" (Figure 17).
pub fn general_name_type_name(id: i32) -> (r: Option<&'static str>)
    ensures
        r == general_name_type_table(id),
{
    match id {
        -3 => Some("otherName (MACAddress)"),
        -2 => Some("otherName (SmtpUTF8Mailbox)"),
        -1 => Some("otherName (hardwareModuleName)"),
        0 => Some("otherName"),
        1 => Some("rfc822Name"),
        2 => Some("dNSName"),
        4 => Some("directoryName"),
        6 => Some("uniformResourceIdentifier"),
        7 => Some("iPAddress"),
        8 => Some("registeredID"),
        _ => None,
    }
}

/// The entries of the registry table that [`signature_algorithm_name`] reads.
pub open spec fn signature_algorithm_table(id: i32) -> Option<&'static str> {
    match id {
        -256 => Some("sha1-with-rsa-signature"),
        -255 => Some("ecdsa-with-SHA1"),
        0 => Some("ecdsa-with-SHA256"),
        1 => Some("ecdsa-with-SHA384"),
        2 => Some("ecdsa-with-SHA512"),
        3 => Some("id-ecdsa-with-shake128"),
        4 => Some("id-ecdsa-with-shake256"),
        5 => Some("id-alg-unsigned"),
        8 => Some("sm2-with-sm3"),
        12 => Some("id-Ed25519"),
        13 => Some("id-Ed448"),
        14 => Some("sa-ecdhPop-sha256-hmac-sha256"),
        15 => Some("sa-ecdhPop-sha384-hmac-sha384"),
        16 => Some("sa-ecdhPop-sha512-hmac-sha512"),
        23 => Some("sha256WithRSAEncryption"),
        24 => Some("sha384WithRSAEncryption"),
        25 => Some("sha512WithRSAEncryption"),
        26 => Some("RSASSA-PSS with SHA-256"),
        27 => Some("RSASSA-PSS with SHA-384"),
        28 => Some("RSASSA-PSS with SHA-512"),
        29 => Some("id-RSASSA-PSS-SHAKE128"),
        30 => Some("id-RSASSA-PSS-SHAKE256"),
        _ => None,
    }
}

/// Section 8.14 "C509 Signature Algorithms Registry" (Figure 18).
pub fn signature_algorithm_name(id: i32) -> (r: Option<&'static str>)
    ensures
        r == signature_algorithm_table(id),
{
    match id {
        -256 => Some("sha1-with-rsa-signature"),
        -255 => Some("ecdsa-with-SHA1"),
        0 => Some("ecdsa-with-SHA256"),
        1 => Some("ecdsa-with-SHA384"),
        2 => Some("ecdsa-with-SHA512"),
        3 => Some("id-ecdsa-with-shake128"),
        4 => Some("id-ecdsa-with-shake256"),
        5 => Some("id-alg-unsigned"),
        8 => Some("sm2-with-sm3"),
        12 => Some("id-Ed25519"),
        13 => Some("id-Ed448"),
        14 => Some("sa-ecdhPop-sha256-hmac-sha256"),
        15 => Some("sa-ecdhPop-sha384-hmac-sha384"),
        16 => Some("sa-ecdhPop-sha512-hmac-sha512"),
        23 => Some("sha256WithRSAEncryption"),
        24 => Some("sha384WithRSAEncryption"),
        25 => Some("sha512WithRSAEncryption"),
        26 => Some("RSASSA-PSS with SHA-256"),
        27 => Some("RSASSA-PSS with SHA-384"),
        28 => Some("RSASSA-PSS with SHA-512"),
        29 => Some("id-RSASSA-PSS-SHAKE128"),
        30 => Some("id-RSASSA-PSS-SHAKE256"),
        _ => None,
    }
}

/// The entries of the registry table that [`public_key_algorithm_name`] reads.
pub open spec fn public_key_algorithm_table(id: i32) -> Option<&'static str> {
    match id {
        0 => Some("rsaEncryption"),
        1 => Some("id-ecPublicKey (secp256r1)"),
        2 => Some("id-ecPublicKey (secp384r1)"),
        3 => Some("id-ecPublicKey (secp521r1)"),
        6 => Some("id-ecPublicKey (sm2p256v1)"),
        8 => Some("id-X25519"),
        9 => Some("id-X448"),
        12 => Some("id-Ed25519"),
        13 => Some("id-Ed448"),
        24 => Some("id-ecPublicKey (brainpoolP256r1)"),
        25 => Some("id-ecPublicKey (brainpoolP384r1)"),
        26 => Some("id-ecPublicKey (brainpoolP512r1)"),
        27 => Some("id-ecPublicKey (FRP256v1)"),
        _ => None,
    }
}

/// Section 8.15 "C509 Public Key Algorithms Registry" (Figure 19).
pub fn public_key_algorithm_name(id: i32) -> (r: Option<&'static str>)
    ensures
        r == public_key_algorithm_table(id),
{
    match id {
        0 => Some("rsaEncryption"),
        1 => Some("id-ecPublicKey (secp256r1)"),
        2 => Some("id-ecPublicKey (secp384r1)"),
        3 => Some("id-ecPublicKey (secp521r1)"),
        6 => Some("id-ecPublicKey (sm2p256v1)"),
        8 => Some("id-X25519"),
        9 => Some("id-X448"),
        12 => Some("id-Ed25519"),
        13 => Some("id-Ed448"),
        24 => Some("id-ecPublicKey (brainpoolP256r1)"),
        25 => Some("id-ecPublicKey (brainpoolP384r1)"),
        26 => Some("id-ecPublicKey (brainpoolP512r1)"),
        27 => Some("id-ecPublicKey (FRP256v1)"),
        _ => None,
    }
}

/// The entries of the registry table that [`information_access_name`] reads.
pub open spec fn information_access_table(id: i16) -> Option<&'static str> {
    match id {
        1 => Some("id-ad-ocsp"),
        2 => Some("id-ad-caIssuers"),
        3 => Some("id-ad-timeStamping"),
        5 => Some("id-ad-caRepository"),
        10 => Some("id-ad-rpkiManifest"),
        11 => Some("id-ad-signedObject"),
        13 => Some("id-ad-rpkiNotify"),
        _ => None,
    }
}

/// Section 8.11 "C509 Information Access Registry" (Figure 15), used for the
/// `accessMethod` of `authorityInfoAccess`/`subjectInfoAccess`.
pub fn information_access_name(id: i16) -> (r: Option<&'static str>)
    ensures
        r == information_access_table(id),
{
    match id {
        1 => Some("id-ad-ocsp"),
        2 => Some("id-ad-caIssuers"),
        3 => Some("id-ad-timeStamping"),
        5 => Some("id-ad-caRepository"),
        10 => Some("id-ad-rpkiManifest"),
        11 => Some("id-ad-signedObject"),
        13 => Some("id-ad-rpkiNotify"),
        _ => None,
    }
}

} // verus!
