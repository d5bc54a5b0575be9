use c509_cert::x509::{
    convert_fields, extended_key_usage_ids, looks_like_pem, name_to_rdn, public_key_algorithm_id, rdn_attribute_id,
    signature_algorithm_id, KeyPurposes, X509Attribute, X509Fields,
};
use c509_cert::{
    from_x509, AlgorithmIdentifier, AuthorityKeyIdentifier, BasicConstraints, C509Certificate, Error, ExtKeyUsage,
    Extension, ExtensionValue, GeneralName, GeneralNameValue, IntOrOid, MacAddr, Name, RdnAttr, SpecialText,
};
use c509_cert::TbsCertificate;
use x509_parser::oid_registry::{
    OID_DOMAIN_COMPONENT, OID_EC_P256, OID_KEY_TYPE_EC_PUBLIC_KEY, OID_NIST_EC_P384, OID_NIST_EC_P521,
    OID_PKCS1_RSAENCRYPTION, OID_PKCS1_SHA256WITHRSA, OID_PKCS1_SHA384WITHRSA, OID_PKCS1_SHA512WITHRSA,
    OID_PKCS9_EMAIL_ADDRESS, OID_PKCS9_UNSTRUCTURED_NAME, OID_SIG_ECDSA_WITH_SHA224, OID_SIG_ECDSA_WITH_SHA256,
    OID_SIG_ECDSA_WITH_SHA384, OID_SIG_ECDSA_WITH_SHA512, OID_SIG_ED25519, OID_SIG_ED448, OID_USERID,
    OID_X509_BUSINESS_CATEGORY, OID_X509_COMMON_NAME, OID_X509_COUNTRY_NAME, OID_X509_DN_QUALIFIER,
    OID_X509_GENERATION_QUALIFIER, OID_X509_GIVEN_NAME, OID_X509_INITIALS, OID_X509_LOCALITY_NAME, OID_X509_NAME,
    OID_X509_ORGANIZATIONAL_UNIT, OID_X509_ORGANIZATION_NAME, OID_X509_POSTAL_CODE, OID_X509_SERIALNUMBER,
    OID_X509_STATE_OR_PROVINCE_NAME, OID_X509_STREET_ADDRESS, OID_X509_SURNAME, OID_X509_TITLE,
};

// ------------------------------------------------------------ DER helpers

fn tlv(tag: u8, content: &[u8]) -> Vec<u8> {
    let mut v = vec![tag];
    let n = content.len();
    if n < 128 {
        v.push(n as u8);
    } else if n < 256 {
        v.push(0x81);
        v.push(n as u8);
    } else {
        v.push(0x82);
        v.push((n >> 8) as u8);
        v.push((n & 0xff) as u8);
    }
    v.extend_from_slice(content);
    v
}

fn der_seq(parts: &[Vec<u8>]) -> Vec<u8> {
    tlv(0x30, &parts.concat())
}

fn der_oid(bytes: &[u8]) -> Vec<u8> {
    tlv(0x06, bytes)
}

fn der_extension(oid: &[u8], critical: bool, value: Vec<u8>) -> Vec<u8> {
    let mut parts = vec![der_oid(oid)];
    if critical {
        parts.push(tlv(0x01, &[0xFF]));
    }
    parts.push(tlv(0x04, &value));
    der_seq(&parts)
}

fn der_name(oid: &[u8], tag: u8, text: &str) -> Vec<u8> {
    der_seq(&[tlv(0x31, &der_seq(&[der_oid(oid), tlv(tag, text.as_bytes())]))])
}

const ECDSA_SHA256: [u8; 8] = [0x2A, 0x86, 0x48, 0xCE, 0x3D, 0x04, 0x03, 0x02];
const EC_PUBLIC_KEY: [u8; 7] = [0x2A, 0x86, 0x48, 0xCE, 0x3D, 0x02, 0x01];
const P256: [u8; 8] = [0x2A, 0x86, 0x48, 0xCE, 0x3D, 0x03, 0x01, 0x07];
const COMMON_NAME: [u8; 3] = [0x55, 0x04, 0x03];
const SERVER_AUTH: [u8; 8] = [0x2B, 0x06, 0x01, 0x05, 0x05, 0x07, 0x03, 0x01];
const CLIENT_AUTH: [u8; 8] = [0x2B, 0x06, 0x01, 0x05, 0x05, 0x07, 0x03, 0x02];

fn public_key_bits() -> Vec<u8> {
    let mut k = vec![0x04];
    k.extend((1..=64).map(|i| i as u8));
    k
}

fn signature_bits() -> Vec<u8> {
    vec![0x30, 0x06, 0x02, 0x01, 0x01, 0x02, 0x01, 0x02]
}

/// A small X.509 v3 certificate: ECDSA/P-256, issuer `CN=RFC test CA`,
/// subject a MAC address as a printableString commonName, valid from
/// 2023-01-01 to 2026-01-01, with (in this DER order) subjectAltName,
/// authorityKeyIdentifier, basicConstraints (critical, CA), keyUsage and
/// extKeyUsage.
fn sample_der(not_after: &str) -> Vec<u8> {
    let mut bits = vec![0x00];
    bits.extend(public_key_bits());
    let mut sig = vec![0x00];
    sig.extend(signature_bits());
    let extensions = der_seq(&[
        der_extension(&[0x55, 0x1D, 0x11], false, der_seq(&[tlv(0x82, b"example.com")])),
        der_extension(&[0x55, 0x1D, 0x23], false, der_seq(&[tlv(0x80, &[0xAA, 0xBB, 0xCC])])),
        der_extension(&[0x55, 0x1D, 0x13], true, der_seq(&[tlv(0x01, &[0xFF])])),
        der_extension(&[0x55, 0x1D, 0x0F], false, tlv(0x03, &[0x07, 0x80])),
        der_extension(&[0x55, 0x1D, 0x25], false, der_seq(&[der_oid(&SERVER_AUTH), der_oid(&CLIENT_AUTH)])),
    ]);
    let tbs = der_seq(&[
        tlv(0xA0, &tlv(0x02, &[0x02])),
        tlv(0x02, &[0x01, 0xF5, 0x0D]),
        der_seq(&[der_oid(&ECDSA_SHA256)]),
        der_name(&COMMON_NAME, 0x0C, "RFC test CA"),
        der_seq(&[tlv(0x17, b"230101000000Z"), tlv(0x18, not_after.as_bytes())]),
        der_name(&COMMON_NAME, 0x13, "01-23-45-67-89-AB"),
        der_seq(&[der_seq(&[der_oid(&EC_PUBLIC_KEY), der_oid(&P256)]), tlv(0x03, &bits)]),
        tlv(0xA3, &extensions),
    ]);
    der_seq(&[tbs, der_seq(&[der_oid(&ECDSA_SHA256)]), tlv(0x03, &sig)])
}

fn base64(data: &[u8]) -> String {
    const ALPHABET: &[u8] = b"ABCDEFGHIJKLMNOPQRSTUVWXYZabcdefghijklmnopqrstuvwxyz0123456789+/";
    let mut out = String::new();
    for chunk in data.chunks(3) {
        let b = [chunk[0], *chunk.get(1).unwrap_or(&0), *chunk.get(2).unwrap_or(&0)];
        let n = ((b[0] as u32) << 16) | ((b[1] as u32) << 8) | b[2] as u32;
        for i in 0..4 {
            if i <= chunk.len() {
                out.push(ALPHABET[((n >> (18 - 6 * i)) & 0x3f) as usize] as char);
            } else {
                out.push('=');
            }
        }
    }
    out
}

fn expected_sample(not_after: Option<i64>) -> C509Certificate {
    C509Certificate {
        tbs: TbsCertificate {
            c509_certificate_type: 3,
            certificate_serial_number: vec![0x01, 0xF5, 0x0D],
            issuer_signature_algorithm: AlgorithmIdentifier::Int(0),
            issuer: Some(Name(vec![RdnAttr::Registered {
                id: 1,
                printable_string: false,
                value: SpecialText::Text("RFC test CA".to_string()),
            }])),
            validity_not_before: 1_672_531_200,
            validity_not_after: not_after,
            subject: Name(vec![RdnAttr::Registered {
                id: 1,
                printable_string: true,
                value: SpecialText::Mac(MacAddr::from_bytes(&[0x01, 0x23, 0x45, 0x67, 0x89, 0xAB]).unwrap()),
            }]),
            subject_public_key_algorithm: AlgorithmIdentifier::Int(1),
            subject_public_key: public_key_bits(),
            extensions: c509_cert::Extensions(vec![
                Extension {
                    id: IntOrOid::Int(4),
                    critical: true,
                    value: ExtensionValue::BasicConstraints(BasicConstraints::Ca { path_len: None }),
                },
                Extension { id: IntOrOid::Int(2), critical: false, value: ExtensionValue::KeyUsage(1) },
                Extension {
                    id: IntOrOid::Int(8),
                    critical: false,
                    value: ExtensionValue::ExtKeyUsage(ExtKeyUsage(vec![IntOrOid::Int(1), IntOrOid::Int(2)])),
                },
                Extension {
                    id: IntOrOid::Int(3),
                    critical: false,
                    value: ExtensionValue::SubjectAltName(vec![GeneralName {
                        kind: 2,
                        value: GeneralNameValue::DnsName("example.com".to_string()),
                    }]),
                },
                Extension {
                    id: IntOrOid::Int(7),
                    critical: false,
                    value: ExtensionValue::AuthorityKeyIdentifier(AuthorityKeyIdentifier {
                        key_identifier: vec![0xAA, 0xBB, 0xCC],
                        cert_issuer: None,
                        cert_serial: None,
                    }),
                },
            ]),
        },
        issuer_signature_value: signature_bits(),
    }
}

// ------------------------------------------------------------ end to end

#[test]
fn der_certificate_converts() {
    let cert = from_x509(&sample_der("20260101000000Z")).expect("convert");
    assert_eq!(cert, expected_sample(Some(1_767_225_600)));
    // The result is a certificate this crate can write and read back.
    assert_eq!(C509Certificate::decode(&cert.encode()).expect("decode"), cert);
}

#[test]
fn pem_certificate_converts() {
    let pem = format!(
        "-----BEGIN CERTIFICATE-----\n{}\n-----END CERTIFICATE-----\n",
        base64(&sample_der("20260101000000Z"))
    );
    let cert = from_x509(pem.as_bytes()).expect("convert");
    assert_eq!(cert, expected_sample(Some(1_767_225_600)));
}

#[test]
fn no_expiration_sentinel_becomes_null() {
    let cert = from_x509(&sample_der("99991231235959Z")).expect("convert");
    assert_eq!(cert, expected_sample(None));
}

#[test]
fn empty_input_is_an_x509_error() {
    assert!(matches!(from_x509(&[]), Err(Error::X509(_))));
}

#[test]
fn pem_and_der_forms_agree() {
    let der = sample_der("20260101000000Z");
    let pem = format!("-----BEGIN CERTIFICATE-----\n{}\n-----END CERTIFICATE-----\n", base64(&der));
    assert_eq!(from_x509(pem.as_bytes()).unwrap(), from_x509(&der).unwrap());
}

#[test]
fn garbage_is_an_x509_error() {
    assert!(matches!(from_x509(&[0x30, 0x03, 0x02, 0x01]), Err(Error::X509(_))));
    assert!(matches!(from_x509(b"-----BEGIN CERTIFICATE-----\n!!\n"), Err(Error::X509(_))));
}

#[test]
fn pem_marker_is_looked_for_in_the_first_kilobyte() {
    assert!(looks_like_pem(b"-----BEGIN CERTIFICATE-----"));
    assert!(looks_like_pem(b"junk before -----BEGIN X"));
    assert!(!looks_like_pem(&[0x30, 0x82, 0x01, 0x00]));
    assert!(!looks_like_pem(b"-----BEGIN"));
    let mut late = vec![b' '; 1013];
    late.extend_from_slice(b"-----BEGIN ");
    assert_eq!(late.len(), 1024);
    assert!(looks_like_pem(&late));
    let mut too_late = vec![b' '; 1014];
    too_late.extend_from_slice(b"-----BEGIN ");
    assert!(!looks_like_pem(&too_late));
}

// ------------------------------------------------------------ tables

#[test]
fn signature_algorithms_map_to_registry_ids() {
    assert_eq!(signature_algorithm_id(OID_SIG_ECDSA_WITH_SHA256.as_bytes()), Some(0));
    assert_eq!(signature_algorithm_id(OID_SIG_ECDSA_WITH_SHA384.as_bytes()), Some(1));
    assert_eq!(signature_algorithm_id(OID_SIG_ECDSA_WITH_SHA512.as_bytes()), Some(2));
    assert_eq!(signature_algorithm_id(OID_SIG_ED25519.as_bytes()), Some(12));
    assert_eq!(signature_algorithm_id(OID_SIG_ED448.as_bytes()), Some(13));
    assert_eq!(signature_algorithm_id(OID_PKCS1_SHA256WITHRSA.as_bytes()), Some(23));
    assert_eq!(signature_algorithm_id(OID_PKCS1_SHA384WITHRSA.as_bytes()), Some(24));
    assert_eq!(signature_algorithm_id(OID_PKCS1_SHA512WITHRSA.as_bytes()), Some(25));
    assert_eq!(signature_algorithm_id(OID_SIG_ECDSA_WITH_SHA224.as_bytes()), None);
}

#[test]
fn public_key_algorithms_map_to_registry_ids() {
    assert_eq!(public_key_algorithm_id(OID_PKCS1_RSAENCRYPTION.as_bytes(), &None).unwrap(), 0);
    assert_eq!(public_key_algorithm_id(OID_SIG_ED25519.as_bytes(), &None).unwrap(), 12);
    assert_eq!(public_key_algorithm_id(OID_SIG_ED448.as_bytes(), &None).unwrap(), 13);
    let ec_oid = OID_KEY_TYPE_EC_PUBLIC_KEY;
    let ec = ec_oid.as_bytes();
    assert_eq!(public_key_algorithm_id(ec, &Some(Ok(OID_EC_P256.as_bytes().to_vec()))).unwrap(), 1);
    assert_eq!(public_key_algorithm_id(ec, &Some(Ok(OID_NIST_EC_P384.as_bytes().to_vec()))).unwrap(), 2);
    assert_eq!(public_key_algorithm_id(ec, &Some(Ok(OID_NIST_EC_P521.as_bytes().to_vec()))).unwrap(), 3);
    assert!(matches!(public_key_algorithm_id(ec, &None), Err(Error::X509(_))));
    assert!(matches!(public_key_algorithm_id(ec, &Some(Err("bad".to_string()))), Err(Error::X509(_))));
    assert!(matches!(
        public_key_algorithm_id(ec, &Some(Ok(OID_SIG_ED25519.as_bytes().to_vec()))),
        Err(Error::X509(_))
    ));
    assert!(matches!(public_key_algorithm_id(OID_SIG_ECDSA_WITH_SHA256.as_bytes(), &None), Err(Error::X509(_))));
}

#[test]
fn name_attributes_map_to_registry_ids() {
    let table = [
        (OID_PKCS9_EMAIL_ADDRESS, 0),
        (OID_X509_COMMON_NAME, 1),
        (OID_X509_SURNAME, 2),
        (OID_X509_SERIALNUMBER, 3),
        (OID_X509_COUNTRY_NAME, 4),
        (OID_X509_LOCALITY_NAME, 5),
        (OID_X509_STATE_OR_PROVINCE_NAME, 6),
        (OID_X509_STREET_ADDRESS, 7),
        (OID_X509_ORGANIZATION_NAME, 8),
        (OID_X509_ORGANIZATIONAL_UNIT, 9),
        (OID_X509_TITLE, 10),
        (OID_X509_BUSINESS_CATEGORY, 11),
        (OID_X509_POSTAL_CODE, 12),
        (OID_X509_GIVEN_NAME, 13),
        (OID_X509_INITIALS, 14),
        (OID_X509_GENERATION_QUALIFIER, 15),
        (OID_X509_DN_QUALIFIER, 16),
        (OID_DOMAIN_COMPONENT, 22),
        (OID_X509_NAME, 25),
        (OID_USERID, 28),
        (OID_PKCS9_UNSTRUCTURED_NAME, 29),
    ];
    for (oid, id) in table {
        assert_eq!(rdn_attribute_id(oid.as_bytes()), Some(id), "{oid}");
    }
    assert_eq!(rdn_attribute_id(&[0x55, 0x04, 0x41]), None);
    assert_eq!(rdn_attribute_id(OID_SIG_ED25519.as_bytes()), None);
}

#[test]
fn key_purposes_keep_registry_order() {
    let all = KeyPurposes {
        any: true,
        server_auth: true,
        client_auth: true,
        code_signing: true,
        email_protection: true,
        time_stamping: true,
        ocsp_signing: true,
        others: 0,
    };
    let ids: Vec<IntOrOid> = [0, 1, 2, 3, 4, 8, 9].into_iter().map(IntOrOid::Int).collect();
    assert_eq!(extended_key_usage_ids(&all), ids);
    let some = KeyPurposes { any: false, server_auth: false, code_signing: false, time_stamping: false, ..all };
    assert_eq!(extended_key_usage_ids(&some), vec![IntOrOid::Int(2), IntOrOid::Int(4), IntOrOid::Int(9)]);
}

// ------------------------------------------------------------ plain values

fn attribute(oid: &[u8], tag: u32, text: &str) -> X509Attribute {
    X509Attribute { oid: oid.to_vec(), tag, text: Ok(text.to_string()) }
}

fn sample_fields() -> X509Fields {
    X509Fields {
        serial: vec![0x00, 0x00, 0x2A],
        signature_algorithm: OID_SIG_ED25519.as_bytes().to_vec(),
        issuer: vec![attribute(&COMMON_NAME, 12, "Issuer"), attribute(&[0x55, 0x04, 0x06], 19, "SE")],
        not_before: 10,
        not_after: 20,
        subject: vec![attribute(&COMMON_NAME, 12, "Subject")],
        public_key_algorithm: OID_SIG_ED25519.as_bytes().to_vec(),
        public_key_curve: None,
        public_key: vec![7; 32],
        basic_constraints: Ok(Some((true, (true, Some(2))))),
        key_usage: Ok(None),
        ext_key_usage: Ok(None),
        subject_alt_name: Ok(None),
        authority_key_identifier: Ok(None),
        signature_value: vec![9; 64],
    }
}

#[test]
fn fields_convert_exactly() {
    let cert = convert_fields(sample_fields()).expect("convert");
    let tbs = &cert.tbs;
    assert_eq!(tbs.c509_certificate_type, 3);
    // Leading zero bytes of the serial are dropped.
    assert_eq!(tbs.certificate_serial_number, vec![0x2A]);
    assert_eq!(tbs.issuer_signature_algorithm, AlgorithmIdentifier::Int(12));
    assert_eq!(
        tbs.issuer,
        Some(Name(vec![
            RdnAttr::Registered { id: 1, printable_string: false, value: SpecialText::Text("Issuer".to_string()) },
            RdnAttr::Registered { id: 4, printable_string: true, value: SpecialText::Text("SE".to_string()) },
        ]))
    );
    assert_eq!(tbs.validity_not_before, 10);
    assert_eq!(tbs.validity_not_after, Some(20));
    assert_eq!(tbs.subject_public_key_algorithm, AlgorithmIdentifier::Int(12));
    assert_eq!(tbs.subject_public_key, vec![7; 32]);
    assert_eq!(
        tbs.extensions.0,
        vec![Extension {
            id: IntOrOid::Int(4),
            critical: true,
            value: ExtensionValue::BasicConstraints(BasicConstraints::Ca { path_len: Some(2) }),
        }]
    );
    assert_eq!(cert.issuer_signature_value, vec![9; 64]);
}

#[test]
fn unrecognized_oids_are_named_in_the_error() {
    let mut f = sample_fields();
    f.signature_algorithm = OID_SIG_ECDSA_WITH_SHA224.as_bytes().to_vec();
    match convert_fields(f) {
        Err(Error::X509(m)) => assert_eq!(
            m,
            "issuerSignatureAlgorithm: unrecognized OID 1.2.840.10045.4.3.1 \
             (this converter only knows a handful of common algorithms)"
        ),
        other => panic!("unexpected result: {other:?}"),
    }
    let mut f = sample_fields();
    f.subject.push(attribute(&[0x55, 0x04, 0x41], 12, "pseudonym"));
    match convert_fields(f) {
        Err(Error::X509(m)) => assert_eq!(m, "name attribute OID 2.5.4.65 isn't supported by this converter"),
        other => panic!("unexpected result: {other:?}"),
    }
}

#[test]
fn not_a_ca_and_zero_serial() {
    let mut f = sample_fields();
    f.serial = vec![0x00];
    f.basic_constraints = Ok(Some((false, (false, None))));
    let cert = convert_fields(f).expect("convert");
    assert_eq!(cert.tbs.certificate_serial_number, vec![0x00]);
    assert_eq!(cert.tbs.extensions.0[0].value, ExtensionValue::BasicConstraints(BasicConstraints::NotCa));
}

#[test]
fn fields_that_cannot_be_carried_are_x509_errors() {
    let cases: Vec<Box<dyn Fn(&mut X509Fields)>> = vec![
        Box::new(|f| f.signature_algorithm = OID_SIG_ECDSA_WITH_SHA224.as_bytes().to_vec()),
        Box::new(|f| f.public_key_algorithm = vec![0x2A]),
        Box::new(|f| f.issuer.push(attribute(&[0x55, 0x04, 0x41], 12, "pseudonym"))),
        Box::new(|f| f.subject[0].text = Err("not text".to_string())),
        Box::new(|f| f.basic_constraints = Err("duplicate".to_string())),
        Box::new(|f| f.key_usage = Err("duplicate".to_string())),
        Box::new(|f| {
            f.ext_key_usage = Ok(Some((
                false,
                KeyPurposes {
                    any: false,
                    server_auth: true,
                    client_auth: false,
                    code_signing: false,
                    email_protection: false,
                    time_stamping: false,
                    ocsp_signing: false,
                    others: 1,
                },
            )))
        }),
        Box::new(|f| f.subject_alt_name = Ok(Some((false, vec![Ok("a.example".to_string()), Err("URI".to_string())])))),
        Box::new(|f| f.authority_key_identifier = Ok(Some((false, Ok(None))))),
        Box::new(|f| f.authority_key_identifier = Ok(Some((false, Err("unparsed".to_string()))))),
    ];
    for (i, change) in cases.iter().enumerate() {
        let mut f = sample_fields();
        change(&mut f);
        assert!(matches!(convert_fields(f), Err(Error::X509(_))), "case {i}");
    }
}

#[test]
fn name_text_that_reads_as_a_mac_address_is_one() {
    let name = name_to_rdn(&vec![attribute(&COMMON_NAME, 19, "01:23:45:67:89:ab")]).unwrap();
    assert_eq!(
        name,
        Name(vec![RdnAttr::Registered {
            id: 1,
            printable_string: true,
            value: SpecialText::Mac(MacAddr::from_bytes(&[0x01, 0x23, 0x45, 0x67, 0x89, 0xAB]).unwrap()),
        }])
    );
}
