use c509_cert::cert_json::{JsonExtension, JsonName, JsonRdnAttribute};
use c509_cert::certificate::decode_certificate;
use c509_cert::extensions::ip_addr::{
    absolute_int_from_framed, address_width, framed_from_absolute_int, next_absolute, next_delta,
};
use c509_cert::registry::{
    extended_key_usage_name, extension_name, general_name_type_name, information_access_name,
    public_key_algorithm_name, rdn_attribute_name, signature_algorithm_name,
};
use c509_cert::{
    AlgorithmIdentifier, AuthorityKeyIdentifier, BasicConstraints, C509Certificate, Error, ExtKeyUsage, Extension,
    ExtensionValue, Extensions, GeneralName, GeneralNameValue, IntOrOid, JsonCertificate, MacAddr, Name, Oid, RdnAttr,
    SpecialText, TbsCertificate,
};

fn sample_certificate() -> C509Certificate {
    C509Certificate {
        tbs: TbsCertificate {
            c509_certificate_type: 3,
            certificate_serial_number: vec![0x01, 0xF5, 0x0D],
            issuer_signature_algorithm: AlgorithmIdentifier::Oid {
                algorithm: Oid::new(vec![0x2A, 0x86, 0x48, 0xCE, 0x3D, 0x04, 0x03, 0x02]),
                parameters: Some(vec![0xDE, 0xAD]),
            },
            issuer: None,
            validity_not_before: 1_672_531_200,
            validity_not_after: None,
            subject: Name(vec![RdnAttr::Registered {
                id: 1,
                printable_string: false,
                value: SpecialText::Mac(MacAddr::from_bytes(&[0x01, 0x23, 0x45, 0x67, 0x89, 0xAB]).unwrap()),
            }]),
            subject_public_key_algorithm: AlgorithmIdentifier::Int(1),
            subject_public_key: vec![0xFE; 33],
            extensions: Extensions(vec![
                Extension { id: IntOrOid::Int(2), critical: false, value: ExtensionValue::KeyUsage(1) },
                Extension {
                    id: IntOrOid::Oid(Oid::new(vec![0x2A, 0x03, 0x04, 0x05])),
                    critical: true,
                    value: ExtensionValue::Raw(vec![0xAA, 0xBB]),
                },
                Extension {
                    id: IntOrOid::Int(4),
                    critical: true,
                    value: ExtensionValue::BasicConstraints(BasicConstraints::Ca { path_len: Some(0) }),
                },
            ]),
        },
        issuer_signature_value: vec![0xD4, 0x32, 0x0B, 0x1D],
    }
}

// ------------------------------------------------------------ laws

#[test]
fn certificate_reads_back_as_written() {
    let cert = sample_certificate();
    assert_eq!(C509Certificate::decode(&cert.encode()).unwrap(), cert);
    assert_eq!(C509Certificate::decode_sequence(&cert.encode_sequence()).unwrap(), cert);
}

#[test]
fn lone_key_usage_is_written_as_a_wrapping_signed_int() {
    // A bitmask above `i32::MAX` is taken as a negative `i32`, which reads
    // back as a critical keyUsage.
    let wide = Extensions(vec![Extension { id: IntOrOid::Int(2), critical: false, value: ExtensionValue::KeyUsage(u32::MAX) }]);
    assert!(wide.has_encoding());
    let mut buf = Vec::new();
    wide.encode(&mut buf).unwrap();
    assert_eq!(buf, vec![0x20]);
    let back = Extensions(vec![Extension { id: IntOrOid::Int(2), critical: true, value: ExtensionValue::KeyUsage(1) }]);
    assert_eq!(Extensions::decode(&buf, 0).unwrap().0, back);

    let just_over = Extensions(vec![Extension { id: IntOrOid::Int(2), critical: false, value: ExtensionValue::KeyUsage(0x8000_0001) }]);
    let mut buf = Vec::new();
    just_over.encode(&mut buf).unwrap();
    assert_eq!(buf, vec![0x3a, 0x7f, 0xff, 0xff, 0xfe]);

    let critical_wide = Extensions(vec![Extension { id: IntOrOid::Int(2), critical: true, value: ExtensionValue::KeyUsage(0xffff_fffe) }]);
    let mut buf = Vec::new();
    critical_wide.encode(&mut buf).unwrap();
    assert_eq!(buf, vec![0x02]);

    let fits = Extensions(vec![Extension { id: IntOrOid::Int(2), critical: false, value: ExtensionValue::KeyUsage(0x7fff_ffff) }]);
    assert!(fits.has_encoding());
    let mut buf = Vec::new();
    fits.encode(&mut buf).unwrap();
    assert_eq!(Extensions::decode(&buf, 0).unwrap().0, fits);
}

#[test]
fn encodability_is_checked() {
    let mut cert = sample_certificate();
    assert!(cert.has_encoding());
    cert.tbs.validity_not_before = -1;
    assert!(!cert.has_encoding());
    let mut cert = sample_certificate();
    cert.tbs.extensions.0.push(Extension {
        id: IntOrOid::Int(4),
        critical: false,
        value: ExtensionValue::BasicConstraints(BasicConstraints::Ca { path_len: Some(u32::MAX) }),
    });
    assert!(!cert.has_encoding());
}

#[test]
fn defaults_are_empty() {
    assert_eq!(Extensions::default(), Extensions(vec![]));
    assert_eq!(Name::default(), Name(vec![]));
}

#[test]
fn either_wire_form_is_detected() {
    let cert = sample_certificate();
    assert_eq!(decode_certificate(&cert.encode()).unwrap(), cert);
    assert_eq!(decode_certificate(&cert.encode_sequence()).unwrap(), cert);
    assert!(decode_certificate(&[]).is_err());
}

#[test]
fn wrapped_form_is_the_sequence_under_an_array_header() {
    let cert = sample_certificate();
    let mut wrapped = vec![0x8B];
    wrapped.extend(cert.encode_sequence());
    assert_eq!(cert.encode(), wrapped);
}

#[test]
fn critical_keyusage_uses_the_negative_id() {
    let mut cert = sample_certificate();
    cert.tbs.extensions = Extensions(vec![Extension {
        id: IntOrOid::Int(2),
        critical: true,
        value: ExtensionValue::KeyUsage(5),
    }]);
    let bytes = cert.encode_sequence();
    assert_eq!(C509Certificate::decode_sequence(&bytes).unwrap(), cert);
    // A lone keyUsage is written as a bare integer, -5 for a critical 5,
    // just before the signature value.
    assert!(bytes.ends_with(&[0x24, 0x44, 0xD4, 0x32, 0x0B, 0x1D]));
}

#[test]
fn delta_chain_resolves_what_it_wrote() {
    let values: [i128; 4] = [29_360_130, 24_770_733_054, 10, 10];
    let (mut wp, mut wf) = (0i128, true);
    let deltas: Vec<i128> = values.iter().map(|&v| next_delta(&mut wp, &mut wf, v)).collect();
    assert_eq!(deltas, vec![29_360_130, 24_770_733_054 - 29_360_130, 10 - 24_770_733_054, 0]);
    let (mut rp, mut rf) = (0i128, true);
    let resolved: Vec<i128> = deltas.iter().map(|&d| next_absolute(&mut rp, &mut rf, d)).collect();
    assert_eq!(resolved, values.to_vec());
    assert_eq!((rp, rf), (wp, wf));
}

#[test]
fn framed_address_and_its_integer_round_trip() {
    // 192.0.2.0/24 of Appendix A.5.
    assert_eq!(absolute_int_from_framed(&[0xC0, 0x00, 0x02], 0).unwrap(), 29_360_130);
    assert_eq!(framed_from_absolute_int(29_360_130).unwrap(), (vec![0xC0, 0x00, 0x02], 0));
    // 198.51.100.0/28: four unused bits.
    let abs = absolute_int_from_framed(&[0xC6, 0x33, 0x64, 0x00], 4).unwrap();
    assert_eq!(abs, 0x05C6_3364_00);
    assert_eq!(framed_from_absolute_int(abs).unwrap(), (vec![0xC6, 0x33, 0x64, 0x00], 4));
    // The empty prefix.
    assert_eq!(absolute_int_from_framed(&[], 0).unwrap(), 1);
    assert_eq!(framed_from_absolute_int(1).unwrap(), (vec![], 0));
}

#[test]
fn framing_errors_are_malformed() {
    assert!(matches!(framed_from_absolute_int(-1), Err(Error::Malformed(_))));
    assert!(matches!(framed_from_absolute_int(0), Err(Error::Malformed(_))));
    assert!(absolute_int_from_framed(&[0; 8], 0).is_err());
    assert!(absolute_int_from_framed(&[0x01], 255).is_err());
}

#[test]
fn address_widths_by_family() {
    assert_eq!(address_width(1).unwrap(), 4);
    assert_eq!(address_width(2).unwrap(), 16);
    assert!(matches!(address_width(3), Err(Error::Malformed(_))));
}

// ------------------------------------------------------------ OIDs

#[test]
fn oid_arcs_are_read_from_the_content_octets() {
    let rsa = Oid::new(vec![0x2A, 0x86, 0x48, 0x86, 0xF7, 0x0D, 0x01, 0x01, 0x01]);
    assert_eq!(rsa.arcs(), Some(vec![1, 2, 840, 113_549, 1, 1, 1]));
    assert_eq!(rsa.as_bytes(), &[0x2A, 0x86, 0x48, 0x86, 0xF7, 0x0D, 0x01, 0x01, 0x01]);
    assert_eq!(Oid::new(vec![0x55, 0x04, 0x03]).arcs(), Some(vec![2, 5, 4, 3]));
    // A truncated multi-byte arc is no OID.
    assert_eq!(Oid::new(vec![0x2A, 0x86]).arcs(), None);
    assert_eq!(Oid::new(vec![]).arcs(), None);
    // An arc of 2^64 does not fit; 2^64 - 1 does.
    let too_wide = Oid::new(vec![0x2A, 0x82, 0x80, 0x80, 0x80, 0x80, 0x80, 0x80, 0x80, 0x80, 0x00]);
    assert_eq!(too_wide.arcs(), None);
    let widest = Oid::new(vec![0x2A, 0x81, 0xFF, 0xFF, 0xFF, 0xFF, 0xFF, 0xFF, 0xFF, 0xFF, 0x7F]);
    assert_eq!(widest.arcs(), Some(vec![1, 2, u64::MAX]));
}

#[test]
fn oid_text_is_dotted_decimal() {
    let rsa = Oid::new(vec![0x2A, 0x86, 0x48, 0x86, 0xF7, 0x0D, 0x01, 0x01, 0x01]);
    assert_eq!(rsa.to_string(), "1.2.840.113549.1.1.1");
    assert_eq!(Oid::new(vec![0x55, 0x04, 0x03]).to_string(), "2.5.4.3");
    assert_eq!(Oid::new(vec![0x00]).to_string(), "0.0");
    assert_eq!(Oid::new(vec![0x2A, 0x86]).to_string(), "<invalid-oid:[2a, 86]>");
    assert_eq!(Oid::new(vec![]).to_string(), "<invalid-oid:[]>");
}

#[test]
fn error_messages_name_their_kind() {
    assert_eq!(Error::Malformed("bad").to_string(), "malformed C509 certificate: bad");
    assert_eq!(Error::X509("bad".to_string()).to_string(), "X.509 conversion error: bad");
    assert_eq!(Error::Json("bad".to_string()).to_string(), "JSON conversion error: bad");
    let cbor = C509Certificate::decode(&[]).unwrap_err();
    assert!(matches!(cbor, Error::Cbor(_)));
    assert!(cbor.to_string().starts_with("CBOR decode error: "));
    let from_cbor: Error = minicbor::decode::Error::message("short").into();
    assert!(matches!(from_cbor, Error::Cbor(_)));
    assert!(from_cbor.to_string().contains("short"));
}

// ------------------------------------------------------------ registry

#[test]
fn registry_names() {
    assert_eq!(rdn_attribute_name(1), Some("commonName"));
    assert_eq!(rdn_attribute_name(29), Some("unstructuredName"));
    assert_eq!(rdn_attribute_name(23), None);
    assert_eq!(extension_name(2), Some("keyUsage"));
    assert_eq!(extension_name(32), Some("id-pe-ipAddrBlocks"));
    assert_eq!(extension_name(0), None);
    assert_eq!(extended_key_usage_name(9), Some("id-kp-OCSPSigning"));
    assert_eq!(general_name_type_name(2), Some("dNSName"));
    assert_eq!(general_name_type_name(-3), Some("otherName (MACAddress)"));
    assert_eq!(signature_algorithm_name(0), Some("ecdsa-with-SHA256"));
    assert_eq!(public_key_algorithm_name(1), Some("id-ecPublicKey (secp256r1)"));
    assert_eq!(information_access_name(1), Some("id-ad-ocsp"));
    assert_eq!(information_access_name(100), None);
}

// ------------------------------------------------------------ JSON schema

fn json_certificate() -> JsonCertificate {
    JsonCertificate {
        certificate_type: 2,
        serial_number: "00 01 f5\n0D".to_string(),
        issuer_signature_algorithm: 0,
        issuer: Some(JsonName::CommonName("RFC test CA".to_string())),
        validity_not_before: "2023-01-01T00:00:00Z".to_string(),
        validity_not_after: Some("2026-01-01T01:00:00+01:00".to_string()),
        subject: JsonName::Attributes(vec![JsonRdnAttribute {
            id: 1,
            printable_string: true,
            value: "01-23-45-67-89-AB".to_string(),
        }]),
        subject_public_key_algorithm: 1,
        subject_public_key: "AABB".to_string(),
        extensions: vec![
            JsonExtension::BasicConstraints { critical: true, ca: true, path_len: Some(1) },
            JsonExtension::KeyUsage { critical: false, value: 5 },
            JsonExtension::SubjectAltName { critical: false, dns_names: vec!["example.com".to_string()] },
            JsonExtension::AuthorityKeyIdentifier { critical: false, key_identifier: "01 02".to_string() },
            JsonExtension::ExtKeyUsage { critical: false, oids: vec![1, 2] },
        ],
        issuer_signature_value: "d4320b1d".to_string(),
    }
}

#[test]
fn json_description_becomes_a_certificate() {
    let cert = json_certificate().into_certificate().unwrap();
    let tbs = &cert.tbs;
    assert_eq!(tbs.c509_certificate_type, 2);
    assert_eq!(tbs.certificate_serial_number, vec![0x01, 0xF5, 0x0D]);
    assert_eq!(
        tbs.issuer,
        Some(Name(vec![RdnAttr::Registered {
            id: 1,
            printable_string: false,
            value: SpecialText::Text("RFC test CA".to_string())
        }]))
    );
    assert_eq!(tbs.validity_not_before, 1_672_531_200);
    assert_eq!(tbs.validity_not_after, Some(1_767_225_600));
    assert_eq!(
        tbs.subject,
        Name(vec![RdnAttr::Registered {
            id: 1,
            printable_string: true,
            value: SpecialText::Mac(MacAddr::from_bytes(&[0x01, 0x23, 0x45, 0x67, 0x89, 0xAB]).unwrap()),
        }])
    );
    assert_eq!(tbs.subject_public_key, vec![0xAA, 0xBB]);
    assert_eq!(
        tbs.extensions.0,
        vec![
            Extension {
                id: IntOrOid::Int(4),
                critical: true,
                value: ExtensionValue::BasicConstraints(BasicConstraints::Ca { path_len: Some(1) }),
            },
            Extension { id: IntOrOid::Int(2), critical: false, value: ExtensionValue::KeyUsage(5) },
            Extension {
                id: IntOrOid::Int(3),
                critical: false,
                value: ExtensionValue::SubjectAltName(vec![GeneralName {
                    kind: 2,
                    value: GeneralNameValue::DnsName("example.com".to_string()),
                }]),
            },
            Extension {
                id: IntOrOid::Int(7),
                critical: false,
                value: ExtensionValue::AuthorityKeyIdentifier(AuthorityKeyIdentifier {
                    key_identifier: vec![1, 2],
                    cert_issuer: None,
                    cert_serial: None,
                }),
            },
            Extension {
                id: IntOrOid::Int(8),
                critical: false,
                value: ExtensionValue::ExtKeyUsage(ExtKeyUsage(vec![IntOrOid::Int(1), IntOrOid::Int(2)])),
            },
        ]
    );
    assert_eq!(cert.issuer_signature_value, vec![0xD4, 0x32, 0x0B, 0x1D]);
    assert_eq!(C509Certificate::decode(&cert.encode()).unwrap(), cert);
}

#[test]
fn json_description_errors() {
    let mut bad_hex = json_certificate();
    bad_hex.serial_number = "0x12".to_string();
    assert!(bad_hex.into_certificate().is_err());

    let mut odd_hex = json_certificate();
    odd_hex.subject_public_key = "ABC".to_string();
    assert!(odd_hex.into_certificate().is_err());

    let mut bad_time = json_certificate();
    bad_time.validity_not_before = "2023-01-01".to_string();
    assert!(bad_time.into_certificate().is_err());

    let mut bad_key_id = json_certificate();
    bad_key_id.extensions =
        vec![JsonExtension::AuthorityKeyIdentifier { critical: false, key_identifier: "zz".to_string() }];
    assert!(bad_key_id.into_certificate().is_err());
}

#[test]
fn raw_values_read_back() {
    let exts = Extensions(vec![
        Extension { id: IntOrOid::Int(37), critical: true, value: ExtensionValue::Raw(vec![0x82, 0x01, 0x61, 0x78]) },
        Extension {
            id: IntOrOid::Int(3),
            critical: false,
            value: ExtensionValue::SubjectAltName(vec![GeneralName { kind: 3, value: GeneralNameValue::Raw(vec![0x9f, 0x01, 0xff]) }]),
        },
    ]);
    let mut buf = Vec::new();
    exts.encode(&mut buf).unwrap();
    assert_eq!(buf, vec![0x84, 0x38, 0x24, 0x82, 0x01, 0x61, 0x78, 0x03, 0x82, 0x03, 0x9f, 0x01, 0xff]);
    let (back, end) = Extensions::decode(&buf, 0).unwrap();
    assert_eq!(back, exts);
    assert_eq!(end, buf.len());
}
