use c509_cert::extensions::ip_addr::{
    decode_as_identifiers, decode_ip_address_families, encode_as_identifiers, encode_ip_address_families,
};
use c509_cert::{
    AsIdOrRange, BasicConstraints, CertificatePolicies, GeneralName, GeneralNameValue, IntOrOid, IpAddr,
    IpAddressChoice, IpAddressFamily, IpAddressOrRange, IpNet, Name, NameConstraints, Oid,
    PolicyMappings, PolicyQualifierInfo, RdnAttr, RdnAttribute, SpecialText, SubjectDirectoryAttributes,
};
use minicbor::Encoder;

/// The IPv4 address `a.b.c.d`.
fn v4(a: u8, b: u8, c: u8, d: u8) -> IpAddr {
    IpAddr::v4(a, b, c, d)
}

/// An IPv6 address from its eight 16-bit groups.
fn v6(groups: [u16; 8]) -> IpAddr {
    let mut octets = Vec::new();
    for g in groups {
        octets.push((g >> 8) as u8);
        octets.push((g & 0xff) as u8);
    }
    IpAddr::from_octets(&octets).unwrap()
}

fn net(addr: IpAddr, len: u8) -> IpAddressOrRange {
    IpAddressOrRange::Prefix(IpNet::new(addr, len).unwrap())
}

fn roundtrip_bc(value: &BasicConstraints) -> BasicConstraints {
    let mut buf = Vec::new();
    value.encode(&mut buf).unwrap();
    BasicConstraints::decode(&buf, 0).unwrap().0
}

#[test]
fn not_ca_roundtrip() {
    let value = BasicConstraints::NotCa;
    assert_eq!(roundtrip_bc(&value), value);
}

#[test]
fn ca_without_path_len_roundtrip() {
    let value = BasicConstraints::Ca { path_len: None };
    assert_eq!(roundtrip_bc(&value), value);
}

#[test]
fn ca_with_path_len_roundtrip() {
    let value = BasicConstraints::Ca { path_len: Some(3) };
    assert_eq!(roundtrip_bc(&value), value);
}

#[test]
fn ca_path_len_too_large_is_rejected() {
    let value = BasicConstraints::Ca { path_len: Some(u32::MAX - 1) };
    let mut buf = Vec::new();
    assert!(value.encode(&mut buf).is_err());
}

fn roundtrip_families(families: Vec<IpAddressFamily>) -> Vec<IpAddressFamily> {
    let mut buf = Vec::new();
    encode_ip_address_families(&families, &mut buf);
    let (decoded, end) = decode_ip_address_families(&buf, 0).unwrap();
    assert_eq!(end, buf.len());
    decoded
}

fn roundtrip_as_identifiers(ids: Option<Vec<AsIdOrRange>>) -> Option<Vec<AsIdOrRange>> {
    let mut buf = Vec::new();
    encode_as_identifiers(&ids, &mut buf);
    decode_as_identifiers(&buf, 0).unwrap().0
}

#[test]
fn ipv4_prefix_roundtrip_uses_int_form() {
    let families = vec![IpAddressFamily {
        afi: 1,
        safi: None,
        choice: IpAddressChoice::Prefixes(vec![net(v4(10, 0, 0, 0), 8)]),
    }];
    let mut buf = Vec::new();
    encode_ip_address_families(&families, &mut buf);
    // [ 1, null, [ 0x010A ] ]: unusedBits 0 plus one, then the octet 10.
    assert_eq!(buf, vec![0x83, 0x01, 0xf6, 0x81, 0x19, 0x01, 0x0a]);
    assert_eq!(roundtrip_families(families.clone()), families);
}

#[test]
fn ipv6_full_prefix_roundtrip_uses_bytes_form() {
    let families = vec![IpAddressFamily {
        afi: 2,
        safi: Some(1),
        choice: IpAddressChoice::Prefixes(vec![net(v6([0x2001, 0x0db8, 0, 0, 0, 0, 0, 1]), 128)]),
    }];
    let mut buf = Vec::new();
    encode_ip_address_families(&families, &mut buf);
    // The entry is a 17-byte string: unusedBits 0, then the 16 octets.
    assert_eq!(&buf[..5], &[0x83, 0x02, 0x01, 0x81, 0x51]);
    assert_eq!(buf[5], 0x00);
    assert_eq!(roundtrip_families(families.clone()), families);
}

#[test]
fn address_range_roundtrip() {
    let families = vec![IpAddressFamily {
        afi: 1,
        safi: None,
        choice: IpAddressChoice::Prefixes(vec![IpAddressOrRange::Range {
            min: v4(192, 168, 1, 0),
            max: v4(192, 168, 1, 255),
        }]),
    }];
    assert_eq!(roundtrip_families(families.clone()), families);
}

#[test]
fn multiple_prefixes_roundtrip_through_delta_chain() {
    let families = vec![IpAddressFamily {
        afi: 1,
        safi: None,
        choice: IpAddressChoice::Prefixes(vec![
            net(v4(10, 0, 0, 0), 8),
            net(v4(172, 16, 0, 0), 12),
            net(v4(192, 168, 0, 0), 16),
        ]),
    }];
    assert_eq!(roundtrip_families(families.clone()), families);
}

#[test]
fn inherit_choice_roundtrip() {
    let families = vec![IpAddressFamily { afi: 2, safi: None, choice: IpAddressChoice::Inherit }];
    assert_eq!(roundtrip_families(families.clone()), families);
}

#[test]
fn empty_prefix_list_roundtrip() {
    let families = vec![IpAddressFamily { afi: 1, safi: None, choice: IpAddressChoice::Prefixes(Vec::new()) }];
    assert_eq!(roundtrip_families(families.clone()), families);
}

#[test]
fn unsupported_afi_is_rejected() {
    let mut buf = Vec::new();
    let mut e = Encoder::new(&mut buf);
    e.array(3).unwrap();
    e.u16(3).unwrap();
    e.null().unwrap();
    e.array(1).unwrap();
    e.bytes(&[0x00, 0x0a]).unwrap();
    assert!(decode_ip_address_families(&buf, 0).is_err());
}

#[test]
fn as_ids_roundtrip_through_delta_chain() {
    let ids = Some(vec![
        AsIdOrRange::Id(64_512),
        AsIdOrRange::Range { min: 65_000, max: 65_010 },
        AsIdOrRange::Id(1),
    ]);
    assert_eq!(roundtrip_as_identifiers(ids.clone()), ids);
}

#[test]
fn as_identifiers_inherit_roundtrip() {
    assert_eq!(roundtrip_as_identifiers(None), None);
}

fn dns(s: &str) -> GeneralName {
    GeneralName { kind: 2, value: GeneralNameValue::DnsName(s.to_string()) }
}

fn roundtrip_nc(nc: &NameConstraints) -> NameConstraints {
    let mut buf = Vec::new();
    nc.encode(&mut buf);
    NameConstraints::decode(&buf, 0).unwrap().0
}

#[test]
fn both_subtrees_present_roundtrip() {
    let nc = NameConstraints {
        permitted: Some(vec![dns("example.com")]),
        excluded: Some(vec![dns("bad.example.com")]),
    };
    assert_eq!(roundtrip_nc(&nc), nc);
}

#[test]
fn both_subtrees_null_roundtrip() {
    let nc = NameConstraints { permitted: None, excluded: None };
    assert_eq!(roundtrip_nc(&nc), nc);
}

#[test]
fn mixed_null_and_present_roundtrip() {
    let nc = NameConstraints { permitted: Some(vec![dns("example.com")]), excluded: None };
    assert_eq!(roundtrip_nc(&nc), nc);
}

fn roundtrip_policies(policies: &CertificatePolicies) -> CertificatePolicies {
    let mut buf = Vec::new();
    policies.encode(&mut buf);
    CertificatePolicies::decode(&buf, 0).unwrap().0
}

/// An OID from its dotted text, through the `oid` crate.
fn dotted_oid(text: &str) -> Oid {
    let oid = oid::ObjectIdentifier::try_from(text).unwrap();
    Oid::new((&oid).into())
}

#[test]
fn policy_without_qualifiers_roundtrip() {
    let policies = CertificatePolicies(vec![(IntOrOid::Int(1), vec![])]);
    assert_eq!(roundtrip_policies(&policies), policies);
}

#[test]
fn policy_with_qualifiers_roundtrip() {
    let policies = CertificatePolicies(vec![(
        IntOrOid::Int(1),
        vec![
            PolicyQualifierInfo { id: IntOrOid::Int(1), qualifier: "https://example.com/cps".to_string() },
            PolicyQualifierInfo { id: IntOrOid::Int(2), qualifier: "user notice".to_string() },
        ],
    )]);
    assert_eq!(roundtrip_policies(&policies), policies);
}

#[test]
fn multiple_policies_with_oid_identifier_roundtrip() {
    let cps = dotted_oid("1.3.6.1.5.5.7.2.1");
    let policies = CertificatePolicies(vec![
        (IntOrOid::Int(2), vec![]),
        (
            IntOrOid::Oid(dotted_oid("1.2.3.4.5")),
            vec![PolicyQualifierInfo { id: IntOrOid::Oid(cps), qualifier: "https://example.com/cps".to_string() }],
        ),
    ]);
    assert_eq!(roundtrip_policies(&policies), policies);
}

fn roundtrip_mappings(mappings: &PolicyMappings) -> PolicyMappings {
    let mut buf = Vec::new();
    mappings.encode(&mut buf);
    PolicyMappings::decode(&buf, 0).unwrap().0
}

#[test]
fn single_mapping_roundtrip() {
    let mappings = PolicyMappings(vec![(IntOrOid::Int(1), IntOrOid::Int(2))]);
    assert_eq!(roundtrip_mappings(&mappings), mappings);
}

#[test]
fn multiple_mappings_with_oid_roundtrip() {
    let mappings = PolicyMappings(vec![
        (IntOrOid::Int(1), IntOrOid::Int(2)),
        (IntOrOid::Oid(dotted_oid("1.2.3.4.5")), IntOrOid::Oid(dotted_oid("1.2.3.4.6"))),
    ]);
    assert_eq!(roundtrip_mappings(&mappings), mappings);
}

fn roundtrip_sda(attrs: &SubjectDirectoryAttributes) -> SubjectDirectoryAttributes {
    let mut buf = Vec::new();
    attrs.encode(&mut buf);
    SubjectDirectoryAttributes::decode(&buf, 0).unwrap().0
}

#[test]
fn registered_utf8_attribute_roundtrip() {
    let attrs = SubjectDirectoryAttributes(vec![RdnAttr::Registered {
        id: 3,
        printable_string: false,
        value: vec![SpecialText::Text("example".to_string())],
    }]);
    assert_eq!(roundtrip_sda(&attrs), attrs);
}

#[test]
fn registered_printable_string_attribute_roundtrip() {
    let attrs = SubjectDirectoryAttributes(vec![RdnAttr::Registered {
        id: 3,
        printable_string: true,
        value: vec![SpecialText::Text("US".to_string()), SpecialText::Text("CA".to_string())],
    }]);
    assert_eq!(roundtrip_sda(&attrs), attrs);
}

#[test]
fn oid_attribute_roundtrip() {
    let attrs = SubjectDirectoryAttributes(vec![RdnAttr::Oid { oid: dotted_oid("1.2.3.4.5"), value: vec![vec![0xde, 0xad, 0xbe, 0xef]] }]);
    assert_eq!(roundtrip_sda(&attrs), attrs);
}

#[test]
fn multiple_attributes_roundtrip() {
    let attrs = SubjectDirectoryAttributes(vec![
        RdnAttr::Registered { id: 3, printable_string: false, value: vec![SpecialText::Text("example".to_string())] },
        RdnAttr::Oid { oid: dotted_oid("1.2.3.4.5"), value: vec![vec![1, 2, 3]] },
    ]);
    assert_eq!(roundtrip_sda(&attrs), attrs);
}

#[test]
fn compact_common_name_roundtrip() {
    let name = Name(vec![RdnAttribute::Registered {
        id: 1,
        printable_string: false,
        value: SpecialText::Text("RFC test CA".to_string()),
    }]);
    let mut buf = Vec::new();
    name.encode(&mut buf);
    // The compact form is the bare text.
    assert_eq!(buf[0], 0x6b);
    assert_eq!(Name::decode(&buf, 0).unwrap().0, name);
}

#[test]
fn multi_attribute_roundtrip() {
    let name = Name(vec![
        RdnAttribute::Registered { id: 1, printable_string: false, value: SpecialText::Text("cn".to_string()) },
        RdnAttribute::Registered { id: 4, printable_string: false, value: SpecialText::Text("us".to_string()) },
    ]);
    let mut buf = Vec::new();
    name.encode(&mut buf);
    assert_eq!(Name::decode(&buf, 0).unwrap().0, name);
}
