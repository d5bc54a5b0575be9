use c509_cert::common::{
    decode_mac, definite_array_len, encode_time, oid_bytes, raw_item, read_biguint, read_time,
    serial_bytes, write_raw,
};
use c509_cert::oid::decode_oid;
use c509_cert::{AlgorithmIdentifier, Error, IntOrOid, MacAddr, Oid, SpecialText};
use minicbor::data::Tag;
use minicbor::Encoder;

/// rsaEncryption (1.2.840.113549.1.1.1), DER content octets.
const RSA_OID_DER: [u8; 9] = [0x2A, 0x86, 0x48, 0x86, 0xF7, 0x0D, 0x01, 0x01, 0x01];

fn rsa_oid() -> Oid {
    let oid = oid::ObjectIdentifier::try_from("1.2.840.113549.1.1.1").unwrap();
    let content: Vec<u8> = (&oid).into();
    assert_eq!(content, RSA_OID_DER.to_vec());
    Oid::new(content)
}

fn roundtrip_algorithm(algorithm: AlgorithmIdentifier) -> AlgorithmIdentifier {
    let mut buf = Vec::new();
    algorithm.encode(&mut buf);
    let (decoded, end) = AlgorithmIdentifier::decode(&buf, 0).unwrap();
    assert_eq!(end, buf.len());
    decoded
}

#[test]
fn int_form() {
    assert_eq!(roundtrip_algorithm(AlgorithmIdentifier::Int(0)), AlgorithmIdentifier::Int(0));
}

#[test]
fn int_form_negative() {
    assert_eq!(roundtrip_algorithm(AlgorithmIdentifier::Int(-7)), AlgorithmIdentifier::Int(-7));
}

#[test]
fn oid_form() {
    let value = AlgorithmIdentifier::Oid { algorithm: rsa_oid(), parameters: None };
    let mut buf = Vec::new();
    value.encode(&mut buf);
    let mut expected = vec![0x49];
    expected.extend_from_slice(&RSA_OID_DER);
    assert_eq!(buf, expected);
    assert_eq!(roundtrip_algorithm(value.clone()), value);
}

#[test]
fn oid_with_params_form() {
    let value = AlgorithmIdentifier::Oid { algorithm: rsa_oid(), parameters: Some(vec![1]) };
    let mut buf = Vec::new();
    value.encode(&mut buf);
    let mut expected = vec![0x82, 0x49];
    expected.extend_from_slice(&RSA_OID_DER);
    expected.extend_from_slice(&[0x41, 0x01]);
    assert_eq!(buf, expected);
    assert_eq!(roundtrip_algorithm(value.clone()), value);
}

#[test]
fn array_wrong_length_is_malformed() {
    let mut buf = Vec::new();
    let mut e = Encoder::new(&mut buf);
    e.array(3).unwrap();
    e.bytes(&[0x2A]).unwrap();
    e.bytes(&[0x01]).unwrap();
    e.bytes(&[0x02]).unwrap();
    assert!(AlgorithmIdentifier::decode(&buf, 0).is_err());
}

#[test]
fn decode_mac_eui48() {
    let bytes = [0x01, 0x02, 0x03, 0x04, 0x05, 0x06];
    assert_eq!(decode_mac(&bytes).unwrap(), MacAddr::from_bytes(&bytes).unwrap());
}

#[test]
fn decode_mac_eui64() {
    let bytes = [0x01, 0x02, 0x03, 0x04, 0x05, 0x06, 0x07, 0x08];
    assert_eq!(decode_mac(&bytes).unwrap(), MacAddr::from_bytes(&bytes).unwrap());
}

#[test]
fn decode_mac_wrong_length_is_malformed() {
    assert!(matches!(decode_mac(&[0x01, 0x02, 0x03]), Err(Error::Malformed(_))));
}

#[test]
fn oid_roundtrip() {
    let oid = rsa_oid();
    let mut buf = Vec::new();
    Encoder::new(&mut buf).bytes(&oid_bytes(&oid)).unwrap();
    assert_eq!(decode_oid(&buf, 0).unwrap().0, oid);
}

#[test]
fn definite_array_len_reads_count() {
    let mut buf = Vec::new();
    Encoder::new(&mut buf).array(3).unwrap();
    assert_eq!(definite_array_len(&buf, 0).unwrap().0, 3);
}

#[test]
fn definite_array_len_rejects_indefinite() {
    let mut buf = Vec::new();
    Encoder::new(&mut buf).begin_array().unwrap();
    assert!(definite_array_len(&buf, 0).is_err());
}

#[test]
fn biguint_roundtrip() {
    let n = vec![0x01, 0x02, 0x03, 0x04, 0x05, 0x06];
    let mut buf = Vec::new();
    Encoder::new(&mut buf).bytes(&serial_bytes(&n)).unwrap();
    assert_eq!(read_biguint(&buf, 0).unwrap().0, n);
}

#[test]
fn time_roundtrip() {
    let secs: i64 = 1_700_000_000;
    let mut buf = Vec::new();
    encode_time(&mut buf, secs).unwrap();
    assert_eq!(read_time(&buf, 0).unwrap().0, secs);
}

#[test]
fn encode_time_rejects_pre_epoch() {
    let mut buf = Vec::new();
    assert!(encode_time(&mut buf, -1).is_err());
}

#[test]
fn raw_item_roundtrip() {
    let mut buf = Vec::new();
    Encoder::new(&mut buf).u32(42).unwrap();
    let (captured, end) = raw_item(&buf, 0).unwrap();
    assert_eq!(captured, buf);
    assert_eq!(end, buf.len());

    let mut out = Vec::new();
    write_raw(&mut out, &captured);
    assert_eq!(out, buf);
}

fn roundtrip_int_or_oid(value: IntOrOid) -> IntOrOid {
    let mut buf = Vec::new();
    value.encode(&mut buf);
    IntOrOid::decode(&buf, 0).unwrap().0
}

#[test]
fn int_or_oid_int_form() {
    let value = IntOrOid::Int(-7);
    assert_eq!(roundtrip_int_or_oid(value.clone()), value);
}

#[test]
fn int_or_oid_oid_form() {
    let value = IntOrOid::Oid(rsa_oid());
    assert_eq!(roundtrip_int_or_oid(value.clone()), value);
}

fn roundtrip_special_text(value: SpecialText) -> SpecialText {
    let mut buf = Vec::new();
    value.encode(&mut buf);
    SpecialText::decode(&buf, 0).unwrap().0
}

#[test]
fn special_text_text_form() {
    let value = SpecialText::Text("hello".to_string());
    assert_eq!(roundtrip_special_text(value.clone()), value);
    assert_eq!(value.as_text(), Some("hello"));
}

#[test]
fn special_text_bytes_form() {
    let value = SpecialText::Bytes(vec![0xde, 0xad, 0xbe, 0xef]);
    assert_eq!(roundtrip_special_text(value.clone()), value);
    assert_eq!(value.as_text(), None);
}

#[test]
fn special_text_mac_form() {
    let value = SpecialText::Mac(MacAddr::from_bytes(&[0x01, 0x02, 0x03, 0x04, 0x05, 0x06]).unwrap());
    assert_eq!(roundtrip_special_text(value.clone()), value);
}

#[test]
fn special_text_rejects_unexpected_tag() {
    let mut buf = Vec::new();
    let mut e = Encoder::new(&mut buf);
    e.tag(Tag::new(1)).unwrap().bytes(&[0x01]).unwrap();
    assert!(matches!(SpecialText::decode(&buf, 0), Err(Error::Malformed("unexpected tag in SpecialText"))));
}
