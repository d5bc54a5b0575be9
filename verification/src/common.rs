//! Small shared building blocks used throughout the C509 grammar.
use vstd::prelude::*;

use crate::cbor::{
    cbor_message, lemma_head_at_advance, bstr, cbor_array, cbor_bytes, cbor_datatype, cbor_i32, cbor_null, cbor_skip, cbor_str,
    cbor_tag, cbor_u32, cbor_u64, head, int_head, lemma_bstr, lemma_head_at, lemma_head_datatype,
    lemma_int_head, lemma_matches_split, lemma_tstr, matches_at, put_array, put_bytes, put_i32,
    put_null, put_str, put_tag, put_u32, put_u64, raw_item_wf, skip_end, spec_array, spec_bytes,
    spec_datatype, spec_i32, spec_null, spec_tag, spec_text, spec_u32, spec_u64, tstr, CborType,
};
use crate::error::{outcome, Error, Fault, Parsed};
use crate::oid::{decode_oid, oid_stable, spec_oid, Oid};
use crate::repeat::{enc_all, lemma_enc_all_push, lemma_parse_n_fails, lemma_parse_n_roundtrip, parse_n, reads_back};
use vstd::utf8::encode_utf8;

verus! {

// ------------------------------------------------------------- datatype

/// The class of the next item, without consuming it.
pub fn datatype(input: &[u8], pos: usize) -> (r: Result<CborType, Error>)
    ensures
        match r {
            Ok(t) => spec_datatype(input@, pos as int) == Some(t),
            Err(e) => spec_datatype(input@, pos as int) is None && e.fault() == Fault::Cbor,
        },
{
    match cbor_datatype(input, pos) {
        Ok(t) => Ok(t),
        Err(e) => Err(Error::Cbor(e)),
    }
}

/// The class of the next item is one of the two array classes.
pub open spec fn is_array_type(t: CborType) -> bool {
    t is Array || t is ArrayIndef
}

// --------------------------------------------------------- array headers

/// Reading a definite array header: its element count.
pub open spec fn spec_definite_array_len(input: Seq<u8>, pos: int) -> Parsed<u64> {
    match spec_array(input, pos) {
        Ok((Some(n), e)) => Ok((n, e)),
        Ok((None, _)) => Err(Fault::Malformed("indefinite-length arrays are not supported")),
        Err(f) => Err(f),
    }
}

/// Read a CBOR array header and return its element count. Indefinite-length
/// arrays are rejected, since this crate always expects definite lengths.
pub fn definite_array_len(input: &[u8], pos: usize) -> (r: Result<(u64, usize), Error>)
    ensures
        outcome(r) == spec_definite_array_len(input@, pos as int),
{
    match cbor_array(input, pos) {
        Ok((Some(n), e)) => Ok((n, e)),
        Ok((None, _)) => Err(Error::Malformed("indefinite-length arrays are not supported")),
        Err(e) => Err(Error::Cbor(e)),
    }
}

/// Reading an array header that must announce `want` elements.
pub open spec fn spec_expect_array_len(input: Seq<u8>, pos: int, want: u64) -> Parsed<()> {
    match spec_definite_array_len(input, pos) {
        Ok((n, e)) => if n == want {
            Ok(((), e))
        } else {
            Err(Fault::Malformed("unexpected array length"))
        },
        Err(f) => Err(f),
    }
}

/// Read a CBOR array header and error if its element count isn't `want`.
pub fn expect_array_len(input: &[u8], pos: usize, want: u64) -> (r: Result<((), usize), Error>)
    ensures
        outcome(r) == spec_expect_array_len(input@, pos as int, want),
{
    match definite_array_len(input, pos) {
        Ok((n, e)) => if n == want {
            Ok(((), e))
        } else {
            Err(Error::Malformed("unexpected array length"))
        },
        Err(err) => Err(err),
    }
}

/// An array header written by the encoder is read back with its count.
pub proof fn lemma_array_head(input: Seq<u8>, pos: int, n: u64)
    requires
        matches_at(input, pos, head(4, n)),
    ensures
        spec_definite_array_len(input, pos) == Ok::<(u64, int), Fault>((n, pos + head(4, n).len())),
        spec_expect_array_len(input, pos, n) == Ok::<((), int), Fault>(((), pos + head(4, n).len())),
        spec_datatype(input, pos) == Some(CborType::Array),
        input[pos] != 0xf6,
        input[pos] != 0xff,
{
    lemma_head_at(input, pos, 4, n);
    lemma_head_datatype(input, pos, 4, n);
}

// ---------------------------------------------------------- uint / null

/// The DER content octets of an [`Oid`], as written into a CBOR byte string.
pub fn oid_bytes(oid: &Oid) -> (r: Vec<u8>)
    ensures
        r@ == oid@,
{
    vstd::slice::slice_to_vec(oid.as_bytes())
}

/// Decoding a `uint / null` field.
pub open spec fn spec_opt_uint(input: Seq<u8>, pos: int) -> Parsed<Option<u32>> {
    match spec_datatype(input, pos) {
        None => Err(Fault::Cbor),
        Some(CborType::Null) => match spec_null(input, pos) {
            Ok((_, e)) => Ok((None, e)),
            Err(f) => Err(f),
        },
        Some(_) => match spec_u32(input, pos) {
            Ok((v, e)) => Ok((Some(v), e)),
            Err(f) => Err(f),
        },
    }
}

/// The encoding of a `uint / null` field.
pub open spec fn enc_opt_uint(v: Option<u32>) -> Seq<u8> {
    match v {
        Some(n) => head(0, n as u64),
        None => seq![0xf6u8],
    }
}

/// Decode a `uint / null` field into an `Option<u32>`.
pub fn decode_opt_uint(input: &[u8], pos: usize) -> (r: Result<(Option<u32>, usize), Error>)
    ensures
        outcome(r) == spec_opt_uint(input@, pos as int),
{
    match datatype(input, pos)? {
        CborType::Null => match cbor_null(input, pos) {
            Ok((_, e)) => Ok((None, e)),
            Err(err) => Err(Error::Cbor(err)),
        },
        _ => match cbor_u32(input, pos) {
            Ok((v, e)) => Ok((Some(v), e)),
            Err(err) => Err(Error::Cbor(err)),
        },
    }
}

/// Encode an `Option<u32>` as the `uint / null` field read by [`decode_opt_uint`].
pub fn encode_opt_uint(buf: &mut Vec<u8>, v: Option<u32>)
    ensures
        final(buf)@ == old(buf)@ + enc_opt_uint(v),
{
    match v {
        Some(n) => put_u32(buf, n),
        None => {
            put_null(buf);
            assert(old(buf)@.push(0xf6) =~= old(buf)@ + seq![0xf6u8]);
        },
    }
}

/// A `uint / null` field is read back as written.
pub proof fn lemma_opt_uint(input: Seq<u8>, pos: int, v: Option<u32>)
    requires
        matches_at(input, pos, enc_opt_uint(v)),
    ensures
        spec_opt_uint(input, pos) == Ok::<(Option<u32>, int), Fault>((v, pos + enc_opt_uint(v).len())),
        input[pos] != 0x9f,
        input[pos] != 0xff,
        spec_datatype(input, pos) is Some,
        !is_array_type(spec_datatype(input, pos).unwrap()),
{
    match v {
        Some(n) => {
            lemma_int_head(input, pos, n as int);
        },
        None => {
            assert(input[pos] == input.subrange(pos, pos + 1)[0]);
        },
    }
}

// --------------------------------------------------------------- serial

/// The big-endian bytes `num_bigint` gives back for a magnitude written as
/// `bytes`: leading zero bytes dropped, and zero written as one zero byte.
pub open spec fn biguint_be(bytes: Seq<u8>) -> Seq<u8>
    decreases bytes.len(),
{
    if bytes.len() == 0 {
        seq![0u8]
    } else if bytes[0] == 0 {
        if bytes.len() == 1 {
            seq![0u8]
        } else {
            biguint_be(bytes.drop_first())
        }
    } else {
        bytes
    }
}

/// `num_bigint::BigUint::from_bytes_be(bytes).to_bytes_be()`: the
/// magnitude's big-endian bytes without leading zeros, `[0]` for zero.
#[verifier::external_body]
fn biguint_normalize(bytes: &[u8]) -> (r: Vec<u8>)
    ensures
        r@ == biguint_be(bytes@),
{
    num_bigint::BigUint::from_bytes_be(bytes).to_bytes_be()
}

/// Decoding a `~biguint`: a byte string read as a big-endian magnitude.
pub open spec fn spec_biguint(input: Seq<u8>, pos: int) -> Parsed<Seq<u8>> {
    match spec_bytes(input, pos) {
        Ok((b, e)) => Ok((biguint_be(b), e)),
        Err(f) => Err(f),
    }
}

/// Decode a big-endian unsigned integer from a CBOR byte string, as the
/// bytes `num_bigint` writes for it.
pub fn read_biguint(input: &[u8], pos: usize) -> (r: Result<(Vec<u8>, usize), Error>)
    ensures
        outcome(r) == spec_biguint(input@, pos as int),
{
    match cbor_bytes(input, pos) {
        Ok((b, e)) => {
            let n = biguint_normalize(b.as_slice());
            assert(n.deep_view() =~= n@);
            Ok((n, e))
        },
        Err(err) => Err(Error::Cbor(err)),
    }
}

/// The big-endian bytes of a magnitude, as `num_bigint` writes them into a
/// CBOR byte string.
pub fn serial_bytes(n: &[u8]) -> (r: Vec<u8>)
    ensures
        r@ == biguint_be(n@),
{
    biguint_normalize(n)
}

/// The bytes of a magnitude are those `num_bigint` gives back: no leading
/// zero unless the magnitude is zero itself.
pub open spec fn biguint_canonical(bytes: Seq<u8>) -> bool {
    biguint_be(bytes) == bytes
}

// ----------------------------------------------------------------- time

/// `time::OffsetDateTime::from_unix_timestamp(secs).is_ok()`: whether
/// `secs` falls between -9999-01-01T00:00:00Z and 9999-12-31T23:59:59Z, the
/// range of `OffsetDateTime` (the crate's `large-dates` feature is off).
#[verifier::external_body]
fn unix_timestamp_in_range(secs: i64) -> (ok: bool)
    ensures
        ok == (-377_705_116_800 <= secs <= 253_402_300_799),
{
    time::OffsetDateTime::from_unix_timestamp(secs).is_ok()
}

/// Decoding a `~time`: an unsigned integer of POSIX seconds that an
/// `OffsetDateTime` can hold.
pub open spec fn spec_time(input: Seq<u8>, pos: int) -> Parsed<i64> {
    match spec_u64(input, pos) {
        Ok((v, e)) => if v <= 253_402_300_799 {
            Ok((v as i64, e))
        } else {
            Err(Fault::Malformed("POSIX timestamp out of range"))
        },
        Err(f) => Err(f),
    }
}

/// Decode a timestamp from a CBOR unsigned integer of POSIX seconds.
pub fn read_time(input: &[u8], pos: usize) -> (r: Result<(i64, usize), Error>)
    ensures
        outcome(r) == spec_time(input@, pos as int),
{
    match cbor_u64(input, pos) {
        Ok((v, e)) => {
            if v > 0x7fff_ffff_ffff_ffff {
                return Err(Error::Malformed("POSIX timestamp out of range"));
            }
            let secs = v as i64;
            if !unix_timestamp_in_range(secs) {
                return Err(Error::Malformed("POSIX timestamp out of range"));
            }
            Ok((secs, e))
        },
        Err(err) => Err(Error::Cbor(err)),
    }
}

/// Encode POSIX seconds as a CBOR unsigned integer; a moment before the Unix
/// epoch has no such encoding.
pub fn encode_time(buf: &mut Vec<u8>, secs: i64) -> (r: Result<(), &'static str>)
    ensures
        secs >= 0 ==> r is Ok && final(buf)@ == old(buf)@ + head(0, secs as u64),
        secs < 0 ==> r is Err,
{
    if secs < 0 {
        return Err("validity time predates the Unix epoch");
    }
    put_u64(buf, secs as u64);
    Ok(())
}

/// A timestamp is read back as written, where a decoder accepts it.
pub proof fn lemma_time(input: Seq<u8>, pos: int, secs: i64)
    requires
        0 <= secs <= 253_402_300_799,
        matches_at(input, pos, head(0, secs as u64)),
    ensures
        spec_time(input, pos) == Ok::<(i64, int), Fault>((secs, pos + head(0, secs as u64).len())),
        spec_datatype(input, pos) == Some(CborType::Unsigned),
        input[pos] != 0xf6,
{
    lemma_int_head(input, pos, secs as int);
}

// ------------------------------------------------------------ raw items

/// Capturing one complete CBOR data item as raw bytes.
pub open spec fn spec_raw_item(input: Seq<u8>, pos: int) -> Parsed<Seq<u8>> {
    match skip_end(input, pos) {
        Some(e) => Ok((input.subrange(pos, e), e)),
        None => Err(Fault::Cbor),
    }
}

/// Capture one CBOR data item as raw bytes, for values this crate doesn't
/// decode into a typed form.
pub fn raw_item(input: &[u8], pos: usize) -> (r: Result<(Vec<u8>, usize), Error>)
    ensures
        outcome(r) == spec_raw_item(input@, pos as int),
        r matches Ok((b, _)) ==> raw_item_wf(b@),
{
    match cbor_skip(input, pos) {
        Ok(end) => {
            let mut out: Vec<u8> = Vec::new();
            let mut i = pos;
            while i < end
                invariant
                    pos <= i <= end <= input@.len(),
                    out@ == input@.subrange(pos as int, i as int),
                decreases end - i,
            {
                out.push(input[i]);
                i = i + 1;
                assert(out@ =~= input@.subrange(pos as int, i as int));
            }
            assert(out.deep_view() =~= out@);
            Ok((out, end))
        },
        Err(e) => Err(Error::Cbor(e)),
    }
}

/// A raw item is read back as written.
pub proof fn lemma_raw_item(input: Seq<u8>, pos: int, b: Seq<u8>)
    requires
        raw_item_wf(b),
        matches_at(input, pos, b),
    ensures
        spec_raw_item(input, pos) == Ok::<(Seq<u8>, int), Fault>((b, pos + b.len())),
{
    assert(skip_end(input, pos) == Some(pos + b.len()));
}

/// Write back a previously-captured [`raw_item`].
pub fn write_raw(buf: &mut Vec<u8>, bytes: &[u8])
    ensures
        final(buf)@ == old(buf)@ + bytes@,
{
    let mut i: usize = 0;
    while i < bytes.len()
        invariant
            i <= bytes@.len(),
            buf@ == old(buf)@ + bytes@.take(i as int),
        decreases bytes@.len() - i,
    {
        buf.push(bytes[i]);
        i = i + 1;
        assert(buf@ =~= old(buf)@ + bytes@.take(i as int));
    }
    assert(bytes@.take(i as int) =~= bytes@);
}

// ---------------------------------------------------------- MAC address

/// A MAC address: its 6 (EUI-48) or 8 (EUI-64) bytes. [`MacAddr::from_bytes`]
/// is the only way to make one, and it accepts no other length.
#[derive(Clone, PartialEq, Eq, Hash, Debug)]
pub struct MacAddr(Vec<u8>);

impl MacAddr {
    /// A MAC address from its raw bytes: 6 bytes (48-bit) for EUI-48, 8
    /// bytes (64-bit) for EUI-64; `None` for any other length.
    pub fn from_bytes(bytes: &[u8]) -> (r: Option<MacAddr>)
        ensures
            match r {
                Some(m) => (bytes@.len() == 6 || bytes@.len() == 8) && m@ == bytes@,
                None => !(bytes@.len() == 6 || bytes@.len() == 8),
            },
    {
        if bytes.len() == 6 || bytes.len() == 8 {
            let mut v: Vec<u8> = Vec::new();
            let mut i: usize = 0;
            while i < bytes.len()
                invariant
                    i <= bytes@.len(),
                    v@ == bytes@.take(i as int),
                decreases bytes@.len() - i,
            {
                v.push(bytes[i]);
                i = i + 1;
                assert(v@ =~= bytes@.take(i as int));
            }
            assert(bytes@.take(i as int) =~= bytes@);
            Some(MacAddr(v))
        } else {
            None
        }
    }

    /// The address's bytes.
    pub fn as_bytes(&self) -> (b: &[u8])
        ensures
            b@ == self@,
    {
        self.0.as_slice()
    }
}

impl View for MacAddr {
    type V = Seq<u8>;

    closed spec fn view(&self) -> Seq<u8> {
        self.0@
    }
}

impl DeepView for MacAddr {
    type V = Seq<u8>;

    open spec fn deep_view(&self) -> Seq<u8> {
        self@
    }
}

/// Decoding a MAC address from its raw bytes.
pub open spec fn spec_mac(bytes: Seq<u8>) -> Result<Seq<u8>, Fault> {
    if bytes.len() == 6 || bytes.len() == 8 {
        Ok(bytes)
    } else {
        Err(Fault::Malformed("MAC address must be 6 or 8 bytes"))
    }
}

/// Decode a MAC address from its raw bytes: 6 bytes (48-bit) for EUI-48, 8
/// bytes (64-bit) for EUI-64.
pub fn decode_mac(bytes: &[u8]) -> (r: Result<MacAddr, Error>)
    ensures
        match r {
            Ok(m) => spec_mac(bytes@) == Ok::<Seq<u8>, Fault>(m@),
            Err(e) => spec_mac(bytes@) == Err::<Seq<u8>, Fault>(e.fault()),
        },
{
    match MacAddr::from_bytes(bytes) {
        Some(m) => Ok(m),
        None => Err(Error::Malformed("MAC address must be 6 or 8 bytes")),
    }
}

// -------------------------------------------------------------- IntOrOid

/// A C509 identifier that's either a registry-assigned int or, if
/// unregistered, a raw OID.
#[derive(Clone, PartialEq, Eq, Debug)]
pub enum IntOrOid {
    /// A registry-assigned integer value.
    Int(i32),
    /// An unregistered OID value.
    Oid(Oid),
}

/// The model of an [`IntOrOid`].
pub enum IntOrOidModel {
    Int(i32),
    Oid(Seq<u8>),
}

impl DeepView for IntOrOid {
    type V = IntOrOidModel;

    open spec fn deep_view(&self) -> IntOrOidModel {
        match self {
            IntOrOid::Int(n) => IntOrOidModel::Int(*n),
            IntOrOid::Oid(o) => IntOrOidModel::Oid(o@),
        }
    }
}

/// Decoding an [`IntOrOid`]: a byte string is an OID, anything else an int.
pub open spec fn spec_int_or_oid(input: Seq<u8>, pos: int) -> Parsed<IntOrOidModel> {
    match spec_datatype(input, pos) {
        None => Err(Fault::Cbor),
        Some(CborType::Bytes) => match spec_oid(input, pos) {
            Ok((o, e)) => Ok((IntOrOidModel::Oid(o), e)),
            Err(f) => Err(f),
        },
        Some(_) => match spec_i32(input, pos) {
            Ok((n, e)) => Ok((IntOrOidModel::Int(n), e)),
            Err(f) => Err(f),
        },
    }
}

/// The encoding of an [`IntOrOid`].
pub open spec fn enc_int_or_oid(v: IntOrOidModel) -> Seq<u8> {
    match v {
        IntOrOidModel::Int(n) => int_head(n as int),
        IntOrOidModel::Oid(o) => bstr(o),
    }
}

/// An [`IntOrOid`] that survives encoding: an OID that the `oid` crate
/// writes back unchanged.
pub open spec fn int_or_oid_wf(v: IntOrOidModel) -> bool {
    match v {
        IntOrOidModel::Int(_) => true,
        IntOrOidModel::Oid(o) => oid_stable(o) && o.len() <= u64::MAX,
    }
}

/// An encoded OID is read back, where the `oid` crate keeps it unchanged.
pub proof fn lemma_oid(input: Seq<u8>, pos: int, o: Seq<u8>)
    requires
        oid_stable(o),
        o.len() <= u64::MAX,
        matches_at(input, pos, bstr(o)),
    ensures
        spec_oid(input, pos) == Ok::<(Seq<u8>, int), Fault>((o, pos + bstr(o).len())),
        spec_datatype(input, pos) == Some(CborType::Bytes),
        input[pos] != 0xf6,
        input[pos] != 0x9f,
        input[pos] != 0xff,
{
    lemma_bstr(input, pos, o);
}

impl IntOrOid {
    /// Decode an [`IntOrOid`] from a CBOR data item.
    pub fn decode(input: &[u8], pos: usize) -> (r: Result<(Self, usize), Error>)
        ensures
            outcome(r) == spec_int_or_oid(input@, pos as int),
    {
        match datatype(input, pos)? {
            CborType::Bytes => {
                let (o, e) = decode_oid(input, pos)?;
                Ok((IntOrOid::Oid(o), e))
            },
            _ => match cbor_i32(input, pos) {
                Ok((n, e)) => Ok((IntOrOid::Int(n), e)),
                Err(err) => Err(Error::Cbor(err)),
            },
        }
    }

    /// Encode an [`IntOrOid`] as a CBOR data item.
    pub fn encode(&self, buf: &mut Vec<u8>)
        ensures
            final(buf)@ == old(buf)@ + enc_int_or_oid(self.deep_view()),
    {
        match self {
            IntOrOid::Int(n) => put_i32(buf, *n),
            IntOrOid::Oid(o) => put_bytes(buf, o.as_bytes()),
        }
    }
}

/// An [`IntOrOid`] is read back as written.
pub proof fn lemma_int_or_oid(input: Seq<u8>, pos: int, v: IntOrOidModel)
    requires
        int_or_oid_wf(v),
        matches_at(input, pos, enc_int_or_oid(v)),
    ensures
        spec_int_or_oid(input, pos) == Ok::<(IntOrOidModel, int), Fault>((v, pos + enc_int_or_oid(v).len())),
        input[pos] != 0xf6,
        input[pos] != 0x9f,
        input[pos] != 0xff,
        spec_datatype(input, pos) is Some,
        !is_array_type(spec_datatype(input, pos).unwrap()),
{
    match v {
        IntOrOidModel::Int(n) => lemma_int_head(input, pos, n as int),
        IntOrOidModel::Oid(o) => lemma_oid(input, pos, o),
    }
}

/// A read [`IntOrOid`] moves forward and stays inside the input.
pub proof fn lemma_int_or_oid_advance(input: Seq<u8>, pos: int)
    requires
        spec_int_or_oid(input, pos) is Ok,
    ensures
        pos < spec_int_or_oid(input, pos).unwrap().1 <= input.len(),
{
    match spec_datatype(input, pos) {
        Some(CborType::Bytes) => lemma_head_at_advance(input, pos),
        _ => lemma_head_at_advance(input, pos),
    }
}

/// An error as `minicbor`'s `Decode` impls report it: a grammar violation
/// becomes a CBOR error carrying its message; any other error stays as it
/// is.
pub fn into_cbor(e: Error) -> (r: Error)
    ensures
        r.fault() == Fault::Cbor,
        match e {
            Error::Malformed(_) => r is Cbor,
            _ => r == e,
        },
{
    match e {
        Error::Malformed(m) => Error::Cbor(cbor_message(m)),
        other => other,
    }
}

// ----------------------------------------------------------- SpecialText

/// CBOR tag for a CBOR-tagged MAC address (EUI-48/EUI-64).
pub const MAC_ADDRESS_TAG: u64 = 48;

/// An RDN attribute value: plain text, raw bytes (used when the text looked
/// like hex), or a tagged MAC address.
#[derive(Clone, PartialEq, Eq, Debug)]
pub enum SpecialText {
    /// A plain text string.
    Text(String),
    /// Raw bytes (used when the text looked like hex).
    Bytes(Vec<u8>),
    /// A tagged MAC address.
    Mac(MacAddr),
}

/// The model of a [`SpecialText`].
pub enum SpecialTextModel {
    Text(Seq<char>),
    Bytes(Seq<u8>),
    Mac(Seq<u8>),
}

impl DeepView for SpecialText {
    type V = SpecialTextModel;

    open spec fn deep_view(&self) -> SpecialTextModel {
        match self {
            SpecialText::Text(s) => SpecialTextModel::Text(s@),
            SpecialText::Bytes(b) => SpecialTextModel::Bytes(b@),
            SpecialText::Mac(m) => SpecialTextModel::Mac(m@),
        }
    }
}

/// Decoding a [`SpecialText`]: text, bytes, or a MAC address under tag 48.
pub open spec fn spec_special_text(input: Seq<u8>, pos: int) -> Parsed<SpecialTextModel> {
    match spec_datatype(input, pos) {
        None => Err(Fault::Cbor),
        Some(CborType::Text) => match spec_text(input, pos) {
            Ok((s, e)) => Ok((SpecialTextModel::Text(s), e)),
            Err(f) => Err(f),
        },
        Some(CborType::Bytes) => match spec_bytes(input, pos) {
            Ok((b, e)) => Ok((SpecialTextModel::Bytes(b), e)),
            Err(f) => Err(f),
        },
        Some(CborType::Tag) => match spec_tag(input, pos) {
            Ok((t, e)) => if t != MAC_ADDRESS_TAG {
                Err(Fault::Malformed("unexpected tag in SpecialText"))
            } else {
                match spec_bytes(input, e) {
                    Ok((b, e2)) => match spec_mac(b) {
                        Ok(m) => Ok((SpecialTextModel::Mac(m), e2)),
                        Err(f) => Err(f),
                    },
                    Err(f) => Err(f),
                }
            },
            Err(f) => Err(f),
        },
        Some(_) => Err(Fault::Malformed("expected text, bytes or tag for SpecialText")),
    }
}

/// The encoding of a [`SpecialText`].
pub open spec fn enc_special_text(v: SpecialTextModel) -> Seq<u8> {
    match v {
        SpecialTextModel::Text(s) => tstr(s),
        SpecialTextModel::Bytes(b) => bstr(b),
        SpecialTextModel::Mac(m) => head(6, MAC_ADDRESS_TAG) + bstr(m),
    }
}

/// A [`SpecialText`] that survives encoding: a MAC address of 6 or 8 bytes.
pub open spec fn special_text_wf(v: SpecialTextModel) -> bool {
    match v {
        SpecialTextModel::Text(s) => encode_utf8(s).len() <= u64::MAX,
        SpecialTextModel::Bytes(b) => b.len() <= u64::MAX,
        SpecialTextModel::Mac(m) => m.len() == 6 || m.len() == 8,
    }
}

impl SpecialText {
    /// Decode a [`SpecialText`] from a CBOR data item.
    pub fn decode(input: &[u8], pos: usize) -> (r: Result<(Self, usize), Error>)
        ensures
            outcome(r) == spec_special_text(input@, pos as int),
    {
        match datatype(input, pos)? {
            CborType::Text => match cbor_str(input, pos) {
                Ok((s, e)) => Ok((SpecialText::Text(s), e)),
                Err(err) => Err(Error::Cbor(err)),
            },
            CborType::Bytes => match cbor_bytes(input, pos) {
                Ok((b, e)) => Ok((SpecialText::Bytes(b), e)),
                Err(err) => Err(Error::Cbor(err)),
            },
            CborType::Tag => {
                let (t, e) = match cbor_tag(input, pos) {
                    Ok(x) => x,
                    Err(err) => return Err(Error::Cbor(err)),
                };
                if t != MAC_ADDRESS_TAG {
                    return Err(Error::Malformed("unexpected tag in SpecialText"));
                }
                let (b, e2) = match cbor_bytes(input, e) {
                    Ok(x) => x,
                    Err(err) => return Err(Error::Cbor(err)),
                };
                let m = decode_mac(b.as_slice())?;
                Ok((SpecialText::Mac(m), e2))
            },
            _ => Err(Error::Malformed("expected text, bytes or tag for SpecialText")),
        }
    }

    /// The text value, if this is the `Text` variant.
    pub fn as_text(&self) -> (r: Option<&str>)
        ensures
            match self {
                SpecialText::Text(s) => r is Some && r.unwrap()@ == s@,
                _ => r is None,
            },
    {
        match self {
            SpecialText::Text(s) => Some(s.as_str()),
            _ => None,
        }
    }

    /// Encode a [`SpecialText`] as a CBOR data item.
    pub fn encode(&self, buf: &mut Vec<u8>)
        ensures
            final(buf)@ == old(buf)@ + enc_special_text(self.deep_view()),
    {
        match self {
            SpecialText::Text(s) => put_str(buf, s.as_str()),
            SpecialText::Bytes(b) => put_bytes(buf, b.as_slice()),
            SpecialText::Mac(m) => {
                put_tag(buf, MAC_ADDRESS_TAG);
                put_bytes(buf, m.as_bytes());
            },
        }
    }
}

/// A [`SpecialText`] is read back as written.
pub proof fn lemma_special_text(input: Seq<u8>, pos: int, v: SpecialTextModel)
    requires
        special_text_wf(v),
        matches_at(input, pos, enc_special_text(v)),
    ensures
        spec_special_text(input, pos) == Ok::<(SpecialTextModel, int), Fault>(
            (v, pos + enc_special_text(v).len()),
        ),
        input[pos] != 0xf6,
        input[pos] != 0x9f,
        input[pos] != 0xff,
        spec_datatype(input, pos) is Some,
        !is_array_type(spec_datatype(input, pos).unwrap()),
{
    match v {
        SpecialTextModel::Text(s) => lemma_tstr(input, pos, s),
        SpecialTextModel::Bytes(b) => lemma_bstr(input, pos, b),
        SpecialTextModel::Mac(m) => {
            let h = head(6, MAC_ADDRESS_TAG);
            lemma_matches_split(input, pos, h, bstr(m));
            lemma_head_at(input, pos, 6, MAC_ADDRESS_TAG);
            lemma_head_datatype(input, pos, 6, MAC_ADDRESS_TAG);
            lemma_bstr(input, pos + h.len(), m);
        },
    }
}

// ---------------------------------------------------------------- RdnAttr

/// `RDNAttribute` ([`crate::name::RdnAttribute`], single-valued: `S`/`B` are
/// bare values) and `RDNAttributes` (multi-valued: `S`/`B` are `Vec`s) share
/// this shape:
/// `( attributeType: int, attributeValue: S ) // ( attributeType: ~oid, attributeValue: B )`.
#[derive(Clone, PartialEq, Eq, Debug)]
#[allow(inconsistent_fields)]
pub enum RdnAttr<S, B> {
    Registered { id: u16, printable_string: bool, value: S },
    Oid { oid: Oid, value: B },
}

/// The model of an [`RdnAttr`].
#[allow(inconsistent_fields)]
pub enum RdnAttrModel<S, B> {
    Registered { id: u16, printable_string: bool, value: S },
    Oid { oid: Seq<u8>, value: B },
}

impl<S: DeepView, B: DeepView> DeepView for RdnAttr<S, B> {
    type V = RdnAttrModel<S::V, B::V>;

    open spec fn deep_view(&self) -> RdnAttrModel<S::V, B::V> {
        match self {
            RdnAttr::Registered { id, printable_string, value } => RdnAttrModel::Registered {
                id: *id,
                printable_string: *printable_string,
                value: value.deep_view(),
            },
            RdnAttr::Oid { oid, value } => RdnAttrModel::Oid { oid: oid@, value: value.deep_view() },
        }
    }
}

/// The registry id carried by a signed `attributeType`: its magnitude, kept
/// to 16 bits.
pub open spec fn attribute_id(raw: i32) -> u16 {
    (if raw < 0 {
        -raw
    } else {
        raw as int
    }) as u16
}

/// The signed `attributeType` written for a registered attribute: negative
/// for a `printableString` value.
pub open spec fn attribute_type(id: u16, printable_string: bool) -> int {
    if printable_string {
        -(id as int)
    } else {
        id as int
    }
}

/// Decoding an [`RdnAttr`], with `sv` reading the registered form's value and
/// `bv` the OID form's. The `attributeType`'s sign selects `printableString`
/// (negative) vs `utf8String` (positive) for the registered-id form.
pub open spec fn spec_rdn_attr<S, B>(
    input: Seq<u8>,
    pos: int,
    sv: spec_fn(Seq<u8>, int) -> Parsed<S>,
    bv: spec_fn(Seq<u8>, int) -> Parsed<B>,
) -> Parsed<RdnAttrModel<S, B>> {
    match spec_datatype(input, pos) {
        None => Err(Fault::Cbor),
        Some(CborType::Bytes) => match spec_oid(input, pos) {
            Ok((o, e)) => match bv(input, e) {
                Ok((v, e2)) => Ok((RdnAttrModel::Oid { oid: o, value: v }, e2)),
                Err(f) => Err(f),
            },
            Err(f) => Err(f),
        },
        Some(_) => match spec_i32(input, pos) {
            Ok((raw, e)) => match sv(input, e) {
                Ok((v, e2)) => Ok(
                    (
                        RdnAttrModel::Registered {
                            id: attribute_id(raw),
                            printable_string: raw < 0,
                            value: v,
                        },
                        e2,
                    ),
                ),
                Err(f) => Err(f),
            },
            Err(f) => Err(f),
        },
    }
}

/// The encoding of an [`RdnAttr`], with `es` and `eb` writing the values.
pub open spec fn enc_rdn_attr<S, B>(
    a: RdnAttrModel<S, B>,
    es: spec_fn(S) -> Seq<u8>,
    eb: spec_fn(B) -> Seq<u8>,
) -> Seq<u8> {
    match a {
        RdnAttrModel::Registered { id, printable_string, value } => int_head(
            attribute_type(id, printable_string),
        ) + es(value),
        RdnAttrModel::Oid { oid, value } => bstr(oid) + eb(value),
    }
}

/// An [`RdnAttr`] that survives encoding: a `printableString` flag needs a
/// nonzero id (`-0` is `0`), an OID must be one the `oid` crate keeps, and
/// the values must survive their own encoding.
pub open spec fn rdn_attr_wf<S, B>(
    a: RdnAttrModel<S, B>,
    sv: spec_fn(Seq<u8>, int) -> Parsed<S>,
    es: spec_fn(S) -> Seq<u8>,
    bv: spec_fn(Seq<u8>, int) -> Parsed<B>,
    eb: spec_fn(B) -> Seq<u8>,
) -> bool {
    match a {
        RdnAttrModel::Registered { id, printable_string, value } => !(printable_string && id == 0)
            && reads_back(sv, es, value),
        RdnAttrModel::Oid { oid, value } => oid_stable(oid) && oid.len() <= u64::MAX && reads_back(
            bv,
            eb,
            value,
        ),
    }
}

/// An [`RdnAttr`] is read back as written.
pub proof fn lemma_rdn_attr<S, B>(
    input: Seq<u8>,
    pos: int,
    a: RdnAttrModel<S, B>,
    sv: spec_fn(Seq<u8>, int) -> Parsed<S>,
    es: spec_fn(S) -> Seq<u8>,
    bv: spec_fn(Seq<u8>, int) -> Parsed<B>,
    eb: spec_fn(B) -> Seq<u8>,
)
    requires
        rdn_attr_wf(a, sv, es, bv, eb),
        matches_at(input, pos, enc_rdn_attr(a, es, eb)),
    ensures
        spec_rdn_attr(input, pos, sv, bv) == Ok::<(RdnAttrModel<S, B>, int), Fault>(
            (a, pos + enc_rdn_attr(a, es, eb).len()),
        ),
        input[pos] != 0xf6,
        input[pos] != 0xff,
{
    match a {
        RdnAttrModel::Registered { id, printable_string, value } => {
            let t = attribute_type(id, printable_string);
            lemma_matches_split(input, pos, int_head(t), es(value));
            lemma_int_head(input, pos, t);
            assert(matches_at(input, pos + int_head(t).len(), es(value)));
            assert(attribute_id(t as i32) == id);
        },
        RdnAttrModel::Oid { oid, value } => {
            lemma_matches_split(input, pos, bstr(oid), eb(value));
            lemma_oid(input, pos, oid);
            assert(matches_at(input, pos + bstr(oid).len(), eb(value)));
        },
    }
}

/// The magnitude of a signed `attributeType`, kept to 16 bits.
pub fn attribute_id_of(raw: i32) -> (id: u16)
    ensures
        id == attribute_id(raw),
{
    if raw < 0 {
        let m: i64 = -(raw as i64);
        m as u16
    } else {
        raw as u16
    }
}

/// Read the type of an [`RdnAttr`]: its OID, or its signed registry id.
pub fn decode_attribute_type(input: &[u8], pos: usize) -> (r: Result<(IntOrOid, usize), Error>)
    ensures
        match spec_datatype(input@, pos as int) {
            None => outcome(r) == Err::<(IntOrOidModel, int), Fault>(Fault::Cbor),
            Some(CborType::Bytes) => outcome(r) == (match spec_oid(input@, pos as int) {
                Ok((o, e)) => Ok((IntOrOidModel::Oid(o), e)),
                Err(f) => Err(f),
            }),
            Some(_) => outcome(r) == (match spec_i32(input@, pos as int) {
                Ok((n, e)) => Ok((IntOrOidModel::Int(n), e)),
                Err(f) => Err(f),
            }),
        },
{
    IntOrOid::decode(input, pos)
}

/// The model of a single-valued attribute.
pub type RdnAttributeModel = RdnAttrModel<SpecialTextModel, Seq<u8>>;

/// Decoding a single-valued `RDNAttribute`.
pub open spec fn spec_rdn_attribute(input: Seq<u8>, pos: int) -> Parsed<RdnAttributeModel> {
    spec_rdn_attr(
        input,
        pos,
        |i: Seq<u8>, p: int| spec_special_text(i, p),
        |i: Seq<u8>, p: int| spec_bytes(i, p),
    )
}

/// The encoding of a single-valued `RDNAttribute`.
pub open spec fn enc_rdn_attribute(a: RdnAttributeModel) -> Seq<u8> {
    enc_rdn_attr(a, |v: SpecialTextModel| enc_special_text(v), |b: Seq<u8>| bstr(b))
}

/// A single-valued `RDNAttribute` that survives encoding.
pub open spec fn rdn_attribute_wf(a: RdnAttributeModel) -> bool {
    match a {
        RdnAttrModel::Registered { id, printable_string, value } => !(printable_string && id == 0)
            && special_text_wf(value),
        RdnAttrModel::Oid { oid, value } => oid_stable(oid) && oid.len() <= u64::MAX && value.len()
            <= u64::MAX,
    }
}

/// Decode a single-valued `RDNAttribute`.
pub fn decode_rdn_attribute(input: &[u8], pos: usize) -> (r: Result<(RdnAttr<SpecialText, Vec<u8>>, usize), Error>)
    ensures
        outcome(r) == spec_rdn_attribute(input@, pos as int),
{
    match decode_attribute_type(input, pos)? {
        (IntOrOid::Oid(oid), e) => match cbor_bytes(input, e) {
            Ok((b, e2)) => {
                assert(b.deep_view() =~= b@);
                Ok((RdnAttr::Oid { oid, value: b }, e2))
            },
            Err(err) => Err(Error::Cbor(err)),
        },
        (IntOrOid::Int(raw), e) => {
            let (value, e2) = SpecialText::decode(input, e)?;
            Ok((RdnAttr::Registered { id: attribute_id_of(raw), printable_string: raw < 0, value }, e2))
        },
    }
}

/// Encode a single-valued `RDNAttribute`.
pub fn encode_rdn_attribute(a: &RdnAttr<SpecialText, Vec<u8>>, buf: &mut Vec<u8>)
    ensures
        final(buf)@ == old(buf)@ + enc_rdn_attribute(a.deep_view()),
{
    match a {
        RdnAttr::Registered { id, printable_string, value } => {
            let raw: i32 = if *printable_string {
                -(*id as i32)
            } else {
                *id as i32
            };
            put_i32(buf, raw);
            value.encode(buf);
        },
        RdnAttr::Oid { oid, value } => {
            put_bytes(buf, oid.as_bytes());
            put_bytes(buf, value.as_slice());
        },
    }
}

/// A single-valued `RDNAttribute` is read back as written.
pub proof fn lemma_rdn_attribute(input: Seq<u8>, pos: int, a: RdnAttributeModel)
    requires
        rdn_attribute_wf(a),
        matches_at(input, pos, enc_rdn_attribute(a)),
    ensures
        spec_rdn_attribute(input, pos) == Ok::<(RdnAttributeModel, int), Fault>(
            (a, pos + enc_rdn_attribute(a).len()),
        ),
        input[pos] != 0xf6,
        input[pos] != 0xff,
{
    let sv = |i: Seq<u8>, p: int| spec_special_text(i, p);
    let es = |v: SpecialTextModel| enc_special_text(v);
    let bv = |i: Seq<u8>, p: int| spec_bytes(i, p);
    let eb = |b: Seq<u8>| bstr(b);
    match a {
        RdnAttrModel::Registered { value, .. } => {
            assert forall|i: Seq<u8>, p: int| #[trigger] matches_at(i, p, es(value)) implies sv(i, p) == Ok::<
                (SpecialTextModel, int),
                Fault,
            >((value, p + es(value).len())) by {
                lemma_special_text(i, p, value);
            }
        },
        RdnAttrModel::Oid { value, .. } => {
            assert forall|i: Seq<u8>, p: int| #[trigger] matches_at(i, p, eb(value)) implies bv(i, p) == Ok::<
                (Seq<u8>, int),
                Fault,
            >((value, p + eb(value).len())) by {
                lemma_bstr(i, p, value);
            }
        },
    }
    lemma_rdn_attr(input, pos, a, sv, es, bv, eb);
}

} // verus!
