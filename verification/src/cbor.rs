//! The CBOR layer the C509 grammar is built on: item heads as RFC 8949
//! defines them, the reads of `minicbor::Decoder` and the writes of
//! `minicbor::Encoder`, each with a contract stated over those heads.
use vstd::prelude::*;
use vstd::utf8::*;

use crate::error::{Fault, Parsed};
use minicbor::decode::Error as CborError;
use minicbor::data::Type as MinicborType;

verus! {

// ------------------------------------------------------------------ heads

/// `256^n`.
pub open spec fn pow256(n: nat) -> nat
    decreases n,
{
    if n == 0 {
        1
    } else {
        256 * pow256((n - 1) as nat)
    }
}

/// The unsigned value of a big-endian byte sequence.
pub open spec fn be_value(s: Seq<u8>) -> nat
    decreases s.len(),
{
    if s.len() == 0 {
        0
    } else {
        be_value(s.drop_last()) * 256 + s.last() as nat
    }
}

/// The low `n` bytes of `v`, most significant first.
pub open spec fn be_bytes(v: nat, n: nat) -> Seq<u8>
    decreases n,
{
    if n == 0 {
        Seq::empty()
    } else {
        be_bytes(v / 256, (n - 1) as nat).push((v % 256) as u8)
    }
}

/// How many argument bytes follow an initial byte with additional
/// information `ai` (negative: reserved or indefinite).
pub open spec fn arg_width(ai: u8) -> int {
    if ai <= 23 {
        0
    } else if ai == 24 {
        1
    } else if ai == 25 {
        2
    } else if ai == 26 {
        4
    } else if ai == 27 {
        8
    } else {
        -1
    }
}

/// The definite item head that starts at `pos`: its major type, its argument
/// and the position just after it.
pub open spec fn head_at(input: Seq<u8>, pos: int) -> Option<(u8, u64, int)> {
    if 0 <= pos < input.len() {
        let b = input[pos];
        let w = arg_width(b % 32);
        if w < 0 || pos + 1 + w > input.len() {
            None
        } else if w == 0 {
            Some((b / 32, (b % 32) as u64, pos + 1))
        } else {
            Some((b / 32, be_value(input.subrange(pos + 1, pos + 1 + w)) as u64, pos + 1 + w))
        }
    } else {
        None
    }
}

/// The shortest head of major type `major` with argument `arg`, the form
/// every write of `minicbor::Encoder` produces.
pub open spec fn head(major: u8, arg: u64) -> Seq<u8> {
    let t = (major * 32) as int;
    if arg <= 23 {
        seq![(t + arg) as u8]
    } else if arg <= 0xff {
        seq![(t + 24) as u8] + be_bytes(arg as nat, 1)
    } else if arg <= 0xffff {
        seq![(t + 25) as u8] + be_bytes(arg as nat, 2)
    } else if arg <= 0xffff_ffff {
        seq![(t + 26) as u8] + be_bytes(arg as nat, 4)
    } else {
        seq![(t + 27) as u8] + be_bytes(arg as nat, 8)
    }
}

/// The head of a CBOR integer `v` (major type 0 or 1).
pub open spec fn int_head(v: int) -> Seq<u8> {
    if v >= 0 {
        head(0, v as u64)
    } else {
        head(1, (-1 - v) as u64)
    }
}

/// `bytes` stands in `input` at `pos`.
pub open spec fn matches_at(input: Seq<u8>, pos: int, bytes: Seq<u8>) -> bool {
    &&& 0 <= pos
    &&& pos + bytes.len() <= input.len()
    &&& input.subrange(pos, pos + bytes.len()) == bytes
}

// ------------------------------------------------------------ head lemmas

/// Big-endian bytes read back as the value they were made from.
pub proof fn lemma_be_roundtrip(v: nat, n: nat)
    requires
        v < pow256(n),
    ensures
        be_bytes(v, n).len() == n,
        be_value(be_bytes(v, n)) == v,
    decreases n,
{
    if n > 0 {
        let m = (n - 1) as nat;
        assert(v / 256 < pow256(m)) by (nonlinear_arith)
            requires
                v < 256 * pow256(m),
        ;
        lemma_be_roundtrip(v / 256, m);
        let s = be_bytes(v, n);
        assert(s.drop_last() =~= be_bytes(v / 256, m));
        assert(v == (v / 256) * 256 + v % 256) by (nonlinear_arith);
    }
}

proof fn lemma_pow256_values()
    ensures
        pow256(1) == 0x100,
        pow256(2) == 0x1_0000,
        pow256(4) == 0x1_0000_0000,
        pow256(8) == 0x1_0000_0000_0000_0000,
{
    reveal_with_fuel(pow256, 9);
}

/// A head is one initial byte, carrying the major type, followed by its
/// argument bytes.
pub proof fn lemma_head_shape(major: u8, arg: u64)
    requires
        major < 8,
    ensures
        1 <= head(major, arg).len() <= 9,
        head(major, arg)[0] / 32 == major,
        head(major, arg)[0] % 32 <= 27,
        arg_width(head(major, arg)[0] % 32) == head(major, arg).len() - 1,
        head(major, arg).len() == 1 ==> head(major, arg)[0] % 32 == arg,
        head(major, arg).len() > 1 ==> be_value(head(major, arg).drop_first()) == arg,
{
    lemma_pow256_values();
    let h = head(major, arg);
    let t = (major * 32) as int;
    if arg <= 23 {
    } else if arg <= 0xff {
        lemma_be_roundtrip(arg as nat, 1);
        assert(h.drop_first() =~= be_bytes(arg as nat, 1));
    } else if arg <= 0xffff {
        lemma_be_roundtrip(arg as nat, 2);
        assert(h.drop_first() =~= be_bytes(arg as nat, 2));
    } else if arg <= 0xffff_ffff {
        lemma_be_roundtrip(arg as nat, 4);
        assert(h.drop_first() =~= be_bytes(arg as nat, 4));
    } else {
        lemma_be_roundtrip(arg as nat, 8);
        assert(h.drop_first() =~= be_bytes(arg as nat, 8));
    }
}

/// A head written by the encoder is read back as the same major type and
/// argument.
pub proof fn lemma_head_at(input: Seq<u8>, pos: int, major: u8, arg: u64)
    requires
        major < 8,
        matches_at(input, pos, head(major, arg)),
    ensures
        head_at(input, pos) == Some((major, arg, pos + head(major, arg).len())),
        input[pos] == head(major, arg)[0],
{
    let h = head(major, arg);
    lemma_head_shape(major, arg);
    assert(input[pos] == h[0]) by {
        assert(input.subrange(pos, pos + h.len())[0] == h[0]);
    }
    if h.len() > 1 {
        assert(input.subrange(pos + 1, pos + h.len()) =~= h.drop_first());
    }
}

/// What `datatype` reports at an encoder-written head.
pub proof fn lemma_head_datatype(input: Seq<u8>, pos: int, major: u8, arg: u64)
    requires
        major < 7,
        matches_at(input, pos, head(major, arg)),
    ensures
        major == 0 ==> spec_datatype(input, pos) == Some(CborType::Unsigned),
        major == 1 ==> spec_datatype(input, pos) == Some(CborType::Signed),
        major == 2 ==> spec_datatype(input, pos) == Some(CborType::Bytes),
        major == 3 ==> spec_datatype(input, pos) == Some(CborType::Text),
        major == 4 ==> spec_datatype(input, pos) == Some(CborType::Array),
        major == 6 ==> spec_datatype(input, pos) == Some(CborType::Tag),
        input[pos] != 0xf6,
        input[pos] != 0x9f,
        input[pos] != 0xff,
{
    lemma_head_at(input, pos, major, arg);
    lemma_head_shape(major, arg);
    let h = head(major, arg);
    let b = input[pos];
    assert(b == (b / 32) * 32 + b % 32);
    if major == 1 && b % 32 >= 24 {
        assert(pos + 1 < input.len());
    }
}

/// An integer head is read back by `int` as the same value.
pub proof fn lemma_int_head(input: Seq<u8>, pos: int, v: int)
    requires
        -0x1_0000_0000_0000_0000 <= v <= 0xffff_ffff_ffff_ffff,
        matches_at(input, pos, int_head(v)),
    ensures
        spec_int(input, pos) == Ok::<(i128, int), Fault>((v as i128, pos + int_head(v).len())),
        v >= 0 ==> spec_datatype(input, pos) == Some(CborType::Unsigned),
        v < 0 ==> spec_datatype(input, pos) == Some(CborType::Signed),
        -0x8000_0000 <= v <= 0x7fff_ffff ==> spec_i32(input, pos) == Ok::<(i32, int), Fault>((v as i32, pos + int_head(v).len())),
        0 <= v <= 0xffff ==> spec_u16(input, pos) == Ok::<(u16, int), Fault>((v as u16, pos + int_head(v).len())),
        0 <= v <= 0xffff_ffff ==> spec_u32(input, pos) == Ok::<(u32, int), Fault>((v as u32, pos + int_head(v).len())),
        0 <= v ==> spec_u64(input, pos) == Ok::<(u64, int), Fault>((v as u64, pos + int_head(v).len())),
        input[pos] != 0xf6,
        input[pos] != 0x9f,
        input[pos] != 0xff,
{
    if v >= 0 {
        lemma_head_at(input, pos, 0, v as u64);
        lemma_head_datatype(input, pos, 0, v as u64);
    } else {
        lemma_head_at(input, pos, 1, (-1 - v) as u64);
        lemma_head_datatype(input, pos, 1, (-1 - v) as u64);
    }
}

/// A big-endian value is below `256^len`.
pub proof fn lemma_be_value_bound(s: Seq<u8>)
    ensures
        be_value(s) < pow256(s.len()),
    decreases s.len(),
{
    if s.len() > 0 {
        lemma_be_value_bound(s.drop_last());
        let a = be_value(s.drop_last());
        let p = pow256((s.len() - 1) as nat);
        assert(a * 256 + s.last() < 256 * p) by (nonlinear_arith)
            requires
                a < p,
                s.last() < 256,
        ;
    }
}

/// An integer read takes at least one byte, and its magnitude is at most
/// `2^61` for each byte it takes.
pub proof fn lemma_int_span(input: Seq<u8>, pos: int)
    requires
        spec_int(input, pos) is Ok,
    ensures
        pos < spec_int(input, pos).unwrap().1 <= input.len(),
        -0x2000_0000_0000_0000 * (spec_int(input, pos).unwrap().1 - pos) <= spec_int(input, pos).unwrap().0,
        spec_int(input, pos).unwrap().0 <= 0x2000_0000_0000_0000 * (spec_int(input, pos).unwrap().1 - pos),
{
    let b = input[pos];
    let w = arg_width(b % 32);
    lemma_pow256_values();
    if w > 0 {
        let sub = input.subrange(pos + 1, pos + 1 + w);
        lemma_be_value_bound(sub);
        assert(sub.len() == w);
    }
}

/// Each read of a head moves forward and stays inside the input.
pub proof fn lemma_head_at_advance(input: Seq<u8>, pos: int)
    requires
        head_at(input, pos) is Some,
    ensures
        pos < head_at(input, pos).unwrap().2 <= input.len(),
{
}

/// A definite byte string: its head, then the bytes.
pub open spec fn bstr(b: Seq<u8>) -> Seq<u8> {
    head(2, b.len() as u64) + b
}

/// A definite text string: its head, then the UTF-8 bytes of `s`.
pub open spec fn tstr(s: Seq<char>) -> Seq<u8> {
    head(3, encode_utf8(s).len() as u64) + encode_utf8(s)
}

/// `matches_at` for a concatenation holds of both parts.
pub proof fn lemma_matches_split(input: Seq<u8>, pos: int, a: Seq<u8>, b: Seq<u8>)
    requires
        matches_at(input, pos, a + b),
    ensures
        matches_at(input, pos, a),
        matches_at(input, pos + a.len(), b),
{
    let w = input.subrange(pos, pos + (a + b).len());
    assert(w == a + b);
    assert(input.subrange(pos, pos + a.len()) =~= w.subrange(0, a.len() as int));
    assert(w.subrange(0, a.len() as int) =~= a);
    assert(input.subrange(pos + a.len(), pos + a.len() + b.len()) =~= w.subrange(
        a.len() as int,
        (a + b).len() as int,
    ));
    assert(w.subrange(a.len() as int, (a + b).len() as int) =~= b);
}

/// `matches_at` holds of every prefix.
pub proof fn lemma_matches_take(input: Seq<u8>, pos: int, s: Seq<u8>, k: int)
    requires
        matches_at(input, pos, s),
        0 <= k <= s.len(),
    ensures
        matches_at(input, pos, s.take(k)),
{
    assert(s =~= s.take(k) + s.skip(k));
    lemma_matches_split(input, pos, s.take(k), s.skip(k));
}

/// A byte string written by the encoder is read back whole.
pub proof fn lemma_bstr(input: Seq<u8>, pos: int, b: Seq<u8>)
    requires
        b.len() <= u64::MAX,
        matches_at(input, pos, bstr(b)),
    ensures
        spec_bytes(input, pos) == Ok::<(Seq<u8>, int), Fault>((b, pos + bstr(b).len())),
        spec_datatype(input, pos) == Some(CborType::Bytes),
        input[pos] != 0xf6,
        input[pos] != 0x9f,
        input[pos] != 0xff,
{
    let h = head(2, b.len() as u64);
    lemma_matches_split(input, pos, h, b);
    lemma_head_at(input, pos, 2, b.len() as u64);
    lemma_head_datatype(input, pos, 2, b.len() as u64);
    assert(input.subrange(pos + h.len(), pos + h.len() + b.len()) == b);
}

/// A text string written by the encoder is read back as the same characters.
pub proof fn lemma_tstr(input: Seq<u8>, pos: int, s: Seq<char>)
    requires
        encode_utf8(s).len() <= u64::MAX,
        matches_at(input, pos, tstr(s)),
    ensures
        spec_text(input, pos) == Ok::<(Seq<char>, int), Fault>((s, pos + tstr(s).len())),
        spec_datatype(input, pos) == Some(CborType::Text),
        input[pos] != 0xf6,
        input[pos] != 0x9f,
        input[pos] != 0xff,
{
    let u = encode_utf8(s);
    let h = head(3, u.len() as u64);
    lemma_matches_split(input, pos, h, u);
    lemma_head_at(input, pos, 3, u.len() as u64);
    lemma_head_datatype(input, pos, 3, u.len() as u64);
    assert(input.subrange(pos + h.len(), pos + h.len() + u.len()) == u);
    encode_utf8_valid_utf8(s);
    encode_utf8_decode_utf8(s);
}

// ------------------------------------------------------------ item reads

/// The classes of CBOR items that the grammar tells apart, as
/// `minicbor::Decoder::datatype` reports them.
pub enum CborType {
    Unsigned,
    Signed,
    Bytes,
    BytesIndef,
    Text,
    TextIndef,
    Array,
    ArrayIndef,
    Tag,
    Null,
    Break,
    Other,
}

/// The class of the item at `pos`, or `None` where `datatype` fails.
pub open spec fn spec_datatype(input: Seq<u8>, pos: int) -> Option<CborType> {
    if 0 <= pos < input.len() {
        let b = input[pos];
        if b <= 0x1b {
            Some(CborType::Unsigned)
        } else if 0x20 <= b <= 0x37 {
            Some(CborType::Signed)
        } else if 0x38 <= b <= 0x3b {
            if pos + 1 < input.len() {
                Some(CborType::Signed)
            } else {
                None
            }
        } else if 0x40 <= b <= 0x5b {
            Some(CborType::Bytes)
        } else if b == 0x5f {
            Some(CborType::BytesIndef)
        } else if 0x60 <= b <= 0x7b {
            Some(CborType::Text)
        } else if b == 0x7f {
            Some(CborType::TextIndef)
        } else if 0x80 <= b <= 0x9b {
            Some(CborType::Array)
        } else if b == 0x9f {
            Some(CborType::ArrayIndef)
        } else if 0xc0 <= b <= 0xdb {
            Some(CborType::Tag)
        } else if b == 0xf6 {
            Some(CborType::Null)
        } else if b == 0xff {
            Some(CborType::Break)
        } else {
            Some(CborType::Other)
        }
    } else {
        None
    }
}

/// A major type 0 head at `pos`.
pub open spec fn uint_at(input: Seq<u8>, pos: int) -> Option<(u64, int)> {
    match head_at(input, pos) {
        Some((m, a, e)) => if m == 0 {
            Some((a, e))
        } else {
            None
        },
        None => None,
    }
}

/// What `Decoder::u16` reads at `pos`.
pub open spec fn spec_u16(input: Seq<u8>, pos: int) -> Parsed<u16> {
    match uint_at(input, pos) {
        Some((a, e)) => if a <= 0xffff {
            Ok((a as u16, e))
        } else {
            Err(Fault::Cbor)
        },
        None => Err(Fault::Cbor),
    }
}

/// What `Decoder::u32` reads at `pos`.
pub open spec fn spec_u32(input: Seq<u8>, pos: int) -> Parsed<u32> {
    match uint_at(input, pos) {
        Some((a, e)) => if a <= 0xffff_ffff {
            Ok((a as u32, e))
        } else {
            Err(Fault::Cbor)
        },
        None => Err(Fault::Cbor),
    }
}

/// What `Decoder::u64` reads at `pos`.
pub open spec fn spec_u64(input: Seq<u8>, pos: int) -> Parsed<u64> {
    match uint_at(input, pos) {
        Some((a, e)) => Ok((a, e)),
        None => Err(Fault::Cbor),
    }
}

/// What `Decoder::i32` reads at `pos`.
pub open spec fn spec_i32(input: Seq<u8>, pos: int) -> Parsed<i32> {
    match head_at(input, pos) {
        Some((m, a, e)) => if m == 0 && a <= 0x7fff_ffff {
            Ok((a as i32, e))
        } else if m == 1 && a <= 0x7fff_ffff {
            Ok(((-1 - a) as i32, e))
        } else {
            Err(Fault::Cbor)
        },
        None => Err(Fault::Cbor),
    }
}

/// What `Decoder::int` reads at `pos`, as an `i128`.
pub open spec fn spec_int(input: Seq<u8>, pos: int) -> Parsed<i128> {
    match head_at(input, pos) {
        Some((m, a, e)) => if m == 0 {
            Ok((a as i128, e))
        } else if m == 1 {
            Ok(((-1 - a) as i128, e))
        } else {
            Err(Fault::Cbor)
        },
        None => Err(Fault::Cbor),
    }
}

/// What `Decoder::bytes` reads at `pos`: a definite byte string.
pub open spec fn spec_bytes(input: Seq<u8>, pos: int) -> Parsed<Seq<u8>> {
    match head_at(input, pos) {
        Some((m, a, e)) => if m == 2 && e + a <= input.len() {
            Ok((input.subrange(e, e + a), e + a))
        } else {
            Err(Fault::Cbor)
        },
        None => Err(Fault::Cbor),
    }
}

/// What `Decoder::str` reads at `pos`: a definite text string holding UTF-8.
pub open spec fn spec_text(input: Seq<u8>, pos: int) -> Parsed<Seq<char>> {
    match head_at(input, pos) {
        Some((m, a, e)) => if m == 3 && e + a <= input.len() && valid_utf8(
            input.subrange(e, e + a),
        ) {
            Ok((decode_utf8(input.subrange(e, e + a)), e + a))
        } else {
            Err(Fault::Cbor)
        },
        None => Err(Fault::Cbor),
    }
}

/// What `Decoder::null` reads at `pos`.
pub open spec fn spec_null(input: Seq<u8>, pos: int) -> Parsed<()> {
    if 0 <= pos < input.len() && input[pos] == 0xf6 {
        Ok(((), pos + 1))
    } else {
        Err(Fault::Cbor)
    }
}

/// What `Decoder::tag` reads at `pos`.
pub open spec fn spec_tag(input: Seq<u8>, pos: int) -> Parsed<u64> {
    match head_at(input, pos) {
        Some((m, a, e)) => if m == 6 {
            Ok((a, e))
        } else {
            Err(Fault::Cbor)
        },
        None => Err(Fault::Cbor),
    }
}

/// What `Decoder::array` reads at `pos`: the element count, `None` for an
/// indefinite-length array.
pub open spec fn spec_array(input: Seq<u8>, pos: int) -> Parsed<Option<u64>> {
    if 0 <= pos < input.len() && input[pos] == 0x9f {
        Ok((None, pos + 1))
    } else {
        match head_at(input, pos) {
            Some((m, a, e)) => if m == 4 {
                Ok((Some(a), e))
            } else {
                Err(Fault::Cbor)
            },
            None => Err(Fault::Cbor),
        }
    }
}

/// Where the one complete CBOR data item that starts at `pos` ends, as
/// `minicbor::Decoder::skip` finds it; `None` where `skip` fails.
pub uninterp spec fn skip_end(input: Seq<u8>, pos: int) -> Option<int>;

/// Bytes that `Decoder::skip` reads as exactly one complete data item
/// wherever they stand: at any position of any input that holds them there,
/// `skip` ends right after them.
pub open spec fn raw_item_wf(b: Seq<u8>) -> bool {
    forall|other: Seq<u8>, q: int| #[trigger] matches_at(other, q, b) ==> skip_end(other, q) == Some(q + b.len())
}

/// The class of a decoder error of `minicbor`.
pub open spec fn cbor_outcome<T>(r: Result<(T, usize), CborError>) -> Parsed<T> {
    match r {
        Ok((v, p)) => Ok((v, p as int)),
        Err(_) => Err(Fault::Cbor),
    }
}

#[verifier::external_type_specification]
#[verifier::external_body]
pub struct ExCborError(CborError);

/// `minicbor::data::Type`, with its variants visible.
#[verifier::external_type_specification]
pub struct ExCborDataType(MinicborType);

/// The class of items a `minicbor::data::Type` falls in, as the grammar
/// tells them apart: integers by sign, strings and arrays by definite or
/// indefinite length.
pub open spec fn class_of(t: MinicborType) -> CborType {
    match t {
        MinicborType::U8 | MinicborType::U16 | MinicborType::U32 | MinicborType::U64 => CborType::Unsigned,
        MinicborType::I8 | MinicborType::I16 | MinicborType::I32 | MinicborType::I64 | MinicborType::Int => CborType::Signed,
        MinicborType::Bytes => CborType::Bytes,
        MinicborType::BytesIndef => CborType::BytesIndef,
        MinicborType::String => CborType::Text,
        MinicborType::StringIndef => CborType::TextIndef,
        MinicborType::Array => CborType::Array,
        MinicborType::ArrayIndef => CborType::ArrayIndef,
        MinicborType::Tag => CborType::Tag,
        MinicborType::Null => CborType::Null,
        MinicborType::Break => CborType::Break,
        _ => CborType::Other,
    }
}

/// Sort a `minicbor::data::Type` into its class.
fn classify(t: MinicborType) -> (r: CborType)
    ensures
        r == class_of(t),
{
    match t {
        MinicborType::U8 | MinicborType::U16 | MinicborType::U32 | MinicborType::U64 => CborType::Unsigned,
        MinicborType::I8 | MinicborType::I16 | MinicborType::I32 | MinicborType::I64 | MinicborType::Int => CborType::Signed,
        MinicborType::Bytes => CborType::Bytes,
        MinicborType::BytesIndef => CborType::BytesIndef,
        MinicborType::String => CborType::Text,
        MinicborType::StringIndef => CborType::TextIndef,
        MinicborType::Array => CborType::Array,
        MinicborType::ArrayIndef => CborType::ArrayIndef,
        MinicborType::Tag => CborType::Tag,
        MinicborType::Null => CborType::Null,
        MinicborType::Break => CborType::Break,
        _ => CborType::Other,
    }
}

/// `Decoder::datatype` at `pos`: the type of the next item, read from its
/// initial byte (and, for a negative integer with a 1 to 8 byte argument,
/// the bytes of that argument), without consuming it. The contract states
/// its class.
#[verifier::external_body]
fn cbor_raw_datatype(input: &[u8], pos: usize) -> (r: Result<MinicborType, CborError>)
    ensures
        match r {
            Ok(t) => spec_datatype(input@, pos as int) == Some(class_of(t)),
            Err(_) => spec_datatype(input@, pos as int) is None,
        },
{
    let mut d = minicbor::Decoder::new(input);
    d.set_position(pos);
    d.datatype()
}

/// The class of the next item at `pos`, without consuming it.
pub(crate) fn cbor_datatype(input: &[u8], pos: usize) -> (r: Result<CborType, CborError>)
    ensures
        match r {
            Ok(t) => spec_datatype(input@, pos as int) == Some(t),
            Err(_) => spec_datatype(input@, pos as int) is None,
        },
{
    match cbor_raw_datatype(input, pos) {
        Ok(t) => Ok(classify(t)),
        Err(e) => Err(e),
    }
}

/// `Decoder::u16` at `pos`: an unsigned integer of any head width whose
/// value fits `u16`.
#[verifier::external_body]
pub(crate) fn cbor_u16(input: &[u8], pos: usize) -> (r: Result<(u16, usize), CborError>)
    ensures
        cbor_outcome(r) == spec_u16(input@, pos as int),
{
    let mut d = minicbor::Decoder::new(input);
    d.set_position(pos);
    d.u16().map(|v| (v, d.position()))
}

/// `Decoder::u32` at `pos`: an unsigned integer of any head width whose
/// value fits `u32`.
#[verifier::external_body]
pub(crate) fn cbor_u32(input: &[u8], pos: usize) -> (r: Result<(u32, usize), CborError>)
    ensures
        cbor_outcome(r) == spec_u32(input@, pos as int),
{
    let mut d = minicbor::Decoder::new(input);
    d.set_position(pos);
    d.u32().map(|v| (v, d.position()))
}

/// `Decoder::u64` at `pos`: an unsigned integer of any head width.
#[verifier::external_body]
pub(crate) fn cbor_u64(input: &[u8], pos: usize) -> (r: Result<(u64, usize), CborError>)
    ensures
        cbor_outcome(r) == spec_u64(input@, pos as int),
{
    let mut d = minicbor::Decoder::new(input);
    d.set_position(pos);
    d.u64().map(|v| (v, d.position()))
}

/// `Decoder::i32` at `pos`: an unsigned or negative integer whose value fits
/// `i32`.
#[verifier::external_body]
pub(crate) fn cbor_i32(input: &[u8], pos: usize) -> (r: Result<(i32, usize), CborError>)
    ensures
        cbor_outcome(r) == spec_i32(input@, pos as int),
{
    let mut d = minicbor::Decoder::new(input);
    d.set_position(pos);
    d.i32().map(|v| (v, d.position()))
}

/// `Decoder::int` at `pos`, converted into an `i128` by `minicbor`'s own
/// `From<Int> for i128`: any unsigned or negative integer.
#[verifier::external_body]
pub(crate) fn cbor_int(input: &[u8], pos: usize) -> (r: Result<(i128, usize), CborError>)
    ensures
        cbor_outcome(r) == spec_int(input@, pos as int),
{
    let mut d = minicbor::Decoder::new(input);
    d.set_position(pos);
    d.int().map(|v| (i128::from(v), d.position()))
}

/// `Decoder::bytes` at `pos`, copied into a `Vec`: a definite-length byte
/// string that lies wholly inside the input.
#[verifier::external_body]
pub(crate) fn cbor_bytes(input: &[u8], pos: usize) -> (r: Result<(Vec<u8>, usize), CborError>)
    ensures
        match r {
            Ok((v, e)) => spec_bytes(input@, pos as int) == Ok::<(Seq<u8>, int), Fault>((v@, e as int)),
            Err(_) => spec_bytes(input@, pos as int) == Err::<(Seq<u8>, int), Fault>(Fault::Cbor),
        },
{
    let mut d = minicbor::Decoder::new(input);
    d.set_position(pos);
    match d.bytes() {
        Ok(b) => Ok((b.to_vec(), d.position())),
        Err(e) => Err(e),
    }
}

/// `Decoder::str` at `pos`, copied into a `String`: a definite-length text
/// string that lies wholly inside the input and is valid UTF-8; the string
/// holds the characters those bytes encode.
#[verifier::external_body]
pub(crate) fn cbor_str(input: &[u8], pos: usize) -> (r: Result<(String, usize), CborError>)
    ensures
        match r {
            Ok((v, e)) => spec_text(input@, pos as int) == Ok::<(Seq<char>, int), Fault>((v@, e as int)),
            Err(_) => spec_text(input@, pos as int) == Err::<(Seq<char>, int), Fault>(Fault::Cbor),
        },
{
    let mut d = minicbor::Decoder::new(input);
    d.set_position(pos);
    match d.str() {
        Ok(s) => Ok((s.to_string(), d.position())),
        Err(e) => Err(e),
    }
}

/// `Decoder::null` at `pos`: the single byte `0xf6`.
#[verifier::external_body]
pub(crate) fn cbor_null(input: &[u8], pos: usize) -> (r: Result<((), usize), CborError>)
    ensures
        cbor_outcome(r) == spec_null(input@, pos as int),
{
    let mut d = minicbor::Decoder::new(input);
    d.set_position(pos);
    d.null().map(|v| (v, d.position()))
}

/// `Decoder::tag` at `pos`, as the tag's number.
#[verifier::external_body]
pub(crate) fn cbor_tag(input: &[u8], pos: usize) -> (r: Result<(u64, usize), CborError>)
    ensures
        cbor_outcome(r) == spec_tag(input@, pos as int),
{
    let mut d = minicbor::Decoder::new(input);
    d.set_position(pos);
    d.tag().map(|t| (u64::from(t), d.position()))
}

/// `Decoder::array` at `pos`: the element count of a definite array, `None`
/// for an indefinite one.
#[verifier::external_body]
pub(crate) fn cbor_array(input: &[u8], pos: usize) -> (r: Result<(Option<u64>, usize), CborError>)
    ensures
        cbor_outcome(r) == spec_array(input@, pos as int),
{
    let mut d = minicbor::Decoder::new(input);
    d.set_position(pos);
    d.array().map(|n| (n, d.position()))
}

/// `Decoder::skip` at `pos`: the end of the complete data item there. What
/// it accepts as a data item (nesting, indefinite lengths, tags) is left to
/// the name `skip_end`; it consumes at least one byte and stays inside the
/// input. `skip` reads the input forward from `pos`, one byte after another,
/// and stops right after the item, so what it does depends on the bytes of
/// the item alone: the bytes it passed over are read the same way wherever
/// they stand (`raw_item_wf`).
#[verifier::external_body]
pub(crate) fn cbor_skip(input: &[u8], pos: usize) -> (r: Result<usize, CborError>)
    ensures
        match r {
            Ok(e) => skip_end(input@, pos as int) == Some(e as int) && pos < e <= input@.len() && raw_item_wf(
                input@.subrange(pos as int, e as int),
            ),
            Err(_) => skip_end(input@, pos as int) is None,
        },
{
    let mut d = minicbor::Decoder::new(input);
    d.set_position(pos);
    d.skip().map(|_| d.position())
}

/// `CborError::message`: an error that carries `msg`.
#[verifier::external_body]
pub(crate) fn cbor_message(msg: &'static str) -> CborError {
    CborError::message(msg)
}

// ----------------------------------------------------------- item writes

/// `Encoder::u16`: the shortest unsigned head of `v`.
#[verifier::external_body]
pub(crate) fn put_u16(buf: &mut Vec<u8>, v: u16)
    ensures
        final(buf)@ == old(buf)@ + head(0, v as u64),
{
    let _ = minicbor::Encoder::new(buf).u16(v);
}

/// `Encoder::u32`: the shortest unsigned head of `v`.
#[verifier::external_body]
pub(crate) fn put_u32(buf: &mut Vec<u8>, v: u32)
    ensures
        final(buf)@ == old(buf)@ + head(0, v as u64),
{
    let _ = minicbor::Encoder::new(buf).u32(v);
}

/// `Encoder::u64`: the shortest unsigned head of `v`.
#[verifier::external_body]
pub(crate) fn put_u64(buf: &mut Vec<u8>, v: u64)
    ensures
        final(buf)@ == old(buf)@ + head(0, v),
{
    let _ = minicbor::Encoder::new(buf).u64(v);
}

/// `Encoder::i32`: the shortest unsigned or negative head of `v`.
#[verifier::external_body]
pub(crate) fn put_i32(buf: &mut Vec<u8>, v: i32)
    ensures
        final(buf)@ == old(buf)@ + int_head(v as int),
{
    let _ = minicbor::Encoder::new(buf).i32(v);
}

/// `Encoder::int` on `minicbor::data::Int::try_from(v)`: where `v` lies in
/// the CBOR integer range `[-2^64, 2^64 - 1]` its shortest head is written
/// and `true` returned; otherwise nothing is written and `false` returned.
#[verifier::external_body]
pub(crate) fn put_int(buf: &mut Vec<u8>, v: i128) -> (ok: bool)
    ensures
        ok == (-0x1_0000_0000_0000_0000 <= v <= 0xffff_ffff_ffff_ffff),
        ok ==> final(buf)@ == old(buf)@ + int_head(v as int),
        !ok ==> final(buf)@ == old(buf)@,
{
    match minicbor::data::Int::try_from(v) {
        Ok(n) => {
            let _ = minicbor::Encoder::new(buf).int(n);
            true
        },
        Err(_) => false,
    }
}

/// `Encoder::bytes`: a definite byte string head followed by the bytes.
#[verifier::external_body]
pub(crate) fn put_bytes(buf: &mut Vec<u8>, b: &[u8])
    ensures
        final(buf)@ == old(buf)@ + head(2, b@.len() as u64) + b@,
{
    let _ = minicbor::Encoder::new(buf).bytes(b);
}

/// `Encoder::str`: a definite text string head followed by the UTF-8 bytes
/// of `s`.
#[verifier::external_body]
pub(crate) fn put_str(buf: &mut Vec<u8>, s: &str)
    ensures
        final(buf)@ == old(buf)@ + head(3, encode_utf8(s@).len() as u64) + encode_utf8(s@),
{
    let _ = minicbor::Encoder::new(buf).str(s);
}

/// `Encoder::null`: the byte `0xf6`.
#[verifier::external_body]
pub(crate) fn put_null(buf: &mut Vec<u8>)
    ensures
        final(buf)@ == old(buf)@.push(0xf6),
{
    let _ = minicbor::Encoder::new(buf).null();
}

/// `Encoder::tag`: the head of tag number `t`.
#[verifier::external_body]
pub(crate) fn put_tag(buf: &mut Vec<u8>, t: u64)
    ensures
        final(buf)@ == old(buf)@ + head(6, t),
{
    let _ = minicbor::Encoder::new(buf).tag(minicbor::data::Tag::new(t));
}

/// `Encoder::array`: the head of a definite array of `n` elements.
#[verifier::external_body]
pub(crate) fn put_array(buf: &mut Vec<u8>, n: u64)
    ensures
        final(buf)@ == old(buf)@ + head(4, n),
{
    let _ = minicbor::Encoder::new(buf).array(n);
}

} // verus!
