//! ASN.1 object identifiers, held as their DER content octets.
use vstd::prelude::*;

use crate::cbor::{cbor_bytes, spec_bytes};
use crate::error::{Error, Fault, Parsed};

verus! {

/// An ASN.1 object identifier.
///
/// C509 represents OIDs in "unwrapped" form (CDDL `~oid`): the CBOR item is
/// a plain byte string containing the same content octets as a DER
/// `OBJECT IDENTIFIER` (the base-128 encoded arcs, without the DER tag and
/// length and without the CBOR OID tag of RFC 9090).
#[derive(Clone, PartialEq, Eq, Hash, Debug)]
pub struct Oid(Vec<u8>);

impl View for Oid {
    type V = Seq<u8>;

    closed spec fn view(&self) -> Seq<u8> {
        self.0@
    }
}

impl DeepView for Oid {
    type V = Seq<u8>;

    open spec fn deep_view(&self) -> Seq<u8> {
        self@
    }
}

/// The state of the arc decoder after some of the content octets: the arcs
/// completed so far, the value of the arc being read, whether the first
/// (two-arc) component is still to come, whether an arc is partly read, and
/// whether an arc has grown past 64 bits.
pub struct ArcState {
    pub arcs: Seq<u64>,
    pub value: u64,
    pub first: bool,
    pub have_bits: bool,
    pub overflow: bool,
}

/// The arc decoder's state after reading `bytes`: each byte adds its low seven
/// bits to the value; a byte with the high bit clear ends the arc. The first
/// arc splits into two (`0`, `1` or `2`, and the rest) at 40 and 80. Once a
/// byte would shift bits of the value out of 64 bits, the decoder has failed
/// for good.
pub open spec fn arc_state(bytes: Seq<u8>) -> ArcState
    decreases bytes.len(),
{
    if bytes.len() == 0 {
        ArcState { arcs: Seq::empty(), value: 0, first: true, have_bits: false, overflow: false }
    } else {
        let st = arc_state(bytes.drop_last());
        let b = bytes.last();
        if st.overflow || st.value > MAX_BEFORE_SHIFT {
            ArcState { overflow: true, ..st }
        } else {
        let value = ((st.value << 7u64) + ((b & 0x7f) as u64)) as u64;
        if b & 0x80 == 0 {
            if st.first {
                let (a1, a2) = if value < 40 {
                    (0u64, value)
                } else if value < 80 {
                    (1u64, (value - 40) as u64)
                } else {
                    (2u64, (value - 80) as u64)
                };
                ArcState { arcs: st.arcs.push(a1).push(a2), value: 0, first: false, have_bits: false, overflow: false }
            } else {
                ArcState { arcs: st.arcs.push(value), value: 0, first: st.first, have_bits: false, overflow: false }
            }
        } else {
            ArcState { arcs: st.arcs, value, first: st.first, have_bits: true, overflow: false }
        }
        }
    }
}

/// The largest arc value that seven more bits still fit beside in 64 bits.
pub const MAX_BEFORE_SHIFT: u64 = 0x01ff_ffff_ffff_ffff;

/// Once the arc decoder has failed, it stays failed.
proof fn lemma_overflow_stays(bytes: Seq<u8>, k: int)
    requires
        0 <= k <= bytes.len(),
        arc_state(bytes.take(k)).overflow,
    ensures
        arc_state(bytes).overflow,
    decreases bytes.len() - k,
{
    if k < bytes.len() {
        assert(bytes.take(k + 1).drop_last() =~= bytes.take(k));
        lemma_overflow_stays(bytes, k + 1);
    } else {
        assert(bytes.take(k) =~= bytes);
    }
}

/// The dotted-decimal arcs of content octets, or `None` where the octets are
/// empty, end inside an arc, or hold an arc too large for 64 bits.
pub open spec fn spec_arcs(bytes: Seq<u8>) -> Option<Seq<u64>> {
    if bytes.len() == 0 || arc_state(bytes).have_bits || arc_state(bytes).overflow {
        None
    } else {
        Some(arc_state(bytes).arcs)
    }
}

impl Oid {
    /// An OID from its DER content octets, taken as they are.
    pub fn new(content_octets: Vec<u8>) -> (oid: Self)
        ensures
            oid@ == content_octets@,
    {
        Oid(content_octets)
    }

    /// The raw DER content octets (base-128 arc encoding) of this OID.
    pub fn as_bytes(&self) -> (b: &[u8])
        ensures
            b@ == self@,
    {
        self.0.as_slice()
    }

    /// Decode the dotted-decimal arcs, e.g. `[1, 2, 840, 113549, 1, 1, 1]`.
    ///
    /// Returns `None` if the byte string is not a valid base-128 VLQ OID
    /// encoding.
    #[verifier::spinoff_prover]
    #[verifier::rlimit(20)]
    pub fn arcs(&self) -> (r: Option<Vec<u64>>)
        ensures
            match r {
                Some(v) => spec_arcs(self@) == Some(v@),
                None => spec_arcs(self@) is None,
            },
    {
        if self.0.len() == 0 {
            return None;
        }
        let mut arcs: Vec<u64> = Vec::new();
        let mut value: u64 = 0;
        let mut first = true;
        let mut have_bits = false;
        let mut i: usize = 0;
        while i < self.0.len()
            invariant
                i <= self.0@.len(),
                arc_state(self.0@.take(i as int)) == (ArcState { arcs: arcs@, value, first, have_bits, overflow: false }),
            decreases self.0@.len() - i,
        {
            let byte = self.0[i];
            let ghost prev = self.0@.take(i as int);
            assert(self.0@.take(i + 1).drop_last() =~= prev);
            if value > MAX_BEFORE_SHIFT {
                proof {
                    assert(arc_state(self.0@.take(i + 1)).overflow);
                    lemma_overflow_stays(self.0@, i + 1);
                }
                return None;
            }
            assert((value << 7u64) <= 0xffff_ffff_ffff_ff80u64) by (bit_vector);
            assert((byte & 0x7f) <= 0x7f) by (bit_vector);
            value = (value << 7) + ((byte & 0x7f) as u64);
            have_bits = true;
            if byte & 0x80 == 0 {
                if first {
                    if value < 40 {
                        arcs.push(0);
                        arcs.push(value);
                    } else if value < 80 {
                        arcs.push(1);
                        arcs.push(value - 40);
                    } else {
                        arcs.push(2);
                        arcs.push(value - 80);
                    }
                    first = false;
                } else {
                    arcs.push(value);
                }
                value = 0;
                have_bits = false;
            }
            i = i + 1;
        }
        assert(self.0@.take(i as int) =~= self.0@);
        if have_bits {
            return None;
        }
        Some(arcs)
    }
}

/// What `oid::ObjectIdentifier` makes of content octets: the content
/// octets it writes back for the identifier it parses from them, or `None`
/// where it rejects them.
pub uninterp spec fn oid_canonical(bytes: Seq<u8>) -> Option<Seq<u8>>;

/// `oid::ObjectIdentifier::try_from(&[u8])`, followed for an accepted
/// identifier by its `Into<Vec<u8>>` content octets. Empty input is
/// rejected; the rest of what it accepts and writes is left to the name
/// `oid_canonical`.
#[verifier::external_body]
fn oid_reencode(bytes: &[u8]) -> (r: Option<Vec<u8>>)
    ensures
        match r {
            Some(c) => oid_canonical(bytes@) == Some(c@),
            None => oid_canonical(bytes@) is None,
        },
        bytes@.len() == 0 ==> r is None,
{
    match oid::ObjectIdentifier::try_from(bytes) {
        Ok(o) => Some((&o).into()),
        Err(_) => None,
    }
}

/// Decoding an OID from a CBOR byte string holding its DER content octets.
pub open spec fn spec_oid(input: Seq<u8>, pos: int) -> Parsed<Seq<u8>> {
    match spec_bytes(input, pos) {
        Ok((b, e)) => match oid_canonical(b) {
            Some(c) => Ok((c, e)),
            None => Err(Fault::Malformed("invalid OID")),
        },
        Err(f) => Err(f),
    }
}

/// An OID that the `oid` crate writes back unchanged, so that it survives
/// being encoded and decoded.
pub open spec fn oid_stable(c: Seq<u8>) -> bool {
    oid_canonical(c) == Some(c)
}

/// Decode an OID from a CBOR byte string holding its DER content octets.
pub fn decode_oid(input: &[u8], pos: usize) -> (r: Result<(Oid, usize), Error>)
    ensures
        crate::error::outcome(r) == spec_oid(input@, pos as int),
{
    match cbor_bytes(input, pos) {
        Ok((b, e)) => match oid_reencode(b.as_slice()) {
            Some(c) => Ok((Oid(c), e)),
            None => Err(Error::Malformed("invalid OID")),
        },
        Err(err) => Err(Error::Cbor(err)),
    }
}


// ------------------------------------------------------------- text

/// The character of a decimal digit.
pub open spec fn digit_char(d: nat) -> char {
    if d == 0 {
        '0'
    } else if d == 1 {
        '1'
    } else if d == 2 {
        '2'
    } else if d == 3 {
        '3'
    } else if d == 4 {
        '4'
    } else if d == 5 {
        '5'
    } else if d == 6 {
        '6'
    } else if d == 7 {
        '7'
    } else if d == 8 {
        '8'
    } else {
        '9'
    }
}

/// The decimal digits of `n`, most significant first.
pub open spec fn decimal(n: nat) -> Seq<char>
    decreases n,
{
    if n < 10 {
        seq![digit_char(n)]
    } else {
        decimal(n / 10).push(digit_char(n % 10))
    }
}

/// The one-character string of a decimal digit.
fn digit_str(d: u64) -> (r: &'static str)
    requires
        d < 10,
    ensures
        r@ == seq![digit_char(d as nat)],
{
    proof {
        reveal_strlit("0");
        reveal_strlit("1");
        reveal_strlit("2");
        reveal_strlit("3");
        reveal_strlit("4");
        reveal_strlit("5");
        reveal_strlit("6");
        reveal_strlit("7");
        reveal_strlit("8");
        reveal_strlit("9");
    }
    if d == 0 {
        "0"
    } else if d == 1 {
        "1"
    } else if d == 2 {
        "2"
    } else if d == 3 {
        "3"
    } else if d == 4 {
        "4"
    } else if d == 5 {
        "5"
    } else if d == 6 {
        "6"
    } else if d == 7 {
        "7"
    } else if d == 8 {
        "8"
    } else {
        "9"
    }
}

/// Append the decimal digits of `n`.
pub fn append_decimal(s: &mut String, n: u64)
    ensures
        final(s)@ == old(s)@ + decimal(n as nat),
    decreases n,
{
    if n < 10 {
        s.append(digit_str(n));
    } else {
        append_decimal(s, n / 10);
        s.append(digit_str(n % 10));
        assert(decimal(n as nat) == decimal((n / 10) as nat).push(digit_char((n % 10) as nat)));
    }
}


/// The character of a lowercase hexadecimal digit.
pub open spec fn hex_char(d: nat) -> char {
    if d < 10 {
        digit_char(d)
    } else if d == 10 {
        'a'
    } else if d == 11 {
        'b'
    } else if d == 12 {
        'c'
    } else if d == 13 {
        'd'
    } else if d == 14 {
        'e'
    } else {
        'f'
    }
}

/// A byte as two lowercase hexadecimal digits.
pub open spec fn hex_byte(b: u8) -> Seq<char> {
    seq![hex_char(b as nat / 16), hex_char(b as nat % 16)]
}

/// Bytes as `{:02x?}` shows them inside their brackets: two lowercase
/// hexadecimal digits each, separated by `", "`.
pub open spec fn hex_list(bytes: Seq<u8>) -> Seq<char>
    decreases bytes.len(),
{
    if bytes.len() == 0 {
        Seq::empty()
    } else if bytes.len() == 1 {
        hex_byte(bytes[0])
    } else {
        hex_list(bytes.drop_last()) + seq![',', ' '] + hex_byte(bytes.last())
    }
}

/// Arcs in dotted-decimal notation.
pub open spec fn dotted(arcs: Seq<u64>) -> Seq<char>
    decreases arcs.len(),
{
    if arcs.len() == 0 {
        Seq::empty()
    } else if arcs.len() == 1 {
        decimal(arcs[0] as nat)
    } else {
        dotted(arcs.drop_last()) + seq!['.'] + decimal(arcs.last() as nat)
    }
}

/// The text of an OID: its dotted-decimal arcs, or
/// `<invalid-oid:[..]>` with its content octets in hexadecimal where they
/// are no valid arc encoding.
pub open spec fn oid_text(bytes: Seq<u8>) -> Seq<char> {
    match spec_arcs(bytes) {
        Some(arcs) => dotted(arcs),
        None => seq!['<', 'i', 'n', 'v', 'a', 'l', 'i', 'd', '-', 'o', 'i', 'd', ':', '['] + hex_list(bytes) + seq![']', '>'],
    }
}

/// The one-character string of a lowercase hexadecimal digit.
fn hex_digit_str(d: u8) -> (r: &'static str)
    requires
        d < 16,
    ensures
        r@ == seq![hex_char(d as nat)],
{
    proof {
        reveal_strlit("a");
        reveal_strlit("b");
        reveal_strlit("c");
        reveal_strlit("d");
        reveal_strlit("e");
        reveal_strlit("f");
    }
    if d < 10 {
        digit_str(d as u64)
    } else if d == 10 {
        "a"
    } else if d == 11 {
        "b"
    } else if d == 12 {
        "c"
    } else if d == 13 {
        "d"
    } else if d == 14 {
        "e"
    } else {
        "f"
    }
}

impl Oid {
    /// The dotted-decimal text of this OID, e.g. `1.2.840.113549.1.1.1`;
    /// `<invalid-oid:[2a, 86]>` where the content octets are no valid arc
    /// encoding.
    #[verifier::spinoff_prover]
    #[verifier::rlimit(20)]
    pub fn to_string(&self) -> (r: String)
        ensures
            r@ == oid_text(self@),
    {
        let mut s = String::new();
        match self.arcs() {
            Some(arcs) => {
                let mut i: usize = 0;
                while i < arcs.len()
                    invariant
                        i <= arcs@.len(),
                        s@ == dotted(arcs@.take(i as int)),
                    decreases arcs@.len() - i,
                {
                    proof {
                        reveal_strlit(".");
                    }
                    if i > 0 {
                        s.append(".");
                    }
                    append_decimal(&mut s, arcs[i]);
                    assert(arcs@.take(i + 1).drop_last() =~= arcs@.take(i as int));
                    i = i + 1;
                }
                assert(arcs@.take(arcs@.len() as int) =~= arcs@);
            },
            None => {
                proof {
                    reveal_strlit("<invalid-oid:[");
                    reveal_strlit(", ");
                    reveal_strlit("]>");
                }
                s.append("<invalid-oid:[");
                let ghost start = s@;
                let mut i: usize = 0;
                while i < self.0.len()
                    invariant
                        i <= self@.len(),
                        self.0@ == self@,
                        s@ == start + hex_list(self@.take(i as int)),
                    decreases self@.len() - i,
                {
                    proof {
                        reveal_strlit(", ");
                    }
                    if i > 0 {
                        s.append(", ");
                    }
                    let b = self.0[i];
                    s.append(hex_digit_str(b / 16));
                    s.append(hex_digit_str(b % 16));
                    assert(self@.take(i + 1).drop_last() =~= self@.take(i as int));
                    i = i + 1;
                }
                assert(self@.take(self@.len() as int) =~= self@);
                s.append("]>");
            },
        }
        s
    }
}

} // verus!
