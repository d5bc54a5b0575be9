//! RFC 3779 `IPAddrBlocks` / `ASIdentifiers` encoding used by the
//! `id-pe-ipAddrBlocks(-v2)` and `id-pe-autonomousSysIds(-v2)` extensions
//! (Section 3.3, extension registry values 32-35).
//!
//! Both forms are delta-chain encoded: the first value in a list is
//! absolute, every later value is the CBOR int difference from the one
//! before it.
//!
//! Addresses are additionally framed as `unusedBits || value` (from the
//! ASN.1 BIT STRING). When every entry in a family fits within 8 octets
//! that way, the family is delta-coded as CBOR ints (prefixing `unusedBits +
//! 1` so the leading byte is never zero); otherwise the whole family falls
//! back to raw `unusedBits || value` byte strings.
//!
//! Addresses are held as [`IpNet`] (prefixes) and [`IpAddr`] (arbitrary
//! ranges), which only support AFI 1 (IPv4) and 2 (IPv6); other families are
//! rejected with [`Error::Malformed`].
use vstd::prelude::*;

use crate::cbor::{
    be_value, bstr, cbor_bytes, cbor_int, cbor_null, cbor_u16, head, int_head, lemma_be_value_bound,
    lemma_bstr, lemma_int_head, lemma_int_span, lemma_matches_split, lemma_matches_take, matches_at, put_array,
    put_bytes, put_int, put_null, put_u16, spec_bytes, spec_datatype, spec_int, spec_null,
    spec_u16, CborType,
};
use crate::common::{datatype, definite_array_len, is_array_type, lemma_array_head, spec_definite_array_len};
use crate::error::{outcome, Error, Fault, Parsed};
use crate::repeat::{
    enc_all, lemma_enc_all_first, lemma_enc_chain_first, lemma_enc_all_push, lemma_parse_n_next, lemma_parse_n_roundtrip, lemma_parse_n_stop,
    parse_n, reads_back, chain_last, chain_reads_back, enc_chain, lemma_enc_chain_push, lemma_parse_chain_next,
    lemma_parse_chain_roundtrip, lemma_parse_chain_stop, parse_chain,
};

verus! {

/// The CBOR int delta form is only used when the whole `(unusedBits + 1) ||
/// value` byte sequence fits in this many octets (i.e. fits a CBOR major
/// type 0/1 integer).
pub const MAX_INT_FORM_BYTES: usize = 8;

// ------------------------------------------------------------ addresses

/// The width in octets of the addresses of family `afi`.
pub open spec fn family_width(afi: u16) -> Result<nat, Fault> {
    if afi == 1 {
        Ok(4)
    } else if afi == 2 {
        Ok(16)
    } else {
        Err(
            Fault::Malformed(
                "unsupported address family for typed decoding (expected AFI 1 = IPv4 or 2 = IPv6)",
            ),
        )
    }
}

/// The width of the address family in octets.
pub fn address_width(afi: u16) -> (r: Result<usize, Error>)
    ensures
        match r {
            Ok(w) => family_width(afi) == Ok::<nat, Fault>(w as nat),
            Err(e) => family_width(afi) == Err::<nat, Fault>(e.fault()),
        },
{
    if afi == 1 {
        Ok(4)
    } else if afi == 2 {
        Ok(16)
    } else {
        Err(
            Error::Malformed(
                "unsupported address family for typed decoding (expected AFI 1 = IPv4 or 2 = IPv6)",
            ),
        )
    }
}

/// An IP address: the 4 octets of an IPv4 address or the 16 of an IPv6 one,
/// most significant first.
#[derive(PartialEq, Eq, Debug)]
pub struct IpAddr {
    octets: Vec<u8>,
}

impl IpAddr {
    #[verifier::type_invariant]
    spec fn well_formed(self) -> bool {
        self.octets@.len() == 4 || self.octets@.len() == 16
    }

    /// The address with these octets: 4 for IPv4, 16 for IPv6; `None` for
    /// any other length.
    pub fn from_octets(octets: &[u8]) -> (r: Option<IpAddr>)
        ensures
            match r {
                Some(a) => (octets@.len() == 4 || octets@.len() == 16) && a@ == octets@,
                None => !(octets@.len() == 4 || octets@.len() == 16),
            },
    {
        if octets.len() == 4 || octets.len() == 16 {
            Some(IpAddr { octets: vstd::slice::slice_to_vec(octets) })
        } else {
            None
        }
    }

    /// The IPv4 address `a.b.c.d`.
    pub fn v4(a: u8, b: u8, c: u8, d: u8) -> (r: IpAddr)
        ensures
            r@ == seq![a, b, c, d],
    {
        let octets = vec![a, b, c, d];
        assert(octets@ =~= seq![a, b, c, d]);
        IpAddr { octets }
    }

    /// The address's octets.
    pub fn octets(&self) -> (b: &[u8])
        ensures
            b@ == self@,
            b@.len() == 4 || b@.len() == 16,
    {
        proof {
            use_type_invariant(self);
        }
        self.octets.as_slice()
    }
}

impl Clone for IpAddr {
    fn clone(&self) -> (r: Self)
        ensures
            r@ == self@,
    {
        proof {
            use_type_invariant(self);
        }
        IpAddr { octets: vstd::slice::slice_to_vec(self.octets.as_slice()) }
    }
}

impl View for IpAddr {
    type V = Seq<u8>;

    closed spec fn view(&self) -> Seq<u8> {
        self.octets@
    }
}

impl DeepView for IpAddr {
    type V = Seq<u8>;

    open spec fn deep_view(&self) -> Seq<u8> {
        self@
    }
}

/// `2^k`, for the bits of an octet.
pub open spec fn bit_span(k: nat) -> nat
    decreases k,
{
    if k == 0 {
        1
    } else {
        2 * bit_span((k - 1) as nat)
    }
}

/// An octet with only its `bits` leading bits kept.
pub open spec fn mask_octet(b: u8, bits: int) -> u8 {
    if bits >= 8 {
        b
    } else if bits <= 0 {
        0
    } else {
        let d = bit_span((8 - bits) as nat);
        ((b as nat / d) * d) as u8
    }
}

/// The network address of `addr` under a prefix of `prefix_len` bits: the
/// host bits cleared.
pub open spec fn network_octets(addr: Seq<u8>, prefix_len: int) -> Seq<u8> {
    Seq::new(addr.len(), |i: int| mask_octet(addr[i], prefix_len - 8 * i))
}

/// The model of an [`IpNet`]: the address as given and the prefix length.
pub struct IpNetModel {
    pub addr: Seq<u8>,
    pub prefix_len: u8,
}

/// An IP network: an address and a prefix length no longer than the
/// address. As `ipnet::IpNet` does, it keeps the address as given; its
/// [`IpNet::network`] clears the host bits.
#[derive(PartialEq, Eq, Debug)]
pub struct IpNet {
    addr: IpAddr,
    prefix_len: u8,
}

impl Clone for IpNet {
    fn clone(&self) -> (r: Self)
        ensures
            r@ == self@,
    {
        proof {
            use_type_invariant(self);
        }
        IpNet { addr: self.addr.clone(), prefix_len: self.prefix_len }
    }
}

impl View for IpNet {
    type V = IpNetModel;

    closed spec fn view(&self) -> IpNetModel {
        IpNetModel { addr: self.addr@, prefix_len: self.prefix_len }
    }
}

impl DeepView for IpNet {
    type V = IpNetModel;

    open spec fn deep_view(&self) -> IpNetModel {
        self@
    }
}

/// The octets of a (nonzero) multiple of a power of two, for the masks.
proof fn lemma_bit_span_values()
    ensures
        bit_span(0) == 1,
        bit_span(1) == 2,
        bit_span(2) == 4,
        bit_span(3) == 8,
        bit_span(4) == 16,
        bit_span(5) == 32,
        bit_span(6) == 64,
        bit_span(7) == 128,
        bit_span(8) == 256,
{
    reveal_with_fuel(bit_span, 9);
}

/// `2^k` for `k <= 8`.
fn bit_span_of(k: u8) -> (d: u16)
    requires
        k <= 8,
    ensures
        d as nat == bit_span(k as nat),
        d >= 1,
{
    proof {
        lemma_bit_span_values();
    }
    if k == 0 {
        1
    } else if k == 1 {
        2
    } else if k == 2 {
        4
    } else if k == 3 {
        8
    } else if k == 4 {
        16
    } else if k == 5 {
        32
    } else if k == 6 {
        64
    } else if k == 7 {
        128
    } else {
        256
    }
}

/// An octet with only its `bits` leading bits kept.
fn mask_octet_of(b: u8, bits: i32) -> (r: u8)
    ensures
        r == mask_octet(b, bits as int),
{
    if bits >= 8 {
        b
    } else if bits <= 0 {
        0
    } else {
        let d = bit_span_of((8 - bits) as u8);
        let q = b as u16 / d;
        assert(q * d <= b) by (nonlinear_arith)
            requires
                q == b as u16 / d,
                d >= 1,
        ;
        (q * d) as u8
    }
}

impl IpNet {
    #[verifier::type_invariant]
    spec fn well_formed(self) -> bool {
        self.prefix_len as nat <= 8 * self.addr@.len()
    }

    /// The network of `addr` with a prefix of `prefix_len` bits; `None`
    /// where the prefix is longer than the address (`ipnet::IpNet::new`
    /// fails there).
    pub fn new(addr: IpAddr, prefix_len: u8) -> (r: Option<IpNet>)
        ensures
            match r {
                Some(n) => n@ == (IpNetModel { addr: addr@, prefix_len }),
                None => prefix_len as nat > 8 * addr@.len(),
            },
    {
        let width = addr.octets().len();
        if (prefix_len as usize) <= 8 * width {
            Some(IpNet { addr, prefix_len })
        } else {
            None
        }
    }

    /// The address as given.
    pub fn addr(&self) -> (a: &IpAddr)
        ensures
            a@ == self@.addr,
    {
        &self.addr
    }

    /// The prefix length in bits.
    pub fn prefix_len(&self) -> (n: u8)
        ensures
            n == self@.prefix_len,
            n as nat <= 8 * self@.addr.len(),
            self@.addr.len() == 4 || self@.addr.len() == 16,
    {
        proof {
            use_type_invariant(self);
            use_type_invariant(&self.addr);
        }
        self.prefix_len
    }

    /// The network address: the address with its host bits cleared.
    pub fn network(&self) -> (r: IpAddr)
        ensures
            r@ == network_octets(self@.addr, self@.prefix_len as int),
    {
        proof {
            use_type_invariant(self);
            use_type_invariant(&self.addr);
        }
        let octets = self.addr.octets();
        let mut out: Vec<u8> = Vec::new();
        let mut i: usize = 0;
        while i < octets.len()
            invariant
                i <= octets@.len(),
                octets@.len() == 4 || octets@.len() == 16,
                self.prefix_len <= 128,
                out@ == network_octets(octets@, self.prefix_len as int).take(i as int),
            decreases octets@.len() - i,
        {
            let bits: i32 = self.prefix_len as i32 - 8 * (i as i32);
            out.push(mask_octet_of(octets[i], bits));
            i = i + 1;
            assert(out@ =~= network_octets(octets@, self.prefix_len as int).take(i as int));
        }
        assert(out@ =~= network_octets(octets@, self.prefix_len as int));
        IpAddr { octets: out }
    }
}

// ----------------------------------------------------------- framing

/// The significant leading octets of an address: whole trailing octets equal
/// to `fill` removed.
pub open spec fn trim_trailing(s: Seq<u8>, fill: u8) -> Seq<u8>
    decreases s.len(),
{
    if s.len() > 0 && s.last() == fill {
        trim_trailing(s.drop_last(), fill)
    } else {
        s
    }
}

/// How many octets a prefix of `prefix_len` bits touches.
pub open spec fn significant_len(prefix_len: u8) -> nat {
    ((prefix_len as nat + 7) / 8) as nat
}

/// The significant octets of a network and its `unusedBits`: the network
/// address cut to the octets the prefix touches, and the bits of the last
/// of them past the prefix.
pub open spec fn framed_prefix(net: IpNetModel) -> (Seq<u8>, u8) {
    let n = significant_len(net.prefix_len);
    (
        network_octets(net.addr, net.prefix_len as int).take(n as int),
        (n * 8 - net.prefix_len) as u8,
    )
}

/// An address from the significant leading octets of an RFC 3779 value,
/// the rest of the family's width filled with `fill`.
pub open spec fn spec_build_addr(afi: u16, significant: Seq<u8>, fill: u8) -> Result<Seq<u8>, Fault> {
    match family_width(afi) {
        Ok(w) => if significant.len() > w {
            Err(Fault::Malformed("address value longer than its family's width"))
        } else {
            Ok(significant + Seq::new((w - significant.len()) as nat, |i: int| fill))
        },
        Err(f) => Err(f),
    }
}

/// A prefix from the significant leading octets of an RFC 3779 value and its
/// `unusedBits`.
pub open spec fn spec_build_prefix(afi: u16, significant: Seq<u8>, unused_bits: u8) -> Result<IpNetModel, Fault> {
    match spec_build_addr(afi, significant, 0) {
        Ok(addr) => if unused_bits as nat > significant.len() * 8 {
            Err(Fault::Malformed("invalid RFC 3779 prefix length"))
        } else {
            Ok(IpNetModel { addr, prefix_len: (significant.len() * 8 - unused_bits) as u8 })
        },
        Err(f) => Err(f),
    }
}

/// Build a full-width address from the significant leading bytes of an RFC
/// 3779 address value, filling the remaining (unspecified) trailing bytes
/// with `fill` (`0x00` for a prefix or a range minimum, `0xFF` for a range
/// maximum).
fn build_addr(afi: u16, significant: &[u8], fill: u8) -> (r: Result<IpAddr, Error>)
    ensures
        match r {
            Ok(a) => spec_build_addr(afi, significant@, fill) == Ok::<Seq<u8>, Fault>(a@),
            Err(e) => spec_build_addr(afi, significant@, fill) == Err::<Seq<u8>, Fault>(e.fault()),
        },
{
    let width = address_width(afi)?;
    if significant.len() > width {
        return Err(Error::Malformed("address value longer than its family's width"));
    }
    let mut octets = vstd::slice::slice_to_vec(significant);
    while octets.len() < width
        invariant
            significant@.len() <= octets@.len() <= width,
            width == 4 || width == 16,
            octets@ == significant@ + Seq::new((octets@.len() - significant@.len()) as nat, |i: int| fill),
        decreases width - octets@.len(),
    {
        octets.push(fill);
        assert(octets@ =~= significant@ + Seq::new((octets@.len() - significant@.len()) as nat, |i: int| fill));
    }
    Ok(IpAddr { octets })
}

/// Build a prefix from the significant leading bytes of an RFC 3779 address
/// value, filling the remaining (unspecified) trailing bytes with `0x00`.
fn build_prefix(afi: u16, significant: &[u8], unused_bits: u8) -> (r: Result<IpNet, Error>)
    ensures
        match r {
            Ok(n) => spec_build_prefix(afi, significant@, unused_bits) == Ok::<IpNetModel, Fault>(n@),
            Err(e) => spec_build_prefix(afi, significant@, unused_bits) == Err::<IpNetModel, Fault>(e.fault()),
        },
{
    let addr = build_addr(afi, significant, 0x00)?;
    let bits = significant.len() * 8;
    if (unused_bits as usize) > bits {
        return Err(Error::Malformed("invalid RFC 3779 prefix length"));
    }
    let prefix_len = (bits - unused_bits as usize) as u8;
    let ghost m = addr@;
    match IpNet::new(addr, prefix_len) {
        Some(n) => Ok(n),
        None => Err(Error::Malformed("invalid RFC 3779 prefix length")),
    }
}

/// Inverse of [`build_prefix`]: the significant leading bytes of the network
/// address (trimmed to `prefix_len`) plus the resulting `unusedBits`.
fn prefix_to_framed(net: &IpNet) -> (r: (Vec<u8>, u8))
    ensures
        (r.0@, r.1) == framed_prefix(net@),
        r.0@.len() <= 16,
{
    let full = net.network();
    let prefix_len = net.prefix_len();
    let sig_len: usize = ((prefix_len as usize) + 7) / 8;
    let octets = full.octets();
    let mut out: Vec<u8> = Vec::new();
    let mut i: usize = 0;
    while i < sig_len
        invariant
            i <= sig_len,
            sig_len <= octets@.len(),
            out@ == octets@.take(i as int),
        decreases sig_len - i,
    {
        out.push(octets[i]);
        i = i + 1;
        assert(out@ =~= octets@.take(i as int));
    }
    let unused_bits = (sig_len * 8 - prefix_len as usize) as u8;
    (out, unused_bits)
}

/// Inverse of `build_addr`: strips whole trailing bytes equal to `fill`,
/// leaving the significant leading bytes.
fn addr_to_framed_trimmed(addr: &IpAddr, fill: u8) -> (r: Vec<u8>)
    ensures
        r@ == trim_trailing(addr@, fill),
        r@.len() <= 16,
{
    let full = addr.octets();
    let mut end = full.len();
    assert(full@.take(end as int) =~= full@);
    while end > 0 && full[end - 1] == fill
        invariant
            end <= full@.len(),
            trim_trailing(full@.take(end as int), fill) == trim_trailing(full@, fill),
        decreases end,
    {
        assert(full@.take(end as int).drop_last() =~= full@.take(end - 1));
        end = end - 1;
    }
    let out = vstd::slice::slice_to_vec(vstd::slice::slice_subrange(full, 0, end));
    assert(out@ =~= full@.take(end as int));
    out
}

/// The shortest big-endian octets of `n`: one octet for zero, and a nonzero
/// leading octet otherwise.
pub open spec fn be_min(n: nat) -> Seq<u8>
    decreases n,
{
    if n < 256 {
        seq![n as u8]
    } else {
        be_min(n / 256).push((n % 256) as u8)
    }
}

/// The CBOR int that a framed address is coded as: the big-endian value of
/// `(unusedBits + 1) || significant`, where that fits in 8 octets.
pub open spec fn spec_absolute_int(significant: Seq<u8>, unused_bits: u8) -> Result<int, Fault> {
    if significant.len() + 1 > MAX_INT_FORM_BYTES {
        Err(Fault::Malformed("address does not fit the CBOR int delta form"))
    } else if unused_bits == 255 {
        Err(Fault::Malformed("unusedBits too large to use the CBOR int delta form"))
    } else {
        Ok(be_value(seq![(unused_bits + 1) as u8] + significant) as int)
    }
}

/// The framed address a resolved delta-chain integer stands for: its
/// shortest big-endian octets, the first of them `unusedBits + 1`.
pub open spec fn spec_framed(abs: int) -> Result<(Seq<u8>, u8), Fault> {
    if abs < 0 {
        Err(Fault::Malformed("resolved IP address delta is negative"))
    } else {
        let v = be_min(abs as nat);
        if v[0] == 0 {
            Err(Fault::Malformed("invalid unusedBits+1 framing byte"))
        } else {
            Ok((v.drop_first(), (v[0] - 1) as u8))
        }
    }
}

/// A single octet is read as itself.
proof fn lemma_be_value_one(x: u8)
    ensures
        be_value(seq![x]) == x as nat,
{
    assert(seq![x].drop_last() =~= Seq::<u8>::empty());
    assert(be_value(Seq::<u8>::empty()) == 0);
}

/// The shortest octets of a value read back as the value.
proof fn lemma_be_min(n: nat)
    ensures
        be_value(be_min(n)) == n,
        be_min(n).len() >= 1,
        (be_min(n)[0] == 0) == (n == 0),
    decreases n,
{
    if n < 256 {
        lemma_be_value_one(n as u8);
    } else {
        lemma_be_min(n / 256);
        let m = be_min(n);
        assert(m.drop_last() =~= be_min(n / 256));
        assert(m.last() == (n % 256) as u8);
        assert(be_value(m) == be_value(m.drop_last()) * 256 + m.last() as nat);
        assert(n == (n / 256) * 256 + n % 256) by (nonlinear_arith);
        assert(n / 256 > 0) by (nonlinear_arith)
            requires
                n >= 256,
        ;
    }
}

/// Octets with a nonzero leading octet are the shortest octets of their
/// value.
proof fn lemma_be_min_of_value(s: Seq<u8>)
    requires
        s.len() >= 1,
        s[0] != 0,
    ensures
        be_min(be_value(s)) == s,
    decreases s.len(),
{
    if s.len() == 1 {
        assert(s =~= seq![s[0]]);
        lemma_be_value_one(s[0]);
        assert(be_min(be_value(s)) =~= s);
    } else {
        let init = s.drop_last();
        assert(init[0] == s[0]);
        lemma_be_min_of_value(init);
        lemma_be_min(be_value(init));
        let a = be_value(init);
        assert(a >= 1);
        let v = be_value(s);
        assert(v == a * 256 + s.last());
        assert(v / 256 == a && v % 256 == s.last()) by (nonlinear_arith)
            requires
                v == a * 256 + s.last(),
                s.last() < 256,
        ;
        assert(v >= 256);
        assert(be_min(v) =~= be_min(a).push(s.last()));
        assert(init.push(s.last()) =~= s);
    }
}

/// `256^n` for the widths of the int form.
proof fn lemma_pow256_upto8()
    ensures
        crate::cbor::pow256(8) == 0x1_0000_0000_0000_0000,
        forall|n: nat| n <= 7 ==> #[trigger] crate::cbor::pow256(n) <= 0x1_0000_0000_0000_00,
{
    reveal_with_fuel(crate::cbor::pow256, 9);
}

/// Convert a framed address (significant bytes and unused bits) to an
/// absolute integer.
#[verifier::spinoff_prover]
#[verifier::rlimit(20)]
pub fn absolute_int_from_framed(significant: &[u8], unused_bits: u8) -> (r: Result<i128, Error>)
    ensures
        match r {
            Ok(v) => spec_absolute_int(significant@, unused_bits) == Ok::<int, Fault>(v as int),
            Err(e) => spec_absolute_int(significant@, unused_bits) == Err::<int, Fault>(e.fault()),
        },
        r is Ok ==> 0 < r.unwrap() < 0x1_0000_0000_0000_0000,
{
    if significant.len() >= MAX_INT_FORM_BYTES {
        return Err(Error::Malformed("address does not fit the CBOR int delta form"));
    }
    if unused_bits == 255 {
        return Err(Error::Malformed("unusedBits too large to use the CBOR int delta form"));
    }
    let ghost framed = seq![(unused_bits + 1) as u8] + significant@;
    let mut v: u128 = (unused_bits + 1) as u128;
    let mut i: usize = 0;
    proof {
        assert(framed.take(1) =~= seq![(unused_bits + 1) as u8]);
        lemma_be_value_one((unused_bits + 1) as u8);
        lemma_pow256_upto8();
    }
    while i < significant.len()
        invariant
            i <= significant@.len(),
            significant@.len() + 1 <= 8,
            framed == seq![(unused_bits + 1) as u8] + significant@,
            v as nat == be_value(framed.take(i + 1)),
            v >= 1,
            forall|n: nat| n <= 7 ==> #[trigger] crate::cbor::pow256(n) <= 0x1_0000_0000_0000_00,
            crate::cbor::pow256(8) == 0x1_0000_0000_0000_0000,
        decreases significant@.len() - i,
    {
        proof {
            lemma_be_value_bound(framed.take(i + 1));
            assert(framed.take(i + 2).drop_last() =~= framed.take(i + 1));
            assert(framed.take(i + 2).last() == significant@[i as int]);
        }
        assert(v < 0x1_0000_0000_0000_00);
        v = v * 256 + significant[i] as u128;
        i = i + 1;
    }
    proof {
        assert(framed.take(i + 1) =~= framed);
        lemma_be_value_bound(framed);
    }
    Ok(v as i128)
}

/// The shortest big-endian octets of `n`.
fn be_min_octets(n: u128) -> (r: Vec<u8>)
    ensures
        r@ == be_min(n as nat),
    decreases n,
{
    if n < 256 {
        let r = vec![n as u8];
        assert(r@ =~= be_min(n as nat));
        r
    } else {
        let mut r = be_min_octets(n / 256);
        r.push((n % 256) as u8);
        r
    }
}

/// Inverse of [`absolute_int_from_framed`]: the significant leading bytes
/// and `unusedBits` encoded by a resolved delta-chain integer.
pub fn framed_from_absolute_int(abs: i128) -> (r: Result<(Vec<u8>, u8), Error>)
    ensures
        match r {
            Ok((b, u)) => spec_framed(abs as int) == Ok::<(Seq<u8>, u8), Fault>((b@, u)),
            Err(e) => spec_framed(abs as int) == Err::<(Seq<u8>, u8), Fault>(e.fault()),
        },
{
    if abs < 0 {
        return Err(Error::Malformed("resolved IP address delta is negative"));
    }
    let v = be_min_octets(abs as u128);
    proof {
        lemma_be_min(abs as nat);
    }
    let framing = v[0];
    if framing == 0 {
        return Err(Error::Malformed("invalid unusedBits+1 framing byte"));
    }
    let rest = vstd::slice::slice_to_vec(vstd::slice::slice_subrange(v.as_slice(), 1, v.len()));
    assert(rest@ =~= v@.drop_first());
    Ok((rest, framing - 1))
}

// --------------------------------------------------------- delta chain

/// The absolute value a delta-chain entry stands for: the first entry is
/// absolute, each later one the difference from the one before.
pub open spec fn chain_absolute(previous: int, first: bool, raw: int) -> int {
    if first {
        raw
    } else {
        previous + raw
    }
}

/// The value written for an absolute value in a delta chain.
pub open spec fn chain_delta(previous: int, first: bool, abs: int) -> int {
    if first {
        abs
    } else {
        abs - previous
    }
}

/// Resolve a decoded delta-chain value (`raw`) to its absolute value,
/// advancing the chain state.
pub fn next_absolute(previous: &mut i128, first: &mut bool, raw: i128) -> (abs: i128)
    requires
        !*old(first) ==> i128::MIN <= *old(previous) + raw <= i128::MAX,
    ensures
        abs as int == chain_absolute(*old(previous) as int, *old(first), raw as int),
        *final(previous) == abs,
        *final(first) == false,
{
    let abs = if *first {
        raw
    } else {
        *previous + raw
    };
    *previous = abs;
    *first = false;
    abs
}

/// Compute the next delta-chain value for an absolute value (`abs`),
/// advancing the chain state.
pub fn next_delta(previous: &mut i128, first: &mut bool, abs: i128) -> (delta: i128)
    requires
        !*old(first) ==> i128::MIN <= abs - *old(previous) <= i128::MAX,
    ensures
        delta as int == chain_delta(*old(previous) as int, *old(first), abs as int),
        *final(previous) == abs,
        *final(first) == false,
{
    let delta = if *first {
        abs
    } else {
        abs - *previous
    };
    *previous = abs;
    *first = false;
    delta
}

/// Resolving the delta written for a value gives the value back, and both
/// leave the chain in the same state.
pub proof fn law_delta_chain_inverse(previous: int, first: bool, abs: int)
    ensures
        chain_absolute(previous, first, chain_delta(previous, first, abs)) == abs,
{
}

/// The deltas written for a list of values, one after the other, from the
/// chain state `(previous, first)`.
pub open spec fn chain_deltas(xs: Seq<int>, previous: int, first: bool) -> Seq<int>
    decreases xs.len(),
{
    if xs.len() == 0 {
        Seq::empty()
    } else {
        seq![chain_delta(previous, first, xs[0])] + chain_deltas(xs.drop_first(), xs[0], false)
    }
}

/// The values a list of deltas resolves to, one after the other, from the
/// chain state `(previous, first)`.
pub open spec fn chain_resolved(ds: Seq<int>, previous: int, first: bool) -> Seq<int>
    decreases ds.len(),
{
    if ds.len() == 0 {
        Seq::empty()
    } else {
        let abs = chain_absolute(previous, first, ds[0]);
        seq![abs] + chain_resolved(ds.drop_first(), abs, false)
    }
}

/// Resolving the deltas written for a whole list of values, from the same
/// chain state, gives the list back.
pub proof fn law_delta_chain_list_inverse(xs: Seq<int>, previous: int, first: bool)
    ensures
        chain_resolved(chain_deltas(xs, previous, first), previous, first) == xs,
    decreases xs.len(),
{
    if xs.len() > 0 {
        let ds = chain_deltas(xs, previous, first);
        law_delta_chain_inverse(previous, first, xs[0]);
        assert(ds.drop_first() =~= chain_deltas(xs.drop_first(), xs[0], false));
        law_delta_chain_list_inverse(xs.drop_first(), xs[0], false);
        assert(chain_resolved(ds, previous, first) =~= seq![xs[0]] + xs.drop_first());
        assert(seq![xs[0]] + xs.drop_first() =~= xs);
    }
}

/// A framed address that fits the int form is read back from its integer.
pub proof fn law_framed_int_roundtrip(significant: Seq<u8>, unused_bits: u8)
    requires
        significant.len() + 1 <= MAX_INT_FORM_BYTES,
        unused_bits < 255,
    ensures
        spec_absolute_int(significant, unused_bits) is Ok,
        spec_framed(spec_absolute_int(significant, unused_bits).unwrap()) == Ok::<(Seq<u8>, u8), Fault>(
            (significant, unused_bits),
        ),
{
    let s = seq![(unused_bits + 1) as u8] + significant;
    lemma_be_min_of_value(s);
    assert(s.drop_first() =~= significant);
}

/// An integer whose octets fit the int form is the integer of the framed
/// address it stands for.
pub proof fn law_int_framed_roundtrip(abs: int)
    requires
        0 < abs < 0x1_0000_0000_0000_0000,
    ensures
        spec_framed(abs) is Ok,
        spec_absolute_int(spec_framed(abs).unwrap().0, spec_framed(abs).unwrap().1) == Ok::<int, Fault>(abs),
{
    lemma_be_min(abs as nat);
    let v = be_min(abs as nat);
    lemma_be_min_len(abs as nat);
    assert(seq![((v[0] - 1) as u8 + 1) as u8] + v.drop_first() =~= v);
}

/// The shortest octets of a value below `2^64` number at most eight.
proof fn lemma_be_min_len(n: nat)
    requires
        n < 0x1_0000_0000_0000_0000,
    ensures
        be_min(n).len() <= 8,
{
    lemma_pow256_upto8();
    lemma_be_min_len_below(n, 8);
}

/// The shortest octets of a value below `256^k` number at most `k`.
proof fn lemma_be_min_len_below(n: nat, k: nat)
    requires
        k >= 1,
        n < crate::cbor::pow256(k),
    ensures
        be_min(n).len() <= k,
    decreases n,
{
    if n >= 256 {
        assert(k >= 2) by {
            if k == 1 {
                reveal_with_fuel(crate::cbor::pow256, 2);
            }
        }
        let k1 = (k - 1) as nat;
        assert(crate::cbor::pow256(k) == 256 * crate::cbor::pow256(k1));
        assert(n / 256 < crate::cbor::pow256(k1)) by (nonlinear_arith)
            requires
                n < 256 * crate::cbor::pow256(k1),
        ;
        lemma_be_min_len_below(n / 256, k1);
    }
}

// ------------------------------------------------------ AS identifiers

/// An AS-number or AS-range entry.
#[derive(Clone, Copy, PartialEq, Eq, Debug)]
pub enum AsIdOrRange {
    Id(u64),
    Range { min: u64, max: u64 },
}

impl DeepView for AsIdOrRange {
    type V = AsIdOrRange;

    open spec fn deep_view(&self) -> AsIdOrRange {
        *self
    }
}

/// How far a value read in a chain can be from zero after the chain has
/// taken `len` bytes: `2^61` per byte, so that no chain in an input that
/// memory can hold leaves the range of `i128`.
pub open spec fn chain_bound(len: int) -> int {
    0x2000_0000_0000_0000 * len
}

/// A resolved AS number.
pub open spec fn is_as_number(a: int) -> bool {
    0 <= a <= u64::MAX
}

/// Decoding one AS entry of a chain, after the value `prev`: a number, or a
/// `[ min, max ]` range; every resolved value must be an AS number.
pub open spec fn spec_as_entry(input: Seq<u8>, pos: int, prev: int, first: bool) -> Result<(AsIdOrRange, int, int), Fault> {
    match spec_datatype(input, pos) {
        None => Err(Fault::Cbor),
        Some(t) => if is_array_type(t) {
            match spec_definite_array_len(input, pos) {
                Ok((n, e)) => if n != 2 {
                    Err(Fault::Malformed("AS id range must have 2 elements"))
                } else {
                    match spec_int(input, e) {
                        Ok((r1, e1)) => match spec_int(input, e1) {
                            Ok((r2, e2)) => {
                                let a1 = chain_absolute(prev, first, r1 as int);
                                let a2 = a1 + r2;
                                if !is_as_number(a1) || !is_as_number(a2) {
                                    Err(Fault::Malformed("AS id out of range"))
                                } else {
                                    Ok((AsIdOrRange::Range { min: a1 as u64, max: a2 as u64 }, e2, a2))
                                }
                            },
                            Err(f) => Err(f),
                        },
                        Err(f) => Err(f),
                    }
                },
                Err(f) => Err(f),
            }
        } else {
            match spec_int(input, pos) {
                Ok((r, e)) => {
                    let a = chain_absolute(prev, first, r as int);
                    if !is_as_number(a) {
                        Err(Fault::Malformed("AS id out of range"))
                    } else {
                        Ok((AsIdOrRange::Id(a as u64), e, a))
                    }
                },
                Err(f) => Err(f),
            }
        },
    }
}

/// The reader of one AS entry.
pub open spec fn as_entry_parser() -> spec_fn(Seq<u8>, int, int, bool) -> Result<(AsIdOrRange, int, int), Fault> {
    |i: Seq<u8>, p: int, prev: int, first: bool| spec_as_entry(i, p, prev, first)
}

/// Decoding `ASIdentifiers`: `null` for inherit, or an array of chained
/// entries.
pub open spec fn spec_as_identifiers(input: Seq<u8>, pos: int) -> Parsed<Option<Seq<AsIdOrRange>>> {
    match spec_datatype(input, pos) {
        None => Err(Fault::Cbor),
        Some(CborType::Null) => match spec_null(input, pos) {
            Ok((_, e)) => Ok((None, e)),
            Err(f) => Err(f),
        },
        Some(_) => match spec_definite_array_len(input, pos) {
            Ok((len, e)) => match parse_chain(input, e, len as nat, as_entry_parser()) {
                Ok((xs, q, _)) => Ok((Some(xs), q)),
                Err(f) => Err(f),
            },
            Err(f) => Err(f),
        },
    }
}

/// The value an AS entry leaves for the next: its number, or its maximum.
pub open spec fn as_last(x: AsIdOrRange) -> int {
    match x {
        AsIdOrRange::Id(v) => v as int,
        AsIdOrRange::Range { max, .. } => max as int,
    }
}

/// The encoding of one AS entry after the value `prev`.
pub open spec fn enc_as_entry(x: AsIdOrRange, prev: int, first: bool) -> Seq<u8> {
    match x {
        AsIdOrRange::Id(v) => int_head(chain_delta(prev, first, v as int)),
        AsIdOrRange::Range { min, max } => head(4, 2) + int_head(chain_delta(prev, first, min as int)) + int_head(
            max - min,
        ),
    }
}

/// The writer of one AS entry.
pub open spec fn as_entry_writer() -> spec_fn(AsIdOrRange, int, bool) -> Seq<u8> {
    |x: AsIdOrRange, prev: int, first: bool| enc_as_entry(x, prev, first)
}

/// The value each AS entry leaves.
pub open spec fn as_last_of() -> spec_fn(AsIdOrRange) -> int {
    |x: AsIdOrRange| as_last(x)
}

/// The encoding of `ASIdentifiers`.
pub open spec fn enc_as_identifiers(v: Option<Seq<AsIdOrRange>>) -> Seq<u8> {
    match v {
        None => seq![0xf6u8],
        Some(xs) => head(4, xs.len() as u64) + enc_chain(xs, as_entry_writer(), as_last_of()),
    }
}

/// Decode one AS entry of a chain that began at `start`.
#[verifier::spinoff_prover]
#[verifier::rlimit(20)]
fn decode_as_entry(
    input: &[u8],
    pos: usize,
    previous: &mut i128,
    first: &mut bool,
    Ghost(start): Ghost<int>,
) -> (r: Result<(AsIdOrRange, usize), Error>)
    requires
        0 <= start <= pos <= input@.len(),
        -chain_bound(pos - start) <= *old(previous) <= chain_bound(pos - start),
    ensures
        match r {
            Ok((x, e)) => {
                &&& spec_as_entry(input@, pos as int, *old(previous) as int, *old(first)) == Ok::<
                    (AsIdOrRange, int, int),
                    Fault,
                >((x, e as int, *final(previous) as int))
                &&& !*final(first)
                &&& pos < e <= input@.len()
                &&& -chain_bound(e - start) <= *final(previous) <= chain_bound(e - start)
            },
            Err(err) => spec_as_entry(input@, pos as int, *old(previous) as int, *old(first)) == Err::<
                (AsIdOrRange, int, int),
                Fault,
            >(err.fault()),
        },
{
    match datatype(input, pos)? {
        CborType::Array | CborType::ArrayIndef => {
            let (n, e) = definite_array_len(input, pos)?;
            if n != 2 {
                return Err(Error::Malformed("AS id range must have 2 elements"));
            }
            let (min_raw, e1) = match cbor_int(input, e) {
                Ok(x) => x,
                Err(err) => return Err(Error::Cbor(err)),
            };
            proof {
                lemma_int_span(input@, e as int);
            }
            let min_abs = next_absolute(previous, first, min_raw);
            let (max_raw, e2) = match cbor_int(input, e1) {
                Ok(x) => x,
                Err(err) => return Err(Error::Cbor(err)),
            };
            proof {
                lemma_int_span(input@, e1 as int);
            }
            let max_abs = next_absolute(previous, first, max_raw);
            if min_abs < 0 || min_abs > 0xffff_ffff_ffff_ffff {
                return Err(Error::Malformed("AS id out of range"));
            }
            if max_abs < 0 || max_abs > 0xffff_ffff_ffff_ffff {
                return Err(Error::Malformed("AS id out of range"));
            }
            Ok((AsIdOrRange::Range { min: min_abs as u64, max: max_abs as u64 }, e2))
        },
        _ => {
            let (raw, e) = match cbor_int(input, pos) {
                Ok(x) => x,
                Err(err) => return Err(Error::Cbor(err)),
            };
            proof {
                lemma_int_span(input@, pos as int);
            }
            let abs = next_absolute(previous, first, raw);
            if abs < 0 || abs > 0xffff_ffff_ffff_ffff {
                return Err(Error::Malformed("AS id out of range"));
            }
            Ok((AsIdOrRange::Id(abs as u64), e))
        },
    }
}

/// Decode a list of AS-number or AS-range entries.
#[verifier::spinoff_prover]
#[verifier::rlimit(20)]
pub fn decode_as_identifiers(input: &[u8], pos: usize) -> (r: Result<(Option<Vec<AsIdOrRange>>, usize), Error>)
    ensures
        outcome(r) == spec_as_identifiers(input@, pos as int),
{
    match datatype(input, pos)? {
        CborType::Null => match cbor_null(input, pos) {
            Ok((_, e)) => Ok((None, e)),
            Err(err) => Err(Error::Cbor(err)),
        },
        _ => {
            let (len, start) = definite_array_len(input, pos)?;
            let mut out: Vec<AsIdOrRange> = Vec::new();
            let mut p = start;
            let mut previous: i128 = 0;
            let mut first = true;
            let mut i: u64 = 0;
            assert(out.deep_view() =~= Seq::<AsIdOrRange>::empty());
            while i < len
                invariant
                    i <= len,
                    start <= p <= input@.len(),
                    spec_definite_array_len(input@, pos as int) == Ok::<(u64, int), Fault>((len, start as int)),
                    spec_datatype(input@, pos as int) is Some,
                    spec_datatype(input@, pos as int) != Some(CborType::Null),
                    parse_chain(input@, start as int, i as nat, as_entry_parser()) == Ok::<
                        (Seq<AsIdOrRange>, int, int),
                        Fault,
                    >((out.deep_view(), p as int, previous as int)),
                    first == (i == 0),
                    -chain_bound(p - start) <= previous <= chain_bound(p - start),
                decreases len - i,
            {
                proof {
                    lemma_parse_chain_next(input@, start as int, i as nat, as_entry_parser(), out.deep_view(), p as int, previous as int);
                }
                let ghost prev0 = previous;
                match decode_as_entry(input, p, &mut previous, &mut first, Ghost(start as int)) {
                    Ok((x, q)) => {
                        let ghost before = out.deep_view();
                        out.push(x);
                        assert(out.deep_view() =~= before.push(x));
                        p = q;
                    },
                    Err(e) => {
                        proof {
                            lemma_parse_chain_stop(input@, start as int, i as nat, len as nat, as_entry_parser(), out.deep_view(), p as int, prev0 as int, e.fault());
                        }
                        return Err(e);
                    },
                }
                i = i + 1;
            }
            Ok((Some(out), p))
        },
    }
}

/// Encode a list of AS-number or AS-range entries.
#[verifier::spinoff_prover]
#[verifier::rlimit(20)]
pub fn encode_as_identifiers(value: &Option<Vec<AsIdOrRange>>, buf: &mut Vec<u8>)
    ensures
        final(buf)@ == old(buf)@ + enc_as_identifiers(value.deep_view()),
{
    match value {
        None => {
            put_null(buf);
            assert(old(buf)@.push(0xf6) =~= old(buf)@ + seq![0xf6u8]);
        },
        Some(ids) => {
            put_array(buf, ids.len() as u64);
            let ghost after = buf@;
            let mut previous: i128 = 0;
            let mut first = true;
            let mut i: usize = 0;
            while i < ids.len()
                invariant
                    i <= ids@.len(),
                    buf@ == after + enc_chain(ids.deep_view().take(i as int), as_entry_writer(), as_last_of()),
                    previous as int == chain_last(ids.deep_view().take(i as int), as_last_of()),
                    first == (i == 0),
                    0 <= previous <= u64::MAX,
                decreases ids@.len() - i,
            {
                let x = ids[i];
                let ghost prev0 = previous as int;
                match x {
                    AsIdOrRange::Id(v) => {
                        let delta = next_delta(&mut previous, &mut first, v as i128);
                        let ok = put_int(buf, delta);
                        assert(ok);
                    },
                    AsIdOrRange::Range { min, max } => {
                        let d1 = next_delta(&mut previous, &mut first, min as i128);
                        let d2 = next_delta(&mut previous, &mut first, max as i128);
                        put_array(buf, 2);
                        let ok1 = put_int(buf, d1);
                        assert(ok1);
                        let ok2 = put_int(buf, d2);
                        assert(ok2);
                    },
                }
                proof {
                    let xs = ids.deep_view();
                    assert(xs[i as int] == x);
                    lemma_enc_chain_push(xs.take(i as int), x, as_entry_writer(), as_last_of());
                    assert(xs.take(i as int).push(x) =~= xs.take(i + 1));
                    assert(enc_as_entry(x, prev0, i == 0) == as_entry_writer()(x, prev0, i == 0));
                }
                i = i + 1;
            }
            assert(ids.deep_view().take(i as int) =~= ids.deep_view());
        },
    }
}

/// One AS entry is read back as written, after any AS number.
proof fn lemma_as_entry(x: AsIdOrRange, prev: int, first: bool)
    requires
        is_as_number(prev),
    ensures
        chain_reads_back(as_entry_parser(), as_entry_writer(), as_last_of(), x, prev, first),
{
    assert forall|input: Seq<u8>, pos: int| #[trigger] matches_at(input, pos, as_entry_writer()(x, prev, first)) implies as_entry_parser()(
        input,
        pos,
        prev,
        first,
    ) == Ok::<(AsIdOrRange, int, int), Fault>(
        (x, pos + as_entry_writer()(x, prev, first).len(), as_last_of()(x)),
    ) by {
        match x {
            AsIdOrRange::Id(v) => {
                lemma_int_head(input, pos, chain_delta(prev, first, v as int));
            },
            AsIdOrRange::Range { min, max } => {
                let h = head(4, 2);
                let i1 = int_head(chain_delta(prev, first, min as int));
                let i2 = int_head(max - min);
                assert(enc_as_entry(x, prev, first) == h + (i1 + i2));
                lemma_matches_split(input, pos, h, i1 + i2);
                lemma_matches_split(input, pos + h.len(), i1, i2);
                lemma_array_head(input, pos, 2);
                lemma_int_head(input, pos + h.len(), chain_delta(prev, first, min as int));
                lemma_int_head(input, pos + h.len() + i1.len(), max - min);
            },
        }
    }
}

/// The value the chain resolves an int `d` to after `prev`: `prev + d`, or
/// `d` itself at the start of the chain.
pub open spec fn resolved_after(prev: int, first: bool, d: int) -> int {
    if first {
        d
    } else {
        prev + d
    }
}

/// Every value of an AS chain is the value before it plus the int read:
/// an AS number `d` resolves to `prev + d`, and a range `[d1, d2]` to
/// `min = prev + d1` and `max = min + d2`; each entry leaves its last
/// value (the number, or the range's max) for the next.
pub proof fn law_as_entry_deltas(input: Seq<u8>, pos: int, prev: int, first: bool, d1: int, d2: int)
    requires
        -0x1_0000_0000_0000_0000 <= d1 <= 0xffff_ffff_ffff_ffff,
        -0x1_0000_0000_0000_0000 <= d2 <= 0xffff_ffff_ffff_ffff,
    ensures
        matches_at(input, pos, int_head(d1)) && is_as_number(resolved_after(prev, first, d1)) ==> spec_as_entry(
            input,
            pos,
            prev,
            first,
        ) == Ok::<(AsIdOrRange, int, int), Fault>(
            (
                AsIdOrRange::Id(resolved_after(prev, first, d1) as u64),
                pos + int_head(d1).len(),
                resolved_after(prev, first, d1),
            ),
        ),
        matches_at(input, pos, head(4, 2) + int_head(d1) + int_head(d2)) && is_as_number(
            resolved_after(prev, first, d1),
        ) && is_as_number(resolved_after(prev, first, d1) + d2) ==> spec_as_entry(input, pos, prev, first)
            == Ok::<(AsIdOrRange, int, int), Fault>(
            (
                AsIdOrRange::Range {
                    min: resolved_after(prev, first, d1) as u64,
                    max: (resolved_after(prev, first, d1) + d2) as u64,
                },
                pos + (head(4, 2) + int_head(d1) + int_head(d2)).len(),
                resolved_after(prev, first, d1) + d2,
            ),
        ),
{
    if matches_at(input, pos, int_head(d1)) {
        lemma_int_head(input, pos, d1);
    }
    let h = head(4, 2);
    let i1 = int_head(d1);
    let i2 = int_head(d2);
    if matches_at(input, pos, h + i1 + i2) {
        assert(h + i1 + i2 == h + (i1 + i2));
        lemma_matches_split(input, pos, h, i1 + i2);
        lemma_matches_split(input, pos + h.len(), i1, i2);
        lemma_array_head(input, pos, 2);
        lemma_int_head(input, pos + h.len(), d1);
        lemma_int_head(input, pos + h.len() + i1.len(), d2);
    }
}

/// `ASIdentifiers` are read back as written.
pub proof fn lemma_as_identifiers(input: Seq<u8>, pos: int, v: Option<Seq<AsIdOrRange>>)
    requires
        v matches Some(xs) ==> xs.len() <= u64::MAX,
        matches_at(input, pos, enc_as_identifiers(v)),
    ensures
        spec_as_identifiers(input, pos) == Ok::<(Option<Seq<AsIdOrRange>>, int), Fault>(
            (v, pos + enc_as_identifiers(v).len()),
        ),
        input[pos] != 0xff,
{
    match v {
        None => {
            assert(input[pos] == input.subrange(pos, pos + 1)[0]);
        },
        Some(xs) => {
            let h = head(4, xs.len() as u64);
            lemma_matches_split(input, pos, h, enc_chain(xs, as_entry_writer(), as_last_of()));
            lemma_array_head(input, pos, xs.len() as u64);
            assert forall|k: int| 0 <= k < xs.len() implies chain_reads_back(
                as_entry_parser(),
                as_entry_writer(),
                as_last_of(),
                #[trigger] xs[k],
                chain_last(xs.take(k), as_last_of()),
                k == 0,
            ) by {
                lemma_as_entry(xs[k], chain_last(xs.take(k), as_last_of()), k == 0);
            }
            lemma_parse_chain_roundtrip(input, pos + h.len(), xs, as_entry_parser(), as_entry_writer(), as_last_of());
        },
    }
}

// ------------------------------------------------------- IPAddrBlocks

/// A `Prefix` or `Range` entry of an address family.
#[derive(Clone, PartialEq, Eq, Debug)]
pub enum IpAddressOrRange {
    /// A CIDR-style address prefix.
    Prefix(IpNet),
    /// An arbitrary (not necessarily prefix-aligned) address range.
    Range { min: IpAddr, max: IpAddr },
}

/// The model of an [`IpAddressOrRange`].
pub enum IpAddressOrRangeModel {
    Prefix(IpNetModel),
    Range { min: Seq<u8>, max: Seq<u8> },
}

impl DeepView for IpAddressOrRange {
    type V = IpAddressOrRangeModel;

    open spec fn deep_view(&self) -> IpAddressOrRangeModel {
        match self {
            IpAddressOrRange::Prefix(n) => IpAddressOrRangeModel::Prefix(n@),
            IpAddressOrRange::Range { min, max } => IpAddressOrRangeModel::Range { min: min@, max: max@ },
        }
    }
}

/// The choice of address form (prefixes or ranges) for a given address family.
#[derive(Clone, PartialEq, Eq, Debug)]
pub enum IpAddressChoice {
    /// `inherit` — this address family is inherited from the issuer.
    Inherit,
    /// A list of address prefixes.
    Prefixes(Vec<IpAddressOrRange>),
}

/// The model of an [`IpAddressChoice`].
pub enum IpAddressChoiceModel {
    Inherit,
    Prefixes(Seq<IpAddressOrRangeModel>),
}

impl DeepView for IpAddressChoice {
    type V = IpAddressChoiceModel;

    open spec fn deep_view(&self) -> IpAddressChoiceModel {
        match self {
            IpAddressChoice::Inherit => IpAddressChoiceModel::Inherit,
            IpAddressChoice::Prefixes(v) => IpAddressChoiceModel::Prefixes(v.deep_view()),
        }
    }
}

/// A family of addresses, identified by its Address Family Identifier (AFI)
#[derive(Clone, PartialEq, Eq, Debug)]
pub struct IpAddressFamily {
    /// The Address Family Identifier (AFI).
    pub afi: u16,
    /// The Sub-Address Family Identifier (SAFI).
    pub safi: Option<u16>,
    /// The choice of address form (prefixes or ranges).
    pub choice: IpAddressChoice,
}

/// The model of an [`IpAddressFamily`].
pub struct IpAddressFamilyModel {
    pub afi: u16,
    pub safi: Option<u16>,
    pub choice: IpAddressChoiceModel,
}

impl DeepView for IpAddressFamily {
    type V = IpAddressFamilyModel;

    open spec fn deep_view(&self) -> IpAddressFamilyModel {
        IpAddressFamilyModel { afi: self.afi, safi: self.safi, choice: self.choice.deep_view() }
    }
}

/// The classes of a CBOR integer.
pub open spec fn is_numeric(t: CborType) -> bool {
    t is Unsigned || t is Signed
}

/// Whether a family's entries are CBOR ints (else byte strings), judged by
/// its first entry: a number, or a range whose first element is one.
pub open spec fn spec_int_form(input: Seq<u8>, pos: int) -> Result<bool, Fault> {
    match spec_datatype(input, pos) {
        None => Err(Fault::Cbor),
        Some(t) => if is_array_type(t) {
            match spec_definite_array_len(input, pos) {
                Ok((_, e)) => match spec_datatype(input, e) {
                    None => Err(Fault::Cbor),
                    Some(t2) => Ok(is_numeric(t2)),
                },
                Err(f) => Err(f),
            }
        } else {
            Ok(is_numeric(t))
        },
    }
}

/// Decoding one entry of the int form, after the value `prev`: a prefix is
/// one chained int, a range `[ min, max ]` two.
pub open spec fn spec_int_entry(input: Seq<u8>, pos: int, afi: u16, prev: int, first: bool) -> Result<(IpAddressOrRangeModel, int, int), Fault> {
    match spec_datatype(input, pos) {
        None => Err(Fault::Cbor),
        Some(t) => if is_array_type(t) {
            match spec_definite_array_len(input, pos) {
                Ok((n, e)) => if n != 2 {
                    Err(Fault::Malformed("IntAddressRange must have 2 elements"))
                } else {
                    match spec_int(input, e) {
                        Ok((r1, e1)) => match spec_int(input, e1) {
                            Ok((r2, e2)) => {
                                let a1 = chain_absolute(prev, first, r1 as int);
                                let a2 = a1 + r2;
                                match spec_framed(a1) {
                                    Ok((b1, _)) => match spec_framed(a2) {
                                        Ok((b2, _)) => match spec_build_addr(afi, b1, 0x00) {
                                            Ok(m1) => match spec_build_addr(afi, b2, 0xff) {
                                                Ok(m2) => Ok((IpAddressOrRangeModel::Range { min: m1, max: m2 }, e2, a2)),
                                                Err(f) => Err(f),
                                            },
                                            Err(f) => Err(f),
                                        },
                                        Err(f) => Err(f),
                                    },
                                    Err(f) => Err(f),
                                }
                            },
                            Err(f) => Err(f),
                        },
                        Err(f) => Err(f),
                    }
                },
                Err(f) => Err(f),
            }
        } else {
            match spec_int(input, pos) {
                Ok((r, e)) => {
                    let a = chain_absolute(prev, first, r as int);
                    match spec_framed(a) {
                        Ok((b, u)) => match spec_build_prefix(afi, b, u) {
                            Ok(n) => Ok((IpAddressOrRangeModel::Prefix(n), e, a)),
                            Err(f) => Err(f),
                        },
                        Err(f) => Err(f),
                    }
                },
                Err(f) => Err(f),
            }
        },
    }
}

/// Every value of an int-form address chain is the value before it plus
/// the int read: a prefix `d` resolves to `prev + d`, and a range
/// `[d1, d2]` has its minimum at `prev + d1` and its maximum at that plus
/// `d2`; the entry leaves the value it ends at for the next, and a range's
/// bounds are the addresses those two values frame.
pub proof fn law_ip_int_entry_deltas(input: Seq<u8>, pos: int, afi: u16, prev: int, first: bool, d1: int, d2: int)
    requires
        -0x1_0000_0000_0000_0000 <= d1 <= 0xffff_ffff_ffff_ffff,
        -0x1_0000_0000_0000_0000 <= d2 <= 0xffff_ffff_ffff_ffff,
    ensures
        matches_at(input, pos, int_head(d1)) ==> (spec_int_entry(input, pos, afi, prev, first) matches Ok((x, e, last))
            ==> x is Prefix && e == pos + int_head(d1).len() && last == resolved_after(prev, first, d1)),
        matches_at(input, pos, head(4, 2) + int_head(d1) + int_head(d2)) ==> (spec_int_entry(input, pos, afi, prev, first)
            matches Ok((x, e, last)) ==> {
            &&& e == pos + (head(4, 2) + int_head(d1) + int_head(d2)).len()
            &&& last == resolved_after(prev, first, d1) + d2
            &&& x matches IpAddressOrRangeModel::Range { min, max }
            &&& spec_framed(resolved_after(prev, first, d1)) matches Ok((b1, _))
            &&& spec_build_addr(afi, b1, 0x00) == Ok::<Seq<u8>, Fault>(min)
            &&& spec_framed(last) matches Ok((b2, _))
            &&& spec_build_addr(afi, b2, 0xff) == Ok::<Seq<u8>, Fault>(max)
        }),
{
    if matches_at(input, pos, int_head(d1)) {
        lemma_int_head(input, pos, d1);
    }
    let h = head(4, 2);
    let i1 = int_head(d1);
    let i2 = int_head(d2);
    if matches_at(input, pos, h + i1 + i2) {
        assert(h + i1 + i2 == h + (i1 + i2));
        lemma_matches_split(input, pos, h, i1 + i2);
        lemma_matches_split(input, pos + h.len(), i1, i2);
        lemma_array_head(input, pos, 2);
        lemma_int_head(input, pos + h.len(), d1);
        lemma_int_head(input, pos + h.len() + i1.len(), d2);
    }
}

/// The reader of one int-form entry of family `afi`.
pub open spec fn int_entry_parser(afi: u16) -> spec_fn(Seq<u8>, int, int, bool) -> Result<(IpAddressOrRangeModel, int, int), Fault> {
    |i: Seq<u8>, p: int, prev: int, first: bool| spec_int_entry(i, p, afi, prev, first)
}

/// Decoding one entry of the byte-string form: `unusedBits || value` for a
/// prefix, `[ min, max ]` of such strings (their `unusedBits` unread) for a
/// range.
pub open spec fn spec_bytes_entry(input: Seq<u8>, pos: int, afi: u16) -> Parsed<IpAddressOrRangeModel> {
    match spec_datatype(input, pos) {
        None => Err(Fault::Cbor),
        Some(t) => if is_array_type(t) {
            match spec_definite_array_len(input, pos) {
                Ok((n, e)) => if n != 2 {
                    Err(Fault::Malformed("AddressRange must have 2 elements"))
                } else {
                    match spec_bytes(input, e) {
                        Ok((m1, e1)) => if m1.len() == 0 {
                            Err(Fault::Malformed("empty RFC 3779 address byte string"))
                        } else {
                            match spec_build_addr(afi, m1.drop_first(), 0x00) {
                                Ok(a1) => match spec_bytes(input, e1) {
                                    Ok((m2, e2)) => if m2.len() == 0 {
                                        Err(Fault::Malformed("empty RFC 3779 address byte string"))
                                    } else {
                                        match spec_build_addr(afi, m2.drop_first(), 0xff) {
                                            Ok(a2) => Ok((IpAddressOrRangeModel::Range { min: a1, max: a2 }, e2)),
                                            Err(f) => Err(f),
                                        }
                                    },
                                    Err(f) => Err(f),
                                },
                                Err(f) => Err(f),
                            }
                        },
                        Err(f) => Err(f),
                    }
                },
                Err(f) => Err(f),
            }
        } else {
            match spec_bytes(input, pos) {
                Ok((raw, e)) => if raw.len() == 0 {
                    Err(Fault::Malformed("empty RFC 3779 address byte string"))
                } else {
                    match spec_build_prefix(afi, raw.drop_first(), raw[0]) {
                        Ok(n) => Ok((IpAddressOrRangeModel::Prefix(n), e)),
                        Err(f) => Err(f),
                    }
                },
                Err(f) => Err(f),
            }
        },
    }
}

/// The reader of one byte-string-form entry of family `afi`.
pub open spec fn bytes_entry_parser(afi: u16) -> spec_fn(Seq<u8>, int) -> Parsed<IpAddressOrRangeModel> {
    |i: Seq<u8>, p: int| spec_bytes_entry(i, p, afi)
}

/// Decoding the choice of family `afi`: `null` for inherit, or an array of
/// entries, all in the form its first entry shows.
pub open spec fn spec_ip_choice(input: Seq<u8>, pos: int, afi: u16) -> Parsed<IpAddressChoiceModel> {
    match spec_datatype(input, pos) {
        None => Err(Fault::Cbor),
        Some(CborType::Null) => match spec_null(input, pos) {
            Ok((_, e)) => Ok((IpAddressChoiceModel::Inherit, e)),
            Err(f) => Err(f),
        },
        Some(_) => match spec_definite_array_len(input, pos) {
            Ok((len, e)) => if len == 0 {
                Ok((IpAddressChoiceModel::Prefixes(Seq::empty()), e))
            } else {
                match spec_int_form(input, e) {
                    Ok(true) => match parse_chain(input, e, len as nat, int_entry_parser(afi)) {
                        Ok((xs, q, _)) => Ok((IpAddressChoiceModel::Prefixes(xs), q)),
                        Err(f) => Err(f),
                    },
                    Ok(false) => match parse_n(input, e, len as nat, bytes_entry_parser(afi)) {
                        Ok((xs, q)) => Ok((IpAddressChoiceModel::Prefixes(xs), q)),
                        Err(f) => Err(f),
                    },
                    Err(f) => Err(f),
                }
            },
            Err(f) => Err(f),
        },
    }
}

/// Decoding one family: its AFI, its SAFI or `null`, then its choice.
pub open spec fn spec_ip_family(input: Seq<u8>, pos: int) -> Parsed<IpAddressFamilyModel> {
    match spec_u16(input, pos) {
        Ok((afi, e)) => {
            let safi: Parsed<Option<u16>> = match spec_datatype(input, e) {
                None => Err(Fault::Cbor),
                Some(CborType::Null) => match spec_null(input, e) {
                    Ok((_, e2)) => Ok((None, e2)),
                    Err(f) => Err(f),
                },
                Some(_) => match spec_u16(input, e) {
                    Ok((s, e2)) => Ok((Some(s), e2)),
                    Err(f) => Err(f),
                },
            };
            match safi {
                Ok((safi, e2)) => match spec_ip_choice(input, e2, afi) {
                    Ok((c, e3)) => Ok((IpAddressFamilyModel { afi, safi, choice: c }, e3)),
                    Err(f) => Err(f),
                },
                Err(f) => Err(f),
            }
        },
        Err(f) => Err(f),
    }
}

/// The reader of one family.
pub open spec fn ip_family_parser() -> spec_fn(Seq<u8>, int) -> Parsed<IpAddressFamilyModel> {
    |i: Seq<u8>, p: int| spec_ip_family(i, p)
}

/// Decoding `IPAddrBlocks`: `3 * n` items hold `n` families.
pub open spec fn spec_ip_families(input: Seq<u8>, pos: int) -> Parsed<Seq<IpAddressFamilyModel>> {
    match spec_definite_array_len(input, pos) {
        Ok((len, e)) => if len % 3 != 0 {
            Err(Fault::Malformed("IPAddrBlocks array length must be a multiple of 3"))
        } else {
            parse_n(input, e, (len / 3) as nat, ip_family_parser())
        },
        Err(f) => Err(f),
    }
}

/// The integer a prefix is coded as in the int form.
pub open spec fn prefix_abs(n: IpNetModel) -> int {
    be_value(seq![(framed_prefix(n).1 + 1) as u8] + framed_prefix(n).0) as int
}

/// The integer a range bound's significant octets are coded as in the int
/// form (`unusedBits` 0).
pub open spec fn bound_abs(significant: Seq<u8>) -> int {
    be_value(seq![1u8] + significant) as int
}

/// The int form's value left by an entry: a prefix's, or a range's maximum.
pub open spec fn ip_last(x: IpAddressOrRangeModel) -> int {
    match x {
        IpAddressOrRangeModel::Prefix(n) => prefix_abs(n),
        IpAddressOrRangeModel::Range { max, .. } => bound_abs(trim_trailing(max, 0xff)),
    }
}

/// The value each entry leaves.
pub open spec fn ip_last_of() -> spec_fn(IpAddressOrRangeModel) -> int {
    |x: IpAddressOrRangeModel| ip_last(x)
}

/// An entry whose framed octets fit the int form.
pub open spec fn fits_int_form(x: IpAddressOrRangeModel) -> bool {
    match x {
        IpAddressOrRangeModel::Prefix(n) => framed_prefix(n).0.len() < MAX_INT_FORM_BYTES,
        IpAddressOrRangeModel::Range { min, max } => trim_trailing(min, 0x00).len() < MAX_INT_FORM_BYTES
            && trim_trailing(max, 0xff).len() < MAX_INT_FORM_BYTES,
    }
}

/// A family is written in the int form when all its entries fit it.
pub open spec fn use_int_form(xs: Seq<IpAddressOrRangeModel>) -> bool {
    forall|k: int| 0 <= k < xs.len() ==> fits_int_form(#[trigger] xs[k])
}

/// The encoding of one int-form entry after the value `prev`.
pub open spec fn enc_int_entry(x: IpAddressOrRangeModel, prev: int, first: bool) -> Seq<u8> {
    match x {
        IpAddressOrRangeModel::Prefix(n) => int_head(chain_delta(prev, first, prefix_abs(n))),
        IpAddressOrRangeModel::Range { min, max } => {
            let a1 = bound_abs(trim_trailing(min, 0x00));
            let a2 = bound_abs(trim_trailing(max, 0xff));
            head(4, 2) + int_head(chain_delta(prev, first, a1)) + int_head(a2 - a1)
        },
    }
}

/// The writer of one int-form entry.
pub open spec fn int_entry_writer() -> spec_fn(IpAddressOrRangeModel, int, bool) -> Seq<u8> {
    |x: IpAddressOrRangeModel, prev: int, first: bool| enc_int_entry(x, prev, first)
}

/// The encoding of one byte-string-form entry.
pub open spec fn enc_bytes_entry(x: IpAddressOrRangeModel) -> Seq<u8> {
    match x {
        IpAddressOrRangeModel::Prefix(n) => bstr(seq![framed_prefix(n).1] + framed_prefix(n).0),
        IpAddressOrRangeModel::Range { min, max } => head(4, 2) + bstr(seq![0u8] + trim_trailing(min, 0x00))
            + bstr(seq![0u8] + trim_trailing(max, 0xff)),
    }
}

/// The writer of one byte-string-form entry.
pub open spec fn bytes_entry_writer() -> spec_fn(IpAddressOrRangeModel) -> Seq<u8> {
    |x: IpAddressOrRangeModel| enc_bytes_entry(x)
}

/// The encoding of a family's choice.
pub open spec fn enc_ip_choice(c: IpAddressChoiceModel) -> Seq<u8> {
    match c {
        IpAddressChoiceModel::Inherit => seq![0xf6u8],
        IpAddressChoiceModel::Prefixes(xs) => head(4, xs.len() as u64) + if use_int_form(xs) {
            enc_chain(xs, int_entry_writer(), ip_last_of())
        } else {
            enc_all(xs, bytes_entry_writer())
        },
    }
}

/// The encoding of one family.
pub open spec fn enc_ip_family(f: IpAddressFamilyModel) -> Seq<u8> {
    head(0, f.afi as u64) + match f.safi {
        Some(s) => head(0, s as u64),
        None => seq![0xf6u8],
    } + enc_ip_choice(f.choice)
}

/// The writer of one family.
pub open spec fn ip_family_writer() -> spec_fn(IpAddressFamilyModel) -> Seq<u8> {
    |f: IpAddressFamilyModel| enc_ip_family(f)
}

/// The encoding of `IPAddrBlocks`.
pub open spec fn enc_ip_families(fs: Seq<IpAddressFamilyModel>) -> Seq<u8> {
    head(4, (fs.len() * 3) as u64) + enc_all(fs, ip_family_writer())
}

/// `IPAddrBlocks` that can be written: the item count fits the header.
pub open spec fn ip_families_fit(fs: Seq<IpAddressFamilyModel>) -> bool {
    fs.len() * 3 <= u64::MAX
}

/// Whether a family's entries are ints: look at its first entry without
/// consuming it.
fn int_form(input: &[u8], pos: usize) -> (r: Result<bool, Error>)
    ensures
        match r {
            Ok(b) => spec_int_form(input@, pos as int) == Ok::<bool, Fault>(b),
            Err(e) => spec_int_form(input@, pos as int) == Err::<bool, Fault>(e.fault()),
        },
{
    match datatype(input, pos)? {
        CborType::Array | CborType::ArrayIndef => {
            let (_, e) = definite_array_len(input, pos)?;
            let t = datatype(input, e)?;
            Ok(matches!(t, CborType::Unsigned | CborType::Signed))
        },
        t => Ok(matches!(t, CborType::Unsigned | CborType::Signed)),
    }
}

/// Read a byte string, mapping the error.
fn read_bytes(input: &[u8], pos: usize) -> (r: Result<(Vec<u8>, usize), Error>)
    ensures
        match r {
            Ok((b, e)) => spec_bytes(input@, pos as int) == Ok::<(Seq<u8>, int), Fault>((b@, e as int)),
            Err(err) => spec_bytes(input@, pos as int) == Err::<(Seq<u8>, int), Fault>(err.fault()),
        },
{
    match cbor_bytes(input, pos) {
        Ok(x) => Ok(x),
        Err(err) => Err(Error::Cbor(err)),
    }
}

/// Read an int, mapping the error.
fn read_int(input: &[u8], pos: usize) -> (r: Result<(i128, usize), Error>)
    ensures
        match r {
            Ok((v, e)) => {
                &&& spec_int(input@, pos as int) == Ok::<(i128, int), Fault>((v, e as int))
                &&& pos < e <= input@.len()
                &&& -chain_bound(e - pos) <= v <= chain_bound(e - pos)
            },
            Err(err) => spec_int(input@, pos as int) == Err::<(i128, int), Fault>(err.fault()),
        },
{
    match cbor_int(input, pos) {
        Ok(x) => {
            proof {
                lemma_int_span(input@, pos as int);
            }
            Ok(x)
        },
        Err(err) => Err(Error::Cbor(err)),
    }
}

/// Decode one int-form entry of a chain that began at `start`.
fn decode_int_entry(
    input: &[u8],
    pos: usize,
    afi: u16,
    previous: &mut i128,
    first: &mut bool,
    Ghost(start): Ghost<int>,
) -> (r: Result<(IpAddressOrRange, usize), Error>)
    requires
        0 <= start <= pos <= input@.len(),
        -chain_bound(pos - start) <= *old(previous) <= chain_bound(pos - start),
    ensures
        match r {
            Ok((x, e)) => {
                &&& spec_int_entry(input@, pos as int, afi, *old(previous) as int, *old(first)) == Ok::<
                    (IpAddressOrRangeModel, int, int),
                    Fault,
                >((x.deep_view(), e as int, *final(previous) as int))
                &&& !*final(first)
                &&& pos < e <= input@.len()
                &&& -chain_bound(e - start) <= *final(previous) <= chain_bound(e - start)
            },
            Err(err) => spec_int_entry(input@, pos as int, afi, *old(previous) as int, *old(first)) == Err::<
                (IpAddressOrRangeModel, int, int),
                Fault,
            >(err.fault()),
        },
{
    match datatype(input, pos)? {
        CborType::Array | CborType::ArrayIndef => {
            let (n, e) = definite_array_len(input, pos)?;
            if n != 2 {
                return Err(Error::Malformed("IntAddressRange must have 2 elements"));
            }
            let (min_raw, e1) = read_int(input, e)?;
            let min_abs = next_absolute(previous, first, min_raw);
            let (max_raw, e2) = read_int(input, e1)?;
            let max_abs = next_absolute(previous, first, max_raw);
            let (min_bytes, _) = framed_from_absolute_int(min_abs)?;
            let (max_bytes, _) = framed_from_absolute_int(max_abs)?;
            let min = build_addr(afi, min_bytes.as_slice(), 0x00)?;
            let max = build_addr(afi, max_bytes.as_slice(), 0xff)?;
            Ok((IpAddressOrRange::Range { min, max }, e2))
        },
        _ => {
            let (raw, e) = read_int(input, pos)?;
            let abs = next_absolute(previous, first, raw);
            let (bytes, unused_bits) = framed_from_absolute_int(abs)?;
            let net = build_prefix(afi, bytes.as_slice(), unused_bits)?;
            Ok((IpAddressOrRange::Prefix(net), e))
        },
    }
}

/// Decode one byte-string-form entry.
fn decode_bytes_entry(input: &[u8], pos: usize, afi: u16) -> (r: Result<(IpAddressOrRange, usize), Error>)
    ensures
        outcome(r) == spec_bytes_entry(input@, pos as int, afi),
{
    match datatype(input, pos)? {
        CborType::Array | CborType::ArrayIndef => {
            let (n, e) = definite_array_len(input, pos)?;
            if n != 2 {
                return Err(Error::Malformed("AddressRange must have 2 elements"));
            }
            let (min_raw, e1) = read_bytes(input, e)?;
            if min_raw.len() == 0 {
                return Err(Error::Malformed("empty RFC 3779 address byte string"));
            }
            let min_sig = vstd::slice::slice_subrange(min_raw.as_slice(), 1, min_raw.len());
            assert(min_sig@ =~= min_raw@.drop_first());
            let min = build_addr(afi, min_sig, 0x00)?;
            let (max_raw, e2) = read_bytes(input, e1)?;
            if max_raw.len() == 0 {
                return Err(Error::Malformed("empty RFC 3779 address byte string"));
            }
            let max_sig = vstd::slice::slice_subrange(max_raw.as_slice(), 1, max_raw.len());
            assert(max_sig@ =~= max_raw@.drop_first());
            let max = build_addr(afi, max_sig, 0xff)?;
            Ok((IpAddressOrRange::Range { min, max }, e2))
        },
        _ => {
            let (raw, e) = read_bytes(input, pos)?;
            if raw.len() == 0 {
                return Err(Error::Malformed("empty RFC 3779 address byte string"));
            }
            let sig = vstd::slice::slice_subrange(raw.as_slice(), 1, raw.len());
            assert(sig@ =~= raw@.drop_first());
            let net = build_prefix(afi, sig, raw[0])?;
            Ok((IpAddressOrRange::Prefix(net), e))
        },
    }
}

/// A chain's entries and end, without the value it leaves.
pub open spec fn chain_entries<A>(c: Result<(Seq<A>, int, int), Fault>) -> Parsed<Seq<A>> {
    match c {
        Ok((xs, q, _)) => Ok((xs, q)),
        Err(f) => Err(f),
    }
}

/// Decode `len` int-form entries, a delta chain starting at `start`.
fn decode_int_entries(input: &[u8], start: usize, len: u64, afi: u16) -> (r: Result<(Vec<IpAddressOrRange>, usize), Error>)
    requires
        start <= input@.len(),
    ensures
        outcome(r) == chain_entries(parse_chain(input@, start as int, len as nat, int_entry_parser(afi))),
{
    let mut entries: Vec<IpAddressOrRange> = Vec::new();
    let mut p = start;
    let mut previous: i128 = 0;
    let mut first = true;
    let mut i: u64 = 0;
    assert(entries.deep_view() =~= Seq::<IpAddressOrRangeModel>::empty());
    while i < len
        invariant
            i <= len,
            start <= p <= input@.len(),
            parse_chain(input@, start as int, i as nat, int_entry_parser(afi)) == Ok::<
                (Seq<IpAddressOrRangeModel>, int, int),
                Fault,
            >((entries.deep_view(), p as int, previous as int)),
            first == (i == 0),
            -chain_bound(p - start) <= previous <= chain_bound(p - start),
        decreases len - i,
    {
        proof {
            lemma_parse_chain_next(input@, start as int, i as nat, int_entry_parser(afi), entries.deep_view(), p as int, previous as int);
        }
        let ghost prev0 = previous;
        match decode_int_entry(input, p, afi, &mut previous, &mut first, Ghost(start as int)) {
            Ok((x, q)) => {
                let ghost before = entries.deep_view();
                entries.push(x);
                assert(entries.deep_view() =~= before.push(x.deep_view()));
                p = q;
            },
            Err(e) => {
                proof {
                    lemma_parse_chain_stop(input@, start as int, i as nat, len as nat, int_entry_parser(afi), entries.deep_view(), p as int, prev0 as int, e.fault());
                }
                return Err(e);
            },
        }
        i = i + 1;
    }
    Ok((entries, p))
}

/// Decode `len` byte-string-form entries starting at `start`.
fn decode_bytes_entries(input: &[u8], start: usize, len: u64, afi: u16) -> (r: Result<(Vec<IpAddressOrRange>, usize), Error>)
    ensures
        outcome(r) == parse_n(input@, start as int, len as nat, bytes_entry_parser(afi)),
{
    let mut entries: Vec<IpAddressOrRange> = Vec::new();
    let mut p = start;
    let mut i: u64 = 0;
    assert(entries.deep_view() =~= Seq::<IpAddressOrRangeModel>::empty());
    while i < len
        invariant
            i <= len,
            parse_n(input@, start as int, i as nat, bytes_entry_parser(afi)) == Ok::<
                (Seq<IpAddressOrRangeModel>, int),
                Fault,
            >((entries.deep_view(), p as int)),
        decreases len - i,
    {
        proof {
            lemma_parse_n_next(input@, start as int, i as nat, bytes_entry_parser(afi), entries.deep_view(), p as int);
        }
        match decode_bytes_entry(input, p, afi) {
            Ok((x, q)) => {
                let ghost before = entries.deep_view();
                entries.push(x);
                assert(entries.deep_view() =~= before.push(x.deep_view()));
                p = q;
            },
            Err(e) => {
                proof {
                    lemma_parse_n_stop(input@, start as int, i as nat, len as nat, bytes_entry_parser(afi), entries.deep_view(), p as int, e.fault());
                }
                return Err(e);
            },
        }
        i = i + 1;
    }
    Ok((entries, p))
}

/// Decode a choice of address form (prefixes or ranges) for a given address
/// family.
#[verifier::spinoff_prover]
#[verifier::rlimit(30)]
fn decode_ip_address_choice(afi: u16, input: &[u8], pos: usize) -> (r: Result<(IpAddressChoice, usize), Error>)
    ensures
        outcome(r) == spec_ip_choice(input@, pos as int, afi),
{
    if let CborType::Null = datatype(input, pos)? {
        return match cbor_null(input, pos) {
            Ok((_, e)) => Ok((IpAddressChoice::Inherit, e)),
            Err(err) => Err(Error::Cbor(err)),
        };
    }
    let (len, start) = definite_array_len(input, pos)?;
    if len == 0 {
        let empty: Vec<IpAddressOrRange> = Vec::new();
        assert(empty.deep_view() =~= Seq::<IpAddressOrRangeModel>::empty());
        return Ok((IpAddressChoice::Prefixes(empty), start));
    }
    let entries = if int_form(input, start)? {
        decode_int_entries(input, start, len, afi)?
    } else {
        decode_bytes_entries(input, start, len, afi)?
    };
    Ok((IpAddressChoice::Prefixes(entries.0), entries.1))
}

/// Decode one family.
fn decode_ip_address_family(input: &[u8], pos: usize) -> (r: Result<(IpAddressFamily, usize), Error>)
    ensures
        outcome(r) == spec_ip_family(input@, pos as int),
{
    let (afi, e) = match cbor_u16(input, pos) {
        Ok(x) => x,
        Err(err) => return Err(Error::Cbor(err)),
    };
    let (safi, e2) = match datatype(input, e)? {
        CborType::Null => match cbor_null(input, e) {
            Ok((_, e2)) => (None, e2),
            Err(err) => return Err(Error::Cbor(err)),
        },
        _ => match cbor_u16(input, e) {
            Ok((s, e2)) => (Some(s), e2),
            Err(err) => return Err(Error::Cbor(err)),
        },
    };
    let (choice, e3) = decode_ip_address_choice(afi, input, e2)?;
    Ok((IpAddressFamily { afi, safi, choice }, e3))
}

/// Decode a list of IP address families.
pub fn decode_ip_address_families(input: &[u8], pos: usize) -> (r: Result<(Vec<IpAddressFamily>, usize), Error>)
    ensures
        outcome(r) == spec_ip_families(input@, pos as int),
{
    let (len, start) = definite_array_len(input, pos)?;
    if len % 3 != 0 {
        return Err(Error::Malformed("IPAddrBlocks array length must be a multiple of 3"));
    }
    let n = len / 3;
    let mut out: Vec<IpAddressFamily> = Vec::new();
    let mut p = start;
    let mut i: u64 = 0;
    assert(out.deep_view() =~= Seq::<IpAddressFamilyModel>::empty());
    while i < n
        invariant
            i <= n,
            spec_ip_families(input@, pos as int) == parse_n(input@, start as int, n as nat, ip_family_parser()),
            parse_n(input@, start as int, i as nat, ip_family_parser()) == Ok::<(Seq<IpAddressFamilyModel>, int), Fault>(
                (out.deep_view(), p as int),
            ),
        decreases n - i,
    {
        proof {
            lemma_parse_n_next(input@, start as int, i as nat, ip_family_parser(), out.deep_view(), p as int);
        }
        match decode_ip_address_family(input, p) {
            Ok((f, q)) => {
                let ghost before = out.deep_view();
                out.push(f);
                assert(out.deep_view() =~= before.push(f.deep_view()));
                p = q;
            },
            Err(e) => {
                proof {
                    lemma_parse_n_stop(input@, start as int, i as nat, n as nat, ip_family_parser(), out.deep_view(), p as int, e.fault());
                }
                return Err(e);
            },
        }
        i = i + 1;
    }
    Ok((out, p))
}

/// A `Prefix` or `Range` entry, reduced to plain `(significant bytes,
/// unusedBits)` pairs ready for either the delta-coded int form or the raw
/// bytes form.
enum ResolvedEntry {
    Prefix { bytes: Vec<u8>, unused_bits: u8 },
    Range { min_bytes: Vec<u8>, max_bytes: Vec<u8> },
}

/// `r` holds the framed octets of entry `x`.
spec fn resolves(r: ResolvedEntry, x: IpAddressOrRangeModel) -> bool {
    match x {
        IpAddressOrRangeModel::Prefix(n) => match r {
            ResolvedEntry::Prefix { bytes, unused_bits } => (bytes@, unused_bits) == framed_prefix(n)
                && unused_bits <= 7 && bytes@.len() <= 16,
            _ => false,
        },
        IpAddressOrRangeModel::Range { min, max } => match r {
            ResolvedEntry::Range { min_bytes, max_bytes } => min_bytes@ == trim_trailing(min, 0x00)
                && max_bytes@ == trim_trailing(max, 0xff) && min_bytes@.len() <= 16 && max_bytes@.len() <= 16,
            _ => false,
        },
    }
}

/// The `unusedBits` of a prefix are fewer than eight, and its significant
/// octets are those it touches.
proof fn lemma_framed_prefix(n: IpNetModel)
    requires
        n.prefix_len as nat <= 8 * n.addr.len(),
    ensures
        framed_prefix(n).1 <= 7,
        framed_prefix(n).0.len() == significant_len(n.prefix_len),
        significant_len(n.prefix_len) <= n.addr.len(),
        significant_len(n.prefix_len) * 8 == n.prefix_len + framed_prefix(n).1,
{
    let pl = n.prefix_len as nat;
    let sl = significant_len(n.prefix_len);
    assert(sl * 8 <= pl + 7 && pl <= sl * 8) by (nonlinear_arith)
        requires
            sl == (pl + 7) / 8,
    ;
    assert(sl <= n.addr.len()) by (nonlinear_arith)
        requires
            sl == (pl + 7) / 8,
            pl <= 8 * n.addr.len(),
    ;
}

/// Reduce an entry to its framed octets.
fn resolve(entry: &IpAddressOrRange) -> (r: ResolvedEntry)
    ensures
        resolves(r, entry.deep_view()),
{
    match entry {
        IpAddressOrRange::Prefix(net) => {
            let (bytes, unused_bits) = prefix_to_framed(net);
            let ghost m = net@;
            proof {
                use_type_invariant(net);
                use_type_invariant(&net.addr);
                lemma_framed_prefix(m);
            }
            ResolvedEntry::Prefix { bytes, unused_bits }
        },
        IpAddressOrRange::Range { min, max } => ResolvedEntry::Range {
            min_bytes: addr_to_framed_trimmed(min, 0x00),
            max_bytes: addr_to_framed_trimmed(max, 0xff),
        },
    }
}

/// `first || rest`.
fn prefixed(first: u8, rest: &[u8]) -> (r: Vec<u8>)
    ensures
        r@ == seq![first] + rest@,
{
    let mut out: Vec<u8> = Vec::new();
    out.push(first);
    let mut i: usize = 0;
    while i < rest.len()
        invariant
            i <= rest@.len(),
            out@ == seq![first] + rest@.take(i as int),
        decreases rest@.len() - i,
    {
        out.push(rest[i]);
        i = i + 1;
        assert(out@ =~= seq![first] + rest@.take(i as int));
    }
    assert(rest@.take(i as int) =~= rest@);
    out
}

/// The int form's value of a framed entry is a positive integer below
/// `2^64`.
proof fn lemma_ip_last_range(x: IpAddressOrRangeModel)
    requires
        fits_int_form(x),
    ensures
        0 < ip_last(x) < 0x1_0000_0000_0000_0000,
        x matches IpAddressOrRangeModel::Range { min, .. } ==> 0 < bound_abs(trim_trailing(min, 0x00))
            < 0x1_0000_0000_0000_0000,
{
    lemma_pow256_upto8();
    match x {
        IpAddressOrRangeModel::Prefix(n) => {
            let f = framed_prefix(n);
            law_framed_int_roundtrip_bound(f.0, (f.1 + 1) as u8);
        },
        IpAddressOrRangeModel::Range { min, max } => {
            law_framed_int_roundtrip_bound(trim_trailing(min, 0x00), 1);
            law_framed_int_roundtrip_bound(trim_trailing(max, 0xff), 1);
        },
    }
}

/// A value framed behind a nonzero octet, in at most eight octets, is a
/// positive integer below `2^64`.
proof fn law_framed_int_roundtrip_bound(significant: Seq<u8>, lead: u8)
    requires
        significant.len() < MAX_INT_FORM_BYTES,
        lead != 0,
    ensures
        0 < be_value(seq![lead] + significant) < 0x1_0000_0000_0000_0000,
{
    let s = seq![lead] + significant;
    lemma_be_value_bound(s);
    lemma_pow256_upto8();
    lemma_be_min_of_value(s);
    lemma_be_min(be_value(s));
    if s.len() < 8 {
        assert(crate::cbor::pow256(s.len()) <= 0x1_0000_0000_0000_00);
    }
}

/// Encode the int form of a family's entries: a delta chain.
#[verifier::spinoff_prover]
#[verifier::rlimit(20)]
fn encode_int_entries(entries: &Vec<IpAddressOrRange>, resolved: &Vec<ResolvedEntry>, buf: &mut Vec<u8>)
    requires
        resolved@.len() == entries@.len(),
        forall|k: int| 0 <= k < resolved@.len() ==> resolves(#[trigger] resolved@[k], entries.deep_view()[k]),
        use_int_form(entries.deep_view()),
    ensures
        final(buf)@ == old(buf)@ + enc_chain(entries.deep_view(), int_entry_writer(), ip_last_of()),
{
    let ghost xs = entries.deep_view();
    let mut previous: i128 = 0;
    let mut first = true;
    let mut i: usize = 0;
    while i < resolved.len()
        invariant
            i <= resolved@.len(),
            resolved@.len() == xs.len(),
            xs == entries.deep_view(),
            forall|k: int| 0 <= k < resolved@.len() ==> resolves(#[trigger] resolved@[k], xs[k]),
            use_int_form(xs),
            buf@ == old(buf)@ + enc_chain(xs.take(i as int), int_entry_writer(), ip_last_of()),
            previous as int == chain_last(xs.take(i as int), ip_last_of()),
            first == (i == 0),
            0 <= previous < 0x1_0000_0000_0000_0000,
        decreases resolved@.len() - i,
    {
        let ghost x = xs[i as int];
        let ghost prev0 = previous as int;
        assert(resolves(resolved@[i as int], x));
        assert(fits_int_form(x));
        proof {
            lemma_ip_last_range(x);
        }
        match &resolved[i] {
            ResolvedEntry::Prefix { bytes, unused_bits } => {
                let abs = match absolute_int_from_framed(bytes.as_slice(), *unused_bits) {
                    Ok(v) => v,
                    Err(_) => {
                        assert(false);
                        0
                    },
                };
                let delta = next_delta(&mut previous, &mut first, abs);
                let ok = put_int(buf, delta);
                assert(ok);
            },
            ResolvedEntry::Range { min_bytes, max_bytes } => {
                let min_abs = match absolute_int_from_framed(min_bytes.as_slice(), 0) {
                    Ok(v) => v,
                    Err(_) => {
                        assert(false);
                        0
                    },
                };
                let min_delta = next_delta(&mut previous, &mut first, min_abs);
                let max_abs = match absolute_int_from_framed(max_bytes.as_slice(), 0) {
                    Ok(v) => v,
                    Err(_) => {
                        assert(false);
                        0
                    },
                };
                let max_delta = next_delta(&mut previous, &mut first, max_abs);
                put_array(buf, 2);
                let ok1 = put_int(buf, min_delta);
                assert(ok1);
                let ok2 = put_int(buf, max_delta);
                assert(ok2);
            },
        }
        proof {
            lemma_enc_chain_push(xs.take(i as int), x, int_entry_writer(), ip_last_of());
            assert(xs.take(i as int).push(x) =~= xs.take(i + 1));
            assert(enc_int_entry(x, prev0, i == 0) == int_entry_writer()(x, prev0, i == 0));
        }
        i = i + 1;
    }
    assert(xs.take(i as int) =~= xs);
}

/// Encode the byte-string form of a family's entries.
fn encode_bytes_entries(entries: &Vec<IpAddressOrRange>, resolved: &Vec<ResolvedEntry>, buf: &mut Vec<u8>)
    requires
        resolved@.len() == entries@.len(),
        forall|k: int| 0 <= k < resolved@.len() ==> resolves(#[trigger] resolved@[k], entries.deep_view()[k]),
    ensures
        final(buf)@ == old(buf)@ + enc_all(entries.deep_view(), bytes_entry_writer()),
{
    let ghost xs = entries.deep_view();
    let mut i: usize = 0;
    while i < resolved.len()
        invariant
            i <= resolved@.len(),
            resolved@.len() == xs.len(),
            xs == entries.deep_view(),
            forall|k: int| 0 <= k < resolved@.len() ==> resolves(#[trigger] resolved@[k], xs[k]),
            buf@ == old(buf)@ + enc_all(xs.take(i as int), bytes_entry_writer()),
        decreases resolved@.len() - i,
    {
        let ghost x = xs[i as int];
        assert(resolves(resolved@[i as int], x));
        match &resolved[i] {
            ResolvedEntry::Prefix { bytes, unused_bits } => {
                let raw = prefixed(*unused_bits, bytes.as_slice());
                put_bytes(buf, raw.as_slice());
            },
            ResolvedEntry::Range { min_bytes, max_bytes } => {
                put_array(buf, 2);
                let min_raw = prefixed(0, min_bytes.as_slice());
                put_bytes(buf, min_raw.as_slice());
                let max_raw = prefixed(0, max_bytes.as_slice());
                put_bytes(buf, max_raw.as_slice());
            },
        }
        proof {
            lemma_enc_all_push(xs.take(i as int), x, bytes_entry_writer());
            assert(xs.take(i as int).push(x) =~= xs.take(i + 1));
        }
        i = i + 1;
    }
    assert(xs.take(i as int) =~= xs);
}

/// Encode a choice of address form (prefixes or ranges).
#[verifier::spinoff_prover]
#[verifier::rlimit(30)]
fn encode_ip_address_choice(choice: &IpAddressChoice, buf: &mut Vec<u8>)
    ensures
        final(buf)@ == old(buf)@ + enc_ip_choice(choice.deep_view()),
{
    match choice {
        IpAddressChoice::Inherit => {
            put_null(buf);
            assert(old(buf)@.push(0xf6) =~= old(buf)@ + seq![0xf6u8]);
        },
        IpAddressChoice::Prefixes(entries) => {
            let ghost xs = entries.deep_view();
            let mut resolved: Vec<ResolvedEntry> = Vec::new();
            let mut i: usize = 0;
            while i < entries.len()
                invariant
                    i <= entries@.len(),
                    xs == entries.deep_view(),
                    resolved@.len() == i,
                    forall|k: int| 0 <= k < i ==> resolves(#[trigger] resolved@[k], xs[k]),
                decreases entries@.len() - i,
            {
                resolved.push(resolve(&entries[i]));
                i = i + 1;
            }
            let mut use_int = true;
            let mut j: usize = 0;
            while j < resolved.len()
                invariant
                    j <= resolved@.len(),
                    resolved@.len() == xs.len(),
                    forall|k: int| 0 <= k < resolved@.len() ==> resolves(#[trigger] resolved@[k], xs[k]),
                    use_int == (forall|k: int| 0 <= k < j ==> fits_int_form(#[trigger] xs[k])),
                decreases resolved@.len() - j,
            {
                assert(resolves(resolved@[j as int], xs[j as int]));
                let fits = match &resolved[j] {
                    ResolvedEntry::Prefix { bytes, .. } => bytes.len() < MAX_INT_FORM_BYTES,
                    ResolvedEntry::Range { min_bytes, max_bytes } => min_bytes.len() < MAX_INT_FORM_BYTES
                        && max_bytes.len() < MAX_INT_FORM_BYTES,
                };
                assert(fits == fits_int_form(xs[j as int]));
                use_int = use_int && fits;
                j = j + 1;
            }
            put_array(buf, entries.len() as u64);
            if use_int {
                encode_int_entries(entries, &resolved, buf);
            } else {
                encode_bytes_entries(entries, &resolved, buf);
            }
        },
    }
}

/// Encode one family.
fn encode_ip_address_family(fam: &IpAddressFamily, buf: &mut Vec<u8>)
    ensures
        final(buf)@ == old(buf)@ + enc_ip_family(fam.deep_view()),
{
    put_u16(buf, fam.afi);
    match fam.safi {
        Some(s) => put_u16(buf, s),
        None => {
            put_null(buf);
            assert(old(buf)@ + head(0, fam.afi as u64) + seq![0xf6u8] =~= (old(buf)@ + head(0, fam.afi as u64)).push(0xf6));
        },
    }
    encode_ip_address_choice(&fam.choice, buf);
}

/// Encode a list of IP address families as a CBOR array.
pub fn encode_ip_address_families(families: &Vec<IpAddressFamily>, buf: &mut Vec<u8>)
    requires
        ip_families_fit(families.deep_view()),
    ensures
        final(buf)@ == old(buf)@ + enc_ip_families(families.deep_view()),
{
    put_array(buf, families.len() as u64 * 3);
    let ghost after_head = buf@;
    let mut i: usize = 0;
    while i < families.len()
        invariant
            i <= families@.len(),
            buf@ == after_head + enc_all(families.deep_view().take(i as int), ip_family_writer()),
        decreases families@.len() - i,
    {
        encode_ip_address_family(&families[i], buf);
        proof {
            lemma_enc_all_push(families.deep_view().take(i as int), families.deep_view()[i as int], ip_family_writer());
            assert(families.deep_view().take(i as int).push(families.deep_view()[i as int]) =~= families.deep_view().take(i + 1));
        }
        i = i + 1;
    }
    assert(families.deep_view().take(i as int) =~= families.deep_view());
}

// ------------------------------------------------- IPAddrBlocks laws

/// An entry that survives encoding in a family of `w`-octet addresses: its
/// addresses have that width, and a prefix has no host bits set (the
/// encoding writes the network).
pub open spec fn ip_entry_wf(x: IpAddressOrRangeModel, w: nat) -> bool {
    match x {
        IpAddressOrRangeModel::Prefix(n) => n.addr.len() == w && n.prefix_len as nat <= 8 * w
            && network_octets(n.addr, n.prefix_len as int) == n.addr,
        IpAddressOrRangeModel::Range { min, max } => min.len() == w && max.len() == w,
    }
}

/// A choice that survives encoding in family `afi`: entries only where the
/// family is IPv4 or IPv6, each of its width.
pub open spec fn ip_choice_wf(c: IpAddressChoiceModel, afi: u16) -> bool {
    match c {
        IpAddressChoiceModel::Inherit => true,
        IpAddressChoiceModel::Prefixes(xs) => xs.len() <= u64::MAX && (xs.len() > 0 ==> family_width(afi) is Ok
            && forall|k: int| 0 <= k < xs.len() ==> ip_entry_wf(#[trigger] xs[k], family_width(afi).unwrap())),
    }
}

/// `IPAddrBlocks` that survive encoding.
pub open spec fn ip_families_wf(fs: Seq<IpAddressFamilyModel>) -> bool {
    &&& fs.len() * 3 <= u64::MAX
    &&& forall|k: int| 0 <= k < fs.len() ==> ip_choice_wf(#[trigger] fs[k].choice, fs[k].afi)
}

/// Trimming trailing `fill` octets and filling back up gives the octets.
proof fn lemma_trim_fill(s: Seq<u8>, fill: u8)
    ensures
        trim_trailing(s, fill).len() <= s.len(),
        trim_trailing(s, fill) + Seq::new((s.len() - trim_trailing(s, fill).len()) as nat, |i: int| fill) == s,
    decreases s.len(),
{
    let t = trim_trailing(s, fill);
    if s.len() > 0 && s.last() == fill {
        let d = s.drop_last();
        lemma_trim_fill(d, fill);
        assert(t == trim_trailing(d, fill));
        let f1 = Seq::new((d.len() - t.len()) as nat, |i: int| fill);
        let f2 = Seq::new((s.len() - t.len()) as nat, |i: int| fill);
        assert(f2 =~= f1.push(fill));
        assert(t + f2 =~= (t + f1).push(fill));
        assert(d.push(fill) =~= s);
    } else {
        assert(t + Seq::new((s.len() - t.len()) as nat, |i: int| fill) =~= s);
    }
}

/// A trimmed address is built back into the address.
proof fn lemma_build_trimmed(afi: u16, s: Seq<u8>, fill: u8)
    requires
        family_width(afi) == Ok::<nat, Fault>(s.len()),
    ensures
        spec_build_addr(afi, trim_trailing(s, fill), fill) == Ok::<Seq<u8>, Fault>(s),
{
    lemma_trim_fill(s, fill);
}

/// A prefix with no host bits is built back from its framed octets.
proof fn lemma_build_framed_prefix(afi: u16, n: IpNetModel)
    requires
        family_width(afi) is Ok,
        ip_entry_wf(IpAddressOrRangeModel::Prefix(n), family_width(afi).unwrap()),
    ensures
        spec_build_prefix(afi, framed_prefix(n).0, framed_prefix(n).1) == Ok::<IpNetModel, Fault>(n),
{
    let w = family_width(afi).unwrap();
    lemma_framed_prefix(n);
    let sl = significant_len(n.prefix_len);
    let sig = framed_prefix(n).0;
    let net = network_octets(n.addr, n.prefix_len as int);
    assert(net == n.addr);
    let built = sig + Seq::new((w - sig.len()) as nat, |i: int| 0u8);
    assert forall|i: int| 0 <= i < w implies built[i] == n.addr[i] by {
        if i >= sl {
            assert(n.prefix_len as int - 8 * i <= 0);
            assert(net[i] == mask_octet(n.addr[i], n.prefix_len as int - 8 * i));
        }
    }
    assert(built =~= n.addr);
}

/// One int-form entry is read back as written, after any value the int form
/// leaves.
#[verifier::spinoff_prover]
#[verifier::rlimit(30)]
proof fn lemma_int_entry(afi: u16, x: IpAddressOrRangeModel, prev: int, first: bool)
    requires
        family_width(afi) is Ok,
        ip_entry_wf(x, family_width(afi).unwrap()),
        fits_int_form(x),
        0 <= prev < 0x1_0000_0000_0000_0000,
    ensures
        chain_reads_back(int_entry_parser(afi), int_entry_writer(), ip_last_of(), x, prev, first),
{
    lemma_ip_last_range(x);
    assert forall|input: Seq<u8>, pos: int| #[trigger] matches_at(input, pos, int_entry_writer()(x, prev, first)) implies int_entry_parser(
        afi,
    )(input, pos, prev, first) == Ok::<(IpAddressOrRangeModel, int, int), Fault>(
        (x, pos + int_entry_writer()(x, prev, first).len(), ip_last_of()(x)),
    ) by {
        match x {
            IpAddressOrRangeModel::Prefix(n) => {
                lemma_framed_prefix(n);
                let f = framed_prefix(n);
                lemma_int_head(input, pos, chain_delta(prev, first, prefix_abs(n)));
                law_framed_int_roundtrip(f.0, f.1);
                lemma_build_framed_prefix(afi, n);
            },
            IpAddressOrRangeModel::Range { min, max } => {
                let w = family_width(afi).unwrap();
                let t1 = trim_trailing(min, 0x00);
                let t2 = trim_trailing(max, 0xff);
                let a1 = bound_abs(t1);
                let a2 = bound_abs(t2);
                let h = head(4, 2);
                let i1 = int_head(chain_delta(prev, first, a1));
                let i2 = int_head(a2 - a1);
                assert(enc_int_entry(x, prev, first) == h + (i1 + i2));
                lemma_matches_split(input, pos, h, i1 + i2);
                lemma_matches_split(input, pos + h.len(), i1, i2);
                lemma_array_head(input, pos, 2);
                lemma_int_head(input, pos + h.len(), chain_delta(prev, first, a1));
                lemma_int_head(input, pos + h.len() + i1.len(), a2 - a1);
                law_framed_int_roundtrip(t1, 0);
                law_framed_int_roundtrip(t2, 0);
                assert(seq![(0u8 + 1) as u8] + t1 == seq![1u8] + t1);
                assert(seq![(0u8 + 1) as u8] + t2 == seq![1u8] + t2);
                lemma_build_trimmed(afi, min, 0x00);
                lemma_build_trimmed(afi, max, 0xff);
            },
        }
    }
}

/// One byte-string-form entry is read back as written.
#[verifier::spinoff_prover]
#[verifier::rlimit(30)]
proof fn lemma_bytes_entry(afi: u16, x: IpAddressOrRangeModel)
    requires
        family_width(afi) is Ok,
        ip_entry_wf(x, family_width(afi).unwrap()),
    ensures
        reads_back(bytes_entry_parser(afi), bytes_entry_writer(), x),
{
    assert forall|input: Seq<u8>, pos: int| #[trigger] matches_at(input, pos, bytes_entry_writer()(x)) implies bytes_entry_parser(
        afi,
    )(input, pos) == Ok::<(IpAddressOrRangeModel, int), Fault>((x, pos + bytes_entry_writer()(x).len())) by {
        match x {
            IpAddressOrRangeModel::Prefix(n) => {
                lemma_framed_prefix(n);
                let f = framed_prefix(n);
                let raw = seq![f.1] + f.0;
                lemma_bstr(input, pos, raw);
                assert(raw.drop_first() =~= f.0);
                lemma_build_framed_prefix(afi, n);
            },
            IpAddressOrRangeModel::Range { min, max } => {
                let r1 = seq![0u8] + trim_trailing(min, 0x00);
                let r2 = seq![0u8] + trim_trailing(max, 0xff);
                lemma_trim_fill(min, 0x00);
                lemma_trim_fill(max, 0xff);
                let h = head(4, 2);
                assert(enc_bytes_entry(x) == h + (bstr(r1) + bstr(r2)));
                lemma_matches_split(input, pos, h, bstr(r1) + bstr(r2));
                lemma_matches_split(input, pos + h.len(), bstr(r1), bstr(r2));
                lemma_array_head(input, pos, 2);
                lemma_bstr(input, pos + h.len(), r1);
                lemma_bstr(input, pos + h.len() + bstr(r1).len(), r2);
                assert(r1.drop_first() =~= trim_trailing(min, 0x00));
                assert(r2.drop_first() =~= trim_trailing(max, 0xff));
                lemma_build_trimmed(afi, min, 0x00);
                lemma_build_trimmed(afi, max, 0xff);
            },
        }
    }
}

/// The probe of a written family finds the form it was written in.
#[verifier::spinoff_prover]
#[verifier::rlimit(20)]
proof fn lemma_int_form_probe(input: Seq<u8>, pos: int, afi: u16, xs: Seq<IpAddressOrRangeModel>)
    requires
        xs.len() >= 1,
        family_width(afi) is Ok,
        forall|k: int| 0 <= k < xs.len() ==> ip_entry_wf(#[trigger] xs[k], family_width(afi).unwrap()),
        matches_at(
            input,
            pos,
            if use_int_form(xs) {
                enc_chain(xs, int_entry_writer(), ip_last_of())
            } else {
                enc_all(xs, bytes_entry_writer())
            },
        ),
    ensures
        spec_int_form(input, pos) == Ok::<bool, Fault>(use_int_form(xs)),
{
    let x = xs[0];
    assert(ip_entry_wf(x, family_width(afi).unwrap()));
    if use_int_form(xs) {
        assert(fits_int_form(x));
        lemma_ip_last_range(x);
        lemma_enc_chain_first(xs, int_entry_writer(), ip_last_of());
        let e0 = enc_int_entry(x, 0, true);
        lemma_matches_take(input, pos, enc_chain(xs, int_entry_writer(), ip_last_of()), e0.len() as int);
        match x {
            IpAddressOrRangeModel::Prefix(n) => {
                lemma_int_head(input, pos, prefix_abs(n));
            },
            IpAddressOrRangeModel::Range { min, max } => {
                let a1 = bound_abs(trim_trailing(min, 0x00));
                let h = head(4, 2);
                let i1 = int_head(a1);
                let i2 = int_head(bound_abs(trim_trailing(max, 0xff)) - a1);
                assert(e0 == h + (i1 + i2));
                lemma_matches_split(input, pos, h, i1 + i2);
                lemma_matches_split(input, pos + h.len(), i1, i2);
                lemma_array_head(input, pos, 2);
                lemma_int_head(input, pos + h.len(), a1);
            },
        }
    } else {
        lemma_enc_all_first(xs, bytes_entry_writer());
        let e0 = enc_bytes_entry(x);
        lemma_matches_take(input, pos, enc_all(xs, bytes_entry_writer()), e0.len() as int);
        match x {
            IpAddressOrRangeModel::Prefix(n) => {
                let f = framed_prefix(n);
                lemma_framed_prefix(n);
                lemma_bstr(input, pos, seq![f.1] + f.0);
            },
            IpAddressOrRangeModel::Range { min, max } => {
                let r1 = seq![0u8] + trim_trailing(min, 0x00);
                let r2 = seq![0u8] + trim_trailing(max, 0xff);
                lemma_trim_fill(min, 0x00);
                lemma_trim_fill(max, 0xff);
                let h = head(4, 2);
                assert(e0 == h + (bstr(r1) + bstr(r2)));
                lemma_matches_split(input, pos, h, bstr(r1) + bstr(r2));
                lemma_matches_split(input, pos + h.len(), bstr(r1), bstr(r2));
                lemma_array_head(input, pos, 2);
                lemma_bstr(input, pos + h.len(), r1);
            },
        }
    }
}

/// Every entry of a list that fits the delta-coded form is read back as
/// written, after the entry before it.
proof fn lemma_int_entries(afi: u16, xs: Seq<IpAddressOrRangeModel>)
    requires
        xs.len() > 0,
        use_int_form(xs),
        ip_choice_wf(IpAddressChoiceModel::Prefixes(xs), afi),
    ensures
        forall|k: int| 0 <= k < xs.len() ==> chain_reads_back(
            int_entry_parser(afi),
            int_entry_writer(),
            ip_last_of(),
            #[trigger] xs[k],
            chain_last(xs.take(k), ip_last_of()),
            k == 0,
        ),
{
    let w = family_width(afi).unwrap();
    assert forall|k: int| 0 <= k < xs.len() implies chain_reads_back(
        int_entry_parser(afi),
        int_entry_writer(),
        ip_last_of(),
        #[trigger] xs[k],
        chain_last(xs.take(k), ip_last_of()),
        k == 0,
    ) by {
        assert(ip_entry_wf(xs[k], w));
        assert(fits_int_form(xs[k]));
        if k > 0 {
            assert(xs.take(k).last() == xs[k - 1]);
            assert(fits_int_form(xs[k - 1]));
            lemma_ip_last_range(xs[k - 1]);
        }
        lemma_int_entry(afi, xs[k], chain_last(xs.take(k), ip_last_of()), k == 0);
    }
}

/// Every entry of a list is read back as written in the raw-bytes form.
proof fn lemma_bytes_entries(afi: u16, xs: Seq<IpAddressOrRangeModel>)
    requires
        xs.len() > 0,
        ip_choice_wf(IpAddressChoiceModel::Prefixes(xs), afi),
    ensures
        forall|k: int| 0 <= k < xs.len() ==> reads_back(bytes_entry_parser(afi), bytes_entry_writer(), #[trigger] xs[k]),
{
    let w = family_width(afi).unwrap();
    assert forall|k: int| 0 <= k < xs.len() implies reads_back(
        bytes_entry_parser(afi),
        bytes_entry_writer(),
        #[trigger] xs[k],
    ) by {
        assert(ip_entry_wf(xs[k], w));
        lemma_bytes_entry(afi, xs[k]);
    }
}

/// A family's choice is read back as written.
#[verifier::spinoff_prover]
#[verifier::rlimit(30)]
pub proof fn lemma_ip_choice(input: Seq<u8>, pos: int, c: IpAddressChoiceModel, afi: u16)
    requires
        ip_choice_wf(c, afi),
        matches_at(input, pos, enc_ip_choice(c)),
    ensures
        spec_ip_choice(input, pos, afi) == Ok::<(IpAddressChoiceModel, int), Fault>(
            (c, pos + enc_ip_choice(c).len()),
        ),
{
    match c {
        IpAddressChoiceModel::Inherit => {
            assert(input[pos] == input.subrange(pos, pos + 1)[0]);
        },
        IpAddressChoiceModel::Prefixes(xs) => {
            let h = head(4, xs.len() as u64);
            let body = if use_int_form(xs) {
                enc_chain(xs, int_entry_writer(), ip_last_of())
            } else {
                enc_all(xs, bytes_entry_writer())
            };
            lemma_matches_split(input, pos, h, body);
            lemma_array_head(input, pos, xs.len() as u64);
            let e = pos + h.len();
            if xs.len() == 0 {
                assert(xs =~= Seq::<IpAddressOrRangeModel>::empty());
                assert(use_int_form(xs));
                assert(enc_chain(xs, int_entry_writer(), ip_last_of()) =~= Seq::<u8>::empty());
            } else {
                lemma_int_form_probe(input, e, afi, xs);
                if use_int_form(xs) {
                    lemma_int_entries(afi, xs);
                    lemma_parse_chain_roundtrip(input, e, xs, int_entry_parser(afi), int_entry_writer(), ip_last_of());
                } else {
                    lemma_bytes_entries(afi, xs);
                    lemma_parse_n_roundtrip(input, e, xs, bytes_entry_parser(afi), bytes_entry_writer());
                }
            }
        },
    }
}

/// One family is read back as written.
#[verifier::spinoff_prover]
#[verifier::rlimit(30)]
proof fn lemma_ip_family(input: Seq<u8>, pos: int, f: IpAddressFamilyModel)
    requires
        ip_choice_wf(f.choice, f.afi),
        matches_at(input, pos, enc_ip_family(f)),
    ensures
        spec_ip_family(input, pos) == Ok::<(IpAddressFamilyModel, int), Fault>(
            (f, pos + enc_ip_family(f).len()),
        ),
{
    let a = head(0, f.afi as u64);
    let sf = match f.safi {
        Some(s) => head(0, s as u64),
        None => seq![0xf6u8],
    };
    let c = enc_ip_choice(f.choice);
    assert(enc_ip_family(f) == a + (sf + c));
    lemma_matches_split(input, pos, a, sf + c);
    lemma_matches_split(input, pos + a.len(), sf, c);
    lemma_int_head(input, pos, f.afi as int);
    assert(int_head(f.afi as int) == a);
    let e = pos + a.len();
    match f.safi {
        Some(s) => {
            lemma_int_head(input, e, s as int);
            assert(int_head(s as int) == sf);
        },
        None => {
            assert(input[e] == input.subrange(e, e + 1)[0]);
        },
    }
    lemma_ip_choice(input, e + sf.len(), f.choice, f.afi);
}

/// `IPAddrBlocks` are read back as written.
#[verifier::spinoff_prover]
#[verifier::rlimit(30)]
pub proof fn lemma_ip_families(input: Seq<u8>, pos: int, fs: Seq<IpAddressFamilyModel>)
    requires
        ip_families_wf(fs),
        matches_at(input, pos, enc_ip_families(fs)),
    ensures
        spec_ip_families(input, pos) == Ok::<(Seq<IpAddressFamilyModel>, int), Fault>(
            (fs, pos + enc_ip_families(fs).len()),
        ),
{
    let len = (fs.len() * 3) as u64;
    let h = head(4, len);
    lemma_matches_split(input, pos, h, enc_all(fs, ip_family_writer()));
    lemma_array_head(input, pos, len);
    assert forall|k: int| 0 <= k < fs.len() implies reads_back(ip_family_parser(), ip_family_writer(), #[trigger] fs[k]) by {
        assert(ip_choice_wf(fs[k].choice, fs[k].afi));
        assert forall|i: Seq<u8>, p: int| #[trigger] matches_at(i, p, ip_family_writer()(fs[k])) implies ip_family_parser()(i, p)
            == Ok::<(IpAddressFamilyModel, int), Fault>((fs[k], p + ip_family_writer()(fs[k]).len())) by {
            lemma_ip_family(i, p, fs[k]);
        }
    }
    lemma_parse_n_roundtrip(input, pos + h.len(), fs, ip_family_parser(), ip_family_writer());
    assert((len / 3) as nat == fs.len());
}

} // verus!
