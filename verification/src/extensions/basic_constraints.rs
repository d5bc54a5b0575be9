//! `BasicConstraints` (Section 3.3, extension registry value 4).
//! If 'cA' = false then extensionValue = -2,
//! If 'cA' = true and 'pathLenConstraint' is not present then extensionValue = -1,
//! If 'cA' = true and 'pathLenConstraint' is present then extensionValue = pathLenConstraint.
use vstd::prelude::*;

use crate::cbor::{cbor_i32, int_head, lemma_int_head, matches_at, put_i32, spec_i32};
use crate::error::{outcome, Error, Fault, Parsed};

verus! {

/// A `BasicConstraints`
#[derive(Clone, Copy, PartialEq, Eq, Debug)]
pub enum BasicConstraints {
    /// The certificate is not a CA certificate.
    NotCa,
    /// The certificate is a CA certificate.
    Ca { path_len: Option<u32> },
}

impl DeepView for BasicConstraints {
    type V = BasicConstraints;

    open spec fn deep_view(&self) -> BasicConstraints {
        *self
    }
}

/// Decoding a `BasicConstraints`: `-2`, `-1`, or a path length.
pub open spec fn spec_basic_constraints(input: Seq<u8>, pos: int) -> Parsed<BasicConstraints> {
    match spec_i32(input, pos) {
        Ok((v, e)) => if v == -2 {
            Ok((BasicConstraints::NotCa, e))
        } else if v == -1 {
            Ok((BasicConstraints::Ca { path_len: None }, e))
        } else if v >= 0 {
            Ok((BasicConstraints::Ca { path_len: Some(v as u32) }, e))
        } else {
            Err(Fault::Malformed("invalid basicConstraints value"))
        },
        Err(f) => Err(f),
    }
}

/// The integer a `BasicConstraints` is written as.
pub open spec fn basic_constraints_value(v: BasicConstraints) -> int {
    match v {
        BasicConstraints::NotCa => -2,
        BasicConstraints::Ca { path_len: None } => -1,
        BasicConstraints::Ca { path_len: Some(n) } => n as int,
    }
}

/// The encoding of a `BasicConstraints`.
pub open spec fn enc_basic_constraints(v: BasicConstraints) -> Seq<u8> {
    int_head(basic_constraints_value(v))
}

/// A `BasicConstraints` that has an encoding: a path length that fits a
/// signed 32-bit CBOR int.
pub open spec fn basic_constraints_encodes(v: BasicConstraints) -> bool {
    v matches BasicConstraints::Ca { path_len: Some(n) } ==> n <= i32::MAX
}

impl BasicConstraints {
    /// Decode a `BasicConstraints`.
    pub fn decode(input: &[u8], pos: usize) -> (r: Result<(Self, usize), Error>)
        ensures
            outcome(r) == spec_basic_constraints(input@, pos as int),
    {
        let (v, e) = match cbor_i32(input, pos) {
            Ok(x) => x,
            Err(err) => return Err(Error::Cbor(err)),
        };
        if v == -2 {
            Ok((BasicConstraints::NotCa, e))
        } else if v == -1 {
            Ok((BasicConstraints::Ca { path_len: None }, e))
        } else if v >= 0 {
            Ok((BasicConstraints::Ca { path_len: Some(v as u32) }, e))
        } else {
            Err(Error::Malformed("invalid basicConstraints value"))
        }
    }

    /// Encode a `BasicConstraints`; a path length beyond `i32::MAX` has no
    /// encoding.
    pub fn encode(&self, buf: &mut Vec<u8>) -> (r: Result<(), &'static str>)
        ensures
            r is Ok <==> basic_constraints_encodes(*self),
            r is Ok ==> final(buf)@ == old(buf)@ + enc_basic_constraints(*self),
    {
        match self {
            BasicConstraints::NotCa => put_i32(buf, -2),
            BasicConstraints::Ca { path_len: None } => put_i32(buf, -1),
            BasicConstraints::Ca { path_len: Some(n) } => {
                if *n > 0x7fff_ffff {
                    return Err("pathLenConstraint too large to encode as a signed CBOR int");
                }
                put_i32(buf, *n as i32);
            },
        }
        Ok(())
    }
}

/// A `BasicConstraints` is read back as written.
pub proof fn lemma_basic_constraints(input: Seq<u8>, pos: int, v: BasicConstraints)
    requires
        basic_constraints_encodes(v),
        matches_at(input, pos, enc_basic_constraints(v)),
    ensures
        spec_basic_constraints(input, pos) == Ok::<(BasicConstraints, int), Fault>(
            (v, pos + enc_basic_constraints(v).len()),
        ),
{
    lemma_int_head(input, pos, basic_constraints_value(v));
}

/// The int read is `-2` for a certificate that is not a CA, `-1` for a CA
/// with no path length, and the path length itself otherwise; a CA's path
/// length is written as itself.
pub proof fn law_basic_constraints_values(input: Seq<u8>, pos: int, n: u32)
    requires
        n <= i32::MAX,
    ensures
        matches_at(input, pos, int_head(-2)) ==> spec_basic_constraints(input, pos) == Ok::<(BasicConstraints, int), Fault>(
            (BasicConstraints::NotCa, pos + int_head(-2).len()),
        ),
        matches_at(input, pos, int_head(-1)) ==> spec_basic_constraints(input, pos) == Ok::<(BasicConstraints, int), Fault>(
            (BasicConstraints::Ca { path_len: None }, pos + int_head(-1).len()),
        ),
        matches_at(input, pos, int_head(n as int)) ==> spec_basic_constraints(input, pos) == Ok::<(BasicConstraints, int), Fault>(
            (BasicConstraints::Ca { path_len: Some(n) }, pos + int_head(n as int).len()),
        ),
        enc_basic_constraints(BasicConstraints::Ca { path_len: Some(n) }) == int_head(n as int),
{
    if matches_at(input, pos, int_head(-2)) {
        lemma_int_head(input, pos, -2);
    }
    if matches_at(input, pos, int_head(-1)) {
        lemma_int_head(input, pos, -1);
    }
    if matches_at(input, pos, int_head(n as int)) {
        lemma_int_head(input, pos, n as int);
    }
}

} // verus!
