//! `ExtKeyUsageSyntax` (id 8).
//! `ExtKeyUsageSyntax = [ 2* KeyPurposeId ] / KeyPurposeId`
use vstd::prelude::*;

use crate::cbor::{cbor_array, cbor_datatype, head, lemma_matches_split, matches_at, put_array, spec_array, spec_datatype, CborType};
use crate::common::{
    datatype, enc_int_or_oid, int_or_oid_wf, into_cbor, is_array_type, lemma_array_head,
    lemma_int_or_oid, lemma_int_or_oid_advance, spec_int_or_oid, IntOrOid, IntOrOidModel,
};
use crate::error::{outcome, Error, Fault, Parsed};
use crate::repeat::{
    as_cbor, enc_all, enc_counted, lemma_counted, lemma_enc_all_push, lemma_parse_n_next,
    lemma_parse_n_stop, parse_n, parse_until_break, prepend, reads_back, spec_any_array,
};

verus! {

/// `ExtKeyUsageSyntax = [ 2* KeyPurposeId ] / KeyPurposeId`
/// A wrapper around a vector of `KeyPurposeId`s.
#[derive(Clone, PartialEq, Eq, Debug)]
pub struct ExtKeyUsage(pub Vec<IntOrOid>);

impl DeepView for ExtKeyUsage {
    type V = Seq<IntOrOidModel>;

    open spec fn deep_view(&self) -> Seq<IntOrOidModel> {
        self.0.deep_view()
    }
}

/// The reader of one `KeyPurposeId`.
pub open spec fn int_or_oid_parser() -> spec_fn(Seq<u8>, int) -> Parsed<IntOrOidModel> {
    |i: Seq<u8>, p: int| spec_int_or_oid(i, p)
}

/// The writer of one `KeyPurposeId`.
pub open spec fn int_or_oid_writer() -> spec_fn(IntOrOidModel) -> Seq<u8> {
    |v: IntOrOidModel| enc_int_or_oid(v)
}

/// Decoding an `ExtKeyUsageSyntax`: an array (of definite or indefinite
/// length, read as `minicbor` reads a `Vec`, so every failure in it is a
/// CBOR failure), or a single bare `KeyPurposeId`.
pub open spec fn spec_ext_key_usage(input: Seq<u8>, pos: int) -> Parsed<Seq<IntOrOidModel>> {
    match spec_datatype(input, pos) {
        None => Err(Fault::Cbor),
        Some(t) => if is_array_type(t) {
            as_cbor(spec_any_array(input, pos, int_or_oid_parser()))
        } else {
            match spec_int_or_oid(input, pos) {
                Ok((v, e)) => Ok((seq![v], e)),
                Err(f) => Err(f),
            }
        },
    }
}

/// The encoding of an `ExtKeyUsageSyntax`: one purpose bare.
pub open spec fn enc_ext_key_usage(v: Seq<IntOrOidModel>) -> Seq<u8> {
    if v.len() == 1 {
        enc_int_or_oid(v[0])
    } else {
        enc_counted(v, int_or_oid_writer())
    }
}

/// An `ExtKeyUsageSyntax` that survives encoding.
pub open spec fn ext_key_usage_wf(v: Seq<IntOrOidModel>) -> bool {
    &&& v.len() <= u64::MAX
    &&& forall|k: int| 0 <= k < v.len() ==> int_or_oid_wf(#[trigger] v[k])
}

/// Read a homogeneous array of `KeyPurposeId`s, definite or indefinite.
#[verifier::spinoff_prover]
#[verifier::rlimit(20)]
fn decode_int_or_oid_array(input: &[u8], pos: usize) -> (r: Result<(Vec<IntOrOid>, usize), Error>)
    ensures
        outcome(r) == spec_any_array(input@, pos as int, int_or_oid_parser()),
{
    let (len, start) = match cbor_array(input, pos) {
        Ok(x) => x,
        Err(err) => return Err(Error::Cbor(err)),
    };
    let mut out: Vec<IntOrOid> = Vec::new();
    let mut p = start;
    assert(out.deep_view() =~= Seq::<IntOrOidModel>::empty());
    match len {
        Some(n) => {
            let mut i: u64 = 0;
            while i < n
                invariant
                    i <= n,
                    spec_any_array(input@, pos as int, int_or_oid_parser()) == parse_n(input@, start as int, n as nat, int_or_oid_parser()),
                    parse_n(input@, start as int, i as nat, int_or_oid_parser()) == Ok::<(Seq<IntOrOidModel>, int), Fault>(
                        (out.deep_view(), p as int),
                    ),
                decreases n - i,
            {
                proof {
                    lemma_parse_n_next(input@, start as int, i as nat, int_or_oid_parser(), out.deep_view(), p as int);
                }
                match IntOrOid::decode(input, p) {
                    Ok((v, q)) => {
                        let ghost before = out.deep_view();
                        out.push(v);
                        assert(out.deep_view() =~= before.push(v.deep_view()));
                        p = q;
                    },
                    Err(e) => {
                        proof {
                            lemma_parse_n_stop(input@, start as int, i as nat, n as nat, int_or_oid_parser(), out.deep_view(), p as int, e.fault());
                        }
                        return Err(e);
                    },
                }
                i = i + 1;
            }
            Ok((out, p))
        },
        None => {
            loop
                invariant
                    start <= p <= input@.len(),
                    spec_any_array(input@, pos as int, int_or_oid_parser()) == prepend(
                        out.deep_view(),
                        parse_until_break(input@, p as int, int_or_oid_parser()),
                    ),
                decreases input@.len() - p,
            {
                let t = match cbor_datatype(input, p) {
                    Ok(t) => t,
                    Err(err) => return Err(Error::Cbor(err)),
                };
                if let CborType::Break = t {
                    let n = input.len();
                    assert(p < n);
                    proof {
                        assert(out.deep_view() + Seq::<IntOrOidModel>::empty() =~= out.deep_view());
                    }
                    return Ok((out, p + 1));
                }
                match IntOrOid::decode(input, p) {
                    Ok((v, q)) => {
                        proof {
                            lemma_int_or_oid_advance(input@, p as int);
                        }
                        let ghost before = out.deep_view();
                        let ghost rest = parse_until_break(input@, q as int, int_or_oid_parser());
                        out.push(v);
                        assert(out.deep_view() =~= before.push(v.deep_view()));
                        proof {
                            match rest {
                                Ok((ys, r)) => {
                                    assert(before + (seq![v.deep_view()] + ys) =~= out.deep_view() + ys);
                                },
                                Err(_) => {},
                            }
                        }
                        p = q;
                    },
                    Err(e) => return Err(e),
                }
            }
        },
    }
}

impl ExtKeyUsage {
    /// Decode an `ExtKeyUsage`.
    pub fn decode(input: &[u8], pos: usize) -> (r: Result<(Self, usize), Error>)
        ensures
            outcome(r) == spec_ext_key_usage(input@, pos as int),
    {
        match datatype(input, pos)? {
            CborType::Array | CborType::ArrayIndef => match decode_int_or_oid_array(input, pos) {
                Ok((v, e)) => Ok((ExtKeyUsage(v), e)),
                Err(err) => Err(into_cbor(err)),
            },
            _ => {
                let (v, e) = IntOrOid::decode(input, pos)?;
                let mut out: Vec<IntOrOid> = Vec::new();
                out.push(v);
                assert(out.deep_view() =~= seq![v.deep_view()]);
                Ok((ExtKeyUsage(out), e))
            },
        }
    }

    /// Encode an `ExtKeyUsage`.
    pub fn encode(&self, buf: &mut Vec<u8>)
        requires
            self.deep_view().len() <= u64::MAX,
        ensures
            final(buf)@ == old(buf)@ + enc_ext_key_usage(self.deep_view()),
    {
        let v = &self.0;
        if v.len() == 1 {
            v[0].encode(buf);
            return;
        }
        put_array(buf, v.len() as u64);
        let ghost after_head = buf@;
        let mut i: usize = 0;
        while i < v.len()
            invariant
                i <= v@.len(),
                v == &self.0,
                v@.len() != 1,
                buf@ == after_head + enc_all(v.deep_view().take(i as int), int_or_oid_writer()),
            decreases v@.len() - i,
        {
            v[i].encode(buf);
            proof {
                lemma_enc_all_push(v.deep_view().take(i as int), v.deep_view()[i as int], int_or_oid_writer());
                assert(v.deep_view().take(i as int).push(v.deep_view()[i as int]) =~= v.deep_view().take(i + 1));
            }
            i = i + 1;
        }
        assert(v.deep_view().take(i as int) =~= v.deep_view());
    }
}

/// An `ExtKeyUsageSyntax` is read back as written.
pub proof fn lemma_ext_key_usage(input: Seq<u8>, pos: int, v: Seq<IntOrOidModel>)
    requires
        ext_key_usage_wf(v),
        matches_at(input, pos, enc_ext_key_usage(v)),
    ensures
        spec_ext_key_usage(input, pos) == Ok::<(Seq<IntOrOidModel>, int), Fault>(
            (v, pos + enc_ext_key_usage(v).len()),
        ),
{
    if v.len() == 1 {
        assert(int_or_oid_wf(v[0]));
        lemma_int_or_oid(input, pos, v[0]);
        assert(seq![v[0]] =~= v);
    } else {
        assert forall|k: int| 0 <= k < v.len() implies reads_back(int_or_oid_parser(), int_or_oid_writer(), #[trigger] v[k]) by {
            assert(int_or_oid_wf(v[k]));
            assert forall|i: Seq<u8>, p: int| #[trigger] matches_at(i, p, int_or_oid_writer()(v[k])) implies int_or_oid_parser()(i, p)
                == Ok::<(IntOrOidModel, int), Fault>((v[k], p + int_or_oid_writer()(v[k]).len())) by {
                lemma_int_or_oid(i, p, v[k]);
            }
        }
        lemma_counted(input, pos, v, int_or_oid_parser(), int_or_oid_writer());
        lemma_matches_split(input, pos, head(4, v.len() as u64), enc_all(v, int_or_oid_writer()));
        lemma_array_head(input, pos, v.len() as u64);
    }
}

} // verus!
