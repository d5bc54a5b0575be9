//! `DistributionPointName`, shared by `CRLDistributionPoints` (id 5) and
//! `FreshestCRL` (id 29).
//!  DistributionPointName = [
//!     fullName:  [ 2 * text ] / text,
//!     reasons:   uint / null,
//!     cRLIssuer: Name / null,
//! ]
use vstd::prelude::*;

use crate::cbor::{
    cbor_str, head, lemma_matches_split, lemma_tstr, matches_at, put_array, put_str, spec_datatype,
    spec_text, tstr, CborType,
};
use crate::common::{
    datatype, decode_opt_uint, definite_array_len, enc_opt_uint, encode_opt_uint, expect_array_len,
    lemma_array_head, lemma_opt_uint, spec_expect_array_len, spec_opt_uint, RdnAttributeModel,
};
use crate::error::{outcome, Error, Fault, Parsed};
use crate::name::{enc_opt_name, lemma_opt_name, name_fits, name_wf, spec_opt_name, Name};
use crate::repeat::{
    enc_all, enc_counted, lemma_counted, lemma_enc_all_push, lemma_parse_n_next, lemma_parse_n_stop,
    parse_n, reads_back, spec_counted,
};
use vstd::utf8::encode_utf8;

verus! {

/// A `DistributionPointName`
#[derive(Clone, PartialEq, Eq, Debug)]
pub struct DistributionPointName {
    /// The full name of the distribution point.
    pub full_name: Vec<String>,
    /// The reasons for the distribution point.
    pub reasons: Option<u32>,
    /// The CRL issuer.
    pub crl_issuer: Option<Name>,
}

/// The model of a [`DistributionPointName`].
pub struct DistributionPointNameModel {
    pub full_name: Seq<Seq<char>>,
    pub reasons: Option<u32>,
    pub crl_issuer: Option<Seq<RdnAttributeModel>>,
}

impl DeepView for DistributionPointName {
    type V = DistributionPointNameModel;

    open spec fn deep_view(&self) -> DistributionPointNameModel {
        DistributionPointNameModel {
            full_name: self.full_name.deep_view(),
            reasons: self.reasons,
            crl_issuer: self.crl_issuer.deep_view(),
        }
    }
}

/// The reader of one text string.
pub open spec fn text_parser() -> spec_fn(Seq<u8>, int) -> Parsed<Seq<char>> {
    |i: Seq<u8>, p: int| spec_text(i, p)
}

/// The writer of one text string.
pub open spec fn text_writer() -> spec_fn(Seq<char>) -> Seq<u8> {
    |s: Seq<char>| tstr(s)
}

/// Decoding `fullName`: a single text, or an array of texts.
pub open spec fn spec_full_name(input: Seq<u8>, pos: int) -> Parsed<Seq<Seq<char>>> {
    match spec_datatype(input, pos) {
        None => Err(Fault::Cbor),
        Some(CborType::Text) => match spec_text(input, pos) {
            Ok((s, e)) => Ok((seq![s], e)),
            Err(f) => Err(f),
        },
        Some(_) => spec_counted(input, pos, text_parser()),
    }
}

/// The encoding of `fullName`: one name as bare text.
pub open spec fn enc_full_name(names: Seq<Seq<char>>) -> Seq<u8> {
    if names.len() == 1 {
        tstr(names[0])
    } else {
        enc_counted(names, text_writer())
    }
}

/// Reading one `DistributionPointName` array.
pub open spec fn spec_distribution_point(input: Seq<u8>, pos: int) -> Parsed<DistributionPointNameModel> {
    match spec_expect_array_len(input, pos, 3) {
        Ok((_, e)) => match spec_full_name(input, e) {
            Ok((full_name, e1)) => match spec_opt_uint(input, e1) {
                Ok((reasons, e2)) => match spec_opt_name(input, e2) {
                    Ok((crl_issuer, e3)) => Ok(
                        (DistributionPointNameModel { full_name, reasons, crl_issuer }, e3),
                    ),
                    Err(f) => Err(f),
                },
                Err(f) => Err(f),
            },
            Err(f) => Err(f),
        },
        Err(f) => Err(f),
    }
}

/// Writing one `DistributionPointName` array.
pub open spec fn enc_distribution_point(dp: DistributionPointNameModel) -> Seq<u8> {
    head(4, 3) + enc_full_name(dp.full_name) + enc_opt_uint(dp.reasons) + enc_opt_name(dp.crl_issuer)
}

/// The reader of one distribution point.
pub open spec fn distribution_point_parser() -> spec_fn(Seq<u8>, int) -> Parsed<DistributionPointNameModel> {
    |i: Seq<u8>, p: int| spec_distribution_point(i, p)
}

/// The writer of one distribution point.
pub open spec fn distribution_point_writer() -> spec_fn(DistributionPointNameModel) -> Seq<u8> {
    |dp: DistributionPointNameModel| enc_distribution_point(dp)
}

/// The distribution point a bare text stands for: that one name.
pub open spec fn text_point(s: Seq<char>) -> DistributionPointNameModel {
    DistributionPointNameModel { full_name: seq![s], reasons: None, crl_issuer: None }
}

/// Decoding `CRLDistributionPoints` / `FreshestCRL`: a bare text for a
/// single point with a single name, else an array of points.
pub open spec fn spec_distribution_points(input: Seq<u8>, pos: int) -> Parsed<Seq<DistributionPointNameModel>> {
    match spec_datatype(input, pos) {
        None => Err(Fault::Cbor),
        Some(CborType::Text) => match spec_text(input, pos) {
            Ok((s, e)) => Ok((seq![text_point(s)], e)),
            Err(f) => Err(f),
        },
        Some(_) => spec_counted(input, pos, distribution_point_parser()),
    }
}

/// The name of a list that is a single point with a single name and
/// nothing else.
pub open spec fn lone_point_name(points: Seq<DistributionPointNameModel>) -> Option<Seq<char>> {
    if points.len() == 1 && points[0].full_name.len() == 1 && points[0].reasons is None
        && points[0].crl_issuer is None {
        Some(points[0].full_name[0])
    } else {
        None
    }
}

/// The encoding of a list of distribution points.
pub open spec fn enc_distribution_points(points: Seq<DistributionPointNameModel>) -> Seq<u8> {
    match lone_point_name(points) {
        Some(s) => tstr(s),
        None => enc_counted(points, distribution_point_writer()),
    }
}

/// A distribution point whose array headers can be written.
pub open spec fn distribution_point_fits(dp: DistributionPointNameModel) -> bool {
    &&& dp.full_name.len() <= u64::MAX
    &&& (dp.crl_issuer matches Some(n) ==> name_fits(n))
}

/// Distribution points that can be written.
pub open spec fn distribution_points_fit(points: Seq<DistributionPointNameModel>) -> bool {
    &&& points.len() <= u64::MAX
    &&& forall|k: int| 0 <= k < points.len() ==> distribution_point_fits(#[trigger] points[k])
}

/// A distribution point that survives encoding.
pub open spec fn distribution_point_wf(dp: DistributionPointNameModel) -> bool {
    &&& dp.full_name.len() <= u64::MAX
    &&& forall|k: int| 0 <= k < dp.full_name.len() ==> encode_utf8(#[trigger] dp.full_name[k]).len() <= u64::MAX
    &&& (dp.crl_issuer matches Some(n) ==> name_wf(n))
}

/// Distribution points that survive encoding.
pub open spec fn distribution_points_wf(points: Seq<DistributionPointNameModel>) -> bool {
    &&& points.len() <= u64::MAX
    &&& forall|k: int| 0 <= k < points.len() ==> distribution_point_wf(#[trigger] points[k])
}

/// Read a text string, mapping the error.
fn read_text(input: &[u8], pos: usize) -> (r: Result<(String, usize), Error>)
    ensures
        match r {
            Ok((s, e)) => spec_text(input@, pos as int) == Ok::<(Seq<char>, int), Fault>((s@, e as int)),
            Err(err) => spec_text(input@, pos as int) == Err::<(Seq<char>, int), Fault>(err.fault()),
        },
{
    match cbor_str(input, pos) {
        Ok(x) => Ok(x),
        Err(err) => Err(Error::Cbor(err)),
    }
}

/// Decode `fullName`.
fn decode_full_name(input: &[u8], pos: usize) -> (r: Result<(Vec<String>, usize), Error>)
    ensures
        outcome(r) == spec_full_name(input@, pos as int),
{
    if let CborType::Text = datatype(input, pos)? {
        let (s, e) = read_text(input, pos)?;
        let mut v: Vec<String> = Vec::new();
        v.push(s);
        assert(v.deep_view() =~= seq![s@]);
        return Ok((v, e));
    }
    let (n, start) = definite_array_len(input, pos)?;
    let mut v: Vec<String> = Vec::new();
    let mut p = start;
    let mut i: u64 = 0;
    assert(v.deep_view() =~= Seq::<Seq<char>>::empty());
    while i < n
        invariant
            i <= n,
            spec_full_name(input@, pos as int) == parse_n(input@, start as int, n as nat, text_parser()),
            parse_n(input@, start as int, i as nat, text_parser()) == Ok::<(Seq<Seq<char>>, int), Fault>(
                (v.deep_view(), p as int),
            ),
        decreases n - i,
    {
        proof {
            lemma_parse_n_next(input@, start as int, i as nat, text_parser(), v.deep_view(), p as int);
        }
        match read_text(input, p) {
            Ok((s, e)) => {
                let ghost before = v.deep_view();
                v.push(s);
                assert(v.deep_view() =~= before.push(s@));
                p = e;
            },
            Err(e) => {
                proof {
                    lemma_parse_n_stop(input@, start as int, i as nat, n as nat, text_parser(), v.deep_view(), p as int, e.fault());
                }
                return Err(e);
            },
        }
        i = i + 1;
    }
    Ok((v, p))
}

/// Encode `fullName`.
fn encode_full_name(names: &Vec<String>, buf: &mut Vec<u8>)
    requires
        names.deep_view().len() <= u64::MAX,
    ensures
        final(buf)@ == old(buf)@ + enc_full_name(names.deep_view()),
{
    if names.len() == 1 {
        put_str(buf, names[0].as_str());
        return;
    }
    put_array(buf, names.len() as u64);
    let ghost after_head = buf@;
    let mut i: usize = 0;
    while i < names.len()
        invariant
            i <= names@.len(),
            names@.len() != 1,
            buf@ == after_head + enc_all(names.deep_view().take(i as int), text_writer()),
        decreases names@.len() - i,
    {
        put_str(buf, names[i].as_str());
        proof {
            lemma_enc_all_push(names.deep_view().take(i as int), names.deep_view()[i as int], text_writer());
            assert(names.deep_view().take(i as int).push(names.deep_view()[i as int]) =~= names.deep_view().take(i + 1));
        }
        i = i + 1;
    }
    assert(names.deep_view().take(i as int) =~= names.deep_view());
}

impl DistributionPointName {
    /// Decode one `DistributionPointName` array.
    fn decode_one(input: &[u8], pos: usize) -> (r: Result<(Self, usize), Error>)
        ensures
            outcome(r) == spec_distribution_point(input@, pos as int),
    {
        let (_, e) = expect_array_len(input, pos, 3)?;
        let (full_name, e1) = decode_full_name(input, e)?;
        let (reasons, e2) = decode_opt_uint(input, e1)?;
        let (crl_issuer, e3) = Name::decode_optional(input, e2)?;
        Ok((DistributionPointName { full_name, reasons, crl_issuer }, e3))
    }

    /// Decode a list of `DistributionPointName`s.
    #[verifier::spinoff_prover]
    #[verifier::rlimit(20)]
    pub fn decode(input: &[u8], pos: usize) -> (r: Result<(Vec<Self>, usize), Error>)
        ensures
            outcome(r) == spec_distribution_points(input@, pos as int),
    {
        if let CborType::Text = datatype(input, pos)? {
            let (s, e) = read_text(input, pos)?;
            let mut full_name: Vec<String> = Vec::new();
            full_name.push(s);
            let mut out: Vec<DistributionPointName> = Vec::new();
            out.push(DistributionPointName { full_name, reasons: None, crl_issuer: None });
            assert(out.deep_view()[0].full_name =~= seq![s@]);
            assert(out.deep_view() =~= seq![text_point(s@)]);
            return Ok((out, e));
        }
        let (len, start) = definite_array_len(input, pos)?;
        let mut out: Vec<DistributionPointName> = Vec::new();
        let mut p = start;
        let mut i: u64 = 0;
        assert(out.deep_view() =~= Seq::<DistributionPointNameModel>::empty());
        while i < len
            invariant
                i <= len,
                spec_distribution_points(input@, pos as int) == parse_n(input@, start as int, len as nat, distribution_point_parser()),
                parse_n(input@, start as int, i as nat, distribution_point_parser()) == Ok::<(Seq<DistributionPointNameModel>, int), Fault>(
                    (out.deep_view(), p as int),
                ),
            decreases len - i,
        {
            proof {
                lemma_parse_n_next(input@, start as int, i as nat, distribution_point_parser(), out.deep_view(), p as int);
            }
            match Self::decode_one(input, p) {
                Ok((dp, e)) => {
                    let ghost before = out.deep_view();
                    out.push(dp);
                    assert(out.deep_view() =~= before.push(dp.deep_view()));
                    p = e;
                },
                Err(e) => {
                    proof {
                        lemma_parse_n_stop(input@, start as int, i as nat, len as nat, distribution_point_parser(), out.deep_view(), p as int, e.fault());
                    }
                    return Err(e);
                },
            }
            i = i + 1;
        }
        Ok((out, p))
    }

    /// Encode a list of `DistributionPointName`s.
    pub fn encode(points: &Vec<DistributionPointName>, buf: &mut Vec<u8>)
        requires
            distribution_points_fit(points.deep_view()),
        ensures
            final(buf)@ == old(buf)@ + enc_distribution_points(points.deep_view()),
    {
        if points.len() == 1 {
            let dp = &points[0];
            if dp.full_name.len() == 1 && dp.reasons.is_none() && dp.crl_issuer.is_none() {
                put_str(buf, dp.full_name[0].as_str());
                return;
            }
        }
        put_array(buf, points.len() as u64);
        let ghost after_head = buf@;
        let mut i: usize = 0;
        while i < points.len()
            invariant
                i <= points@.len(),
                distribution_points_fit(points.deep_view()),
                lone_point_name(points.deep_view()) is None,
                buf@ == after_head + enc_all(points.deep_view().take(i as int), distribution_point_writer()),
            decreases points@.len() - i,
        {
            let dp = &points[i];
            assert(distribution_point_fits(points.deep_view()[i as int]));
            put_array(buf, 3);
            encode_full_name(&dp.full_name, buf);
            encode_opt_uint(buf, dp.reasons);
            Name::encode_optional(&dp.crl_issuer, buf);
            proof {
                lemma_enc_all_push(points.deep_view().take(i as int), points.deep_view()[i as int], distribution_point_writer());
                assert(points.deep_view().take(i as int).push(points.deep_view()[i as int]) =~= points.deep_view().take(i + 1));
            }
            i = i + 1;
        }
        assert(points.deep_view().take(i as int) =~= points.deep_view());
    }
}

/// `fullName` is read back as written.
proof fn lemma_full_name(input: Seq<u8>, pos: int, names: Seq<Seq<char>>)
    requires
        names.len() <= u64::MAX,
        forall|k: int| 0 <= k < names.len() ==> encode_utf8(#[trigger] names[k]).len() <= u64::MAX,
        matches_at(input, pos, enc_full_name(names)),
    ensures
        spec_full_name(input, pos) == Ok::<(Seq<Seq<char>>, int), Fault>((names, pos + enc_full_name(names).len())),
{
    if names.len() == 1 {
        lemma_tstr(input, pos, names[0]);
        assert(seq![names[0]] =~= names);
    } else {
        assert forall|k: int| 0 <= k < names.len() implies reads_back(text_parser(), text_writer(), #[trigger] names[k]) by {
            assert forall|i: Seq<u8>, p: int| #[trigger] matches_at(i, p, text_writer()(names[k])) implies text_parser()(i, p)
                == Ok::<(Seq<char>, int), Fault>((names[k], p + text_writer()(names[k]).len())) by {
                lemma_tstr(i, p, names[k]);
            }
        }
        lemma_counted(input, pos, names, text_parser(), text_writer());
    }
}

/// One distribution point is read back as written.
#[verifier::spinoff_prover]
#[verifier::rlimit(30)]
proof fn lemma_distribution_point(input: Seq<u8>, pos: int, dp: DistributionPointNameModel)
    requires
        distribution_point_wf(dp),
        matches_at(input, pos, enc_distribution_point(dp)),
    ensures
        spec_distribution_point(input, pos) == Ok::<(DistributionPointNameModel, int), Fault>(
            (dp, pos + enc_distribution_point(dp).len()),
        ),
{
    let h = head(4, 3);
    let a = enc_full_name(dp.full_name);
    let b = enc_opt_uint(dp.reasons);
    let c = enc_opt_name(dp.crl_issuer);
    assert(enc_distribution_point(dp) == h + (a + (b + c)));
    lemma_matches_split(input, pos, h, a + (b + c));
    lemma_matches_split(input, pos + h.len(), a, b + c);
    lemma_matches_split(input, pos + h.len() + a.len(), b, c);
    lemma_array_head(input, pos, 3);
    lemma_full_name(input, pos + h.len(), dp.full_name);
    lemma_opt_uint(input, pos + h.len() + a.len(), dp.reasons);
    lemma_opt_name(input, pos + h.len() + a.len() + b.len(), dp.crl_issuer);
}

/// A list of distribution points is read back as written.
#[verifier::spinoff_prover]
#[verifier::rlimit(30)]
pub proof fn lemma_distribution_points(input: Seq<u8>, pos: int, points: Seq<DistributionPointNameModel>)
    requires
        distribution_points_wf(points),
        matches_at(input, pos, enc_distribution_points(points)),
    ensures
        spec_distribution_points(input, pos) == Ok::<(Seq<DistributionPointNameModel>, int), Fault>(
            (points, pos + enc_distribution_points(points).len()),
        ),
        input[pos] != 0xf6,
        input[pos] != 0xff,
{
    match lone_point_name(points) {
        Some(s) => {
            assert(distribution_point_wf(points[0]));
            lemma_tstr(input, pos, s);
            assert(text_point(s).full_name =~= points[0].full_name);
            assert(seq![text_point(s)] =~= points);
        },
        None => {
            assert forall|k: int| 0 <= k < points.len() implies reads_back(
                distribution_point_parser(),
                distribution_point_writer(),
                #[trigger] points[k],
            ) by {
                assert(distribution_point_wf(points[k]));
                assert forall|i: Seq<u8>, p: int| #[trigger] matches_at(i, p, distribution_point_writer()(points[k])) implies distribution_point_parser()(i, p)
                    == Ok::<(DistributionPointNameModel, int), Fault>((points[k], p + distribution_point_writer()(points[k]).len())) by {
                    lemma_distribution_point(i, p, points[k]);
                }
            }
            lemma_counted(input, pos, points, distribution_point_parser(), distribution_point_writer());
        },
    }
}

} // verus!
