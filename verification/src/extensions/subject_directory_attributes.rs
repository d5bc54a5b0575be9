//! `SubjectDirectoryAttributes` (id 24).
//! `SubjectDirectoryAttributes = [ + RDNAttributes ]`
use vstd::prelude::*;

use crate::cbor::{bstr, cbor_bytes, lemma_bstr, matches_at, put_array, put_bytes, put_i32, spec_bytes};
use crate::common::{
    attribute_id_of, decode_attribute_type, definite_array_len, enc_rdn_attr, enc_special_text,
    lemma_rdn_attr, lemma_special_text, rdn_attr_wf, spec_rdn_attr, spec_special_text,
    special_text_wf, IntOrOid, RdnAttr, RdnAttrModel, SpecialText, SpecialTextModel,
};
use crate::error::{outcome, Error, Fault, Parsed};
use crate::oid::oid_stable;
use crate::repeat::{
    enc_all, enc_counted, enc_paired, lemma_counted, lemma_enc_all_push, lemma_paired,
    lemma_parse_n_next, lemma_parse_n_stop, parse_n, reads_back, spec_counted, spec_paired,
};

verus! {

/// `RDNAttributes = ( attributeType: int, attributeValue: [ + SpecialText] ) //
///                  ( attributeType: ~oid, attributeValue: [+ bytes] )`
pub type RdnAttributes = RdnAttr<Vec<SpecialText>, Vec<Vec<u8>>>;

/// The model of an [`RdnAttributes`].
pub type RdnAttributesModel = RdnAttrModel<Seq<SpecialTextModel>, Seq<Seq<u8>>>;

/// `SubjectDirectoryAttributes = [ + RDNAttributes ]`
#[derive(Clone, PartialEq, Eq, Debug)]
pub struct SubjectDirectoryAttributes(pub Vec<RdnAttributes>);

impl DeepView for SubjectDirectoryAttributes {
    type V = Seq<RdnAttributesModel>;

    open spec fn deep_view(&self) -> Seq<RdnAttributesModel> {
        self.0.deep_view()
    }
}

/// The reader of one `SpecialText`.
pub open spec fn special_text_parser() -> spec_fn(Seq<u8>, int) -> Parsed<SpecialTextModel> {
    |i: Seq<u8>, p: int| spec_special_text(i, p)
}

/// The writer of one `SpecialText`.
pub open spec fn special_text_writer() -> spec_fn(SpecialTextModel) -> Seq<u8> {
    |v: SpecialTextModel| enc_special_text(v)
}

/// The reader of one byte string.
pub open spec fn bytes_parser() -> spec_fn(Seq<u8>, int) -> Parsed<Seq<u8>> {
    |i: Seq<u8>, p: int| spec_bytes(i, p)
}

/// The writer of one byte string.
pub open spec fn bytes_writer() -> spec_fn(Seq<u8>) -> Seq<u8> {
    |b: Seq<u8>| bstr(b)
}

/// The reader of `[ + SpecialText ]`.
pub open spec fn texts_parser() -> spec_fn(Seq<u8>, int) -> Parsed<Seq<SpecialTextModel>> {
    |i: Seq<u8>, p: int| spec_counted(i, p, special_text_parser())
}

/// The writer of `[ + SpecialText ]`.
pub open spec fn texts_writer() -> spec_fn(Seq<SpecialTextModel>) -> Seq<u8> {
    |v: Seq<SpecialTextModel>| enc_counted(v, special_text_writer())
}

/// The reader of `[ + bytes ]`.
pub open spec fn byte_strings_parser() -> spec_fn(Seq<u8>, int) -> Parsed<Seq<Seq<u8>>> {
    |i: Seq<u8>, p: int| spec_counted(i, p, bytes_parser())
}

/// The writer of `[ + bytes ]`.
pub open spec fn byte_strings_writer() -> spec_fn(Seq<Seq<u8>>) -> Seq<u8> {
    |v: Seq<Seq<u8>>| enc_counted(v, bytes_writer())
}

/// Decoding one multi-valued `RDNAttributes`.
pub open spec fn spec_rdn_attributes(input: Seq<u8>, pos: int) -> Parsed<RdnAttributesModel> {
    spec_rdn_attr(input, pos, texts_parser(), byte_strings_parser())
}

/// The encoding of one multi-valued `RDNAttributes`.
pub open spec fn enc_rdn_attributes(a: RdnAttributesModel) -> Seq<u8> {
    enc_rdn_attr(a, texts_writer(), byte_strings_writer())
}

/// The reader of one `RDNAttributes`.
pub open spec fn rdn_attributes_parser() -> spec_fn(Seq<u8>, int) -> Parsed<RdnAttributesModel> {
    |i: Seq<u8>, p: int| spec_rdn_attributes(i, p)
}

/// The writer of one `RDNAttributes`.
pub open spec fn rdn_attributes_writer() -> spec_fn(RdnAttributesModel) -> Seq<u8> {
    |a: RdnAttributesModel| enc_rdn_attributes(a)
}

/// Decoding a `SubjectDirectoryAttributes`: `2 * n` items hold `n`
/// attributes.
pub open spec fn spec_subject_directory_attributes(input: Seq<u8>, pos: int) -> Parsed<Seq<RdnAttributesModel>> {
    spec_paired(
        input,
        pos,
        "SubjectDirectoryAttributes array must have an even number of elements",
        rdn_attributes_parser(),
    )
}

/// The encoding of a `SubjectDirectoryAttributes`.
pub open spec fn enc_subject_directory_attributes(v: Seq<RdnAttributesModel>) -> Seq<u8> {
    enc_paired(v, rdn_attributes_writer())
}

/// An attribute whose value arrays can be written.
pub open spec fn rdn_attributes_fits(a: RdnAttributesModel) -> bool {
    match a {
        RdnAttrModel::Registered { value, .. } => value.len() <= u64::MAX,
        RdnAttrModel::Oid { value, .. } => value.len() <= u64::MAX,
    }
}

/// A `SubjectDirectoryAttributes` that can be written.
pub open spec fn subject_directory_attributes_fit(v: Seq<RdnAttributesModel>) -> bool {
    &&& v.len() * 2 <= u64::MAX
    &&& forall|k: int| 0 <= k < v.len() ==> rdn_attributes_fits(#[trigger] v[k])
}

/// An attribute that survives encoding.
pub open spec fn rdn_attributes_wf(a: RdnAttributesModel) -> bool {
    match a {
        RdnAttrModel::Registered { id, printable_string, value } => !(printable_string && id == 0)
            && value.len() <= u64::MAX && forall|k: int| 0 <= k < value.len() ==> special_text_wf(#[trigger] value[k]),
        RdnAttrModel::Oid { oid, value } => oid_stable(oid) && oid.len() <= u64::MAX && value.len() <= u64::MAX
            && forall|k: int| 0 <= k < value.len() ==> (#[trigger] value[k]).len() <= u64::MAX,
    }
}

/// A `SubjectDirectoryAttributes` that survives encoding.
pub open spec fn subject_directory_attributes_wf(v: Seq<RdnAttributesModel>) -> bool {
    &&& v.len() * 2 <= u64::MAX
    &&& forall|k: int| 0 <= k < v.len() ==> rdn_attributes_wf(#[trigger] v[k])
}

/// Decode `[ + SpecialText ]`.
fn decode_texts(input: &[u8], pos: usize) -> (r: Result<(Vec<SpecialText>, usize), Error>)
    ensures
        outcome(r) == spec_counted(input@, pos as int, special_text_parser()),
{
    let (n, start) = definite_array_len(input, pos)?;
    let mut out: Vec<SpecialText> = Vec::new();
    let mut p = start;
    let mut i: u64 = 0;
    assert(out.deep_view() =~= Seq::<SpecialTextModel>::empty());
    while i < n
        invariant
            i <= n,
            spec_counted(input@, pos as int, special_text_parser()) == parse_n(input@, start as int, n as nat, special_text_parser()),
            parse_n(input@, start as int, i as nat, special_text_parser()) == Ok::<(Seq<SpecialTextModel>, int), Fault>(
                (out.deep_view(), p as int),
            ),
        decreases n - i,
    {
        proof {
            lemma_parse_n_next(input@, start as int, i as nat, special_text_parser(), out.deep_view(), p as int);
        }
        match SpecialText::decode(input, p) {
            Ok((v, q)) => {
                let ghost before = out.deep_view();
                out.push(v);
                assert(out.deep_view() =~= before.push(v.deep_view()));
                p = q;
            },
            Err(e) => {
                proof {
                    lemma_parse_n_stop(input@, start as int, i as nat, n as nat, special_text_parser(), out.deep_view(), p as int, e.fault());
                }
                return Err(e);
            },
        }
        i = i + 1;
    }
    Ok((out, p))
}

/// Decode `[ + bytes ]`.
fn decode_byte_strings(input: &[u8], pos: usize) -> (r: Result<(Vec<Vec<u8>>, usize), Error>)
    ensures
        outcome(r) == spec_counted(input@, pos as int, bytes_parser()),
{
    let (n, start) = definite_array_len(input, pos)?;
    let mut out: Vec<Vec<u8>> = Vec::new();
    let mut p = start;
    let mut i: u64 = 0;
    assert(out.deep_view() =~= Seq::<Seq<u8>>::empty());
    while i < n
        invariant
            i <= n,
            spec_counted(input@, pos as int, bytes_parser()) == parse_n(input@, start as int, n as nat, bytes_parser()),
            parse_n(input@, start as int, i as nat, bytes_parser()) == Ok::<(Seq<Seq<u8>>, int), Fault>(
                (out.deep_view(), p as int),
            ),
        decreases n - i,
    {
        proof {
            lemma_parse_n_next(input@, start as int, i as nat, bytes_parser(), out.deep_view(), p as int);
        }
        match cbor_bytes(input, p) {
            Ok((b, q)) => {
                let ghost before = out.deep_view();
                assert(b.deep_view() =~= b@);
                out.push(b);
                assert(out.deep_view() =~= before.push(b@));
                p = q;
            },
            Err(err) => {
                proof {
                    lemma_parse_n_stop(input@, start as int, i as nat, n as nat, bytes_parser(), out.deep_view(), p as int, Fault::Cbor);
                }
                return Err(Error::Cbor(err));
            },
        }
        i = i + 1;
    }
    Ok((out, p))
}

/// Decode one `RDNAttributes`. The `attributeType`'s sign selects
/// `printableString` (negative) vs `utf8String` (positive) for the
/// registered-id form.
fn decode_rdn_attributes(input: &[u8], pos: usize) -> (r: Result<(RdnAttributes, usize), Error>)
    ensures
        outcome(r) == spec_rdn_attributes(input@, pos as int),
{
    match decode_attribute_type(input, pos)? {
        (IntOrOid::Oid(oid), e) => {
            let (value, e2) = decode_byte_strings(input, e)?;
            Ok((RdnAttr::Oid { oid, value }, e2))
        },
        (IntOrOid::Int(raw), e) => {
            let (value, e2) = decode_texts(input, e)?;
            Ok((RdnAttr::Registered { id: attribute_id_of(raw), printable_string: raw < 0, value }, e2))
        },
    }
}

/// Encode `[ + SpecialText ]`.
fn encode_texts(v: &Vec<SpecialText>, buf: &mut Vec<u8>)
    requires
        v.deep_view().len() <= u64::MAX,
    ensures
        final(buf)@ == old(buf)@ + enc_counted(v.deep_view(), special_text_writer()),
{
    put_array(buf, v.len() as u64);
    let ghost after_head = buf@;
    let mut i: usize = 0;
    while i < v.len()
        invariant
            i <= v@.len(),
            buf@ == after_head + enc_all(v.deep_view().take(i as int), special_text_writer()),
        decreases v@.len() - i,
    {
        v[i].encode(buf);
        proof {
            lemma_enc_all_push(v.deep_view().take(i as int), v.deep_view()[i as int], special_text_writer());
            assert(v.deep_view().take(i as int).push(v.deep_view()[i as int]) =~= v.deep_view().take(i + 1));
        }
        i = i + 1;
    }
    assert(v.deep_view().take(i as int) =~= v.deep_view());
}

/// Encode `[ + bytes ]`.
fn encode_byte_strings(v: &Vec<Vec<u8>>, buf: &mut Vec<u8>)
    requires
        v.deep_view().len() <= u64::MAX,
    ensures
        final(buf)@ == old(buf)@ + enc_counted(v.deep_view(), bytes_writer()),
{
    put_array(buf, v.len() as u64);
    let ghost after_head = buf@;
    let mut i: usize = 0;
    while i < v.len()
        invariant
            i <= v@.len(),
            buf@ == after_head + enc_all(v.deep_view().take(i as int), bytes_writer()),
        decreases v@.len() - i,
    {
        put_bytes(buf, v[i].as_slice());
        proof {
            lemma_enc_all_push(v.deep_view().take(i as int), v.deep_view()[i as int], bytes_writer());
            assert(v.deep_view().take(i as int).push(v.deep_view()[i as int]) =~= v.deep_view().take(i + 1));
        }
        i = i + 1;
    }
    assert(v.deep_view().take(i as int) =~= v.deep_view());
}

/// Encode one `RDNAttributes`.
fn encode_rdn_attributes(a: &RdnAttributes, buf: &mut Vec<u8>)
    requires
        rdn_attributes_fits(a.deep_view()),
    ensures
        final(buf)@ == old(buf)@ + enc_rdn_attributes(a.deep_view()),
{
    match a {
        RdnAttr::Registered { id, printable_string, value } => {
            let raw: i32 = if *printable_string {
                -(*id as i32)
            } else {
                *id as i32
            };
            put_i32(buf, raw);
            encode_texts(value, buf);
        },
        RdnAttr::Oid { oid, value } => {
            put_bytes(buf, oid.as_bytes());
            encode_byte_strings(value, buf);
        },
    }
}

impl SubjectDirectoryAttributes {
    /// Decode a `SubjectDirectoryAttributes`.
    pub fn decode(input: &[u8], pos: usize) -> (r: Result<(Self, usize), Error>)
        ensures
            outcome(r) == spec_subject_directory_attributes(input@, pos as int),
    {
        let (len, start) = definite_array_len(input, pos)?;
        if len % 2 != 0 {
            return Err(Error::Malformed("SubjectDirectoryAttributes array must have an even number of elements"));
        }
        let n = len / 2;
        let mut out: Vec<RdnAttributes> = Vec::new();
        let mut p = start;
        let mut i: u64 = 0;
        assert(out.deep_view() =~= Seq::<RdnAttributesModel>::empty());
        while i < n
            invariant
                i <= n,
                spec_subject_directory_attributes(input@, pos as int) == parse_n(input@, start as int, n as nat, rdn_attributes_parser()),
                parse_n(input@, start as int, i as nat, rdn_attributes_parser()) == Ok::<(Seq<RdnAttributesModel>, int), Fault>(
                    (out.deep_view(), p as int),
                ),
            decreases n - i,
        {
            proof {
                lemma_parse_n_next(input@, start as int, i as nat, rdn_attributes_parser(), out.deep_view(), p as int);
            }
            match decode_rdn_attributes(input, p) {
                Ok((a, q)) => {
                    let ghost before = out.deep_view();
                    out.push(a);
                    assert(out.deep_view() =~= before.push(a.deep_view()));
                    p = q;
                },
                Err(e) => {
                    proof {
                        lemma_parse_n_stop(input@, start as int, i as nat, n as nat, rdn_attributes_parser(), out.deep_view(), p as int, e.fault());
                    }
                    return Err(e);
                },
            }
            i = i + 1;
        }
        Ok((Self(out), p))
    }

    /// Encode a `SubjectDirectoryAttributes`.
    pub fn encode(&self, buf: &mut Vec<u8>)
        requires
            subject_directory_attributes_fit(self.deep_view()),
        ensures
            final(buf)@ == old(buf)@ + enc_subject_directory_attributes(self.deep_view()),
    {
        let v = &self.0;
        put_array(buf, v.len() as u64 * 2);
        let ghost after_head = buf@;
        let mut i: usize = 0;
        while i < v.len()
            invariant
                i <= v@.len(),
                v == &self.0,
                subject_directory_attributes_fit(v.deep_view()),
                buf@ == after_head + enc_all(v.deep_view().take(i as int), rdn_attributes_writer()),
            decreases v@.len() - i,
        {
            assert(rdn_attributes_fits(v.deep_view()[i as int]));
            encode_rdn_attributes(&v[i], buf);
            proof {
                lemma_enc_all_push(v.deep_view().take(i as int), v.deep_view()[i as int], rdn_attributes_writer());
                assert(v.deep_view().take(i as int).push(v.deep_view()[i as int]) =~= v.deep_view().take(i + 1));
            }
            i = i + 1;
        }
        assert(v.deep_view().take(i as int) =~= v.deep_view());
    }
}

/// One `RDNAttributes` is read back as written.
proof fn lemma_rdn_attributes(input: Seq<u8>, pos: int, a: RdnAttributesModel)
    requires
        rdn_attributes_wf(a),
        matches_at(input, pos, enc_rdn_attributes(a)),
    ensures
        spec_rdn_attributes(input, pos) == Ok::<(RdnAttributesModel, int), Fault>(
            (a, pos + enc_rdn_attributes(a).len()),
        ),
{
    match a {
        RdnAttrModel::Registered { value, .. } => {
            assert forall|k: int| 0 <= k < value.len() implies reads_back(
                special_text_parser(),
                special_text_writer(),
                #[trigger] value[k],
            ) by {
                assert(special_text_wf(value[k]));
                assert forall|i: Seq<u8>, p: int| #[trigger] matches_at(i, p, special_text_writer()(value[k])) implies special_text_parser()(i, p)
                    == Ok::<(SpecialTextModel, int), Fault>((value[k], p + special_text_writer()(value[k]).len())) by {
                    lemma_special_text(i, p, value[k]);
                }
            }
            assert forall|i: Seq<u8>, p: int| #[trigger] matches_at(i, p, texts_writer()(value)) implies texts_parser()(i, p)
                == Ok::<(Seq<SpecialTextModel>, int), Fault>((value, p + texts_writer()(value).len())) by {
                lemma_counted(i, p, value, special_text_parser(), special_text_writer());
            }
        },
        RdnAttrModel::Oid { value, .. } => {
            assert forall|k: int| 0 <= k < value.len() implies reads_back(bytes_parser(), bytes_writer(), #[trigger] value[k]) by {
                assert forall|i: Seq<u8>, p: int| #[trigger] matches_at(i, p, bytes_writer()(value[k])) implies bytes_parser()(i, p)
                    == Ok::<(Seq<u8>, int), Fault>((value[k], p + bytes_writer()(value[k]).len())) by {
                    lemma_bstr(i, p, value[k]);
                }
            }
            assert forall|i: Seq<u8>, p: int| #[trigger] matches_at(i, p, byte_strings_writer()(value)) implies byte_strings_parser()(i, p)
                == Ok::<(Seq<Seq<u8>>, int), Fault>((value, p + byte_strings_writer()(value).len())) by {
                lemma_counted(i, p, value, bytes_parser(), bytes_writer());
            }
        },
    }
    lemma_rdn_attr(input, pos, a, texts_parser(), texts_writer(), byte_strings_parser(), byte_strings_writer());
}

/// A `SubjectDirectoryAttributes` is read back as written.
pub proof fn lemma_subject_directory_attributes(input: Seq<u8>, pos: int, v: Seq<RdnAttributesModel>)
    requires
        subject_directory_attributes_wf(v),
        matches_at(input, pos, enc_subject_directory_attributes(v)),
    ensures
        spec_subject_directory_attributes(input, pos) == Ok::<(Seq<RdnAttributesModel>, int), Fault>(
            (v, pos + enc_subject_directory_attributes(v).len()),
        ),
{
    assert forall|k: int| 0 <= k < v.len() implies reads_back(
        rdn_attributes_parser(),
        rdn_attributes_writer(),
        #[trigger] v[k],
    ) by {
        assert(rdn_attributes_wf(v[k]));
        assert forall|i: Seq<u8>, p: int| #[trigger] matches_at(i, p, rdn_attributes_writer()(v[k])) implies rdn_attributes_parser()(i, p)
            == Ok::<(RdnAttributesModel, int), Fault>((v[k], p + rdn_attributes_writer()(v[k]).len())) by {
            lemma_rdn_attributes(i, p, v[k]);
        }
    }
    lemma_paired(
        input,
        pos,
        "SubjectDirectoryAttributes array must have an even number of elements",
        v,
        rdn_attributes_parser(),
        rdn_attributes_writer(),
    );
}

} // verus!
