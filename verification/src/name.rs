//! ```text
//! Name = [ * RDNAttribute ] / SpecialText
//! ```
use vstd::prelude::*;

use crate::cbor::{head, lemma_matches_split, matches_at, put_array, put_null, spec_datatype, spec_null, CborType};
use crate::common::{
    datatype, decode_rdn_attribute, definite_array_len, enc_rdn_attribute, enc_special_text,
    encode_rdn_attribute, is_array_type, lemma_array_head, lemma_rdn_attribute, lemma_special_text,
    rdn_attribute_wf, spec_definite_array_len, spec_rdn_attribute, spec_special_text,
    special_text_wf, RdnAttr, RdnAttrModel, RdnAttributeModel, SpecialText, SpecialTextModel,
};
use crate::cbor::cbor_null;
use crate::error::{outcome, Error, Fault, Parsed};
use crate::repeat::{enc_all, lemma_enc_all_push, lemma_parse_n_fails, lemma_parse_n_roundtrip, parse_n, reads_back};

verus! {

/// Registry id for `commonName` (Section 8.6, value 1), used by the compact
/// single-attribute `Name` shortcut.
pub const COMMON_NAME_ID: u16 = 1;

/// `RDNAttribute = ( attributeType: int, attributeValue: SpecialText ) //
///                 ( attributeType: ~oid, attributeValue: bytes )`
pub type RdnAttribute = RdnAttr<SpecialText, Vec<u8>>;

/// A name containing a sequence of RDNAttributes or a single SpecialText.
#[derive(Clone, PartialEq, Eq, Debug)]
pub struct Name(pub Vec<RdnAttribute>);

impl Default for Name {
    /// The empty name.
    fn default() -> (r: Name)
        ensures
            r.deep_view() == Seq::<RdnAttributeModel>::empty(),
    {
        let r = Name(Vec::new());
        assert(r.deep_view() =~= Seq::<RdnAttributeModel>::empty());
        r
    }
}

impl DeepView for Name {
    type V = Seq<RdnAttributeModel>;

    open spec fn deep_view(&self) -> Seq<RdnAttributeModel> {
        self.0.deep_view()
    }
}

/// The reader of one `RDNAttribute`.
pub open spec fn attribute_parser() -> spec_fn(Seq<u8>, int) -> Parsed<RdnAttributeModel> {
    |i: Seq<u8>, p: int| spec_rdn_attribute(i, p)
}

/// The writer of one `RDNAttribute`.
pub open spec fn attribute_writer() -> spec_fn(RdnAttributeModel) -> Seq<u8> {
    |a: RdnAttributeModel| enc_rdn_attribute(a)
}

/// The single `commonName` attribute (utf8String) that the compact form
/// stands for.
pub open spec fn common_name(v: SpecialTextModel) -> RdnAttributeModel {
    RdnAttrModel::Registered { id: COMMON_NAME_ID, printable_string: false, value: v }
}

/// Decoding a `Name`: an array of `2 * n` items holds `n` attributes; any
/// other item is the compact form, a single `commonName` value.
pub open spec fn spec_name(input: Seq<u8>, pos: int) -> Parsed<Seq<RdnAttributeModel>> {
    match spec_datatype(input, pos) {
        None => Err(Fault::Cbor),
        Some(t) => if is_array_type(t) {
            match spec_definite_array_len(input, pos) {
                Ok((len, e)) => if len % 2 != 0 {
                    Err(Fault::Malformed("Name array must have an even number of elements"))
                } else {
                    parse_n(input, e, (len / 2) as nat, attribute_parser())
                },
                Err(f) => Err(f),
            }
        } else {
            match spec_special_text(input, pos) {
                Ok((v, e)) => Ok((seq![common_name(v)], e)),
                Err(f) => Err(f),
            }
        },
    }
}

/// The value of a `Name` that is a lone utf8String `commonName`.
pub open spec fn compact_value(attrs: Seq<RdnAttributeModel>) -> Option<SpecialTextModel> {
    if attrs.len() == 1 {
        match attrs[0] {
            RdnAttrModel::Registered { id, printable_string, value } => if id == COMMON_NAME_ID
                && !printable_string {
                Some(value)
            } else {
                None
            },
            _ => None,
        }
    } else {
        None
    }
}

/// The encoding of a `Name`: a lone utf8String `commonName` is written as
/// its bare value, anything else as the attribute array.
pub open spec fn enc_name(attrs: Seq<RdnAttributeModel>) -> Seq<u8> {
    match compact_value(attrs) {
        Some(value) => enc_special_text(value),
        None => head(4, (attrs.len() * 2) as u64) + enc_all(attrs, attribute_writer()),
    }
}

/// A `Name` whose array header can be written: twice its length fits `u64`.
pub open spec fn name_fits(attrs: Seq<RdnAttributeModel>) -> bool {
    attrs.len() * 2 <= u64::MAX
}

/// A `Name` that survives encoding.
pub open spec fn name_wf(attrs: Seq<RdnAttributeModel>) -> bool {
    &&& name_fits(attrs)
    &&& forall|k: int| 0 <= k < attrs.len() ==> rdn_attribute_wf(#[trigger] attrs[k])
}

/// Decoding `Name / null`.
pub open spec fn spec_opt_name(input: Seq<u8>, pos: int) -> Parsed<Option<Seq<RdnAttributeModel>>> {
    match spec_datatype(input, pos) {
        None => Err(Fault::Cbor),
        Some(CborType::Null) => match spec_null(input, pos) {
            Ok((_, e)) => Ok((None, e)),
            Err(f) => Err(f),
        },
        Some(_) => match spec_name(input, pos) {
            Ok((n, e)) => Ok((Some(n), e)),
            Err(f) => Err(f),
        },
    }
}

/// The encoding of `Name / null`.
pub open spec fn enc_opt_name(v: Option<Seq<RdnAttributeModel>>) -> Seq<u8> {
    match v {
        None => seq![0xf6u8],
        Some(n) => enc_name(n),
    }
}

impl Name {
    /// Decode a `Name` from a CBOR data item.
    #[verifier::spinoff_prover]
    #[verifier::rlimit(20)]
    pub fn decode(input: &[u8], pos: usize) -> (r: Result<(Self, usize), Error>)
        ensures
            outcome(r) == spec_name(input@, pos as int),
    {
        let t = datatype(input, pos)?;
        match t {
            CborType::Array | CborType::ArrayIndef => {
                let (len, start) = definite_array_len(input, pos)?;
                if len % 2 != 0 {
                    return Err(Error::Malformed("Name array must have an even number of elements"));
                }
                let n = len / 2;
                let mut attrs: Vec<RdnAttribute> = Vec::new();
                let mut p = start;
                let mut i: u64 = 0;
                assert(attrs.deep_view() =~= Seq::<RdnAttributeModel>::empty());
                assert(spec_name(input@, pos as int) == parse_n(input@, start as int, n as nat, attribute_parser()));
                while i < n
                    invariant
                        i <= n,
                        spec_name(input@, pos as int) == parse_n(input@, start as int, n as nat, attribute_parser()),
                        parse_n(input@, start as int, i as nat, attribute_parser()) == Ok::<
                            (Seq<RdnAttributeModel>, int),
                            Fault,
                        >((attrs.deep_view(), p as int)),
                    decreases n - i,
                {
                    match decode_rdn_attribute(input, p) {
                        Ok((a, q)) => {
                            let ghost before = attrs.deep_view();
                            attrs.push(a);
                            assert(attrs.deep_view() =~= before.push(a.deep_view()));
                            p = q;
                        },
                        Err(e) => {
                            proof {
                                assert(attribute_parser()(input@, p as int) == spec_rdn_attribute(input@, p as int));
                                assert(parse_n(input@, start as int, (i + 1) as nat, attribute_parser())
                                    == Err::<(Seq<RdnAttributeModel>, int), Fault>(e.fault()));
                                lemma_parse_n_fails(input@, start as int, (i + 1) as nat, n as nat, attribute_parser());
                            }
                            return Err(e);
                        },
                    }
                    i = i + 1;
                }
                Ok((Name(attrs), p))
            },
            _ => {
                let (value, e) = SpecialText::decode(input, pos)?;
                let mut attrs: Vec<RdnAttribute> = Vec::new();
                attrs.push(RdnAttr::Registered { id: COMMON_NAME_ID, printable_string: false, value });
                assert(attrs.deep_view() =~= seq![common_name(value.deep_view())]);
                Ok((Name(attrs), e))
            },
        }
    }

    /// Decode the `Name / null` alternation used for `issuer` (`null` means
    /// "identical to `subject`", i.e. a self-signed certificate).
    pub fn decode_optional(input: &[u8], pos: usize) -> (r: Result<(Option<Name>, usize), Error>)
        ensures
            outcome(r) == spec_opt_name(input@, pos as int),
    {
        match datatype(input, pos)? {
            CborType::Null => match cbor_null(input, pos) {
                Ok((_, e)) => Ok((None, e)),
                Err(err) => Err(Error::Cbor(err)),
            },
            _ => {
                let (n, e) = Name::decode(input, pos)?;
                Ok((Some(n), e))
            },
        }
    }

    /// Encode a `Name` as a CBOR data item.
    pub fn encode(&self, buf: &mut Vec<u8>)
        requires
            name_fits(self.deep_view()),
        ensures
            final(buf)@ == old(buf)@ + enc_name(self.deep_view()),
    {
        if self.0.len() == 1 {
            match &self.0[0] {
                RdnAttr::Registered { id, printable_string, value } => {
                    if *id == COMMON_NAME_ID && !*printable_string {
                        value.encode(buf);
                        return;
                    }
                },
                _ => {},
            }
        }
        let ghost start = old(buf)@;
        put_array(buf, self.0.len() as u64 * 2);
        let ghost after_head = buf@;
        let mut i: usize = 0;
        while i < self.0.len()
            invariant
                i <= self.0@.len(),
                buf@ == after_head + enc_all(self.deep_view().take(i as int), attribute_writer()),
            decreases self.0@.len() - i,
        {
            encode_rdn_attribute(&self.0[i], buf);
            proof {
                lemma_enc_all_push(self.deep_view().take(i as int), self.deep_view()[i as int], attribute_writer());
                assert(self.deep_view().take(i as int).push(self.deep_view()[i as int]) =~= self.deep_view().take(i + 1));
            }
            i = i + 1;
        }
        assert(self.deep_view().take(i as int) =~= self.deep_view());
    }

    /// Encode a `Name` or `null` as a CBOR data item.
    pub fn encode_optional(value: &Option<Name>, buf: &mut Vec<u8>)
        requires
            value matches Some(n) ==> name_fits(n.deep_view()),
        ensures
            final(buf)@ == old(buf)@ + enc_opt_name(value.deep_view()),
    {
        match value {
            None => {
                put_null(buf);
                assert(old(buf)@.push(0xf6) =~= old(buf)@ + seq![0xf6u8]);
            },
            Some(name) => name.encode(buf),
        }
    }
}

/// A `Name` is read back as written.
pub proof fn lemma_name(input: Seq<u8>, pos: int, attrs: Seq<RdnAttributeModel>)
    requires
        name_wf(attrs),
        matches_at(input, pos, enc_name(attrs)),
    ensures
        spec_name(input, pos) == Ok::<(Seq<RdnAttributeModel>, int), Fault>(
            (attrs, pos + enc_name(attrs).len()),
        ),
        input[pos] != 0xf6,
        input[pos] != 0xff,
        spec_datatype(input, pos) is Some,
{
    if let Some(value) = compact_value(attrs) {
        assert(rdn_attribute_wf(attrs[0]));
        lemma_special_text(input, pos, value);
        assert(seq![common_name(value)] =~= attrs);
    } else {
        let len = (attrs.len() * 2) as u64;
        let h = head(4, len);
        lemma_matches_split(input, pos, h, enc_all(attrs, attribute_writer()));
        lemma_array_head(input, pos, len);
        assert forall|k: int| 0 <= k < attrs.len() implies reads_back(
            attribute_parser(),
            attribute_writer(),
            #[trigger] attrs[k],
        ) by {
            assert(rdn_attribute_wf(attrs[k]));
            assert forall|i: Seq<u8>, p: int| #[trigger] matches_at(i, p, attribute_writer()(attrs[k])) implies attribute_parser()(i, p)
                == Ok::<(RdnAttributeModel, int), Fault>((attrs[k], p + attribute_writer()(attrs[k]).len())) by {
                lemma_rdn_attribute(i, p, attrs[k]);
            }
        }
        lemma_parse_n_roundtrip(input, pos + h.len(), attrs, attribute_parser(), attribute_writer());
        assert((len / 2) as nat == attrs.len());
    }
}

/// `Name / null` is read back as written.
pub proof fn lemma_opt_name(input: Seq<u8>, pos: int, v: Option<Seq<RdnAttributeModel>>)
    requires
        v matches Some(n) ==> name_wf(n),
        matches_at(input, pos, enc_opt_name(v)),
    ensures
        spec_opt_name(input, pos) == Ok::<(Option<Seq<RdnAttributeModel>>, int), Fault>(
            (v, pos + enc_opt_name(v).len()),
        ),
        input[pos] != 0xff,
        spec_datatype(input, pos) is Some,
{
    match v {
        None => {
            assert(input[pos] == input.subrange(pos, pos + 1)[0]);
        },
        Some(n) => {
            lemma_name(input, pos, n);
        },
    }
}

} // verus!
