//! Runs of items one after another: how `n` items are read, how a sequence of
//! items is written, and that reading a written run gives it back.
use vstd::prelude::*;

use crate::cbor::{head, lemma_matches_split, matches_at, spec_array, spec_datatype, CborType};
use crate::common::{lemma_array_head, spec_definite_array_len};
use crate::error::{Fault, Parsed};

verus! {

/// Read `n` items with `item`, the first at `pos`, each after the one before.
pub open spec fn parse_n<A>(
    input: Seq<u8>,
    pos: int,
    n: nat,
    item: spec_fn(Seq<u8>, int) -> Parsed<A>,
) -> Parsed<Seq<A>>
    decreases n,
{
    if n == 0 {
        Ok((Seq::empty(), pos))
    } else {
        match parse_n(input, pos, (n - 1) as nat, item) {
            Ok((xs, p)) => match item(input, p) {
                Ok((x, q)) => Ok((xs.push(x), q)),
                Err(f) => Err(f),
            },
            Err(f) => Err(f),
        }
    }
}

/// The encodings of `xs`, one after another.
pub open spec fn enc_all<A>(xs: Seq<A>, enc: spec_fn(A) -> Seq<u8>) -> Seq<u8>
    decreases xs.len(),
{
    if xs.len() == 0 {
        Seq::empty()
    } else {
        enc_all(xs.drop_last(), enc) + enc(xs.last())
    }
}

/// `item` reads back what `enc` writes of `x`, wherever it stands.
pub open spec fn reads_back<A>(
    item: spec_fn(Seq<u8>, int) -> Parsed<A>,
    enc: spec_fn(A) -> Seq<u8>,
    x: A,
) -> bool {
    forall|input: Seq<u8>, pos: int|
        #![trigger matches_at(input, pos, enc(x))]
        matches_at(input, pos, enc(x)) ==> item(input, pos) == Ok::<(A, int), Fault>(
            (x, pos + enc(x).len()),
        )
}

/// Once a run fails, every longer run fails the same way.
pub proof fn lemma_parse_n_fails<A>(
    input: Seq<u8>,
    pos: int,
    n: nat,
    m: nat,
    item: spec_fn(Seq<u8>, int) -> Parsed<A>,
)
    requires
        n <= m,
        parse_n(input, pos, n, item) is Err,
    ensures
        parse_n(input, pos, m, item) == parse_n(input, pos, n, item),
    decreases m,
{
    if n < m {
        lemma_parse_n_fails(input, pos, n, (m - 1) as nat, item);
    }
}

/// Appending an item appends its encoding.
pub proof fn lemma_enc_all_push<A>(xs: Seq<A>, x: A, enc: spec_fn(A) -> Seq<u8>)
    ensures
        enc_all(xs.push(x), enc) == enc_all(xs, enc) + enc(x),
{
    assert(xs.push(x).drop_last() =~= xs);
}

/// Reading back a run that was written.
pub proof fn lemma_parse_n_roundtrip<A>(
    input: Seq<u8>,
    pos: int,
    xs: Seq<A>,
    item: spec_fn(Seq<u8>, int) -> Parsed<A>,
    enc: spec_fn(A) -> Seq<u8>,
)
    requires
        forall|k: int| 0 <= k < xs.len() ==> reads_back(item, enc, #[trigger] xs[k]),
        matches_at(input, pos, enc_all(xs, enc)),
    ensures
        parse_n(input, pos, xs.len(), item) == Ok::<(Seq<A>, int), Fault>(
            (xs, pos + enc_all(xs, enc).len()),
        ),
    decreases xs.len(),
{
    if xs.len() > 0 {
        let init = xs.drop_last();
        let x = xs[xs.len() - 1];
        assert(enc_all(xs, enc) == enc_all(init, enc) + enc(x));
        lemma_matches_split(input, pos, enc_all(init, enc), enc(x));
        assert forall|k: int| 0 <= k < init.len() implies reads_back(item, enc, #[trigger] init[k]) by {
            assert(init[k] == xs[k]);
        }
        lemma_parse_n_roundtrip(input, pos, init, item, enc);
        assert(reads_back(item, enc, x));
        let p = pos + enc_all(init, enc).len();
        assert(matches_at(input, p, enc(x)));
        assert(item(input, p) == Ok::<(A, int), Fault>((x, p + enc(x).len())));
        assert(init.push(x) =~= xs);
        assert(((xs.len() - 1) as nat) == init.len());
        assert(parse_n(input, pos, init.len(), item) == Ok::<(Seq<A>, int), Fault>((init, p)));
        assert(parse_n(input, pos, xs.len(), item) == Ok::<(Seq<A>, int), Fault>(
            (init.push(x), p + enc(x).len()),
        ));
    } else {
        assert(xs =~= Seq::<A>::empty());
    }
}

/// One more item read after a run.
pub proof fn lemma_parse_n_next<A>(
    input: Seq<u8>,
    pos: int,
    i: nat,
    item: spec_fn(Seq<u8>, int) -> Parsed<A>,
    xs: Seq<A>,
    p: int,
)
    requires
        parse_n(input, pos, i, item) == Ok::<(Seq<A>, int), Fault>((xs, p)),
    ensures
        parse_n(input, pos, i + 1, item) == (match item(input, p) {
            Ok((x, q)) => Ok((xs.push(x), q)),
            Err(f) => Err::<(Seq<A>, int), Fault>(f),
        }),
{
    assert(((i + 1) - 1) as nat == i);
}

/// A run of `n` items fails where its item at step `i` fails.
pub proof fn lemma_parse_n_stop<A>(
    input: Seq<u8>,
    pos: int,
    i: nat,
    n: nat,
    item: spec_fn(Seq<u8>, int) -> Parsed<A>,
    xs: Seq<A>,
    p: int,
    f: Fault,
)
    requires
        i < n,
        parse_n(input, pos, i, item) == Ok::<(Seq<A>, int), Fault>((xs, p)),
        item(input, p) == Err::<(A, int), Fault>(f),
    ensures
        parse_n(input, pos, n, item) == Err::<(Seq<A>, int), Fault>(f),
{
    lemma_parse_n_next(input, pos, i, item, xs, p);
    lemma_parse_n_fails(input, pos, i + 1, n, item);
}

/// `[ * T ]`: an array header with the count, then the items.
pub open spec fn spec_counted<A>(
    input: Seq<u8>,
    pos: int,
    item: spec_fn(Seq<u8>, int) -> Parsed<A>,
) -> Parsed<Seq<A>> {
    match spec_definite_array_len(input, pos) {
        Ok((n, e)) => parse_n(input, e, n as nat, item),
        Err(f) => Err(f),
    }
}

/// The encoding of `[ * T ]`.
pub open spec fn enc_counted<A>(xs: Seq<A>, enc: spec_fn(A) -> Seq<u8>) -> Seq<u8> {
    head(4, xs.len() as u64) + enc_all(xs, enc)
}

/// An array whose items come in pairs: its header counts `2 * n` items for
/// `n` entries; an odd count is rejected with `msg`.
pub open spec fn spec_paired<A>(
    input: Seq<u8>,
    pos: int,
    msg: &'static str,
    item: spec_fn(Seq<u8>, int) -> Parsed<A>,
) -> Parsed<Seq<A>> {
    match spec_definite_array_len(input, pos) {
        Ok((len, e)) => if len % 2 != 0 {
            Err(Fault::Malformed(msg))
        } else {
            parse_n(input, e, (len / 2) as nat, item)
        },
        Err(f) => Err(f),
    }
}

/// The encoding of an array of pairs.
pub open spec fn enc_paired<A>(xs: Seq<A>, enc: spec_fn(A) -> Seq<u8>) -> Seq<u8> {
    head(4, (xs.len() * 2) as u64) + enc_all(xs, enc)
}

/// `[ * T ]` is read back as written.
pub proof fn lemma_counted<A>(
    input: Seq<u8>,
    pos: int,
    xs: Seq<A>,
    item: spec_fn(Seq<u8>, int) -> Parsed<A>,
    enc: spec_fn(A) -> Seq<u8>,
)
    requires
        xs.len() <= u64::MAX,
        forall|k: int| 0 <= k < xs.len() ==> reads_back(item, enc, #[trigger] xs[k]),
        matches_at(input, pos, enc_counted(xs, enc)),
    ensures
        spec_counted(input, pos, item) == Ok::<(Seq<A>, int), Fault>(
            (xs, pos + enc_counted(xs, enc).len()),
        ),
        spec_datatype(input, pos) == Some(CborType::Array),
        input[pos] != 0xf6,
        input[pos] != 0xff,
{
    let h = head(4, xs.len() as u64);
    lemma_matches_split(input, pos, h, enc_all(xs, enc));
    lemma_array_head(input, pos, xs.len() as u64);
    lemma_parse_n_roundtrip(input, pos + h.len(), xs, item, enc);
}

/// An array of pairs is read back as written.
pub proof fn lemma_paired<A>(
    input: Seq<u8>,
    pos: int,
    msg: &'static str,
    xs: Seq<A>,
    item: spec_fn(Seq<u8>, int) -> Parsed<A>,
    enc: spec_fn(A) -> Seq<u8>,
)
    requires
        xs.len() * 2 <= u64::MAX,
        forall|k: int| 0 <= k < xs.len() ==> reads_back(item, enc, #[trigger] xs[k]),
        matches_at(input, pos, enc_paired(xs, enc)),
    ensures
        spec_paired(input, pos, msg, item) == Ok::<(Seq<A>, int), Fault>(
            (xs, pos + enc_paired(xs, enc).len()),
        ),
        spec_datatype(input, pos) == Some(CborType::Array),
        input[pos] != 0xf6,
        input[pos] != 0xff,
{
    let len = (xs.len() * 2) as u64;
    let h = head(4, len);
    lemma_matches_split(input, pos, h, enc_all(xs, enc));
    lemma_array_head(input, pos, len);
    lemma_parse_n_roundtrip(input, pos + h.len(), xs, item, enc);
    assert((len / 2) as nat == xs.len());
}

// ---------------------------------------------------------- delta chains

/// Read `n` items of a chain, each read knowing the value the one before it
/// left (`0` before the first) and whether it is the first.
pub open spec fn parse_chain<A>(
    input: Seq<u8>,
    pos: int,
    n: nat,
    item: spec_fn(Seq<u8>, int, int, bool) -> Result<(A, int, int), Fault>,
) -> Result<(Seq<A>, int, int), Fault>
    decreases n,
{
    if n == 0 {
        Ok((Seq::empty(), pos, 0))
    } else {
        match parse_chain(input, pos, (n - 1) as nat, item) {
            Ok((xs, p, prev)) => match item(input, p, prev, n == 1) {
                Ok((x, q, v)) => Ok((xs.push(x), q, v)),
                Err(f) => Err(f),
            },
            Err(f) => Err(f),
        }
    }
}

/// The value the last item of `xs` leaves for the next, `0` for none.
pub open spec fn chain_last<A>(xs: Seq<A>, last: spec_fn(A) -> int) -> int {
    if xs.len() == 0 {
        0
    } else {
        last(xs.last())
    }
}

/// The encodings of a chain, each written knowing the value the item before
/// it leaves and whether it is the first.
pub open spec fn enc_chain<A>(
    xs: Seq<A>,
    enc: spec_fn(A, int, bool) -> Seq<u8>,
    last: spec_fn(A) -> int,
) -> Seq<u8>
    decreases xs.len(),
{
    if xs.len() == 0 {
        Seq::empty()
    } else {
        enc_chain(xs.drop_last(), enc, last) + enc(xs.last(), chain_last(xs.drop_last(), last), xs.len() == 1)
    }
}

/// `item` reads back what `enc` writes of `x` after a value `prev`,
/// wherever it stands, and leaves `last(x)`.
pub open spec fn chain_reads_back<A>(
    item: spec_fn(Seq<u8>, int, int, bool) -> Result<(A, int, int), Fault>,
    enc: spec_fn(A, int, bool) -> Seq<u8>,
    last: spec_fn(A) -> int,
    x: A,
    prev: int,
    first: bool,
) -> bool {
    forall|input: Seq<u8>, pos: int|
        #![trigger matches_at(input, pos, enc(x, prev, first))]
        matches_at(input, pos, enc(x, prev, first)) ==> item(input, pos, prev, first) == Ok::<
            (A, int, int),
            Fault,
        >((x, pos + enc(x, prev, first).len(), last(x)))
}

/// One more item read after a chain.
pub proof fn lemma_parse_chain_next<A>(
    input: Seq<u8>,
    pos: int,
    i: nat,
    item: spec_fn(Seq<u8>, int, int, bool) -> Result<(A, int, int), Fault>,
    xs: Seq<A>,
    p: int,
    prev: int,
)
    requires
        parse_chain(input, pos, i, item) == Ok::<(Seq<A>, int, int), Fault>((xs, p, prev)),
    ensures
        parse_chain(input, pos, i + 1, item) == (match item(input, p, prev, i == 0) {
            Ok((x, q, v)) => Ok((xs.push(x), q, v)),
            Err(f) => Err::<(Seq<A>, int, int), Fault>(f),
        }),
{
    assert(((i + 1) - 1) as nat == i);
}

/// Once a chain fails, every longer chain fails the same way.
pub proof fn lemma_parse_chain_fails<A>(
    input: Seq<u8>,
    pos: int,
    n: nat,
    m: nat,
    item: spec_fn(Seq<u8>, int, int, bool) -> Result<(A, int, int), Fault>,
)
    requires
        n <= m,
        parse_chain(input, pos, n, item) is Err,
    ensures
        parse_chain(input, pos, m, item) == parse_chain(input, pos, n, item),
    decreases m,
{
    if n < m {
        lemma_parse_chain_fails(input, pos, n, (m - 1) as nat, item);
    }
}

/// A chain of `n` items fails where its item at step `i` fails.
pub proof fn lemma_parse_chain_stop<A>(
    input: Seq<u8>,
    pos: int,
    i: nat,
    n: nat,
    item: spec_fn(Seq<u8>, int, int, bool) -> Result<(A, int, int), Fault>,
    xs: Seq<A>,
    p: int,
    prev: int,
    f: Fault,
)
    requires
        i < n,
        parse_chain(input, pos, i, item) == Ok::<(Seq<A>, int, int), Fault>((xs, p, prev)),
        item(input, p, prev, i == 0) == Err::<(A, int, int), Fault>(f),
    ensures
        parse_chain(input, pos, n, item) == Err::<(Seq<A>, int, int), Fault>(f),
{
    lemma_parse_chain_next(input, pos, i, item, xs, p, prev);
    lemma_parse_chain_fails(input, pos, i + 1, n, item);
}

/// Appending an item to a chain appends its encoding.
pub proof fn lemma_enc_chain_push<A>(
    xs: Seq<A>,
    x: A,
    enc: spec_fn(A, int, bool) -> Seq<u8>,
    last: spec_fn(A) -> int,
)
    ensures
        enc_chain(xs.push(x), enc, last) == enc_chain(xs, enc, last) + enc(x, chain_last(xs, last), xs.len() == 0),
{
    assert(xs.push(x).drop_last() =~= xs);
}

/// Reading back a chain that was written.
pub proof fn lemma_parse_chain_roundtrip<A>(
    input: Seq<u8>,
    pos: int,
    xs: Seq<A>,
    item: spec_fn(Seq<u8>, int, int, bool) -> Result<(A, int, int), Fault>,
    enc: spec_fn(A, int, bool) -> Seq<u8>,
    last: spec_fn(A) -> int,
)
    requires
        forall|k: int|
            0 <= k < xs.len() ==> chain_reads_back(
                item,
                enc,
                last,
                #[trigger] xs[k],
                chain_last(xs.take(k), last),
                k == 0,
            ),
        matches_at(input, pos, enc_chain(xs, enc, last)),
    ensures
        parse_chain(input, pos, xs.len(), item) == Ok::<(Seq<A>, int, int), Fault>(
            (xs, pos + enc_chain(xs, enc, last).len(), chain_last(xs, last)),
        ),
    decreases xs.len(),
{
    if xs.len() > 0 {
        let init = xs.drop_last();
        let x = xs[xs.len() - 1];
        let prev = chain_last(init, last);
        let first = xs.len() == 1;
        assert(enc_chain(xs, enc, last) == enc_chain(init, enc, last) + enc(x, prev, first));
        lemma_matches_split(input, pos, enc_chain(init, enc, last), enc(x, prev, first));
        assert forall|k: int| 0 <= k < init.len() implies chain_reads_back(
            item,
            enc,
            last,
            #[trigger] init[k],
            chain_last(init.take(k), last),
            k == 0,
        ) by {
            assert(init[k] == xs[k]);
            assert(init.take(k) =~= xs.take(k));
        }
        lemma_parse_chain_roundtrip(input, pos, init, item, enc, last);
        assert(xs.take(xs.len() - 1) =~= init);
        assert(chain_reads_back(item, enc, last, x, chain_last(xs.take(xs.len() - 1), last), xs.len() - 1 == 0));
        let p = pos + enc_chain(init, enc, last).len();
        assert(matches_at(input, p, enc(x, prev, first)));
        assert(init.push(x) =~= xs);
        assert(((xs.len() - 1) as nat) == init.len());
        assert(parse_chain(input, pos, init.len(), item) == Ok::<(Seq<A>, int, int), Fault>((init, p, prev)));
    } else {
        assert(xs =~= Seq::<A>::empty());
    }
}

/// The encodings of a run begin with its first item's.
pub proof fn lemma_enc_all_first<A>(xs: Seq<A>, enc: spec_fn(A) -> Seq<u8>)
    requires
        xs.len() >= 1,
    ensures
        enc(xs[0]).len() <= enc_all(xs, enc).len(),
        enc_all(xs, enc).take(enc(xs[0]).len() as int) == enc(xs[0]),
    decreases xs.len(),
{
    let k = enc(xs[0]).len() as int;
    if xs.len() == 1 {
        assert(xs.drop_last() =~= Seq::<A>::empty());
        assert(enc_all(xs.drop_last(), enc) =~= Seq::<u8>::empty());
        assert(enc_all(xs, enc) =~= enc(xs[0]));
        assert(enc_all(xs, enc).take(k) =~= enc(xs[0]));
    } else {
        let init = xs.drop_last();
        assert(init[0] == xs[0]);
        lemma_enc_all_first(init, enc);
        assert(enc_all(xs, enc) == enc_all(init, enc) + enc(xs.last()));
        assert(enc_all(xs, enc).take(k) =~= enc_all(init, enc).take(k));
    }
}

/// The encodings of a chain begin with its first item's, written first.
pub proof fn lemma_enc_chain_first<A>(
    xs: Seq<A>,
    enc: spec_fn(A, int, bool) -> Seq<u8>,
    last: spec_fn(A) -> int,
)
    requires
        xs.len() >= 1,
    ensures
        enc(xs[0], 0, true).len() <= enc_chain(xs, enc, last).len(),
        enc_chain(xs, enc, last).take(enc(xs[0], 0, true).len() as int) == enc(xs[0], 0, true),
    decreases xs.len(),
{
    let k = enc(xs[0], 0, true).len() as int;
    if xs.len() == 1 {
        assert(xs.drop_last() =~= Seq::<A>::empty());
        assert(enc_chain(xs.drop_last(), enc, last) =~= Seq::<u8>::empty());
        assert(enc_chain(xs, enc, last) =~= enc(xs[0], 0, true));
        assert(enc_chain(xs, enc, last).take(k) =~= enc(xs[0], 0, true));
    } else {
        let init = xs.drop_last();
        assert(init[0] == xs[0]);
        lemma_enc_chain_first(init, enc, last);
        assert(enc_chain(xs, enc, last) == enc_chain(init, enc, last) + enc(
            xs.last(),
            chain_last(init, last),
            false,
        ));
        assert(enc_chain(xs, enc, last).take(k) =~= enc_chain(init, enc, last).take(k));
    }
}

// --------------------------------------------------- indefinite arrays

/// Read items up to the break byte `0xff` of an indefinite-length array,
/// the first at `pos`; the break is consumed. Running out of input fails,
/// and so would an item read from outside the input or before `pos` (no
/// reader of this crate does that).
pub open spec fn parse_until_break<A>(
    input: Seq<u8>,
    pos: int,
    item: spec_fn(Seq<u8>, int) -> Parsed<A>,
) -> Parsed<Seq<A>>
    decreases input.len() - pos,
{
    if pos < 0 || pos >= input.len() {
        Err(Fault::Cbor)
    } else if input[pos] == 0xff {
        Ok((Seq::empty(), pos + 1))
    } else {
        match item(input, pos) {
            Ok((x, q)) => if pos < q <= input.len() {
                match parse_until_break(input, q, item) {
                    Ok((xs, r)) => Ok((seq![x] + xs, r)),
                    Err(f) => Err(f),
                }
            } else {
                Err(Fault::Cbor)
            },
            Err(f) => Err(f),
        }
    }
}

/// `xs` put before the items of a successful read.
pub open spec fn prepend<A>(xs: Seq<A>, r: Parsed<Seq<A>>) -> Parsed<Seq<A>> {
    match r {
        Ok((ys, q)) => Ok((xs + ys, q)),
        Err(f) => Err(f),
    }
}

/// Reading a homogeneous array as `minicbor`'s `Decode for Vec<T>` does:
/// a definite array of `n` items, or an indefinite one up to its break.
pub open spec fn spec_any_array<A>(
    input: Seq<u8>,
    pos: int,
    item: spec_fn(Seq<u8>, int) -> Parsed<A>,
) -> Parsed<Seq<A>> {
    match spec_array(input, pos) {
        Ok((Some(n), e)) => parse_n(input, e, n as nat, item),
        Ok((None, e)) => parse_until_break(input, e, item),
        Err(f) => Err(f),
    }
}

/// A result whose failure, whatever its class, is reported as a CBOR
/// failure (as `minicbor`'s `Decode` impls report them).
pub open spec fn as_cbor<A>(r: Parsed<A>) -> Parsed<A> {
    match r {
        Ok(x) => Ok(x),
        Err(_) => Err(Fault::Cbor),
    }
}

} // verus!
