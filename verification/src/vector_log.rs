//! The binary vector log.
//!
//! A log is a concatenation of records. Each record is a 4-byte little-endian
//! component count followed by that many 4-byte little-endian components.
//! A component is carried as the 32-bit pattern of an IEEE-754 single, so
//! that writing and reading back is exact to the bit.

use vstd::prelude::*;
use crate::error::StoreError;

verus! {

/// The four bytes of `x`, least significant first.
pub open spec fn le_bytes(x: u32) -> Seq<u8> {
    seq![
        (x % 256) as u8,
        ((x / 256) % 256) as u8,
        ((x / 65536) % 256) as u8,
        (x / 16777216) as u8,
    ]
}

/// The number whose little-endian bytes are the first four of `b`.
pub open spec fn le_value(b: Seq<u8>) -> u32
    recommends
        b.len() >= 4,
{
    (b[0] as int + b[1] as int * 256 + b[2] as int * 65536 + b[3] as int * 16777216) as u32
}

/// The components of `v` laid out one after the other, four bytes each.
pub open spec fn payload_bytes(v: Seq<u32>) -> Seq<u8> {
    Seq::new(4 * v.len(), |i: int| le_bytes(v[i / 4])[i % 4])
}

/// The components read back from a payload of `4 * n` bytes.
pub open spec fn payload_words(b: Seq<u8>) -> Seq<u32> {
    Seq::new(b.len() / 4, |i: int| le_value(b.subrange(4 * i, 4 * i + 4)))
}

/// One record: the component count, then the components.
pub open spec fn record_bytes(v: Seq<u32>) -> Seq<u8> {
    le_bytes(v.len() as u32) + payload_bytes(v)
}

/// A whole log: the records of `vs` in order.
pub open spec fn log_bytes(vs: Seq<Seq<u32>>) -> Seq<u8>
    decreases vs.len(),
{
    if vs.len() == 0 {
        Seq::empty()
    } else {
        record_bytes(vs[0]) + log_bytes(vs.drop_first())
    }
}

/// Whether every vector of `vs` has a component count that fits the prefix.
pub open spec fn encodable(vs: Seq<Seq<u32>>) -> bool {
    forall|i: int| 0 <= i < vs.len() ==> (#[trigger] vs[i]).len() <= u32::MAX
}

/// The vectors that a reader recovers from `buf`: complete records from the
/// front, stopping without error at the first record that the buffer does
/// not hold in full.
pub open spec fn parse_log(buf: Seq<u8>) -> Seq<Seq<u32>>
    decreases buf.len(),
{
    if buf.len() < 4 {
        Seq::empty()
    } else {
        let dim = le_value(buf) as int;
        if buf.len() - 4 < 4 * dim {
            Seq::empty()
        } else {
            seq![payload_words(buf.subrange(4, 4 + 4 * dim))] + parse_log(buf.skip(4 + 4 * dim))
        }
    }
}

/// Reading four little-endian bytes gives back the number that wrote them.
pub proof fn lemma_le_round_trip(x: u32)
    ensures
        le_bytes(x).len() == 4,
        le_value(le_bytes(x)) == x,
{
}

/// Reading the payload of `v` gives back `v`.
pub proof fn lemma_payload_round_trip(v: Seq<u32>)
    ensures
        payload_bytes(v).len() == 4 * v.len(),
        payload_words(payload_bytes(v)) == v,
{
    let b = payload_bytes(v);
    assert forall|i: int| 0 <= i < v.len() implies payload_words(b)[i] == v[i] by {
        let chunk = b.subrange(4 * i, 4 * i + 4);
        assert(chunk =~= le_bytes(v[i])) by {
            assert forall|j: int| 0 <= j < 4 implies chunk[j] == le_bytes(v[i])[j] by {
                assert((4 * i + j) / 4 == i);
                assert((4 * i + j) % 4 == j);
            }
        }
        lemma_le_round_trip(v[i]);
    }
    assert(payload_words(b) =~= v);
}

/// A log that starts with a complete record parses to that record's vector
/// followed by what the rest of the log parses to.
pub proof fn lemma_parse_record_first(v: Seq<u32>, rest: Seq<u8>)
    requires
        v.len() <= u32::MAX,
    ensures
        parse_log(record_bytes(v) + rest) == seq![v] + parse_log(rest),
{
    let buf = record_bytes(v) + rest;
    let dim = v.len() as int;
    lemma_le_round_trip(v.len() as u32);
    lemma_payload_round_trip(v);
    assert(buf.len() == 4 + 4 * dim + rest.len());
    assert(le_value(buf) == v.len() as u32) by {
        assert(buf[0] == le_bytes(v.len() as u32)[0]);
        assert(buf[1] == le_bytes(v.len() as u32)[1]);
        assert(buf[2] == le_bytes(v.len() as u32)[2]);
        assert(buf[3] == le_bytes(v.len() as u32)[3]);
    }
    assert(buf.subrange(4, 4 + 4 * dim) =~= payload_bytes(v));
    assert(buf.skip(4 + 4 * dim) =~= rest);
}

/// Appending a record to a log is the log of the vectors with one more at
/// the end: an append-only file and a rewrite from scratch agree.
pub proof fn lemma_log_append(vs: Seq<Seq<u32>>, v: Seq<u32>)
    ensures
        log_bytes(vs.push(v)) == log_bytes(vs) + record_bytes(v),
    decreases vs.len(),
{
    if vs.len() == 0 {
        assert(vs.push(v).drop_first() =~= Seq::<Seq<u32>>::empty());
        assert(log_bytes(vs.push(v)) =~= record_bytes(v) + log_bytes(Seq::empty()));
        assert(log_bytes(vs.push(v)) =~= log_bytes(vs) + record_bytes(v));
    } else {
        lemma_log_append(vs.drop_first(), v);
        assert(vs.push(v).drop_first() =~= vs.drop_first().push(v));
        assert(vs.push(v)[0] == vs[0]);
        assert(log_bytes(vs.push(v)) =~= log_bytes(vs) + record_bytes(v));
    }
}

/// Round trip: reading a written log, followed by anything the reader stops
/// at, yields exactly the vectors written, and then whatever `tail` yields.
pub proof fn lemma_parse_log_then(vs: Seq<Seq<u32>>, tail: Seq<u8>)
    requires
        encodable(vs),
    ensures
        parse_log(log_bytes(vs) + tail) == vs + parse_log(tail),
    decreases vs.len(),
{
    if vs.len() == 0 {
        assert(log_bytes(vs) + tail =~= tail);
        assert(vs + parse_log(tail) =~= parse_log(tail));
    } else {
        let rest = vs.drop_first();
        assert(encodable(rest)) by {
            assert forall|i: int| 0 <= i < rest.len() implies (#[trigger] rest[i]).len()
                <= u32::MAX by {
                assert(rest[i] == vs[i + 1]);
            }
        }
        lemma_parse_log_then(rest, tail);
        assert(log_bytes(vs) + tail =~= record_bytes(vs[0]) + (log_bytes(rest) + tail));
        lemma_parse_record_first(vs[0], log_bytes(rest) + tail);
        assert(seq![vs[0]] + (rest + parse_log(tail)) =~= vs + parse_log(tail));
    }
}

/// Round trip: a log read back is the sequence of vectors that was written,
/// bit for bit.
pub proof fn lemma_log_round_trip(vs: Seq<Seq<u32>>)
    requires
        encodable(vs),
    ensures
        parse_log(log_bytes(vs)) == vs,
{
    lemma_parse_log_then(vs, Seq::empty());
    assert(log_bytes(vs) + Seq::<u8>::empty() =~= log_bytes(vs));
    assert(vs + parse_log(Seq::<u8>::empty()) =~= vs);
}

/// A record cut short parses to nothing.
pub proof fn lemma_partial_record_parses_empty(v: Seq<u32>, n: int)
    requires
        v.len() <= u32::MAX,
        0 <= n < record_bytes(v).len(),
    ensures
        parse_log(record_bytes(v).take(n)) == Seq::<Seq<u32>>::empty(),
{
    let part = record_bytes(v).take(n);
    if n >= 4 {
        lemma_le_round_trip(v.len() as u32);
        assert(le_value(part) == v.len() as u32) by {
            assert(part[0] == le_bytes(v.len() as u32)[0]);
            assert(part[1] == le_bytes(v.len() as u32)[1]);
            assert(part[2] == le_bytes(v.len() as u32)[2]);
            assert(part[3] == le_bytes(v.len() as u32)[3]);
        }
    }
}

/// Crash tolerance: a log whose last record was only partly written reads
/// back as the records committed before it.
pub proof fn lemma_torn_append_ignored(vs: Seq<Seq<u32>>, v: Seq<u32>, n: int)
    requires
        encodable(vs),
        v.len() <= u32::MAX,
        0 <= n < record_bytes(v).len(),
    ensures
        parse_log(log_bytes(vs) + record_bytes(v).take(n)) == vs,
{
    lemma_parse_log_then(vs, record_bytes(v).take(n));
    lemma_partial_record_parses_empty(v, n);
    assert(vs + Seq::<Seq<u32>>::empty() =~= vs);
}

fn push_le(out: &mut Vec<u8>, x: u32)
    ensures
        final(out)@ == old(out)@ + le_bytes(x),
{
    out.push((x % 256) as u8);
    out.push(((x / 256) % 256) as u8);
    out.push(((x / 65536) % 256) as u8);
    out.push((x / 16777216) as u8);
    assert(out@ =~= old(out)@ + le_bytes(x));
}

fn read_le(buf: &[u8], at: usize) -> (x: u32)
    requires
        at + 4 <= buf@.len(),
    ensures
        x == le_value(buf@.subrange(at as int, at + 4)),
{
    let b0: u32 = buf[at] as u32;
    let b1: u32 = buf[at + 1] as u32;
    let b2: u32 = buf[at + 2] as u32;
    let b3: u32 = buf[at + 3] as u32;
    b0 + b1 * 256 + b2 * 65536 + b3 * 16777216
}

fn push_record(out: &mut Vec<u8>, v: &Vec<u32>)
    requires
        v@.len() <= u32::MAX,
    ensures
        final(out)@ == old(out)@ + record_bytes(v@),
{
    let n: usize = v.len();
    push_le(out, n as u32);
    let mut i: usize = 0;
    while i < n
        invariant
            n == v@.len(),
            i <= n,
            out@ == old(out)@ + le_bytes(n as u32) + payload_bytes(v@.take(i as int)),
        decreases n - i,
    {
        let ghost before = out@;
        push_le(out, v[i]);
        proof {
            let a = v@.take(i as int);
            let b = v@.take(i + 1);
            assert(payload_bytes(b) =~= payload_bytes(a) + le_bytes(v@[i as int])) by {
                assert forall|j: int| 0 <= j < 4 * b.len() implies payload_bytes(b)[j] == (
                payload_bytes(a) + le_bytes(v@[i as int]))[j] by {
                    if j < 4 * i {
                        assert(b[j / 4] == a[j / 4]);
                    } else {
                        assert(j / 4 == i as int);
                        assert(j % 4 == j - 4 * i);
                    }
                }
            }
            assert(out@ =~= old(out)@ + le_bytes(n as u32) + payload_bytes(b));
        }
        i += 1;
    }
    proof {
        assert(v@.take(n as int) =~= v@);
        assert(out@ =~= old(out)@ + record_bytes(v@));
    }
}

/// The bytes to append to the vector file for `v`.
///
/// Fails, without producing bytes, exactly when `v` has more components than
/// the 4-byte prefix can count.
pub fn encode_vector(v: &Vec<u32>) -> (r: Result<Vec<u8>, StoreError>)
    ensures
        v@.len() <= u32::MAX ==> r is Ok && r->Ok_0@ == record_bytes(v@),
        v@.len() > u32::MAX ==> r == Err::<Vec<u8>, StoreError>(StoreError::VectorTooLong),
{
    if v.len() > 0xffff_ffff {
        return Err(StoreError::VectorTooLong);
    }
    let mut out: Vec<u8> = Vec::new();
    push_record(&mut out, v);
    assert(out@ =~= record_bytes(v@));
    Ok(out)
}

/// The bytes of a vector file rewritten from scratch to hold `vs`.
///
/// Fails exactly when some vector of `vs` cannot be encoded.
pub fn encode_log(vs: &Vec<Vec<u32>>) -> (r: Result<Vec<u8>, StoreError>)
    ensures
        encodable(vs.deep_view()) ==> r is Ok && r->Ok_0@ == log_bytes(vs.deep_view()),
        !encodable(vs.deep_view()) ==> r == Err::<Vec<u8>, StoreError>(
            StoreError::VectorTooLong,
        ),
{
    let mut out: Vec<u8> = Vec::new();
    let mut i: usize = 0;
    proof {
        assert(vs.deep_view().take(0) =~= Seq::<Seq<u32>>::empty());
    }
    while i < vs.len()
        invariant
            i <= vs@.len(),
            encodable(vs.deep_view().take(i as int)),
            out@ == log_bytes(vs.deep_view().take(i as int)),
        decreases vs@.len() - i,
    {
        let ghost done = vs.deep_view().take(i as int);
        assert(vs.deep_view()[i as int] == vs@[i as int]@);
        if vs[i].len() > 0xffff_ffff {
            return Err(StoreError::VectorTooLong);
        }
        push_record(&mut out, &vs[i]);
        proof {
            lemma_log_append(done, vs@[i as int]@);
            assert(vs.deep_view().take(i + 1) =~= done.push(vs@[i as int]@));
            assert forall|j: int| 0 <= j < i + 1 implies (#[trigger] vs.deep_view().take(
                i + 1,
            )[j]).len() <= u32::MAX by {
                if j < i {
                    assert(vs.deep_view().take(i + 1)[j] == done[j]);
                }
            }
        }
        i += 1;
    }
    proof {
        assert(vs.deep_view().take(i as int) =~= vs.deep_view());
    }
    Ok(out)
}

fn read_payload(buf: &[u8], start: usize, dim: usize) -> (v: Vec<u32>)
    requires
        start + 4 * dim <= buf@.len(),
    ensures
        v@ == payload_words(buf@.subrange(start as int, start + 4 * dim)),
{
    let ghost chunk = buf@.subrange(start as int, start + 4 * dim);
    let len: usize = buf.len();
    let mut v: Vec<u32> = Vec::new();
    let mut i: usize = 0;
    while i < dim
        invariant
            i <= dim,
            len == buf@.len(),
            start + 4 * dim <= buf@.len(),
            chunk == buf@.subrange(start as int, start + 4 * dim),
            v@.len() == i,
            forall|j: int| 0 <= j < i ==> v@[j] == payload_words(chunk)[j],
        decreases dim - i,
    {
        let x: u32 = read_le(buf, start + 4 * i);
        proof {
            assert(chunk.subrange(4 * i, 4 * i + 4) =~= buf@.subrange(
                start + 4 * i,
                start + 4 * i + 4,
            ));
        }
        v.push(x);
        i += 1;
    }
    assert(v@ =~= payload_words(chunk));
    v
}

/// Reads a vector file: every complete record from the front of `buf`, in
/// order. A trailing partial record is dropped without error.
pub fn decode_log(buf: &[u8]) -> (vs: Vec<Vec<u32>>)
    ensures
        vs.deep_view() == parse_log(buf@),
{
    let mut vs: Vec<Vec<u32>> = Vec::new();
    let mut cursor: usize = 0;
    let len: usize = buf.len();
    proof {
        assert(buf@.skip(0) =~= buf@);
        assert(vs.deep_view() =~= Seq::<Seq<u32>>::empty());
        assert(vs.deep_view() + parse_log(buf@) =~= parse_log(buf@));
    }
    while len - cursor >= 4
        invariant
            len == buf@.len(),
            cursor <= len,
            parse_log(buf@) == vs.deep_view() + parse_log(buf@.skip(cursor as int)),
        decreases len - cursor,
    {
        let ghost rest = buf@.skip(cursor as int);
        let ghost before = vs.deep_view();
        let ghost stored = vs@;
        let dim: usize = read_le(buf, cursor) as usize;
        proof {
            assert(le_value(buf@.subrange(cursor as int, cursor + 4)) == le_value(rest)) by {
                let window = buf@.subrange(cursor as int, cursor + 4);
                assert(window[0] == rest[0]);
                assert(window[1] == rest[1]);
                assert(window[2] == rest[2]);
                assert(window[3] == rest[3]);
            }
        }
        if (len - cursor - 4) / 4 < dim {
            proof {
                assert(rest.len() - 4 < 4 * dim);
                assert(before + Seq::<Seq<u32>>::empty() =~= before);
            }
            return vs;
        }
        let v: Vec<u32> = read_payload(buf, cursor + 4, dim);
        proof {
            assert(rest.subrange(4, 4 + 4 * dim) =~= buf@.subrange(
                cursor + 4,
                cursor + 4 + 4 * dim,
            ));
            assert(rest.skip(4 + 4 * dim) =~= buf@.skip(cursor + 4 + 4 * dim));
        }
        vs.push(v);
        proof {
            assert(vs.deep_view() =~= before.push(v@)) by {
                assert forall|j: int| 0 <= j < vs@.len() implies vs.deep_view()[j]
                    == before.push(v@)[j] by {
                    if j < stored.len() {
                        assert(vs@[j] == stored[j]);
                    } else {
                        assert(vs@[j] == v);
                        assert(v.deep_view() =~= v@);
                    }
                }
            }
            assert(before.push(v@) + parse_log(buf@.skip(cursor + 4 + 4 * dim)) =~= before + (
            seq![v@] + parse_log(buf@.skip(cursor + 4 + 4 * dim))));
        }
        cursor = cursor + 4 + 4 * dim;
    }
    proof {
        assert(vs.deep_view() + Seq::<Seq<u32>>::empty() =~= vs.deep_view());
    }
    vs
}

} // verus!
