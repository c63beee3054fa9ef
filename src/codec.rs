//! Streams of records: the raw format (a flat concatenation of records) and
//! the compressed format (the raw stream inside zstd frames).

use vstd::prelude::*;
use crate::packet::{Packet, RECORD_SIZE, packet_bytes, encode_into, decode_at,
    lemma_packet_bytes_len, lemma_packet_bytes_injective};

verus! {

/// Why a stream of bytes does not hold a sequence of records.
#[derive(Clone, Copy, Debug, PartialEq, Eq, Structural)]
pub enum FormatError {
    /// A raw stream whose length is not a multiple of the record size.
    InvalidSize,
    /// A compressed stream that cannot be decompressed.
    CorruptStream,
}

/// `std::io::Error`, the error type of zstd's stream functions; it is only
/// carried through.
#[verifier::external_type_specification]
#[verifier::external_body]
pub struct ExIoError(std::io::Error);

/// What reading a byte sequence through a zstd stream decoder up to its end
/// yields: the decompressed bytes, also of an input that stops inside a frame
/// (everything decoded before the cut); `None` when the bytes are not zstd
/// data.
pub uninterp spec fn zstd_stream(frame: Seq<u8>) -> Option<Seq<u8>>;

/// Relies on `zstd::stream::encode_all`: compressing a slice into a `Vec` at
/// the default level (0) has no failure but running out of memory, and the
/// frame it returns decompresses to its input, zstd being lossless.
#[verifier::external_body]
fn zstd_compress(raw: &[u8]) -> (r: Result<Vec<u8>, std::io::Error>)
    ensures
        r is Ok,
        r matches Ok(v) ==> zstd_stream(v@) == Some(raw@),
{
    zstd::stream::encode_all(raw, 0)
}

/// Relies on `zstd::stream::read::Decoder` read to the end: its output depends
/// on the input bytes alone; an input that stops inside a frame ends in an
/// `UnexpectedEof` error, after which the bytes decoded so far are kept (as
/// `read_to_end` appends them before returning the error); any other error
/// means the bytes are not zstd data.
#[verifier::external_body]
fn zstd_decompress(frame: &[u8]) -> (r: Result<Vec<u8>, std::io::Error>)
    ensures
        match r {
            Ok(v) => zstd_stream(frame@) == Some(v@),
            Err(_) => zstd_stream(frame@) is None,
        },
{
    let mut out = Vec::new();
    let mut decoder = zstd::stream::read::Decoder::new(frame)?;
    match std::io::Read::read_to_end(&mut decoder, &mut out) {
        Err(e) if e.kind() != std::io::ErrorKind::UnexpectedEof => Err(e),
        _ => Ok(out),
    }
}

/// The raw stream of a packet sequence: the records one after another.
pub open spec fn records_bytes(ps: Seq<Packet>) -> Seq<u8>
    decreases ps.len(),
{
    if ps.len() == 0 {
        Seq::empty()
    } else {
        records_bytes(ps.drop_last()) + packet_bytes(ps.last())
    }
}

/// `ps` is what the whole records of `b` decode to; a trailing partial record
/// is left out.
pub open spec fn decodes_to(b: Seq<u8>, ps: Seq<Packet>) -> bool {
    &&& ps.len() == b.len() / (RECORD_SIZE as nat)
    &&& forall|i: int|
        0 <= i < ps.len() ==> packet_bytes(#[trigger] ps[i]) == b.subrange(
            i * RECORD_SIZE,
            i * RECORD_SIZE + RECORD_SIZE,
        )
}

/// The packets that the whole records of `b` decode to.
pub open spec fn records_of(b: Seq<u8>) -> Seq<Packet> {
    choose|ps: Seq<Packet>| decodes_to(b, ps)
}

pub proof fn lemma_decodes_unique(b: Seq<u8>, ps: Seq<Packet>, qs: Seq<Packet>)
    requires
        decodes_to(b, ps),
        decodes_to(b, qs),
    ensures
        ps == qs,
{
    assert forall|i: int| 0 <= i < ps.len() implies ps[i] == qs[i] by {
        lemma_packet_bytes_injective(ps[i], qs[i]);
    }
    assert(ps =~= qs);
}

pub proof fn lemma_records_of(b: Seq<u8>, ps: Seq<Packet>)
    requires
        decodes_to(b, ps),
    ensures
        records_of(b) == ps,
{
    lemma_decodes_unique(b, ps, records_of(b));
}

pub proof fn lemma_records_bytes_len(ps: Seq<Packet>)
    ensures
        records_bytes(ps).len() == ps.len() * RECORD_SIZE,
    decreases ps.len(),
{
    if ps.len() > 0 {
        lemma_records_bytes_len(ps.drop_last());
        lemma_packet_bytes_len(ps.last());
    }
}

pub proof fn lemma_records_bytes_slice(ps: Seq<Packet>, i: int)
    requires
        0 <= i < ps.len(),
    ensures
        records_bytes(ps).subrange(i * RECORD_SIZE, i * RECORD_SIZE + RECORD_SIZE)
            == packet_bytes(ps[i]),
    decreases ps.len(),
{
    let init = ps.drop_last();
    lemma_records_bytes_len(init);
    lemma_packet_bytes_len(ps.last());
    if i < ps.len() - 1 {
        lemma_records_bytes_slice(init, i);
        assert(i * RECORD_SIZE + RECORD_SIZE <= init.len() * RECORD_SIZE) by (nonlinear_arith)
            requires
                i < init.len(),
        ;
        assert(records_bytes(ps).subrange(i * RECORD_SIZE, i * RECORD_SIZE + RECORD_SIZE)
            =~= records_bytes(init).subrange(i * RECORD_SIZE, i * RECORD_SIZE + RECORD_SIZE));
    } else {
        assert(i * RECORD_SIZE == init.len() * RECORD_SIZE);
        assert(records_bytes(ps).subrange(i * RECORD_SIZE, i * RECORD_SIZE + RECORD_SIZE)
            =~= packet_bytes(ps.last()));
    }
}

/// The raw stream of a packet sequence decodes to that sequence.
pub proof fn lemma_records_bytes_decode(ps: Seq<Packet>)
    ensures
        decodes_to(records_bytes(ps), ps),
        records_of(records_bytes(ps)) == ps,
{
    lemma_records_bytes_len(ps);
    assert((ps.len() * RECORD_SIZE) / (RECORD_SIZE as int) == ps.len()) by (nonlinear_arith);
    assert forall|i: int| 0 <= i < ps.len() implies packet_bytes(#[trigger] ps[i])
        == records_bytes(ps).subrange(i * RECORD_SIZE, i * RECORD_SIZE + RECORD_SIZE) by {
        lemma_records_bytes_slice(ps, i);
    }
    lemma_records_of(records_bytes(ps), ps);
}

/// The raw stream of `ps`.
pub fn write_packets(ps: &[Packet]) -> (r: Vec<u8>)
    ensures
        r@ == records_bytes(ps@),
{
    let mut out: Vec<u8> = Vec::new();
    let mut i: usize = 0;
    while i < ps.len()
        invariant
            i <= ps@.len(),
            out@ == records_bytes(ps@.subrange(0, i as int)),
        decreases ps@.len() - i,
    {
        encode_into(&ps[i], &mut out);
        i = i + 1;
        assert(ps@.subrange(0, i as int).drop_last() =~= ps@.subrange(0, i - 1 as int));
    }
    assert(ps@.subrange(0, i as int) =~= ps@);
    out
}

/// Every whole record of `b`, in order; a trailing partial record is dropped.
pub fn decode_records(b: &[u8]) -> (r: Vec<Packet>)
    ensures
        decodes_to(b@, r@),
        r@ == records_of(b@),
{
    let n = b.len();
    let count = n / RECORD_SIZE;
    let mut out: Vec<Packet> = Vec::with_capacity(count);
    let mut i: usize = 0;
    while i < count
        invariant
            count == b@.len() / (RECORD_SIZE as nat),
            n == b@.len(),
            i <= count,
            out@.len() == i,
            forall|j: int|
                0 <= j < i ==> packet_bytes(#[trigger] out@[j]) == b@.subrange(
                    j * RECORD_SIZE,
                    j * RECORD_SIZE + RECORD_SIZE,
                ),
        decreases count - i,
    {
        assert(i * RECORD_SIZE + RECORD_SIZE <= b@.len()) by (nonlinear_arith)
            requires
                i < count,
                count == b@.len() / (RECORD_SIZE as nat),
        ;
        let p = decode_at(b, i * RECORD_SIZE);
        out.push(p);
        i = i + 1;
    }
    proof {
        lemma_records_of(b@, out@);
    }
    out
}

/// Decodes a raw stream, which must hold whole records only.
pub fn read_packets(b: &[u8]) -> (r: Result<Vec<Packet>, FormatError>)
    ensures
        match r {
            Ok(v) => b@.len() % (RECORD_SIZE as nat) == 0 && decodes_to(b@, v@) && v@ == records_of(
                b@,
            ),
            Err(e) => b@.len() % (RECORD_SIZE as nat) != 0 && e == FormatError::InvalidSize,
        },
{
    if b.len() % RECORD_SIZE != 0 {
        Err(FormatError::InvalidSize)
    } else {
        Ok(decode_records(b))
    }
}

/// The compressed stream of `ps`.
pub fn encode_compressed(ps: &[Packet]) -> (r: Result<Vec<u8>, std::io::Error>)
    ensures
        r is Ok,
        r matches Ok(v) ==> zstd_stream(v@) == Some(records_bytes(ps@)),
{
    let raw = write_packets(ps);
    zstd_compress(raw.as_slice())
}

/// Decodes a compressed stream. A stream cut off inside a frame is read up
/// to the cut, and a trailing partial record in the decompressed bytes is
/// dropped silently; an empty stream holds no packets. Bytes that are not
/// zstd data yield `CorruptStream` and no packets.
pub fn decode_compressed(frame: &[u8]) -> (r: Result<Vec<Packet>, FormatError>)
    ensures
        match zstd_stream(frame@) {
            Some(raw) => r matches Ok(v) && decodes_to(raw, v@) && v@ == records_of(raw),
            None => r == Err::<Vec<Packet>, FormatError>(FormatError::CorruptStream),
        },
{
    match zstd_decompress(frame) {
        Ok(raw) => Ok(decode_records(raw.as_slice())),
        Err(_) => Err(FormatError::CorruptStream),
    }
}

} // verus!
