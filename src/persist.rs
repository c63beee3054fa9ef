//! Saving and loading a chunk store. Only the packets are written; chunks and
//! laps are recomputed by segmenting the packets again on load.

use vstd::prelude::*;
use crate::codec::{
    FormatError, decode_compressed, encode_compressed, records_bytes, records_of, zstd_stream,
    lemma_records_bytes_decode,
};
use crate::packet::Packet;
use crate::store::{Chunks, chunkify, flatten, segment, lemma_flatten_segment};
use crate::chunk::ChunkModel;

verus! {

/// Loads a store from the compressed format: the packets, segmented from an
/// empty store.
pub fn read_chunks(frame: &[u8]) -> (r: Result<Chunks, FormatError>)
    ensures
        match zstd_stream(frame@) {
            Some(raw) => r matches Ok(c) && c.wf() && c@ == segment(Seq::empty(), records_of(raw)),
            None => r matches Err(e) && e == FormatError::CorruptStream,
        },
{
    match decode_compressed(frame) {
        Ok(packets) => Ok(chunkify(packets)),
        Err(e) => Err(e),
    }
}

/// Saves a store in the compressed format: every packet, chunk after chunk.
pub fn write_chunks(chunks: &Chunks) -> (r: Result<Vec<u8>, std::io::Error>)
    ensures
        r is Ok,
        r matches Ok(v) ==> zstd_stream(v@) == Some(records_bytes(flatten(chunks@))),
{
    let packets = chunks.all_packets();
    encode_compressed(packets.as_slice())
}

/// Saving the store that `ps` segments into and loading the saved bytes back
/// gives the packets of `ps` again, in order, and the same chunks and laps.
pub proof fn lemma_save_load_round_trip(ps: Seq<Packet>, frame: Seq<u8>)
    requires
        zstd_stream(frame) == Some(records_bytes(flatten(segment(Seq::empty(), ps)))),
    ensures
        flatten(segment(Seq::empty(), records_of(zstd_stream(frame).unwrap()))) == ps,
        segment(Seq::empty(), records_of(zstd_stream(frame).unwrap())) == segment(
            Seq::empty(),
            ps,
        ),
{
    lemma_flatten_segment(Seq::<ChunkModel>::empty(), ps);
    assert(flatten(Seq::<ChunkModel>::empty()) + ps =~= ps);
    lemma_records_bytes_decode(ps);
}

} // verus!
