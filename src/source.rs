//! The filter applied to live datagrams before their packets reach the store.

use vstd::prelude::*;
use crate::packet::{Packet, RECORD_SIZE, decode, packet_of};

verus! {

/// Whether a packet passes the filter after the accepted timestamp `last`:
/// telemetry must be active and the tick must not repeat the previous one.
pub open spec fn admits(last: Option<u32>, p: Packet) -> bool {
    p.is_race_on != 0 && last != Some(p.timestamp_ms)
}

/// The filter's next state and output for one datagram: a datagram that is
/// not exactly one record long is dropped, as is a packet that is not admitted.
pub open spec fn filter_step(last: Option<u32>, datagram: Seq<u8>) -> (Option<u32>, Option<Packet>) {
    if datagram.len() != RECORD_SIZE {
        (last, None)
    } else {
        let p = packet_of(datagram);
        if admits(last, p) {
            (Some(p.timestamp_ms), Some(p))
        } else {
            (last, None)
        }
    }
}

/// Drops inactive-telemetry packets, duplicate ticks and malformed datagrams.
pub struct PacketFilter {
    last_timestamp: Option<u32>,
}

impl View for PacketFilter {
    type V = Option<u32>;

    /// The timestamp of the last accepted packet.
    closed spec fn view(&self) -> Option<u32> {
        self.last_timestamp
    }
}

impl PacketFilter {
    pub fn new() -> (r: PacketFilter)
        ensures
            r@ == None::<u32>,
    {
        PacketFilter { last_timestamp: None }
    }

    /// Decodes one inbound datagram and returns its packet if it passes.
    pub fn accept(&mut self, datagram: &[u8]) -> (r: Option<Packet>)
        ensures
            (final(self)@, r) == filter_step(old(self)@, datagram@),
    {
        if datagram.len() != RECORD_SIZE {
            return None;
        }
        let p = decode(datagram);
        let duplicate = match self.last_timestamp {
            Some(t) => t == p.timestamp_ms,
            None => false,
        };
        if p.is_race_on == 0 || duplicate {
            None
        } else {
            self.last_timestamp = Some(p.timestamp_ms);
            Some(p)
        }
    }
}

/// Of two consecutive datagrams whose packets carry the same timestamp, at
/// most one is accepted; when the first one is admitted, exactly one is.
pub proof fn lemma_duplicate_tick_dropped(last: Option<u32>, a: Seq<u8>, b: Seq<u8>)
    requires
        a.len() == RECORD_SIZE,
        b.len() == RECORD_SIZE,
        packet_of(a).timestamp_ms == packet_of(b).timestamp_ms,
    ensures
        !(filter_step(last, a).1 is Some && filter_step(filter_step(last, a).0, b).1 is Some),
        admits(last, packet_of(a)) ==> filter_step(last, a).1 is Some && filter_step(
            filter_step(last, a).0,
            b,
        ).1 is None,
{
}

} // verus!
