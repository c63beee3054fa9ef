//! The telemetry record and its explicit little-endian byte layout.

use vstd::prelude::*;
use vstd::bytes::{
    spec_u16_to_le_bytes, spec_u32_from_le_bytes, spec_u32_to_le_bytes,
    u16_from_le_bytes, u16_to_le_bytes, u32_from_le_bytes, u32_to_le_bytes,
    lemma_auto_spec_u16_to_from_le_bytes, lemma_auto_spec_u32_to_from_le_bytes,
};

verus! {

broadcast use vstd::array::group_array_axioms;

/// Size in bytes of one record, on the wire and on disk.
pub const RECORD_SIZE: usize = 324;

/// Size of the opaque engine / motion / tire / car / position block.
pub const MOTION_SIZE: usize = 284;

/// Size of the opaque best / last / current lap time block.
pub const LAP_TIMES_SIZE: usize = 12;

/// Size of the opaque driver input block, including the trailing pad byte.
pub const CONTROLS_SIZE: usize = 9;

/// The kind of driving session a packet belongs to.
#[derive(Clone, Copy, Debug, PartialEq, Eq, Structural)]
pub enum GameMode {
    FreeRoam,
    Race,
}

/// One telemetry sample.
///
/// The fields the segmentation reads are decoded; everything else is kept as
/// the bytes that arrived, in their record order. Floating-point quantities
/// are held as their IEEE-754 single-precision bit patterns.
#[derive(Clone, Copy, Debug, PartialEq, Eq)]
pub struct Packet {
    /// Non-zero while telemetry is active (zero in menus).
    pub is_race_on: i32,
    /// Game clock in milliseconds; wraps eventually.
    pub timestamp_ms: u32,
    /// Engine, motion, suspension, tire, car identity, position, speed, power,
    /// torque, tire temperature, boost and fuel fields (record bytes 8..292).
    pub motion: [u8; 284],
    /// Bit pattern of the distance traveled (record bytes 292..296).
    pub distance_traveled: u32,
    /// Best, last and current lap times (record bytes 296..308).
    pub lap_times: [u8; 12],
    /// Bit pattern of the current race time (record bytes 308..312).
    pub current_race_time: u32,
    /// Lap counter (record bytes 312..314).
    pub lap_number: u16,
    /// Zero in free roam, the race position otherwise (record byte 314).
    pub race_position: u8,
    /// Accelerator, brake, clutch, hand brake, gear, steering, driving line,
    /// AI brake difference and one pad byte (record bytes 315..324).
    pub controls: [u8; 9],
}

impl Packet {
    /// The game mode of a packet, derived from its race position.
    pub open spec fn mode(self) -> GameMode {
        if self.race_position == 0 {
            GameMode::FreeRoam
        } else {
            GameMode::Race
        }
    }

    pub fn game_mode(&self) -> (r: GameMode)
        ensures
            r == self.mode(),
    {
        if self.race_position == 0 {
            GameMode::FreeRoam
        } else {
            GameMode::Race
        }
    }
}

/// The record bytes of a packet: every field in order, integers little-endian.
pub open spec fn packet_bytes(p: Packet) -> Seq<u8> {
    spec_u32_to_le_bytes(#[verifier::truncate] (p.is_race_on as u32)) + spec_u32_to_le_bytes(p.timestamp_ms) + p.motion@
        + spec_u32_to_le_bytes(p.distance_traveled) + p.lap_times@ + spec_u32_to_le_bytes(
        p.current_race_time,
    ) + spec_u16_to_le_bytes(p.lap_number) + seq![p.race_position] + p.controls@
}

pub proof fn lemma_packet_bytes_len(p: Packet)
    ensures
        packet_bytes(p).len() == RECORD_SIZE,
{
    lemma_auto_spec_u32_to_from_le_bytes();
    lemma_auto_spec_u16_to_from_le_bytes();
}

/// Two packets with the same record bytes are the same packet.
pub proof fn lemma_packet_bytes_injective(p: Packet, q: Packet)
    requires
        packet_bytes(p) == packet_bytes(q),
    ensures
        p == q,
{
    lemma_auto_spec_u32_to_from_le_bytes();
    lemma_auto_spec_u16_to_from_le_bytes();
    let b = packet_bytes(p);
    let c = packet_bytes(q);
    assert(b.subrange(0, 4) == spec_u32_to_le_bytes(#[verifier::truncate] (p.is_race_on as u32)));
    assert(c.subrange(0, 4) == spec_u32_to_le_bytes(#[verifier::truncate] (q.is_race_on as u32)));
    assert(b.subrange(4, 8) == spec_u32_to_le_bytes(p.timestamp_ms));
    assert(c.subrange(4, 8) == spec_u32_to_le_bytes(q.timestamp_ms));
    assert(b.subrange(8, 292) == p.motion@);
    assert(c.subrange(8, 292) == q.motion@);
    assert(b.subrange(292, 296) == spec_u32_to_le_bytes(p.distance_traveled));
    assert(c.subrange(292, 296) == spec_u32_to_le_bytes(q.distance_traveled));
    assert(b.subrange(296, 308) == p.lap_times@);
    assert(c.subrange(296, 308) == q.lap_times@);
    assert(b.subrange(308, 312) == spec_u32_to_le_bytes(p.current_race_time));
    assert(c.subrange(308, 312) == spec_u32_to_le_bytes(q.current_race_time));
    assert(b.subrange(312, 314) == spec_u16_to_le_bytes(p.lap_number));
    assert(c.subrange(312, 314) == spec_u16_to_le_bytes(q.lap_number));
    assert(b[314] == p.race_position);
    assert(c[314] == q.race_position);
    assert(b.subrange(315, 324) == p.controls@);
    assert(c.subrange(315, 324) == q.controls@);
    let x = p.is_race_on;
    let y = q.is_race_on;
    assert(#[verifier::truncate] (x as u32) == #[verifier::truncate] (y as u32) ==> x == y)
        by (bit_vector);
    assert(p.motion =~= q.motion);
    assert(p.lap_times =~= q.lap_times);
    assert(p.controls =~= q.controls);
}

/// The packet whose record bytes are `b`.
pub open spec fn packet_of(b: Seq<u8>) -> Packet {
    choose|p: Packet| packet_bytes(p) == b
}

pub proof fn lemma_packet_of(p: Packet)
    ensures
        packet_of(packet_bytes(p)) == p,
{
    lemma_packet_bytes_injective(packet_of(packet_bytes(p)), p);
}

/// Appends the elements of `src` to `out`.
fn push_bytes(out: &mut Vec<u8>, src: &[u8])
    ensures
        final(out)@ == old(out)@ + src@,
{
    let mut i: usize = 0;
    while i < src.len()
        invariant
            i <= src@.len(),
            out@ == old(out)@ + src@.subrange(0, i as int),
        decreases src@.len() - i,
    {
        out.push(src[i]);
        i = i + 1;
        assert(src@.subrange(0, i as int) == src@.subrange(0, i - 1 as int).push(src@[i - 1]));
    }
    assert(src@.subrange(0, src@.len() as int) == src@);
}

/// Appends the record bytes of `p` to `out`.
pub fn encode_into(p: &Packet, out: &mut Vec<u8>)
    ensures
        final(out)@ == old(out)@ + packet_bytes(*p),
{
    let mut a = u32_to_le_bytes(#[verifier::truncate] (p.is_race_on as u32));
    out.append(&mut a);
    let mut a = u32_to_le_bytes(p.timestamp_ms);
    out.append(&mut a);
    push_bytes(out, p.motion.as_slice());
    let mut a = u32_to_le_bytes(p.distance_traveled);
    out.append(&mut a);
    push_bytes(out, p.lap_times.as_slice());
    let mut a = u32_to_le_bytes(p.current_race_time);
    out.append(&mut a);
    let mut a = u16_to_le_bytes(p.lap_number);
    out.append(&mut a);
    out.push(p.race_position);
    push_bytes(out, p.controls.as_slice());
    assert(final(out)@ =~= old(out)@ + packet_bytes(*p));
}

/// The record bytes of `p`.
pub fn encode(p: &Packet) -> (r: Vec<u8>)
    ensures
        r@ == packet_bytes(*p),
        r@.len() == RECORD_SIZE,
{
    let mut out: Vec<u8> = Vec::with_capacity(RECORD_SIZE);
    encode_into(p, &mut out);
    proof {
        lemma_packet_bytes_len(*p);
        assert(out@ =~= packet_bytes(*p));
    }
    out
}

/// Decodes the record that starts at byte `at` of `b`.
pub fn decode_at(b: &[u8], at: usize) -> (r: Packet)
    requires
        at + RECORD_SIZE <= b@.len(),
    ensures
        packet_bytes(r) == b@.subrange(at as int, at + RECORD_SIZE),
{
    let n = b.len();
    let is_race_on = #[verifier::truncate] (u32_from_le_bytes(&b[at..at + 4]) as i32);
    let timestamp_ms = u32_from_le_bytes(&b[at + 4..at + 8]);
    let mut motion = [0u8; 284];
    let mut k: usize = 0;
    while k < MOTION_SIZE
        invariant
            at + RECORD_SIZE <= b@.len(),
            n == b@.len(),
            k <= MOTION_SIZE,
            forall|j: int| 0 <= j < k ==> motion@[j] == b@[at + 8 + j],
        decreases MOTION_SIZE - k,
    {
        motion[k] = b[at + 8 + k];
        k = k + 1;
    }
    let distance_traveled = u32_from_le_bytes(&b[at + 292..at + 296]);
    let mut lap_times = [0u8; 12];
    let mut k: usize = 0;
    while k < LAP_TIMES_SIZE
        invariant
            at + RECORD_SIZE <= b@.len(),
            n == b@.len(),
            k <= LAP_TIMES_SIZE,
            forall|j: int| 0 <= j < k ==> lap_times@[j] == b@[at + 296 + j],
        decreases LAP_TIMES_SIZE - k,
    {
        lap_times[k] = b[at + 296 + k];
        k = k + 1;
    }
    let current_race_time = u32_from_le_bytes(&b[at + 308..at + 312]);
    let lap_number = u16_from_le_bytes(&b[at + 312..at + 314]);
    let race_position = b[at + 314];
    let mut controls = [0u8; 9];
    let mut k: usize = 0;
    while k < CONTROLS_SIZE
        invariant
            at + RECORD_SIZE <= b@.len(),
            n == b@.len(),
            k <= CONTROLS_SIZE,
            forall|j: int| 0 <= j < k ==> controls@[j] == b@[at + 315 + j],
        decreases CONTROLS_SIZE - k,
    {
        controls[k] = b[at + 315 + k];
        k = k + 1;
    }
    let r = Packet {
        is_race_on,
        timestamp_ms,
        motion,
        distance_traveled,
        lap_times,
        current_race_time,
        lap_number,
        race_position,
        controls,
    };
    proof {
        lemma_auto_spec_u32_to_from_le_bytes();
        lemma_auto_spec_u16_to_from_le_bytes();
        let w = b@.subrange(at as int, at + 4);
        let x = spec_u32_from_le_bytes(w);
        assert(#[verifier::truncate] ((#[verifier::truncate] (x as i32)) as u32) == x) by (bit_vector);
        assert(spec_u32_to_le_bytes(#[verifier::truncate] (r.is_race_on as u32)) == w);
        assert(r.motion@ =~= b@.subrange(at + 8, at + 292));
        assert(r.lap_times@ =~= b@.subrange(at + 296, at + 308));
        assert(r.controls@ =~= b@.subrange(at + 315, at + 324));
        assert(packet_bytes(r) =~= b@.subrange(at as int, at + RECORD_SIZE));
    }
    r
}

/// Decodes one record.
pub fn decode(b: &[u8]) -> (r: Packet)
    requires
        b@.len() == RECORD_SIZE,
    ensures
        packet_bytes(r) == b@,
        r == packet_of(b@),
{
    let r = decode_at(b, 0);
    proof {
        assert(b@.subrange(0, RECORD_SIZE as int) =~= b@);
        lemma_packet_of(r);
    }
    r
}

} // verus!
