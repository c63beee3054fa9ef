use forzanalyst::codec::{
    FormatError, decode_compressed, decode_records, encode_compressed, read_packets, write_packets,
};
use forzanalyst::packet::{Packet, RECORD_SIZE, decode_at, encode};
use forzanalyst::persist::{read_chunks, write_chunks};
use forzanalyst::source::PacketFilter;
use forzanalyst::store::Chunks;

fn packet(timestamp_ms: u32, race_position: u8, lap_number: u16) -> Packet {
    let mut motion = [0u8; 284];
    for (i, b) in motion.iter_mut().enumerate() {
        *b = (i as u32 * 7 + timestamp_ms) as u8;
    }
    Packet {
        is_race_on: 1,
        timestamp_ms,
        motion,
        distance_traveled: 0x4120_0000,
        lap_times: [9u8; 12],
        current_race_time: 0x3f80_0000,
        lap_number,
        race_position,
        controls: [1, 2, 3, 4, 5, 250, 251, 252, 0],
    }
}

#[test]
fn record_layout() {
    let mut p = packet(0x0102_0304, 7, 0x0a0b);
    p.is_race_on = -2;
    let b = encode(&p);
    assert_eq!(b.len(), RECORD_SIZE);
    assert_eq!(&b[0..4], &[0xfe, 0xff, 0xff, 0xff]);
    assert_eq!(&b[4..8], &[4, 3, 2, 1]);
    assert_eq!(b[8], p.motion[0]);
    assert_eq!(&b[292..296], &[0, 0, 0x20, 0x41]);
    assert_eq!(&b[296..308], &[9u8; 12]);
    assert_eq!(&b[308..312], &[0, 0, 0x80, 0x3f]);
    assert_eq!(&b[312..314], &[0x0b, 0x0a]);
    assert_eq!(b[314], 7);
    assert_eq!(&b[315..324], &[1, 2, 3, 4, 5, 250, 251, 252, 0]);
    assert_eq!(decode_at(&b, 0), p);
}

#[test]
fn decode_then_encode_is_identity() {
    let bytes: Vec<u8> = (0..RECORD_SIZE).map(|i| (i * 31 % 256) as u8).collect();
    let p = decode_at(&bytes, 0);
    assert_eq!(encode(&p), bytes);
    assert_eq!(p.race_position, bytes[314]);
    assert_eq!(p.lap_number, u16::from_le_bytes([bytes[312], bytes[313]]));
}

#[test]
fn raw_stream_round_trip() {
    let ps = vec![packet(1, 0, 0), packet(2, 3, 1)];
    let raw = write_packets(&ps);
    assert_eq!(raw.len(), 2 * RECORD_SIZE);
    assert_eq!(read_packets(&raw), Ok(ps));
}

#[test]
fn raw_file_with_extra_byte_is_rejected() {
    let ps = vec![packet(1, 0, 0), packet(2, 0, 0), packet(3, 0, 0)];
    let mut raw = write_packets(&ps);
    raw.push(0);
    assert_eq!(read_packets(&raw), Err(FormatError::InvalidSize));
    assert_eq!(read_packets(&raw[..1]), Err(FormatError::InvalidSize));
    assert_eq!(read_packets(&[]), Ok(Vec::new()));
}

#[test]
fn partial_record_is_dropped() {
    let ps = vec![packet(1, 0, 0), packet(2, 0, 0)];
    let mut raw = write_packets(&ps);
    raw.extend_from_slice(&[1, 2, 3]);
    assert_eq!(decode_records(&raw), ps);
    let frame = zstd::stream::encode_all(&raw[..], 0).unwrap();
    assert_eq!(decode_compressed(&frame), Ok(ps));
}

#[test]
fn compressed_round_trip() {
    let ps = vec![packet(1, 0, 0), packet(2, 3, 1), packet(3, 3, 2)];
    let frame = encode_compressed(&ps).unwrap();
    assert_ne!(frame, write_packets(&ps));
    assert_eq!(zstd::stream::decode_all(&frame[..]).unwrap(), write_packets(&ps));
    assert_eq!(decode_compressed(&frame), Ok(ps));
}

#[test]
fn corrupt_stream_is_reported() {
    assert_eq!(decode_compressed(&[1, 2, 3, 4, 5]), Err(FormatError::CorruptStream));
    assert!(matches!(read_chunks(&[0xff; 40]), Err(FormatError::CorruptStream)));
}

#[test]
fn save_then_load_gives_same_packets() {
    let ps = vec![
        packet(1, 0, 0),
        packet(2, 0, 0),
        packet(3, 2, 0),
        packet(4, 2, 1),
        packet(5, 0, 0),
    ];
    let mut chunks = Chunks::new();
    chunks.chunkify(ps.clone());
    let frame = write_chunks(&chunks).unwrap();
    let loaded = read_chunks(&frame).unwrap();
    assert_eq!(loaded.all_packets(), ps);
    assert_eq!(loaded.len(), 3);
    assert_eq!(loaded.list()[1].lap_index(), chunks.list()[1].lap_index());
}

#[test]
fn duplicate_tick_accepted_once() {
    let mut filter = PacketFilter::new();
    let a = encode(&packet(10, 0, 0));
    let mut second = packet(10, 1, 0);
    second.motion[5] = 99;
    let b = encode(&second);
    assert_eq!(filter.accept(&a), Some(packet(10, 0, 0)));
    assert_eq!(filter.accept(&b), None);
    assert_eq!(filter.accept(&encode(&packet(11, 0, 0))), Some(packet(11, 0, 0)));
}

#[test]
fn first_packet_with_zero_timestamp_is_accepted() {
    let mut filter = PacketFilter::new();
    assert_eq!(filter.accept(&encode(&packet(0, 0, 0))), Some(packet(0, 0, 0)));
}

#[test]
fn inactive_and_malformed_datagrams_dropped() {
    let mut filter = PacketFilter::new();
    let mut off = packet(5, 0, 0);
    off.is_race_on = 0;
    assert_eq!(filter.accept(&encode(&off)), None);
    let mut long = encode(&packet(6, 0, 0));
    long.push(0);
    assert_eq!(filter.accept(&long), None);
    assert_eq!(filter.accept(&long[..100]), None);
    assert_eq!(filter.accept(&encode(&packet(5, 0, 0))), Some(packet(5, 0, 0)));
}

fn varied_packets(count: u32) -> Vec<Packet> {
    let mut state: u32 = 12345;
    (0..count)
        .map(|t| {
            let mut p = packet(t + 1, 0, 0);
            for b in p.motion.iter_mut() {
                state = state.wrapping_mul(1_103_515_245).wrapping_add(12_345);
                *b = (state >> 16) as u8;
            }
            p
        })
        .collect()
}

#[test]
fn cut_off_stream_is_read_up_to_the_cut() {
    let ps = varied_packets(1500);
    let frame = encode_compressed(&ps).unwrap();
    let cut = &frame[..frame.len() * 9 / 10];
    let read = decode_compressed(cut).unwrap();
    assert!(!read.is_empty());
    assert!(read.len() < ps.len());
    assert_eq!(&read[..], &ps[..read.len()]);
    let loaded = read_chunks(cut).unwrap();
    assert_eq!(loaded.all_packets(), read);
}

#[test]
fn empty_file_loads_as_empty_store() {
    assert_eq!(decode_compressed(&[]), Ok(Vec::new()));
    let loaded = read_chunks(&[]).unwrap();
    assert_eq!(loaded.len(), 0);
}
