use forzanalyst::chunk::{Chunk, Lap};
use forzanalyst::packet::{GameMode, Packet};
use forzanalyst::store::{ChunkSelector, Chunks};

fn packet(timestamp_ms: u32, race_position: u8, lap_number: u16) -> Packet {
    Packet {
        is_race_on: 1,
        timestamp_ms,
        motion: [0u8; 284],
        distance_traveled: 0,
        lap_times: [0u8; 12],
        current_race_time: 0,
        lap_number,
        race_position,
        controls: [0u8; 9],
    }
}

fn race(laps: &[u16]) -> Vec<Packet> {
    laps.iter().enumerate().map(|(i, l)| packet(i as u32 + 1, 3, *l)).collect()
}

#[test]
fn segmentation_by_game_mode() {
    let ps = vec![packet(1, 0, 0), packet(2, 0, 0), packet(3, 2, 0), packet(4, 2, 0), packet(5, 0, 0)];
    let mut chunks = Chunks::new();
    chunks.chunkify(ps);
    let list = chunks.list();
    assert_eq!(list.len(), 3);
    let sizes: Vec<usize> = list.iter().map(|c| c.packets().len()).collect();
    assert_eq!(sizes, vec![2, 2, 1]);
    let modes: Vec<Option<GameMode>> = list.iter().map(|c| c.game_mode()).collect();
    assert_eq!(modes, vec![Some(GameMode::FreeRoam), Some(GameMode::Race), Some(GameMode::FreeRoam)]);
}

#[test]
fn chunkify_in_two_calls_continues_tail() {
    let mut chunks = Chunks::new();
    chunks.chunkify(vec![packet(1, 1, 0)]);
    chunks.chunkify(vec![packet(2, 1, 0), packet(3, 0, 0)]);
    assert_eq!(chunks.len(), 2);
    assert_eq!(chunks.list()[0].len(), 2);
    assert_eq!(chunks.last_game_mode(), Some(GameMode::FreeRoam));
}

#[test]
fn empty_input_makes_no_chunk() {
    let mut chunks = Chunks::new();
    chunks.chunkify(Vec::new());
    assert_eq!(chunks.len(), 0);
    assert_eq!(chunks.last_game_mode(), None);
    assert_eq!(chunks.last_chunk_selector(), ChunkSelector(0, None));
}

#[test]
fn finalized_empty_tail_is_reused() {
    let mut chunks = Chunks::new();
    chunks.chunkify(vec![packet(1, 0, 0)]);
    chunks.finalize_last_chunk();
    assert_eq!(chunks.len(), 2);
    chunks.append_tail(packet(2, 4, 0));
    assert_eq!(chunks.len(), 2);
    assert_eq!(chunks.list()[1].game_mode(), Some(GameMode::Race));
}

#[test]
fn lap_indexing() {
    let chunk = Chunk::with_packets(race(&[0, 0, 1, 1, 2]));
    assert_eq!(
        chunk.lap_index(),
        &[Lap(0, 0, Some(2)), Lap(1, 2, Some(4)), Lap(2, 4, None)][..]
    );
    assert_eq!(chunk.lap_count(), 3);
    assert_eq!(chunk.lap_packets(1).len(), 2);
    assert_eq!(chunk.lap_packets(1)[0].timestamp_ms, 3);
    assert_eq!(chunk.lap_packets(2).len(), 1);
}

#[test]
fn lap_removal_shifts_offsets() {
    let mut chunk = Chunk::with_packets(race(&[0, 0, 1, 1, 2]));
    chunk.remove_lap(1);
    assert_eq!(chunk.packets().len(), 3);
    assert_eq!(chunk.lap_index(), &[Lap(0, 0, Some(2)), Lap(2, 2, None)][..]);
    let lap2 = chunk.lap_packets(2);
    assert_eq!(lap2.len(), 1);
    assert_eq!(lap2[0].timestamp_ms, 5);
}

#[test]
fn removing_unknown_lap_changes_nothing() {
    let mut chunk = Chunk::with_packets(race(&[0, 1]));
    chunk.remove_lap(7);
    assert_eq!(chunk.packets().len(), 2);
    assert_eq!(chunk.lap_index(), &[Lap(0, 0, Some(1)), Lap(1, 1, None)][..]);
    assert!(chunk.lap_packets(7).is_empty());
}

#[test]
fn free_roam_chunk_has_no_laps() {
    let chunk = Chunk::with_packets(vec![packet(1, 0, 0), packet(2, 0, 1)]);
    assert!(chunk.lap_index().is_empty());
    assert_eq!(chunk.game_mode(), Some(GameMode::FreeRoam));
}

#[test]
fn removing_only_lap_removes_chunk() {
    let mut chunks = Chunks::new();
    chunks.chunkify(vec![packet(1, 0, 0), packet(2, 5, 3), packet(3, 5, 3)]);
    assert_eq!(chunks.len(), 2);
    chunks.remove_chunk(&ChunkSelector(1, Some(3)));
    assert_eq!(chunks.len(), 1);
    assert_eq!(chunks.list()[0].game_mode(), Some(GameMode::FreeRoam));
}

#[test]
fn removing_whole_chunk_renumbers() {
    let mut chunks = Chunks::new();
    chunks.chunkify(vec![packet(1, 0, 0), packet(2, 5, 0), packet(3, 0, 0)]);
    chunks.remove_chunk(&ChunkSelector(0, None));
    assert_eq!(chunks.len(), 2);
    assert_eq!(chunks.game_mode_of(ChunkSelector(0, None)), Some(GameMode::Race));
    chunks.remove_chunk(&ChunkSelector(9, None));
    chunks.remove_chunk(&ChunkSelector(9, Some(0)));
    assert_eq!(chunks.len(), 2);
    assert_eq!(chunks.game_mode_of(ChunkSelector(9, None)), None);
}

#[test]
fn selector_out_of_range_resolves_empty() {
    let mut chunks = Chunks::new();
    chunks.chunkify(vec![packet(1, 0, 0), packet(2, 1, 0), packet(3, 0, 0)]);
    assert_eq!(chunks.len(), 3);
    assert!(chunks.resolve(ChunkSelector(99, None)).is_empty());
    assert!(chunks.resolve(ChunkSelector(1, Some(42))).is_empty());
    assert_eq!(chunks.resolve(ChunkSelector(1, None)).len(), 1);
    assert_eq!(chunks.resolve(ChunkSelector(1, Some(0))).len(), 1);
}

#[test]
fn last_selector_follows_last_lap() {
    let mut chunks = Chunks::new();
    chunks.chunkify(vec![packet(1, 0, 0), packet(2, 1, 4), packet(3, 1, 6)]);
    assert_eq!(chunks.last_chunk_selector(), ChunkSelector(1, Some(6)));
    chunks.chunkify(vec![packet(4, 0, 0)]);
    assert_eq!(chunks.last_chunk_selector(), ChunkSelector(2, None));
}

#[test]
fn all_packets_in_order() {
    let mut chunks = Chunks::new();
    let ps = vec![packet(1, 0, 0), packet(2, 1, 0), packet(3, 1, 1), packet(4, 0, 0)];
    chunks.chunkify(ps.clone());
    assert_eq!(chunks.all_packets(), ps);
}
