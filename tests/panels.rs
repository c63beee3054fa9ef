use forzanalyst::packet::Packet;
use forzanalyst::panel::{ChunkPanel, ChunkPanelEvent, ControlPanel, EventGenerator, EventHandler, EventTypes};
use forzanalyst::session::Session;
use forzanalyst::store::{ChunkSelector, Chunks};
use forzanalyst::codec::FormatError;

fn packet(timestamp_ms: u32, race_position: u8, lap_number: u16) -> Packet {
    Packet {
        is_race_on: 1,
        timestamp_ms,
        motion: [0u8; 284],
        distance_traveled: 0,
        lap_times: [0u8; 12],
        current_race_time: 0,
        lap_number,
        race_position,
        controls: [0u8; 9],
    }
}

#[test]
fn chunk_panel_queues_one_event_per_kind() {
    let mut panel = ChunkPanel::new();
    assert!(panel.retrieve_events().is_none());
    panel.select(1, None);
    panel.select(2, Some(3));
    panel.remove_chunk(0, None);
    assert!(panel.is_selected(2, Some(3)));
    assert!(!panel.is_selected(2, None));
    let events = panel.retrieve_events().unwrap();
    assert_eq!(
        events,
        vec![
            ChunkPanelEvent::ChangeSelection(ChunkSelector(2, Some(3))),
            ChunkPanelEvent::RemoveChunk(ChunkSelector(0, None)),
        ]
    );
    assert!(panel.take_events().is_empty());
}

#[test]
fn chunk_panel_selected_packets() {
    let mut chunks = Chunks::new();
    chunks.chunkify(vec![packet(1, 0, 0), packet(2, 1, 0), packet(3, 1, 1)]);
    let mut panel = ChunkPanel::new();
    panel.set_selection(ChunkSelector(1, Some(1)));
    assert_eq!(panel.get_selection(), ChunkSelector(1, Some(1)));
    assert_eq!(panel.selected_packets(&chunks).len(), 1);
    panel.set_selection(ChunkSelector(5, None));
    assert!(panel.selected_packets(&chunks).is_empty());
}

#[test]
fn control_panel_state() {
    let mut panel = ControlPanel::new();
    assert!(!panel.is_record());
    panel.set_next_race(true);
    assert!(panel.want_next_race());
    panel.start_race();
    assert!(panel.is_record());
    panel.set_next_race(false);
    assert!(panel.want_next_race());
    panel.toggle_record();
    assert!(!panel.is_record());
    panel.gen_event(EventTypes::Save("a.ftm".to_string()));
    panel.gen_event(EventTypes::Load("b.ftm".to_string()));
    panel.gen_event(EventTypes::Load("c.ftm".to_string()));
    let events = panel.take_events();
    assert_eq!(events.len(), 2);
    assert!(matches!(&events[0], EventTypes::Load(p) if p == "c.ftm"));
    assert!(matches!(&events[1], EventTypes::Save(p) if p == "a.ftm"));
    assert!(panel.take_events().is_empty());
}

#[test]
fn session_records_only_while_recording() {
    let mut session = Session::new();
    session.process(false, vec![packet(1, 0, 0)]);
    assert_eq!(session.chunks().len(), 0);
    session.process(true, vec![packet(2, 0, 0), packet(3, 2, 0), packet(4, 2, 1)]);
    assert_eq!(session.chunks().len(), 2);
    assert_eq!(session.chunk_panel().get_selection(), ChunkSelector(1, Some(1)));
    assert_eq!(session.selected_packets().len(), 1);
}

#[test]
fn session_handles_panel_commands() {
    let mut session = Session::new();
    session.process(true, vec![packet(1, 0, 0), packet(2, 2, 0), packet(3, 0, 0)]);
    session.select(1, None);
    session.handle_chunk_events();
    assert!(session.take_refresh());
    assert!(!session.take_refresh());
    session.handle(ChunkPanelEvent::ChangeSelection(ChunkSelector(1, None)));
    assert!(!session.take_refresh());
    session.request_removal(0, None);
    session.handle_chunk_events();
    assert_eq!(session.chunks().len(), 2);
    assert_eq!(session.chunk_panel().get_selection(), ChunkSelector(1, None));
    assert!(session.take_refresh());
}

#[test]
fn session_save_and_load() {
    let mut session = Session::new();
    session.process(true, vec![packet(1, 0, 0), packet(2, 2, 0), packet(3, 2, 1)]);
    let frame = session.save().unwrap();
    let mut other = Session::new();
    assert_eq!(other.load(&[7u8; 16]), Err(FormatError::CorruptStream));
    assert_eq!(other.chunks().len(), 0);
    assert_eq!(other.load(&frame), Ok(()));
    assert_eq!(other.chunks().all_packets(), session.chunks().all_packets());
    assert_eq!(other.chunk_panel().get_selection(), ChunkSelector(1, Some(1)));
}
