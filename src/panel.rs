//! State of the chunk and control panels, independent of any toolkit: what
//! is selected, whether recording is on, and the commands waiting to be
//! handled. At most one command of each kind waits; a newer one replaces it.

use vstd::prelude::*;
use crate::packet::Packet;
use crate::store::{ChunkSelector, Chunks, resolved};

verus! {

/// Produces commands for a handler.
pub trait EventGenerator<E> {
    /// Queues `event`, replacing a waiting command of the same kind.
    fn gen_event(&mut self, event: E);

    /// Hands out the waiting commands and forgets them.
    fn take_events(&mut self) -> Vec<E>;
}

/// Carries out commands.
pub trait EventHandler<E> {
    /// The handler's own consistency condition.
    spec fn can_handle(&self) -> bool;

    fn handle(&mut self, event: E)
        requires
            old(self).can_handle(),
        ensures
            final(self).can_handle(),
    ;
}

/// Commands of the chunk panel.
#[derive(Clone, Copy, Debug, PartialEq, Eq, Structural)]
pub enum ChunkPanelEvent {
    ChangeSelection(ChunkSelector),
    RemoveChunk(ChunkSelector),
}

pub struct ChunkPanelModel {
    pub selection: ChunkSelector,
    pub change: Option<ChunkSelector>,
    pub removal: Option<ChunkSelector>,
}

/// The waiting commands, selection change first.
pub open spec fn chunk_events(change: Option<ChunkSelector>, removal: Option<ChunkSelector>) -> Seq<ChunkPanelEvent> {
    let a = match change {
        Some(s) => seq![ChunkPanelEvent::ChangeSelection(s)],
        None => Seq::empty(),
    };
    let b = match removal {
        Some(s) => seq![ChunkPanelEvent::RemoveChunk(s)],
        None => Seq::empty(),
    };
    a + b
}

/// Selection and pending commands of the chunk list.
pub struct ChunkPanel {
    selection: ChunkSelector,
    change: Option<ChunkSelector>,
    removal: Option<ChunkSelector>,
}

impl View for ChunkPanel {
    type V = ChunkPanelModel;

    closed spec fn view(&self) -> ChunkPanelModel {
        ChunkPanelModel { selection: self.selection, change: self.change, removal: self.removal }
    }
}

impl ChunkPanel {
    /// Selects the whole first chunk, with nothing waiting.
    pub fn new() -> (r: ChunkPanel)
        ensures
            r@ == (ChunkPanelModel { selection: ChunkSelector(0, None), change: None, removal: None }),
    {
        ChunkPanel { selection: ChunkSelector(0, None), change: None, removal: None }
    }

    /// Selects a chunk or one of its laps and asks for the change to be handled.
    pub fn select(&mut self, chunk_id: usize, lap_id: Option<u16>)
        ensures
            final(self)@ == (ChunkPanelModel {
                selection: ChunkSelector(chunk_id, lap_id),
                change: Some(ChunkSelector(chunk_id, lap_id)),
                removal: old(self)@.removal,
            }),
    {
        self.selection = ChunkSelector(chunk_id, lap_id);
        self.gen_event(ChunkPanelEvent::ChangeSelection(self.selection));
    }

    pub fn is_selected(&self, chunk_id: usize, lap_id: Option<u16>) -> (r: bool)
        ensures
            r == (self@.selection == ChunkSelector(chunk_id, lap_id)),
    {
        let same_lap = match (lap_id, self.selection.1) {
            (Some(a), Some(b)) => a == b,
            (None, None) => true,
            _ => false,
        };
        chunk_id == self.selection.0 && same_lap
    }

    /// Moves the selection without queuing a command.
    pub fn set_selection(&mut self, chunk_selector: ChunkSelector)
        ensures
            final(self)@ == (ChunkPanelModel { selection: chunk_selector, ..old(self)@ }),
    {
        self.selection = chunk_selector;
    }

    pub fn get_selection(&self) -> (r: ChunkSelector)
        ensures
            r == self@.selection,
    {
        self.selection
    }

    /// The packets the selection addresses; empty when it points at nothing.
    pub fn selected_packets<'a>(&self, chunks: &'a Chunks) -> (r: &'a [Packet])
        requires
            chunks.wf(),
        ensures
            r@ == resolved(chunks@, self@.selection),
    {
        chunks.resolve(self.selection)
    }

    /// Asks for a chunk, or one of its laps, to be removed.
    pub fn remove_chunk(&mut self, chunk_id: usize, lap_id: Option<u16>)
        ensures
            final(self)@ == (ChunkPanelModel {
                removal: Some(ChunkSelector(chunk_id, lap_id)),
                ..old(self)@
            }),
    {
        self.gen_event(ChunkPanelEvent::RemoveChunk(ChunkSelector(chunk_id, lap_id)));
    }

    /// The waiting commands, selection change first; `None` when there are none.
    pub fn retrieve_events(&mut self) -> (r: Option<Vec<ChunkPanelEvent>>)
        ensures
            final(self)@ == (ChunkPanelModel { change: None, removal: None, ..old(self)@ }),
            match r {
                Some(v) => v@ == chunk_events(old(self)@.change, old(self)@.removal) && v@.len() > 0,
                None => old(self)@.change is None && old(self)@.removal is None,
            },
    {
        if self.change.is_none() && self.removal.is_none() {
            return None;
        }
        let v = self.pending();
        Some(v)
    }

    fn pending(&mut self) -> (r: Vec<ChunkPanelEvent>)
        ensures
            final(self)@ == (ChunkPanelModel { change: None, removal: None, ..old(self)@ }),
            r@ == chunk_events(old(self)@.change, old(self)@.removal),
    {
        let mut v: Vec<ChunkPanelEvent> = Vec::new();
        if let Some(s) = self.change {
            v.push(ChunkPanelEvent::ChangeSelection(s));
        }
        if let Some(s) = self.removal {
            v.push(ChunkPanelEvent::RemoveChunk(s));
        }
        self.change = None;
        self.removal = None;
        assert(v@ =~= chunk_events(old(self)@.change, old(self)@.removal));
        v
    }
}

impl EventGenerator<ChunkPanelEvent> for ChunkPanel {
    fn gen_event(&mut self, event: ChunkPanelEvent)
        ensures
            final(self)@ == match event {
                ChunkPanelEvent::ChangeSelection(s) => ChunkPanelModel { change: Some(s), ..old(self)@ },
                ChunkPanelEvent::RemoveChunk(s) => ChunkPanelModel { removal: Some(s), ..old(self)@ },
            },
    {
        match event {
            ChunkPanelEvent::ChangeSelection(s) => self.change = Some(s),
            ChunkPanelEvent::RemoveChunk(s) => self.removal = Some(s),
        }
    }

    fn take_events(&mut self) -> (r: Vec<ChunkPanelEvent>)
        ensures
            final(self)@ == (ChunkPanelModel { change: None, removal: None, ..old(self)@ }),
            r@ == chunk_events(old(self)@.change, old(self)@.removal),
    {
        self.pending()
    }
}

/// Commands of the control panel: load from or save to a file path.
#[derive(Clone, Debug)]
pub enum EventTypes {
    Load(String),
    Save(String),
}

/// A command as plain values: `(is_save, path)`.
pub open spec fn command_of(e: EventTypes) -> (bool, Seq<char>) {
    match e {
        EventTypes::Load(p) => (false, p@),
        EventTypes::Save(p) => (true, p@),
    }
}

pub struct ControlPanelModel {
    pub record: bool,
    pub next_race: bool,
    pub load: Option<Seq<char>>,
    pub save: Option<Seq<char>>,
}

/// The waiting commands, load first.
pub open spec fn control_events(load: Option<Seq<char>>, save: Option<Seq<char>>) -> Seq<(bool, Seq<char>)> {
    let a = match load {
        Some(p) => seq![(false, p)],
        None => Seq::empty(),
    };
    let b = match save {
        Some(p) => seq![(true, p)],
        None => Seq::empty(),
    };
    a + b
}

pub open spec fn opt_view(o: Option<String>) -> Option<Seq<char>> {
    match o {
        Some(s) => Some(s@),
        None => None,
    }
}

/// Recording switch, "race only" option and pending file commands.
pub struct ControlPanel {
    record: bool,
    next_race: bool,
    load: Option<String>,
    save: Option<String>,
}

impl View for ControlPanel {
    type V = ControlPanelModel;

    closed spec fn view(&self) -> ControlPanelModel {
        ControlPanelModel {
            record: self.record,
            next_race: self.next_race,
            load: opt_view(self.load),
            save: opt_view(self.save),
        }
    }
}

impl ControlPanel {
    /// Not recording, every session kind wanted, nothing waiting.
    pub fn new() -> (r: ControlPanel)
        ensures
            r@ == (ControlPanelModel { record: false, next_race: false, load: None, save: None }),
    {
        ControlPanel { record: false, next_race: false, load: None, save: None }
    }

    pub fn is_record(&self) -> (r: bool)
        ensures
            r == self@.record,
    {
        self.record
    }

    /// Whether only race sessions are wanted.
    pub fn want_next_race(&self) -> (r: bool)
        ensures
            r == self@.next_race,
    {
        self.next_race
    }

    pub fn start_race(&mut self)
        ensures
            final(self)@ == (ControlPanelModel { record: true, ..old(self)@ }),
    {
        self.record = true;
    }

    /// The start / stop button.
    pub fn toggle_record(&mut self)
        ensures
            final(self)@ == (ControlPanelModel { record: !old(self)@.record, ..old(self)@ }),
    {
        self.record = !self.record;
    }

    /// The "race only" option, which can change only while not recording.
    pub fn set_next_race(&mut self, next_race: bool)
        ensures
            final(self)@ == (ControlPanelModel {
                next_race: if old(self)@.record { old(self)@.next_race } else { next_race },
                ..old(self)@
            }),
    {
        if !self.record {
            self.next_race = next_race;
        }
    }
}

impl EventGenerator<EventTypes> for ControlPanel {
    fn gen_event(&mut self, event: EventTypes)
        ensures
            final(self)@ == (if command_of(event).0 {
                ControlPanelModel { save: Some(command_of(event).1), ..old(self)@ }
            } else {
                ControlPanelModel { load: Some(command_of(event).1), ..old(self)@ }
            }),
    {
        match event {
            EventTypes::Load(p) => self.load = Some(p),
            EventTypes::Save(p) => self.save = Some(p),
        }
    }

    fn take_events(&mut self) -> (r: Vec<EventTypes>)
        ensures
            final(self)@ == (ControlPanelModel { load: None, save: None, ..old(self)@ }),
            r@.map_values(|e: EventTypes| command_of(e)) == control_events(old(self)@.load, old(self)@.save),
    {
        let mut v: Vec<EventTypes> = Vec::new();
        let load = self.load.take();
        let save = self.save.take();
        if let Some(p) = load {
            v.push(EventTypes::Load(p));
        }
        if let Some(p) = save {
            v.push(EventTypes::Save(p));
        }
        assert(v@.map_values(|e: EventTypes| command_of(e)) =~= control_events(
            old(self)@.load,
            old(self)@.save,
        ));
        v
    }
}

} // verus!
