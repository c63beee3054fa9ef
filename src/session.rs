//! The decisions of one capture / editing session, driven by the caller's
//! tick: what happens to drained live packets, to panel commands, and to
//! loaded or saved bytes. The caller does the I/O and the drawing.

use vstd::prelude::*;
use crate::chunk::ChunkModel;
use crate::codec::{FormatError, records_bytes, records_of, zstd_stream};
use crate::packet::Packet;
use crate::panel::{ChunkPanel, ChunkPanelEvent, ChunkPanelModel, EventGenerator, EventHandler};
use crate::persist::{read_chunks, write_chunks};
use crate::store::{ChunkSelector, Chunks, flatten, last_selector, removed, segment};

verus! {

pub struct SessionModel {
    pub store: Seq<ChunkModel>,
    pub panel: ChunkPanelModel,
    pub last_selection: Option<ChunkSelector>,
    /// The displayed selection must be drawn again.
    pub refresh: bool,
}

/// The session after one chunk panel command.
pub open spec fn handled(m: SessionModel, ev: ChunkPanelEvent) -> SessionModel {
    match ev {
        ChunkPanelEvent::ChangeSelection(sel) => if m.last_selection != Some(sel) {
            SessionModel { last_selection: Some(sel), refresh: true, ..m }
        } else {
            m
        },
        ChunkPanelEvent::RemoveChunk(sel) => {
            let store = removed(m.store, sel);
            SessionModel {
                store,
                panel: ChunkPanelModel { selection: last_selector(store), ..m.panel },
                last_selection: None,
                refresh: true,
            }
        },
    }
}

/// The session after a tick that drained `drained` from the live source:
/// recorded and followed while recording, dropped otherwise.
pub open spec fn ticked(m: SessionModel, recording: bool, drained: Seq<Packet>) -> SessionModel {
    if recording {
        let store = segment(m.store, drained);
        SessionModel {
            store,
            panel: ChunkPanelModel { selection: last_selector(store), ..m.panel },
            last_selection: None,
            ..m
        }
    } else {
        m
    }
}

pub struct Session {
    chunk_panel: ChunkPanel,
    chunks: Chunks,
    last_selection: Option<ChunkSelector>,
    refresh: bool,
}

impl View for Session {
    type V = SessionModel;

    closed spec fn view(&self) -> SessionModel {
        SessionModel {
            store: self.chunks@,
            panel: self.chunk_panel@,
            last_selection: self.last_selection,
            refresh: self.refresh,
        }
    }
}

impl Session {
    pub closed spec fn wf(&self) -> bool {
        self.chunks.wf()
    }

    pub fn new() -> (r: Session)
        ensures
            r.wf(),
            r@.store == Seq::<ChunkModel>::empty(),
            r@.panel == (ChunkPanelModel { selection: ChunkSelector(0, None), change: None, removal: None }),
            r@.last_selection == None::<ChunkSelector>,
            !r@.refresh,
    {
        Session {
            chunk_panel: ChunkPanel::new(),
            chunks: Chunks::new(),
            last_selection: None,
            refresh: false,
        }
    }

    pub fn chunks(&self) -> (r: &Chunks)
        requires
            self.wf(),
        ensures
            r@ == self@.store,
            r.wf(),
    {
        &self.chunks
    }

    pub fn chunk_panel(&self) -> (r: &ChunkPanel)
        ensures
            r@ == self@.panel,
    {
        &self.chunk_panel
    }

    /// Selects a chunk or a lap in the chunk panel.
    pub fn select(&mut self, chunk_id: usize, lap_id: Option<u16>)
        requires
            old(self).wf(),
        ensures
            final(self).wf(),
            final(self)@ == (SessionModel {
                panel: ChunkPanelModel {
                    selection: ChunkSelector(chunk_id, lap_id),
                    change: Some(ChunkSelector(chunk_id, lap_id)),
                    ..old(self)@.panel
                },
                ..old(self)@
            }),
    {
        self.chunk_panel.select(chunk_id, lap_id);
    }

    /// Asks the chunk panel for a removal.
    pub fn request_removal(&mut self, chunk_id: usize, lap_id: Option<u16>)
        requires
            old(self).wf(),
        ensures
            final(self).wf(),
            final(self)@ == (SessionModel {
                panel: ChunkPanelModel {
                    removal: Some(ChunkSelector(chunk_id, lap_id)),
                    ..old(self)@.panel
                },
                ..old(self)@
            }),
    {
        self.chunk_panel.remove_chunk(chunk_id, lap_id);
    }

    /// The packets of the current selection.
    pub fn selected_packets(&self) -> (r: &[Packet])
        requires
            self.wf(),
        ensures
            r@ == crate::store::resolved(self@.store, self@.panel.selection),
    {
        self.chunk_panel.selected_packets(&self.chunks)
    }

    /// One tick of live capture: `drained` is everything the live queue
    /// held, and `recording` the state of the control panel's switch.
    pub fn process(&mut self, recording: bool, drained: Vec<Packet>)
        requires
            old(self).wf(),
        ensures
            final(self).wf(),
            final(self)@ == ticked(old(self)@, recording, drained@),
    {
        if recording {
            self.chunks.chunkify(drained);
            self.last_selection = None;
            let sel = self.chunks.last_chunk_selector();
            self.chunk_panel.set_selection(sel);
        }
    }

    /// Hands the chunk panel's waiting commands to `handle`, selection change
    /// first.
    pub fn handle_chunk_events(&mut self)
        requires
            old(self).wf(),
        ensures
            final(self).wf(),
            final(self)@ == {
                let m = SessionModel {
                    panel: ChunkPanelModel { change: None, removal: None, ..old(self)@.panel },
                    ..old(self)@
                };
                let m1 = match old(self)@.panel.change {
                    Some(s) => handled(m, ChunkPanelEvent::ChangeSelection(s)),
                    None => m,
                };
                match old(self)@.panel.removal {
                    Some(s) => handled(m1, ChunkPanelEvent::RemoveChunk(s)),
                    None => m1,
                }
            },
    {
        let events = self.chunk_panel.take_events();
        let mut i: usize = 0;
        while i < events.len()
            invariant
                self.wf(),
                0 <= i <= events@.len(),
                events@ == crate::panel::chunk_events(old(self)@.panel.change, old(self)@.panel.removal),
                self@ == {
                    let m = SessionModel {
                        panel: ChunkPanelModel { change: None, removal: None, ..old(self)@.panel },
                        ..old(self)@
                    };
                    let c = old(self)@.panel.change;
                    let m1 = match c {
                        Some(s) => if i >= 1 { handled(m, ChunkPanelEvent::ChangeSelection(s)) } else { m },
                        None => m,
                    };
                    let k: int = if c is Some { 1 } else { 0 };
                    match old(self)@.panel.removal {
                        Some(s) => if i > k { handled(m1, ChunkPanelEvent::RemoveChunk(s)) } else { m1 },
                        None => m1,
                    }
                },
            decreases events@.len() - i,
        {
            let ev = events[i];
            self.handle(ev);
            i = i + 1;
        }
    }

    /// Tells whether the selection must be drawn again, and clears the flag.
    pub fn take_refresh(&mut self) -> (r: bool)
        requires
            old(self).wf(),
        ensures
            final(self).wf(),
            r == old(self)@.refresh,
            final(self)@ == (SessionModel { refresh: false, ..old(self)@ }),
    {
        let r = self.refresh;
        self.refresh = false;
        r
    }

    /// Replaces the store by the one saved in `frame`; on failure the
    /// session is left as it was.
    pub fn load(&mut self, frame: &[u8]) -> (r: Result<(), FormatError>)
        requires
            old(self).wf(),
        ensures
            final(self).wf(),
            match zstd_stream(frame@) {
                Some(raw) => r is Ok && final(self)@ == (SessionModel {
                    store: segment(Seq::empty(), records_of(raw)),
                    panel: ChunkPanelModel {
                        selection: last_selector(segment(Seq::empty(), records_of(raw))),
                        ..old(self)@.panel
                    },
                    last_selection: None,
                    refresh: true,
                }),
                None => r == Err::<(), FormatError>(FormatError::CorruptStream)
                    && final(self)@ == old(self)@,
            },
    {
        match read_chunks(frame) {
            Ok(chunks) => {
                self.chunks = chunks;
                self.last_selection = None;
                let sel = self.chunks.last_chunk_selector();
                self.chunk_panel.set_selection(sel);
                self.refresh = true;
                Ok(())
            },
            Err(e) => Err(e),
        }
    }

    /// The store in the compressed format.
    pub fn save(&self) -> (r: Result<Vec<u8>, std::io::Error>)
        ensures
            r is Ok,
            r matches Ok(v) ==> zstd_stream(v@) == Some(records_bytes(flatten(self@.store))),
    {
        write_chunks(&self.chunks)
    }
}

impl EventHandler<ChunkPanelEvent> for Session {
    closed spec fn can_handle(&self) -> bool {
        self.wf()
    }

    fn handle(&mut self, event: ChunkPanelEvent)
        ensures
            final(self)@ == handled(old(self)@, event),
    {
        match event {
            ChunkPanelEvent::ChangeSelection(sel) => {
                let same = match self.last_selection {
                    Some(l) => l == sel,
                    None => false,
                };
                if !same {
                    self.last_selection = Some(sel);
                    self.refresh = true;
                }
            },
            ChunkPanelEvent::RemoveChunk(sel) => {
                self.chunks.remove_chunk(&sel);
                self.last_selection = None;
                let s = self.chunks.last_chunk_selector();
                self.chunk_panel.set_selection(s);
                self.refresh = true;
            },
        }
    }
}

} // verus!
