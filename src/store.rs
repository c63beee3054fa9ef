//! The chunk store: the ordered list of chunks, the segmentation that grows
//! it, and selection and removal by position.
//!
//! A chunk is identified by its position alone: removing a chunk renumbers
//! every chunk after it, so a selector must be resolved again after any change.

use vstd::prelude::*;
use crate::packet::{GameMode, Packet};
use crate::chunk::{Chunk, ChunkModel, Lap};

verus! {

/// `ChunkSelector(position, lap)`: the whole chunk at `position` when `lap`
/// is `None`, else the lap with that number inside it.
#[derive(Clone, Copy, Debug, PartialEq, Eq, Structural)]
pub struct ChunkSelector(pub usize, pub Option<u16>);

/// Game mode of the last chunk; `None` when there is none or it is empty.
pub open spec fn tail_mode(s: Seq<ChunkModel>) -> Option<GameMode> {
    if s.len() == 0 {
        None
    } else {
        s.last().mode()
    }
}

/// One segmentation step: a packet whose game mode differs from the tail
/// chunk's opens a new chunk, unless the tail chunk is still empty, in which
/// case that chunk is reused; the packet then goes to the tail chunk.
pub open spec fn segment_step(s: Seq<ChunkModel>, p: Packet) -> Seq<ChunkModel> {
    let s1 = if s.len() == 0 {
        seq![ChunkModel::empty()]
    } else if tail_mode(s) != Some(p.mode()) && s.last().packets.len() > 0 {
        s.push(ChunkModel::empty())
    } else {
        s
    };
    s1.update(s1.len() - 1, s1.last().push(p))
}

/// The chunks after the packets of `ps` are segmented onto `s`, in order.
pub open spec fn segment(s: Seq<ChunkModel>, ps: Seq<Packet>) -> Seq<ChunkModel>
    decreases ps.len(),
{
    if ps.len() == 0 {
        s
    } else {
        segment_step(segment(s, ps.drop_last()), ps.last())
    }
}

/// All packets of the chunks, chunk after chunk.
pub open spec fn flatten(s: Seq<ChunkModel>) -> Seq<Packet>
    decreases s.len(),
{
    if s.len() == 0 {
        Seq::empty()
    } else {
        flatten(s.drop_last()) + s.last().packets
    }
}

/// What a selector addresses: nothing when the position or the lap does not exist.
pub open spec fn resolved(s: Seq<ChunkModel>, sel: ChunkSelector) -> Seq<Packet> {
    if sel.0 >= s.len() {
        Seq::empty()
    } else {
        match sel.1 {
            None => s[sel.0 as int].packets,
            Some(n) => s[sel.0 as int].lap_packets(n),
        }
    }
}

/// The store after a removal: a whole chunk goes, or a lap is cut out of its
/// chunk, and a chunk left empty goes too. Nothing changes at a position
/// that does not exist.
pub open spec fn removed(s: Seq<ChunkModel>, sel: ChunkSelector) -> Seq<ChunkModel> {
    let id = sel.0 as int;
    if id >= s.len() {
        s
    } else {
        match sel.1 {
            None => s.remove(id),
            Some(n) => {
                let c = s[id].without_lap(n);
                if c.packets.len() == 0 {
                    s.remove(id)
                } else {
                    s.update(id, c)
                }
            },
        }
    }
}

/// The selector of chunk `id`: its last lap when it is a race with laps,
/// else the whole chunk.
pub open spec fn selector_for(s: Seq<ChunkModel>, id: usize) -> ChunkSelector {
    if id < s.len() && s[id as int].mode() == Some(GameMode::Race) && s[id as int].laps.len() > 0 {
        ChunkSelector(id, Some(s[id as int].laps.last().0))
    } else {
        ChunkSelector(id, None)
    }
}

/// The selector that follows the newest data.
pub open spec fn last_selector(s: Seq<ChunkModel>) -> ChunkSelector {
    if s.len() == 0 {
        ChunkSelector(0, None)
    } else {
        selector_for(s, (s.len() - 1) as usize)
    }
}

pub proof fn lemma_flatten_push(s: Seq<ChunkModel>, c: ChunkModel)
    ensures
        flatten(s.push(c)) == flatten(s) + c.packets,
{
    assert(s.push(c).drop_last() =~= s);
}

pub proof fn lemma_flatten_step(s: Seq<ChunkModel>, p: Packet)
    ensures
        flatten(segment_step(s, p)) == flatten(s).push(p),
{
    let s1 = if s.len() == 0 {
        seq![ChunkModel::empty()]
    } else if tail_mode(s) != Some(p.mode()) && s.last().packets.len() > 0 {
        s.push(ChunkModel::empty())
    } else {
        s
    };
    if s.len() == 0 {
        lemma_flatten_push(s, ChunkModel::empty());
        assert(seq![ChunkModel::empty()] =~= s.push(ChunkModel::empty()));
    } else if tail_mode(s) != Some(p.mode()) && s.last().packets.len() > 0 {
        lemma_flatten_push(s, ChunkModel::empty());
    }
    assert(flatten(s1) =~= flatten(s));
    let t = s1.update(s1.len() - 1, s1.last().push(p));
    assert(t.drop_last() =~= s1.drop_last());
    assert(flatten(t) =~= flatten(s1).push(p));
}

/// Segmenting keeps every packet, in order.
pub proof fn lemma_flatten_segment(s: Seq<ChunkModel>, ps: Seq<Packet>)
    ensures
        flatten(segment(s, ps)) == flatten(s) + ps,
    decreases ps.len(),
{
    if ps.len() == 0 {
        assert(flatten(s) + ps =~= flatten(s));
    } else {
        lemma_flatten_segment(s, ps.drop_last());
        lemma_flatten_step(segment(s, ps.drop_last()), ps.last());
        assert(flatten(s) + ps =~= (flatten(s) + ps.drop_last()).push(ps.last()));
    }
}

/// Removing the only lap of a chunk whose lap spans all of its packets
/// removes the chunk itself: the store gets one chunk shorter.
pub proof fn lemma_remove_only_lap(s: Seq<ChunkModel>, id: usize, n: u16)
    requires
        id < s.len(),
        s[id as int].laps.len() == 1,
        s[id as int].laps[0] == Lap(n, 0, None),
    ensures
        removed(s, ChunkSelector(id, Some(n))).len() == s.len() - 1,
        removed(s, ChunkSelector(id, Some(n))) == s.remove(id as int),
{
    let c = s[id as int];
    crate::chunk::lemma_first_lap_unique(c.laps, n, 0);
    assert(c.without_lap(n).packets =~= Seq::<Packet>::empty());
}

/// The ordered list of chunks.
pub struct Chunks {
    chunks: Vec<Chunk>,
}

impl View for Chunks {
    type V = Seq<ChunkModel>;

    closed spec fn view(&self) -> Seq<ChunkModel> {
        self.chunks@.map_values(|c: Chunk| c@)
    }
}

pub open spec fn store_wf(s: Seq<ChunkModel>) -> bool {
    forall|i: int| 0 <= i < s.len() ==> (#[trigger] s[i]).wf()
}

impl Chunks {
    pub open spec fn wf(&self) -> bool {
        store_wf(self@)
    }

    pub fn new() -> (r: Chunks)
        ensures
            r@ == Seq::<ChunkModel>::empty(),
            r.wf(),
    {
        let r = Chunks { chunks: Vec::new() };
        assert(r@ =~= Seq::<ChunkModel>::empty());
        r
    }

    pub fn len(&self) -> (r: usize)
        ensures
            r == self@.len(),
    {
        self.chunks.len()
    }

    /// The chunks, in store order.
    pub fn list(&self) -> (r: &[Chunk])
        ensures
            r@.map_values(|c: Chunk| c@) == self@,
    {
        self.chunks.as_slice()
    }

    /// Trims the tail chunk and opens a new empty chunk after it.
    pub fn finalize_last_chunk(&mut self)
        requires
            old(self).wf(),
        ensures
            final(self)@ == old(self)@.push(ChunkModel::empty()),
            final(self).wf(),
    {
        let n = self.chunks.len();
        if n > 0 {
            self.chunks[n - 1].finalize();
        }
        self.chunks.push(Chunk::new());
        assert(self@ =~= old(self)@.push(ChunkModel::empty()));
    }

    /// Segments one packet onto the store.
    pub fn append_tail(&mut self, packet: Packet)
        requires
            old(self).wf(),
        ensures
            final(self)@ == segment_step(old(self)@, packet),
            final(self).wf(),
    {
        let n = self.chunks.len();
        if n == 0 {
            self.chunks.push(Chunk::new());
            assert(self@ =~= seq![ChunkModel::empty()]);
        } else {
            let opens = match self.chunks[n - 1].game_mode() {
                Some(m) => m != packet.game_mode(),
                None => true,
            };
            if opens && !self.chunks[n - 1].is_empty() {
                self.finalize_last_chunk();
            }
        }
        let ghost mid = self@;
        proof {
            let s = old(self)@;
            let s1 = if s.len() == 0 {
                seq![ChunkModel::empty()]
            } else if tail_mode(s) != Some(packet.mode()) && s.last().packets.len() > 0 {
                s.push(ChunkModel::empty())
            } else {
                s
            };
            if s.len() > 0 {
                assert(s.last() == old(self).chunks@[s.len() - 1]@);
            }
            assert(mid == s1);
            assert(mid.last().accepts(packet));
        }
        let last = self.chunks.len() - 1;
        proof {
            assert(self@[last as int] == self.chunks@[last as int]@);
        }
        self.chunks[last].push(packet);
        proof {
            assert(self@ =~= mid.update(last as int, mid[last as int].push(packet)));
            assert forall|i: int| 0 <= i < self@.len() implies (#[trigger] self@[i]).wf() by {
                if i == last {
                } else {
                    assert(self@[i] == mid[i]);
                }
            }
        }
    }

    /// Segments `packets` onto the store, in order.
    pub fn chunkify(&mut self, packets: Vec<Packet>)
        requires
            old(self).wf(),
        ensures
            final(self)@ == segment(old(self)@, packets@),
            final(self).wf(),
    {
        let mut i: usize = 0;
        while i < packets.len()
            invariant
                i <= packets@.len(),
                self.wf(),
                self@ == segment(old(self)@, packets@.subrange(0, i as int)),
            decreases packets@.len() - i,
        {
            proof {
                let s = packets@.subrange(0, i + 1);
                assert(s.drop_last() =~= packets@.subrange(0, i as int));
            }
            self.append_tail(packets[i]);
            i = i + 1;
        }
        assert(packets@.subrange(0, i as int) =~= packets@);
    }

    fn remove_at(&mut self, id: usize)
        requires
            old(self).wf(),
            id < old(self)@.len(),
        ensures
            final(self)@ == old(self)@.remove(id as int),
            final(self).wf(),
    {
        self.chunks.remove(id);
        assert(self@ =~= old(self)@.remove(id as int));
    }

    /// Removes what `chunk_selector` addresses; see `removed`.
    pub fn remove_chunk(&mut self, chunk_selector: &ChunkSelector)
        requires
            old(self).wf(),
        ensures
            final(self)@ == removed(old(self)@, *chunk_selector),
            final(self).wf(),
    {
        let id = chunk_selector.0;
        if id >= self.chunks.len() {
            return;
        }
        match chunk_selector.1 {
            None => self.remove_at(id),
            Some(lap_num) => {
                let ghost pre = self@;
                proof {
                    assert(pre[id as int] == self.chunks@[id as int]@);
                    crate::chunk::lemma_without_lap_wf(pre[id as int], lap_num);
                }
                self.chunks[id].remove_lap(lap_num);
                proof {
                    assert(self@ =~= pre.update(id as int, pre[id as int].without_lap(lap_num)));
                    assert forall|i: int| 0 <= i < self@.len() implies (#[trigger] self@[i]).wf() by {
                        if i != id {
                            assert(self@[i] == pre[i]);
                        }
                    }
                }
                if self.chunks[id].is_empty() {
                    self.remove_at(id);
                    assert(self@ =~= pre.remove(id as int));
                }
            },
        }
    }

    /// Game mode of the tail chunk.
    pub fn last_game_mode(&self) -> (r: Option<GameMode>)
        ensures
            r == tail_mode(self@),
    {
        let n = self.chunks.len();
        if n == 0 {
            None
        } else {
            self.chunks[n - 1].game_mode()
        }
    }

    /// Game mode of the chunk a selector points at; `None` when there is none.
    pub fn game_mode_of(&self, chunk_selector: ChunkSelector) -> (r: Option<GameMode>)
        ensures
            r == (if chunk_selector.0 < self@.len() {
                self@[chunk_selector.0 as int].mode()
            } else {
                None
            }),
    {
        if chunk_selector.0 < self.chunks.len() {
            self.chunks[chunk_selector.0].game_mode()
        } else {
            None
        }
    }

    fn generate_selector(&self, chunk_id: usize) -> (r: ChunkSelector)
        ensures
            r == selector_for(self@, chunk_id),
    {
        if chunk_id < self.chunks.len() {
            let chunk = &self.chunks[chunk_id];
            let is_race = match chunk.game_mode() {
                Some(GameMode::Race) => true,
                _ => false,
            };
            let laps = chunk.lap_index();
            if is_race && laps.len() > 0 {
                return ChunkSelector(chunk_id, Some(laps[laps.len() - 1].0));
            }
        }
        ChunkSelector(chunk_id, None)
    }

    /// `(last position, its last lap)` for a race chunk with laps, else
    /// `(last position, None)`; `(0, None)` for an empty store.
    pub fn last_chunk_selector(&self) -> (r: ChunkSelector)
        ensures
            r == last_selector(self@),
    {
        let n = self.chunks.len();
        if n == 0 {
            ChunkSelector(0, None)
        } else {
            self.generate_selector(n - 1)
        }
    }

    /// The packets a selector addresses; empty when its position or lap does
    /// not exist.
    pub fn resolve(&self, chunk_selector: ChunkSelector) -> (r: &[Packet])
        requires
            self.wf(),
        ensures
            r@ == resolved(self@, chunk_selector),
    {
        let id = chunk_selector.0;
        if id >= self.chunks.len() {
            return &[];
        }
        assert(self@[id as int] == self.chunks@[id as int]@);
        match chunk_selector.1 {
            None => self.chunks[id].packets(),
            Some(lap_num) => self.chunks[id].lap_packets(lap_num),
        }
    }

    /// All packets, chunk after chunk, in arrival order.
    pub fn all_packets(&self) -> (r: Vec<Packet>)
        ensures
            r@ == flatten(self@),
    {
        let mut out: Vec<Packet> = Vec::new();
        let mut i: usize = 0;
        while i < self.chunks.len()
            invariant
                i <= self@.len(),
                out@ == flatten(self@.subrange(0, i as int)),
            decreases self@.len() - i,
        {
            let ps = self.chunks[i].packets();
            let mut k: usize = 0;
            while k < ps.len()
                invariant
                    i < self@.len(),
                    k <= ps@.len(),
                    ps@ == self@[i as int].packets,
                    out@ == flatten(self@.subrange(0, i as int)) + ps@.subrange(0, k as int),
                decreases ps@.len() - k,
            {
                out.push(ps[k]);
                k = k + 1;
                assert(ps@.subrange(0, k as int) =~= ps@.subrange(0, k - 1 as int).push(ps@[k - 1]));
            }
            proof {
                assert(ps@.subrange(0, k as int) =~= ps@);
                assert(self@.subrange(0, i + 1).drop_last() =~= self@.subrange(0, i as int));
            }
            i = i + 1;
        }
        assert(self@.subrange(0, i as int) =~= self@);
        out
    }
}

} // verus!

verus! {

/// A new store holding `packets`, segmented in order.
pub fn chunkify(packets: Vec<Packet>) -> (r: Chunks)
    ensures
        r@ == segment(Seq::empty(), packets@),
        r.wf(),
{
    let mut chunks = Chunks::new();
    chunks.chunkify(packets);
    chunks
}

} // verus!
