//! A chunk: the packets of one continuous driving session, and for a race
//! its lap index.

use vstd::prelude::*;
use crate::packet::{GameMode, Packet};

verus! {

/// `Lap(lap_number, start, end)`: the chunk's packets `[start, end)`, or
/// `[start, len)` while the lap is still open (`end == None`).
#[derive(Clone, Copy, Debug, PartialEq, Eq, Structural)]
pub struct Lap(pub u16, pub usize, pub Option<usize>);

/// Mathematical content of a chunk.
pub struct ChunkModel {
    pub packets: Seq<Packet>,
    pub laps: Seq<Lap>,
}

/// One past the last packet of lap `l` in a chunk of `n` packets.
pub open spec fn lap_end(l: Lap, n: int) -> int {
    match l.2 {
        Some(e) => e as int,
        None => n,
    }
}

/// Each lap is a non-empty range inside the chunk, and the laps come in
/// increasing, non-overlapping order.
pub open spec fn laps_wf(laps: Seq<Lap>, n: int) -> bool {
    &&& forall|i: int| 0 <= i < laps.len() ==> #[trigger] laps[i].1 < lap_end(laps[i], n) <= n
    &&& forall|i: int, j: int|
        0 <= i < j < laps.len() ==> lap_end(#[trigger] laps[i], n) <= (#[trigger] laps[j]).1
}

/// `i` is the first entry of `laps` that carries lap number `num`.
pub open spec fn is_first_lap(laps: Seq<Lap>, num: u16, i: int) -> bool {
    &&& 0 <= i < laps.len()
    &&& laps[i].0 == num
    &&& forall|k: int| 0 <= k < i ==> (#[trigger] laps[k]).0 != num
}

pub open spec fn has_lap(laps: Seq<Lap>, num: u16) -> bool {
    exists|i: int| is_first_lap(laps, num, i)
}

pub open spec fn first_lap(laps: Seq<Lap>, num: u16) -> int {
    choose|i: int| is_first_lap(laps, num, i)
}

/// A lap moved `d` packets towards the front.
pub open spec fn shift_lap(l: Lap, d: int) -> Lap {
    Lap(
        l.0,
        (l.1 - d) as usize,
        match l.2 {
            Some(e) => Some((e - d) as usize),
            None => None,
        },
    )
}

pub proof fn lemma_first_lap_unique(laps: Seq<Lap>, num: u16, i: int)
    requires
        is_first_lap(laps, num, i),
    ensures
        has_lap(laps, num),
        first_lap(laps, num) == i,
{
    let j = first_lap(laps, num);
    assert(is_first_lap(laps, num, j));
    if j < i {
        assert(laps[j].0 != num);
    }
    if i < j {
        assert(laps[i].0 != num);
    }
}

pub proof fn lemma_no_lap(laps: Seq<Lap>, num: u16)
    requires
        forall|k: int| 0 <= k < laps.len() ==> (#[trigger] laps[k]).0 != num,
    ensures
        !has_lap(laps, num),
{
}

/// The lap index after packet `p` is appended to a chunk holding `packets`.
/// Only race packets are indexed; a lap number different from the previous
/// packet's closes the last lap at the new packet and opens a new one.
pub open spec fn laps_after_push(laps: Seq<Lap>, packets: Seq<Packet>, p: Packet) -> Seq<Lap> {
    let n = packets.len();
    if p.mode() == GameMode::FreeRoam {
        laps
    } else if n == 0 || packets[n - 1].lap_number != p.lap_number {
        let closed = if laps.len() == 0 {
            laps
        } else {
            laps.update(laps.len() - 1, Lap(laps.last().0, laps.last().1, Some(n as usize)))
        };
        closed.push(Lap(p.lap_number, n as usize, None))
    } else {
        laps
    }
}

impl ChunkModel {
    pub open spec fn empty() -> ChunkModel {
        ChunkModel { packets: Seq::empty(), laps: Seq::empty() }
    }

    /// The game mode of the chunk, set by its first packet.
    pub open spec fn mode(self) -> Option<GameMode> {
        if self.packets.len() == 0 {
            None
        } else {
            Some(self.packets[0].mode())
        }
    }

    /// May `p` be appended: an empty chunk takes any packet, another one only
    /// packets of its own game mode.
    pub open spec fn accepts(self, p: Packet) -> bool {
        self.packets.len() == 0 || p.mode() == self.packets[0].mode()
    }

    pub open spec fn wf(self) -> bool {
        &&& laps_wf(self.laps, self.packets.len() as int)
        &&& forall|i: int|
            0 <= i < self.packets.len() ==> (#[trigger] self.packets[i]).mode()
                == self.packets[0].mode()
        &&& (self.packets.len() > 0 && self.packets[0].mode() == GameMode::FreeRoam)
            ==> self.laps.len() == 0
    }

    pub open spec fn push(self, p: Packet) -> ChunkModel {
        ChunkModel {
            packets: self.packets.push(p),
            laps: laps_after_push(self.laps, self.packets, p),
        }
    }

    /// The packets of the first lap numbered `num`, or nothing.
    pub open spec fn lap_packets(self, num: u16) -> Seq<Packet> {
        if has_lap(self.laps, num) {
            let l = self.laps[first_lap(self.laps, num)];
            self.packets.subrange(l.1 as int, lap_end(l, self.packets.len() as int))
        } else {
            Seq::empty()
        }
    }

    /// The chunk once the first lap numbered `num` is cut out of it: its
    /// packets are removed, and the laps after it move to the front by as
    /// many packets.
    pub open spec fn without_lap(self, num: u16) -> ChunkModel {
        if has_lap(self.laps, num) {
            let i = first_lap(self.laps, num);
            let l = self.laps[i];
            let n = self.packets.len() as int;
            let d = lap_end(l, n) - l.1;
            ChunkModel {
                packets: self.packets.subrange(0, l.1 as int) + self.packets.subrange(
                    lap_end(l, n),
                    n,
                ),
                laps: self.laps.subrange(0, i) + self.laps.subrange(
                    i + 1,
                    self.laps.len() as int,
                ).map_values(|m: Lap| shift_lap(m, d)),
            }
        } else {
            self
        }
    }
}

/// The chunk that receives the packets of `s` one by one.
pub open spec fn chunk_of(s: Seq<Packet>) -> ChunkModel
    decreases s.len(),
{
    if s.len() == 0 {
        ChunkModel::empty()
    } else {
        chunk_of(s.drop_last()).push(s.last())
    }
}

pub proof fn lemma_push_wf(c: ChunkModel, p: Packet)
    requires
        c.wf(),
        c.accepts(p),
        c.packets.len() < usize::MAX,
    ensures
        c.push(p).wf(),
{
    let n = c.packets.len() as int;
    let laps = c.laps;
    assert forall|i: int, j: int| 0 <= i < j < laps.len() implies (#[trigger] laps[i]).2 is Some
        && #[trigger] laps[j] == laps[j] by {
        assert(lap_end(laps[i], n) <= laps[j].1);
        assert(laps[j].1 < lap_end(laps[j], n) <= n);
    }
    let d = c.push(p);
    assert(d.packets[0] == c.packets.push(p)[0]);
    assert forall|i: int| 0 <= i < d.packets.len() implies (#[trigger] d.packets[i]).mode()
        == d.packets[0].mode() by {
        if i < n {
            assert(d.packets[i] == c.packets[i]);
        }
    }
    let nl = d.laps;
    if p.mode() == GameMode::Race && (n == 0 || c.packets[n - 1].lap_number != p.lap_number) {
        let q = laps.len() as int;
        let fresh = Lap(p.lap_number, n as usize, None);
        if q > 0 {
            assert(laps[q - 1].1 < lap_end(laps[q - 1], n));
            let closed = laps.update(q - 1, Lap(laps[q - 1].0, laps[q - 1].1, Some(n as usize)));
            assert(nl == closed.push(fresh));
            assert(nl[q - 1] == Lap(laps[q - 1].0, laps[q - 1].1, Some(n as usize)));
            assert forall|i: int| 0 <= i < q - 1 implies nl[i] == laps[i] by {}
        } else {
            assert(nl == laps.push(fresh));
        }
        assert(nl.len() == q + 1);
        assert(nl[q] == fresh);
        assert forall|i: int| 0 <= i < nl.len() implies #[trigger] nl[i].1 < lap_end(
            nl[i],
            n + 1,
        ) <= n + 1 && (i < q - 1 ==> nl[i] == laps[i]) by {
            if i < q - 1 {
                assert(nl[i] == laps[i]);
                assert(lap_end(laps[i], n) <= laps[q - 1].1);
            }
        }
        assert forall|a: int, b: int| 0 <= a < b < nl.len() implies lap_end(
            #[trigger] nl[a],
            n + 1,
        ) <= (#[trigger] nl[b]).1 by {
            if b < q - 1 {
                assert(lap_end(laps[a], n) <= laps[b].1);
            } else if b == q - 1 {
                assert(lap_end(laps[a], n) <= laps[b].1);
            } else if a < q - 1 {
                assert(lap_end(laps[a], n) <= laps[q - 1].1);
            }
        }
    } else {
        assert(nl == laps);
        assert forall|i: int| 0 <= i < nl.len() implies #[trigger] nl[i].1 < lap_end(
            nl[i],
            n + 1,
        ) <= n + 1 by {
            assert(laps[i].1 < lap_end(laps[i], n) <= n);
        }
        assert forall|a: int, b: int| 0 <= a < b < nl.len() implies lap_end(
            #[trigger] nl[a],
            n + 1,
        ) <= (#[trigger] nl[b]).1 by {
            assert(lap_end(laps[a], n) <= laps[b].1);
            assert(laps[a].2 is Some);
        }
    }
}

pub proof fn lemma_without_lap_wf(c: ChunkModel, num: u16)
    requires
        c.wf(),
    ensures
        c.without_lap(num).wf(),
        c.without_lap(num).packets.len() <= c.packets.len(),
{
    if has_lap(c.laps, num) {
        let i = first_lap(c.laps, num);
        let laps = c.laps;
        let l = laps[i];
        let n = c.packets.len() as int;
        let e = lap_end(l, n);
        let d = e - l.1;
        let r = c.without_lap(num);
        let m = n - d;
        assert(r.packets.len() == m);
        assert forall|k: int| 0 <= k < r.laps.len() implies #[trigger] r.laps[k].1 < lap_end(
            r.laps[k],
            m,
        ) <= m && (k < i ==> r.laps[k] == laps[k] && lap_end(laps[k], n) <= l.1) && (k >= i
            ==> r.laps[k] == shift_lap(laps[k + 1], d) && lap_end(r.laps[k], m) == lap_end(
            laps[k + 1],
            n,
        ) - d && laps[k + 1].1 >= e) by {
            if k < i {
                assert(lap_end(laps[k], n) <= l.1);
                assert(laps[k].1 < lap_end(laps[k], n));
                if laps[k].2 is None {
                    assert(l.1 < e <= n);
                }
            } else {
                assert(lap_end(l, n) <= laps[k + 1].1);
                assert(laps[k + 1].1 < lap_end(laps[k + 1], n) <= n);
            }
        }
        assert forall|a: int, b: int| 0 <= a < b < r.laps.len() implies lap_end(
            #[trigger] r.laps[a],
            m,
        ) <= (#[trigger] r.laps[b]).1 by {
            if b < i {
            } else if a < i {
                assert(lap_end(laps[a], n) <= l.1);
            } else {
                assert(lap_end(laps[a + 1], n) <= laps[b + 1].1);
            }
        }
        if m > 0 {
            assert forall|k: int| 0 <= k < r.packets.len() implies (#[trigger] r.packets[k]).mode()
                == r.packets[0].mode() by {
                if k < l.1 {
                    assert(r.packets[k] == c.packets[k]);
                } else {
                    assert(r.packets[k] == c.packets[k + d]);
                }
                if l.1 > 0 {
                    assert(r.packets[0] == c.packets[0]);
                } else {
                    assert(r.packets[0] == c.packets[d]);
                }
            }
        }
    }
}

/// Relies on `Vec::shrink_to_fit`, which releases spare capacity and leaves
/// the elements as they are.
#[verifier::external_body]
fn shrink_packets(v: &mut Vec<Packet>)
    ensures
        final(v)@ == old(v)@,
{
    v.shrink_to_fit()
}

/// The packets of one continuous driving session, in arrival order, with the
/// lap index of a race session.
pub struct Chunk {
    packets: Vec<Packet>,
    lap_index: Vec<Lap>,
}

impl View for Chunk {
    type V = ChunkModel;

    closed spec fn view(&self) -> ChunkModel {
        ChunkModel { packets: self.packets@, laps: self.lap_index@ }
    }
}

impl Chunk {
    pub fn new() -> (r: Chunk)
        ensures
            r@ == ChunkModel::empty(),
            r@.wf(),
    {
        let r = Chunk { packets: Vec::new(), lap_index: Vec::new() };
        proof {
            assert(r@.packets =~= Seq::<Packet>::empty());
            assert(r@.laps =~= Seq::<Lap>::empty());
        }
        r
    }

    /// A chunk that receives `packets` one by one.
    pub fn with_packets(packets: Vec<Packet>) -> (r: Chunk)
        requires
            forall|i: int|
                0 <= i < packets@.len() ==> (#[trigger] packets@[i]).mode() == packets@[0].mode(),
        ensures
            r@ == chunk_of(packets@),
            r@.wf(),
    {
        let mut r = Chunk::new();
        let mut i: usize = 0;
        while i < packets.len()
            invariant
                i <= packets@.len(),
                r@ == chunk_of(packets@.subrange(0, i as int)),
                r@.wf(),
                r@.packets == packets@.subrange(0, i as int),
                forall|k: int|
                    0 <= k < packets@.len() ==> (#[trigger] packets@[k]).mode()
                        == packets@[0].mode(),
            decreases packets@.len() - i,
        {
            proof {
                let s = packets@.subrange(0, i + 1);
                assert(s.drop_last() =~= packets@.subrange(0, i as int));
                assert(s.last() == packets@[i as int]);
                if i > 0 {
                    assert(r@.packets[0] == packets@[0]);
                }
            }
            r.push(packets[i]);
            i = i + 1;
            proof {
                assert(r@.packets =~= packets@.subrange(0, i as int));
            }
        }
        proof {
            assert(packets@.subrange(0, i as int) =~= packets@);
        }
        r
    }

    /// The packets of the chunk, in arrival order.
    pub fn packets(&self) -> (r: &[Packet])
        ensures
            r@ == self@.packets,
    {
        self.packets.as_slice()
    }

    /// The lap index, ordered by position.
    pub fn lap_index(&self) -> (r: &[Lap])
        ensures
            r@ == self@.laps,
    {
        self.lap_index.as_slice()
    }

    /// Releases the spare capacity of a chunk that will not grow any more.
    pub fn finalize(&mut self)
        ensures
            final(self)@ == old(self)@,
    {
        if !self.is_empty() {
            shrink_packets(&mut self.packets);
        }
    }

    pub fn is_empty(&self) -> (r: bool)
        ensures
            r == (self@.packets.len() == 0),
    {
        self.packets.len() == 0
    }

    pub fn len(&self) -> (r: usize)
        ensures
            r == self@.packets.len(),
    {
        self.packets.len()
    }

    /// The game mode of the first packet; `None` for an empty chunk.
    pub fn game_mode(&self) -> (r: Option<GameMode>)
        ensures
            r == self@.mode(),
    {
        if self.packets.len() == 0 {
            None
        } else {
            Some(self.packets[0].game_mode())
        }
    }

    /// The number of entries in the lap index, as a `u16` (wrapping).
    pub fn lap_count(&self) -> (r: u16)
        ensures
            r == self@.laps.len() as u16,
    {
        #[verifier::truncate]
        (self.lap_index.len() as u16)
    }

    /// Position, start and end of the first lap numbered `lap_num`.
    fn lap_range(&self, lap_num: u16) -> (r: Option<(usize, usize, usize)>)
        requires
            self@.wf(),
        ensures
            match r {
                Some((i, b, e)) => {
                    &&& is_first_lap(self@.laps, lap_num, i as int)
                    &&& b == self@.laps[i as int].1
                    &&& e == lap_end(self@.laps[i as int], self@.packets.len() as int)
                },
                None => !has_lap(self@.laps, lap_num),
            },
    {
        let mut i: usize = 0;
        while i < self.lap_index.len()
            invariant
                i <= self@.laps.len(),
                forall|k: int| 0 <= k < i ==> (#[trigger] self@.laps[k]).0 != lap_num,
            decreases self@.laps.len() - i,
        {
            let l = self.lap_index[i];
            if l.0 == lap_num {
                let end = match l.2 {
                    Some(e) => e,
                    None => self.packets.len(),
                };
                return Some((i, l.1, end));
            }
            i = i + 1;
        }
        proof {
            lemma_no_lap(self@.laps, lap_num);
        }
        None
    }

    /// The packets of the first lap numbered `lap_num`; empty when the chunk
    /// has no such lap.
    pub fn lap_packets(&self, lap_num: u16) -> (r: &[Packet])
        requires
            self@.wf(),
        ensures
            r@ == self@.lap_packets(lap_num),
    {
        match self.lap_range(lap_num) {
            Some((i, begin, end)) => {
                proof {
                    lemma_first_lap_unique(self@.laps, lap_num, i as int);
                }
                vstd::slice::slice_subrange(self.packets.as_slice(), begin, end)
            },
            None => &[],
        }
    }

    /// Cuts the first lap numbered `lap_num` out of the chunk: its packets are
    /// removed and the laps after it move to the front. Lap numbers never
    /// change. Nothing happens when there is no such lap.
    pub fn remove_lap(&mut self, lap_num: u16)
        requires
            old(self)@.wf(),
        ensures
            final(self)@ == old(self)@.without_lap(lap_num),
            final(self)@.wf(),
    {
        proof {
            lemma_without_lap_wf(self@, lap_num);
        }
        if let Some((lap_idx, begin, end)) = self.lap_range(lap_num) {
            proof {
                lemma_first_lap_unique(self@.laps, lap_num, lap_idx as int);
            }
            let ghost pre = self@;
            proof {
                assert(pre.laps[lap_idx as int].1 < lap_end(
                    pre.laps[lap_idx as int],
                    pre.packets.len() as int,
                ) <= pre.packets.len());
            }
            let mut tail = self.packets.split_off(end);
            self.packets.truncate(begin);
            self.packets.append(&mut tail);
            self.lap_index.remove(lap_idx);
            let ghost removed = self.lap_index@;
            let ghost cut = self.packets@;
            proof {
                assert(cut =~= pre.without_lap(lap_num).packets);
            }
            let offset = end - begin;
            let mut k: usize = lap_idx;
            while k < self.lap_index.len()
                invariant
                    lap_idx <= k <= self.lap_index@.len(),
                    self.packets@ == cut,
                    self.lap_index@.len() == removed.len(),
                    removed.len() + 1 == pre.laps.len(),
                    removed == pre.laps.remove(lap_idx as int),
                    offset == end - begin,
                    is_first_lap(pre.laps, lap_num, lap_idx as int),
                    end == lap_end(pre.laps[lap_idx as int], pre.packets.len() as int),
                    laps_wf(pre.laps, pre.packets.len() as int),
                    forall|j: int| 0 <= j < lap_idx ==> self.lap_index@[j] == removed[j],
                    forall|j: int|
                        lap_idx <= j < k ==> self.lap_index@[j] == shift_lap(
                            removed[j],
                            offset as int,
                        ),
                    forall|j: int| k <= j < removed.len() ==> self.lap_index@[j] == removed[j],
                decreases self.lap_index@.len() - k,
            {
                let l = self.lap_index[k];
                proof {
                    assert(removed[k as int] == pre.laps[k + 1]);
                    assert(lap_end(pre.laps[lap_idx as int], pre.packets.len() as int)
                        <= pre.laps[k + 1].1);
                    assert(pre.laps[k + 1].1 < lap_end(pre.laps[k + 1], pre.packets.len() as int));
                }
                let end_k = match l.2 {
                    Some(e) => Some(e - offset),
                    None => None,
                };
                self.lap_index[k] = Lap(l.0, l.1 - offset, end_k);
                k = k + 1;
            }
            proof {
                let post = pre.without_lap(lap_num);
                assert(self@.packets == post.packets);
                assert(self@.laps =~= post.laps);
            }
        }
    }

    /// Appends `packet` and updates the lap index.
    pub fn push(&mut self, packet: Packet)
        requires
            old(self)@.wf(),
            old(self)@.accepts(packet),
        ensures
            final(self)@ == old(self)@.push(packet),
            final(self)@.wf(),
    {
        self.packets.push(packet);
        let n = self.packets.len() - 1;
        proof {
            lemma_push_wf(old(self)@, packet);
        }
        Self::update_index(self.packets.as_slice(), &mut self.lap_index, n);
    }

    /// Updates `lap_index` for the packet at `packet_index`, the last of `packets`.
    fn update_index(packets: &[Packet], lap_index: &mut Vec<Lap>, packet_index: usize)
        requires
            packet_index + 1 == packets@.len(),
        ensures
            final(lap_index)@ == laps_after_push(
                old(lap_index)@,
                packets@.drop_last(),
                packets@[packet_index as int],
            ),
    {
        let current = packets[packet_index];
        if current.game_mode() == GameMode::Race {
            if packet_index == 0 || packets[packet_index - 1].lap_number != current.lap_number {
                let m = lap_index.len();
                if m > 0 {
                    let last = lap_index[m - 1];
                    lap_index[m - 1] = Lap(last.0, last.1, Some(packet_index));
                }
                lap_index.push(Lap(current.lap_number, packet_index, None));
            }
        }
    }
}

} // verus!
