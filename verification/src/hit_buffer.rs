//! The hit buffer as the ray-march stage fills it.
//!
//! The buffer has a fixed number of slots and a counter.  Before a dispatch
//! every slot is unused and the counter is zero.  Each hit takes the slot that
//! the counter names and raises the counter; a hit that finds the buffer full
//! is dropped.  So the counter is the number of hits written, the slots below
//! it hold them in order, and every slot from the counter on is unused: a scan
//! that stops at the first unused slot and a reader that trusts the counter
//! see the same hits.
use vstd::prelude::*;
use crate::hit::{unused_slot, VoxelHit, VoxelHitEvent};
use crate::readback::{cleared_hits, decoded, lemma_decoded_ignores_tail};

verus! {

/// The hit buffer on the host: its slots and its counter.
#[derive(Debug)]
pub struct VoxelHitBuffer {
    pub hits: Vec<VoxelHit>,
    pub counter: u32,
}

/// The hit buffer as its content.
pub struct HitSlots {
    pub slots: Seq<VoxelHit>,
    pub counter: u32,
}

impl HitSlots {
    /// The counter does not pass the number of slots, and every slot from the
    /// counter on is unused.
    pub open spec fn wf(self) -> bool {
        &&& self.counter <= self.slots.len()
        &&& forall|i: int| self.counter <= i < self.slots.len() ==> self.slots[i] == unused_slot()
    }

    /// A buffer of `capacity` slots before a dispatch.
    pub open spec fn cleared(capacity: nat) -> HitSlots {
        HitSlots { slots: Seq::new(capacity, |i: int| unused_slot()), counter: 0 }
    }

    /// Whether the buffer has a slot left for one more hit.
    pub open spec fn has_room(self) -> bool {
        self.counter < self.slots.len() && self.counter < u32::MAX
    }

    /// The buffer after a hit arrived: written behind the hits before it, or
    /// dropped where the buffer is full.
    pub open spec fn record(self, hit: VoxelHit) -> HitSlots {
        if self.has_room() {
            HitSlots {
                slots: self.slots.update(self.counter as int, hit),
                counter: (self.counter + 1) as u32,
            }
        } else {
            self
        }
    }

    /// The hits written so far, in the order of their arrival.
    pub open spec fn written(self) -> Seq<VoxelHit> {
        self.slots.take(self.counter as int)
    }
}

impl View for VoxelHitBuffer {
    type V = HitSlots;

    open spec fn view(&self) -> HitSlots {
        HitSlots { slots: self.hits@, counter: self.counter }
    }
}

impl VoxelHitBuffer {
    /// A buffer of `capacity` slots, all unused, with the counter at zero.
    pub fn new(capacity: usize) -> (buffer: VoxelHitBuffer)
        ensures
            buffer@ == HitSlots::cleared(capacity as nat),
            buffer@.wf(),
    {
        VoxelHitBuffer { hits: cleared_hits(capacity), counter: 0 }
    }

    /// Number of slots.
    pub fn capacity(&self) -> (r: usize)
        ensures
            r == self@.slots.len(),
    {
        self.hits.len()
    }

    /// Makes every slot unused and sets the counter to zero, as before each
    /// dispatch.
    pub fn reset(&mut self)
        ensures
            final(self)@ == HitSlots::cleared(old(self)@.slots.len()),
            final(self)@.wf(),
    {
        let capacity = self.hits.len();
        self.hits = cleared_hits(capacity);
        self.counter = 0;
    }

    /// Takes one hit: writes it into the slot that the counter names and
    /// raises the counter.  Returns whether the hit was written; a hit that
    /// finds the buffer full is dropped and changes nothing.
    pub fn record(&mut self, hit: VoxelHit) -> (written: bool)
        requires
            old(self)@.wf(),
        ensures
            written == old(self)@.has_room(),
            final(self)@ == old(self)@.record(hit),
            final(self)@.wf(),
    {
        let at: usize = self.counter as usize;
        if at < self.hits.len() && self.counter < u32::MAX {
            self.hits.set(at, hit);
            self.counter = self.counter + 1;
            true
        } else {
            false
        }
    }
}

/// Recording keeps the number of slots, keeps the hits written before, and
/// adds the new hit behind them where there is room.
pub proof fn lemma_record_appends(buffer: HitSlots, hit: VoxelHit)
    requires
        buffer.wf(),
    ensures
        buffer.record(hit).wf(),
        buffer.record(hit).slots.len() == buffer.slots.len(),
        buffer.has_room() ==> buffer.record(hit).written() == buffer.written().push(hit),
        !buffer.has_room() ==> buffer.record(hit) == buffer,
{
    if buffer.has_room() {
        assert(buffer.record(hit).written() =~= buffer.written().push(hit));
    }
}

/// For a buffer filled as described, a scan to the first unused slot finds
/// what a scan of the hits that the counter counts finds: the slots behind
/// the counter add nothing.
pub proof fn lemma_scan_agrees_with_counter(buffer: HitSlots, grid_size: u32)
    requires
        buffer.wf(),
    ensures
        decoded(buffer.slots, grid_size) == decoded(buffer.written(), grid_size),
{
    if buffer.counter < buffer.slots.len() {
        assert(buffer.slots[buffer.counter as int] == unused_slot());
        lemma_decoded_ignores_tail(buffer.slots, buffer.counter as int, grid_size);
    } else {
        assert(buffer.written() =~= buffer.slots);
    }
}

/// A buffer that was cleared and not written to gives no events.
pub proof fn lemma_cleared_gives_nothing(capacity: nat, grid_size: u32)
    ensures
        HitSlots::cleared(capacity).wf(),
        decoded(HitSlots::cleared(capacity).slots, grid_size) == Seq::<VoxelHitEvent>::empty(),
{
    let buffer = HitSlots::cleared(capacity);
    lemma_scan_agrees_with_counter(buffer, grid_size);
    assert(buffer.written() =~= Seq::<VoxelHit>::empty());
}

} // verus!
