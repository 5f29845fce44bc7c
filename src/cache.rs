//! The 64-slot table of recent literal values shared by encoder and decoder.
use vstd::prelude::*;
use crate::format::slot_of;

verus! {

/// A cache with every slot empty.
pub open spec fn empty_cache() -> Seq<Option<u8>> {
    Seq::new(64, |j: int| None::<u8>)
}

/// The cache after a literal `brightness`: its slot now holds it.
pub open spec fn cache_store(cache: Seq<Option<u8>>, brightness: u8) -> Seq<Option<u8>> {
    cache.update(slot_of(brightness), Some(brightness))
}

/// A direct-mapped table of 64 optional brightness values, keyed by the top
/// six bits of the value.
pub struct BrightnessCache {
    slots: Vec<Option<u8>>,
}

impl View for BrightnessCache {
    type V = Seq<Option<u8>>;

    closed spec fn view(&self) -> Seq<Option<u8>> {
        self.slots@
    }
}

impl BrightnessCache {
    /// The cache has exactly 64 slots.
    pub open spec fn wf(&self) -> bool {
        self@.len() == 64
    }

    /// A cache with every slot empty.
    pub fn new() -> (r: BrightnessCache)
        ensures
            r.wf(),
            r@ == empty_cache(),
    {
        let mut slots: Vec<Option<u8>> = Vec::new();
        let mut k: usize = 0;
        while k < 64
            invariant
                k <= 64,
                slots@ == Seq::new(k as nat, |j: int| None::<u8>),
            decreases 64 - k,
        {
            slots.push(None);
            k = k + 1;
            assert(slots@ =~= Seq::new(k as nat, |j: int| None::<u8>));
        }
        BrightnessCache { slots }
    }

    /// What slot `slot` holds.
    pub fn get(&self, slot: usize) -> (r: Option<u8>)
        requires
            self.wf(),
            slot < 64,
        ensures
            r == self@[slot as int],
    {
        self.slots[slot]
    }

    /// Puts `brightness` into its slot, replacing what was there.
    pub fn store(&mut self, brightness: u8)
        requires
            old(self).wf(),
        ensures
            final(self).wf(),
            final(self)@ == cache_store(old(self)@, brightness),
    {
        let slot = crate::format::pos_hash(brightness);
        self.slots.set(slot, Some(brightness));
    }
}

} // verus!
