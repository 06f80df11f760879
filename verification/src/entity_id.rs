//! Entity handles and the index from live handles to storage locations.

use vstd::prelude::*;
use crate::RowIndex;

verus! {

/// Handle of an entity: a slot index and the generation of that slot at the
/// time the handle was issued.
#[derive(Clone, Copy, PartialEq, Eq, Structural, Debug, Hash)]
pub struct EntityId {
    pub index: u32,
    pub gen: u32,
}

impl EntityId {
    /// The handle of slot `index` in generation `gen`.
    pub fn new(index: u32, gen: u32) -> (id: Self)
        ensures
            id.index == index,
            id.gen == gen,
    {
        EntityId { index, gen }
    }

    /// The slot of the handle.
    pub fn index(&self) -> (index: u32)
        ensures
            index == self.index,
    {
        self.index
    }

    /// The generation of the slot when the handle was issued.
    pub fn generation(&self) -> (gen: u32)
        ensures
            gen == self.gen,
    {
        self.gen
    }
}

/// Where an entity's data lives: the handle of its archetype and its row there.
#[derive(Clone, Copy, PartialEq, Eq, Structural, Debug)]
pub struct Location {
    pub archetype: usize,
    pub row: RowIndex,
}

#[derive(Debug)]
struct Slot {
    gen: u32,
    loc: Option<Location>,
}

/// The index from live entity handles to locations.
///
/// A slot is reused after its entity is freed, under the next generation, so
/// a handle that was freed never becomes live again. A slot whose generation
/// counter is exhausted is retired.
#[derive(Debug)]
pub struct EntityIndex {
    slots: Vec<Slot>,
    free: Vec<u32>,
}

impl View for EntityIndex {
    type V = Map<EntityId, Location>;

    closed spec fn view(&self) -> Map<EntityId, Location> {
        Map::new(|id: EntityId| self.live(id), |id: EntityId| self.slots[id.index as int].loc.unwrap())
    }
}

impl EntityIndex {
    /// The handle is the current one of an occupied slot.
    spec fn live(&self, id: EntityId) -> bool {
        &&& id.index < self.slots.len()
        &&& self.slots[id.index as int].gen == id.gen
        &&& self.slots[id.index as int].loc.is_some()
    }

    /// The handle was issued and freed: its slot has moved on to a later
    /// generation.
    pub closed spec fn stale(&self, id: EntityId) -> bool {
        &&& id.index < self.slots.len()
        &&& id.gen < self.slots[id.index as int].gen
    }

    /// The handle that the next allocation returns.
    pub closed spec fn next_id(&self) -> EntityId {
        if self.free.len() > 0 {
            EntityId { index: self.free@.last(), gen: self.slots[self.free@.last() as int].gen }
        } else {
            EntityId { index: self.slots.len() as u32, gen: 0 }
        }
    }

    /// Another handle can be allocated: a slot is free or a new one fits.
    pub closed spec fn has_room(&self) -> bool {
        self.free.len() > 0 || self.slots.len() < u32::MAX
    }

    /// Free slots are empty, listed once, and have a generation left; occupied
    /// slots have one left as well.
    pub closed spec fn wf(&self) -> bool {
        &&& self.slots.len() <= u32::MAX
        &&& forall|i: int| 0 <= i < self.slots.len() && self.slots[i].loc.is_some() ==> (
        #[trigger] self.slots[i]).gen < u32::MAX
        &&& forall|k: int|
            0 <= k < self.free.len() ==> {
                &&& (#[trigger] self.free[k]) < self.slots.len()
                &&& self.slots[self.free[k] as int].loc.is_none()
                &&& self.slots[self.free[k] as int].gen < u32::MAX
            }
        &&& forall|k: int, l: int|
            0 <= k < l < self.free.len() ==> #[trigger] self.free[k] != #[trigger] self.free[l]
    }

    /// No handle is both live and stale.
    pub proof fn lemma_live(&self, id: EntityId)
        ensures
            !(self@.contains_key(id) && self.stale(id)),
    {
    }

    /// An index without handles. The first handle it issues is slot 0 in
    /// generation 0.
    pub fn new() -> (index: Self)
        ensures
            index.wf(),
            index.has_room(),
            index@ == Map::<EntityId, Location>::empty(),
            forall|id: EntityId| !index.stale(id),
            index.next_id() == (EntityId { index: 0, gen: 0 }),
    {
        let index = EntityIndex { slots: Vec::new(), free: Vec::new() };
        index
    }

    /// Whether another handle can be allocated.
    pub fn has_capacity(&self) -> (b: bool)
        ensures
            b == self.has_room(),
    {
        self.free.len() > 0 || self.slots.len() < u32::MAX as usize
    }

    /// Issues a handle that is neither live nor stale and records `loc` for it.
    pub fn allocate(&mut self, loc: Location) -> (id: EntityId)
        requires
            old(self).wf(),
            old(self).has_room(),
        ensures
            final(self).wf(),
            id == old(self).next_id(),
            !old(self)@.contains_key(id),
            !old(self).stale(id),
            final(self)@ == old(self)@.insert(id, loc),
            forall|e: EntityId| final(self).stale(e) == old(self).stale(e),
    {
        let id = if self.free.len() > 0 {
            let index = self.free.pop().unwrap();
            let slot = &mut self.slots[index as usize];
            slot.loc = Some(loc);
            EntityId { index, gen: slot.gen }
        } else {
            let index = self.slots.len() as u32;
            self.slots.push(Slot { gen: 0, loc: Some(loc) });
            EntityId { index, gen: 0 }
        };
        id
    }

    /// Frees a live handle: it is stale from now on.
    pub fn free(&mut self, id: EntityId)
        requires
            old(self).wf(),
            old(self)@.contains_key(id),
        ensures
            final(self).wf(),
            final(self)@ == old(self)@.remove(id),
            final(self).stale(id),
            forall|e: EntityId| e != id ==> final(self).stale(e) == old(self).stale(e),
            final(self).next_id() == (if id.gen + 1 < u32::MAX {
                EntityId { index: id.index, gen: (id.gen + 1) as u32 }
            } else {
                old(self).next_id()
            }),
    {
        let slot = &mut self.slots[id.index as usize];
        slot.loc = None;
        slot.gen = slot.gen + 1;
        let retired = slot.gen == u32::MAX;
        if !retired {
            self.free.push(id.index);
        }
    }

    /// The location of a live handle; `None` for any other handle.
    pub fn get(&self, id: EntityId) -> (loc: Option<Location>)
        requires
            self.wf(),
        ensures
            loc == self@.get(id),
    {
        if (id.index as usize) < self.slots.len() {
            let slot = &self.slots[id.index as usize];
            if slot.gen == id.gen {
                return slot.loc;
            }
        }
        None
    }

    /// Whether the handle was issued and freed.
    pub fn is_stale(&self, id: EntityId) -> (b: bool)
        requires
            self.wf(),
        ensures
            b == self.stale(id),
    {
        (id.index as usize) < self.slots.len() && id.gen < self.slots[id.index as usize].gen
    }

    /// Records a new location for a live handle.
    pub fn update(&mut self, id: EntityId, loc: Location)
        requires
            old(self).wf(),
            old(self)@.contains_key(id),
        ensures
            final(self).wf(),
            final(self)@ == old(self)@.insert(id, loc),
            final(self).has_room() == old(self).has_room(),
            final(self).next_id() == old(self).next_id(),
            forall|e: EntityId| final(self).stale(e) == old(self).stale(e),
    {
        let slot = &mut self.slots[id.index as usize];
        slot.loc = Some(loc);
    }
}

} // verus!
