//! The world: the owner of the archetypes, the entity index and the resources.

use vstd::prelude::*;
use std::collections::hash_map::Entry;
use std::collections::HashMap;
use crate::db::ArchetypeStorage;
use crate::entity_id::{EntityId, EntityIndex, Location};
use crate::{hash_ty, RowIndex, TypeHash, TypeKey, UNIT_TYPE};

verus! {

broadcast use vstd::std_specs::hash::group_hash_axioms;

/// Owns every archetype, the index from entity to (archetype, row), and the
/// resources.
///
/// An archetype is created when the first entity needs it and lives as long
/// as the world; its handle is its position in creation order. Handle 0 is
/// the archetype of entities without components.
#[derive(Debug)]
pub struct World<V> {
    archetypes: Vec<ArchetypeStorage<V>>,
    lookup: HashMap<TypeHash, usize>,
    index: EntityIndex,
    resources: HashMap<TypeKey, V>,
}

impl<V> World<V> {
    /// The archetypes by handle.
    pub closed spec fn archetypes(&self) -> Seq<ArchetypeStorage<V>> {
        self.archetypes@
    }

    /// The handle of the archetype stored under each hash.
    pub closed spec fn lookup(&self) -> Map<TypeHash, usize> {
        self.lookup@
    }

    /// The location of each live entity.
    pub closed spec fn index(&self) -> Map<EntityId, Location> {
        self.index@
    }

    /// The resources by type.
    pub closed spec fn resources(&self) -> Map<TypeKey, V> {
        self.resources@
    }

    /// The entity is live.
    pub open spec fn alive(&self, id: EntityId) -> bool {
        self.index().contains_key(id)
    }

    /// The entity was despawned.
    pub closed spec fn stale(&self, id: EntityId) -> bool {
        self.index.stale(id)
    }

    /// The handle that the next spawn returns.
    pub closed spec fn next_entity(&self) -> EntityId {
        self.index.next_id()
    }

    /// The archetype that holds the entity.
    pub open spec fn archetype_of(&self, id: EntityId) -> ArchetypeStorage<V> {
        self.archetypes()[self.index()[id].archetype as int]
    }

    /// The components of a live entity, by type.
    pub open spec fn components(&self, id: EntityId) -> Map<TypeKey, V> {
        self.archetype_of(id).row_components(self.index()[id].row)
    }

    /// The live entities, each with its components.
    pub open spec fn entities(&self) -> Map<EntityId, Map<TypeKey, V>> {
        Map::new(|id: EntityId| self.alive(id), |id: EntityId| self.components(id))
    }

    /// Archetype `i` is sound, aligned, registered under its hash, and carries
    /// the unit column, which holds nothing.
    pub open spec fn archetype_ok(&self, i: int) -> bool {
        let a = self.archetypes()[i];
        &&& a.wf()
        &&& a.aligned()
        &&& a.types().contains(UNIT_TYPE)
        &&& a.column(UNIT_TYPE) == Map::<RowIndex, V>::empty()
        &&& self.lookup().contains_key(a.hash())
        &&& self.lookup()[a.hash()] == i
    }

    /// The index entry of a live entity names the row that the entity owns.
    pub open spec fn entry_ok(&self, id: EntityId) -> bool {
        let loc = self.index()[id];
        &&& loc.archetype < self.archetypes().len()
        &&& self.archetypes()[loc.archetype as int].entities().contains_key(loc.row)
        &&& self.archetypes()[loc.archetype as int].entities()[loc.row] == id
    }

    /// Row `row` of archetype `i` belongs to a live entity whose index entry
    /// names it.
    pub open spec fn row_ok(&self, i: int, row: RowIndex) -> bool {
        let id = self.archetypes()[i].entities()[row];
        &&& self.index().contains_key(id)
        &&& self.index()[id] == Location { archetype: i as usize, row }
    }

    /// Where an entity lands that moves into the archetype registered under
    /// `hash`: at the next row of that archetype, or at the first row of a
    /// new archetype if none is registered.
    pub open spec fn landing(&self, hash: TypeHash) -> Location {
        if self.lookup().contains_key(hash) {
            Location {
                archetype: self.lookup()[hash],
                row: self.archetypes()[self.lookup()[hash] as int].next_row(),
            }
        } else {
            Location { archetype: self.archetypes().len() as usize, row: 0 }
        }
    }

    /// From `before` to `after`, no archetype was added, and none changed its
    /// types, its hash or the next row it hands out.
    pub open spec fn registry_kept(before: Self, after: Self) -> bool {
        &&& after.lookup() == before.lookup()
        &&& after.archetypes().len() == before.archetypes().len()
        &&& forall|k: int|
            0 <= k < before.archetypes().len() ==> {
                let a = #[trigger] after.archetypes()[k];
                &&& a.types() == before.archetypes()[k].types()
                &&& a.hash() == before.archetypes()[k].hash()
                &&& a.next_row() == before.archetypes()[k].next_row()
            }
    }

    /// From `before` to `after`, the entity `id` has landed in the archetype
    /// registered under `hash`, which was added if there was none; no other
    /// entity has moved, and no archetype has changed its types or hash.
    pub open spec fn landed(before: Self, after: Self, id: EntityId, hash: TypeHash) -> bool {
        let target = before.landing(hash);
        &&& after.index() == before.index().insert(id, target)
        &&& after.lookup() == before.lookup().insert(hash, target.archetype)
        &&& after.archetypes().len() == before.archetypes().len() + (if before.lookup().contains_key(
            hash,
        ) {
            0int
        } else {
            1int
        })
        &&& after.archetypes()[target.archetype as int].hash() == hash
        &&& after.archetypes()[target.archetype as int].next_row() == target.row + 1
        &&& forall|k: int|
            0 <= k < before.archetypes().len() ==> {
                let a = #[trigger] after.archetypes()[k];
                &&& a.types() == before.archetypes()[k].types()
                &&& a.hash() == before.archetypes()[k].hash()
                &&& k != target.archetype ==> a.next_row() == before.archetypes()[k].next_row()
            }
    }

    /// The invariant of the world.
    pub closed spec fn wf(&self) -> bool {
        &&& self.index.wf()
        &&& self.archetypes.len() >= 1
        &&& self.archetypes[0].types() == set![UNIT_TYPE]
        &&& forall|i: int| 0 <= i < self.archetypes.len() ==> #[trigger] self.archetype_ok(i)
        &&& forall|h: TypeHash| #[trigger]
            self.lookup@.contains_key(h) ==> self.lookup@[h] < self.archetypes.len()
                && self.archetypes[self.lookup@[h] as int].hash() == h
        &&& forall|id: EntityId| #[trigger] self.index@.contains_key(id) ==> self.entry_ok(id)
        &&& forall|i: int, row: RowIndex|
            0 <= i < self.archetypes.len() && #[trigger] self.archetypes[i].entities().contains_key(row)
                ==> self.row_ok(i, row)
    }

    /// What the invariant says, in terms of the public model.
    pub proof fn lemma_wf(&self)
        requires
            self.wf(),
        ensures
            1 <= self.archetypes().len() <= usize::MAX,
            self.archetypes()[0].types() == set![UNIT_TYPE],
            forall|i: int| 0 <= i < self.archetypes().len() ==> #[trigger] self.archetype_ok(i),
            forall|h: TypeHash| #[trigger]
                self.lookup().contains_key(h) ==> self.lookup()[h] < self.archetypes().len()
                    && self.archetypes()[self.lookup()[h] as int].hash() == h,
            forall|id: EntityId| #[trigger] self.index().contains_key(id) ==> self.entry_ok(id),
            forall|i: int, row: RowIndex|
                0 <= i < self.archetypes().len() && #[trigger] self.archetypes()[i].entities().contains_key(
                    row,
                ) ==> self.row_ok(i, row),
            forall|id: EntityId| !(self.alive(id) && self.stale(id)),
    {
        assert forall|id: EntityId| !(self.alive(id) && self.stale(id)) by {
            self.index.lemma_live(id);
        }
    }

    /// A world with no entity and no resource; it holds the empty archetype.
    pub fn new() -> (world: Self)
        ensures
            world.wf(),
            world.entities() == Map::<EntityId, Map<TypeKey, V>>::empty(),
            world.resources() == Map::<TypeKey, V>::empty(),
            world.archetypes().len() == 1,
            forall|id: EntityId| !world.stale(id),
            world.spawn_ready(),
    {
        let mut archetypes: Vec<ArchetypeStorage<V>> = Vec::new();
        let unit = ArchetypeStorage::empty();
        let mut lookup: HashMap<TypeHash, usize> = HashMap::new();
        lookup.insert(unit.ty(), 0);
        archetypes.push(unit);
        let world = World { archetypes, lookup, index: EntityIndex::new(), resources: HashMap::new() };
        world
    }

    /// Spawning is possible: a handle and a row of the empty archetype are left.
    pub closed spec fn spawn_ready(&self) -> bool {
        self.index.has_room() && self.archetypes[0].next_row() < u32::MAX
    }

    /// Whether `spawn` may be called.
    pub fn can_spawn(&self) -> (b: bool)
        requires
            self.wf(),
        ensures
            b == self.spawn_ready(),
    {
        self.index.has_capacity() && self.archetypes[0].has_room()
    }

    /// Number of archetypes.
    pub fn archetype_count(&self) -> (n: usize)
        ensures
            n == self.archetypes().len(),
    {
        self.archetypes.len()
    }

    /// The archetype with handle `handle`.
    pub fn archetype(&self, handle: usize) -> (archetype: &ArchetypeStorage<V>)
        requires
            handle < self.archetypes().len(),
        ensures
            *archetype == self.archetypes()[handle as int],
    {
        &self.archetypes[handle]
    }

    /// The handle of the archetype registered under `hash`, if there is one.
    pub fn find_archetype(&self, hash: TypeHash) -> (handle: Option<usize>)
        ensures
            handle == self.lookup().get(hash),
    {
        match self.lookup.get(&hash) {
            Some(handle) => Some(*handle),
            None => None,
        }
    }

    /// Where the entity's data lives; `None` unless the entity is live.
    pub fn location(&self, id: EntityId) -> (loc: Option<Location>)
        requires
            self.wf(),
        ensures
            loc == self.index().get(id),
    {
        self.index.get(id)
    }

    /// Whether the entity is live.
    pub fn is_alive(&self, id: EntityId) -> (b: bool)
        requires
            self.wf(),
        ensures
            b == self.alive(id),
    {
        self.index.get(id).is_some()
    }

    /// Whether the handle belongs to a despawned entity.
    pub fn is_stale(&self, id: EntityId) -> (b: bool)
        requires
            self.wf(),
        ensures
            b == self.stale(id),
    {
        self.index.is_stale(id)
    }

    /// Creates an entity without components, in the empty archetype.
    pub fn spawn(&mut self) -> (id: EntityId)
        requires
            old(self).wf(),
            old(self).spawn_ready(),
        ensures
            final(self).wf(),
            id == old(self).next_entity(),
            !old(self).alive(id),
            !old(self).stale(id),
            final(self).entities() == old(self).entities().insert(id, Map::<TypeKey, V>::empty()),
            final(self).alive(id),
            final(self).components(id) == Map::<TypeKey, V>::empty(),
            Self::landed(*old(self), *final(self), id, hash_ty(UNIT_TYPE)),
            final(self).resources() == old(self).resources(),
            forall|e: EntityId| final(self).stale(e) == old(self).stale(e),
    {
        let ghost before = *self;
        proof {
            assert(before.archetype_ok(0));
        }
        let id = self.index.allocate(Location { archetype: 0, row: 0 });
        let row = self.archetypes[0].insert_entity(id);
        self.index.update(id, Location { archetype: 0, row });
        proof {
            assert(self.index@ =~= before.index@.insert(id, Location { archetype: 0, row }));
            assert(before.lookup@.contains_key(hash_ty(UNIT_TYPE)) && before.lookup@[hash_ty(UNIT_TYPE)] == 0) by {
                before.archetypes[0].lemma_hash_identity();
                crate::lemma_hash_of_set_insert(Set::empty(), UNIT_TYPE);
                crate::lemma_xor_cancel(hash_ty(UNIT_TYPE), 0);
            }
            assert(self.lookup@ =~= before.lookup@.insert(hash_ty(UNIT_TYPE), 0));
            assert forall|i: int| 0 <= i < self.archetypes.len() implies #[trigger] self.archetype_ok(
                i,
            ) by {
                assert(before.archetype_ok(i));
            }
            assert forall|e: EntityId| self.alive(e) && e != id implies #[trigger] self.components(e)
                == before.components(e) by {}
            assert(self.components(id) =~= Map::<TypeKey, V>::empty());
        }
        id
    }

    /// Removes a live entity with all its components; its handle is stale
    /// from then on. Nothing happens for a handle that is not live.
    pub fn despawn(&mut self, id: EntityId)
        requires
            old(self).wf(),
        ensures
            final(self).wf(),
            final(self).entities() == old(self).entities().remove(id),
            !final(self).alive(id),
            final(self).index() == old(self).index().remove(id),
            Self::registry_kept(*old(self), *final(self)),
            final(self).resources() == old(self).resources(),
            old(self).alive(id) ==> final(self).stale(id),
            forall|e: EntityId| e != id ==> final(self).stale(e) == old(self).stale(e),
            !old(self).alive(id) ==> final(self).stale(id) == old(self).stale(id),
            final(self).next_entity() == (if old(self).alive(id) && id.gen + 1 < u32::MAX {
                EntityId { index: id.index, gen: (id.gen + 1) as u32 }
            } else {
                old(self).next_entity()
            }),
    {
        let ghost before = *self;
        match self.index.get(id) {
            Some(loc) => {
                proof {
                    assert(before.archetype_ok(loc.archetype as int));
                }
                self.archetypes[loc.archetype].remove(loc.row);
                self.index.free(id);
                proof {
                    assert forall|i: int| 0 <= i < self.archetypes.len() implies #[trigger] self.archetype_ok(
                        i,
                    ) by {
                        assert(before.archetype_ok(i));
                        if i == loc.archetype {
                            let a = self.archetypes[i];
                            assert(a.column(UNIT_TYPE) =~= Map::<RowIndex, V>::empty());
                        }
                    }
                    assert forall|e: EntityId| self.alive(e) implies #[trigger] self.components(e)
                        == before.components(e) by {}
                }
            },
            None => {},
        }
    }

    /// The component of type `ty` of a live entity; `None` if the entity is
    /// not live or has no such component.
    pub fn get_component(&self, id: EntityId, ty: TypeKey) -> (value: Option<&V>)
        requires
            self.wf(),
        ensures
            value == (if self.alive(id) && self.components(id).contains_key(ty) {
                Some(&self.components(id)[ty])
            } else {
                None
            }),
    {
        match self.index.get(id) {
            Some(loc) => {
                proof {
                    assert(self.archetype_ok(loc.archetype as int));
                }
                self.archetypes[loc.archetype].get_component(ty, loc.row)
            },
            None => None,
        }
    }

    /// An entity can move into the archetype of `types`, registered under
    /// `hash`: the archetype registered under that hash carries exactly
    /// `types` and has a row left, or none is registered and one more
    /// archetype fits.
    pub open spec fn migration_ready(&self, types: Set<TypeKey>, hash: TypeHash) -> bool {
        if self.lookup().contains_key(hash) {
            let target = self.archetypes()[self.lookup()[hash] as int];
            &&& target.types() == types
            &&& target.next_row() < u32::MAX
        } else {
            self.archetypes().len() < usize::MAX
        }
    }

    /// A component of type `ty` can be added to the entity: the entity is live
    /// and has none of that type, and it can move into the archetype that
    /// carries its types and `ty`.
    pub open spec fn insert_ready(&self, id: EntityId, ty: TypeKey) -> bool {
        &&& self.alive(id)
        &&& !self.archetype_of(id).types().contains(ty)
        &&& self.migration_ready(
            self.archetype_of(id).types().insert(ty),
            self.archetype_of(id).hash() ^ hash_ty(ty),
        )
    }

    /// The component of type `ty` can be taken from the entity: the entity is
    /// live and has one, and it can move into the archetype that carries its
    /// other types.
    pub open spec fn remove_ready(&self, id: EntityId, ty: TypeKey) -> bool {
        &&& self.alive(id)
        &&& ty != UNIT_TYPE
        &&& self.archetype_of(id).types().contains(ty)
        &&& self.migration_ready(
            self.archetype_of(id).types().remove(ty),
            self.archetype_of(id).hash() ^ hash_ty(ty),
        )
    }

    /// Whether `insert_component` may be called with `id` and `ty`.
    pub fn can_insert_component(&self, id: EntityId, ty: TypeKey) -> (b: bool)
        requires
            self.wf(),
        ensures
            b == self.insert_ready(id, ty),
    {
        match self.index.get(id) {
            Some(loc) => {
                proof {
                    assert(self.archetype_ok(loc.archetype as int));
                }
                let source = &self.archetypes[loc.archetype];
                if source.contains_column(ty) {
                    return false;
                }
                match self.lookup.get(&source.extended_hash(ty)) {
                    Some(j) => {
                        proof {
                            assert(self.archetype_ok(*j as int));
                        }
                        let target = &self.archetypes[*j];
                        target.has_room() && target.extends(source, ty)
                    },
                    None => self.archetypes.len() < usize::MAX,
                }
            },
            None => false,
        }
    }

    /// Whether `remove_component` may be called with `id` and `ty`.
    pub fn can_remove_component(&self, id: EntityId, ty: TypeKey) -> (b: bool)
        requires
            self.wf(),
        ensures
            b == self.remove_ready(id, ty),
    {
        match self.index.get(id) {
            Some(loc) => {
                proof {
                    assert(self.archetype_ok(loc.archetype as int));
                }
                let source = &self.archetypes[loc.archetype];
                if ty == UNIT_TYPE || !source.contains_column(ty) {
                    return false;
                }
                match self.lookup.get(&source.extended_hash(ty)) {
                    Some(j) => {
                        proof {
                            assert(self.archetype_ok(*j as int));
                        }
                        let target = &self.archetypes[*j];
                        if target.contains_column(ty) {
                            return false;
                        }
                        let exact = source.extends(target, ty);
                        proof {
                            if exact {
                                assert(target.types().insert(ty).remove(ty) =~= target.types());
                            }
                        }
                        target.has_room() && exact
                    },
                    None => self.archetypes.len() < usize::MAX,
                }
            },
            None => false,
        }
    }

    /// Registering a new, empty archetype leaves the world sound and its
    /// entities as they are.
    proof fn lemma_registered(before: Self, after: Self)
        requires
            before.wf(),
            after.index == before.index,
            after.resources == before.resources,
            after.archetypes@.len() == before.archetypes@.len() + 1,
            after.archetypes@.drop_last() == before.archetypes@,
            after.archetypes@.last().wf(),
            after.archetypes@.last().aligned(),
            after.archetypes@.last().types().contains(UNIT_TYPE),
            after.archetypes@.last().entities() == Map::<RowIndex, EntityId>::empty(),
            forall|ty: TypeKey| #[trigger]
                after.archetypes@.last().column(ty) == Map::<RowIndex, V>::empty(),
            !before.lookup@.contains_key(after.archetypes@.last().hash()),
            after.lookup@ == before.lookup@.insert(
                after.archetypes@.last().hash(),
                before.archetypes@.len() as usize,
            ),
        ensures
            after.wf(),
            after.entities() == before.entities(),
    {
        let n = before.archetypes@.len() as int;
        assert forall|i: int| 0 <= i < n implies after.archetypes[i] == before.archetypes[i] by {}
        assert forall|i: int| 0 <= i < after.archetypes.len() implies #[trigger] after.archetype_ok(
            i,
        ) by {
            if i < n {
                assert(before.archetype_ok(i));
            }
        }
        assert forall|id: EntityId| #[trigger] after.index@.contains_key(id) implies after.entry_ok(
            id,
        ) by {}
        assert forall|i: int, row: RowIndex|
            0 <= i < after.archetypes.len() && #[trigger] after.archetypes[i].entities().contains_key(
                row,
            ) implies after.row_ok(i, row) by {}
        assert forall|id: EntityId| after.alive(id) implies #[trigger] after.components(id)
            == before.components(id) by {}
    }

    /// The entity `id` has moved from its row in archetype `i` to `new_row`
    /// in archetype `j`, where it has the components `comps`.
    spec fn migrated(
        before: Self,
        after: Self,
        id: EntityId,
        j: int,
        new_row: RowIndex,
        comps: Map<TypeKey, V>,
    ) -> bool {
        let loc = before.index@[id];
        let i = loc.archetype as int;
        let source = before.archetypes[i];
        let left = after.archetypes[i];
        let target = before.archetypes[j];
        let joined = after.archetypes[j];
        &&& before.index@.contains_key(id)
        &&& 0 <= j < before.archetypes.len()
        &&& i != j
        &&& after.index.wf()
        &&& after.index@ == before.index@.insert(id, Location { archetype: j as usize, row: new_row })
        &&& after.lookup == before.lookup
        &&& after.archetypes.len() == before.archetypes.len()
        &&& forall|k: int|
            0 <= k < before.archetypes.len() && k != i && k != j ==> after.archetypes[k]
                == before.archetypes[k]
        &&& left.wf()
        &&& left.type_list() == source.type_list()
        &&& left.hash() == source.hash()
        &&& left.entities() == source.entities().remove(loc.row)
        &&& forall|ty: TypeKey| #[trigger] left.column(ty) == source.column(ty).remove(loc.row)
        &&& joined.wf()
        &&& joined.type_list() == target.type_list()
        &&& joined.hash() == target.hash()
        &&& joined.entities() == target.entities().insert(new_row, id)
        &&& !target.entities().contains_key(new_row)
        &&& forall|ty: TypeKey| !(#[trigger] target.column(ty)).contains_key(new_row)
        &&& comps.dom() == target.types().remove(UNIT_TYPE)
        &&& forall|ty: TypeKey|
            target.types().contains(ty) && ty != UNIT_TYPE ==> #[trigger] joined.column(ty) == target.column(
                ty,
            ).insert(new_row, comps[ty])
        &&& joined.column(UNIT_TYPE) == target.column(UNIT_TYPE)
    }

    proof fn lemma_migrated(
        before: Self,
        after: Self,
        id: EntityId,
        j: int,
        new_row: RowIndex,
        comps: Map<TypeKey, V>,
    )
        requires
            before.wf(),
            Self::migrated(before, after, id, j, new_row, comps),
        ensures
            after.wf(),
            after.entities() =~= before.entities().insert(id, comps),
            after.alive(id),
            after.components(id) == comps,
    {
        let loc = before.index@[id];
        let i = loc.archetype as int;
        let source = before.archetypes[i];
        let left = after.archetypes[i];
        let target = before.archetypes[j];
        let joined = after.archetypes[j];
        assert forall|k: int| 0 <= k < after.archetypes.len() implies #[trigger] after.archetype_ok(
            k,
        ) by {
            assert(before.archetype_ok(k));
            if k == i {
                assert(left.column(UNIT_TYPE) =~= Map::<RowIndex, V>::empty());
            }
        }
        assert forall|e: EntityId| #[trigger] after.index@.contains_key(e) implies after.entry_ok(
            e,
        ) by {}
        assert forall|k: int, row: RowIndex|
            0 <= k < after.archetypes.len() && #[trigger] after.archetypes[k].entities().contains_key(
                row,
            ) implies after.row_ok(k, row) by {}
        assert forall|e: EntityId| after.alive(e) && e != id implies #[trigger] after.components(e)
            == before.components(e) by {}
        assert(after.components(id) =~= comps);
    }

    /// Adds `created`, an empty archetype, under `hash` and returns its
    /// handle.
    fn register(&mut self, hash: TypeHash, created: ArchetypeStorage<V>) -> (j: usize)
        requires
            old(self).wf(),
            old(self).archetypes.len() < usize::MAX,
            !old(self).lookup@.contains_key(hash),
            created.wf(),
            created.aligned(),
            created.hash() == hash,
            created.types().contains(UNIT_TYPE),
            created.entities() == Map::<RowIndex, EntityId>::empty(),
            created.next_row() == 0,
            forall|ty: TypeKey| #[trigger] created.column(ty) == Map::<RowIndex, V>::empty(),
        ensures
            final(self).wf(),
            final(self).entities() == old(self).entities(),
            final(self).index == old(self).index,
            final(self).resources == old(self).resources,
            j == old(self).archetypes.len(),
            final(self).archetypes@ == old(self).archetypes@.push(created),
            final(self).lookup@ == old(self).lookup@.insert(hash, j),
    {
        let j = self.archetypes.len();
        self.archetypes.push(created);
        self.lookup.insert(hash, j);
        proof {
            assert(self.archetypes@.drop_last() =~= old(self).archetypes@);
            Self::lemma_registered(*old(self), *self);
        }
        j
    }

    /// Gives the entity a component of type `ty`.
    ///
    /// The entity moves into the archetype that carries its types and `ty`,
    /// which is created if no entity needed it before; the components it had
    /// move along.
    pub fn insert_component(&mut self, id: EntityId, ty: TypeKey, value: V)
        requires
            old(self).wf(),
            old(self).insert_ready(id, ty),
        ensures
            final(self).wf(),
            final(self).entities() == old(self).entities().insert(
                id,
                old(self).components(id).insert(ty, value),
            ),
            final(self).alive(id),
            final(self).components(id) == old(self).components(id).insert(ty, value),
            final(self).archetype_of(id).types() == old(self).archetype_of(id).types().insert(ty),
            Self::landed(*old(self), *final(self), id, old(self).archetype_of(id).hash() ^ hash_ty(ty)),
            final(self).resources() == old(self).resources(),
            forall|e: EntityId| final(self).stale(e) == old(self).stale(e),
            final(self).next_entity() == old(self).next_entity(),
            final(self).spawn_ready() == old(self).spawn_ready(),
    {
        let ghost before = *self;
        let loc = self.index.get(id).unwrap();
        let i = loc.archetype;
        proof {
            assert(before.archetype_ok(i as int));
        }
        let hash = self.archetypes[i].extended_hash(ty);
        let found = match self.lookup.get(&hash) {
            Some(j) => Some(*j),
            None => None,
        };
        let j = match found {
            Some(j) => j,
            None => {
                let created = self.archetypes[i].extend_with_column(ty);
                self.register(hash, created)
            },
        };
        let ghost mid = *self;
        proof {
            assert(mid.archetype_ok(j as int));
        }
        let mut source = ArchetypeStorage::vacant();
        std::mem::swap(&mut source, &mut self.archetypes[i]);
        let new_row = source.move_entity(&mut self.archetypes[j], loc.row);
        std::mem::swap(&mut source, &mut self.archetypes[i]);
        self.archetypes[j].set_component(ty, id, new_row, value);
        self.index.update(id, Location { archetype: j, row: new_row });
        proof {
            let comps = before.components(id).insert(ty, value);
            let target = mid.archetypes[j as int];
            let joined = self.archetypes[j as int];
            assert(comps.dom() =~= target.types().remove(UNIT_TYPE));
            assert forall|t: TypeKey| target.types().contains(t) && t != UNIT_TYPE implies #[trigger] joined.column(
                t,
            ) == target.column(t).insert(new_row, comps[t]) by {}
            assert(joined.entities() =~= target.entities().insert(new_row, id));
            Self::lemma_migrated(mid, *self, id, j as int, new_row, comps);
            assert(self.lookup@ =~= before.lookup@.insert(hash, j));
        }
    }

    /// Takes the component of type `ty` from the entity and drops it.
    ///
    /// The entity moves into the archetype that carries its other types,
    /// which is created if no entity needed it before; its other components
    /// move along.
    pub fn remove_component(&mut self, id: EntityId, ty: TypeKey)
        requires
            old(self).wf(),
            old(self).remove_ready(id, ty),
        ensures
            final(self).wf(),
            final(self).entities() == old(self).entities().insert(
                id,
                old(self).components(id).remove(ty),
            ),
            final(self).alive(id),
            final(self).components(id) == old(self).components(id).remove(ty),
            final(self).archetype_of(id).types() == old(self).archetype_of(id).types().remove(ty),
            Self::landed(*old(self), *final(self), id, old(self).archetype_of(id).hash() ^ hash_ty(ty)),
            final(self).resources() == old(self).resources(),
            forall|e: EntityId| final(self).stale(e) == old(self).stale(e),
            final(self).next_entity() == old(self).next_entity(),
    {
        let ghost before = *self;
        let loc = self.index.get(id).unwrap();
        let i = loc.archetype;
        proof {
            assert(before.archetype_ok(i as int));
        }
        let hash = self.archetypes[i].extended_hash(ty);
        let found = match self.lookup.get(&hash) {
            Some(j) => Some(*j),
            None => None,
        };
        let j = match found {
            Some(j) => j,
            None => {
                let created = self.archetypes[i].reduce_with_column(ty);
                self.register(hash, created)
            },
        };
        let ghost mid = *self;
        proof {
            assert(mid.archetype_ok(j as int));
        }
        let mut source = ArchetypeStorage::vacant();
        std::mem::swap(&mut source, &mut self.archetypes[i]);
        let new_row = source.move_entity(&mut self.archetypes[j], loc.row);
        std::mem::swap(&mut source, &mut self.archetypes[i]);
        self.index.update(id, Location { archetype: j, row: new_row });
        proof {
            let comps = before.components(id).remove(ty);
            let target = mid.archetypes[j as int];
            assert(comps.dom() =~= target.types().remove(UNIT_TYPE));
            Self::lemma_migrated(mid, *self, id, j as int, new_row, comps);
            assert(self.lookup@ =~= before.lookup@.insert(hash, j));
        }
    }

    /// `after` is `before` with the component of type `ty` of entity `id`
    /// rewritten in place.
    spec fn component_rewritten(before: Self, after: Self, id: EntityId, ty: TypeKey) -> bool {
        let loc = before.index@[id];
        let i = loc.archetype as int;
        let a0 = before.archetypes[i];
        let a1 = after.archetypes[i];
        &&& after.index == before.index
        &&& after.lookup == before.lookup
        &&& after.resources == before.resources
        &&& after.archetypes.len() == before.archetypes.len()
        &&& forall|k: int|
            0 <= k < before.archetypes.len() && k != i ==> after.archetypes[k] == before.archetypes[k]
        &&& a1.wf()
        &&& a1.type_list() == a0.type_list()
        &&& a1.hash() == a0.hash()
        &&& a1.next_row() == a0.next_row()
        &&& a1.entities() == a0.entities()
        &&& a1.column(ty) == a0.column(ty).insert(loc.row, a1.column(ty)[loc.row])
        &&& forall|other: TypeKey| other != ty ==> #[trigger] a1.column(other) == a0.column(other)
    }

    proof fn lemma_component_rewritten(before: Self, after: Self, id: EntityId, ty: TypeKey)
        requires
            before.wf(),
            before.alive(id),
            before.components(id).contains_key(ty),
            Self::component_rewritten(before, after, id, ty),
        ensures
            after.wf(),
            after.entities() == before.entities().insert(
                id,
                before.components(id).insert(ty, after.components(id)[ty]),
            ),
            after.components(id)[ty] == after.archetype_of(id).column(ty)[before.index()[id].row],
            after.alive(id),
            after.components(id) == before.components(id).insert(ty, after.components(id)[ty]),
            after.resources() == before.resources(),
            after.index() == before.index(),
            Self::registry_kept(before, after),
            after.next_entity() == before.next_entity(),
            after.spawn_ready() == before.spawn_ready(),
            forall|e: EntityId| after.stale(e) == before.stale(e),
    {
        let loc = before.index@[id];
        let i = loc.archetype as int;
        let a0 = before.archetypes[i];
        let a1 = after.archetypes[i];
        assert forall|k: int| 0 <= k < after.archetypes.len() implies #[trigger] after.archetype_ok(
            k,
        ) by {
            assert(before.archetype_ok(k));
        }
        assert forall|e: EntityId| #[trigger] after.index@.contains_key(e) implies after.entry_ok(
            e,
        ) by {}
        assert forall|k: int, row: RowIndex|
            0 <= k < after.archetypes.len() && #[trigger] after.archetypes[k].entities().contains_key(
                row,
            ) implies after.row_ok(k, row) by {}
        assert forall|e: EntityId| after.alive(e) && e != id implies #[trigger] after.components(e)
            == before.components(e) by {}
        assert(after.components(id) =~= before.components(id).insert(ty, after.components(id)[ty]));
        assert(after.entities() =~= before.entities().insert(
            id,
            before.components(id).insert(ty, after.components(id)[ty]),
        ));
    }

    /// The component of type `ty` of a live entity, for writing; `None` if the
    /// entity is not live or has no such component.
    pub fn get_component_mut(&mut self, id: EntityId, ty: TypeKey) -> (value: Option<&mut V>)
        requires
            old(self).wf(),
        ensures
            value.is_some() == (old(self).alive(id) && old(self).components(id).contains_key(ty)),
            value is None ==> *final(self) == *old(self),
            value matches Some(v) ==> *v == old(self).components(id)[ty],
            value is Some ==> final(self).wf(),
            value matches Some(v) ==> final(self).entities() == old(self).entities().insert(
                id,
                old(self).components(id).insert(ty, *final(v)),
            ),
            value matches Some(v) ==> final(self).alive(id) && final(self).components(id) == old(
                self,
            ).components(id).insert(ty, *final(v)),
            value is Some ==> final(self).resources() == old(self).resources(),
            value is Some ==> final(self).index() == old(self).index(),
            value is Some ==> Self::registry_kept(*old(self), *final(self)),
            value is Some ==> final(self).next_entity() == old(self).next_entity(),
            value is Some ==> final(self).spawn_ready() == old(self).spawn_ready(),
            value is Some ==> forall|e: EntityId| final(self).stale(e) == old(self).stale(e),
    {
        if self.get_component(id, ty).is_none() {
            return None;
        }
        let loc = self.index.get(id).unwrap();
        proof {
            assert(self.archetype_ok(loc.archetype as int));
            assert forall|after: Self|
                #![trigger after.wf()]
                #![trigger after.entities()]
                #![trigger after.resources()]
                #![trigger after.archetypes()]
                #![trigger after.index()]
                #![trigger after.lookup()]
                #![trigger after.next_entity()]
                #![trigger after.spawn_ready()]
                #![trigger after.alive(id)]
                #![trigger after.components(id)]
                Self::component_rewritten(*old(self), after, id, ty) implies after.wf()
                && after.entities() == old(self).entities().insert(
                id,
                old(self).components(id).insert(ty, after.components(id)[ty]),
            ) && after.alive(id) && after.components(id) == old(self).components(id).insert(
                ty,
                after.components(id)[ty],
            ) && after.components(id)[ty] == after.archetype_of(id).column(ty)[loc.row]
                && after.resources() == old(self).resources() && after.index() == old(self).index()
                && Self::registry_kept(*old(self), after) && after.next_entity() == old(
                self,
            ).next_entity() && after.spawn_ready() == old(self).spawn_ready() by {
                Self::lemma_component_rewritten(*old(self), after, id, ty);
            }
        }
        self.archetypes[loc.archetype].get_component_mut(ty, loc.row)
    }

    /// Stores `value` as the resource of type `ty`, in place of an earlier one.
    pub fn insert_resource(&mut self, ty: TypeKey, value: V)
        requires
            old(self).wf(),
        ensures
            final(self).wf(),
            final(self).resources() == old(self).resources().insert(ty, value),
            final(self).entities() == old(self).entities(),
            final(self).archetypes() == old(self).archetypes(),
            final(self).index() == old(self).index(),
            Self::registry_kept(*old(self), *final(self)),
            final(self).next_entity() == old(self).next_entity(),
            final(self).spawn_ready() == old(self).spawn_ready(),
            forall|e: EntityId| final(self).stale(e) == old(self).stale(e),
    {
        let _ = self.resources.insert(ty, value);
        proof {
            Self::lemma_resources_rewritten(*old(self), *self);
        }
    }

    /// Takes the resource of type `ty` out of the world.
    pub fn remove_resource(&mut self, ty: TypeKey) -> (value: Option<V>)
        requires
            old(self).wf(),
        ensures
            final(self).wf(),
            value == old(self).resources().get(ty),
            final(self).resources() == old(self).resources().remove(ty),
            final(self).entities() == old(self).entities(),
            final(self).archetypes() == old(self).archetypes(),
            final(self).index() == old(self).index(),
            Self::registry_kept(*old(self), *final(self)),
            final(self).next_entity() == old(self).next_entity(),
            final(self).spawn_ready() == old(self).spawn_ready(),
            forall|e: EntityId| final(self).stale(e) == old(self).stale(e),
    {
        let value = self.resources.remove(&ty);
        proof {
            Self::lemma_resources_rewritten(*old(self), *self);
        }
        value
    }

    /// The resource of type `ty`, if there is one.
    pub fn get_resource(&self, ty: TypeKey) -> (value: Option<&V>)
        ensures
            value == match self.resources().get(ty) {
                Some(v) => Some(&v),
                None => None,
            },
    {
        self.resources.get(&ty)
    }

    /// `after` is `before` with other resources.
    spec fn resources_rewritten(before: Self, after: Self) -> bool {
        &&& after.index == before.index
        &&& after.lookup == before.lookup
        &&& after.archetypes == before.archetypes
    }

    proof fn lemma_resources_rewritten(before: Self, after: Self)
        requires
            before.wf(),
            Self::resources_rewritten(before, after),
        ensures
            after.wf(),
            after.entities() == before.entities(),
            after.archetypes() == before.archetypes(),
            after.index() == before.index(),
            Self::registry_kept(before, after),
            after.next_entity() == before.next_entity(),
            after.spawn_ready() == before.spawn_ready(),
            forall|e: EntityId| after.stale(e) == before.stale(e),
    {
        assert forall|i: int| 0 <= i < after.archetypes.len() implies #[trigger] after.archetype_ok(
            i,
        ) by {
            assert(before.archetype_ok(i));
        }
        assert forall|id: EntityId| #[trigger] after.index@.contains_key(id) implies after.entry_ok(
            id,
        ) by {}
        assert forall|i: int, row: RowIndex|
            0 <= i < after.archetypes.len() && #[trigger] after.archetypes[i].entities().contains_key(
                row,
            ) implies after.row_ok(i, row) by {}
    }

    /// The resource of type `ty`, for writing, if there is one.
    pub fn get_resource_mut(&mut self, ty: TypeKey) -> (value: Option<&mut V>)
        requires
            old(self).wf(),
        ensures
            value.is_some() == old(self).resources().contains_key(ty),
            value is None ==> *final(self) == *old(self),
            value matches Some(v) ==> *v == old(self).resources()[ty],
            value matches Some(v) ==> final(self).resources() == old(self).resources().insert(
                ty,
                *final(v),
            ),
            value is Some ==> final(self).wf(),
            value is Some ==> final(self).entities() == old(self).entities(),
            value is Some ==> final(self).archetypes() == old(self).archetypes(),
            value is Some ==> final(self).index() == old(self).index(),
            value is Some ==> Self::registry_kept(*old(self), *final(self)),
            value is Some ==> final(self).next_entity() == old(self).next_entity(),
            value is Some ==> final(self).spawn_ready() == old(self).spawn_ready(),
            value is Some ==> forall|e: EntityId| final(self).stale(e) == old(self).stale(e),
    {
        if !self.resources.contains_key(&ty) {
            return None;
        }
        proof {
            assert forall|after: Self|
                #![trigger after.wf()]
                #![trigger after.entities()]
                #![trigger after.archetypes()]
                #![trigger after.index()]
                #![trigger after.lookup()]
                #![trigger after.next_entity()]
                #![trigger after.spawn_ready()]
                Self::resources_rewritten(*old(self), after) implies after.wf() && after.entities()
                == old(self).entities() && after.archetypes() == old(self).archetypes()
                && after.index() == old(self).index() && Self::registry_kept(*old(self), after)
                && after.next_entity() == old(self).next_entity() && after.spawn_ready() == old(
                self,
            ).spawn_ready() by {
                Self::lemma_resources_rewritten(*old(self), after);
            }
        }
        match self.resources.entry(ty) {
            Entry::Occupied(entry) => Some(entry.into_mut()),
            Entry::Vacant(_) => None,
        }
    }
}

} // verus!
