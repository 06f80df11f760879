//! Deferred mutations of a world, queued by a system while it runs and
//! applied in order once it has returned.

use vstd::prelude::*;
use crate::entity_id::EntityId;
use crate::world::World;
use crate::TypeKey;

verus! {

/// Components to give to one entity in a single call, each with its type.
#[derive(Debug)]
pub struct Bundle<V> {
    pub components: Vec<(TypeKey, V)>,
}

impl<V> View for Bundle<V> {
    type V = Seq<(TypeKey, V)>;

    open spec fn view(&self) -> Seq<(TypeKey, V)> {
        self.components@
    }
}

impl<V> Bundle<V> {
    /// A bundle without components.
    pub fn new() -> (bundle: Self)
        ensures
            bundle@ == Seq::<(TypeKey, V)>::empty(),
    {
        Bundle { components: Vec::new() }
    }

    /// The bundle with one more component.
    pub fn with(self, ty: TypeKey, value: V) -> (bundle: Self)
        ensures
            bundle@ == self@.push((ty, value)),
    {
        let mut bundle = self;
        bundle.components.push((ty, value));
        bundle
    }
}

/// One deferred mutation.
#[derive(Debug)]
pub enum Command<V> {
    /// Spawn an entity and give it the components of the bundle.
    SpawnBundle(Bundle<V>),
    /// Despawn the entity.
    Despawn(EntityId),
    /// Give the entity the component, in place of one of the same type.
    Insert(EntityId, TypeKey, V),
    /// Take the component of that type from the entity.
    Remove(EntityId, TypeKey),
    /// Store the resource, in place of one of the same type.
    InsertResource(TypeKey, V),
    /// Drop the resource of that type.
    RemoveResource(TypeKey),
}

/// The queue of mutations that one system invocation asks for. They are
/// applied first in, first out.
#[derive(Debug)]
pub struct Commands<V> {
    queue: Vec<Command<V>>,
}

impl<V> View for Commands<V> {
    type V = Seq<Command<V>>;

    closed spec fn view(&self) -> Seq<Command<V>> {
        self.queue@
    }
}

impl<V> Commands<V> {
    /// An empty queue.
    pub fn new() -> (commands: Self)
        ensures
            commands@ == Seq::<Command<V>>::empty(),
    {
        Commands { queue: Vec::new() }
    }

    /// Number of queued mutations.
    pub fn len(&self) -> (n: usize)
        ensures
            n == self@.len(),
    {
        self.queue.len()
    }

    /// Whether nothing is queued.
    pub fn is_empty(&self) -> (b: bool)
        ensures
            b == (self@.len() == 0),
    {
        self.queue.len() == 0
    }

    /// Queues `command` behind the mutations queued so far.
    pub fn push(&mut self, command: Command<V>)
        ensures
            final(self)@ == old(self)@.push(command),
    {
        self.queue.push(command);
    }

    /// Queues the spawning of an entity with the components of `bundle`.
    pub fn spawn_bundle(&mut self, bundle: Bundle<V>)
        ensures
            final(self)@ == old(self)@.push(Command::SpawnBundle(bundle)),
    {
        self.queue.push(Command::SpawnBundle(bundle));
    }

    /// Queues the despawning of the entity.
    pub fn despawn(&mut self, id: EntityId)
        ensures
            final(self)@ == old(self)@.push(Command::Despawn(id)),
    {
        self.queue.push(Command::Despawn(id));
    }

    /// Queues the storing of `value` as the component of type `ty` of the entity.
    pub fn insert(&mut self, id: EntityId, ty: TypeKey, value: V)
        ensures
            final(self)@ == old(self)@.push(Command::Insert(id, ty, value)),
    {
        self.queue.push(Command::Insert(id, ty, value));
    }

    /// Queues the removal of the component of type `ty` from the entity.
    pub fn remove(&mut self, id: EntityId, ty: TypeKey)
        ensures
            final(self)@ == old(self)@.push(Command::Remove(id, ty)),
    {
        self.queue.push(Command::Remove(id, ty));
    }

    /// Queues the storing of `value` as the resource of type `ty`.
    pub fn insert_resource(&mut self, ty: TypeKey, value: V)
        ensures
            final(self)@ == old(self)@.push(Command::InsertResource(ty, value)),
    {
        self.queue.push(Command::InsertResource(ty, value));
    }

    /// Queues the dropping of the resource of type `ty`.
    pub fn remove_resource(&mut self, ty: TypeKey)
        ensures
            final(self)@ == old(self)@.push(Command::RemoveResource(ty)),
    {
        self.queue.push(Command::RemoveResource(ty));
    }

    /// The queued mutations, first in first.
    pub fn into_queue(self) -> (queue: Vec<Command<V>>)
        ensures
            queue@ == self@,
    {
        self.queue
    }
}

impl<V> World<V> {
    /// A component of type `ty` can be stored for the entity: the entity is
    /// live and either has one, which is then replaced, or can be given one.
    pub open spec fn settable(&self, id: EntityId, ty: TypeKey) -> bool {
        self.alive(id) && (self.components(id).contains_key(ty) || self.insert_ready(id, ty))
    }

    /// Stores `value` as the component of type `ty` of the entity, in place
    /// of one that it has. Returns whether that was possible; if not, the
    /// world is left as it was.
    pub fn set_component(&mut self, id: EntityId, ty: TypeKey, value: V) -> (done: bool)
        requires
            old(self).wf(),
        ensures
            final(self).wf(),
            done == old(self).settable(id, ty),
            final(self).entities() == (if done {
                old(self).entities().insert(id, old(self).components(id).insert(ty, value))
            } else {
                old(self).entities()
            }),
            Self::placed(*old(self), id, ty, *final(self)),
            final(self).resources() == old(self).resources(),
            final(self).next_entity() == old(self).next_entity(),
            final(self).spawn_ready() == old(self).spawn_ready(),
            forall|e: EntityId| final(self).stale(e) == old(self).stale(e),
    {
        if self.can_insert_component(id, ty) {
            self.insert_component(id, ty, value);
            true
        } else {
            match self.get_component_mut(id, ty) {
                Some(slot) => {
                    *slot = value;
                    true
                },
                None => false,
            }
        }
    }

    /// What storing a component of type `ty` for the entity does to its
    /// place: the entity lands in the archetype with that type if it gets a
    /// component it did not have, and stays where it is otherwise. No other
    /// entity moves.
    pub open spec fn placed(before: Self, id: EntityId, ty: TypeKey, after: Self) -> bool {
        if before.insert_ready(id, ty) {
            Self::landed(before, after, id, before.archetype_of(id).hash() ^ crate::hash_ty(ty))
        } else {
            after.index() == before.index() && Self::registry_kept(before, after)
        }
    }

    /// `after` is what storing `value` as the component of type `ty` of the
    /// entity makes of `before`: the component is stored if that is possible,
    /// and nothing changes if it is not.
    pub open spec fn stored(before: Self, id: EntityId, ty: TypeKey, value: V, after: Self) -> bool {
        &&& after.wf()
        &&& forall|e: EntityId| before.stale(e) ==> after.stale(e)
        &&& Self::placed(before, id, ty, after)
        &&& after.resources() == before.resources()
        &&& after.entities() == (if before.settable(id, ty) {
            before.entities().insert(id, before.components(id).insert(ty, value))
        } else {
            before.entities()
        })
    }

    /// `after` is what applying `command` makes of `before`.
    pub open spec fn steps_to(before: Self, command: Command<V>, after: Self) -> bool {
        &&& after.wf()
        &&& forall|e: EntityId| before.stale(e) ==> after.stale(e)
        &&& match command {
            Command::SpawnBundle(bundle) => {
                &&& after.resources() == before.resources()
                &&& if before.spawn_ready() {
                    exists|spawned: Self|
                        {
                            &&& #[trigger] spawned.wf()
                            &&& spawned.entities() == before.entities().insert(
                                before.next_entity(),
                                Map::empty(),
                            )
                            &&& Self::landed(
                                before,
                                spawned,
                                before.next_entity(),
                                crate::hash_ty(crate::UNIT_TYPE),
                            )
                            &&& Self::bundle_given(spawned, before.next_entity(), bundle@, after)
                        }
                } else {
                    &&& after.entities() == before.entities()
                    &&& after.index() == before.index()
                    &&& Self::registry_kept(before, after)
                }
            },
            Command::Despawn(id) => {
                &&& after.resources() == before.resources()
                &&& after.entities() == before.entities().remove(id)
                &&& after.index() == before.index().remove(id)
                &&& Self::registry_kept(before, after)
            },
            Command::Insert(id, ty, value) => Self::stored(before, id, ty, value, after),
            Command::Remove(id, ty) => {
                &&& after.resources() == before.resources()
                &&& if before.remove_ready(id, ty) {
                    &&& after.entities() == before.entities().insert(
                        id,
                        before.components(id).remove(ty),
                    )
                    &&& Self::landed(
                        before,
                        after,
                        id,
                        before.archetype_of(id).hash() ^ crate::hash_ty(ty),
                    )
                } else {
                    &&& after.entities() == before.entities()
                    &&& after.index() == before.index()
                    &&& Self::registry_kept(before, after)
                }
            },
            Command::InsertResource(ty, value) => {
                &&& after.resources() == before.resources().insert(ty, value)
                &&& after.entities() == before.entities()
                &&& after.index() == before.index()
                &&& Self::registry_kept(before, after)
            },
            Command::RemoveResource(ty) => {
                &&& after.resources() == before.resources().remove(ty)
                &&& after.entities() == before.entities()
                &&& after.index() == before.index()
                &&& Self::registry_kept(before, after)
            },
        }
    }

    /// `after` is what storing the components `components` for the entity,
    /// one after the other, makes of `before`.
    pub open spec fn bundle_given(
        before: Self,
        id: EntityId,
        components: Seq<(TypeKey, V)>,
        after: Self,
    ) -> bool
        decreases components.len(),
    {
        if components.len() == 0 {
            after == before
        } else {
            exists|mid: Self|
                {
                    &&& Self::bundle_given(before, id, components.drop_last(), mid)
                    &&& #[trigger] Self::stored(mid, id, components.last().0, components.last().1, after)
                }
        }
    }

    /// `after` is what applying `commands`, first in first, makes of `before`.
    pub open spec fn applied(before: Self, commands: Seq<Command<V>>, after: Self) -> bool
        decreases commands.len(),
    {
        if commands.len() == 0 {
            after == before
        } else {
            exists|mid: Self|
                {
                    &&& Self::applied(before, commands.drop_last(), mid)
                    &&& #[trigger] Self::steps_to(mid, commands.last(), after)
                }
        }
    }

    /// Stores the components of `bundle` for the entity, one after the
    /// other. A component that cannot be stored is dropped.
    pub fn insert_bundle(&mut self, id: EntityId, bundle: Bundle<V>)
        requires
            old(self).wf(),
        ensures
            final(self).wf(),
            Self::bundle_given(*old(self), id, bundle@, *final(self)),
            final(self).resources() == old(self).resources(),
            forall|e: EntityId| final(self).stale(e) == old(self).stale(e),
    {
        let ghost all = bundle@;
        for component in it: bundle.components
            invariant
                self.wf(),
                it.seq() == all,
                Self::bundle_given(*old(self), id, it.seq().take(it.index()), *self),
                it.index() == it.seq().len() ==> Self::bundle_given(*old(self), id, all, *self),
                self.resources() == old(self).resources(),
                forall|e: EntityId| self.stale(e) == old(self).stale(e),
        {
            let ghost mid = *self;
            let ghost k = it.index();
            let (ty, value) = component;
            let _ = self.set_component(id, ty, value);
            proof {
                let taken = it.seq().take(k + 1);
                assert(taken.drop_last() =~= it.seq().take(k));
                assert(taken.last() == (ty, value));
                assert(Self::stored(mid, id, ty, value, *self));
                assert(k + 1 == it.seq().len() ==> taken =~= all);
            }
        }
    }

    /// Applies one deferred mutation. A mutation that cannot be carried out
    /// (its entity is not live, or no room is left) is dropped.
    pub fn apply_command(&mut self, command: Command<V>)
        requires
            old(self).wf(),
        ensures
            Self::steps_to(*old(self), command, *final(self)),
    {
        match command {
            Command::SpawnBundle(bundle) => {
                if self.can_spawn() {
                    let id = self.spawn();
                    self.insert_bundle(id, bundle);
                }
            },
            Command::Despawn(id) => {
                self.despawn(id);
            },
            Command::Insert(id, ty, value) => {
                let _ = self.set_component(id, ty, value);
            },
            Command::Remove(id, ty) => {
                if self.can_remove_component(id, ty) {
                    self.remove_component(id, ty);
                }
            },
            Command::InsertResource(ty, value) => {
                self.insert_resource(ty, value);
            },
            Command::RemoveResource(ty) => {
                let _ = self.remove_resource(ty);
            },
        }
    }

    /// Drains `commands` into the world, first in first.
    pub fn apply_commands(&mut self, commands: Commands<V>)
        requires
            old(self).wf(),
        ensures
            final(self).wf(),
            Self::applied(*old(self), commands@, *final(self)),
            forall|e: EntityId| old(self).stale(e) ==> final(self).stale(e),
    {
        let ghost all = commands@;
        for command in it: commands.queue
            invariant
                self.wf(),
                it.seq() == all,
                Self::applied(*old(self), it.seq().take(it.index()), *self),
                it.index() == it.seq().len() ==> Self::applied(*old(self), all, *self),
                forall|e: EntityId| old(self).stale(e) ==> self.stale(e),
        {
            let ghost k = it.index();
            self.apply_command(command);
            proof {
                let taken = it.seq().take(k + 1);
                assert(taken.drop_last() =~= it.seq().take(k));
                assert(taken.last() == command);
                assert(k + 1 == it.seq().len() ==> taken =~= all);
            }
        }
    }
}

} // verus!
