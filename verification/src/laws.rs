//! Laws of the world: what holds of every sound world and across its
//! operations.

use vstd::prelude::*;
use crate::entity_id::{EntityId, Location};
use crate::systems::{batch_of, lemma_batch_order, ErasedSystem};
use crate::world::World;
use crate::{hash_of_set, RowIndex, TypeKey, UNIT_TYPE};

verus! {

/// Column alignment: in every archetype, every column but the unit column has
/// a value at a row exactly if the row belongs to an entity.
pub proof fn column_alignment<V>(world: World<V>, handle: int, ty: TypeKey, row: RowIndex)
    requires
        world.wf(),
        0 <= handle < world.archetypes().len(),
        world.archetypes()[handle].types().contains(ty),
        ty != UNIT_TYPE,
    ensures
        world.archetypes()[handle].entities().contains_key(row) <==> world.archetypes()[handle].column(
            ty,
        ).contains_key(row),
{
    world.lemma_wf();
    assert(world.archetype_ok(handle));
}

/// Hash identity: the hash of every archetype is the XOR of the hashes of the
/// types of its columns, and the archetype is registered under that hash.
pub proof fn hash_identity<V>(world: World<V>, handle: int)
    requires
        world.wf(),
        0 <= handle < world.archetypes().len(),
    ensures
        world.archetypes()[handle].hash() == hash_of_set(world.archetypes()[handle].types()),
        world.lookup().contains_key(world.archetypes()[handle].hash()),
        world.lookup()[world.archetypes()[handle].hash()] == handle,
{
    world.lemma_wf();
    assert(world.archetype_ok(handle));
    world.archetypes()[handle].lemma_hash_identity();
}

/// Index consistency: the index entry of a live entity names a row that
/// belongs to that entity.
pub proof fn index_consistency<V>(world: World<V>, id: EntityId)
    requires
        world.wf(),
        world.alive(id),
    ensures
        world.index()[id].archetype < world.archetypes().len(),
        world.archetype_of(id).entities().contains_key(world.index()[id].row),
        world.archetype_of(id).entities()[world.index()[id].row] == id,
{
    world.lemma_wf();
}

/// Every row of every archetype belongs to a live entity, whose index entry
/// names that row: no two entities share a row.
pub proof fn row_ownership<V>(world: World<V>, handle: int, row: RowIndex)
    requires
        world.wf(),
        0 <= handle < world.archetypes().len(),
        world.archetypes()[handle].entities().contains_key(row),
    ensures
        world.alive(world.archetypes()[handle].entities()[row]),
        world.index()[world.archetypes()[handle].entities()[row]] == (Location {
            archetype: handle as usize,
            row,
        }),
{
    world.lemma_wf();
}

/// Migration preserves data: when `after` is what `insert_component(id, ty,
/// value)` makes of `before`, the entity has every component it had, with the
/// value it had, and the new component reads back as `value`; every other
/// entity is as it was.
pub proof fn migration_preserves_data<V>(
    before: World<V>,
    after: World<V>,
    id: EntityId,
    ty: TypeKey,
    value: V,
)
    requires
        before.insert_ready(id, ty),
        after.entities() == before.entities().insert(id, before.components(id).insert(ty, value)),
    ensures
        after.alive(id),
        after.components(id).contains_key(ty),
        after.components(id)[ty] == value,
        forall|other: TypeKey| #[trigger]
            before.components(id).contains_key(other) ==> after.components(id).contains_key(other)
                && after.components(id)[other] == before.components(id)[other],
        forall|e: EntityId| e != id ==> after.alive(e) == before.alive(e),
        forall|e: EntityId| e != id && before.alive(e) ==> after.components(e) == before.components(e),
{
    assert(after.entities().contains_key(id));
    assert(after.entities()[id] == before.components(id).insert(ty, value));
    assert forall|e: EntityId| e != id implies after.alive(e) == before.alive(e) by {
        assert(after.entities().contains_key(e) == before.entities().contains_key(e));
    }
    assert forall|e: EntityId| e != id && before.alive(e) implies after.components(e)
        == before.components(e) by {
        assert(after.entities()[e] == before.entities()[e]);
    }
}

/// Round trip: when `added` is what `insert_component(id, ty, value)` makes
/// of `before` and `after` is what `remove_component(id, ty)` makes of
/// `added`, the entities of `after` and their components are those of
/// `before`.
pub proof fn insert_remove_round_trip<V>(
    before: World<V>,
    added: World<V>,
    after: World<V>,
    id: EntityId,
    ty: TypeKey,
    value: V,
)
    requires
        before.insert_ready(id, ty),
        added.entities() == before.entities().insert(id, before.components(id).insert(ty, value)),
        after.entities() == added.entities().insert(id, added.components(id).remove(ty)),
    ensures
        after.entities() == before.entities(),
{
    assert(added.entities()[id] == before.components(id).insert(ty, value));
    assert(before.components(id).insert(ty, value).remove(ty) =~= before.components(id));
}

/// Conflict is mutual: if one system conflicts with another, the other
/// conflicts with it.
pub proof fn conflict_is_mutual<F>(a: ErasedSystem<F>, b: ErasedSystem<F>)
    requires
        a.conflicts(&b),
    ensures
        b.conflicts(&a),
{
}

/// Access soundness: two systems of a stage that conflict are never in the
/// same batch, so they never run at the same time; the later of the two runs
/// in a later batch.
pub proof fn access_soundness<F>(systems: Seq<ErasedSystem<F>>, i: int, j: int)
    requires
        0 <= i < j < systems.len(),
        systems[i].conflicts(&systems[j]) || systems[j].conflicts(&systems[i]),
    ensures
        batch_of(systems, i) < batch_of(systems, j),
{
    lemma_batch_order(systems, i, j, j);
}

} // verus!
