//! Archetype-based entity-component storage with query planning and stage
//! scheduling.
//!
//! Component and resource types are identified by a [`TypeKey`]. The set of
//! component types an entity owns selects its archetype; every archetype is a
//! table whose columns are aligned row by row with a column of entity ids.

use vstd::prelude::*;

pub mod commands;
pub mod db;
pub mod entity_id;
pub mod laws;
pub mod page_table;
pub mod prelude;
pub mod query;
pub mod query_set;
pub mod systems;
pub mod world;

pub use world::World;

verus! {

/// Index of a row inside one archetype.
pub type RowIndex = u32;

/// Hash of a single type, or of a set of types (the XOR of the members' hashes).
pub type TypeHash = u64;

/// Stable identity of a component or resource type.
pub type TypeKey = u64;

/// Identity of the unit type, the one column that the empty archetype carries.
pub const UNIT_TYPE: TypeKey = 0;

/// Hash of one type identity: the SplitMix64 finalizer applied to the key.
pub open spec fn hash_ty_spec(ty: TypeKey) -> TypeHash {
    let a: u64 = ty.wrapping_add(0x9e3779b97f4a7c15);
    let b: u64 = (a ^ (a >> 30)).wrapping_mul(0xbf58476d1ce4e5b9);
    let c: u64 = (b ^ (b >> 27)).wrapping_mul(0x94d049bb133111eb);
    c ^ (c >> 31)
}

/// Hash of one type identity.
#[verifier::when_used_as_spec(hash_ty_spec)]
pub fn hash_ty(ty: TypeKey) -> (h: TypeHash)
    ensures
        h == hash_ty_spec(ty),
{
    let a: u64 = ty.wrapping_add(0x9e3779b97f4a7c15);
    let b: u64 = (a ^ (a >> 30)).wrapping_mul(0xbf58476d1ce4e5b9);
    let c: u64 = (b ^ (b >> 27)).wrapping_mul(0x94d049bb133111eb);
    c ^ (c >> 31)
}

/// Hash of a list of types: the XOR of the hashes of its members.
pub open spec fn hash_of(types: Seq<TypeKey>) -> TypeHash
    decreases types.len(),
{
    if types.len() == 0 {
        0
    } else {
        hash_of(types.drop_last()) ^ hash_ty(types.last())
    }
}

/// XOR with one value twice gives the start back.
pub proof fn lemma_xor_cancel(h: u64, x: u64)
    ensures
        (h ^ x) ^ x == h,
        h ^ 0 == h,
        0 ^ h == h,
{
    assert((h ^ x) ^ x == h) by (bit_vector);
    assert(h ^ 0 == h) by (bit_vector);
    assert(0 ^ h == h) by (bit_vector);
}

/// XOR with two values does not depend on their order.
pub proof fn lemma_xor_swap(h: u64, x: u64, y: u64)
    ensures
        (h ^ x) ^ y == (h ^ y) ^ x,
{
    assert((h ^ x) ^ y == (h ^ y) ^ x) by (bit_vector);
}

/// Appending a type to a list XORs its hash in.
pub proof fn lemma_hash_of_push(types: Seq<TypeKey>, ty: TypeKey)
    ensures
        hash_of(types.push(ty)) == hash_of(types) ^ hash_ty(ty),
{
    assert(types.push(ty).drop_last() =~= types);
}

/// Taking a type out of a list XORs its hash out.
pub proof fn lemma_hash_of_remove(types: Seq<TypeKey>, i: int)
    requires
        0 <= i < types.len(),
    ensures
        hash_of(types.remove(i)) == hash_of(types) ^ hash_ty(types[i]),
    decreases types.len(),
{
    let last = types.len() - 1;
    if i == last {
        lemma_xor_cancel(hash_of(types.drop_last()), hash_ty(types[i]));
    } else {
        lemma_hash_of_remove(types.drop_last(), i);
        assert(types.remove(i).drop_last() =~= types.drop_last().remove(i));
        lemma_xor_swap(hash_of(types.drop_last()), hash_ty(types[i]), hash_ty(types.last()));
    }
}

/// Hash of a set of types: the XOR of the hashes of its members.
pub open spec fn hash_of_set(types: Set<TypeKey>) -> TypeHash
    decreases types.len(),
    when types.finite()
{
    if types.len() == 0 {
        0
    } else {
        let ty = types.choose();
        hash_of_set(types.remove(ty)) ^ hash_ty(ty)
    }
}

/// A list without duplicates hashes as the set of its members: the order of a
/// list does not matter.
pub proof fn lemma_hash_of_list(types: Seq<TypeKey>)
    requires
        types.no_duplicates(),
    ensures
        hash_of(types) == hash_of_set(types.to_set()),
    decreases types.len(),
{
    let set = types.to_set();
    types.unique_seq_to_set();
    if types.len() > 0 {
        let ty = set.choose();
        assert(set.contains(ty));
        let i = types.index_of(ty);
        let rest = types.remove(i);
        assert(rest.to_set() =~= set.remove(ty)) by {
            assert forall|t: TypeKey| rest.to_set().contains(t) <==> set.remove(ty).contains(t) by {
                if types.contains(t) && t != ty {
                    let a0 = types.index_of(t);
                    let a = if a0 < i { a0 } else { a0 - 1 };
                    assert(rest[a] == t);
                }
            }
        }
        lemma_hash_of_list(rest);
        lemma_hash_of_remove(types, i);
        lemma_xor_cancel(hash_of(types), hash_ty(ty));
    }
}

/// A list without duplicates stays one when a type that it lacks is appended,
/// and then lists one member more.
pub proof fn lemma_list_push(list: Seq<TypeKey>, ty: TypeKey)
    requires
        list.no_duplicates(),
        !list.to_set().contains(ty),
    ensures
        list.push(ty).no_duplicates(),
        list.push(ty).to_set() == list.to_set().insert(ty),
{
    let longer = list.push(ty);
    assert forall|t: TypeKey| longer.to_set().contains(t) <==> list.to_set().insert(ty).contains(
        t,
    ) by {
        if list.contains(t) {
            let a = list.index_of(t);
            assert(longer[a] == t);
        }
        if t == ty {
            assert(longer[list.len() as int] == t);
        }
    }
}

/// Every finite set of types has a list of its members without duplicates.
pub proof fn lemma_listing(types: Set<TypeKey>) -> (list: Seq<TypeKey>)
    requires
        types.finite(),
    ensures
        list.no_duplicates(),
        list.to_set() == types,
    decreases types.len(),
{
    if types.len() == 0 {
        let list = Seq::<TypeKey>::empty();
        list
    } else {
        let ty = types.choose();
        let rest = lemma_listing(types.remove(ty));
        lemma_list_push(rest, ty);
        rest.push(ty)
    }
}

/// The hash of a set with one more type is the hash of the set XOR the hash of
/// that type.
pub proof fn lemma_hash_of_set_insert(types: Set<TypeKey>, ty: TypeKey)
    requires
        types.finite(),
        !types.contains(ty),
    ensures
        hash_of_set(types.insert(ty)) == hash_of_set(types) ^ hash_ty(ty),
{
    let list = lemma_listing(types);
    lemma_list_push(list, ty);
    lemma_hash_of_list(list);
    lemma_hash_of_list(list.push(ty));
    lemma_hash_of_push(list, ty);
}

/// The hash of a set without one of its types is the hash of the set XOR the
/// hash of that type.
pub proof fn lemma_hash_of_set_remove(types: Set<TypeKey>, ty: TypeKey)
    requires
        types.finite(),
        types.contains(ty),
    ensures
        hash_of_set(types.remove(ty)) == hash_of_set(types) ^ hash_ty(ty),
{
    lemma_hash_of_set_insert(types.remove(ty), ty);
    lemma_xor_cancel(hash_of_set(types.remove(ty)), hash_ty(ty));
}

} // verus!
