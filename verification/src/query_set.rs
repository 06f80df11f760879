//! Several queries held by one system, whose requests may overlap: the set
//! hands out one of them at a time.

use vstd::prelude::*;
use std::collections::HashSet;
use crate::query::{Query, QueryDesc};
use crate::world::World;
use crate::TypeKey;

verus! {

broadcast use vstd::std_specs::hash::group_hash_axioms;

/// The types that one of the queries reads.
pub open spec fn reads_of(descs: Seq<QueryDesc>) -> Set<TypeKey> {
    Set::new(|ty: TypeKey| exists|k: int| 0 <= k < descs.len() && (#[trigger] descs[k]).fetch.reads().contains(ty))
}

/// The types that one of the queries writes.
pub open spec fn writes_of(descs: Seq<QueryDesc>) -> Set<TypeKey> {
    Set::new(
        |ty: TypeKey| exists|k: int| 0 <= k < descs.len() && (#[trigger] descs[k]).fetch.writes().contains(ty),
    )
}

/// Each of the queries, taken alone, can add its write requests to the
/// write set `taken`.
pub open spec fn writes_fresh_each(descs: Seq<QueryDesc>, taken: Set<TypeKey>) -> bool {
    forall|k: int| 0 <= k < descs.len() ==> (#[trigger] descs[k]).fetch.writes_fresh(taken)
}

/// Whether each of the queries, taken alone, can add its write requests to
/// `set`.
pub(crate) fn writes_are_fresh(descs: &Vec<QueryDesc>, set: &HashSet<TypeKey>) -> (b: bool)
    ensures
        b == writes_fresh_each(descs@, set@),
{
    let mut k: usize = 0;
    while k < descs.len()
        invariant
            k <= descs.len(),
            forall|i: int| 0 <= i < k ==> (#[trigger] descs[i]).fetch.writes_fresh(set@),
        decreases descs.len() - k,
    {
        if !descs[k].fetch.can_types_mut(set) {
            return false;
        }
        k += 1;
    }
    true
}

/// Adds the types that the queries write to `set`, whatever it holds.
pub(crate) fn add_writes(descs: &Vec<QueryDesc>, set: &mut HashSet<TypeKey>)
    ensures
        final(set)@ == old(set)@.union(writes_of(descs@)),
{
    let mut k: usize = 0;
    while k < descs.len()
        invariant
            k <= descs.len(),
            set@ == old(set)@.union(writes_of(descs@.take(k as int))),
        decreases descs.len() - k,
    {
        descs[k].fetch.add_writes(set);
        proof {
            let before = descs@.take(k as int);
            let after = descs@.take(k + 1);
            assert forall|ty: TypeKey|
                writes_of(after).contains(ty) <==> writes_of(before).contains(ty)
                    || descs[k as int].fetch.writes().contains(ty) by {
                if descs[k as int].fetch.writes().contains(ty) {
                    assert(after[k as int].fetch.writes().contains(ty));
                }
            }
        }
        k += 1;
    }
    proof {
        assert(descs@.take(descs.len() as int) =~= descs@);
    }
}

/// Adds the types that the queries read to `set`.
pub(crate) fn add_reads(descs: &Vec<QueryDesc>, set: &mut HashSet<TypeKey>)
    ensures
        final(set)@ == old(set)@.union(reads_of(descs@)),
{
    let mut k: usize = 0;
    while k < descs.len()
        invariant
            k <= descs.len(),
            set@ == old(set)@.union(reads_of(descs@.take(k as int))),
        decreases descs.len() - k,
    {
        descs[k].fetch.types_const(set);
        proof {
            let before = descs@.take(k as int);
            let after = descs@.take(k + 1);
            assert forall|ty: TypeKey|
                reads_of(after).contains(ty) <==> reads_of(before).contains(ty)
                    || descs[k as int].fetch.reads().contains(ty) by {
                if descs[k as int].fetch.reads().contains(ty) {
                    assert(after[k as int].fetch.reads().contains(ty));
                }
            }
        }
        k += 1;
    }
    proof {
        assert(descs@.take(descs.len() as int) =~= descs@);
    }
}

/// Several queries of one system. The queries may ask for the same types,
/// also to write: a borrow of the set gives access to one query at a time.
pub struct QuerySet<'a, V> {
    inner: Vec<Query<'a, V>>,
}

impl<'a, V> QuerySet<'a, V> {
    /// The queries of the set.
    pub closed spec fn queries(&self) -> Seq<Query<'a, V>> {
        self.inner@
    }

    /// Plans every query of `descs` against `world`.
    pub fn new(world: &'a World<V>, descs: &'a Vec<QueryDesc>) -> (set: Self)
        requires
            world.wf(),
        ensures
            set.queries().len() == descs.len(),
            forall|k: int|
                0 <= k < descs.len() ==> {
                    let query = #[trigger] set.queries()[k];
                    &&& query.wf()
                    &&& query.world() == *world
                    &&& query.fetch() == descs[k].fetch
                    &&& query.filter() == descs[k].filter
                },
    {
        let mut inner: Vec<Query<'a, V>> = Vec::with_capacity(descs.len());
        let mut k: usize = 0;
        while k < descs.len()
            invariant
                world.wf(),
                k <= descs.len(),
                inner.len() == k,
                forall|i: int|
                    0 <= i < k ==> {
                        let query = #[trigger] inner[i];
                        &&& query.wf()
                        &&& query.world() == *world
                        &&& query.fetch() == descs[i].fetch
                        &&& query.filter() == descs[i].filter
                    },
            decreases descs.len() - k,
        {
            inner.push(Query::new(world, &descs[k].fetch, &descs[k].filter));
            k += 1;
        }
        QuerySet { inner }
    }

    /// Number of queries in the set.
    pub fn len(&self) -> (n: usize)
        ensures
            n == self.queries().len(),
    {
        self.inner.len()
    }

    /// Query `k` of the set.
    pub fn q(&self, k: usize) -> (query: &Query<'a, V>)
        requires
            k < self.queries().len(),
        ensures
            *query == self.queries()[k as int],
    {
        &self.inner[k]
    }

    /// Query `k` of the set, for exclusive use.
    pub fn q_mut(&mut self, k: usize) -> (query: &mut Query<'a, V>)
        requires
            k < old(self).queries().len(),
        ensures
            *query == old(self).queries()[k as int],
            final(self).queries() == old(self).queries().update(k as int, *final(query)),
    {
        &mut self.inner[k]
    }

    /// The first query of the set.
    pub fn q0(&self) -> (query: &Query<'a, V>)
        requires
            0 < self.queries().len(),
        ensures
            *query == self.queries()[0],
    {
        self.q(0)
    }

    /// The first query of the set, for exclusive use.
    pub fn q0_mut(&mut self) -> (query: &mut Query<'a, V>)
        requires
            0 < old(self).queries().len(),
        ensures
            *query == old(self).queries()[0],
            final(self).queries() == old(self).queries().update(0, *final(query)),
    {
        self.q_mut(0)
    }

    /// The second query of the set.
    pub fn q1(&self) -> (query: &Query<'a, V>)
        requires
            1 < self.queries().len(),
        ensures
            *query == self.queries()[1],
    {
        self.q(1)
    }

    /// The second query of the set, for exclusive use.
    pub fn q1_mut(&mut self) -> (query: &mut Query<'a, V>)
        requires
            1 < old(self).queries().len(),
        ensures
            *query == old(self).queries()[1],
            final(self).queries() == old(self).queries().update(1, *final(query)),
    {
        self.q_mut(1)
    }

    /// Whether `components_mut` may be called with `descs` and `set`.
    pub fn can_components_mut(descs: &Vec<QueryDesc>, set: &HashSet<TypeKey>) -> (b: bool)
        ensures
            b == writes_fresh_each(descs@, set@),
    {
        writes_are_fresh(descs, set)
    }

    /// Adds the types that the queries write to the write set `set`.
    ///
    /// Each query is held against `set` alone, as it is before the call, so
    /// two queries of the set may write the same type; the set then gets the
    /// union of what they write.
    pub fn components_mut(descs: &Vec<QueryDesc>, set: &mut HashSet<TypeKey>)
        requires
            writes_fresh_each(descs@, old(set)@),
        ensures
            final(set)@ == old(set)@.union(writes_of(descs@)),
    {
        add_writes(descs, set);
    }

    /// Adds the types that the queries read to `set`.
    pub fn components_const(descs: &Vec<QueryDesc>, set: &mut HashSet<TypeKey>)
        ensures
            final(set)@ == old(set)@.union(reads_of(descs@)),
    {
        add_reads(descs, set);
    }

    /// A set of queries writes no resource: `set` is left as it is.
    pub fn resources_mut(descs: &Vec<QueryDesc>, set: &mut HashSet<TypeKey>)
        ensures
            final(set)@ == old(set)@,
    {
    }

    /// A set of queries reads no resource: `set` is left as it is.
    pub fn resources_const(descs: &Vec<QueryDesc>, set: &mut HashSet<TypeKey>)
        ensures
            final(set)@ == old(set)@,
    {
    }
}

} // verus!
