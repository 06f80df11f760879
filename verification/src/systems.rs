//! Systems and stages: what a system may read and write, which systems of a
//! stage conflict, and the running of a stage.

use vstd::prelude::*;
use std::collections::HashSet;
use crate::commands::Commands;
use crate::entity_id::EntityId;
use crate::query::{Query, QueryDesc};
use crate::query_set::{reads_of, writes_of, QuerySet};
use crate::world::World;
use crate::TypeKey;

verus! {

broadcast use vstd::std_specs::hash::group_hash_axioms;

/// What one parameter of a system asks of the world.
#[derive(Debug)]
pub enum Param {
    /// A query.
    Query(QueryDesc),
    /// Several queries that may overlap, used one at a time.
    QuerySet(Vec<QueryDesc>),
    /// Shared access to the resource of a type.
    Res(TypeKey),
    /// Exclusive access to the resource of a type.
    ResMut(TypeKey),
    /// The queue of deferred mutations.
    Commands,
}

impl Param {
    /// The component types that the parameter reads.
    pub open spec fn comp_reads(self) -> Set<TypeKey> {
        match self {
            Param::Query(desc) => desc.fetch.reads(),
            Param::QuerySet(descs) => reads_of(descs@),
            _ => Set::empty(),
        }
    }

    /// The component types that the parameter writes.
    pub open spec fn comp_writes(self) -> Set<TypeKey> {
        match self {
            Param::Query(desc) => desc.fetch.writes(),
            Param::QuerySet(descs) => writes_of(descs@),
            _ => Set::empty(),
        }
    }

    /// The resource types that the parameter reads.
    pub open spec fn res_reads(self) -> Set<TypeKey> {
        match self {
            Param::Res(ty) => set![ty],
            _ => Set::empty(),
        }
    }

    /// The resource types that the parameter writes.
    pub open spec fn res_writes(self) -> Set<TypeKey> {
        match self {
            Param::ResMut(ty) => set![ty],
            _ => Set::empty(),
        }
    }

    /// Each query of the parameter is sound by itself.
    pub open spec fn sound(self) -> bool {
        match self {
            Param::Query(desc) => desc.fetch.sound(),
            Param::QuerySet(descs) => forall|k: int|
                0 <= k < descs.len() ==> (#[trigger] descs[k]).fetch.sound(),
            _ => true,
        }
    }

    /// The parameter asks for the component type, to read or to write.
    pub open spec fn touches(self, ty: TypeKey) -> bool {
        self.comp_reads().contains(ty) || self.comp_writes().contains(ty)
    }

    /// The parameter writes something that `other` reads or writes.
    pub open spec fn clashes(self, other: Self) -> bool {
        ||| exists|ty: TypeKey| #[trigger] self.comp_writes().contains(ty) && other.touches(ty)
        ||| exists|ty: TypeKey| #[trigger]
            self.res_writes().contains(ty) && (other.res_reads().contains(ty)
                || other.res_writes().contains(ty))
    }

    /// The two ask for the same.
    pub open spec fn alike(self, other: Self) -> bool {
        match (self, other) {
            (Param::Query(a), Param::Query(b)) => a.alike(b),
            (Param::QuerySet(a), Param::QuerySet(b)) => a.len() == b.len() && forall|k: int|
                0 <= k < a.len() ==> (#[trigger] a[k]).alike(b[k]),
            (Param::Res(a), Param::Res(b)) => a == b,
            (Param::ResMut(a), Param::ResMut(b)) => a == b,
            (Param::Commands, Param::Commands) => true,
            _ => false,
        }
    }

    /// Whether each query of the parameter is sound by itself.
    pub fn is_sound(&self) -> (b: bool)
        ensures
            b == self.sound(),
    {
        match self {
            Param::Query(desc) => desc.fetch.is_sound(),
            Param::QuerySet(descs) => {
                let mut k: usize = 0;
                while k < descs.len()
                    invariant
                        *self == Param::QuerySet(*descs),
                        k <= descs.len(),
                        forall|i: int| 0 <= i < k ==> (#[trigger] descs[i]).fetch.sound(),
                    decreases descs.len() - k,
                {
                    if !descs[k].fetch.is_sound() {
                        return false;
                    }
                    k += 1;
                }
                true
            },
            _ => true,
        }
    }

    /// Whether the parameter asks for the component type.
    pub fn asks_for(&self, ty: TypeKey) -> (b: bool)
        ensures
            b == self.touches(ty),
    {
        match self {
            Param::Query(desc) => desc.fetch.asks_for(ty),
            Param::QuerySet(descs) => {
                let mut k: usize = 0;
                while k < descs.len()
                    invariant
                        *self == Param::QuerySet(*descs),
                        k <= descs.len(),
                        forall|i: int| 0 <= i < k ==> !(#[trigger] descs[i]).fetch.touches(ty),
                    decreases descs.len() - k,
                {
                    if descs[k].fetch.asks_for(ty) {
                        return true;
                    }
                    k += 1;
                }
                false
            },
            _ => false,
        }
    }

    /// Whether one of the write requests of `desc` is for a type that the
    /// parameter asks for.
    fn asked_by(&self, desc: &QueryDesc) -> (b: bool)
        ensures
            b == exists|ty: TypeKey| #[trigger] desc.fetch.writes().contains(ty) && self.touches(ty),
    {
        let mut k: usize = 0;
        while k < desc.fetch.fetches.len()
            invariant
                k <= desc.fetch.fetches.len(),
                forall|i: int|
                    0 <= i < k ==> match #[trigger] desc.fetch.fetches[i] {
                        crate::query::Fetch::Write(ty) => !self.touches(ty),
                        _ => true,
                    },
            decreases desc.fetch.fetches.len() - k,
        {
            match desc.fetch.fetches[k] {
                crate::query::Fetch::Write(ty) => {
                    if self.asks_for(ty) {
                        proof {
                            assert(desc.fetch.writes().contains(ty));
                        }
                        return true;
                    }
                },
                _ => {},
            }
            k += 1;
        }
        false
    }

    /// Whether the parameter writes something that `other` reads or writes.
    pub fn clashes_with(&self, other: &Param) -> (b: bool)
        ensures
            b == self.clashes(*other),
    {
        match self {
            Param::Query(desc) => {
                let hit = other.asked_by(desc);
                proof {
                    if hit {
                        let ty = choose|ty: TypeKey| #[trigger]
                            desc.fetch.writes().contains(ty) && other.touches(ty);
                        assert(self.comp_writes().contains(ty));
                    }
                }
                hit
            },
            Param::QuerySet(descs) => {
                let mut k: usize = 0;
                while k < descs.len()
                    invariant
                        *self == Param::QuerySet(*descs),
                        k <= descs.len(),
                        forall|i: int, ty: TypeKey|
                            0 <= i < k && #[trigger] descs[i].fetch.writes().contains(ty) ==> !other.touches(
                                ty,
                            ),
                    decreases descs.len() - k,
                {
                    if other.asked_by(&descs[k]) {
                        proof {
                            let ty = choose|ty: TypeKey| #[trigger]
                                descs[k as int].fetch.writes().contains(ty) && other.touches(ty);
                            assert(self.comp_writes().contains(ty));
                        }
                        return true;
                    }
                    k += 1;
                }
                false
            },
            Param::ResMut(ty) => {
                let hit = match other {
                    Param::Res(o) => *o == *ty,
                    Param::ResMut(o) => *o == *ty,
                    _ => false,
                };
                proof {
                    if hit {
                        assert(self.res_writes().contains(*ty));
                    }
                }
                hit
            },
            _ => false,
        }
    }

    /// Adds the component types that the parameter reads to `set`.
    pub fn components_const(&self, set: &mut HashSet<TypeKey>)
        ensures
            final(set)@ == old(set)@.union(self.comp_reads()),
    {
        match self {
            Param::Query(desc) => desc.fetch.types_const(set),
            Param::QuerySet(descs) => crate::query_set::add_reads(descs, set),
            _ => {},
        }
    }

    /// Adds the component types that the parameter writes to `set`, whatever
    /// it holds.
    pub(crate) fn add_writes(&self, set: &mut HashSet<TypeKey>)
        ensures
            final(set)@ == old(set)@.union(self.comp_writes()),
    {
        match self {
            Param::Query(desc) => desc.fetch.add_writes(set),
            Param::QuerySet(descs) => crate::query_set::add_writes(descs, set),
            _ => {},
        }
    }

    /// The parameter can add its write requests to the write set `taken`.
    pub open spec fn writes_fresh(self, taken: Set<TypeKey>) -> bool {
        match self {
            Param::Query(desc) => desc.fetch.writes_fresh(taken),
            Param::QuerySet(descs) => crate::query_set::writes_fresh_each(descs@, taken),
            _ => true,
        }
    }

    /// Whether `components_mut` may be called with `set`.
    pub fn can_components_mut(&self, set: &HashSet<TypeKey>) -> (b: bool)
        ensures
            b == self.writes_fresh(set@),
    {
        match self {
            Param::Query(desc) => desc.fetch.can_types_mut(set),
            Param::QuerySet(descs) => crate::query_set::writes_are_fresh(descs, set),
            _ => true,
        }
    }

    /// Adds the component types that the parameter writes to the write set
    /// `set`.
    pub fn components_mut(&self, set: &mut HashSet<TypeKey>)
        requires
            self.writes_fresh(old(set)@),
        ensures
            final(set)@ == old(set)@.union(self.comp_writes()),
    {
        self.add_writes(set);
    }

    /// Adds the resource types that the parameter reads to `set`.
    pub fn resources_const(&self, set: &mut HashSet<TypeKey>)
        ensures
            final(set)@ == old(set)@.union(self.res_reads()),
    {
        match self {
            Param::Res(ty) => {
                set.insert(*ty);
            },
            _ => {},
        }
    }

    /// Adds the resource types that the parameter writes to `set`.
    pub fn resources_mut(&self, set: &mut HashSet<TypeKey>)
        ensures
            final(set)@ == old(set)@.union(self.res_writes()),
    {
        match self {
            Param::ResMut(ty) => {
                set.insert(*ty);
            },
            _ => {},
        }
    }
}

/// Parameters that ask for the same read and write the same.
pub proof fn lemma_alike(a: Param, b: Param)
    requires
        a.alike(b),
    ensures
        a.comp_reads() == b.comp_reads(),
        a.comp_writes() == b.comp_writes(),
        a.res_reads() == b.res_reads(),
        a.res_writes() == b.res_writes(),
        a.sound() == b.sound(),
{
    match (a, b) {
        (Param::Query(x), Param::Query(y)) => {},
        (Param::QuerySet(x), Param::QuerySet(y)) => {
            assert forall|ty: TypeKey| reads_of(x@).contains(ty) <==> reads_of(y@).contains(ty) by {
                if reads_of(y@).contains(ty) {
                    let k = choose|k: int| 0 <= k < y@.len() && (#[trigger] y@[k]).fetch.reads().contains(ty);
                    assert(x@[k].fetch.reads().contains(ty));
                }
            }
            assert forall|ty: TypeKey| writes_of(x@).contains(ty) <==> writes_of(y@).contains(ty) by {
                if writes_of(y@).contains(ty) {
                    let k = choose|k: int| 0 <= k < y@.len() && (#[trigger] y@[k]).fetch.writes().contains(ty);
                    assert(x@[k].fetch.writes().contains(ty));
                }
            }
            if a.sound() {
                assert forall|k: int| 0 <= k < y.len() implies (#[trigger] y[k]).fetch.sound() by {
                    assert(x[k].fetch.sound());
                }
            }
        },
        _ => {},
    }
}

/// Parameter lists that ask for the same, one for one, are admissible
/// together and give the same four sets.
pub proof fn lemma_alike_lists(a: Seq<Param>, b: Seq<Param>)
    requires
        a.len() == b.len(),
        forall|k: int| 0 <= k < a.len() ==> (#[trigger] a[k]).alike(b[k]),
    ensures
        admissible(a) == admissible(b),
        components_mut_of(a) == components_mut_of(b),
        components_const_of(a) == components_const_of(b),
        resources_mut_of(a) == resources_mut_of(b),
        resources_const_of(a) == resources_const_of(b),
{
    assert forall|k: int| 0 <= k < a.len() implies (#[trigger] a[k]).comp_reads() == b[k].comp_reads()
        && a[k].comp_writes() == b[k].comp_writes() && a[k].res_reads() == b[k].res_reads()
        && a[k].res_writes() == b[k].res_writes() && a[k].sound() == b[k].sound() by {
        lemma_alike(a[k], b[k]);
    }
    if admissible(a) {
        assert forall|i: int| 0 <= i < b.len() implies (#[trigger] b[i]).sound() by {
            assert(a[i].sound());
        }
        assert forall|i: int, j: int|
            0 <= i < b.len() && 0 <= j < b.len() && i != j implies !(#[trigger] b[i]).clashes(
            #[trigger] b[j],
        ) by {
            assert(a[i].clashes(a[j]) == b[i].clashes(b[j]));
        }
    }
    assert forall|ty: TypeKey| components_mut_of(a).contains(ty) <==> components_mut_of(b).contains(ty) by {
        if components_mut_of(b).contains(ty) {
            let i = choose|i: int| 0 <= i < b.len() && (#[trigger] b[i]).comp_writes().contains(ty);
            assert(a[i].comp_writes().contains(ty));
        }
    }
    assert forall|ty: TypeKey| components_const_of(a).contains(ty) <==> components_const_of(b).contains(ty) by {
        if components_const_of(b).contains(ty) {
            let i = choose|i: int| 0 <= i < b.len() && (#[trigger] b[i]).comp_reads().contains(ty);
            assert(a[i].comp_reads().contains(ty));
        }
    }
    assert forall|ty: TypeKey| resources_mut_of(a).contains(ty) <==> resources_mut_of(b).contains(ty) by {
        if resources_mut_of(b).contains(ty) {
            let i = choose|i: int| 0 <= i < b.len() && (#[trigger] b[i]).res_writes().contains(ty);
            assert(a[i].res_writes().contains(ty));
        }
    }
    assert forall|ty: TypeKey| resources_const_of(a).contains(ty) <==> resources_const_of(b).contains(ty) by {
        if resources_const_of(b).contains(ty) {
            let i = choose|i: int| 0 <= i < b.len() && (#[trigger] b[i]).res_reads().contains(ty);
            assert(a[i].res_reads().contains(ty));
        }
    }
}

impl Clone for Param {
    fn clone(&self) -> (copy: Self)
        ensures
            self.alike(copy),
    {
        match self {
            Param::Query(desc) => Param::Query(desc.clone()),
            Param::QuerySet(descs) => {
                let mut copies: Vec<QueryDesc> = Vec::with_capacity(descs.len());
                let mut k: usize = 0;
                while k < descs.len()
                    invariant
                        k <= descs.len(),
                        copies.len() == k,
                        forall|i: int| 0 <= i < k ==> (#[trigger] descs[i]).alike(copies[i]),
                    decreases descs.len() - k,
                {
                    copies.push(descs[k].clone());
                    k += 1;
                }
                Param::QuerySet(copies)
            },
            Param::Res(ty) => Param::Res(*ty),
            Param::ResMut(ty) => Param::ResMut(*ty),
            Param::Commands => Param::Commands,
        }
    }
}

/// The parameters can belong to one system: each is sound by itself, and
/// none writes what another reads or writes.
pub open spec fn admissible(params: Seq<Param>) -> bool {
    &&& forall|i: int| 0 <= i < params.len() ==> (#[trigger] params[i]).sound()
    &&& forall|i: int, j: int|
        0 <= i < params.len() && 0 <= j < params.len() && i != j ==> !(#[trigger] params[i]).clashes(
            #[trigger] params[j],
        )
}

/// Whether the parameters can belong to one system.
pub fn is_admissible(params: &Vec<Param>) -> (b: bool)
    ensures
        b == admissible(params@),
{
    let mut i: usize = 0;
    while i < params.len()
        invariant
            i <= params.len(),
            forall|k: int| 0 <= k < i ==> (#[trigger] params[k]).sound(),
            forall|k: int, j: int|
                0 <= k < i && 0 <= j < params.len() && k != j ==> !(#[trigger] params[k]).clashes(
                    #[trigger] params[j],
                ),
        decreases params.len() - i,
    {
        if !params[i].is_sound() {
            return false;
        }
        let mut j: usize = 0;
        while j < params.len()
            invariant
                i < params.len(),
                j <= params.len(),
                forall|k: int|
                    0 <= k < j && k != i ==> !params[i as int].clashes(#[trigger] params[k]),
            decreases params.len() - j,
        {
            if j != i && params[i].clashes_with(&params[j]) {
                return false;
            }
            j += 1;
        }
        i += 1;
    }
    true
}

/// The component types that one of the parameters writes.
pub open spec fn components_mut_of(params: Seq<Param>) -> Set<TypeKey> {
    Set::new(
        |ty: TypeKey| exists|i: int| 0 <= i < params.len() && (#[trigger] params[i]).comp_writes().contains(ty),
    )
}

/// The component types that one of the parameters reads.
pub open spec fn components_const_of(params: Seq<Param>) -> Set<TypeKey> {
    Set::new(
        |ty: TypeKey| exists|i: int| 0 <= i < params.len() && (#[trigger] params[i]).comp_reads().contains(ty),
    )
}

/// The resource types that one of the parameters writes.
pub open spec fn resources_mut_of(params: Seq<Param>) -> Set<TypeKey> {
    Set::new(
        |ty: TypeKey| exists|i: int| 0 <= i < params.len() && (#[trigger] params[i]).res_writes().contains(ty),
    )
}

/// The resource types that one of the parameters reads.
pub open spec fn resources_const_of(params: Seq<Param>) -> Set<TypeKey> {
    Set::new(
        |ty: TypeKey| exists|i: int| 0 <= i < params.len() && (#[trigger] params[i]).res_reads().contains(ty),
    )
}

/// Shared access to a resource, if the world holds one of the type.
pub struct Res<'a, V> {
    pub value: Option<&'a V>,
}

/// Exclusive access to a resource, if the world holds one of the type. A new
/// value is stored through the queue of deferred mutations.
pub struct ResMut<'a, V> {
    pub value: Option<&'a V>,
}

/// One parameter of a system, built against the world for one invocation.
pub enum WorldQuery<'a, V> {
    Query(Query<'a, V>),
    QuerySet(QuerySet<'a, V>),
    Res(Res<'a, V>),
    ResMut(ResMut<'a, V>),
    Commands,
}

/// `arg` is what `param` gives against `world`.
pub open spec fn built_one<'a, V>(param: Param, world: World<V>, arg: WorldQuery<'a, V>) -> bool {
    match (param, arg) {
        (Param::Query(desc), WorldQuery::Query(query)) => {
            &&& query.wf()
            &&& query.world() == world
            &&& query.fetch() == desc.fetch
            &&& query.filter() == desc.filter
        },
        (Param::QuerySet(descs), WorldQuery::QuerySet(set)) => {
            &&& set.queries().len() == descs.len()
            &&& forall|k: int|
                0 <= k < descs.len() ==> {
                    let query = #[trigger] set.queries()[k];
                    &&& query.wf()
                    &&& query.world() == world
                    &&& query.fetch() == descs[k].fetch
                    &&& query.filter() == descs[k].filter
                }
        },
        (Param::Res(ty), WorldQuery::Res(res)) => res.value == match world.resources().get(ty) {
            Some(value) => Some(&value),
            None => None,
        },
        (Param::ResMut(ty), WorldQuery::ResMut(res)) => res.value == match world.resources().get(ty) {
            Some(value) => Some(&value),
            None => None,
        },
        (Param::Commands, WorldQuery::Commands) => true,
        _ => false,
    }
}

/// `args` are what `params` give against `world`, one for one.
pub open spec fn built<'a, V>(params: Seq<Param>, world: World<V>, args: Seq<WorldQuery<'a, V>>) -> bool {
    &&& args.len() == params.len()
    &&& forall|k: int| 0 <= k < params.len() ==> built_one(params[k], world, #[trigger] args[k])
}

/// Builds what `params` give against `world`.
pub fn build<'a, V>(params: &'a Vec<Param>, world: &'a World<V>) -> (args: Vec<WorldQuery<'a, V>>)
    requires
        world.wf(),
    ensures
        built(params@, *world, args@),
{
    let mut args: Vec<WorldQuery<'a, V>> = Vec::with_capacity(params.len());
    let mut k: usize = 0;
    while k < params.len()
        invariant
            world.wf(),
            k <= params.len(),
            args.len() == k,
            forall|i: int| 0 <= i < k ==> built_one(params[i], *world, #[trigger] args[i]),
        decreases params.len() - k,
    {
        let arg = match &params[k] {
            Param::Query(desc) => WorldQuery::Query(Query::new(world, &desc.fetch, &desc.filter)),
            Param::QuerySet(descs) => WorldQuery::QuerySet(QuerySet::new(world, descs)),
            Param::Res(ty) => WorldQuery::Res(Res { value: world.get_resource(*ty) }),
            Param::ResMut(ty) => WorldQuery::ResMut(ResMut { value: world.get_resource(*ty) }),
            Param::Commands => WorldQuery::Commands,
        };
        args.push(arg);
        k += 1;
    }
    args
}

/// The members of `set` in some order, each once.
fn elements(set: &HashSet<TypeKey>) -> (list: Vec<TypeKey>)
    ensures
        list@.no_duplicates(),
        list@.to_set() == set@,
{
    let mut list: Vec<TypeKey> = Vec::new();
    for ty in it: set.iter()
        invariant
            it.seq().unref().to_set() == set@,
            it.seq().unref().no_duplicates(),
            list@.len() == it.index(),
            forall|j: int| 0 <= j < it.index() ==> list@[j] == *it.seq()[j],
            it.index() == it.seq().len() ==> list@ =~= it.seq().unref(),
    {
        list.push(*ty);
    }
    list
}

/// Some type is in both sets.
pub open spec fn meets(a: Set<TypeKey>, b: Set<TypeKey>) -> bool {
    exists|ty: TypeKey| #[trigger] a.contains(ty) && b.contains(ty)
}

/// Whether some type is in both sets.
fn sets_meet(a: &HashSet<TypeKey>, b: &HashSet<TypeKey>) -> (hit: bool)
    ensures
        hit == meets(a@, b@),
{
    let list = elements(a);
    let mut k: usize = 0;
    while k < list.len()
        invariant
            k <= list.len(),
            list@.to_set() == a@,
            forall|i: int| 0 <= i < k ==> !b@.contains(#[trigger] list[i]),
        decreases list.len() - k,
    {
        if b.contains(&list[k]) {
            proof {
                assert(list@.to_set().contains(list[k as int]));
            }
            return true;
        }
        k += 1;
    }
    false
}

/// A copy of `set`.
fn copy_set(set: &HashSet<TypeKey>) -> (copy: HashSet<TypeKey>)
    ensures
        copy@ == set@,
{
    let list = elements(set);
    let mut copy: HashSet<TypeKey> = HashSet::new();
    let mut k: usize = 0;
    while k < list.len()
        invariant
            k <= list.len(),
            copy@ == list@.take(k as int).to_set(),
        decreases list.len() - k,
    {
        copy.insert(list[k]);
        proof {
            assert(list@.take(k + 1) =~= list@.take(k as int).push(list[k as int]));
            assert(list@.take(k as int).push(list[k as int]).to_set() =~= list@.take(k as int).to_set().insert(
                list[k as int],
            )) by {
                let shorter = list@.take(k as int);
                let longer = shorter.push(list[k as int]);
                assert forall|ty: TypeKey| longer.to_set().contains(ty) <==> shorter.to_set().insert(
                    list[k as int],
                ).contains(ty) by {
                    if ty == list[k as int] {
                        assert(longer[shorter.len() as int] == ty);
                    }
                }
            }
        }
        k += 1;
    }
    proof {
        assert(list@.take(list.len() as int) =~= list@);
    }
    copy
}

/// A system: a callable with the parameters it asks for and the four sets of
/// types it may read and write, derived from the parameters.
pub struct ErasedSystem<F> {
    pub(crate) execute: F,
    pub(crate) params: Vec<Param>,
    pub(crate) components_mut: HashSet<TypeKey>,
    pub(crate) resources_mut: HashSet<TypeKey>,
    pub(crate) components_const: HashSet<TypeKey>,
    pub(crate) resources_const: HashSet<TypeKey>,
}

impl<F> ErasedSystem<F> {
    /// The callable.
    pub closed spec fn execute(&self) -> F {
        self.execute
    }

    /// The parameters that the callable is given.
    pub closed spec fn params(&self) -> Seq<Param> {
        self.params@
    }

    /// The component types that the system may write.
    pub closed spec fn components_mut(&self) -> Set<TypeKey> {
        self.components_mut@
    }

    /// The resource types that the system may write.
    pub closed spec fn resources_mut(&self) -> Set<TypeKey> {
        self.resources_mut@
    }

    /// The component types that the system may read.
    pub closed spec fn components_const(&self) -> Set<TypeKey> {
        self.components_const@
    }

    /// The resource types that the system may read.
    pub closed spec fn resources_const(&self) -> Set<TypeKey> {
        self.resources_const@
    }

    /// The parameters are admissible and the four sets are what the
    /// parameters say.
    pub open spec fn wf(&self) -> bool {
        &&& admissible(self.params())
        &&& self.components_mut() == components_mut_of(self.params())
        &&& self.components_const() == components_const_of(self.params())
        &&& self.resources_mut() == resources_mut_of(self.params())
        &&& self.resources_const() == resources_const_of(self.params())
    }

    /// The two systems cannot run at the same time: one writes a component
    /// type or resource type that the other reads or writes.
    pub open spec fn conflicts(&self, other: &Self) -> bool {
        ||| meets(self.components_mut(), other.components_mut())
        ||| meets(self.components_mut(), other.components_const())
        ||| meets(self.components_const(), other.components_mut())
        ||| meets(self.resources_mut(), other.resources_mut())
        ||| meets(self.resources_mut(), other.resources_const())
        ||| meets(self.resources_const(), other.resources_mut())
    }

    /// Makes a system of a callable and its parameters.
    pub fn new(params: Vec<Param>, execute: F) -> (system: Self)
        requires
            admissible(params@),
        ensures
            system.wf(),
            system.params() == params@,
            system.execute() == execute,
    {
        let mut components_mut: HashSet<TypeKey> = HashSet::new();
        let mut components_const: HashSet<TypeKey> = HashSet::new();
        let mut resources_mut: HashSet<TypeKey> = HashSet::new();
        let mut resources_const: HashSet<TypeKey> = HashSet::new();
        let mut k: usize = 0;
        while k < params.len()
            invariant
                k <= params.len(),
                components_mut@ == components_mut_of(params@.take(k as int)),
                components_const@ == components_const_of(params@.take(k as int)),
                resources_mut@ == resources_mut_of(params@.take(k as int)),
                resources_const@ == resources_const_of(params@.take(k as int)),
            decreases params.len() - k,
        {
            params[k].add_writes(&mut components_mut);
            params[k].components_const(&mut components_const);
            params[k].resources_mut(&mut resources_mut);
            params[k].resources_const(&mut resources_const);
            proof {
                let after = params@.take(k + 1);
                let p = params[k as int];
                assert(after[k as int] == p);
            }
            k += 1;
        }
        proof {
            assert(params@.take(params.len() as int) =~= params@);
        }
        ErasedSystem {
            execute,
            params,
            components_mut,
            resources_mut,
            components_const,
            resources_const,
        }
    }

    /// The parameters that the callable is given.
    pub fn parameters(&self) -> (params: &Vec<Param>)
        ensures
            params@ == self.params(),
    {
        &self.params
    }

    /// Whether the system may write the component type.
    pub fn writes_component(&self, ty: TypeKey) -> (b: bool)
        ensures
            b == self.components_mut().contains(ty),
    {
        self.components_mut.contains(&ty)
    }

    /// Whether the system may read the component type.
    pub fn reads_component(&self, ty: TypeKey) -> (b: bool)
        ensures
            b == self.components_const().contains(ty),
    {
        self.components_const.contains(&ty)
    }

    /// Whether the system may write the resource type.
    pub fn writes_resource(&self, ty: TypeKey) -> (b: bool)
        ensures
            b == self.resources_mut().contains(ty),
    {
        self.resources_mut.contains(&ty)
    }

    /// Whether the system may read the resource type.
    pub fn reads_resource(&self, ty: TypeKey) -> (b: bool)
        ensures
            b == self.resources_const().contains(ty),
    {
        self.resources_const.contains(&ty)
    }

    /// One invocation: builds the parameters against `world`, calls the
    /// callable with them, and returns the mutations that it asks for.
    pub fn invoke<'a, V>(&'a self, world: &'a World<V>) -> (commands: Commands<V>) where
        F: Fn(Vec<WorldQuery<'a, V>>) -> Commands<V>,

        requires
            world.wf(),
            forall|args: Vec<WorldQuery<'a, V>>| #[trigger]
                built(self.params(), *world, args@) ==> call_requires(self.execute(), (args,)),
        ensures
            exists|args: Vec<WorldQuery<'a, V>>|
                built(self.params(), *world, args@) && #[trigger] call_ensures(
                    self.execute(),
                    (args,),
                    commands,
                ),
    {
        let args = build(&self.params, world);
        proof {
            assert(built(self.params(), *world, args@));
        }
        let commands = (self.execute)(args);
        commands
    }

    /// Whether the two systems cannot run at the same time.
    pub fn conflicts_with(&self, other: &Self) -> (b: bool)
        ensures
            b == self.conflicts(other),
    {
        sets_meet(&self.components_mut, &other.components_mut) || sets_meet(
            &self.components_mut,
            &other.components_const,
        ) || sets_meet(&self.components_const, &other.components_mut) || sets_meet(
            &self.resources_mut,
            &other.resources_mut,
        ) || sets_meet(&self.resources_mut, &other.resources_const) || sets_meet(
            &self.resources_const,
            &other.resources_mut,
        )
    }
}

impl<F: Clone> Clone for ErasedSystem<F> {
    /// A system with a clone of the callable, the same parameters and the
    /// same four sets.
    fn clone(&self) -> (copy: Self)
        ensures
            cloned(self.execute(), copy.execute()),
            copy.params().len() == self.params().len(),
            forall|k: int| 0 <= k < self.params().len() ==> (#[trigger] self.params()[k]).alike(copy.params()[k]),
            copy.components_mut() == self.components_mut(),
            copy.components_const() == self.components_const(),
            copy.resources_mut() == self.resources_mut(),
            copy.resources_const() == self.resources_const(),
            self.wf() ==> copy.wf(),
    {
        let mut params: Vec<Param> = Vec::with_capacity(self.params.len());
        let mut k: usize = 0;
        while k < self.params.len()
            invariant
                k <= self.params.len(),
                params.len() == k,
                forall|i: int| 0 <= i < k ==> (#[trigger] self.params[i]).alike(params[i]),
            decreases self.params.len() - k,
        {
            params.push(self.params[k].clone());
            k += 1;
        }
        proof {
            lemma_alike_lists(self.params@, params@);
        }
        ErasedSystem {
            execute: self.execute.clone(),
            params,
            components_mut: copy_set(&self.components_mut),
            resources_mut: copy_set(&self.resources_mut),
            components_const: copy_set(&self.components_const),
            resources_const: copy_set(&self.resources_const),
        }
    }
}

/// What can be made into a system.
pub trait IntoSystem<F>: Sized {
    /// The parameters can belong to one system.
    spec fn admissible(&self) -> bool;

    /// `system` is the system that this makes.
    spec fn makes(&self, system: ErasedSystem<F>) -> bool;

    /// The system with its four sets of types.
    fn system(self) -> (system: ErasedSystem<F>)
        requires
            self.admissible(),
        ensures
            self.makes(system),
            system.wf(),
    ;
}

impl<F> IntoSystem<F> for (Vec<Param>, F) {
    open spec fn admissible(&self) -> bool {
        admissible(self.0@)
    }

    open spec fn makes(&self, system: ErasedSystem<F>) -> bool {
        system.params() == self.0@ && system.execute() == self.1
    }

    fn system(self) -> (system: ErasedSystem<F>) {
        ErasedSystem::new(self.0, self.1)
    }
}

impl<F> IntoSystem<F> for ErasedSystem<F> {
    open spec fn admissible(&self) -> bool {
        self.wf()
    }

    open spec fn makes(&self, system: ErasedSystem<F>) -> bool {
        system == *self
    }

    fn system(self) -> (system: ErasedSystem<F>) {
        self
    }
}

/// The batch of system `j` when only the conflicts with the systems before
/// `k` count.
pub open spec fn batch_upto<F>(systems: Seq<ErasedSystem<F>>, j: int, k: int) -> nat
    decreases j, k,
{
    if k <= 0 || k > j {
        0
    } else {
        let rest = batch_upto(systems, j, k - 1);
        if systems[k - 1].conflicts(&systems[j]) && batch_upto(systems, k - 1, k - 1) + 1 > rest {
            batch_upto(systems, k - 1, k - 1) + 1
        } else {
            rest
        }
    }
}

/// The batch in which system `j` runs: the first one after the batches of
/// all systems before it that it conflicts with.
pub open spec fn batch_of<F>(systems: Seq<ErasedSystem<F>>, j: int) -> nat {
    batch_upto(systems, j, j)
}

/// A batch number is at most the number of systems counted.
pub proof fn lemma_batch_bound<F>(systems: Seq<ErasedSystem<F>>, j: int, k: int)
    requires
        0 <= k <= j,
    ensures
        batch_upto(systems, j, k) <= k,
    decreases j, k,
{
    if k > 0 {
        lemma_batch_bound(systems, j, k - 1);
        lemma_batch_bound(systems, k - 1, k - 1);
    }
}

/// A system runs in a later batch than every earlier system that it
/// conflicts with.
pub proof fn lemma_batch_order<F>(systems: Seq<ErasedSystem<F>>, i: int, j: int, k: int)
    requires
        0 <= i < k <= j,
        systems[i].conflicts(&systems[j]),
    ensures
        batch_of(systems, i) < batch_upto(systems, j, k),
    decreases k,
{
    if k - 1 > i {
        lemma_batch_order(systems, i, j, k - 1);
    }
}

/// An ordered list of systems, run once per tick.
pub struct SystemStage<F> {
    pub systems: Vec<ErasedSystem<F>>,
}

impl<F> SystemStage<F> {
    /// Every system of the stage is sound.
    pub open spec fn wf(&self) -> bool {
        forall|i: int| 0 <= i < self.systems.len() ==> (#[trigger] self.systems[i]).wf()
    }

    /// A stage without systems.
    pub fn new() -> (stage: Self)
        ensures
            stage.wf(),
            stage.systems@ == Seq::<ErasedSystem<F>>::empty(),
    {
        SystemStage { systems: Vec::new() }
    }

    /// The stage with `system` behind the systems it has.
    pub fn with_system<S: IntoSystem<F>>(self, system: S) -> (stage: Self)
        requires
            self.wf(),
            system.admissible(),
        ensures
            stage.wf(),
            stage.systems@.len() == self.systems@.len() + 1,
            stage.systems@.drop_last() == self.systems@,
            system.makes(stage.systems@.last()),
    {
        let mut stage = self;
        stage.systems.push(system.system());
        stage
    }

    /// Number of systems.
    pub fn len(&self) -> (n: usize)
        ensures
            n == self.systems@.len(),
    {
        self.systems.len()
    }

    /// The batch of each system: systems of one batch do not conflict and
    /// may run at the same time; the batches run one after the other.
    pub fn batches(&self) -> (batches: Vec<usize>)
        ensures
            batches.len() == self.systems.len(),
            forall|j: int| 0 <= j < batches.len() ==> #[trigger] batches[j] == batch_of(self.systems@, j),
    {
        let mut batches: Vec<usize> = Vec::with_capacity(self.systems.len());
        let mut j: usize = 0;
        while j < self.systems.len()
            invariant
                j <= self.systems.len(),
                batches.len() == j,
                forall|i: int| 0 <= i < j ==> #[trigger] batches[i] == batch_of(self.systems@, i),
            decreases self.systems.len() - j,
        {
            let mut batch: usize = 0;
            let mut k: usize = 0;
            while k < j
                invariant
                    j < self.systems.len(),
                    batches.len() == j,
                    k <= j,
                    batch == batch_upto(self.systems@, j as int, k as int),
                    forall|i: int| 0 <= i < j ==> #[trigger] batches[i] == batch_of(self.systems@, i),
                decreases j - k,
            {
                proof {
                    lemma_batch_bound(self.systems@, k as int, k as int);
                }
                if self.systems[k].conflicts_with(&self.systems[j]) && batches[k] + 1 > batch {
                    batch = batches[k] + 1;
                }
                k += 1;
            }
            batches.push(batch);
            j += 1;
        }
        batches
    }
}

impl<F> Default for SystemStage<F> {
    /// A stage without systems.
    fn default() -> (stage: Self)
        ensures
            stage.wf(),
            stage.systems@ == Seq::<ErasedSystem<F>>::empty(),
    {
        SystemStage::new()
    }
}

impl<F: Clone> Clone for SystemStage<F> {
    /// A stage with a clone of each system, in the same order.
    fn clone(&self) -> (copy: Self)
        ensures
            copy.systems@.len() == self.systems@.len(),
            forall|k: int|
                0 <= k < self.systems@.len() ==> {
                    let system = #[trigger] copy.systems@[k];
                    &&& cloned(self.systems@[k].execute(), system.execute())
                    &&& system.params().len() == self.systems@[k].params().len()
                    &&& forall|p: int|
                        0 <= p < system.params().len() ==> (#[trigger] self.systems@[k].params()[p]).alike(
                            system.params()[p],
                        )
                    &&& system.components_mut() == self.systems@[k].components_mut()
                    &&& system.components_const() == self.systems@[k].components_const()
                    &&& system.resources_mut() == self.systems@[k].resources_mut()
                    &&& system.resources_const() == self.systems@[k].resources_const()
                },
            self.wf() ==> copy.wf(),
    {
        let mut systems: Vec<ErasedSystem<F>> = Vec::with_capacity(self.systems.len());
        let mut k: usize = 0;
        while k < self.systems.len()
            invariant
                k <= self.systems.len(),
                systems.len() == k,
                forall|i: int|
                    0 <= i < k ==> {
                        let system = #[trigger] systems@[i];
                        &&& cloned(self.systems@[i].execute(), system.execute())
                        &&& system.params().len() == self.systems@[i].params().len()
                        &&& forall|p: int|
                            0 <= p < system.params().len() ==> (#[trigger] self.systems@[i].params()[p]).alike(
                                system.params()[p],
                            )
                        &&& system.components_mut() == self.systems@[i].components_mut()
                        &&& system.components_const() == self.systems@[i].components_const()
                        &&& system.resources_mut() == self.systems@[i].resources_mut()
                        &&& system.resources_const() == self.systems@[i].resources_const()
                    },
                forall|i: int| 0 <= i < k && self.systems@[i].wf() ==> (#[trigger] systems@[i]).wf(),
            decreases self.systems.len() - k,
        {
            systems.push(self.systems[k].clone());
            k += 1;
        }
        SystemStage { systems }
    }
}

impl<V> World<V> {
    /// `after` is what one invocation of `system` makes of `before`: the
    /// callable is given `args`, the parameters built against `before`, and
    /// returns `commands`, which are then applied.
    pub open spec fn invoked<'a, F: Fn(Vec<WorldQuery<'a, V>>) -> Commands<V>>(
        before: Self,
        system: ErasedSystem<F>,
        args: Vec<WorldQuery<'a, V>>,
        commands: Commands<V>,
        after: Self,
    ) -> bool where V: 'a {
        &&& before.wf()
        &&& built(system.params(), before, args@)
        &&& call_ensures(system.execute(), (args,), commands)
        &&& Self::applied(before, commands@, after)
    }

    /// `after` is what running `systems` in order makes of `before`: each
    /// system is called with its parameters built against the world as the
    /// systems before it left it, and the mutations it asks for are applied
    /// before the next system is called.
    pub open spec fn ran<'a, F: Fn(Vec<WorldQuery<'a, V>>) -> Commands<V>>(
        before: Self,
        systems: Seq<ErasedSystem<F>>,
        after: Self,
    ) -> bool where V: 'a
        decreases systems.len(),
    {
        if systems.len() == 0 {
            after == before
        } else {
            exists|mid: Self, args: Vec<WorldQuery<'a, V>>, commands: Commands<V>|
                {
                    &&& Self::ran(before, systems.drop_last(), mid)
                    &&& #[trigger] Self::invoked(mid, systems.last(), args, commands, after)
                }
        }
    }

    /// Runs the systems of `stage` in order. Each system is called with its
    /// parameters built against the world as it is then; the mutations it
    /// asks for are applied when it has returned, before the next system is
    /// called.
    pub fn run_stage<F>(&mut self, stage: &SystemStage<F>) where
        F: for <'a>Fn(Vec<WorldQuery<'a, V>>) -> Commands<V>,

        requires
            old(self).wf(),
            forall|i: int, world: Self, args: Vec<WorldQuery<V>>|
                0 <= i < stage.systems@.len() && world.wf() && #[trigger] built(
                    stage.systems@[i].params(),
                    world,
                    args@,
                ) ==> call_requires(stage.systems@[i].execute(), (args,)),
        ensures
            final(self).wf(),
            Self::ran(*old(self), stage.systems@, *final(self)),
            forall|e: EntityId| old(self).stale(e) ==> final(self).stale(e),
    {
        let mut k: usize = 0;
        while k < stage.systems.len()
            invariant
                self.wf(),
                k <= stage.systems.len(),
                forall|i: int, world: Self, args: Vec<WorldQuery<V>>|
                    0 <= i < stage.systems@.len() && world.wf() && #[trigger] built(
                        stage.systems@[i].params(),
                        world,
                        args@,
                    ) ==> call_requires(stage.systems@[i].execute(), (args,)),
                Self::ran(*old(self), stage.systems@.take(k as int), *self),
                forall|e: EntityId| old(self).stale(e) ==> self.stale(e),
            decreases stage.systems.len() - k,
        {
            let ghost mid = *self;
            let commands = stage.systems[k].invoke(&*self);
            let ghost asked = commands;
            self.apply_commands(commands);
            proof {
                let done = stage.systems@.take(k + 1);
                let given = choose|args: Vec<WorldQuery<V>>|
                    built(done.last().params(), mid, args@) && #[trigger] call_ensures(
                        done.last().execute(),
                        (args,),
                        asked,
                    );
                assert(done.drop_last() =~= stage.systems@.take(k as int));
                assert(Self::invoked(mid, done.last(), given, asked, *self));
            }
            k += 1;
        }
        proof {
            assert(stage.systems@.take(stage.systems.len() as int) =~= stage.systems@);
        }
    }
}

} // verus!
