//! Queries: which archetypes a request for components matches, and what the
//! walk over them yields.

use vstd::prelude::*;
use std::collections::HashSet;
use crate::db::{ArchetypeStorage, Ref};
use crate::entity_id::EntityId;
use crate::page_table::row_list;
use crate::world::World;
use crate::{RowIndex, TypeKey};

verus! {

broadcast use vstd::std_specs::hash::group_hash_axioms;

/// One thing a query asks for of each entity: its id, or one of its
/// components to read or to write.
#[derive(Clone, Copy, PartialEq, Eq, Structural, Debug)]
pub enum Fetch {
    Entity,
    Read(TypeKey),
    Write(TypeKey),
}

impl Fetch {
    /// The component type that the request needs, if it asks for a component.
    pub open spec fn component(self) -> Option<TypeKey> {
        match self {
            Fetch::Entity => None,
            Fetch::Read(ty) => Some(ty),
            Fetch::Write(ty) => Some(ty),
        }
    }
}

/// The requests of one query, in the order in which their results are
/// yielded.
#[derive(Debug)]
pub struct ArchQuery {
    pub fetches: Vec<Fetch>,
}

impl ArchQuery {
    /// The types that the query reads.
    pub open spec fn reads(&self) -> Set<TypeKey> {
        Set::new(|ty: TypeKey| self.fetches@.contains(Fetch::Read(ty)))
    }

    /// The types that the query writes.
    pub open spec fn writes(&self) -> Set<TypeKey> {
        Set::new(|ty: TypeKey| self.fetches@.contains(Fetch::Write(ty)))
    }

    /// An archetype with the columns `types` has every component that the
    /// query asks for.
    pub open spec fn accepts(&self, types: Set<TypeKey>) -> bool {
        forall|k: int|
            0 <= k < self.fetches.len() ==> match #[trigger] self.fetches[k] {
                Fetch::Entity => true,
                Fetch::Read(ty) => types.contains(ty),
                Fetch::Write(ty) => types.contains(ty),
            }
    }

    /// The write requests can be added to the write set `taken`: none of
    /// their types is in it, and none is asked for twice.
    pub open spec fn writes_fresh(&self, taken: Set<TypeKey>) -> bool {
        forall|k: int|
            0 <= k < self.fetches.len() ==> match #[trigger] self.fetches[k] {
                Fetch::Write(ty) => !taken.contains(ty) && forall|j: int|
                    0 <= j < k ==> self.fetches[j] != Fetch::Write(ty),
                _ => true,
            }
    }

    /// The query asks for the type, to read or to write.
    pub open spec fn touches(&self, ty: TypeKey) -> bool {
        self.reads().contains(ty) || self.writes().contains(ty)
    }

    /// No type that the query writes is asked for a second time: the values
    /// that one row yields do not alias.
    pub open spec fn sound(&self) -> bool {
        forall|k: int, j: int|
            0 <= k < self.fetches.len() && 0 <= j < self.fetches.len() && k != j ==> match #[trigger] self.fetches[k] {
                Fetch::Write(ty) => (#[trigger] self.fetches[j]).component() != Some(ty),
                _ => true,
            }
    }

    /// The query that asks for `fetches`, in that order.
    pub fn new(fetches: Vec<Fetch>) -> (query: Self)
        ensures
            query.fetches == fetches,
    {
        ArchQuery { fetches }
    }

    /// Whether the query asks for the type, to read or to write.
    pub fn asks_for(&self, ty: TypeKey) -> (b: bool)
        ensures
            b == self.touches(ty),
    {
        let mut k: usize = 0;
        while k < self.fetches.len()
            invariant
                k <= self.fetches.len(),
                forall|i: int| 0 <= i < k ==> (#[trigger] self.fetches[i]).component() != Some(ty),
            decreases self.fetches.len() - k,
        {
            match self.fetches[k] {
                Fetch::Read(other) => {
                    if other == ty {
                        return true;
                    }
                },
                Fetch::Write(other) => {
                    if other == ty {
                        return true;
                    }
                },
                Fetch::Entity => {},
            }
            k += 1;
        }
        false
    }

    /// Whether the query is sound.
    pub fn is_sound(&self) -> (b: bool)
        ensures
            b == self.sound(),
    {
        let mut k: usize = 0;
        while k < self.fetches.len()
            invariant
                k <= self.fetches.len(),
                forall|i: int, j: int|
                    0 <= i < k && 0 <= j < self.fetches.len() && i != j ==> match #[trigger] self.fetches[i] {
                        Fetch::Write(ty) => (#[trigger] self.fetches[j]).component() != Some(ty),
                        _ => true,
                    },
            decreases self.fetches.len() - k,
        {
            match self.fetches[k] {
                Fetch::Write(ty) => {
                    let mut j: usize = 0;
                    while j < self.fetches.len()
                        invariant
                            j <= self.fetches.len(),
                            k < self.fetches.len(),
                            self.fetches[k as int] == Fetch::Write(ty),
                            forall|i: int|
                                0 <= i < j && i != k ==> (#[trigger] self.fetches[i]).component() != Some(
                                    ty,
                                ),
                        decreases self.fetches.len() - j,
                    {
                        if j != k {
                            let clash = match self.fetches[j] {
                                Fetch::Read(other) => other == ty,
                                Fetch::Write(other) => other == ty,
                                Fetch::Entity => false,
                            };
                            if clash {
                                return false;
                            }
                        }
                        j += 1;
                    }
                },
                _ => {},
            }
            k += 1;
        }
        true
    }

    /// Adds the types that the query reads to `set`.
    pub fn types_const(&self, set: &mut HashSet<TypeKey>)
        ensures
            final(set)@ == old(set)@.union(self.reads()),
    {
        let mut k: usize = 0;
        while k < self.fetches.len()
            invariant
                k <= self.fetches.len(),
                forall|ty: TypeKey|
                    set@.contains(ty) <==> old(set)@.contains(ty) || exists|j: int|
                        0 <= j < k && self.fetches[j] == Fetch::Read(ty),
            decreases self.fetches.len() - k,
        {
            match self.fetches[k] {
                Fetch::Read(ty) => {
                    set.insert(ty);
                },
                _ => {},
            }
            k += 1;
        }
    }

    /// Whether `types_mut` may be called with `set`.
    pub fn can_types_mut(&self, set: &HashSet<TypeKey>) -> (b: bool)
        ensures
            b == self.writes_fresh(set@),
    {
        let mut k: usize = 0;
        while k < self.fetches.len()
            invariant
                k <= self.fetches.len(),
                forall|i: int|
                    0 <= i < k ==> match #[trigger] self.fetches[i] {
                        Fetch::Write(ty) => !set@.contains(ty) && forall|j: int|
                            0 <= j < i ==> self.fetches[j] != Fetch::Write(ty),
                        _ => true,
                    },
            decreases self.fetches.len() - k,
        {
            match self.fetches[k] {
                Fetch::Write(ty) => {
                    if set.contains(&ty) {
                        return false;
                    }
                    let mut j: usize = 0;
                    while j < k
                        invariant
                            j <= k,
                            k < self.fetches.len(),
                            self.fetches[k as int] == Fetch::Write(ty),
                            forall|i: int| 0 <= i < j ==> self.fetches[i] != Fetch::Write(ty),
                        decreases k - j,
                    {
                        if self.fetches[j] == Fetch::Write(ty) {
                            return false;
                        }
                        j += 1;
                    }
                },
                _ => {},
            }
            k += 1;
        }
        true
    }

    /// Adds the types that the query writes to the write set `set`.
    pub fn types_mut(&self, set: &mut HashSet<TypeKey>)
        requires
            self.writes_fresh(old(set)@),
        ensures
            final(set)@ == old(set)@.union(self.writes()),
    {
        self.add_writes(set);
    }

    /// Adds the types that the query writes to `set`, whatever it holds.
    pub(crate) fn add_writes(&self, set: &mut HashSet<TypeKey>)
        ensures
            final(set)@ == old(set)@.union(self.writes()),
    {
        let mut k: usize = 0;
        while k < self.fetches.len()
            invariant
                k <= self.fetches.len(),
                forall|ty: TypeKey|
                    set@.contains(ty) <==> old(set)@.contains(ty) || exists|j: int|
                        0 <= j < k && self.fetches[j] == Fetch::Write(ty),
            decreases self.fetches.len() - k,
        {
            match self.fetches[k] {
                Fetch::Write(ty) => {
                    set.insert(ty);
                },
                _ => {},
            }
            k += 1;
        }
    }

    /// Whether `archetype` has every component that the query asks for.
    pub fn matches<V>(&self, archetype: &ArchetypeStorage<V>) -> (b: bool)
        ensures
            b == self.accepts(archetype.types()),
    {
        let mut k: usize = 0;
        while k < self.fetches.len()
            invariant
                k <= self.fetches.len(),
                forall|i: int|
                    0 <= i < k ==> match #[trigger] self.fetches[i] {
                        Fetch::Entity => true,
                        Fetch::Read(ty) => archetype.types().contains(ty),
                        Fetch::Write(ty) => archetype.types().contains(ty),
                    },
            decreases self.fetches.len() - k,
        {
            let present = match self.fetches[k] {
                Fetch::Entity => true,
                Fetch::Read(ty) => archetype.contains_column(ty),
                Fetch::Write(ty) => archetype.contains_column(ty),
            };
            if !present {
                return false;
            }
            k += 1;
        }
        true
    }
}

/// A condition on the component types of an archetype that narrows what a
/// query matches.
#[derive(Debug)]
pub enum Filter {
    /// Every archetype passes.
    Any,
    /// The archetype carries the type.
    With(TypeKey),
    /// The archetype does not carry the type.
    Without(TypeKey),
    /// Both conditions hold.
    And(Box<Filter>, Box<Filter>),
    /// One of the conditions holds.
    Or(Box<Filter>, Box<Filter>),
}

impl Filter {
    /// An archetype with the columns `types` passes the filter.
    pub open spec fn accepts(self, types: Set<TypeKey>) -> bool
        decreases self,
    {
        match self {
            Filter::Any => true,
            Filter::With(ty) => types.contains(ty),
            Filter::Without(ty) => !types.contains(ty),
            Filter::And(left, right) => left.accepts(types) && right.accepts(types),
            Filter::Or(left, right) => left.accepts(types) || right.accepts(types),
        }
    }

    /// Whether `archetype` passes the filter.
    pub fn matches<V>(&self, archetype: &ArchetypeStorage<V>) -> (b: bool)
        ensures
            b == self.accepts(archetype.types()),
        decreases self,
    {
        match self {
            Filter::Any => true,
            Filter::With(ty) => archetype.contains_column(*ty),
            Filter::Without(ty) => !archetype.contains_column(*ty),
            Filter::And(left, right) => left.matches(archetype) && right.matches(archetype),
            Filter::Or(left, right) => left.matches(archetype) || right.matches(archetype),
        }
    }
}

/// What one query asks for: its requests and its filter.
#[derive(Debug)]
pub struct QueryDesc {
    pub fetch: ArchQuery,
    pub filter: Filter,
}

impl Clone for ArchQuery {
    fn clone(&self) -> (copy: Self)
        ensures
            copy.fetches@ == self.fetches@,
    {
        let mut fetches: Vec<Fetch> = Vec::with_capacity(self.fetches.len());
        let mut k: usize = 0;
        while k < self.fetches.len()
            invariant
                k <= self.fetches.len(),
                fetches@ == self.fetches@.take(k as int),
            decreases self.fetches.len() - k,
        {
            fetches.push(self.fetches[k]);
            k += 1;
        }
        ArchQuery { fetches }
    }
}

impl Clone for Filter {
    fn clone(&self) -> (copy: Self)
        ensures
            copy == *self,
        decreases self,
    {
        match self {
            Filter::Any => Filter::Any,
            Filter::With(ty) => Filter::With(*ty),
            Filter::Without(ty) => Filter::Without(*ty),
            Filter::And(left, right) => Filter::And(
                Box::new((&**left).clone()),
                Box::new((&**right).clone()),
            ),
            Filter::Or(left, right) => Filter::Or(
                Box::new((&**left).clone()),
                Box::new((&**right).clone()),
            ),
        }
    }
}

impl QueryDesc {
    /// The two ask for the same requests under the same filter.
    pub open spec fn alike(self, other: Self) -> bool {
        self.fetch.fetches@ == other.fetch.fetches@ && self.filter == other.filter
    }
}

impl Clone for QueryDesc {
    fn clone(&self) -> (copy: Self)
        ensures
            self.alike(copy),
    {
        QueryDesc { fetch: self.fetch.clone(), filter: self.filter.clone() }
    }
}

/// What a query yields for one entity, as plain values.
pub struct QueryItemView<V> {
    pub id: EntityId,
    pub archetype: usize,
    pub row: RowIndex,
    pub values: Seq<Option<V>>,
}

/// What a query yields for one entity: its id, where it lives, and one entry
/// for each request of the query. The entry of a component request is the
/// component, the entry of a request for the id is `None`.
pub struct QueryItem<'a, V> {
    pub id: EntityId,
    pub archetype: usize,
    pub row: RowIndex,
    pub values: Vec<Option<Ref<'a, V>>>,
}

impl<'a, V> View for QueryItem<'a, V> {
    type V = QueryItemView<V>;

    open spec fn view(&self) -> QueryItemView<V> {
        QueryItemView {
            id: self.id,
            archetype: self.archetype,
            row: self.row,
            values: Seq::new(
                self.values.len() as nat,
                |k: int|
                    match self.values[k] {
                        Some(value) => Some(value@),
                        None => None,
                    },
            ),
        }
    }
}

/// The handles below `bound` of the archetypes that `fetch` and `filter`
/// match, in ascending order.
pub open spec fn matching_below<V>(
    archetypes: Seq<ArchetypeStorage<V>>,
    fetch: ArchQuery,
    filter: Filter,
    bound: nat,
) -> Seq<usize>
    decreases bound,
{
    if bound == 0 {
        Seq::empty()
    } else {
        let types = archetypes[bound - 1].types();
        if fetch.accepts(types) && filter.accepts(types) {
            matching_below(archetypes, fetch, filter, (bound - 1) as nat).push((bound - 1) as usize)
        } else {
            matching_below(archetypes, fetch, filter, (bound - 1) as nat)
        }
    }
}

/// What `fetch` yields for the entity at `row` of `archetype`.
pub open spec fn item_at<V>(
    archetype: ArchetypeStorage<V>,
    handle: usize,
    row: RowIndex,
    fetch: ArchQuery,
) -> QueryItemView<V> {
    QueryItemView {
        id: archetype.entities()[row],
        archetype: handle,
        row,
        values: Seq::new(
            fetch.fetches.len() as nat,
            |k: int|
                match fetch.fetches[k].component() {
                    Some(ty) => if archetype.types().contains(ty) && archetype.column(ty).contains_key(
                        row,
                    ) {
                        Some(archetype.column(ty)[row])
                    } else {
                        None
                    },
                    None => None,
                },
        ),
    }
}

/// What `fetch` yields for the entities of `archetype`, in ascending row
/// order.
pub open spec fn archetype_items<V>(
    archetype: ArchetypeStorage<V>,
    handle: usize,
    fetch: ArchQuery,
) -> Seq<QueryItemView<V>> {
    Seq::new(
        row_list(archetype.entities()).len(),
        |i: int| item_at(archetype, handle, row_list(archetype.entities())[i], fetch),
    )
}

/// What `fetch` yields for the archetypes `matching`: archetype by
/// archetype, each in ascending row order.
pub open spec fn items_of<V>(
    archetypes: Seq<ArchetypeStorage<V>>,
    matching: Seq<usize>,
    fetch: ArchQuery,
) -> Seq<QueryItemView<V>>
    decreases matching.len(),
{
    if matching.len() == 0 {
        Seq::empty()
    } else {
        items_of(archetypes, matching.drop_last(), fetch) + archetype_items(
            archetypes[matching.last() as int],
            matching.last(),
            fetch,
        )
    }
}

/// A view of the entities of a world that have the components that `fetch`
/// asks for and whose archetype passes `filter`.
pub struct Query<'a, V> {
    world: &'a World<V>,
    fetch: &'a ArchQuery,
    filter: &'a Filter,
    matching: Vec<usize>,
}

impl<'a, V> Query<'a, V> {
    /// The world that the query was planned against.
    pub closed spec fn world(&self) -> World<V> {
        *self.world
    }

    /// What the query asks for.
    pub closed spec fn fetch(&self) -> ArchQuery {
        *self.fetch
    }

    /// The filter of the query.
    pub closed spec fn filter(&self) -> Filter {
        *self.filter
    }

    /// The handles of the matching archetypes, in ascending order.
    pub closed spec fn matching(&self) -> Seq<usize> {
        self.matching@
    }

    /// The query was built by `new` and not changed since.
    pub open spec fn wf(&self) -> bool {
        &&& self.world().wf()
        &&& self.matching() == matching_below(
            self.world().archetypes(),
            self.fetch(),
            self.filter(),
            self.world().archetypes().len(),
        )
    }

    /// Plans the query against `world`: finds the archetypes that carry every
    /// component asked for and pass the filter. No data is copied.
    pub fn new(world: &'a World<V>, fetch: &'a ArchQuery, filter: &'a Filter) -> (query: Self)
        requires
            world.wf(),
        ensures
            query.wf(),
            query.world() == *world,
            query.fetch() == *fetch,
            query.filter() == *filter,
    {
        let mut matching: Vec<usize> = Vec::new();
        let count = world.archetype_count();
        let mut handle: usize = 0;
        while handle < count
            invariant
                handle <= count,
                count == world.archetypes().len(),
                matching@ == matching_below(world.archetypes(), *fetch, *filter, handle as nat),
            decreases count - handle,
        {
            let archetype = world.archetype(handle);
            if fetch.matches(archetype) && filter.matches(archetype) {
                matching.push(handle);
            }
            handle += 1;
        }
        Query { world, fetch, filter, matching }
    }

    /// The handles of the matching archetypes, in ascending order.
    pub fn archetypes(&self) -> (handles: &Vec<usize>)
        ensures
            handles@ == self.matching(),
    {
        &self.matching
    }

    /// What `fetch` yields for the entity at `row` of `archetype`.
    fn item(archetype: &'a ArchetypeStorage<V>, handle: usize, row: RowIndex, fetch: &ArchQuery) -> (item:
        QueryItem<'a, V>)
        requires
            archetype.wf(),
            archetype.entities().contains_key(row),
        ensures
            item@ == item_at(*archetype, handle, row, *fetch),
    {
        let mut values: Vec<Option<Ref<'a, V>>> = Vec::with_capacity(fetch.fetches.len());
        let mut k: usize = 0;
        while k < fetch.fetches.len()
            invariant
                archetype.wf(),
                k <= fetch.fetches.len(),
                values.len() == k,
                forall|i: int|
                    0 <= i < k ==> (match #[trigger] values[i] {
                        Some(value) => Some(value@),
                        None => None,
                    }) == item_at(*archetype, handle, row, *fetch).values[i],
            decreases fetch.fetches.len() - k,
        {
            let value = match fetch.fetches[k] {
                Fetch::Entity => None,
                Fetch::Read(ty) => match archetype.get_component(ty, row) {
                    Some(value) => Some(Ref { inner: value }),
                    None => None,
                },
                Fetch::Write(ty) => match archetype.get_component(ty, row) {
                    Some(value) => Some(Ref { inner: value }),
                    None => None,
                },
            };
            values.push(value);
            k += 1;
        }
        let id = archetype.entity_at(row);
        let item = QueryItem { id: id.unwrap(), archetype: handle, row, values };
        proof {
            assert(item@.values =~= item_at(*archetype, handle, row, *fetch).values);
        }
        item
    }

    /// Walks the matching entities: archetype by archetype in ascending
    /// handle order, and in each archetype row by row in ascending order.
    pub fn iter(&self) -> (items: Vec<QueryItem<'a, V>>)
        requires
            self.wf(),
        ensures
            items@.map_values(|item: QueryItem<'a, V>| item@) == items_of(
                self.world().archetypes(),
                self.matching(),
                self.fetch(),
            ),
    {
        let mut items: Vec<QueryItem<'a, V>> = Vec::new();
        let ghost archetypes = self.world().archetypes();
        let ghost view = |item: QueryItem<'a, V>| item@;
        let mut m: usize = 0;
        proof {
            self.world.lemma_wf();
            lemma_matching_below(archetypes, *self.fetch, *self.filter, archetypes.len());
        }
        while m < self.matching.len()
            invariant
                self.wf(),
                archetypes == self.world().archetypes(),
                view == |item: QueryItem<'a, V>| item@,
                m <= self.matching.len(),
                forall|i: int| 0 <= i < self.matching.len() ==> (#[trigger] self.matching[i]) < archetypes.len(),
                forall|i: int| 0 <= i < archetypes.len() ==> #[trigger] self.world().archetype_ok(i),
                items@.map_values(view) == items_of(archetypes, self.matching@.take(m as int), *self.fetch),
            decreases self.matching.len() - m,
        {
            let handle = self.matching[m];
            proof {
                assert(self.world().archetype_ok(handle as int));
            }
            let archetype = self.world.archetype(handle);
            let rows = archetype.rows();
            let ghost done = items@.map_values(view);
            let ghost here = archetype_items(*archetype, handle, *self.fetch);
            let mut r: usize = 0;
            proof {
                crate::page_table::lemma_row_list(archetype.entities());
            }
            while r < rows.len()
                invariant
                    archetype.wf(),
                    view == |item: QueryItem<'a, V>| item@,
                    rows@ == row_list(archetype.entities()),
                    here == archetype_items(*archetype, handle, *self.fetch),
                    forall|i: int| 0 <= i < rows.len() ==> archetype.entities().contains_key(#[trigger] rows[i]),
                    r <= rows.len(),
                    items@.map_values(view) == done + here.take(r as int),
                decreases rows.len() - r,
            {
                let item = Self::item(archetype, handle, rows[r], self.fetch);
                proof {
                    assert(items@.push(item).map_values(view) =~= items@.map_values(view).push(item@));
                }
                items.push(item);
                r += 1;
            }
            proof {
                assert(self.matching@.take(m + 1).drop_last() =~= self.matching@.take(m as int));
            }
            m += 1;
        }
        proof {
            assert(self.matching@.take(self.matching.len() as int) =~= self.matching@);
        }
        items
    }

    /// Number of entities that the query matches.
    pub fn count(&self) -> (n: usize)
        requires
            self.wf(),
        ensures
            n == items_of(self.world().archetypes(), self.matching(), self.fetch()).len(),
    {
        self.iter().len()
    }
}

/// Every handle in the list of matching archetypes is the handle of an
/// archetype that matches, and the list ascends.
pub proof fn lemma_matching_below<V>(
    archetypes: Seq<ArchetypeStorage<V>>,
    fetch: ArchQuery,
    filter: Filter,
    bound: nat,
)
    requires
        bound <= archetypes.len() <= usize::MAX,
    ensures
        forall|i: int|
            0 <= i < matching_below(archetypes, fetch, filter, bound).len() ==> {
                let handle = #[trigger] matching_below(archetypes, fetch, filter, bound)[i];
                &&& handle < bound
                &&& fetch.accepts(archetypes[handle as int].types())
                &&& filter.accepts(archetypes[handle as int].types())
            },
        forall|i: int, j: int|
            0 <= i < j < matching_below(archetypes, fetch, filter, bound).len() ==> matching_below(
                archetypes,
                fetch,
                filter,
                bound,
            )[i] < matching_below(archetypes, fetch, filter, bound)[j],
        forall|handle: usize|
            handle < bound && fetch.accepts(archetypes[handle as int].types()) && filter.accepts(
                archetypes[handle as int].types(),
            ) ==> matching_below(archetypes, fetch, filter, bound).contains(handle),
    decreases bound,
{
    if bound > 0 {
        let prev = matching_below(archetypes, fetch, filter, (bound - 1) as nat);
        let list = matching_below(archetypes, fetch, filter, bound);
        lemma_matching_below(archetypes, fetch, filter, (bound - 1) as nat);
        assert forall|handle: usize|
            handle < bound && fetch.accepts(archetypes[handle as int].types()) && filter.accepts(
                archetypes[handle as int].types(),
            ) implies list.contains(handle) by {
            if handle == bound - 1 {
                assert(list[prev.len() as int] == handle);
            } else {
                assert(prev.contains(handle));
                let i = prev.index_of(handle);
                assert(list[i] == handle);
            }
        }
    }
}

/// `first` comes before `second` in the walk of a query: it lives in an
/// archetype with a smaller handle, or in the same archetype at a smaller
/// row.
pub open spec fn walked_before<V>(first: QueryItemView<V>, second: QueryItemView<V>) -> bool {
    first.archetype < second.archetype || (first.archetype == second.archetype && first.row
        < second.row)
}

/// The entity is live, has every component that `fetch` asks for, and its
/// archetype passes `filter`.
pub open spec fn selects<V>(world: World<V>, fetch: ArchQuery, filter: Filter, id: EntityId) -> bool {
    &&& world.alive(id)
    &&& fetch.accepts(world.archetype_of(id).types())
    &&& filter.accepts(world.archetype_of(id).types())
}

/// What `fetch` yields for a live entity: its id, its location, and for each
/// component request the component of that type, if the entity has one.
pub open spec fn item_of<V>(world: World<V>, fetch: ArchQuery, id: EntityId) -> QueryItemView<V> {
    QueryItemView {
        id,
        archetype: world.index()[id].archetype,
        row: world.index()[id].row,
        values: Seq::new(
            fetch.fetches.len() as nat,
            |k: int|
                match fetch.fetches[k].component() {
                    Some(ty) => world.components(id).get(ty),
                    None => None,
                },
        ),
    }
}

/// What a query yields over the first `bound` archetypes: every item is an
/// entity row of a matching archetype, the items come in walking order, and
/// every entity row of a matching archetype is among them.
proof fn lemma_items_below<V>(
    archetypes: Seq<ArchetypeStorage<V>>,
    fetch: ArchQuery,
    filter: Filter,
    bound: nat,
)
    requires
        bound <= archetypes.len() <= usize::MAX,
    ensures
        ({
            let items = items_of(archetypes, matching_below(archetypes, fetch, filter, bound), fetch);
            &&& forall|k: int|
                0 <= k < items.len() ==> {
                    let item = #[trigger] items[k];
                    let archetype = archetypes[item.archetype as int];
                    &&& item.archetype < bound
                    &&& fetch.accepts(archetype.types())
                    &&& filter.accepts(archetype.types())
                    &&& archetype.entities().contains_key(item.row)
                    &&& item == item_at(archetype, item.archetype, item.row, fetch)
                }
            &&& forall|k: int, l: int|
                0 <= k < l < items.len() ==> walked_before(#[trigger] items[k], #[trigger] items[l])
            &&& forall|handle: usize, row: RowIndex|
                handle < bound && fetch.accepts(archetypes[handle as int].types()) && filter.accepts(
                    archetypes[handle as int].types(),
                ) && #[trigger] archetypes[handle as int].entities().contains_key(row) ==> exists|
                    k: int,
                |
                    0 <= k < items.len() && (#[trigger] items[k]).archetype == handle && items[k].row
                        == row
        }),
    decreases bound,
{
    if bound > 0 {
        let handle = (bound - 1) as usize;
        let archetype = archetypes[handle as int];
        let earlier_handles = matching_below(archetypes, fetch, filter, (bound - 1) as nat);
        let earlier = items_of(archetypes, earlier_handles, fetch);
        let handles = matching_below(archetypes, fetch, filter, bound);
        let items = items_of(archetypes, handles, fetch);
        lemma_items_below(archetypes, fetch, filter, (bound - 1) as nat);
        if fetch.accepts(archetype.types()) && filter.accepts(archetype.types()) {
            let here = archetype_items(archetype, handle, fetch);
            let rows = row_list(archetype.entities());
            crate::page_table::lemma_row_list(archetype.entities());
            assert(handles.drop_last() =~= earlier_handles);
            assert forall|h: usize, row: RowIndex|
                h < bound && fetch.accepts(archetypes[h as int].types()) && filter.accepts(
                    archetypes[h as int].types(),
                ) && #[trigger] archetypes[h as int].entities().contains_key(row) implies exists|k: int|
                0 <= k < items.len() && (#[trigger] items[k]).archetype == h && items[k].row == row by {
                if h == handle {
                    let i = rows.index_of(row);
                    assert(items[earlier.len() + i] == here[i]);
                } else {
                    let k = choose|k: int|
                        0 <= k < earlier.len() && (#[trigger] earlier[k]).archetype == h && earlier[k].row
                            == row;
                    assert(items[k] == earlier[k]);
                }
            }
        }
    }
}

/// A query sees the live entities that it selects, each once: every item is
/// what the requests yield for a selected entity, the items come in walking
/// order, and every selected entity has an item.
pub proof fn lemma_query_items<V>(world: World<V>, fetch: ArchQuery, filter: Filter)
    requires
        world.wf(),
    ensures
        ({
            let items = items_of(
                world.archetypes(),
                matching_below(world.archetypes(), fetch, filter, world.archetypes().len()),
                fetch,
            );
            &&& forall|k: int|
                0 <= k < items.len() ==> selects(world, fetch, filter, (#[trigger] items[k]).id)
                    && items[k] == item_of(world, fetch, items[k].id)
            &&& forall|k: int, l: int|
                0 <= k < l < items.len() ==> walked_before(#[trigger] items[k], #[trigger] items[l])
            &&& forall|id: EntityId| #[trigger]
                selects(world, fetch, filter, id) ==> exists|k: int|
                    0 <= k < items.len() && (#[trigger] items[k]).id == id
        }),
{
    let archetypes = world.archetypes();
    let items = items_of(archetypes, matching_below(archetypes, fetch, filter, archetypes.len()), fetch);
    world.lemma_wf();
    lemma_items_below(archetypes, fetch, filter, archetypes.len());
    assert forall|k: int| 0 <= k < items.len() implies selects(
        world,
        fetch,
        filter,
        (#[trigger] items[k]).id,
    ) && items[k] == item_of(world, fetch, items[k].id) by {
        let item = items[k];
        assert(world.archetype_ok(item.archetype as int));
        assert(item.values =~= item_of(world, fetch, item.id).values);
    }
}

} // verus!
