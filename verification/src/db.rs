//! Archetype storage: a table whose columns are keyed by component type and
//! aligned, row by row, with a column of entity ids.

use vstd::prelude::*;
use crate::entity_id::EntityId;
use crate::page_table::{row_list, PageTable};
use crate::{
    hash_of, hash_of_set, hash_ty, lemma_hash_of_push, lemma_hash_of_remove, RowIndex, TypeHash,
    TypeKey, UNIT_TYPE,
};

verus! {

/// One column of an archetype: the table of one component type, tagged with
/// the identity of that type so that columns of any type can sit side by side.
#[derive(Debug)]
pub struct ErasedPageTable<V> {
    ty: TypeKey,
    inner: PageTable<V>,
}

impl<V> View for ErasedPageTable<V> {
    type V = Map<RowIndex, V>;

    closed spec fn view(&self) -> Map<RowIndex, V> {
        self.inner@
    }
}

impl<V> ErasedPageTable<V> {
    /// The component type that the column was made for.
    pub closed spec fn type_key(&self) -> TypeKey {
        self.ty
    }

    /// The table behind the column.
    pub closed spec fn table(&self) -> PageTable<V> {
        self.inner
    }

    /// The table behind the column is sound.
    pub closed spec fn wf(&self) -> bool {
        self.inner.wf()
    }

    /// The column is sound, and holds, what its table is and holds.
    pub proof fn lemma_view(&self)
        ensures
            self@ == self.table()@,
            self.wf() == self.table().wf(),
    {
    }

    /// Wraps `table` as the column of type `ty`.
    pub fn new(ty: TypeKey, table: PageTable<V>) -> (column: Self)
        requires
            table.wf(),
        ensures
            column.wf(),
            column.type_key() == ty,
            column.table() == table,
            column@ == table@,
    {
        ErasedPageTable { ty, inner: table }
    }

    /// The component type that the column was made for.
    pub fn ty(&self) -> (ty: TypeKey)
        ensures
            ty == self.type_key(),
    {
        self.ty
    }

    /// The table behind the column.
    pub fn as_inner(&self) -> (table: &PageTable<V>)
        ensures
            *table == self.table(),
    {
        &self.inner
    }

    /// The table behind the column, for writing.
    pub fn as_inner_mut(&mut self) -> (table: &mut PageTable<V>)
        ensures
            *table == old(self).table(),
            final(self).table() == *final(table),
            final(self).type_key() == old(self).type_key(),
    {
        &mut self.inner
    }

    /// Drops the value at `row`; nothing happens if the row is absent.
    pub fn remove(&mut self, row: RowIndex)
        requires
            old(self).wf(),
        ensures
            final(self).wf(),
            final(self).type_key() == old(self).type_key(),
            final(self)@ == old(self)@.remove(row),
    {
        let _ = self.inner.remove(row);
    }

    /// A new, empty column of the same type.
    pub fn clone_empty(&self) -> (column: Self)
        ensures
            column.wf(),
            column.type_key() == self.type_key(),
            column@ == Map::<RowIndex, V>::empty(),
    {
        ErasedPageTable { ty: self.ty, inner: PageTable::new(0) }
    }

    /// Pulls the value at `row` out of this column and, if `dst` is a column
    /// of the same type, stores it there at `dst_row`; otherwise the value is
    /// dropped.
    pub fn move_row(&mut self, dst: &mut Self, row: RowIndex, dst_row: RowIndex)
        requires
            old(self).wf(),
            old(dst).wf(),
        ensures
            final(self).wf(),
            final(dst).wf(),
            final(self).type_key() == old(self).type_key(),
            final(dst).type_key() == old(dst).type_key(),
            final(self)@ == old(self)@.remove(row),
            final(dst)@ == (if old(self)@.contains_key(row) && old(self).type_key() == old(
                dst,
            ).type_key() {
                old(dst)@.insert(dst_row, old(self)@[row])
            } else {
                old(dst)@
            }),
    {
        match self.inner.remove(row) {
            Some(value) => {
                if self.ty == dst.ty {
                    let _ = dst.inner.insert(dst_row, value);
                }
            },
            None => {},
        }
    }
}

impl<V> Default for ErasedPageTable<V> {
    /// The unit column: an empty column of the unit type.
    fn default() -> (column: Self)
        ensures
            column.wf(),
            column.type_key() == UNIT_TYPE,
            column@ == Map::<RowIndex, V>::empty(),
    {
        ErasedPageTable::new(UNIT_TYPE, PageTable::new(4))
    }
}

impl<V: Clone> Clone for ErasedPageTable<V> {
    /// A deep copy of the column.
    fn clone(&self) -> (copy: Self)
        ensures
            copy.type_key() == self.type_key(),
            self.wf() ==> copy.wf(),
            self.wf() ==> copy@.dom() == self@.dom(),
            self.wf() ==> forall|row: RowIndex| #[trigger]
                copy@.contains_key(row) ==> cloned(self@[row], copy@[row]),
    {
        ErasedPageTable { ty: self.ty, inner: self.inner.clone() }
    }
}

/// The storage of one archetype: the entities that own exactly one set of
/// component types, one column per type.
#[derive(Debug)]
pub struct ArchetypeStorage<V> {
    ty: TypeHash,
    rows: u32,
    next_row: RowIndex,
    entities: PageTable<EntityId>,
    components: Vec<ErasedPageTable<V>>,
}

impl<V> ArchetypeStorage<V> {
    /// The component types of the columns, in storage order.
    pub closed spec fn type_list(&self) -> Seq<TypeKey> {
        Seq::new(self.components.len() as nat, |i: int| self.components[i].type_key())
    }

    /// The component types that the archetype carries.
    pub open spec fn types(&self) -> Set<TypeKey> {
        self.type_list().to_set()
    }

    /// The rows of the column of type `ty`; empty if there is no such column.
    pub closed spec fn column(&self, ty: TypeKey) -> Map<RowIndex, V> {
        if self.type_list().contains(ty) {
            self.components[self.type_list().index_of(ty)]@
        } else {
            Map::empty()
        }
    }

    /// The entity that owns each live row.
    pub closed spec fn entities(&self) -> Map<RowIndex, EntityId> {
        self.entities@
    }

    /// The hash that identifies the archetype.
    pub closed spec fn hash(&self) -> TypeHash {
        self.ty
    }

    /// Number of live rows.
    pub closed spec fn spec_len(&self) -> nat {
        self.rows as nat
    }

    /// The row that the next entity gets. Rows are handed out in ascending
    /// order and never again after their entity has left.
    pub closed spec fn next_row(&self) -> RowIndex {
        self.next_row
    }

    /// The components stored for `row`, by type, the unit column left out.
    pub open spec fn row_components(&self, row: RowIndex) -> Map<TypeKey, V> {
        Map::new(
            |ty: TypeKey| self.types().contains(ty) && ty != UNIT_TYPE && self.column(ty).contains_key(row),
            |ty: TypeKey| self.column(ty)[row],
        )
    }

    /// The structure is sound: no type has two columns, the hash is the XOR of
    /// the column types' hashes, the counter is the number of live rows, and
    /// every row in use lies below the next row to hand out.
    pub closed spec fn wf(&self) -> bool {
        &&& self.type_list().no_duplicates()
        &&& self.ty == hash_of(self.type_list())
        &&& self.entities.wf()
        &&& forall|i: int| 0 <= i < self.components.len() ==> (#[trigger] self.components[i]).wf()
        &&& self.rows == self.entities@.dom().len()
        &&& forall|row: RowIndex| self.entities@.contains_key(row) ==> row < self.next_row
        &&& forall|i: int, row: RowIndex|
            0 <= i < self.components.len() && (#[trigger] self.components[i]@.contains_key(row)) ==> row
                < self.next_row
    }

    /// Every column but the unit column holds exactly the live rows.
    pub open spec fn aligned(&self) -> bool {
        forall|ty: TypeKey|
            self.types().contains(ty) && ty != UNIT_TYPE ==> (#[trigger] self.column(ty)).dom()
                =~= self.entities().dom()
    }

    /// The hash of an archetype is the XOR of the hashes of its column types,
    /// each of which occurs once.
    pub proof fn lemma_hash_identity(&self)
        requires
            self.wf(),
        ensures
            self.hash() == hash_of_set(self.types()),
            self.hash() == hash_of(self.type_list()),
            self.type_list().no_duplicates(),
            self.types().finite(),
            self.types().len() == self.type_list().len(),
    {
        self.type_list().unique_seq_to_set();
        crate::lemma_hash_of_list(self.type_list());
    }

    /// No row at or above the next row is in use, and the live rows are counted.
    pub proof fn lemma_rows(&self)
        requires
            self.wf(),
        ensures
            forall|row: RowIndex| self.entities().contains_key(row) ==> row < self.next_row(),
            forall|ty: TypeKey, row: RowIndex| #[trigger]
                self.column(ty).contains_key(row) ==> row < self.next_row(),
            self.entities().dom().finite(),
            self.spec_len() == self.entities().dom().len(),
    {
        self.entities.lemma_finite();
        assert forall|ty: TypeKey, row: RowIndex| #[trigger]
            self.column(ty).contains_key(row) implies row < self.next_row() by {}
    }

    /// The column stored at position `i` is the column of its type.
    proof fn lemma_column_at(&self, i: int)
        requires
            self.type_list().no_duplicates(),
            0 <= i < self.components.len(),
        ensures
            self.type_list().contains(self.components[i].type_key()),
            self.type_list().index_of(self.components[i].type_key()) == i,
            self.types().contains(self.components[i].type_key()),
            self.column(self.components[i].type_key()) == self.components[i]@,
    {
        let ty = self.components[i].type_key();
        assert(self.type_list()[i] == ty);
        let j = self.type_list().index_of(ty);
    }

    /// Position of the column of type `ty`.
    fn find(&self, ty: TypeKey) -> (found: Option<usize>)
        ensures
            found.is_some() == self.types().contains(ty),
            found.is_some() == self.type_list().contains(ty),
            match found {
                Some(i) => i < self.components.len() && self.components[i as int].type_key() == ty,
                None => true,
            },
    {
        let mut i: usize = 0;
        while i < self.components.len()
            invariant
                i <= self.components.len(),
                forall|j: int| 0 <= j < i ==> self.components[j].type_key() != ty,
            decreases self.components.len() - i,
        {
            if self.components[i].ty() == ty {
                assert(self.type_list()[i as int] == ty);
                return Some(i);
            }
            i += 1;
        }
        assert forall|j: int| 0 <= j < self.type_list().len() implies self.type_list()[j] != ty by {}
        None
    }

    /// The archetype of entities without components. It carries the unit
    /// column alone, which never holds a row.
    pub fn empty() -> (archetype: Self)
        ensures
            archetype.wf(),
            archetype.aligned(),
            archetype.types() == set![UNIT_TYPE],
            archetype.hash() == hash_ty(UNIT_TYPE),
            archetype.entities() == Map::<RowIndex, EntityId>::empty(),
            forall|ty: TypeKey| archetype.column(ty) == Map::<RowIndex, V>::empty(),
            archetype.spec_len() == 0,
            archetype.next_row() == 0,
    {
        let ty = hash_ty(UNIT_TYPE);
        let mut components: Vec<ErasedPageTable<V>> = Vec::new();
        components.push(ErasedPageTable::default());
        let archetype = ArchetypeStorage {
            ty,
            rows: 0,
            next_row: 0,
            entities: PageTable::new(4),
            components,
        };
        proof {
            assert(archetype.type_list() =~= seq![UNIT_TYPE]);
            assert(hash_of(seq![UNIT_TYPE]) == hash_ty(UNIT_TYPE)) by {
                lemma_hash_of_push(Seq::<TypeKey>::empty(), UNIT_TYPE);
                crate::lemma_xor_cancel(hash_ty(UNIT_TYPE), 0);
            }
        }
        archetype
    }

    /// The hash that identifies the archetype.
    pub fn ty(&self) -> (ty: TypeHash)
        ensures
            ty == self.hash(),
    {
        self.ty
    }

    /// Number of live rows.
    pub fn len(&self) -> (len: usize)
        ensures
            len == self.spec_len(),
    {
        self.rows as usize
    }

    /// Whether the archetype has no live row.
    pub fn is_empty(&self) -> (b: bool)
        ensures
            b == (self.spec_len() == 0),
    {
        self.len() == 0
    }

    /// Whether the archetype carries a column of type `ty`.
    pub fn contains_column(&self, ty: TypeKey) -> (b: bool)
        ensures
            b == self.types().contains(ty),
    {
        self.find(ty).is_some()
    }

    /// The hash of the archetype that differs from this one in `ty` alone.
    pub fn extended_hash(&self, ty: TypeKey) -> (hash: TypeHash)
        ensures
            hash == self.hash() ^ hash_ty(ty),
    {
        self.ty ^ hash_ty(ty)
    }

    /// `after` has the columns of `before`, in the same order, each with the
    /// rows that `rows_of` gives for its position.
    proof fn lemma_columns(before: Self, after: Self, rows_of: spec_fn(int) -> Map<RowIndex, V>)
        requires
            before.type_list().no_duplicates(),
            after.components.len() == before.components.len(),
            forall|i: int|
                0 <= i < before.components.len() ==> (#[trigger] after.components[i]).type_key()
                    == before.components[i].type_key(),
            forall|i: int|
                0 <= i < before.components.len() ==> (#[trigger] after.components[i])@ == rows_of(i),
        ensures
            after.type_list() == before.type_list(),
            forall|ty: TypeKey|
                before.type_list().contains(ty) ==> #[trigger] after.column(ty) == rows_of(
                    before.type_list().index_of(ty),
                ),
            forall|ty: TypeKey|
                !before.type_list().contains(ty) ==> #[trigger] after.column(ty) == Map::<
                    RowIndex,
                    V,
                >::empty(),
    {
        assert(after.type_list() =~= before.type_list());
        assert forall|ty: TypeKey| before.type_list().contains(ty) implies #[trigger] after.column(ty)
            == rows_of(before.type_list().index_of(ty)) by {}
    }

    /// Removes `row_index` from the entity column and from every component
    /// column, leaving a hole.
    pub fn remove(&mut self, row_index: RowIndex)
        requires
            old(self).wf(),
            old(self).entities().contains_key(row_index),
        ensures
            final(self).wf(),
            final(self).type_list() == old(self).type_list(),
            final(self).hash() == old(self).hash(),
            final(self).next_row() == old(self).next_row(),
            final(self).spec_len() == old(self).spec_len() - 1,
            final(self).entities() == old(self).entities().remove(row_index),
            forall|ty: TypeKey| #[trigger]
                final(self).column(ty) == old(self).column(ty).remove(row_index),
    {
        let ghost before = *self;
        let mut i: usize = 0;
        while i < self.components.len()
            invariant
                before.wf(),
                i <= self.components.len(),
                self.components.len() == before.components.len(),
                self.ty == before.ty,
                self.rows == before.rows,
                self.next_row == before.next_row,
                self.entities == before.entities,
                forall|j: int|
                    0 <= j < self.components.len() ==> (#[trigger] self.components[j]).type_key()
                        == before.components[j].type_key(),
                forall|j: int| 0 <= j < self.components.len() ==> (#[trigger] self.components[j]).wf(),
                forall|j: int|
                    0 <= j < i ==> (#[trigger] self.components[j])@ == before.components[j]@.remove(
                        row_index,
                    ),
                forall|j: int|
                    i <= j < self.components.len() ==> (#[trigger] self.components[j])@
                        == before.components[j]@,
            decreases self.components.len() - i,
        {
            self.components[i].remove(row_index);
            i += 1;
        }
        let _ = self.entities.remove(row_index);
        proof {
            before.entities.lemma_finite();
        }
        self.rows -= 1;
        proof {
            Self::lemma_columns(before, *self, |j: int| before.components[j]@.remove(row_index));
        }
    }

    /// Allocates the next row for `id`, leaving the component columns alone.
    fn push_entity(&mut self, id: EntityId) -> (row: RowIndex)
        requires
            old(self).wf(),
            old(self).next_row < u32::MAX,
        ensures
            final(self).wf(),
            row == old(self).next_row,
            final(self).next_row == row + 1,
            final(self).rows == old(self).rows + 1,
            final(self).ty == old(self).ty,
            final(self).components == old(self).components,
            final(self).entities@ == old(self).entities@.insert(row, id),
            !old(self).entities@.contains_key(row),
    {
        let row = self.next_row;
        proof {
            crate::page_table::lemma_rows_bounded(self.entities@.dom(), row as int);
        }
        let _ = self.entities.insert(row, id);
        self.rows += 1;
        self.next_row += 1;
        row
    }

    /// Allocates a new row for `id` and records the id in the entity column.
    /// The component columns are not touched: the caller fills them with
    /// `set_component` to align the new row.
    pub fn insert_entity(&mut self, id: EntityId) -> (row: RowIndex)
        requires
            old(self).wf(),
            old(self).next_row() < u32::MAX,
        ensures
            final(self).wf(),
            row == old(self).next_row(),
            final(self).next_row() == row + 1,
            final(self).spec_len() == old(self).spec_len() + 1,
            final(self).type_list() == old(self).type_list(),
            final(self).hash() == old(self).hash(),
            final(self).entities() == old(self).entities().insert(row, id),
            !old(self).entities().contains_key(row),
            forall|ty: TypeKey| #[trigger] final(self).column(ty) == old(self).column(ty),
            forall|ty: TypeKey| !(#[trigger] old(self).column(ty)).contains_key(row),
    {
        self.push_entity(id)
    }

    /// The rows of column `j` of `dst0` once row `index` of `src0` has moved
    /// to `new_row`.
    spec fn moved_rows(src0: Self, dst0: Self, index: RowIndex, new_row: RowIndex, j: int) -> Map<
        RowIndex,
        V,
    > {
        let ty = dst0.components[j].type_key();
        if src0.column(ty).contains_key(index) {
            dst0.components[j]@.insert(new_row, src0.column(ty)[index])
        } else {
            dst0.components[j]@
        }
    }

    /// Migrates the entity at `index` into `dst` and returns its row there.
    ///
    /// Every component whose type `dst` carries as well moves along to the new
    /// row; the others are dropped with the old row. Columns that only `dst`
    /// carries get no value for the new row: the caller fills them.
    pub fn move_entity(&mut self, dst: &mut Self, index: RowIndex) -> (new_row: RowIndex)
        requires
            old(self).wf(),
            old(dst).wf(),
            old(self).entities().contains_key(index),
            old(dst).next_row() < u32::MAX,
        ensures
            final(self).wf(),
            final(dst).wf(),
            new_row == old(dst).next_row(),
            final(self).type_list() == old(self).type_list(),
            final(self).hash() == old(self).hash(),
            final(self).next_row() == old(self).next_row(),
            final(self).spec_len() == old(self).spec_len() - 1,
            final(self).entities() == old(self).entities().remove(index),
            forall|ty: TypeKey| #[trigger] final(self).column(ty) == old(self).column(ty).remove(index),
            final(dst).type_list() == old(dst).type_list(),
            final(dst).hash() == old(dst).hash(),
            final(dst).next_row() == new_row + 1,
            final(dst).spec_len() == old(dst).spec_len() + 1,
            final(dst).entities() == old(dst).entities().insert(new_row, old(self).entities()[index]),
            !old(dst).entities().contains_key(new_row),
            forall|ty: TypeKey| !(#[trigger] old(dst).column(ty)).contains_key(new_row),
            forall|ty: TypeKey| #[trigger]
                final(dst).column(ty) == (if old(dst).types().contains(ty) && old(self).column(
                    ty,
                ).contains_key(index) {
                    old(dst).column(ty).insert(new_row, old(self).column(ty)[index])
                } else {
                    old(dst).column(ty)
                }),
    {
        let ghost src0 = *self;
        let ghost dst0 = *dst;
        proof {
            src0.lemma_rows();
        }
        self.rows -= 1;
        let entity_id = self.entities.remove(index).unwrap();
        let new_row = dst.push_entity(entity_id);
        let ghost moved = |j: int| Self::moved_rows(src0, dst0, index, new_row, j);
        let mut i: usize = 0;
        while i < self.components.len()
            invariant
                src0.wf(),
                dst0.wf(),
                new_row == dst0.next_row,
                moved == |j: int| Self::moved_rows(src0, dst0, index, new_row, j),
                i <= self.components.len(),
                self.components.len() == src0.components.len(),
                self.ty == src0.ty,
                self.rows == src0.rows - 1,
                self.next_row == src0.next_row,
                self.entities@ == src0.entities@.remove(index),
                self.entities.wf(),
                forall|j: int|
                    0 <= j < self.components.len() ==> (#[trigger] self.components[j]).type_key()
                        == src0.components[j].type_key(),
                forall|j: int| 0 <= j < self.components.len() ==> (#[trigger] self.components[j]).wf(),
                forall|j: int|
                    0 <= j < i ==> (#[trigger] self.components[j])@ == src0.components[j]@.remove(index),
                forall|j: int|
                    i <= j < self.components.len() ==> (#[trigger] self.components[j])@
                        == src0.components[j]@,
                dst.components.len() == dst0.components.len(),
                dst.ty == dst0.ty,
                dst.rows == dst0.rows + 1,
                dst.next_row == new_row + 1,
                dst.entities@ == dst0.entities@.insert(new_row, entity_id),
                dst.entities.wf(),
                forall|j: int|
                    0 <= j < dst.components.len() ==> (#[trigger] dst.components[j]).type_key()
                        == dst0.components[j].type_key(),
                forall|j: int| 0 <= j < dst.components.len() ==> (#[trigger] dst.components[j]).wf(),
                forall|j: int|
                    0 <= j < dst.components.len() ==> (#[trigger] dst.components[j])@ == (if src0.type_list().contains(
                        dst0.components[j].type_key(),
                    ) && src0.type_list().index_of(dst0.components[j].type_key()) < i {
                        moved(j)
                    } else {
                        dst0.components[j]@
                    }),
            decreases self.components.len() - i,
        {
            let ty = self.components[i].ty();
            proof {
                src0.lemma_column_at(i as int);
                assert(dst.type_list() =~= dst0.type_list());
            }
            match dst.find(ty) {
                Some(k) => {
                    self.components[i].move_row(&mut dst.components[k], index, new_row);
                    proof {
                        assert forall|j: int| 0 <= j < dst.components.len() implies (
                        #[trigger] dst.components[j])@ == (if src0.type_list().contains(
                            dst0.components[j].type_key(),
                        ) && src0.type_list().index_of(dst0.components[j].type_key()) < i + 1 {
                            moved(j)
                        } else {
                            dst0.components[j]@
                        }) by {
                            let t = dst0.components[j].type_key();
                            if j != k {
                                assert(dst0.type_list()[j] == t);
                                assert(dst0.type_list()[k as int] == ty);
                            }
                        }
                    }
                },
                None => {
                    self.components[i].remove(index);
                    proof {
                        assert forall|j: int| 0 <= j < dst.components.len() implies (
                        #[trigger] dst.components[j])@ == (if src0.type_list().contains(
                            dst0.components[j].type_key(),
                        ) && src0.type_list().index_of(dst0.components[j].type_key()) < i + 1 {
                            moved(j)
                        } else {
                            dst0.components[j]@
                        }) by {
                            let t = dst0.components[j].type_key();
                            assert(dst0.type_list()[j] == t);
                        }
                    }
                },
            }
            i += 1;
        }
        proof {
            Self::lemma_columns(src0, *self, |j: int| src0.components[j]@.remove(index));
            Self::lemma_columns(dst0, *dst, moved);
        }
        new_row
    }

    /// Writes `val` as the component of type `ty` at `row_index` and records
    /// `id` as the owner of the row.
    pub fn set_component(&mut self, ty: TypeKey, id: EntityId, row_index: RowIndex, val: V)
        requires
            old(self).wf(),
            old(self).types().contains(ty),
            old(self).entities().contains_key(row_index),
        ensures
            final(self).wf(),
            final(self).type_list() == old(self).type_list(),
            final(self).hash() == old(self).hash(),
            final(self).next_row() == old(self).next_row(),
            final(self).spec_len() == old(self).spec_len(),
            final(self).entities() == old(self).entities().insert(row_index, id),
            final(self).column(ty) == old(self).column(ty).insert(row_index, val),
            forall|other: TypeKey|
                other != ty ==> #[trigger] final(self).column(other) == old(self).column(other),
    {
        let ghost before = *self;
        let found = self.find(ty);
        let i = found.unwrap();
        let _ = self.entities.insert(row_index, id);
        let _ = self.components[i].as_inner_mut().insert(row_index, val);
        proof {
            before.lemma_column_at(i as int);
            assert(self.entities@.dom() =~= before.entities@.dom());
            self.components[i as int].lemma_view();
            before.components[i as int].lemma_view();
            let rows_of = |j: int|
                if j == i {
                    before.components[j]@.insert(row_index, val)
                } else {
                    before.components[j]@
                };
            Self::lemma_columns(before, *self, rows_of);
        }
    }

    /// An archetype with the same columns and no rows.
    pub fn clone_empty(&self) -> (archetype: Self)
        requires
            self.wf(),
        ensures
            archetype.wf(),
            archetype.aligned(),
            archetype.type_list() == self.type_list(),
            archetype.hash() == self.hash(),
            archetype.spec_len() == 0,
            archetype.next_row() == 0,
            archetype.entities() == Map::<RowIndex, EntityId>::empty(),
            forall|ty: TypeKey| #[trigger] archetype.column(ty) == Map::<RowIndex, V>::empty(),
    {
        let mut components: Vec<ErasedPageTable<V>> = Vec::with_capacity(self.components.len());
        let mut i: usize = 0;
        while i < self.components.len()
            invariant
                i <= self.components.len(),
                components.len() == i,
                forall|j: int|
                    0 <= j < i ==> (#[trigger] components[j]).type_key()
                        == self.components[j].type_key(),
                forall|j: int| 0 <= j < i ==> (#[trigger] components[j]).wf(),
                forall|j: int| 0 <= j < i ==> (#[trigger] components[j])@ == Map::<RowIndex, V>::empty(),
            decreases self.components.len() - i,
        {
            components.push(self.components[i].clone_empty());
            i += 1;
        }
        let archetype = ArchetypeStorage {
            ty: self.ty,
            rows: 0,
            next_row: 0,
            entities: PageTable::new(self.rows as usize),
            components,
        };
        proof {
            Self::lemma_columns(*self, archetype, |j: int| Map::<RowIndex, V>::empty());
        }
        archetype
    }

    /// An empty archetype that carries the columns of this one and a column
    /// of type `ty`.
    pub fn extend_with_column(&self, ty: TypeKey) -> (archetype: Self)
        requires
            self.wf(),
            !self.types().contains(ty),
        ensures
            archetype.wf(),
            archetype.aligned(),
            archetype.type_list() == self.type_list().push(ty),
            archetype.types() == self.types().insert(ty),
            archetype.hash() == self.hash() ^ hash_ty(ty),
            archetype.spec_len() == 0,
            archetype.next_row() == 0,
            archetype.entities() == Map::<RowIndex, EntityId>::empty(),
            forall|other: TypeKey| #[trigger] archetype.column(other) == Map::<RowIndex, V>::empty(),
    {
        let mut result = self.clone_empty();
        let new_ty = self.extended_hash(ty);
        result.ty = new_ty;
        result.components.push(ErasedPageTable::new(ty, PageTable::default()));
        proof {
            assert(result.type_list() =~= self.type_list().push(ty));
            lemma_hash_of_push(self.type_list(), ty);
            assert(result.types() =~= self.types().insert(ty)) by {
                assert forall|t: TypeKey| result.types().contains(t) <==> self.types().insert(
                    ty,
                ).contains(t) by {
                    if self.type_list().contains(t) {
                        let j = self.type_list().index_of(t);
                        assert(result.type_list()[j] == t);
                    }
                }
            }
        }
        result
    }

    /// An empty archetype that carries the columns of this one but the column
    /// of type `ty`.
    pub fn reduce_with_column(&self, ty: TypeKey) -> (archetype: Self)
        requires
            self.wf(),
            self.types().contains(ty),
        ensures
            archetype.wf(),
            archetype.aligned(),
            archetype.types() == self.types().remove(ty),
            archetype.hash() == self.hash() ^ hash_ty(ty),
            archetype.spec_len() == 0,
            archetype.next_row() == 0,
            archetype.entities() == Map::<RowIndex, EntityId>::empty(),
            forall|other: TypeKey| #[trigger] archetype.column(other) == Map::<RowIndex, V>::empty(),
    {
        let mut result = self.clone_empty();
        let new_ty = self.extended_hash(ty);
        result.ty = new_ty;
        let found = result.find(ty);
        let i = found.unwrap();
        let _ = result.components.remove(i);
        proof {
            assert(result.type_list() =~= self.type_list().remove(i as int));
            lemma_hash_of_remove(self.type_list(), i as int);
            assert(result.types() =~= self.types().remove(ty)) by {
                assert forall|t: TypeKey| result.types().contains(t) <==> self.types().remove(
                    ty,
                ).contains(t) by {
                    if self.type_list().contains(t) && t != ty {
                        let j = self.type_list().index_of(t);
                        if j < i {
                            assert(result.type_list()[j] == t);
                        } else {
                            assert(result.type_list()[j - 1] == t);
                        }
                    }
                }
            }
        }
        result
    }

    /// The component of type `ty` at `row`; `None` if the archetype has no
    /// such column or the row has no value in it.
    pub fn get_component(&self, ty: TypeKey, row: RowIndex) -> (value: Option<&V>)
        requires
            self.wf(),
        ensures
            value == (if self.types().contains(ty) && self.column(ty).contains_key(row) {
                Some(&self.column(ty)[row])
            } else {
                None
            }),
    {
        match self.find(ty) {
            Some(i) => {
                proof {
                    self.lemma_column_at(i as int);
                    self.components[i as int].lemma_view();
                }
                self.components[i].as_inner().get(row)
            },
            None => None,
        }
    }

    /// `after` is `before` with the value at `row` of column `i` rewritten.
    spec fn value_rewritten(before: Self, after: Self, i: int, row: RowIndex) -> bool {
        &&& after.ty == before.ty
        &&& after.rows == before.rows
        &&& after.next_row == before.next_row
        &&& after.entities == before.entities
        &&& after.components.len() == before.components.len()
        &&& forall|j: int|
            0 <= j < before.components.len() && j != i ==> after.components[j] == before.components[j]
        &&& after.components[i].type_key() == before.components[i].type_key()
        &&& after.components[i].wf()
        &&& after.components[i]@.contains_key(row)
        &&& after.components[i]@ =~= before.components[i]@.insert(row, after.components[i]@[row])
    }

    proof fn lemma_value_rewritten(before: Self, after: Self, i: int, row: RowIndex)
        requires
            before.wf(),
            0 <= i < before.components.len(),
            before.components[i]@.contains_key(row),
            Self::value_rewritten(before, after, i, row),
        ensures
            after.wf(),
            after.type_list() == before.type_list(),
            after.hash() == before.hash(),
            after.next_row() == before.next_row(),
            after.spec_len() == before.spec_len(),
            after.entities() == before.entities(),
            after.column(before.components[i].type_key()) == before.column(
                before.components[i].type_key(),
            ).insert(row, after.column(before.components[i].type_key())[row]),
            forall|other: TypeKey|
                other != before.components[i].type_key() ==> #[trigger] after.column(other)
                    == before.column(other),
    {
        let ty = before.components[i].type_key();
        before.lemma_column_at(i);
        let rows_of = |j: int|
            if j == i {
                after.components[i]@
            } else {
                before.components[j]@
            };
        Self::lemma_columns(before, after, rows_of);
        assert forall|other: TypeKey| other != ty implies #[trigger] after.column(other)
            == before.column(other) by {}
        assert forall|j: int, r: RowIndex|
            0 <= j < after.components.len() && (#[trigger] after.components[j]@.contains_key(
                r,
            )) implies r < after.next_row by {}
    }

    /// The component of type `ty` at `row`, for writing; `None` if the
    /// archetype has no such column or the row has no value in it.
    pub fn get_component_mut(&mut self, ty: TypeKey, row: RowIndex) -> (value: Option<&mut V>)
        requires
            old(self).wf(),
        ensures
            value.is_some() == (old(self).types().contains(ty) && old(self).column(ty).contains_key(
                row,
            )),
            match value {
                Some(v) => {
                    &&& *v == old(self).column(ty)[row]
                    &&& final(self).wf()
                    &&& final(self).type_list() == old(self).type_list()
                    &&& final(self).hash() == old(self).hash()
                    &&& final(self).next_row() == old(self).next_row()
                    &&& final(self).spec_len() == old(self).spec_len()
                    &&& final(self).entities() == old(self).entities()
                    &&& final(self).column(ty) == old(self).column(ty).insert(row, *final(v))
                    &&& forall|other: TypeKey|
                        other != ty ==> #[trigger] final(self).column(other) == old(self).column(other)
                },
                None => *final(self) == *old(self),
            },
    {
        if self.get_component(ty, row).is_none() {
            return None;
        }
        let found = self.find(ty);
        let i = found.unwrap();
        proof {
            self.lemma_column_at(i as int);
            self.components[i as int].lemma_view();
            assert forall|after: Self|
                Self::value_rewritten(*old(self), after, i as int, row) implies #[trigger] after.wf()
                && after.type_list() == old(self).type_list() && after.hash() == old(self).hash()
                && after.next_row() == old(self).next_row() && after.spec_len() == old(
                    self,
                ).spec_len() && after.entities() == old(self).entities() && after.column(ty) == old(
                    self,
                ).column(ty).insert(row, after.column(ty)[row]) && (forall|other: TypeKey|
                    other != ty ==> #[trigger] after.column(other) == old(self).column(other)) by {
                Self::lemma_value_rewritten(*old(self), after, i as int, row);
            }
        }
        self.components[i].as_inner_mut().get_mut(row)
    }

    /// A storage without columns and rows, to stand in for an archetype that
    /// is borrowed out of its place for a moment.
    pub(crate) fn vacant() -> (archetype: Self)
        ensures
            archetype.wf(),
    {
        let archetype = ArchetypeStorage {
            ty: 0,
            rows: 0,
            next_row: 0,
            entities: PageTable::new(0),
            components: Vec::new(),
        };
        archetype
    }

    /// Whether another row can be allocated.
    pub fn has_room(&self) -> (b: bool)
        ensures
            b == (self.next_row() < u32::MAX),
    {
        self.next_row < u32::MAX
    }

    /// The component types of the columns, in storage order.
    pub fn type_keys(&self) -> (keys: Vec<TypeKey>)
        ensures
            keys@ == self.type_list(),
    {
        let mut keys: Vec<TypeKey> = Vec::with_capacity(self.components.len());
        let mut i: usize = 0;
        while i < self.components.len()
            invariant
                i <= self.components.len(),
                keys@ == self.type_list().take(i as int),
            decreases self.components.len() - i,
        {
            keys.push(self.components[i].ty());
            i += 1;
        }
        keys
    }

    /// Number of columns.
    pub fn column_count(&self) -> (n: usize)
        ensures
            n == self.type_list().len(),
    {
        self.components.len()
    }

    /// Whether this archetype carries exactly the columns of `base` and a
    /// column of type `ty`.
    pub fn extends(&self, base: &Self, ty: TypeKey) -> (b: bool)
        requires
            self.wf(),
            base.wf(),
            !base.types().contains(ty),
        ensures
            b == (self.types() == base.types().insert(ty)),
    {
        proof {
            self.lemma_hash_identity();
            base.lemma_hash_identity();
        }
        if self.components.len() == 0 || self.components.len() - 1 != base.components.len()
            || !self.contains_column(ty) {
            return false;
        }
        let mut i: usize = 0;
        while i < base.components.len()
            invariant
                base.wf(),
                i <= base.components.len(),
                forall|j: int| 0 <= j < i ==> self.types().contains(base.components[j].type_key()),
            decreases base.components.len() - i,
        {
            if !self.contains_column(base.components[i].ty()) {
                proof {
                    base.lemma_column_at(i as int);
                }
                return false;
            }
            i += 1;
        }
        proof {
            let wider = base.types().insert(ty);
            vstd::set_lib::lemma_subset_equality(wider, self.types());
        }
        true
    }

    /// The live rows in ascending order.
    pub fn rows(&self) -> (rows: Vec<RowIndex>)
        requires
            self.wf(),
        ensures
            rows@ == row_list(self.entities()),
    {
        self.entities.rows()
    }

    /// The entities of the archetype, each with its row, in ascending row
    /// order.
    pub fn entity_rows(&self) -> (pairs: Vec<(EntityId, RowIndex)>)
        requires
            self.wf(),
        ensures
            pairs.len() == row_list(self.entities()).len(),
            forall|i: int|
                0 <= i < pairs.len() ==> (#[trigger] pairs[i]).1 == row_list(self.entities())[i]
                    && pairs[i].0 == self.entities()[pairs[i].1],
    {
        let items = self.entities.iter();
        let mut pairs: Vec<(EntityId, RowIndex)> = Vec::with_capacity(items.len());
        let mut i: usize = 0;
        while i < items.len()
            invariant
                i <= items.len(),
                pairs.len() == i,
                items.len() == row_list(self.entities@).len(),
                forall|k: int|
                    0 <= k < items.len() ==> (#[trigger] items[k]).0 == row_list(self.entities@)[k]
                        && *items[k].1 == self.entities@[row_list(self.entities@)[k]],
                forall|k: int|
                    0 <= k < i ==> (#[trigger] pairs[k]).1 == row_list(self.entities@)[k] && pairs[k].0
                        == self.entities@[pairs[k].1],
            decreases items.len() - i,
        {
            let (row, id) = items[i];
            pairs.push((*id, row));
            i += 1;
        }
        pairs
    }

    /// The entity that owns `row`; `None` if the row is not live.
    pub fn entity_at(&self, row: RowIndex) -> (id: Option<EntityId>)
        requires
            self.wf(),
        ensures
            id == self.entities().get(row),
    {
        match self.entities.get(row) {
            Some(id) => Some(*id),
            None => None,
        }
    }

    /// `after` is `before` with the values of column `i` rewritten, row for row.
    spec fn column_rewritten(before: Self, after: Self, i: int) -> bool {
        &&& after.ty == before.ty
        &&& after.rows == before.rows
        &&& after.next_row == before.next_row
        &&& after.entities == before.entities
        &&& after.components.len() == before.components.len()
        &&& forall|j: int|
            0 <= j < before.components.len() && j != i ==> after.components[j] == before.components[j]
        &&& after.components[i].type_key() == before.components[i].type_key()
        &&& after.components[i].wf()
        &&& after.components[i]@.dom() == before.components[i]@.dom()
    }

    proof fn lemma_column_rewritten(before: Self, after: Self, i: int)
        requires
            before.wf(),
            0 <= i < before.components.len(),
            Self::column_rewritten(before, after, i),
        ensures
            after.wf(),
            before.aligned() ==> after.aligned(),
            after.type_list() == before.type_list(),
            after.hash() == before.hash(),
            after.next_row() == before.next_row(),
            after.spec_len() == before.spec_len(),
            after.entities() == before.entities(),
            after.column(before.components[i].type_key()) == after.components[i]@,
            forall|other: TypeKey|
                other != before.components[i].type_key() ==> #[trigger] after.column(other)
                    == before.column(other),
    {
        let ty = before.components[i].type_key();
        before.lemma_column_at(i);
        let rows_of = |j: int|
            if j == i {
                after.components[i]@
            } else {
                before.components[j]@
            };
        Self::lemma_columns(before, after, rows_of);
        assert forall|other: TypeKey| other != ty implies #[trigger] after.column(other)
            == before.column(other) by {}
        assert forall|j: int, r: RowIndex|
            0 <= j < after.components.len() && (#[trigger] after.components[j]@.contains_key(
                r,
            )) implies r < after.next_row by {}
        if before.aligned() {
            assert forall|t: TypeKey| after.types().contains(t) && t != UNIT_TYPE implies (
            #[trigger] after.column(t)).dom() =~= after.entities().dom() by {}
        }
    }
}

/// A shared view of one component value, tied to the borrow of the archetype
/// that holds it.
#[derive(Debug)]
pub struct Ref<'a, V> {
    pub inner: &'a V,
}

impl<'a, V> View for Ref<'a, V> {
    type V = V;

    open spec fn view(&self) -> V {
        *self.inner
    }
}

impl<'a, V> Ref<'a, V> {
    /// The value.
    pub fn as_ref(&self) -> (value: &V)
        ensures
            *value == self@,
    {
        self.inner
    }

    /// The value.
    pub fn deref(&self) -> (value: &V)
        ensures
            *value == self@,
    {
        self.inner
    }
}

impl<'a, V> Clone for Ref<'a, V> {
    fn clone(&self) -> (copy: Self)
        ensures
            copy == *self,
    {
        Ref { inner: self.inner }
    }
}

impl<'a, V> Copy for Ref<'a, V> {

}

/// An exclusive view of one component value, tied to the borrow of the
/// archetype that holds it.
#[derive(Debug)]
pub struct Mut<'a, V> {
    pub inner: &'a mut V,
}

impl<'a, V> View for Mut<'a, V> {
    type V = V;

    open spec fn view(&self) -> V {
        *self.inner
    }
}

impl<'a, V> Mut<'a, V> {
    /// The value.
    pub fn as_ref(&self) -> (value: &V)
        ensures
            *value == self@,
    {
        self.inner
    }

    /// The value.
    pub fn deref(&self) -> (value: &V)
        ensures
            *value == self@,
    {
        self.inner
    }

    /// The value, for writing. What is written is what the archetype holds
    /// once the view is given up.
    pub fn deref_mut(&mut self) -> (value: &mut V)
        ensures
            *value == old(self)@,
            final(self)@ == *final(value),
            *final(final(self).inner) == *final(old(self).inner),
    {
        self.inner
    }
}

/// A cursor over one column of an archetype, in ascending row order.
pub struct QueryIt<'a, V> {
    inner: Option<&'a PageTable<V>>,
    rows: Vec<RowIndex>,
    next: usize,
}

impl<'a, V> QueryIt<'a, V> {
    /// The values that the cursor has yet to yield, with their rows.
    pub closed spec fn remaining(&self) -> Seq<(RowIndex, V)> {
        match self.inner {
            Some(table) => Seq::new(
                (self.rows.len() - self.next) as nat,
                |i: int| (self.rows[self.next + i], table@[self.rows[self.next + i]]),
            ),
            None => Seq::empty(),
        }
    }

    /// The rows that the cursor walks are rows of the column.
    pub closed spec fn wf(&self) -> bool {
        match self.inner {
            Some(table) => {
                &&& table.wf()
                &&& self.next <= self.rows.len()
                &&& forall|i: int| 0 <= i < self.rows.len() ==> table@.contains_key(#[trigger] self.rows[i])
            },
            None => true,
        }
    }

    /// The next value of the column, if one is left.
    pub fn next(&mut self) -> (item: Option<Ref<'a, V>>)
        requires
            old(self).wf(),
        ensures
            final(self).wf(),
            item.is_some() == (old(self).remaining().len() > 0),
            item matches Some(r) ==> r@ == old(self).remaining()[0].1,
            item is Some ==> final(self).remaining() == old(self).remaining().drop_first(),
            item is None ==> final(self).remaining() == old(self).remaining(),
    {
        match self.inner {
            Some(table) => {
                if self.next < self.rows.len() {
                    let row = self.rows[self.next];
                    self.next += 1;
                    let value = table.get(row);
                    Some(Ref { inner: value.unwrap() })
                } else {
                    None
                }
            },
            None => None,
        }
    }
}

/// A cursor over one column of an archetype, in ascending row order, that
/// yields each value for writing.
pub struct QueryItMut<'a, V> {
    pub inner: Option<&'a mut PageTable<V>>,
    pub rows: Vec<RowIndex>,
    pub next: usize,
}

impl<'a, V> QueryItMut<'a, V> {
    /// The rows that the cursor has yet to visit.
    pub open spec fn remaining(&self) -> Seq<RowIndex> {
        match self.inner {
            Some(_) => self.rows@.skip(self.next as int),
            None => Seq::empty(),
        }
    }

    /// The rows that the cursor walks are rows of the column.
    pub open spec fn wf(&self) -> bool {
        match self.inner {
            Some(table) => {
                &&& table.wf()
                &&& self.next <= self.rows.len()
                &&& forall|i: int| 0 <= i < self.rows.len() ==> table@.contains_key(#[trigger] self.rows[i])
            },
            None => true,
        }
    }

    /// The value at the next row of the column, for writing, if a row is left.
    ///
    /// What is written through the result is what the column holds at that
    /// row afterwards; no other row changes.
    pub fn next(&mut self) -> (item: Option<Mut<'_, V>>)
        requires
            old(self).wf(),
        ensures
            item.is_some() == (old(self).remaining().len() > 0),
            final(self).rows == old(self).rows,
            item is None ==> *final(self) == *old(self),
            item is Some ==> final(self).next == old(self).next + 1,
            item is Some ==> final(self).remaining() == old(self).remaining().drop_first(),
            item matches Some(m) ==> old(self).inner matches Some(before) && m@ == before@[old(
                self,
            ).remaining()[0]],
            item matches Some(m) ==> old(self).inner matches Some(before) && final(self).inner matches Some(
                after,
            ) && after.wf() && after@ == before@.insert(old(self).remaining()[0], *final(m.inner))
                && after@.dom() == before@.dom() && *final(after) == *final(before),
            item is Some ==> final(self).wf(),
    {
        if self.next >= self.rows.len() {
            return None;
        }
        let row = self.rows[self.next];
        match &mut self.inner {
            Some(table) => {
                self.next += 1;
                let value = table.get_mut(row);
                match value {
                    Some(v) => Some(Mut { inner: v }),
                    None => None,
                }
            },
            None => None,
        }
    }
}

/// Storage whose columns can be walked one component type at a time.
pub trait Queryable<'a, V> {
    /// Cursor over the values of a column.
    type It;

    /// Cursor over the values of a column, for writing.
    type ItMut;

    /// What the walks ask of the storage.
    spec fn queryable(&self) -> bool;

    /// A cursor over the column of type `ty`; it yields nothing if there is
    /// no such column.
    fn iter(&'a self, ty: TypeKey) -> Self::It
        requires
            self.queryable(),
    ;

    /// A cursor over the column of type `ty` that yields each value for
    /// writing; it yields nothing if there is no such column.
    fn iter_mut(&'a mut self, ty: TypeKey) -> Self::ItMut
        requires
            old(self).queryable(),
    ;
}

impl<V> ArchetypeStorage<V> {
    /// The values of the column of type `ty` with their rows, in ascending
    /// row order.
    pub open spec fn column_items(&self, ty: TypeKey) -> Seq<(RowIndex, V)> {
        Seq::new(
            row_list(self.column(ty)).len(),
            |i: int| (row_list(self.column(ty))[i], self.column(ty)[row_list(self.column(ty))[i]]),
        )
    }

    /// `after` is `before` with the column of type `ty` holding the rows of
    /// `last`, and nothing else changed.
    pub open spec fn rewritten_by(before: Self, after: Self, ty: TypeKey, last: PageTable<V>) -> bool {
        &&& after.wf()
        &&& before.aligned() ==> after.aligned()
        &&& after.type_list() == before.type_list()
        &&& after.hash() == before.hash()
        &&& after.next_row() == before.next_row()
        &&& after.spec_len() == before.spec_len()
        &&& after.entities() == before.entities()
        &&& after.column(ty) == last@
        &&& forall|other: TypeKey| other != ty ==> #[trigger] after.column(other) == before.column(other)
    }

    /// A cursor over the column of type `ty`.
    fn cursor<'a>(&'a self, ty: TypeKey) -> (it: QueryIt<'a, V>)
        requires
            self.wf(),
        ensures
            it.wf(),
            it.remaining() == self.column_items(ty),
    {
        match self.find(ty) {
            Some(i) => {
                let table = self.components[i].as_inner();
                let rows = table.rows();
                let it = QueryIt { inner: Some(table), rows, next: 0 };
                proof {
                    self.lemma_column_at(i as int);
                    crate::page_table::lemma_row_list(table@);
                }
                it
            },
            None => {
                let it = QueryIt { inner: None, rows: Vec::new(), next: 0 };
                proof {
                    crate::page_table::lemma_rows_below_gap(self.column(ty), 0, 0x1_0000_0000);
                }
                it
            },
        }
    }

    /// A cursor over the column of type `ty`, for writing.
    fn cursor_mut<'a>(&'a mut self, ty: TypeKey) -> (it: QueryItMut<'a, V>)
        requires
            old(self).wf(),
        ensures
            it.wf(),
            it.next == 0,
            it.inner is Some == old(self).types().contains(ty),
            it.inner is None ==> *final(self) == *old(self),
            it.inner matches Some(table) ==> table@ == old(self).column(ty) && it.rows@ == row_list(
                old(self).column(ty),
            ),
            it.inner matches Some(table) ==> (final(table).wf() && final(table)@.dom() == table@.dom()
                ==> Self::rewritten_by(*old(self), *final(self), ty, *final(table))),
    {
        match self.find(ty) {
            Some(i) => {
                proof {
                    assert forall|after: Self|
                        #![trigger after.wf()]
                        Self::column_rewritten(*old(self), after, i as int) implies Self::rewritten_by(
                        *old(self),
                        after,
                        ty,
                        after.components[i as int].table(),
                    ) by {
                        Self::lemma_column_rewritten(*old(self), after, i as int);
                    }
                }
                let rows = self.components[i].as_inner().rows();
                proof {
                    crate::page_table::lemma_row_list(self.components[i as int]@);
                }
                let table = self.components[i].as_inner_mut();
                QueryItMut { inner: Some(table), rows, next: 0 }
            },
            None => QueryItMut { inner: None, rows: Vec::new(), next: 0 },
        }
    }
}

impl<'a, V: 'a> Queryable<'a, V> for ArchetypeStorage<V> {
    type It = QueryIt<'a, V>;

    type ItMut = QueryItMut<'a, V>;

    open spec fn queryable(&self) -> bool {
        self.wf()
    }

    fn iter(&'a self, ty: TypeKey) -> (it: QueryIt<'a, V>)
        ensures
            it.wf(),
            it.remaining() == self.column_items(ty),
    {
        self.cursor(ty)
    }

    fn iter_mut(&'a mut self, ty: TypeKey) -> (it: QueryItMut<'a, V>)
        ensures
            it.wf(),
            it.next == 0,
            it.inner is Some == old(self).types().contains(ty),
            it.inner is None ==> *final(self) == *old(self),
            it.inner matches Some(table) ==> table@ == old(self).column(ty) && it.rows@ == row_list(
                old(self).column(ty),
            ),
            it.inner matches Some(table) ==> (final(table).wf() && final(table)@.dom() == table@.dom()
                ==> Self::rewritten_by(*old(self), *final(self), ty, *final(table))),
    {
        self.cursor_mut(ty)
    }
}

/// Request to read the components of one type.
#[derive(Clone, Copy, Debug)]
pub struct Read(pub TypeKey);

/// Request to write the components of one type.
#[derive(Clone, Copy, Debug)]
pub struct Write(pub TypeKey);

/// A query over the columns of a single archetype. `T` says what is asked
/// for: `Read`, `Write`, or a pair of `Read`s.
#[derive(Debug)]
pub struct ComponentQuery<T> {
    pub fetch: T,
}

impl<T> ComponentQuery<T> {
    /// A query for `fetch`.
    pub fn new(fetch: T) -> (query: Self)
        ensures
            query.fetch == fetch,
    {
        ComponentQuery { fetch }
    }
}

impl ComponentQuery<Read> {
    /// A cursor over the values of the requested type in `archetype`.
    pub fn iter<'a, V: 'a>(&self, archetype: &'a ArchetypeStorage<V>) -> (it: QueryIt<'a, V>)
        requires
            archetype.wf(),
        ensures
            it.wf(),
            it.remaining() == archetype.column_items(self.fetch.0),
    {
        archetype.cursor(self.fetch.0)
    }
}

impl ComponentQuery<Write> {
    /// A cursor over the values of the requested type in `archetype`.
    pub fn iter<'a, V: 'a>(&self, archetype: &'a ArchetypeStorage<V>) -> (it: QueryIt<'a, V>)
        requires
            archetype.wf(),
        ensures
            it.wf(),
            it.remaining() == archetype.column_items(self.fetch.0),
    {
        archetype.cursor(self.fetch.0)
    }

    /// A cursor over the values of the requested type in `archetype`, for
    /// writing.
    pub fn iter_mut<'a, V: 'a>(&self, archetype: &'a mut ArchetypeStorage<V>) -> (it: QueryItMut<'a, V>)
        requires
            old(archetype).wf(),
        ensures
            it.wf(),
            it.next == 0,
            it.inner is Some == old(archetype).types().contains(self.fetch.0),
            it.inner is None ==> *final(archetype) == *old(archetype),
            it.inner matches Some(table) ==> table@ == old(archetype).column(self.fetch.0) && it.rows@
                == row_list(old(archetype).column(self.fetch.0)),
            it.inner matches Some(table) ==> (final(table).wf() && final(table)@.dom() == table@.dom()
                ==> ArchetypeStorage::rewritten_by(
                *old(archetype),
                *final(archetype),
                self.fetch.0,
                *final(table),
            )),
    {
        archetype.cursor_mut(self.fetch.0)
    }
}

impl ComponentQuery<(Read, Read)> {
    /// The values of the two requested types in `archetype`, paired in
    /// ascending row order; the shorter column decides the length.
    pub fn iter<'a, V: 'a>(&self, archetype: &'a ArchetypeStorage<V>) -> (items: Vec<
        (Ref<'a, V>, Ref<'a, V>),
    >)
        requires
            archetype.wf(),
        ensures
            items.len() == vstd::math::min(
                archetype.column_items(self.fetch.0.0).len() as int,
                archetype.column_items(self.fetch.1.0).len() as int,
            ),
            forall|k: int|
                0 <= k < items.len() ==> (#[trigger] items[k]).0@ == archetype.column_items(
                    self.fetch.0.0,
                )[k].1 && items[k].1@ == archetype.column_items(self.fetch.1.0)[k].1,
    {
        let mut it1 = ComponentQuery::<Read>::new(Read(self.fetch.0.0)).iter(archetype);
        let mut it2 = ComponentQuery::<Read>::new(Read(self.fetch.1.0)).iter(archetype);
        let ghost first = archetype.column_items(self.fetch.0.0);
        let ghost second = archetype.column_items(self.fetch.1.0);
        let mut items: Vec<(Ref<'a, V>, Ref<'a, V>)> = Vec::new();
        loop
            invariant_except_break
                it1.wf(),
                it2.wf(),
                items.len() <= first.len(),
                items.len() <= second.len(),
                it1.remaining() == first.skip(items.len() as int),
                it2.remaining() == second.skip(items.len() as int),
            invariant
                forall|k: int|
                    0 <= k < items.len() ==> (#[trigger] items[k]).0@ == first[k].1 && items[k].1@
                        == second[k].1,
            ensures
                items.len() == vstd::math::min(first.len() as int, second.len() as int),
            decreases first.len() - items.len(),
        {
            let a = it1.next();
            if a.is_none() {
                break ;
            }
            let b = it2.next();
            if b.is_none() {
                break ;
            }
            items.push((a.unwrap(), b.unwrap()));
        }
        items
    }
}

impl<V: Clone> Clone for ArchetypeStorage<V> {
    /// A deep copy of the archetype.
    fn clone(&self) -> (copy: Self)
        ensures
            self.wf() ==> {
                &&& copy.wf()
                &&& copy.type_list() == self.type_list()
                &&& copy.hash() == self.hash()
                &&& copy.next_row() == self.next_row()
                &&& copy.spec_len() == self.spec_len()
                &&& copy.entities() == self.entities()
                &&& forall|ty: TypeKey| #[trigger] copy.column(ty).dom() == self.column(ty).dom()
                &&& forall|ty: TypeKey, row: RowIndex| #[trigger]
                    copy.column(ty).contains_key(row) ==> cloned(
                        self.column(ty)[row],
                        copy.column(ty)[row],
                    )
            },
    {
        let mut components: Vec<ErasedPageTable<V>> = Vec::with_capacity(self.components.len());
        let mut i: usize = 0;
        while i < self.components.len()
            invariant
                i <= self.components.len(),
                components.len() == i,
                forall|j: int|
                    0 <= j < i ==> (#[trigger] components[j]).type_key()
                        == self.components[j].type_key(),
                forall|j: int| 0 <= j < i && self.components[j].wf() ==> (#[trigger] components[j]).wf(),
                forall|j: int|
                    0 <= j < i && self.components[j].wf() ==> (#[trigger] components[j])@.dom()
                        == self.components[j]@.dom(),
                forall|j: int, row: RowIndex|
                    0 <= j < i && self.components[j].wf() && (#[trigger] components[j]@.contains_key(
                        row,
                    )) ==> cloned(self.components[j]@[row], components[j]@[row]),
            decreases self.components.len() - i,
        {
            components.push(self.components[i].clone());
            i += 1;
        }
        let copy = ArchetypeStorage {
            ty: self.ty,
            rows: self.rows,
            next_row: self.next_row,
            entities: self.entities.clone(),
            components,
        };
        proof {
            if self.wf() {
                assert(copy.type_list() =~= self.type_list());
            }
        }
        copy
    }
}

} // verus!
