//! Sparse storage keyed by row index, organised as pages allocated on demand.

use vstd::prelude::*;
use crate::RowIndex;

verus! {

/// Number of slots in one page.
pub const PAGE_SIZE: usize = 64;

/// Largest number of pages a table can hold: together they cover the row space.
pub const MAX_PAGES: usize = 0x400_0000;

/// A map from row index to value with holes; pages that hold no row are not
/// allocated.
#[derive(Debug)]
pub struct PageTable<T> {
    pages: Vec<Option<Vec<Option<T>>>>,
}

impl<T> View for PageTable<T> {
    type V = Map<RowIndex, T>;

    closed spec fn view(&self) -> Map<RowIndex, T> {
        Map::new(|row: RowIndex| self.slot(row).is_some(), |row: RowIndex| self.slot(row).unwrap())
    }
}

impl<T> PageTable<T> {
    /// What the table holds at `row`, read through the page structure.
    pub closed spec fn slot(&self, row: RowIndex) -> Option<T> {
        let p = row as int / PAGE_SIZE as int;
        let s = row as int % PAGE_SIZE as int;
        if p < self.pages.len() {
            match self.pages[p] {
                Some(page) => page[s],
                None => None,
            }
        } else {
            None
        }
    }

    /// Every allocated page is whole and the pages stay inside the row space.
    pub closed spec fn wf(&self) -> bool {
        &&& self.pages.len() <= MAX_PAGES
        &&& forall|p: int|
            0 <= p < self.pages.len() && self.pages[p].is_some() ==> (
            #[trigger] self.pages[p]).unwrap().len() == PAGE_SIZE
    }

    /// An empty table. `capacity` is the number of rows to reserve page slots for.
    pub fn new(capacity: usize) -> (table: Self)
        ensures
            table.wf(),
            table@ == Map::<RowIndex, T>::empty(),
    {
        let table = PageTable { pages: Vec::with_capacity(capacity / PAGE_SIZE) };
        table
    }

    fn new_page() -> (page: Vec<Option<T>>)
        ensures
            page.len() == PAGE_SIZE,
            forall|s: int| 0 <= s < PAGE_SIZE ==> page[s].is_none(),
    {
        let mut page: Vec<Option<T>> = Vec::with_capacity(PAGE_SIZE);
        let mut s: usize = 0;
        while s < PAGE_SIZE
            invariant
                s <= PAGE_SIZE,
                page.len() == s,
                forall|k: int| 0 <= k < s ==> page[k].is_none(),
            decreases PAGE_SIZE - s,
        {
            page.push(None);
            s += 1;
        }
        page
    }

    /// Stores `value` at `row` and returns what was there before.
    pub fn insert(&mut self, row: RowIndex, value: T) -> (prev: Option<T>)
        requires
            old(self).wf(),
        ensures
            final(self).wf(),
            final(self)@ == old(self)@.insert(row, value),
            prev == old(self)@.get(row),
    {
        let p = row as usize / PAGE_SIZE;
        let s = row as usize % PAGE_SIZE;
        while self.pages.len() <= p
            invariant
                self.wf(),
                p < MAX_PAGES,
                forall|r: RowIndex| self.slot(r) == old(self).slot(r),
            decreases p + 1 - self.pages.len(),
        {
            self.pages.push(None);
        }
        if self.pages[p].is_none() {
            let page = Self::new_page();
            self.pages[p] = Some(page);
        }
        let mut prev = Some(value);
        match &mut self.pages[p] {
            Some(page) => {
                std::mem::swap(&mut prev, &mut page[s]);
            },
            None => {},
        }
        prev
    }

    /// Takes the value at `row` out, leaving a hole.
    pub fn remove(&mut self, row: RowIndex) -> (prev: Option<T>)
        requires
            old(self).wf(),
        ensures
            final(self).wf(),
            final(self)@ == old(self)@.remove(row),
            prev == old(self)@.get(row),
    {
        let p = row as usize / PAGE_SIZE;
        let s = row as usize % PAGE_SIZE;
        if p >= self.pages.len() {
            return None;
        }
        let mut prev = None;
        match &mut self.pages[p] {
            Some(page) => {
                std::mem::swap(&mut prev, &mut page[s]);
            },
            None => {},
        }
        prev
    }

    /// The value at `row`, if the row is occupied.
    pub fn get(&self, row: RowIndex) -> (value: Option<&T>)
        requires
            self.wf(),
        ensures
            value == match self@.get(row) {
                Some(v) => Some(&v),
                None => None,
            },
    {
        let p = row as usize / PAGE_SIZE;
        let s = row as usize % PAGE_SIZE;
        if p >= self.pages.len() {
            return None;
        }
        match &self.pages[p] {
            Some(page) => page[s].as_ref(),
            None => None,
        }
    }

    /// Whether `row` is occupied.
    pub fn contains(&self, row: RowIndex) -> (b: bool)
        requires
            self.wf(),
        ensures
            b == self@.contains_key(row),
    {
        self.get(row).is_some()
    }

    /// Mutable access to the value at `row`, if the row is occupied.
    pub fn get_mut(&mut self, row: RowIndex) -> (value: Option<&mut T>)
        requires
            old(self).wf(),
        ensures
            value.is_some() == old(self)@.contains_key(row),
            match value {
                Some(v) => *v == old(self)@[row] && final(self).wf() && final(self)@ == old(self)@.insert(
                    row,
                    *final(v),
                ),
                None => final(self).wf() && final(self)@ == old(self)@,
            },
    {
        if !self.contains(row) {
            return None;
        }
        let p = row as usize / PAGE_SIZE;
        let s = row as usize % PAGE_SIZE;
        match &mut self.pages[p] {
            Some(page) => page[s].as_mut(),
            None => None,
        }
    }

    /// The occupied rows in ascending order.
    pub fn rows(&self) -> (rows: Vec<RowIndex>)
        requires
            self.wf(),
        ensures
            rows@ == row_list(self@),
    {
        let mut rows: Vec<RowIndex> = Vec::new();
        let mut p: usize = 0;
        while p < self.pages.len()
            invariant
                self.wf(),
                p <= self.pages.len(),
                rows@ == rows_below(self@, (p * PAGE_SIZE) as nat),
            decreases self.pages.len() - p,
        {
            match &self.pages[p] {
                Some(page) => {
                    let mut s: usize = 0;
                    while s < PAGE_SIZE
                        invariant
                            self.wf(),
                            p < self.pages.len(),
                            self.pages[p as int] == Some(*page),
                            page.len() == PAGE_SIZE,
                            s <= PAGE_SIZE,
                            rows@ == rows_below(self@, (p * PAGE_SIZE + s) as nat),
                        decreases PAGE_SIZE - s,
                    {
                        let row = (p * PAGE_SIZE + s) as RowIndex;
                        if page[s].is_some() {
                            rows.push(row);
                        }
                        s += 1;
                    }
                },
                None => {
                    proof {
                        lemma_rows_below_gap(
                            self@,
                            (p * PAGE_SIZE) as nat,
                            ((p + 1) * PAGE_SIZE) as nat,
                        );
                    }
                },
            }
            p += 1;
        }
        proof {
            lemma_rows_below_gap(self@, (self.pages.len() * PAGE_SIZE) as nat, 0x1_0000_0000);
        }
        rows
    }

    /// The occupied rows with their values, in ascending row order.
    pub fn iter(&self) -> (items: Vec<(RowIndex, &T)>)
        requires
            self.wf(),
        ensures
            items.len() == row_list(self@).len(),
            forall|i: int|
                0 <= i < items.len() ==> (#[trigger] items[i]).0 == row_list(self@)[i] && *items[i].1
                    == self@[row_list(self@)[i]],
    {
        let rows = self.rows();
        let mut items: Vec<(RowIndex, &T)> = Vec::with_capacity(rows.len());
        let mut k: usize = 0;
        proof {
            lemma_row_list(self@);
        }
        while k < rows.len()
            invariant
                self.wf(),
                k <= rows.len(),
                items.len() == k,
                rows@ == row_list(self@),
                forall|i: int| 0 <= i < rows.len() ==> self@.contains_key(#[trigger] rows[i]),
                forall|i: int|
                    0 <= i < k ==> (#[trigger] items[i]).0 == rows[i] && *items[i].1 == self@[rows[i]],
            decreases rows.len() - k,
        {
            let row = rows[k];
            let value = self.get(row);
            items.push((row, value.unwrap()));
            k += 1;
        }
        items
    }

    /// The rows of a table are finitely many.
    pub proof fn lemma_finite(&self)
        ensures
            self@.dom().finite(),
    {
        lemma_rows_finite(self@.dom());
    }
}

/// The rows of `map` below `bound`, in ascending order.
pub open spec fn rows_below<T>(map: Map<RowIndex, T>, bound: nat) -> Seq<RowIndex>
    decreases bound,
{
    if bound == 0 {
        Seq::empty()
    } else if map.contains_key((bound - 1) as RowIndex) {
        rows_below(map, (bound - 1) as nat).push((bound - 1) as RowIndex)
    } else {
        rows_below(map, (bound - 1) as nat)
    }
}

/// The rows of `map` in ascending order.
pub open spec fn row_list<T>(map: Map<RowIndex, T>) -> Seq<RowIndex> {
    rows_below(map, 0x1_0000_0000)
}

/// A stretch without rows adds nothing to the list.
pub proof fn lemma_rows_below_gap<T>(map: Map<RowIndex, T>, from: nat, to: nat)
    requires
        from <= to <= 0x1_0000_0000,
        forall|row: RowIndex| from <= row < to ==> !map.contains_key(row),
    ensures
        rows_below(map, to) == rows_below(map, from),
    decreases to - from,
{
    if from < to {
        lemma_rows_below_gap(map, from, (to - 1) as nat);
    }
}

/// The list of rows below a bound ascends and holds exactly the rows of the
/// map below the bound.
pub proof fn lemma_rows_below<T>(map: Map<RowIndex, T>, bound: nat)
    requires
        bound <= 0x1_0000_0000,
    ensures
        forall|i: int| 0 <= i < rows_below(map, bound).len() ==> (#[trigger] rows_below(map, bound)[i])
            < bound,
        forall|i: int, j: int|
            0 <= i < j < rows_below(map, bound).len() ==> rows_below(map, bound)[i] < rows_below(
                map,
                bound,
            )[j],
        forall|row: RowIndex|
            rows_below(map, bound).contains(row) <==> row < bound && map.contains_key(row),
    decreases bound,
{
    if bound > 0 {
        let prev = rows_below(map, (bound - 1) as nat);
        let last = (bound - 1) as RowIndex;
        lemma_rows_below(map, (bound - 1) as nat);
        let list = rows_below(map, bound);
        assert forall|row: RowIndex| list.contains(row) <==> row < bound && map.contains_key(row) by {
            if row < bound && map.contains_key(row) {
                if row == last {
                    assert(list[prev.len() as int] == row);
                } else {
                    let i = prev.index_of(row);
                    assert(list[i] == row);
                }
            }
        }
    }
}

/// The list of rows ascends and holds exactly the rows of the map.
pub proof fn lemma_row_list<T>(map: Map<RowIndex, T>)
    ensures
        forall|i: int, j: int|
            0 <= i < j < row_list(map).len() ==> row_list(map)[i] < row_list(map)[j],
        forall|row: RowIndex| row_list(map).contains(row) <==> map.contains_key(row),
        forall|i: int| 0 <= i < row_list(map).len() ==> map.contains_key(#[trigger] row_list(map)[i]),
{
    lemma_rows_below(map, 0x1_0000_0000);
}

/// The list of rows of a map is the only ascending list that holds exactly
/// the rows of the map.
pub proof fn lemma_row_list_unique<T>(map: Map<RowIndex, T>, list: Seq<RowIndex>)
    requires
        forall|i: int, j: int| 0 <= i < j < list.len() ==> list[i] < list[j],
        forall|row: RowIndex| list.contains(row) <==> map.contains_key(row),
    ensures
        list == row_list(map),
{
    lemma_row_list(map);
    lemma_ascending_unique(list, row_list(map));
}

/// Two ascending lists with the same members are the same list.
proof fn lemma_ascending_unique(a: Seq<RowIndex>, b: Seq<RowIndex>)
    requires
        forall|i: int, j: int| 0 <= i < j < a.len() ==> a[i] < a[j],
        forall|i: int, j: int| 0 <= i < j < b.len() ==> b[i] < b[j],
        forall|row: RowIndex| a.contains(row) <==> b.contains(row),
    ensures
        a == b,
    decreases a.len(),
{
    if a.len() == 0 {
        if b.len() > 0 {
            assert(b.contains(b[0]));
        }
    } else {
        assert(a.contains(a.last()));
        assert(b.contains(b.last()));
        let shorter_a = a.drop_last();
        let shorter_b = b.drop_last();
        assert forall|row: RowIndex| shorter_a.contains(row) <==> shorter_b.contains(row) by {
            if shorter_a.contains(row) {
                assert(a.contains(row));
                let k = b.index_of(row);
                assert(shorter_b[k] == row);
            }
            if shorter_b.contains(row) {
                assert(b.contains(row));
                let k = a.index_of(row);
                assert(shorter_a[k] == row);
            }
        }
        lemma_ascending_unique(shorter_a, shorter_b);
        assert(a =~= shorter_a.push(a.last()));
    }
}

/// A set of row indices below `bound` has at most `bound` members.
pub proof fn lemma_rows_bounded(rows: Set<RowIndex>, bound: int)
    requires
        0 <= bound <= 0x1_0000_0000,
        forall|row: RowIndex| rows.contains(row) ==> row < bound,
    ensures
        rows.finite(),
        rows.len() <= bound,
{
    let all = vstd::set_lib::set_int_range(0, bound);
    let f = |i: int| i as RowIndex;
    vstd::set_lib::lemma_int_range(0, bound);
    vstd::set_lib::lemma_map_size_bound(all, all.map(f), f);
    assert forall|row: RowIndex| rows.contains(row) implies all.map(f).contains(row) by {
        assert(all.contains(row as int));
    }
    vstd::set_lib::lemma_len_subset(rows, all.map(f));
}

/// Every set of row indices is finite.
pub proof fn lemma_rows_finite(rows: Set<RowIndex>)
    ensures
        rows.finite(),
{
    lemma_rows_bounded(rows, 0x1_0000_0000);
}

impl<T> Default for PageTable<T> {
    fn default() -> (table: Self)
        ensures
            table.wf(),
            table@ == Map::<RowIndex, T>::empty(),
    {
        PageTable::new(0)
    }
}

impl<T: Clone> Clone for PageTable<T> {
    /// A deep copy: the same rows, each value cloned.
    fn clone(&self) -> (copy: Self)
        ensures
            self.wf() ==> copy.wf(),
            self.wf() ==> copy@.dom() == self@.dom(),
            self.wf() ==> forall|row: RowIndex| #[trigger]
                copy@.contains_key(row) ==> cloned(self@[row], copy@[row]),
    {
        let mut pages: Vec<Option<Vec<Option<T>>>> = Vec::with_capacity(self.pages.len());
        let mut p: usize = 0;
        while p < self.pages.len()
            invariant
                p <= self.pages.len(),
                pages.len() == p,
                forall|q: int|
                    0 <= q < p ==> ((#[trigger] pages[q]).is_some() == self.pages[q].is_some()),
                forall|q: int|
                    0 <= q < p && self.pages[q].is_some() ==> (#[trigger] pages[q]).unwrap().len()
                        == self.pages[q].unwrap().len(),
                forall|q: int, s: int|
                    0 <= q < p && self.pages[q].is_some() && 0 <= s < self.pages[q].unwrap().len()
                        ==> ((#[trigger] pages[q].unwrap()[s]).is_some()
                        == self.pages[q].unwrap()[s].is_some()),
                forall|q: int, s: int|
                    0 <= q < p && self.pages[q].is_some() && 0 <= s < self.pages[q].unwrap().len()
                        && self.pages[q].unwrap()[s].is_some() ==> cloned(
                        self.pages[q].unwrap()[s].unwrap(),
                        (#[trigger] pages[q].unwrap()[s]).unwrap(),
                    ),
            decreases self.pages.len() - p,
        {
            match &self.pages[p] {
                Some(page) => {
                    let mut copy: Vec<Option<T>> = Vec::with_capacity(page.len());
                    let mut s: usize = 0;
                    while s < page.len()
                        invariant
                            s <= page.len(),
                            copy.len() == s,
                            forall|k: int|
                                0 <= k < s ==> ((#[trigger] copy[k]).is_some() == page[k].is_some()),
                            forall|k: int|
                                0 <= k < s && page[k].is_some() ==> cloned(
                                    page[k].unwrap(),
                                    (#[trigger] copy[k]).unwrap(),
                                ),
                        decreases page.len() - s,
                    {
                        match &page[s] {
                            Some(v) => {
                                copy.push(Some(v.clone()));
                            },
                            None => {
                                copy.push(None);
                            },
                        }
                        s += 1;
                    }
                    pages.push(Some(copy));
                },
                None => {
                    pages.push(None);
                },
            }
            p += 1;
        }
        let copy = PageTable { pages };
        copy
    }
}

} // verus!
