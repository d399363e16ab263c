//! Cells and the transaction-snapshot cell store.
//!
//! Every operation of the graph layer runs against one snapshot: a finite
//! map from cell identifiers to cells, held here as a vector with pairwise
//! distinct identifiers.

use vstd::prelude::*;

use crate::types::{hash_value, spec_hash_value, DataMap, Id, SpecValue, Value};

verus! {

/// One versioned, schema-typed unit of storage.
#[derive(Debug)]
pub struct Cell {
    pub id: Id,
    pub schema: u32,
    pub data: DataMap,
}

/// The mathematical content of a cell, its identifier kept apart as the
/// store's key.
#[verifier::ext_equal]
pub ghost struct CellV {
    pub schema: u32,
    pub data: Seq<(u64, SpecValue)>,
}

impl View for Cell {
    type V = CellV;

    open spec fn view(&self) -> CellV {
        CellV { schema: self.schema, data: self.data@ }
    }
}

impl Cell {
    /// The deterministic cell identifier of the entity with the given
    /// schema and primary key.
    pub open spec fn spec_encode_cell_key(schema: u32, key: SpecValue) -> Id {
        Id {
            higher: (0x1000_0000_0000_0000u64 + (schema as u64)) as u64,
            lower: spec_hash_value(key),
        }
    }

    /// Exec mirror of `spec_encode_cell_key`.
    pub fn encode_cell_key(schema: u32, key: &Value) -> (r: Id)
        ensures
            r == Cell::spec_encode_cell_key(schema, key@),
    {
        Id { higher: 0x1000_0000_0000_0000u64 + (schema as u64), lower: hash_value(key) }
    }

    /// A deep copy with the same identifier and content.
    pub fn duplicate(&self) -> (r: Cell)
        ensures
            r.id == self.id,
            r@ == self@,
    {
        Cell { id: self.id, schema: self.schema, data: self.data.duplicate() }
    }
}

/// The map a cell sequence stands for; an earlier entry is shadowed by a
/// later one with the same identifier, though a well-formed store has none.
pub open spec fn store_map(s: Seq<Cell>) -> Map<Id, CellV>
    decreases s.len(),
{
    if s.len() == 0 {
        Map::empty()
    } else {
        store_map(s.drop_last()).insert(s.last().id, s.last()@)
    }
}

/// Identifiers are pairwise distinct.
pub open spec fn distinct_ids(s: Seq<Cell>) -> bool {
    forall|i: int, j: int| 0 <= i < j < s.len() ==> s[i].id != s[j].id
}

pub proof fn lemma_store_map_contains(s: Seq<Cell>, id: Id)
    ensures
        store_map(s).contains_key(id) <==> exists|i: int| 0 <= i < s.len() && s[i].id == id,
    decreases s.len(),
{
    if s.len() > 0 {
        lemma_store_map_contains(s.drop_last(), id);
        if s.last().id == id {
            assert(s[s.len() - 1].id == id);
        } else {
            if store_map(s).contains_key(id) {
                let i = choose|i: int| 0 <= i < s.drop_last().len() && s.drop_last()[i].id == id;
                assert(s[i].id == id);
            }
            if exists|i: int| 0 <= i < s.len() && s[i].id == id {
                let i = choose|i: int| 0 <= i < s.len() && s[i].id == id;
                assert(s.drop_last()[i].id == id);
            }
        }
    }
}

pub proof fn lemma_store_map_index(s: Seq<Cell>, i: int)
    requires
        distinct_ids(s),
        0 <= i < s.len(),
    ensures
        store_map(s).contains_key(s[i].id),
        store_map(s)[s[i].id] == s[i]@,
    decreases s.len(),
{
    if i < s.len() - 1 {
        assert(distinct_ids(s.drop_last())) by {
            assert(forall|a: int, b: int|
                0 <= a < b < s.drop_last().len() ==> s.drop_last()[a].id != s.drop_last()[b].id);
        }
        assert(s.drop_last()[i] == s[i]);
        lemma_store_map_index(s.drop_last(), i);
        assert(s[i].id != s.last().id);
    }
}

pub proof fn lemma_store_map_push(s: Seq<Cell>, c: Cell)
    ensures
        store_map(s.push(c)) == store_map(s).insert(c.id, c@),
{
    assert(s.push(c).drop_last() =~= s);
    assert(s.push(c).last() == c);
}

pub proof fn lemma_store_map_update(s: Seq<Cell>, i: int, c: Cell)
    requires
        distinct_ids(s),
        0 <= i < s.len(),
        s[i].id == c.id,
    ensures
        store_map(s.update(i, c)) == store_map(s).insert(c.id, c@),
    decreases s.len(),
{
    let t = s.update(i, c);
    if i == s.len() - 1 {
        assert(t.drop_last() =~= s.drop_last());
        assert(t.last() == c);
        assert(store_map(s).insert(c.id, c@) =~= store_map(s.drop_last()).insert(
            s.last().id,
            s.last()@,
        ).insert(c.id, c@));
        assert(store_map(s.drop_last()).insert(s.last().id, s.last()@).insert(c.id, c@)
            =~= store_map(s.drop_last()).insert(c.id, c@));
    } else {
        assert(distinct_ids(s.drop_last())) by {
            assert(forall|a: int, b: int|
                0 <= a < b < s.drop_last().len() ==> s.drop_last()[a].id != s.drop_last()[b].id);
        }
        assert(s.drop_last()[i] == s[i]);
        lemma_store_map_update(s.drop_last(), i, c);
        assert(t.drop_last() =~= s.drop_last().update(i, c));
        assert(t.last() == s.last());
        assert(s.last().id != c.id);
        assert(store_map(s.drop_last()).insert(c.id, c@).insert(s.last().id, s.last()@)
            =~= store_map(s.drop_last()).insert(s.last().id, s.last()@).insert(c.id, c@));
    }
}

pub proof fn lemma_store_map_remove(s: Seq<Cell>, i: int)
    requires
        distinct_ids(s),
        0 <= i < s.len(),
    ensures
        store_map(s.remove(i)) == store_map(s).remove(s[i].id),
    decreases s.len(),
{
    let t = s.remove(i);
    if i == s.len() - 1 {
        assert(t =~= s.drop_last());
        lemma_store_map_contains(s.drop_last(), s[i].id);
        assert(forall|j: int|
            0 <= j < s.drop_last().len() ==> s.drop_last()[j].id != s[i].id);
        assert(!store_map(s.drop_last()).contains_key(s[i].id));
        assert(store_map(s).remove(s[i].id) =~= store_map(s.drop_last()));
    } else {
        assert(distinct_ids(s.drop_last())) by {
            assert(forall|a: int, b: int|
                0 <= a < b < s.drop_last().len() ==> s.drop_last()[a].id != s.drop_last()[b].id);
        }
        assert(s.drop_last()[i] == s[i]);
        lemma_store_map_remove(s.drop_last(), i);
        assert(t.drop_last() =~= s.drop_last().remove(i));
        assert(t.last() == s.last());
        assert(s.last().id != s[i].id);
        assert(store_map(s.drop_last()).remove(s[i].id).insert(s.last().id, s.last()@)
            =~= store_map(s.drop_last()).insert(s.last().id, s.last()@).remove(s[i].id));
    }
}

/// Cell sequences equal id-by-id and view-by-view stand for the same map.
pub proof fn lemma_store_map_congruent(a: Seq<Cell>, b: Seq<Cell>)
    requires
        a.len() == b.len(),
        forall|j: int| 0 <= j < a.len() ==> a[j].id == b[j].id && a[j]@ == b[j]@,
    ensures
        store_map(a) == store_map(b),
        distinct_ids(a) == distinct_ids(b),
    decreases a.len(),
{
    if a.len() > 0 {
        assert(forall|j: int|
            0 <= j < a.drop_last().len() ==> a.drop_last()[j].id == b.drop_last()[j].id
                && a.drop_last()[j]@ == b.drop_last()[j]@);
        lemma_store_map_congruent(a.drop_last(), b.drop_last());
        assert(a.last().id == b.last().id && a.last()@ == b.last()@);
        if distinct_ids(a) {
            assert(forall|x: int, y: int| 0 <= x < y < b.len() ==> b[x].id != b[y].id);
        }
        if distinct_ids(b) {
            assert(forall|x: int, y: int| 0 <= x < y < a.len() ==> a[x].id != a[y].id);
        }
    } else {
        if distinct_ids(a) {
            assert(forall|x: int, y: int| 0 <= x < y < b.len() ==> b[x].id != b[y].id);
        }
        if distinct_ids(b) {
            assert(forall|x: int, y: int| 0 <= x < y < a.len() ==> a[x].id != a[y].id);
        }
    }
}

/// A transaction snapshot of the cell store.
#[derive(Debug)]
pub struct Store {
    cells: Vec<Cell>,
}

impl View for Store {
    type V = Map<Id, CellV>;

    closed spec fn view(&self) -> Map<Id, CellV> {
        store_map(self.cells@)
    }
}

impl Store {
    /// Identifiers inside are pairwise distinct; constructors establish
    /// this and every operation preserves it.
    pub closed spec fn wf(&self) -> bool {
        distinct_ids(self.cells@)
    }

    pub fn new() -> (r: Store)
        ensures
            r.wf(),
            r@ == Map::<Id, CellV>::empty(),
    {
        Store { cells: Vec::new() }
    }

    /// A low half that makes a fresh identifier under the given high
    /// half; `None` only when that space is exhausted, which the stored
    /// cell at the space's last identifier witnesses.
    pub fn fresh_lower(&self, higher: u64) -> (r: Option<u64>)
        requires
            self.wf(),
        ensures
            match r {
                Some(lo) => !self@.contains_key(Id { higher, lower: lo }),
                None => self@.contains_key(Id { higher, lower: u64::MAX }),
            },
    {
        let n = self.cells.len();
        let mut m: u64 = 0;
        let mut i: usize = 0;
        while i < n
            invariant
                n == self.cells.len(),
                i <= n,
                forall|j: int|
                    0 <= j < i && self.cells@[j].id.higher == higher ==> self.cells@[j].id.lower
                        <= m,
                m == 0 || exists|j: int|
                    0 <= j < i && self.cells@[j].id == (Id { higher, lower: m }),
            decreases n - i,
        {
            let c = &self.cells[i];
            if c.id.higher == higher && c.id.lower > m {
                m = c.id.lower;
                proof {
                    assert(self.cells@[i as int].id == (Id { higher, lower: m }));
                }
            }
            i += 1;
        }
        if m == u64::MAX {
            proof {
                lemma_store_map_contains(self.cells@, Id { higher, lower: u64::MAX });
            }
            return None;
        }
        let lo = m + 1;
        proof {
            assert(forall|j: int|
                0 <= j < self.cells@.len() ==> self.cells@[j].id != (Id { higher, lower: lo }));
            lemma_store_map_contains(self.cells@, Id { higher, lower: lo });
        }
        Some(lo)
    }

    /// A deep copy of the snapshot, the transaction's private working
    /// state.
    pub fn duplicate(&self) -> (r: Store)
        requires
            self.wf(),
        ensures
            r.wf(),
            r@ == self@,
    {
        let mut out: Vec<Cell> = Vec::new();
        let mut i: usize = 0;
        while i < self.cells.len()
            invariant
                i <= self.cells.len(),
                out@.len() == i,
                forall|j: int|
                    0 <= j < i ==> out@[j].id == self.cells@[j].id && out@[j]@
                        == self.cells@[j]@,
            decreases self.cells.len() - i,
        {
            out.push(self.cells[i].duplicate());
            i += 1;
        }
        proof {
            lemma_store_map_congruent(out@, self.cells@);
        }
        Store { cells: out }
    }

    /// Read the cell stored under `id`, if any.
    pub fn read(&self, id: Id) -> (r: Option<&Cell>)
        requires
            self.wf(),
        ensures
            match r {
                Some(c) => self@.contains_key(id) && c.id == id && c@ == self@[id],
                None => !self@.contains_key(id),
            },
    {
        let n = self.cells.len();
        let mut i: usize = 0;
        while i < n
            invariant
                n == self.cells.len(),
                i <= n,
                self.wf(),
                forall|j: int| 0 <= j < i ==> self.cells@[j].id != id,
            decreases n - i,
        {
            let c = &self.cells[i];
            if c.id == id {
                proof {
                    lemma_store_map_index(self.cells@, i as int);
                }
                return Some(c);
            }
            i += 1;
        }
        proof {
            lemma_store_map_contains(self.cells@, id);
        }
        None
    }

    /// Write `c` into the snapshot, replacing any cell under the same
    /// identifier.
    pub fn write(&mut self, c: Cell)
        requires
            old(self).wf(),
        ensures
            final(self).wf(),
            final(self)@ == old(self)@.insert(c.id, c@),
    {
        let n = self.cells.len();
        let mut i: usize = 0;
        while i < n
            invariant
                n == self.cells.len(),
                i <= n,
                self.wf(),
                self@ == old(self)@,
                self.cells@ == old(self).cells@,
                forall|j: int| 0 <= j < i ==> self.cells@[j].id != c.id,
            decreases n - i,
        {
            if self.cells[i].id == c.id {
                proof {
                    lemma_store_map_update(self.cells@, i as int, c);
                }
                let ghost pre = self.cells@;
                self.cells.remove(i);
                self.cells.insert(i, c);
                proof {
                    assert(self.cells@ =~= pre.update(i as int, c));
                    assert(forall|a: int, b: int|
                        0 <= a < b < self.cells@.len() ==> self.cells@[a].id
                            != self.cells@[b].id);
                }
                return ;
            }
            i += 1;
        }
        proof {
            lemma_store_map_push(self.cells@, c);
        }
        self.cells.push(c);
        proof {
            assert(forall|a: int, b: int|
                0 <= a < b < self.cells@.len() ==> self.cells@[a].id != self.cells@[b].id);
        }
    }

    /// Delete the cell under `id`; reports whether one was there.
    pub fn remove(&mut self, id: Id) -> (r: bool)
        requires
            old(self).wf(),
        ensures
            final(self).wf(),
            final(self)@ == old(self)@.remove(id),
            r == old(self)@.contains_key(id),
    {
        let n = self.cells.len();
        let mut i: usize = 0;
        while i < n
            invariant
                n == self.cells.len(),
                i <= n,
                self.wf(),
                self@ == old(self)@,
                self.cells@ == old(self).cells@,
                forall|j: int| 0 <= j < i ==> self.cells@[j].id != id,
            decreases n - i,
        {
            if self.cells[i].id == id {
                proof {
                    lemma_store_map_remove(self.cells@, i as int);
                    lemma_store_map_index(self.cells@, i as int);
                }
                let ghost pre = self.cells@;
                self.cells.remove(i);
                proof {
                    assert(self.cells@ =~= pre.remove(i as int));
                    assert(forall|a: int, b: int|
                        0 <= a < b < self.cells@.len() ==> self.cells@[a].id
                            != self.cells@[b].id);
                }
                return true;
            }
            i += 1;
        }
        proof {
            lemma_store_map_contains(self.cells@, id);
            assert(old(self)@.remove(id) =~= old(self)@);
        }
        false
    }
}

} // verus!
