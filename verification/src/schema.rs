//! The schema catalog: maps a schema identifier to its classification,
//! vertex or edge, and for edges the attributes every link must respect.

use vstd::prelude::*;

verus! {

/// Whether an edge schema relates its endpoints symmetrically.
#[derive(Clone, Copy, PartialEq, Eq, Structural, Debug)]
pub enum EdgeType {
    Directed,
    Undirected,
}

/// Schema-level attributes of an edge: its direction kind and whether a
/// link must carry a body of its own.
#[derive(Clone, Copy, PartialEq, Eq, Structural, Debug)]
pub struct EdgeAttributes {
    pub edge_type: EdgeType,
    pub has_body: bool,
}

/// What a schema identifier stands for.
#[derive(Clone, Copy, PartialEq, Eq, Structural, Debug)]
pub enum SchemaType {
    Vertex,
    Edge(EdgeAttributes),
    List,
}

/// A user-facing schema descriptor handed to the registration calls.
#[derive(Clone, Copy, PartialEq, Eq, Structural, Debug)]
pub struct MorpheusSchema {
    pub id: u32,
    pub schema_type: SchemaType,
}

/// Why a schema registration was rejected.
#[derive(Clone, Copy, PartialEq, Eq, Structural, Debug)]
pub enum SchemaError {
    SchemaExisted,
}

/// The map a catalog entry sequence stands for.
pub open spec fn catalog_map(s: Seq<(u32, SchemaType)>) -> Map<u32, SchemaType>
    decreases s.len(),
{
    if s.len() == 0 {
        Map::empty()
    } else {
        catalog_map(s.drop_last()).insert(s.last().0, s.last().1)
    }
}

/// Schema identifiers are pairwise distinct.
pub open spec fn distinct_schema_ids(s: Seq<(u32, SchemaType)>) -> bool {
    forall|i: int, j: int| 0 <= i < j < s.len() ==> s[i].0 != s[j].0
}

pub proof fn lemma_catalog_map_contains(s: Seq<(u32, SchemaType)>, id: u32)
    ensures
        catalog_map(s).contains_key(id) <==> exists|i: int| 0 <= i < s.len() && s[i].0 == id,
    decreases s.len(),
{
    if s.len() > 0 {
        lemma_catalog_map_contains(s.drop_last(), id);
        if s.last().0 == id {
            assert(s[s.len() - 1].0 == id);
        } else {
            if catalog_map(s).contains_key(id) {
                let i = choose|i: int| 0 <= i < s.drop_last().len() && s.drop_last()[i].0 == id;
                assert(s[i].0 == id);
            }
            if exists|i: int| 0 <= i < s.len() && s[i].0 == id {
                let i = choose|i: int| 0 <= i < s.len() && s[i].0 == id;
                assert(s.drop_last()[i].0 == id);
            }
        }
    }
}

pub proof fn lemma_catalog_map_index(s: Seq<(u32, SchemaType)>, i: int)
    requires
        distinct_schema_ids(s),
        0 <= i < s.len(),
    ensures
        catalog_map(s).contains_key(s[i].0),
        catalog_map(s)[s[i].0] == s[i].1,
    decreases s.len(),
{
    if i < s.len() - 1 {
        assert(distinct_schema_ids(s.drop_last())) by {
            assert(forall|a: int, b: int|
                0 <= a < b < s.drop_last().len() ==> s.drop_last()[a].0 != s.drop_last()[b].0);
        }
        assert(s.drop_last()[i] == s[i]);
        lemma_catalog_map_index(s.drop_last(), i);
        assert(s[i].0 != s.last().0);
    }
}

pub proof fn lemma_catalog_map_push(s: Seq<(u32, SchemaType)>, id: u32, t: SchemaType)
    ensures
        catalog_map(s.push((id, t))) == catalog_map(s).insert(id, t),
{
    assert(s.push((id, t)).drop_last() =~= s);
}

/// The consensus-backed registry of schema definitions, as one snapshot
/// of its contents.
#[derive(Debug)]
pub struct SchemaContainer {
    entries: Vec<(u32, SchemaType)>,
}

impl View for SchemaContainer {
    type V = Map<u32, SchemaType>;

    closed spec fn view(&self) -> Map<u32, SchemaType> {
        catalog_map(self.entries@)
    }
}

impl SchemaContainer {
    /// Identifiers inside are pairwise distinct.
    pub closed spec fn wf(&self) -> bool {
        distinct_schema_ids(self.entries@)
    }

    pub fn new() -> (r: SchemaContainer)
        ensures
            r.wf(),
            r@ == Map::<u32, SchemaType>::empty(),
    {
        SchemaContainer { entries: Vec::new() }
    }

    /// What `id` stands for, if it is registered.
    pub fn schema_type(&self, id: u32) -> (r: Option<SchemaType>)
        requires
            self.wf(),
        ensures
            match r {
                Some(t) => self@.contains_key(id) && self@[id] == t,
                None => !self@.contains_key(id),
            },
    {
        let n = self.entries.len();
        let mut i: usize = 0;
        while i < n
            invariant
                n == self.entries.len(),
                i <= n,
                self.wf(),
                forall|j: int| 0 <= j < i ==> self.entries@[j].0 != id,
            decreases n - i,
        {
            let e = &self.entries[i];
            if e.0 == id {
                proof {
                    lemma_catalog_map_index(self.entries@, i as int);
                }
                return Some(e.1);
            }
            i += 1;
        }
        proof {
            lemma_catalog_map_contains(self.entries@, id);
        }
        None
    }

    /// Register a fresh schema; an identifier registered before is
    /// rejected and the catalog is left as it was.
    pub fn new_schema(&mut self, schema: &MorpheusSchema) -> (r: Result<(), SchemaError>)
        requires
            old(self).wf(),
        ensures
            final(self).wf(),
            match r {
                Ok(()) => !old(self)@.contains_key(schema.id)
                    && final(self)@ == old(self)@.insert(schema.id, schema.schema_type),
                Err(SchemaError::SchemaExisted) => old(self)@.contains_key(schema.id)
                    && final(self)@ == old(self)@,
            },
    {
        if self.contains(schema.id) {
            return Err(SchemaError::SchemaExisted);
        }
        proof {
            lemma_catalog_map_contains(self.entries@, schema.id);
            lemma_catalog_map_push(self.entries@, schema.id, schema.schema_type);
        }
        self.entries.push((schema.id, schema.schema_type));
        proof {
            assert(forall|a: int, b: int|
                0 <= a < b < self.entries@.len() ==> self.entries@[a].0 != self.entries@[b].0);
        }
        Ok(())
    }

    /// Upsert-if-absent, the idempotent bootstrap step for the built-in
    /// list schemas: a no-op when `id` is already registered.
    pub fn bootstrap(&mut self, id: u32, t: SchemaType)
        requires
            old(self).wf(),
        ensures
            final(self).wf(),
            old(self)@.contains_key(id) ==> final(self)@ == old(self)@,
            !old(self)@.contains_key(id) ==> final(self)@ == old(self)@.insert(id, t),
    {
        if self.contains(id) {
            return ;
        }
        proof {
            lemma_catalog_map_contains(self.entries@, id);
            lemma_catalog_map_push(self.entries@, id, t);
        }
        self.entries.push((id, t));
        proof {
            assert(forall|a: int, b: int|
                0 <= a < b < self.entries@.len() ==> self.entries@[a].0 != self.entries@[b].0);
        }
    }

    /// Is `id` registered?
    pub fn contains(&self, id: u32) -> (r: bool)
        requires
            self.wf(),
        ensures
            r == self@.contains_key(id),
    {
        let n = self.entries.len();
        let mut i: usize = 0;
        while i < n
            invariant
                n == self.entries.len(),
                i <= n,
                self.wf(),
                forall|j: int| 0 <= j < i ==> self.entries@[j].0 != id,
            decreases n - i,
        {
            if self.entries[i].0 == id {
                proof {
                    lemma_catalog_map_index(self.entries@, i as int);
                }
                return true;
            }
            i += 1;
        }
        proof {
            lemma_catalog_map_contains(self.entries@, id);
        }
        false
    }

    /// A copy with the same contents.
    pub fn duplicate(&self) -> (r: SchemaContainer)
        ensures
            r.wf() == self.wf(),
            r@ == self@,
    {
        let mut out: Vec<(u32, SchemaType)> = Vec::new();
        let mut i: usize = 0;
        while i < self.entries.len()
            invariant
                i <= self.entries.len(),
                out@ == self.entries@.take(i as int),
            decreases self.entries.len() - i,
        {
            out.push(self.entries[i]);
            proof {
                assert(out@ =~= self.entries@.take(i + 1 as int));
            }
            i += 1;
        }
        proof {
            assert(out@ =~= self.entries@);
        }
        SchemaContainer { entries: out }
    }
}

} // verus!
