//! Edges: relationships between two vertices, optionally backed by a
//! data cell of their own, and their registration in adjacency lists.

use vstd::prelude::*;

pub use crate::schema::{EdgeAttributes, EdgeType};

use crate::id_list::IdListError;
use crate::store::{Cell, CellV, Store};
use crate::types::{
    dm_get, lemma_dm_get_contains, DataMap, Id, SpecValue, Value, EDGE_FROM_FIELD_ID,
    EDGE_TO_FIELD_ID,
};

verus! {

/// Why an edge could not be resolved from an adjacency member.
#[derive(Clone, Copy, PartialEq, Eq, Structural, Debug)]
pub enum EdgeError {
    IdListError(IdListError),
    EdgeCellNotFound,
    InvalidEdgeCell,
}

/// Both endpoints of one edge and its body cell, if its schema asks for
/// one.
#[derive(Debug)]
pub struct EdgeData {
    pub from_id: Id,
    pub to_id: Id,
    pub body: Option<Cell>,
}

/// A typed edge value as `link` and `neighbourhoods` hand it out.
#[derive(Debug)]
pub enum Edge {
    Directed(EdgeData),
    Undirected(EdgeData),
}

impl Edge {
    pub open spec fn spec_data(self) -> EdgeData {
        match self {
            Edge::Directed(d) => d,
            Edge::Undirected(d) => d,
        }
    }

    pub open spec fn spec_from(self) -> Id {
        self.spec_data().from_id
    }

    pub open spec fn spec_to(self) -> Id {
        self.spec_data().to_id
    }

    /// The source endpoint.
    pub fn from_id(&self) -> (r: Id)
        ensures
            r == self.spec_from(),
    {
        match self {
            Edge::Directed(d) => d.from_id,
            Edge::Undirected(d) => d.from_id,
        }
    }

    /// The target endpoint.
    pub fn to_id(&self) -> (r: Id)
        ensures
            r == self.spec_to(),
    {
        match self {
            Edge::Directed(d) => d.to_id,
            Edge::Undirected(d) => d.to_id,
        }
    }

    /// Does this edge carry a body cell?
    pub fn has_body(&self) -> (r: bool)
        ensures
            r == self.spec_data().body is Some,
    {
        match self {
            Edge::Directed(d) => d.body.is_some(),
            Edge::Undirected(d) => d.body.is_some(),
        }
    }
}

/// The high half every edge body cell of one schema is allocated under:
/// a band of its own, above every vertex and list identifier.
pub open spec fn body_cell_higher(schema_id: u32) -> u64 {
    (0x3000_0000_0000_0000u64 + (schema_id as u64)) as u64
}

/// The body cell a linked edge is stored under: the caller's body plus
/// the two hidden endpoint fields.
pub open spec fn body_with_endpoints(body: Seq<(u64, SpecValue)>, from: Id, to: Id) -> Seq<
    (u64, SpecValue),
> {
    crate::types::dm_remove_key(
        crate::types::dm_remove_key(body, EDGE_FROM_FIELD_ID),
        EDGE_TO_FIELD_ID,
    ).push((EDGE_FROM_FIELD_ID, SpecValue::Id(from))).push((EDGE_TO_FIELD_ID, SpecValue::Id(to)))
}

/// Lay the caller's body out as the edge's own data cell.
pub fn make_body_cell(id: Id, schema_id: u32, body: &DataMap, from: &Id, to: &Id) -> (r: Cell)
    ensures
        r.id == id,
        r@.schema == schema_id,
        r@.data == body_with_endpoints(body@, *from, *to),
{
    let mut data = body.duplicate();
    data.insert(EDGE_FROM_FIELD_ID, Value::Id(*from));
    data.insert(EDGE_TO_FIELD_ID, Value::Id(*to));
    proof {
        lemma_remove_key_push_other(
            crate::types::dm_remove_key(body@, EDGE_FROM_FIELD_ID),
            EDGE_TO_FIELD_ID,
            (EDGE_FROM_FIELD_ID, SpecValue::Id(*from)),
        );
    }
    Cell { id, schema: schema_id, data }
}

/// Removing `k` commutes with appending an entry under another field.
proof fn lemma_remove_key_push_other(s: Seq<(u64, SpecValue)>, k: u64, e: (u64, SpecValue))
    requires
        e.0 != k,
    ensures
        crate::types::dm_remove_key(s.push(e), k) == crate::types::dm_remove_key(s, k).push(e),
    decreases s.len(),
{
    if s.len() == 0 {
        assert(s.push(e)[0] == e);
        assert(s.push(e).skip(1) =~= Seq::<(u64, SpecValue)>::empty());
        assert(crate::types::dm_remove_key(s.push(e), k) == seq![e] + crate::types::dm_remove_key(
            s.push(e).skip(1),
            k,
        ));
        assert(crate::types::dm_remove_key(s.push(e).skip(1), k) =~= Seq::<(
            u64,
            SpecValue,
        )>::empty());
        assert(seq![e] + Seq::<(u64, SpecValue)>::empty() =~= crate::types::dm_remove_key(
            s,
            k,
        ).push(e));
    } else {
        assert(s.push(e)[0] == s[0]);
        assert(s.push(e).skip(1) =~= s.skip(1).push(e));
        lemma_remove_key_push_other(s.skip(1), k, e);
        if s[0].0 == k {
            assert(crate::types::dm_remove_key(s.push(e), k) == crate::types::dm_remove_key(
                s.skip(1).push(e),
                k,
            ));
        } else {
            assert(crate::types::dm_remove_key(s.push(e), k) == seq![s[0]]
                + crate::types::dm_remove_key(s.skip(1).push(e), k));
            assert(seq![s[0]] + crate::types::dm_remove_key(s.skip(1), k).push(e)
                =~= (seq![s[0]] + crate::types::dm_remove_key(s.skip(1), k)).push(e));
        }
    }
}

/// What one adjacency member stands for in snapshot `v`, seen from
/// `owner` through the given orientation: a body edge when the member's
/// cell carries the edge schema, else a lightweight edge to the member
/// vertex itself. `to_owner` orients lightweight members toward the
/// owner (inbound) rather than away from it.
pub open spec fn spec_resolve_member(
    v: Map<Id, CellV>,
    owner: Id,
    to_owner: bool,
    schema_id: u32,
    member: Id,
) -> Result<(Id, Id, bool), EdgeError> {
    if !v.contains_key(member) {
        Err(EdgeError::EdgeCellNotFound)
    } else if v[member].schema == schema_id {
        match (dm_get(v[member].data, EDGE_FROM_FIELD_ID), dm_get(
            v[member].data,
            EDGE_TO_FIELD_ID,
        )) {
            (Some(SpecValue::Id(f)), Some(SpecValue::Id(t))) => Ok((f, t, true)),
            _ => Err(EdgeError::InvalidEdgeCell),
        }
    } else if to_owner {
        Ok((member, owner, false))
    } else {
        Ok((owner, member, false))
    }
}

/// Resolve one adjacency member into endpoint identifiers and, for body
/// edges, the body cell.
pub fn resolve_member(store: &Store, owner: &Id, to_owner: bool, schema_id: u32, member: &Id)
    -> (r: Result<(Id, Id, Option<Cell>), EdgeError>)
    requires
        store.wf(),
    ensures
        match r {
            Ok(tup) => {
                &&& spec_resolve_member(store@, *owner, to_owner, schema_id, *member) is Ok
                &&& {
                    let s = spec_resolve_member(
                        store@,
                        *owner,
                        to_owner,
                        schema_id,
                        *member,
                    ).unwrap();
                    &&& tup.0 == s.0
                    &&& tup.1 == s.1
                    &&& (s.2 <==> tup.2 is Some)
                    &&& (tup.2 is Some ==> tup.2.unwrap().id == *member && tup.2.unwrap()@
                        == store@[*member])
                }
            },
            Err(e) => spec_resolve_member(store@, *owner, to_owner, schema_id, *member) == Err::<
                (Id, Id, bool),
                EdgeError,
            >(e),
        },
{
    let cell = match store.read(*member) {
        Some(c) => c,
        None => {
            return Err(EdgeError::EdgeCellNotFound);
        },
    };
    if cell.schema == schema_id {
        let f: Id = match cell.data.get(EDGE_FROM_FIELD_ID) {
            Some(Value::Id(f)) => *f,
            Some(_) => {
                return Err(EdgeError::InvalidEdgeCell);
            },
            None => {
                proof {
                    lemma_dm_get_contains(cell@.data, EDGE_FROM_FIELD_ID);
                }
                return Err(EdgeError::InvalidEdgeCell);
            },
        };
        let t: Id = match cell.data.get(EDGE_TO_FIELD_ID) {
            Some(Value::Id(t)) => *t,
            Some(_) => {
                return Err(EdgeError::InvalidEdgeCell);
            },
            None => {
                proof {
                    lemma_dm_get_contains(cell@.data, EDGE_TO_FIELD_ID);
                }
                return Err(EdgeError::InvalidEdgeCell);
            },
        };
        Ok((f, t, Some(cell.duplicate())))
    } else if to_owner {
        Ok((*member, *owner, None))
    } else {
        Ok((*owner, *member, None))
    }
}

} // verus!
