//! The graph facade and its transaction handle.
//!
//! A `GraphTransaction` owns one snapshot of the cell store; every
//! multi-cell mutation runs against it and the whole snapshot is
//! committed atomically or dropped. `Graph` bootstraps the two built-in
//! list schemas and offers single-entity convenience operations.

use vstd::prelude::*;

use crate::edge::{
    body_cell_higher, body_with_endpoints, make_body_cell, spec_resolve_member, resolve_member,
    Edge, EdgeData, EdgeAttributes, EdgeError, EdgeType,
};
use crate::id_list::{
    canonical_list, heads_independent, id_list_all, id_list_append, is_seg_of, list_head_of,
    list_view, spec_list_head_of, IdListError, CHAIN_FUEL, ID_LIST_SCHEMA_ID,
    MAX_LIST_MEMBERS, TYPE_LIST_SCHEMA_ID,
};
use crate::schema::{MorpheusSchema, SchemaContainer, SchemaError, SchemaType};
use crate::store::{Cell, CellV, Store};
use crate::types::{
    dm_get, dm_strip_reserved, lemma_dm_remove_absent, lemma_dm_strip_free, DataMap, Id,
    SpecValue, Value, INBOUND_KEY_ID, OUTBOUND_KEY_ID, UNDIRECTED_KEY_ID,
};
use crate::vertex::{
    cell_to_vertex, conforming_data, spec_vertex_id, vertex_to_cell_for_write, with_adjacency,
    NewVertexError, RemoveError, Vertex,
};

verus! {

/// Why a non-transactional vertex read failed. The snapshot model never
/// produces one: reads either find the cell or report an absent vertex.
#[derive(Clone, Copy, PartialEq, Eq, Structural, Debug)]
pub enum ReadVertexError {
    ReadError,
}

/// The transaction-level outcome: an abort asks the caller to retry the
/// whole transactional closure.
#[derive(Clone, Copy, PartialEq, Eq, Structural, Debug)]
pub enum TxnError {
    Aborted,
}

/// Why two vertices could not be linked.
#[derive(Clone, Copy, PartialEq, Eq, Structural, Debug)]
pub enum LinkVerticesError {
    EdgeSchemaNotFound,
    SchemaNotEdge,
    BodyRequired,
    BodyShouldNotExisted,
    EdgeError(EdgeError),
}

/// What kind of entity a cell backs.
#[derive(Clone, Copy, PartialEq, Eq, Structural, Debug)]
pub enum CellType {
    Vertex,
    Edge(EdgeType),
}

/// Which adjacency list an edge registers into.
#[derive(Clone, Copy, PartialEq, Eq, Structural, Debug)]
pub enum EdgeDirection {
    Inbound,
    Outbound,
    Undirected,
}

impl EdgeDirection {
    /// The hidden vertex field this direction's list handle lives under.
    pub open spec fn spec_as_field(self) -> u64 {
        match self {
            EdgeDirection::Inbound => INBOUND_KEY_ID,
            EdgeDirection::Outbound => OUTBOUND_KEY_ID,
            EdgeDirection::Undirected => UNDIRECTED_KEY_ID,
        }
    }

    pub fn as_field(&self) -> (r: u64)
        ensures
            r == self.spec_as_field(),
    {
        match self {
            EdgeDirection::Inbound => INBOUND_KEY_ID,
            EdgeDirection::Outbound => OUTBOUND_KEY_ID,
            EdgeDirection::Undirected => UNDIRECTED_KEY_ID,
        }
    }
}

/// The edge attributes `schema_id` is registered with, if it is an edge
/// schema.
pub open spec fn edge_attrs_of(c: Map<u32, SchemaType>, schema_id: u32) -> Option<
    EdgeAttributes,
> {
    if c.contains_key(schema_id) {
        match c[schema_id] {
            SchemaType::Edge(attrs) => Some(attrs),
            _ => None,
        }
    } else {
        None
    }
}

/// A list that a link can register into without error: canonically laid
/// out, readable, and not full.
pub open spec fn ready_list(v: Map<Id, CellV>, h: Id) -> bool {
    &&& canonical_list(v, h)
    &&& list_view(v, h) is Some
    &&& list_view(v, h).unwrap().len() < MAX_LIST_MEMBERS
}

/// The cell data an updated vertex is written back with: the new visible
/// data, with the three adjacency handles carried over from the old cell.
pub open spec fn updated_vertex_data(
    oldd: Seq<(u64, SpecValue)>,
    newd: Seq<(u64, SpecValue)>,
) -> Seq<(u64, SpecValue)> {
    dm_strip_reserved(newd).push((INBOUND_KEY_ID, adj_val(oldd, INBOUND_KEY_ID))).push(
        (OUTBOUND_KEY_ID, adj_val(oldd, OUTBOUND_KEY_ID)),
    ).push((UNDIRECTED_KEY_ID, adj_val(oldd, UNDIRECTED_KEY_ID)))
}

/// The adjacency handle stored under `k`, null when the cell lacks it.
pub open spec fn adj_val(d: Seq<(u64, SpecValue)>, k: u64) -> SpecValue {
    match dm_get(d, k) {
        Some(v) => v,
        None => SpecValue::Id(Id::spec_unit()),
    }
}

/// A transient handle over one store snapshot plus the schema catalog.
#[derive(Debug)]
pub struct GraphTransaction {
    store: Store,
    schemas: SchemaContainer,
}

impl GraphTransaction {
    pub closed spec fn wf(&self) -> bool {
        self.store.wf() && self.schemas.wf()
    }

    /// The snapshot this transaction reads and writes.
    pub closed spec fn sview(&self) -> Map<Id, CellV> {
        self.store@
    }

    /// The catalog the transaction validates against.
    pub closed spec fn catalog(&self) -> Map<u32, SchemaType> {
        self.schemas@
    }

    /// Bind a fresh transaction to copies of the snapshot and catalog.
    pub fn new(store: Store, schemas: SchemaContainer) -> (t: GraphTransaction)
        requires
            store.wf(),
            schemas.wf(),
        ensures
            t.wf(),
            t.sview() == store@,
            t.catalog() == schemas@,
    {
        GraphTransaction { store, schemas }
    }

    /// Validate and write a new vertex cell into the snapshot.
    pub fn new_vertex(&mut self, schema_id: u32, data: &DataMap) -> (r: Result<
        Result<Vertex, NewVertexError>,
        TxnError,
    >)
        requires
            old(self).wf(),
        ensures
            final(self).wf(),
            final(self).catalog() == old(self).catalog(),
            r is Ok,
            match r {
                Ok(Ok(v)) => {
                    &&& old(self).catalog().contains_key(schema_id)
                    &&& old(self).catalog()[schema_id] == SchemaType::Vertex
                    &&& conforming_data(data@)
                    &&& v.id == spec_vertex_id(schema_id, data@)
                    &&& v.schema == schema_id
                    &&& v.data@ == data@
                    &&& final(self).sview() == old(self).sview().insert(
                        v.id,
                        CellV { schema: schema_id, data: with_adjacency(data@) },
                    )
                },
                Ok(Err(e)) => final(self).sview() == old(self).sview() && (match e {
                    NewVertexError::SchemaNotFound => !old(self).catalog().contains_key(
                        schema_id,
                    ),
                    NewVertexError::SchemaNotVertex => old(self).catalog().contains_key(
                        schema_id,
                    ) && old(self).catalog()[schema_id] != SchemaType::Vertex,
                    NewVertexError::CannotGenerateCellByData => old(self).catalog().contains_key(schema_id) && old(self).catalog()[schema_id]
                        == SchemaType::Vertex && !conforming_data(data@),
                }),
                Err(_) => false,
            },
    {
        let cell = match vertex_to_cell_for_write(&self.schemas, schema_id, data) {
            Ok(cell) => cell,
            Err(e) => {
                return Ok(Err(e));
            },
        };
        let v = cell_to_vertex(&cell);
        proof {
            crate::vertex::lemma_vertex_data_roundtrip(data@);
        }
        self.store.write(cell);
        Ok(Ok(v))
    }

    /// Delete the vertex cell under `id`, if it is there.
    pub fn remove_vertex(&mut self, id: &Id) -> (r: Result<Result<(), RemoveError>, TxnError>)
        requires
            old(self).wf(),
        ensures
            final(self).wf(),
            final(self).catalog() == old(self).catalog(),
            r is Ok,
            match r {
                Ok(Ok(())) => old(self).sview().contains_key(*id) && final(self).sview()
                    == old(self).sview().remove(*id),
                Ok(Err(RemoveError::NotFound)) => !old(self).sview().contains_key(*id) && final(self).sview() == old(self).sview(),
                Err(_) => false,
            },
    {
        if self.store.remove(*id) {
            Ok(Ok(()))
        } else {
            proof {
                assert(old(self).sview().remove(*id) =~= old(self).sview());
            }
            Ok(Err(RemoveError::NotFound))
        }
    }

    /// Delete the vertex whose identity encodes the given key.
    pub fn remove_vertex_by_key(&mut self, schema_id: u32, key: &Value) -> (r: Result<
        Result<(), RemoveError>,
        TxnError,
    >)
        requires
            old(self).wf(),
        ensures
            final(self).wf(),
            final(self).catalog() == old(self).catalog(),
            r is Ok,
            match r {
                Ok(Ok(())) => old(self).sview().contains_key(
                    Cell::spec_encode_cell_key(schema_id, key@),
                ) && final(self).sview() == old(self).sview().remove(
                    Cell::spec_encode_cell_key(schema_id, key@),
                ),
                Ok(Err(RemoveError::NotFound)) => !old(self).sview().contains_key(
                    Cell::spec_encode_cell_key(schema_id, key@),
                ) && final(self).sview() == old(self).sview(),
                Err(_) => false,
            },
    {
        let id = Cell::encode_cell_key(schema_id, key);
        self.remove_vertex(&id)
    }

    /// Read the vertex stored under `id` from the snapshot.
    pub fn read_vertex(&mut self, id: &Id) -> (r: Result<Option<Vertex>, TxnError>)
        requires
            old(self).wf(),
        ensures
            final(self).wf(),
            *final(self) == *old(self),
            match r {
                Ok(Some(v)) => old(self).sview().contains_key(*id) && v.id == *id && v.schema
                    == old(self).sview()[*id].schema && v.data@ == dm_strip_reserved(
                    old(self).sview()[*id].data,
                ),
                Ok(None) => !old(self).sview().contains_key(*id),
                Err(_) => false,
            },
    {
        match self.store.read(*id) {
            Some(cell) => {
                let v = cell_to_vertex(cell);
                Ok(Some(v))
            },
            None => Ok(None),
        }
    }

    /// Read the vertex whose identity encodes the given key.
    pub fn get_vertex(&mut self, schema_id: u32, key: &Value) -> (r: Result<
        Option<Vertex>,
        TxnError,
    >)
        requires
            old(self).wf(),
        ensures
            final(self).wf(),
            *final(self) == *old(self),
            match r {
                Ok(Some(v)) => old(self).sview().contains_key(
                    Cell::spec_encode_cell_key(schema_id, key@),
                ) && v.id == Cell::spec_encode_cell_key(schema_id, key@) && v.data@
                    == dm_strip_reserved(
                    old(self).sview()[Cell::spec_encode_cell_key(schema_id, key@)].data,
                ),
                Ok(None) => !old(self).sview().contains_key(
                    Cell::spec_encode_cell_key(schema_id, key@),
                ),
                Err(_) => false,
            },
    {
        let id = Cell::encode_cell_key(schema_id, key);
        self.read_vertex(&id)
    }

    /// Read the current vertex under `id` and commit the replacement the
    /// closure returns; a `None` from the closure is an intentional
    /// no-op commit. A missing vertex aborts the transaction.
    pub fn update_vertex<U: Fn(Vertex) -> Option<Vertex>>(&mut self, id: &Id, update: U) -> (r:
        Result<(), TxnError>)
        requires
            old(self).wf(),
            forall|v: Vertex| call_requires(update, (v,)),
        ensures
            final(self).wf(),
            final(self).catalog() == old(self).catalog(),
            r is Ok <==> old(self).sview().contains_key(*id),
            r is Err ==> final(self).sview() == old(self).sview(),
            r is Ok ==> exists|vv: Vertex, out: Option<Vertex>|
                {
                    &&& vv.id == *id
                    &&& vv.schema == old(self).sview()[*id].schema
                    &&& vv.data@ == dm_strip_reserved(old(self).sview()[*id].data)
                    &&& #[trigger] call_ensures(update, (vv,), out)
                    &&& match out {
                        None => final(self).sview() == old(self).sview(),
                        Some(w) => final(self).sview() == old(self).sview().insert(
                            *id,
                            CellV {
                                schema: w.schema,
                                data: updated_vertex_data(
                                    old(self).sview()[*id].data,
                                    w.data@,
                                ),
                            },
                        ),
                    }
                },
    {
        let cell = match self.store.read(*id) {
            Some(c) => c.duplicate(),
            None => {
                return Err(TxnError::Aborted);
            },
        };
        let v = cell_to_vertex(&cell);
        let ghost vv = v;
        let out = update(v);
        let w = match out {
            Some(w) => w,
            None => {
                return Ok(());
            },
        };
        let mut data = w.data.without_reserved();
        proof {
            lemma_dm_strip_free(w.data@);
            assert(!crate::types::dm_contains_key(data@, INBOUND_KEY_ID)) by {
                if crate::types::dm_contains_key(data@, INBOUND_KEY_ID) {
                    let i = choose|i: int|
                        0 <= i < data@.len() && data@[i].0 == INBOUND_KEY_ID;
                    assert(crate::types::is_reserved_field(data@[i].0));
                }
            }
            lemma_dm_remove_absent(data@, INBOUND_KEY_ID);
        }
        data.insert(INBOUND_KEY_ID, adj_value_of(&cell, INBOUND_KEY_ID));
        proof {
            assert(!crate::types::dm_contains_key(data@, OUTBOUND_KEY_ID)) by {
                if crate::types::dm_contains_key(data@, OUTBOUND_KEY_ID) {
                    let i = choose|i: int|
                        0 <= i < data@.len() && data@[i].0 == OUTBOUND_KEY_ID;
                    if i < data@.len() - 1 {
                        assert(crate::types::is_reserved_field(
                            dm_strip_reserved(w.data@)[i].0,
                        ));
                    }
                }
            }
            lemma_dm_remove_absent(data@, OUTBOUND_KEY_ID);
        }
        data.insert(OUTBOUND_KEY_ID, adj_value_of(&cell, OUTBOUND_KEY_ID));
        proof {
            assert(!crate::types::dm_contains_key(data@, UNDIRECTED_KEY_ID)) by {
                if crate::types::dm_contains_key(data@, UNDIRECTED_KEY_ID) {
                    let i = choose|i: int|
                        0 <= i < data@.len() && data@[i].0 == UNDIRECTED_KEY_ID;
                    if i < data@.len() - 2 {
                        assert(crate::types::is_reserved_field(
                            dm_strip_reserved(w.data@)[i].0,
                        ));
                    }
                }
            }
            lemma_dm_remove_absent(data@, UNDIRECTED_KEY_ID);
        }
        data.insert(UNDIRECTED_KEY_ID, adj_value_of(&cell, UNDIRECTED_KEY_ID));
        proof {
            assert(data@ =~= updated_vertex_data(old(self).sview()[*id].data, w.data@));
        }
        self.store.write(Cell { id: *id, schema: w.schema, data });
        proof {
            assert(call_ensures(update, (vv,), Some(w)));
        }
        Ok(())
    }

    /// Update the vertex whose identity encodes the given key.
    pub fn update_vertex_by_key<U: Fn(Vertex) -> Option<Vertex>>(
        &mut self,
        schema_id: u32,
        key: &Value,
        update: U,
    ) -> (r: Result<(), TxnError>)
        requires
            old(self).wf(),
            forall|v: Vertex| call_requires(update, (v,)),
        ensures
            final(self).wf(),
            final(self).catalog() == old(self).catalog(),
            r is Ok <==> old(self).sview().contains_key(
                Cell::spec_encode_cell_key(schema_id, key@),
            ),
            r is Err ==> final(self).sview() == old(self).sview(),
            r is Ok ==> exists|vv: Vertex, out: Option<Vertex>|
                {
                    &&& vv.id == Cell::spec_encode_cell_key(schema_id, key@)
                    &&& vv.schema == old(self).sview()[Cell::spec_encode_cell_key(
                        schema_id,
                        key@,
                    )].schema
                    &&& vv.data@ == dm_strip_reserved(
                        old(self).sview()[Cell::spec_encode_cell_key(schema_id, key@)].data,
                    )
                    &&& #[trigger] call_ensures(update, (vv,), out)
                    &&& match out {
                        None => final(self).sview() == old(self).sview(),
                        Some(w) => final(self).sview() == old(self).sview().insert(
                            Cell::spec_encode_cell_key(schema_id, key@),
                            CellV {
                                schema: w.schema,
                                data: updated_vertex_data(
                                    old(self).sview()[Cell::spec_encode_cell_key(
                                        schema_id,
                                        key@,
                                    )].data,
                                    w.data@,
                                ),
                            },
                        ),
                    }
                },
    {
        let id = Cell::encode_cell_key(schema_id, key);
        self.update_vertex(&id, update)
    }

    /// List the edges of one single-hop neighbourhood: the members of
    /// the (vertex, direction, edge schema) list, each resolved to a
    /// typed edge. Resolution is fail-fast: the first member that does
    /// not resolve aborts the whole call.
    pub fn neighbourhoods(&mut self, vertex_id: &Id, schema_id: u32, ed: EdgeDirection) -> (r:
        Result<Result<Vec<Edge>, EdgeError>, TxnError>)
        requires
            old(self).wf(),
        ensures
            final(self).wf(),
            *final(self) == *old(self),
            r is Ok,
            match r {
                Ok(Ok(edges)) => exists|ids: Seq<Id>|
                    {
                        &&& #[trigger] list_view(
                            old(self).sview(),
                            spec_list_head_of(*vertex_id, ed.spec_as_field(), schema_id),
                        ) == Some(ids)
                        &&& edges@.len() == ids.len()
                        &&& forall|i: int|
                            0 <= i < ids.len() ==> edge_resolves(
                                old(self).sview(),
                                old(self).catalog(),
                                *vertex_id,
                                ed,
                                schema_id,
                                ids[i],
                                #[trigger] edges@[i],
                            )
                    },
                Ok(Err(e)) => match e {
                    EdgeError::IdListError(le) => le == IdListError::Corrupted && list_view(
                        old(self).sview(),
                        spec_list_head_of(*vertex_id, ed.spec_as_field(), schema_id),
                    ) is None,
                    _ => exists|ids: Seq<Id>, i: int|
                        {
                            &&& #[trigger] list_view(
                                old(self).sview(),
                                spec_list_head_of(*vertex_id, ed.spec_as_field(), schema_id),
                            ) == Some(ids)
                            &&& 0 <= i < ids.len()
                            &&& spec_resolve_member(
                                old(self).sview(),
                                *vertex_id,
                                ed is Inbound,
                                schema_id,
                                ids[i],
                            ) == Err::<(Id, Id, bool), EdgeError>(e)
                            &&& forall|j: int|
                                0 <= j < i ==> #[trigger] spec_resolve_member(
                                    old(self).sview(),
                                    *vertex_id,
                                    ed is Inbound,
                                    schema_id,
                                    ids[j],
                                ) is Ok
                        },
                },
                Err(_) => false,
            },
    {
        let field = ed.as_field();
        let head = list_head_of(*vertex_id, field, schema_id);
        let ids = match id_list_all(&self.store, head) {
            Ok(ids) => ids,
            Err(_) => {
                return Ok(Err(EdgeError::IdListError(IdListError::Corrupted)));
            },
        };
        let to_owner = match ed {
            EdgeDirection::Inbound => true,
            _ => false,
        };
        let is_directed = match self.schemas.schema_type(schema_id) {
            Some(SchemaType::Edge(attrs)) => match attrs.edge_type {
                EdgeType::Directed => true,
                EdgeType::Undirected => false,
            },
            _ => true,
        };
        let mut edges: Vec<Edge> = Vec::new();
        let mut i: usize = 0;
        while i < ids.len()
            invariant
                i <= ids@.len(),
                self.wf(),
                *self == *old(self),
                edges@.len() == i,
                list_view(
                    old(self).sview(),
                    spec_list_head_of(*vertex_id, ed.spec_as_field(), schema_id),
                ) == Some(ids@),
                to_owner == (ed is Inbound),
                (match edge_attrs_of(old(self).catalog(), schema_id) {
                    Some(attrs) => is_directed == (attrs.edge_type == EdgeType::Directed),
                    None => is_directed,
                }),
                forall|j: int|
                    0 <= j < i ==> edge_resolves(
                        old(self).sview(),
                        old(self).catalog(),
                        *vertex_id,
                        ed,
                        schema_id,
                        ids@[j],
                        #[trigger] edges@[j],
                    ),
            decreases ids@.len() - i,
        {
            let member = ids[i];
            let (f, t, body) = match resolve_member(
                &self.store,
                vertex_id,
                to_owner,
                schema_id,
                &member,
            ) {
                Ok(tup) => tup,
                Err(e) => {
                    proof {
                        assert forall|j: int| 0 <= j < i implies #[trigger] spec_resolve_member(
                            old(self).sview(),
                            *vertex_id,
                            ed is Inbound,
                            schema_id,
                            ids@[j],
                        ) is Ok by {
                            assert(edge_resolves(
                                old(self).sview(),
                                old(self).catalog(),
                                *vertex_id,
                                ed,
                                schema_id,
                                ids@[j],
                                edges@[j],
                            ));
                        }
                    }
                    return Ok(Err(e));
                },
            };
            let data = EdgeData { from_id: f, to_id: t, body };
            let e = if is_directed {
                Edge::Directed(data)
            } else {
                Edge::Undirected(data)
            };
            edges.push(e);
            i += 1;
        }
        Ok(Ok(edges))
    }
}

/// Pull one adjacency handle out of a vertex cell, null when absent.
fn adj_value_of(cell: &Cell, k: u64) -> (r: Value)
    ensures
        r@ == adj_val(cell@.data, k),
{
    match cell.data.get(k) {
        Some(v) => v.duplicate(),
        None => {
            proof {
                crate::types::lemma_dm_get_contains(cell@.data, k);
            }
            Value::Id(Id::unit_id())
        },
    }
}

/// How one returned edge relates to the adjacency member it was resolved
/// from: endpoints and body from the member's resolution, the variant
/// from the schema's registered direction kind.
pub open spec fn edge_resolves(
    v: Map<Id, CellV>,
    c: Map<u32, SchemaType>,
    owner: Id,
    ed: EdgeDirection,
    schema_id: u32,
    member: Id,
    e: Edge,
) -> bool {
    match spec_resolve_member(v, owner, ed is Inbound, schema_id, member) {
        Ok(tup) => {
            &&& e.spec_from() == tup.0
            &&& e.spec_to() == tup.1
            &&& (e.spec_data().body is Some <==> tup.2)
            &&& (tup.2 ==> e.spec_data().body.unwrap().id == member
                && e.spec_data().body.unwrap()@ == v[member])
            &&& (match edge_attrs_of(c, schema_id) {
                Some(attrs) => (e is Directed <==> attrs.edge_type == EdgeType::Directed),
                None => e is Directed,
            })
        },
        Err(_) => false,
    }
}


/// The two adjacency list heads a link registers into, in registration
/// order: (from's outbound, to's inbound) for a directed edge, the two
/// undirected lists otherwise.
pub open spec fn link_heads(et: EdgeType, schema_id: u32, from: Id, to: Id) -> (Id, Id) {
    match et {
        EdgeType::Directed => (
            spec_list_head_of(from, OUTBOUND_KEY_ID, schema_id),
            spec_list_head_of(to, INBOUND_KEY_ID, schema_id),
        ),
        EdgeType::Undirected => (
            spec_list_head_of(from, UNDIRECTED_KEY_ID, schema_id),
            spec_list_head_of(to, UNDIRECTED_KEY_ID, schema_id),
        ),
    }
}

/// What a successful link did: the returned edge's shape; the body cell,
/// freshly allocated, when the schema asks for one; both adjacency lists
/// extended by the edge's member identifier whenever they were readable,
/// not full and independent before the call; and nothing else changed.
pub open spec fn link_ok(
    pre: Map<Id, CellV>,
    post: Map<Id, CellV>,
    attrs: EdgeAttributes,
    schema_id: u32,
    from: Id,
    to: Id,
    bodyv: Option<Seq<(u64, SpecValue)>>,
    e: Edge,
) -> bool {
    let heads = link_heads(attrs.edge_type, schema_id, from, to);
    let bid = if e.spec_data().body is Some {
        e.spec_data().body.unwrap().id
    } else {
        Id::spec_unit()
    };
    let m1 = if attrs.has_body {
        bid
    } else {
        to
    };
    let m2 = if attrs.has_body {
        bid
    } else {
        from
    };
    &&& e.spec_from() == from
    &&& e.spec_to() == to
    &&& (e is Directed <==> attrs.edge_type == EdgeType::Directed)
    &&& (e.spec_data().body is Some <==> attrs.has_body)
    &&& (attrs.has_body ==> {
        &&& bodyv is Some
        &&& !pre.contains_key(bid)
        &&& post.contains_key(bid)
        &&& post[bid] == e.spec_data().body.unwrap()@
        &&& e.spec_data().body.unwrap()@.schema == schema_id
        &&& e.spec_data().body.unwrap()@.data == body_with_endpoints(bodyv.unwrap(), from, to)
        &&& bid.higher > 0x2FFF_FFFF_FFFF_FFFFu64
    })
    &&& (ready_list(pre, heads.0) && ready_list(pre, heads.1) && heads_independent(
        heads.0,
        heads.1,
    ) ==> {
        &&& list_view(post, heads.0) == Some(list_view(pre, heads.0).unwrap().push(m1))
        &&& list_view(post, heads.1) == Some(list_view(pre, heads.1).unwrap().push(m2))
        &&& canonical_list(post, heads.0)
        &&& canonical_list(post, heads.1)
    })
    &&& forall|id: Id|
        (!is_seg_of(heads.0, CHAIN_FUEL as int, id) && !is_seg_of(heads.1, CHAIN_FUEL as int, id)
            && id != bid) ==> ((#[trigger] post.contains_key(id) <==> pre.contains_key(id)) && (
        pre.contains_key(id) ==> post[id] == pre[id]))
}

impl GraphTransaction {
    /// Link `from_id` to `to_id` under an edge schema: validate the
    /// schema and the body's presence before any write, then write the
    /// body cell if one is due and register the edge in both endpoint
    /// adjacency lists. A list-domain failure is terminal: it surfaces
    /// as an inner edge error with the snapshot rolled back, never as
    /// the retry-class abort; the abort is reserved for the storage
    /// side running out of body-cell identifiers.
    #[verifier::rlimit(100)]
    pub fn link(&mut self, schema_id: u32, from_id: &Id, to_id: &Id, body: Option<DataMap>)
        -> (r: Result<Result<Edge, LinkVerticesError>, TxnError>)
        requires
            old(self).wf(),
        ensures
            final(self).wf(),
            final(self).catalog() == old(self).catalog(),
            match r {
                Ok(Ok(e)) => edge_attrs_of(old(self).catalog(), schema_id) is Some && {
                    let attrs = edge_attrs_of(old(self).catalog(), schema_id).unwrap();
                    &&& (body is Some <==> attrs.has_body)
                    &&& link_ok(
                        old(self).sview(),
                        final(self).sview(),
                        attrs,
                        schema_id,
                        *from_id,
                        *to_id,
                        (match body {
                            Some(b) => Some(b@),
                            None => None,
                        }),
                        e,
                    )
                },
                Ok(Err(LinkVerticesError::EdgeSchemaNotFound)) => !old(self).catalog().contains_key(schema_id) && final(self).sview() == old(self).sview(),
                Ok(Err(LinkVerticesError::SchemaNotEdge)) => old(self).catalog().contains_key(
                    schema_id,
                ) && edge_attrs_of(old(self).catalog(), schema_id) is None && final(self).sview()
                    == old(self).sview(),
                Ok(Err(LinkVerticesError::BodyRequired)) => edge_attrs_of(
                    old(self).catalog(),
                    schema_id,
                ) is Some && edge_attrs_of(old(self).catalog(), schema_id).unwrap().has_body
                    && body is None && final(self).sview() == old(self).sview(),
                Ok(Err(LinkVerticesError::BodyShouldNotExisted)) => edge_attrs_of(
                    old(self).catalog(),
                    schema_id,
                ) is Some && !edge_attrs_of(old(self).catalog(), schema_id).unwrap().has_body
                    && body is Some && final(self).sview() == old(self).sview(),
                Ok(Err(LinkVerticesError::EdgeError(ee))) => edge_attrs_of(
                    old(self).catalog(),
                    schema_id,
                ) is Some && (body is Some <==> edge_attrs_of(
                    old(self).catalog(),
                    schema_id,
                ).unwrap().has_body) && final(self).sview() == old(self).sview() && (match ee {
                    EdgeError::IdListError(le) => le == IdListError::Corrupted || le
                        == IdListError::ListFull,
                    _ => false,
                }),
                Err(TxnError::Aborted) => edge_attrs_of(old(self).catalog(), schema_id) is Some
                    && edge_attrs_of(old(self).catalog(), schema_id).unwrap().has_body && body
                    is Some && final(self).sview() == old(self).sview() && old(
                    self,
                ).sview().contains_key(
                    Id { higher: body_cell_higher(schema_id), lower: u64::MAX },
                ),
            },
            ({
                let ao = edge_attrs_of(old(self).catalog(), schema_id);
                &&& ao is Some
                &&& (body is Some <==> ao.unwrap().has_body)
                &&& (ao.unwrap().has_body ==> !old(self).sview().contains_key(
                    Id { higher: body_cell_higher(schema_id), lower: u64::MAX },
                ))
                &&& ready_list(
                    old(self).sview(),
                    link_heads(ao.unwrap().edge_type, schema_id, *from_id, *to_id).0,
                )
                &&& ready_list(
                    old(self).sview(),
                    link_heads(ao.unwrap().edge_type, schema_id, *from_id, *to_id).1,
                )
                &&& heads_independent(
                    link_heads(ao.unwrap().edge_type, schema_id, *from_id, *to_id).0,
                    link_heads(ao.unwrap().edge_type, schema_id, *from_id, *to_id).1,
                )
            }) ==> (match r {
                Ok(rr) => rr is Ok,
                Err(_) => false,
            }),
    {
        let ghost bodyv: Option<Seq<(u64, SpecValue)>> = if body is Some {
            Some(body.unwrap()@)
        } else {
            None
        };
        let attrs = match self.schemas.schema_type(schema_id) {
            None => {
                return Ok(Err(LinkVerticesError::EdgeSchemaNotFound));
            },
            Some(SchemaType::Edge(attrs)) => attrs,
            Some(_) => {
                return Ok(Err(LinkVerticesError::SchemaNotEdge));
            },
        };
        let f1: u64;
        let f2: u64;
        match attrs.edge_type {
            EdgeType::Directed => {
                f1 = OUTBOUND_KEY_ID;
                f2 = INBOUND_KEY_ID;
            },
            EdgeType::Undirected => {
                f1 = UNDIRECTED_KEY_ID;
                f2 = UNDIRECTED_KEY_ID;
            },
        }
        let h1 = list_head_of(*from_id, f1, schema_id);
        let h2 = list_head_of(*to_id, f2, schema_id);
        proof {
            assert((h1, h2) == link_heads(attrs.edge_type, schema_id, *from_id, *to_id));
        }
        let ghost pre = self.store@;
        let backup = self.store.duplicate();
        let member1: Id;
        let member2: Id;
        let body_cell: Option<Cell>;
        if attrs.has_body {
            let b = match body {
                Some(b) => b,
                None => {
                    return Ok(Err(LinkVerticesError::BodyRequired));
                },
            };
            let bh: u64 = 0x3000_0000_0000_0000u64 + (schema_id as u64);
            proof {
                assert(bh == body_cell_higher(schema_id));
            }
            let lo = match self.store.fresh_lower(bh) {
                Some(lo) => lo,
                None => {
                    return Err(TxnError::Aborted);
                },
            };
            let bid = Id { higher: bh, lower: lo };
            let cell = make_body_cell(bid, schema_id, &b, from_id, to_id);
            let copy = cell.duplicate();
            self.store.write(cell);
            proof {
                if canonical_list(pre, h1) {
                    crate::id_list::lemma_list_preserved_insert(pre, h1, bid, copy@);
                }
                if canonical_list(pre, h2) {
                    crate::id_list::lemma_list_preserved_insert(pre, h2, bid, copy@);
                }
            }
            member1 = bid;
            member2 = bid;
            body_cell = Some(copy);
        } else {
            if body.is_some() {
                return Ok(Err(LinkVerticesError::BodyShouldNotExisted));
            }
            member1 = *to_id;
            member2 = *from_id;
            body_cell = None;
        }
        let ghost s0 = self.store@;
        let ghost ready = ready_list(pre, h1) && ready_list(pre, h2) && heads_independent(
            h1,
            h2,
        );
        proof {
            if ready {
                assert(list_view(s0, h1) == list_view(pre, h1));
                assert(list_view(s0, h2) == list_view(pre, h2));
                assert(canonical_list(s0, h1));
                assert(canonical_list(s0, h2));
            }
        }
        match id_list_append(&mut self.store, h1, member1) {
            Ok(()) => {},
            Err(le) => {
                self.store = backup;
                return Ok(Err(LinkVerticesError::EdgeError(EdgeError::IdListError(le))));
            },
        }
        let ghost s1 = self.store@;
        let ghost n1 = crate::id_list::nsegs_of(
            list_view(s0, h1).unwrap().len() as int + 1,
        );
        proof {
            assert(list_view(s0, h1).unwrap().len() < MAX_LIST_MEMBERS);
            assert(n1 <= crate::id_list::MAX_LIST_SEGMENTS);
            crate::id_list::lemma_preserved_mono(s0, s1, h1, n1, CHAIN_FUEL as int);
            if ready {
                crate::id_list::lemma_list_preserved(s0, s1, h2, h1, CHAIN_FUEL as int);
            }
        }
        match id_list_append(&mut self.store, h2, member2) {
            Ok(()) => {},
            Err(le) => {
                self.store = backup;
                return Ok(Err(LinkVerticesError::EdgeError(EdgeError::IdListError(le))));
            },
        }
        let ghost s2 = self.store@;
        let ghost n2 = crate::id_list::nsegs_of(
            list_view(s1, h2).unwrap().len() as int + 1,
        );
        proof {
            assert(list_view(s1, h2).unwrap().len() < MAX_LIST_MEMBERS);
            assert(n2 <= crate::id_list::MAX_LIST_SEGMENTS);
            crate::id_list::lemma_preserved_mono(s1, s2, h2, n2, CHAIN_FUEL as int);
            if ready {
                crate::id_list::lemma_list_preserved(s1, s2, h1, h2, CHAIN_FUEL as int);
                assert(list_view(s2, h1) == Some(list_view(pre, h1).unwrap().push(member1)));
                assert(list_view(s2, h2) == Some(list_view(pre, h2).unwrap().push(member2)));
            }
        }
        let data = EdgeData { from_id: *from_id, to_id: *to_id, body: body_cell };
        let e = match attrs.edge_type {
            EdgeType::Directed => Edge::Directed(data),
            EdgeType::Undirected => Edge::Undirected(data),
        };
        proof {
            let heads = link_heads(attrs.edge_type, schema_id, *from_id, *to_id);
            let bid = if e.spec_data().body is Some {
                e.spec_data().body.unwrap().id
            } else {
                Id::spec_unit()
            };
            assert(edge_attrs_of(old(self).catalog(), schema_id) == Some(attrs));
            assert(e.spec_from() == *from_id && e.spec_to() == *to_id);
            assert(e is Directed <==> attrs.edge_type == EdgeType::Directed);
            assert(e.spec_data().body is Some <==> attrs.has_body);
            assert(attrs.has_body ==> !pre.contains_key(bid));
            assert(attrs.has_body ==> bid.higher > 0x2FFF_FFFF_FFFF_FFFFu64);
            if attrs.has_body {
                assert(!is_seg_of(h1, CHAIN_FUEL as int, bid)) by {
                    if is_seg_of(h1, CHAIN_FUEL as int, bid) {
                        let k = choose|k: int|
                            0 <= k < CHAIN_FUEL && bid == crate::id_list::seg_id(h1, k);
                        assert(crate::id_list::seg_id(h1, k).higher == h1.higher);
                    }
                }
                assert(!is_seg_of(h2, CHAIN_FUEL as int, bid)) by {
                    if is_seg_of(h2, CHAIN_FUEL as int, bid) {
                        let k = choose|k: int|
                            0 <= k < CHAIN_FUEL && bid == crate::id_list::seg_id(h2, k);
                        assert(crate::id_list::seg_id(h2, k).higher == h2.higher);
                    }
                }
                assert(s0.contains_key(bid) && s0[bid] == e.spec_data().body.unwrap()@);
                assert(s1.contains_key(bid) <==> s0.contains_key(bid));
                assert(s1[bid] == s0[bid]);
                assert(self.store@.contains_key(bid) <==> s1.contains_key(bid));
                assert(self.store@[bid] == s1[bid]);
            }
            if ready_list(pre, heads.0) && ready_list(pre, heads.1) && heads_independent(
                heads.0,
                heads.1,
            ) {
                assert(list_view(self.store@, heads.0) == Some(
                    list_view(pre, heads.0).unwrap().push(member1),
                ));
                assert(list_view(self.store@, heads.1) == Some(
                    list_view(pre, heads.1).unwrap().push(member2),
                ));
                assert(canonical_list(self.store@, heads.0));
                assert(canonical_list(self.store@, heads.1));
            }
            assert forall|id: Id|
                (!is_seg_of(heads.0, CHAIN_FUEL as int, id) && !is_seg_of(
                    heads.1,
                    CHAIN_FUEL as int,
                    id,
                ) && id != bid) implies ((#[trigger] self.store@.contains_key(id)
                <==> pre.contains_key(id)) && (pre.contains_key(id) ==> self.store@[id]
                == pre[id])) by {
                assert(heads.0 == h1 && heads.1 == h2);
                assert(s0.contains_key(id) <==> pre.contains_key(id));
                if pre.contains_key(id) {
                    assert(s0[id] == pre[id]);
                }
                assert(s1.contains_key(id) <==> s0.contains_key(id));
                if s0.contains_key(id) {
                    assert(s1[id] == s0[id]);
                }
                assert(self.store@.contains_key(id) <==> s1.contains_key(id));
                if s1.contains_key(id) {
                    assert(self.store@[id] == s1[id]);
                }
            }
            assert(attrs.has_body ==> bodyv is Some && e.spec_data().body.unwrap()@.data
                == body_with_endpoints(bodyv.unwrap(), *from_id, *to_id));
            let post = self.store@;
            let m1 = if attrs.has_body { bid } else { *to_id };
            let m2 = if attrs.has_body { bid } else { *from_id };
            assert(e.spec_from() == *from_id && e.spec_to() == *to_id);
            assert(e is Directed <==> attrs.edge_type == EdgeType::Directed);
            assert(e.spec_data().body is Some <==> attrs.has_body);
            assert(attrs.has_body ==> {
                &&& bodyv is Some
                &&& !pre.contains_key(bid)
                &&& post.contains_key(bid)
                &&& post[bid] == e.spec_data().body.unwrap()@
                &&& e.spec_data().body.unwrap()@.schema == schema_id
                &&& e.spec_data().body.unwrap()@.data == body_with_endpoints(
                    bodyv.unwrap(),
                    *from_id,
                    *to_id,
                )
                &&& bid.higher > 0x2FFF_FFFF_FFFF_FFFFu64
            });
            assert(ready_list(pre, heads.0) && ready_list(pre, heads.1) && heads_independent(
                heads.0,
                heads.1,
            ) ==> {
                &&& list_view(post, heads.0) == Some(list_view(pre, heads.0).unwrap().push(m1))
                &&& list_view(post, heads.1) == Some(list_view(pre, heads.1).unwrap().push(m2))
                &&& canonical_list(post, heads.0)
                &&& canonical_list(post, heads.1)
            });
            assert(forall|id: Id|
                (!is_seg_of(heads.0, CHAIN_FUEL as int, id) && !is_seg_of(
                    heads.1,
                    CHAIN_FUEL as int,
                    id,
                ) && id != bid) ==> ((#[trigger] post.contains_key(id) <==> pre.contains_key(
                    id,
                )) && (pre.contains_key(id) ==> post[id] == pre[id])));
            assert(link_ok(
                pre,
                self.store@,
                attrs,
                schema_id,
                *from_id,
                *to_id,
                bodyv,
                e,
            ));
        }
        Ok(Ok(e))
    }
}


impl GraphTransaction {
    /// Surrender the snapshot for commit.
    pub fn into_store(self) -> (r: Store)
        requires
            self.wf(),
        ensures
            r.wf(),
            r@ == self.sview(),
    {
        self.store
    }
}

/// The facade: owns the catalog and the committed store state,
/// bootstraps the two built-in list schemas, and opens transactions.
#[derive(Debug)]
pub struct Graph {
    schemas: SchemaContainer,
    store: Store,
}

impl Graph {
    pub closed spec fn wf(&self) -> bool {
        self.store.wf() && self.schemas.wf()
    }

    /// The committed store state.
    pub closed spec fn sview(&self) -> Map<Id, CellV> {
        self.store@
    }

    /// The schema catalog.
    pub closed spec fn catalog(&self) -> Map<u32, SchemaType> {
        self.schemas@
    }

    /// Build the facade over a catalog and a store, bootstrapping the
    /// two built-in list schemas idempotently: a catalog that already
    /// holds both is left exactly as it was.
    pub fn new(schemas: SchemaContainer, store: Store) -> (g: Graph)
        requires
            schemas.wf(),
            store.wf(),
        ensures
            g.wf(),
            g.sview() == store@,
            schemas@.contains_key(ID_LIST_SCHEMA_ID) && schemas@.contains_key(
                TYPE_LIST_SCHEMA_ID,
            ) ==> g.catalog() == schemas@,
            g.catalog().contains_key(ID_LIST_SCHEMA_ID),
            g.catalog().contains_key(TYPE_LIST_SCHEMA_ID),
            forall|s: u32|
                schemas@.contains_key(s) ==> g.catalog().contains_key(s) && g.catalog()[s]
                    == schemas@[s],
            forall|s: u32|
                s != ID_LIST_SCHEMA_ID && s != TYPE_LIST_SCHEMA_ID && g.catalog().contains_key(
                    s,
                ) ==> schemas@.contains_key(s),
    {
        let mut schemas = schemas;
        schemas.bootstrap(ID_LIST_SCHEMA_ID, SchemaType::List);
        schemas.bootstrap(TYPE_LIST_SCHEMA_ID, SchemaType::List);
        Graph { schemas, store }
    }

    /// Register a user schema as a vertex group.
    pub fn new_vertex_group(&mut self, schema: &mut MorpheusSchema) -> (r: Result<
        (),
        SchemaError,
    >)
        requires
            old(self).wf(),
        ensures
            final(self).wf(),
            final(self).sview() == old(self).sview(),
            final(schema).id == old(schema).id,
            final(schema).schema_type == SchemaType::Vertex,
            match r {
                Ok(()) => !old(self).catalog().contains_key(old(schema).id) && final(self).catalog() == old(self).catalog().insert(old(schema).id, SchemaType::Vertex),
                Err(SchemaError::SchemaExisted) => old(self).catalog().contains_key(
                    old(schema).id,
                ) && final(self).catalog() == old(self).catalog(),
            },
    {
        schema.schema_type = SchemaType::Vertex;
        self.schemas.new_schema(schema)
    }

    /// Register a user schema as an edge group with the given attributes.
    pub fn new_edge_group(&mut self, schema: &mut MorpheusSchema, edge_attrs: EdgeAttributes)
        -> (r: Result<(), SchemaError>)
        requires
            old(self).wf(),
        ensures
            final(self).wf(),
            final(self).sview() == old(self).sview(),
            final(schema).id == old(schema).id,
            final(schema).schema_type == SchemaType::Edge(edge_attrs),
            match r {
                Ok(()) => !old(self).catalog().contains_key(old(schema).id) && final(self).catalog() == old(self).catalog().insert(
                    old(schema).id,
                    SchemaType::Edge(edge_attrs),
                ),
                Err(SchemaError::SchemaExisted) => old(self).catalog().contains_key(
                    old(schema).id,
                ) && final(self).catalog() == old(self).catalog(),
            },
    {
        schema.schema_type = SchemaType::Edge(edge_attrs);
        self.schemas.new_schema(schema)
    }

    /// Open a transaction bound to a snapshot of the current state.
    pub fn graph_transaction(&self) -> (t: GraphTransaction)
        requires
            self.wf(),
        ensures
            t.wf(),
            t.sview() == self.sview(),
            t.catalog() == self.catalog(),
    {
        GraphTransaction::new(self.store.duplicate(), self.schemas.duplicate())
    }

    /// Commit a transaction: its snapshot becomes the new state.
    pub fn commit(&mut self, txn: GraphTransaction)
        requires
            old(self).wf(),
            txn.wf(),
        ensures
            final(self).wf(),
            final(self).sview() == txn.sview(),
            final(self).catalog() == old(self).catalog(),
    {
        self.store = txn.into_store();
    }

    /// Validate and store a new vertex.
    pub fn new_vertex(&mut self, schema_id: u32, data: &DataMap) -> (r: Result<
        Vertex,
        NewVertexError,
    >)
        requires
            old(self).wf(),
        ensures
            final(self).wf(),
            final(self).catalog() == old(self).catalog(),
            match r {
                Ok(v) => {
                    &&& old(self).catalog().contains_key(schema_id)
                    &&& old(self).catalog()[schema_id] == SchemaType::Vertex
                    &&& conforming_data(data@)
                    &&& v.id == spec_vertex_id(schema_id, data@)
                    &&& v.schema == schema_id
                    &&& v.data@ == data@
                    &&& final(self).sview() == old(self).sview().insert(
                        v.id,
                        CellV { schema: schema_id, data: with_adjacency(data@) },
                    )
                },
                Err(e) => final(self).sview() == old(self).sview() && (match e {
                    NewVertexError::SchemaNotFound => !old(self).catalog().contains_key(
                        schema_id,
                    ),
                    NewVertexError::SchemaNotVertex => old(self).catalog().contains_key(
                        schema_id,
                    ) && old(self).catalog()[schema_id] != SchemaType::Vertex,
                    NewVertexError::CannotGenerateCellByData => old(self).catalog().contains_key(schema_id) && old(self).catalog()[schema_id]
                        == SchemaType::Vertex && !conforming_data(data@),
                }),
            },
    {
        let cell = match vertex_to_cell_for_write(&self.schemas, schema_id, data) {
            Ok(cell) => cell,
            Err(e) => {
                return Err(e);
            },
        };
        let v = cell_to_vertex(&cell);
        proof {
            crate::vertex::lemma_vertex_data_roundtrip(data@);
        }
        self.store.write(cell);
        Ok(v)
    }

    /// Remove a vertex inside a transaction of its own. An absent
    /// vertex is the terminal domain outcome `NotFound`, distinct from
    /// the retry-class abort, which this snapshot model never produces.
    pub fn remove_vertex(&mut self, id: &Id) -> (r: Result<Result<(), RemoveError>, TxnError>)
        requires
            old(self).wf(),
        ensures
            final(self).wf(),
            final(self).catalog() == old(self).catalog(),
            r is Ok,
            match r {
                Ok(Ok(())) => old(self).sview().contains_key(*id) && final(self).sview()
                    == old(self).sview().remove(*id),
                Ok(Err(RemoveError::NotFound)) => !old(self).sview().contains_key(*id)
                    && final(self).sview() == old(self).sview(),
                Err(_) => false,
            },
    {
        let mut txn = self.graph_transaction();
        match txn.remove_vertex(id) {
            Ok(Ok(())) => {
                self.commit(txn);
                Ok(Ok(()))
            },
            Ok(Err(e)) => Ok(Err(e)),
            Err(e) => Err(e),
        }
    }

    /// Remove the vertex whose identity encodes the given key; an
    /// absent vertex is the terminal `NotFound`, never an abort.
    pub fn remove_vertex_by_key(&mut self, schema_id: u32, key: &Value) -> (r: Result<
        Result<(), RemoveError>,
        TxnError,
    >)
        requires
            old(self).wf(),
        ensures
            final(self).wf(),
            final(self).catalog() == old(self).catalog(),
            r is Ok,
            match r {
                Ok(Ok(())) => old(self).sview().contains_key(
                    Cell::spec_encode_cell_key(schema_id, key@),
                ) && final(self).sview() == old(self).sview().remove(
                    Cell::spec_encode_cell_key(schema_id, key@),
                ),
                Ok(Err(RemoveError::NotFound)) => !old(self).sview().contains_key(
                    Cell::spec_encode_cell_key(schema_id, key@),
                ) && final(self).sview() == old(self).sview(),
                Err(_) => false,
            },
    {
        let id = Cell::encode_cell_key(schema_id, key);
        self.remove_vertex(&id)
    }

    /// Update a vertex through a transaction of its own.
    pub fn update_vertex<U: Fn(Vertex) -> Option<Vertex>>(&mut self, id: &Id, update: U) -> (r:
        Result<(), TxnError>)
        requires
            old(self).wf(),
            forall|v: Vertex| call_requires(update, (v,)),
        ensures
            final(self).wf(),
            final(self).catalog() == old(self).catalog(),
            r is Ok <==> old(self).sview().contains_key(*id),
            r is Err ==> final(self).sview() == old(self).sview(),
            r is Ok ==> exists|vv: Vertex, out: Option<Vertex>|
                {
                    &&& vv.id == *id
                    &&& vv.schema == old(self).sview()[*id].schema
                    &&& vv.data@ == dm_strip_reserved(old(self).sview()[*id].data)
                    &&& #[trigger] call_ensures(update, (vv,), out)
                    &&& match out {
                        None => final(self).sview() == old(self).sview(),
                        Some(w) => final(self).sview() == old(self).sview().insert(
                            *id,
                            CellV {
                                schema: w.schema,
                                data: updated_vertex_data(old(self).sview()[*id].data, w.data@),
                            },
                        ),
                    }
                },
    {
        let mut txn = self.graph_transaction();
        match txn.update_vertex(id, update) {
            Ok(()) => {
                self.commit(txn);
                Ok(())
            },
            Err(e) => Err(e),
        }
    }

    /// Update the vertex whose identity encodes the given key.
    pub fn update_vertex_by_key<U: Fn(Vertex) -> Option<Vertex>>(
        &mut self,
        schema_id: u32,
        key: &Value,
        update: U,
    ) -> (r: Result<(), TxnError>)
        requires
            old(self).wf(),
            forall|v: Vertex| call_requires(update, (v,)),
        ensures
            final(self).wf(),
            final(self).catalog() == old(self).catalog(),
            r is Ok <==> old(self).sview().contains_key(
                Cell::spec_encode_cell_key(schema_id, key@),
            ),
            r is Err ==> final(self).sview() == old(self).sview(),
            r is Ok ==> exists|vv: Vertex, out: Option<Vertex>|
                {
                    &&& vv.id == Cell::spec_encode_cell_key(schema_id, key@)
                    &&& vv.schema == old(self).sview()[Cell::spec_encode_cell_key(
                        schema_id,
                        key@,
                    )].schema
                    &&& vv.data@ == dm_strip_reserved(
                        old(self).sview()[Cell::spec_encode_cell_key(schema_id, key@)].data,
                    )
                    &&& #[trigger] call_ensures(update, (vv,), out)
                    &&& match out {
                        None => final(self).sview() == old(self).sview(),
                        Some(w) => final(self).sview() == old(self).sview().insert(
                            Cell::spec_encode_cell_key(schema_id, key@),
                            CellV {
                                schema: w.schema,
                                data: updated_vertex_data(
                                    old(self).sview()[Cell::spec_encode_cell_key(
                                        schema_id,
                                        key@,
                                    )].data,
                                    w.data@,
                                ),
                            },
                        ),
                    }
                },
    {
        let id = Cell::encode_cell_key(schema_id, key);
        self.update_vertex(&id, update)
    }

    /// Read a vertex. An absent vertex is `Ok(None)`: the snapshot model
    /// never turns a missing cell into a storage error.
    pub fn read_vertex(&self, id: &Id) -> (r: Result<Option<Vertex>, ReadVertexError>)
        requires
            self.wf(),
        ensures
            r is Ok,
            match r {
                Ok(Some(v)) => self.sview().contains_key(*id) && v.id == *id && v.schema
                    == self.sview()[*id].schema && v.data@ == dm_strip_reserved(
                    self.sview()[*id].data,
                ),
                Ok(None) => !self.sview().contains_key(*id),
                Err(_) => false,
            },
    {
        match self.store.read(*id) {
            Some(cell) => Ok(Some(cell_to_vertex(cell))),
            None => Ok(None),
        }
    }

    /// Read the vertex whose identity encodes the given key.
    pub fn get_vertex(&self, schema_id: u32, key: &Value) -> (r: Result<
        Option<Vertex>,
        ReadVertexError,
    >)
        requires
            self.wf(),
        ensures
            r is Ok,
            match r {
                Ok(Some(v)) => self.sview().contains_key(
                    Cell::spec_encode_cell_key(schema_id, key@),
                ) && v.id == Cell::spec_encode_cell_key(schema_id, key@) && v.data@
                    == dm_strip_reserved(
                    self.sview()[Cell::spec_encode_cell_key(schema_id, key@)].data,
                ),
                Ok(None) => !self.sview().contains_key(
                    Cell::spec_encode_cell_key(schema_id, key@),
                ),
                Err(_) => false,
            },
    {
        let id = Cell::encode_cell_key(schema_id, key);
        self.read_vertex(&id)
    }
}

} // verus!
