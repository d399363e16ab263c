//! Vertices: in-memory projections of stored cells.
//!
//! A vertex cell carries the user data plus three hidden adjacency
//! handles; materializing a vertex strips those, so that callers never
//! observe them.

use vstd::prelude::*;

use crate::schema::{SchemaContainer, SchemaType};
use crate::store::Cell;
use crate::types::{
    dm_contains_key, dm_get, dm_strip_reserved, is_reserved_field, lemma_dm_get_contains,
    lemma_dm_remove_absent, lemma_dm_strip_no_reserved, lemma_dm_strip_push_reserved, DataMap,
    Id, SpecValue, Value, INBOUND_KEY_ID, KEY_FIELD_ID, OUTBOUND_KEY_ID, UNDIRECTED_KEY_ID,
};

verus! {

/// Why a vertex could not be created.
#[derive(Clone, Copy, PartialEq, Eq, Structural, Debug)]
pub enum NewVertexError {
    SchemaNotFound,
    SchemaNotVertex,
    CannotGenerateCellByData,
}

/// Why a vertex could not be removed.
#[derive(Clone, Copy, PartialEq, Eq, Structural, Debug)]
pub enum RemoveError {
    NotFound,
}

/// A graph node: one cell's identity and schema plus its visible data.
#[derive(Debug)]
pub struct Vertex {
    pub id: Id,
    pub schema: u32,
    pub data: DataMap,
}

/// User data fit to back a vertex cell: it names a primary key and stays
/// away from the hidden adjacency fields.
pub open spec fn conforming_data(d: Seq<(u64, SpecValue)>) -> bool {
    &&& dm_contains_key(d, KEY_FIELD_ID)
    &&& !dm_contains_key(d, INBOUND_KEY_ID)
    &&& !dm_contains_key(d, OUTBOUND_KEY_ID)
    &&& !dm_contains_key(d, UNDIRECTED_KEY_ID)
}

/// `d` with the three adjacency handles appended, each null.
pub open spec fn with_adjacency(d: Seq<(u64, SpecValue)>) -> Seq<(u64, SpecValue)> {
    d.push((INBOUND_KEY_ID, SpecValue::Id(Id::spec_unit()))).push(
        (OUTBOUND_KEY_ID, SpecValue::Id(Id::spec_unit())),
    ).push((UNDIRECTED_KEY_ID, SpecValue::Id(Id::spec_unit())))
}

/// The deterministic identity of the vertex `d` describes.
pub open spec fn spec_vertex_id(schema: u32, d: Seq<(u64, SpecValue)>) -> Id {
    Cell::spec_encode_cell_key(schema, dm_get(d, KEY_FIELD_ID).unwrap())
}

/// Materializing a cell built from conforming data hands the data back
/// exactly: the hidden handles vanish without a trace.
pub proof fn lemma_vertex_data_roundtrip(d: Seq<(u64, SpecValue)>)
    requires
        conforming_data(d),
    ensures
        dm_strip_reserved(with_adjacency(d)) == d,
{
    assert(forall|i: int| 0 <= i < d.len() ==> !is_reserved_field(#[trigger] d[i].0)) by {
        assert forall|i: int| 0 <= i < d.len() implies !is_reserved_field(
            #[trigger] d[i].0,
        ) by {
            if d[i].0 == INBOUND_KEY_ID {
                assert(dm_contains_key(d, INBOUND_KEY_ID));
            }
            if d[i].0 == OUTBOUND_KEY_ID {
                assert(dm_contains_key(d, OUTBOUND_KEY_ID));
            }
            if d[i].0 == UNDIRECTED_KEY_ID {
                assert(dm_contains_key(d, UNDIRECTED_KEY_ID));
            }
        }
    }
    lemma_dm_strip_no_reserved(d);
    let d1 = d.push((INBOUND_KEY_ID, SpecValue::Id(Id::spec_unit())));
    let d2 = d1.push((OUTBOUND_KEY_ID, SpecValue::Id(Id::spec_unit())));
    lemma_dm_strip_push_reserved(d, (INBOUND_KEY_ID, SpecValue::Id(Id::spec_unit())));
    lemma_dm_strip_push_reserved(d1, (OUTBOUND_KEY_ID, SpecValue::Id(Id::spec_unit())));
    lemma_dm_strip_push_reserved(d2, (UNDIRECTED_KEY_ID, SpecValue::Id(Id::spec_unit())));
}

/// Rebuild a vertex from its stored cell, hiding the adjacency handles.
pub fn cell_to_vertex(cell: &Cell) -> (v: Vertex)
    ensures
        v.id == cell.id,
        v.schema == cell@.schema,
        v.data@ == dm_strip_reserved(cell@.data),
{
    Vertex { id: cell.id, schema: cell.schema, data: cell.data.without_reserved() }
}

/// Validate `data` against the catalog and lay it out as the cell a new
/// vertex will be stored in, its identity derived from the primary key.
pub fn vertex_to_cell_for_write(schemas: &SchemaContainer, schema_id: u32, data: &DataMap) -> (r:
    Result<Cell, NewVertexError>)
    requires
        schemas.wf(),
    ensures
        match r {
            Ok(cell) => {
                &&& schemas@.contains_key(schema_id)
                &&& schemas@[schema_id] == SchemaType::Vertex
                &&& conforming_data(data@)
                &&& cell.schema == schema_id
                &&& cell.id == spec_vertex_id(schema_id, data@)
                &&& cell@.data == with_adjacency(data@)
            },
            Err(NewVertexError::SchemaNotFound) => !schemas@.contains_key(schema_id),
            Err(NewVertexError::SchemaNotVertex) => schemas@.contains_key(schema_id)
                && schemas@[schema_id] != SchemaType::Vertex,
            Err(NewVertexError::CannotGenerateCellByData) => schemas@.contains_key(schema_id)
                && schemas@[schema_id] == SchemaType::Vertex && !conforming_data(data@),
        },
{
    match schemas.schema_type(schema_id) {
        None => {
            return Err(NewVertexError::SchemaNotFound);
        },
        Some(SchemaType::Vertex) => {},
        Some(_) => {
            return Err(NewVertexError::SchemaNotVertex);
        },
    }
    let key = match data.get(KEY_FIELD_ID) {
        Some(v) => v.duplicate(),
        None => {
            return Err(NewVertexError::CannotGenerateCellByData);
        },
    };
    proof {
        lemma_dm_get_contains(data@, KEY_FIELD_ID);
    }
    if data.get(INBOUND_KEY_ID).is_some() || data.get(OUTBOUND_KEY_ID).is_some() || data.get(
        UNDIRECTED_KEY_ID,
    ).is_some() {
        proof {
            lemma_dm_get_contains(data@, INBOUND_KEY_ID);
            lemma_dm_get_contains(data@, OUTBOUND_KEY_ID);
            lemma_dm_get_contains(data@, UNDIRECTED_KEY_ID);
        }
        return Err(NewVertexError::CannotGenerateCellByData);
    }
    proof {
        lemma_dm_get_contains(data@, INBOUND_KEY_ID);
        lemma_dm_get_contains(data@, OUTBOUND_KEY_ID);
        lemma_dm_get_contains(data@, UNDIRECTED_KEY_ID);
    }
    let id = Cell::encode_cell_key(schema_id, &key);
    let mut full = data.duplicate();
    proof {
        lemma_dm_remove_absent(full@, INBOUND_KEY_ID);
    }
    full.insert(INBOUND_KEY_ID, Value::Id(Id::unit_id()));
    proof {
        assert(!dm_contains_key(full@, OUTBOUND_KEY_ID)) by {
            if dm_contains_key(full@, OUTBOUND_KEY_ID) {
                let i = choose|i: int|
                    0 <= i < full@.len() && full@[i].0 == OUTBOUND_KEY_ID;
                assert(data@[i].0 == OUTBOUND_KEY_ID);
            }
        }
        lemma_dm_remove_absent(full@, OUTBOUND_KEY_ID);
    }
    full.insert(OUTBOUND_KEY_ID, Value::Id(Id::unit_id()));
    proof {
        assert(!dm_contains_key(full@, UNDIRECTED_KEY_ID)) by {
            if dm_contains_key(full@, UNDIRECTED_KEY_ID) {
                let i = choose|i: int|
                    0 <= i < full@.len() && full@[i].0 == UNDIRECTED_KEY_ID;
                if i < data@.len() {
                    assert(data@[i].0 == UNDIRECTED_KEY_ID);
                }
            }
        }
        lemma_dm_remove_absent(full@, UNDIRECTED_KEY_ID);
    }
    full.insert(UNDIRECTED_KEY_ID, Value::Id(Id::unit_id()));
    proof {
        assert(full@ =~= with_adjacency(data@));
    }
    Ok(Cell { id, schema: schema_id, data: full })
}

} // verus!
