use morpheus::edge::{Edge, EdgeAttributes, EdgeType};
use morpheus::graph::{EdgeDirection, Graph, LinkVerticesError};
use morpheus::id_list::{
    id_list_all, id_list_append, id_list_remove, list_head_of, IdListError, SEGMENT_CAPACITY,
};
use morpheus::schema::{MorpheusSchema, SchemaContainer, SchemaType};
use morpheus::store::{Cell, Store};
use morpheus::types::{DataMap, Id, Value, KEY_FIELD_ID};
use morpheus::vertex::NewVertexError;

const PEOPLE: u32 = 10;
const KNOWS: u32 = 20;
const LIKES: u32 = 21;
const RATED: u32 = 22;

fn person(key: u64, extra: u64) -> DataMap {
    let mut d = DataMap::new();
    d.insert(KEY_FIELD_ID, Value::U64(key));
    d.insert(1, Value::U64(extra));
    d
}

fn fresh_graph() -> Graph {
    let mut g = Graph::new(SchemaContainer::new(), Store::new());
    let mut vs = MorpheusSchema { id: PEOPLE, schema_type: SchemaType::Vertex };
    g.new_vertex_group(&mut vs).unwrap();
    let mut es = MorpheusSchema { id: KNOWS, schema_type: SchemaType::Vertex };
    g.new_edge_group(
        &mut es,
        EdgeAttributes { edge_type: EdgeType::Directed, has_body: false },
    )
    .unwrap();
    let mut us = MorpheusSchema { id: LIKES, schema_type: SchemaType::Vertex };
    g.new_edge_group(
        &mut us,
        EdgeAttributes { edge_type: EdgeType::Undirected, has_body: false },
    )
    .unwrap();
    let mut bs = MorpheusSchema { id: RATED, schema_type: SchemaType::Vertex };
    g.new_edge_group(
        &mut bs,
        EdgeAttributes { edge_type: EdgeType::Directed, has_body: true },
    )
    .unwrap();
    g
}

#[test]
fn create_then_read_roundtrip() {
    let mut g = fresh_graph();
    let data = person(7, 42);
    let v = g.new_vertex(PEOPLE, &data).unwrap();
    let back = g
        .get_vertex(PEOPLE, &Value::U64(7))
        .unwrap()
        .expect("vertex should be there");
    assert_eq!(back.id, v.id);
    assert_eq!(back.data, data);
    assert!(back.data.get(morpheus::types::INBOUND_KEY_ID).is_none());
    assert!(back.data.get(morpheus::types::OUTBOUND_KEY_ID).is_none());
    assert!(back.data.get(morpheus::types::UNDIRECTED_KEY_ID).is_none());
}

#[test]
fn new_vertex_rejects_bad_schema_and_data() {
    let mut g = fresh_graph();
    let data = person(1, 1);
    assert!(matches!(
        g.new_vertex(99, &data),
        Err(NewVertexError::SchemaNotFound)
    ));
    assert!(matches!(
        g.new_vertex(KNOWS, &data),
        Err(NewVertexError::SchemaNotVertex)
    ));
    let mut keyless = DataMap::new();
    keyless.insert(1, Value::U64(5));
    assert!(matches!(
        g.new_vertex(PEOPLE, &keyless),
        Err(NewVertexError::CannotGenerateCellByData)
    ));
}

#[test]
fn link_requires_body() {
    let mut g = fresh_graph();
    let a = g.new_vertex(PEOPLE, &person(1, 0)).unwrap();
    let b = g.new_vertex(PEOPLE, &person(2, 0)).unwrap();
    let mut txn = g.graph_transaction();
    let r = txn.link(RATED, &a.id, &b.id, None).unwrap();
    assert!(matches!(r, Err(LinkVerticesError::BodyRequired)));
    // zero store interaction: the neighbourhood is still empty
    let edges = txn
        .neighbourhoods(&a.id, RATED, EdgeDirection::Outbound)
        .unwrap()
        .unwrap();
    assert_eq!(edges.len(), 0);
}

#[test]
fn link_rejects_unexpected_body() {
    let mut g = fresh_graph();
    let a = g.new_vertex(PEOPLE, &person(1, 0)).unwrap();
    let b = g.new_vertex(PEOPLE, &person(2, 0)).unwrap();
    let mut txn = g.graph_transaction();
    let r = txn.link(KNOWS, &a.id, &b.id, Some(DataMap::new())).unwrap();
    assert!(matches!(r, Err(LinkVerticesError::BodyShouldNotExisted)));
    let edges = txn
        .neighbourhoods(&a.id, KNOWS, EdgeDirection::Outbound)
        .unwrap()
        .unwrap();
    assert_eq!(edges.len(), 0);
}

#[test]
fn link_rejects_wrong_schema() {
    let mut g = fresh_graph();
    let a = g.new_vertex(PEOPLE, &person(1, 0)).unwrap();
    let b = g.new_vertex(PEOPLE, &person(2, 0)).unwrap();
    let mut txn = g.graph_transaction();
    assert!(matches!(
        txn.link(99, &a.id, &b.id, None).unwrap(),
        Err(LinkVerticesError::EdgeSchemaNotFound)
    ));
    assert!(matches!(
        txn.link(PEOPLE, &a.id, &b.id, None).unwrap(),
        Err(LinkVerticesError::SchemaNotEdge)
    ));
}

#[test]
fn directed_link_neighbourhoods() {
    let mut g = fresh_graph();
    let a = g.new_vertex(PEOPLE, &person(1, 0)).unwrap();
    let b = g.new_vertex(PEOPLE, &person(2, 0)).unwrap();
    let mut txn = g.graph_transaction();
    let e = txn.link(KNOWS, &a.id, &b.id, None).unwrap().unwrap();
    assert!(matches!(e, Edge::Directed(_)));
    assert_eq!(e.from_id(), a.id);
    assert_eq!(e.to_id(), b.id);
    let out = txn
        .neighbourhoods(&a.id, KNOWS, EdgeDirection::Outbound)
        .unwrap()
        .unwrap();
    assert_eq!(out.len(), 1);
    assert_eq!(out[0].from_id(), a.id);
    assert_eq!(out[0].to_id(), b.id);
    let inn = txn
        .neighbourhoods(&b.id, KNOWS, EdgeDirection::Inbound)
        .unwrap()
        .unwrap();
    assert_eq!(inn.len(), 1);
    assert_eq!(inn[0].from_id(), a.id);
    assert_eq!(inn[0].to_id(), b.id);
    let a_in = txn
        .neighbourhoods(&a.id, KNOWS, EdgeDirection::Inbound)
        .unwrap()
        .unwrap();
    assert_eq!(a_in.len(), 0);
    g.commit(txn);
}

#[test]
fn undirected_link_neighbourhoods() {
    let mut g = fresh_graph();
    let a = g.new_vertex(PEOPLE, &person(1, 0)).unwrap();
    let b = g.new_vertex(PEOPLE, &person(2, 0)).unwrap();
    let mut txn = g.graph_transaction();
    let e = txn.link(LIKES, &a.id, &b.id, None).unwrap().unwrap();
    assert!(matches!(e, Edge::Undirected(_)));
    let from_a = txn
        .neighbourhoods(&a.id, LIKES, EdgeDirection::Undirected)
        .unwrap()
        .unwrap();
    assert_eq!(from_a.len(), 1);
    assert_eq!(from_a[0].to_id(), b.id);
    let from_b = txn
        .neighbourhoods(&b.id, LIKES, EdgeDirection::Undirected)
        .unwrap()
        .unwrap();
    assert_eq!(from_b.len(), 1);
    assert_eq!(from_b[0].to_id(), a.id);
}

#[test]
fn body_edge_carries_its_cell() {
    let mut g = fresh_graph();
    let a = g.new_vertex(PEOPLE, &person(1, 0)).unwrap();
    let b = g.new_vertex(PEOPLE, &person(2, 0)).unwrap();
    let mut body = DataMap::new();
    body.insert(5, Value::U64(99));
    let mut txn = g.graph_transaction();
    let e = txn.link(RATED, &a.id, &b.id, Some(body)).unwrap().unwrap();
    assert!(e.has_body());
    let out = txn
        .neighbourhoods(&a.id, RATED, EdgeDirection::Outbound)
        .unwrap()
        .unwrap();
    assert_eq!(out.len(), 1);
    assert!(out[0].has_body());
    assert_eq!(out[0].from_id(), a.id);
    assert_eq!(out[0].to_id(), b.id);
}

#[test]
fn chained_segments_keep_append_order() {
    let mut store = Store::new();
    let owner = Id { higher: 0x1000_0000_0000_0001, lower: 5 };
    let head = list_head_of(owner, morpheus::types::OUTBOUND_KEY_ID, KNOWS);
    let n = 3 * SEGMENT_CAPACITY + 1;
    for i in 0..n {
        let member = Id { higher: 0x1000_0000_0000_0002, lower: i as u64 };
        id_list_append(&mut store, head, member).unwrap();
    }
    let all = id_list_all(&store, head).unwrap();
    assert_eq!(all.len(), n);
    for i in 0..n {
        assert_eq!(all[i], Id { higher: 0x1000_0000_0000_0002, lower: i as u64 });
    }
}

#[test]
fn remove_keeps_remaining_order() {
    let mut store = Store::new();
    let owner = Id { higher: 0x1000_0000_0000_0001, lower: 6 };
    let head = list_head_of(owner, morpheus::types::OUTBOUND_KEY_ID, KNOWS);
    for i in 0..6u64 {
        id_list_append(&mut store, head, Id { higher: 1, lower: i }).unwrap();
    }
    id_list_remove(&mut store, head, Id { higher: 1, lower: 3 }).unwrap();
    let all = id_list_all(&store, head).unwrap();
    let lows: Vec<u64> = all.iter().map(|id| id.lower).collect();
    assert_eq!(lows, vec![0, 1, 2, 4, 5]);
    assert!(matches!(
        id_list_remove(&mut store, head, Id { higher: 1, lower: 3 }),
        Err(IdListError::MemberNotFound)
    ));
}

#[test]
fn corrupt_chain_is_a_domain_error() {
    let mut store = Store::new();
    let owner = Id { higher: 0x1000_0000_0000_0001, lower: 9 };
    let head = list_head_of(owner, morpheus::types::OUTBOUND_KEY_ID, KNOWS);
    // a cell under the head identifier that is no segment at all
    store.write(Cell { id: head, schema: 999, data: DataMap::new() });
    assert!(matches!(id_list_all(&store, head), Err(IdListError::Corrupted)));
    assert!(matches!(
        id_list_append(&mut store, head, Id { higher: 1, lower: 1 }),
        Err(IdListError::Corrupted)
    ));
}

#[test]
fn member_resolution_errors() {
    let mut store = Store::new();
    let owner = Id { higher: 0x1000_0000_0000_0001, lower: 11 };
    let ghost_member = Id { higher: 0x1000_0000_0000_0002, lower: 12 };
    // the member's cell is gone entirely
    assert!(matches!(
        morpheus::edge::resolve_member(&store, &owner, false, KNOWS, &ghost_member),
        Err(morpheus::edge::EdgeError::EdgeCellNotFound)
    ));
    // a cell of the edge schema without the endpoint fields
    store.write(Cell { id: ghost_member, schema: KNOWS, data: DataMap::new() });
    assert!(matches!(
        morpheus::edge::resolve_member(&store, &owner, false, KNOWS, &ghost_member),
        Err(morpheus::edge::EdgeError::InvalidEdgeCell)
    ));
}

#[test]
fn two_transactions_no_lost_update() {
    let mut g = fresh_graph();
    let a = g.new_vertex(PEOPLE, &person(1, 0)).unwrap();
    let b = g.new_vertex(PEOPLE, &person(2, 0)).unwrap();
    let c = g.new_vertex(PEOPLE, &person(3, 0)).unwrap();
    let mut t1 = g.graph_transaction();
    t1.link(KNOWS, &a.id, &b.id, None).unwrap().unwrap();
    g.commit(t1);
    let mut t2 = g.graph_transaction();
    t2.link(KNOWS, &a.id, &c.id, None).unwrap().unwrap();
    g.commit(t2);
    let mut t3 = g.graph_transaction();
    let out = t3
        .neighbourhoods(&a.id, KNOWS, EdgeDirection::Outbound)
        .unwrap()
        .unwrap();
    assert_eq!(out.len(), 2);
    let targets: Vec<Id> = out.iter().map(|e| e.to_id()).collect();
    assert_eq!(targets.iter().filter(|t| **t == b.id).count(), 1);
    assert_eq!(targets.iter().filter(|t| **t == c.id).count(), 1);
}

#[test]
fn remove_by_key_then_get_not_found() {
    let mut g = fresh_graph();
    g.new_vertex(PEOPLE, &person(7, 0)).unwrap();
    g.remove_vertex_by_key(PEOPLE, &Value::U64(7)).unwrap().unwrap();
    let r = g.get_vertex(PEOPLE, &Value::U64(7));
    assert!(matches!(r, Ok(None)));
    // a second removal is the terminal domain outcome, not an abort
    let again = g.remove_vertex_by_key(PEOPLE, &Value::U64(7)).unwrap();
    assert!(matches!(again, Err(morpheus::vertex::RemoveError::NotFound)));
}

#[test]
fn bootstrap_twice_is_idempotent() {
    let mut c = SchemaContainer::new();
    c.bootstrap(morpheus::id_list::ID_LIST_SCHEMA_ID, SchemaType::List);
    c.bootstrap(morpheus::id_list::TYPE_LIST_SCHEMA_ID, SchemaType::List);
    // a second bootstrap, even with another classification, is a no-op
    c.bootstrap(morpheus::id_list::ID_LIST_SCHEMA_ID, SchemaType::Vertex);
    assert_eq!(
        c.schema_type(morpheus::id_list::ID_LIST_SCHEMA_ID),
        Some(SchemaType::List)
    );
    // constructing the facade over an already-initialized catalog works
    // and keeps the catalog serviceable
    let mut g = Graph::new(c, Store::new());
    let mut vs = MorpheusSchema { id: PEOPLE, schema_type: SchemaType::Vertex };
    g.new_vertex_group(&mut vs).unwrap();
    g.new_vertex(PEOPLE, &person(1, 0)).unwrap();
}

#[test]
fn update_vertex_rewrites_data() {
    let mut g = fresh_graph();
    g.new_vertex(PEOPLE, &person(7, 1)).unwrap();
    g.update_vertex_by_key(PEOPLE, &Value::U64(7), |v: morpheus::vertex::Vertex| {
        let mut d = v.data.duplicate();
        d.insert(1, Value::U64(2));
        Some(morpheus::vertex::Vertex { id: v.id, schema: v.schema, data: d })
    })
    .unwrap();
    let back = g.get_vertex(PEOPLE, &Value::U64(7)).unwrap().unwrap();
    assert_eq!(back.data.get(1), Some(&Value::U64(2)));
    assert_eq!(back.data.get(KEY_FIELD_ID), Some(&Value::U64(7)));
}

#[test]
fn update_vertex_none_is_a_noop() {
    let mut g = fresh_graph();
    g.new_vertex(PEOPLE, &person(7, 1)).unwrap();
    g.update_vertex_by_key(PEOPLE, &Value::U64(7), |_v: morpheus::vertex::Vertex| None)
        .unwrap();
    let back = g.get_vertex(PEOPLE, &Value::U64(7)).unwrap().unwrap();
    assert_eq!(back.data.get(1), Some(&Value::U64(1)));
}

#[test]
fn encode_cell_key_is_deterministic() {
    let k1 = Cell::encode_cell_key(PEOPLE, &Value::U64(7));
    let k2 = Cell::encode_cell_key(PEOPLE, &Value::U64(7));
    assert_eq!(k1, k2);
    let k3 = Cell::encode_cell_key(PEOPLE, &Value::U64(8));
    assert_ne!(k1, k3);
    let b1 = Cell::encode_cell_key(PEOPLE, &Value::Bytes(vec![1, 2, 3]));
    let b2 = Cell::encode_cell_key(PEOPLE, &Value::Bytes(vec![1, 2, 3]));
    assert_eq!(b1, b2);
}

#[test]
fn direction_fields_are_distinct() {
    let i = EdgeDirection::Inbound.as_field();
    let o = EdgeDirection::Outbound.as_field();
    let u = EdgeDirection::Undirected.as_field();
    assert_ne!(i, o);
    assert_ne!(i, u);
    assert_ne!(o, u);
}
