//! The laws the layer guarantees, stated over the same spec functions
//! its contracts use.

use vstd::prelude::*;

use crate::edge::{Edge, EdgeAttributes, EdgeError, EdgeType};
use crate::graph::{edge_attrs_of, link_ok, ready_list};
use crate::id_list::{
    heads_independent, is_seg_of, list_view, seg_id, spec_list_head_of, valid_list_head,
    CHAIN_FUEL, SEG_LOWER_MAX,
};
use crate::store::{Cell, CellV};
use crate::types::{
    dm_strip_reserved, is_reserved_field, lemma_dm_strip_free, Id, SpecValue, INBOUND_KEY_ID,
    OUTBOUND_KEY_ID, UNDIRECTED_KEY_ID,
};
use crate::vertex::{
    conforming_data, lemma_vertex_data_roundtrip, spec_vertex_id, with_adjacency,
};
use crate::schema::SchemaType;

verus! {

/// Every adjacency-list head sits in the reserved identifier band and
/// can grow segments.
pub proof fn lemma_list_head_bounds(owner: Id, dir_field: u64, schema: u32)
    ensures
        ({
            let h = spec_list_head_of(owner, dir_field, schema);
            &&& 0x2000_0000_0000_0000u64 <= h.higher <= 0x2FFF_FFFF_FFFF_FFFFu64
            &&& h.lower <= SEG_LOWER_MAX
            &&& valid_list_head(h)
        }),
{
    assert(forall|x: u64|
        #[trigger] (x & 0x0FFF_FFFF_FFFF_FFFFu64) <= 0x0FFF_FFFF_FFFF_FFFFu64)
        by (bit_vector);
}

/// An identifier outside a head's high half is no segment of its chain.
pub proof fn lemma_not_a_segment(h: Id, id: Id)
    requires
        id.higher != h.higher,
    ensures
        !is_seg_of(h, CHAIN_FUEL as int, id),
{
    if is_seg_of(h, CHAIN_FUEL as int, id) {
        let k = choose|k: int| 0 <= k < CHAIN_FUEL && id == seg_id(h, k);
        assert(seg_id(h, k).higher == h.higher);
    }
}

/// Two list heads further apart than any chain is long never share a
/// segment identifier.
pub proof fn lemma_independent_not_a_segment(h: Id, g: Id)
    requires
        heads_independent(h, g),
        g.lower <= SEG_LOWER_MAX,
        h.lower <= SEG_LOWER_MAX,
    ensures
        !is_seg_of(g, CHAIN_FUEL as int, h),
{
    if is_seg_of(g, CHAIN_FUEL as int, h) {
        let k = choose|k: int| 0 <= k < CHAIN_FUEL && h == seg_id(g, k);
        assert(seg_id(g, k).lower == g.lower + k);
    }
}

/// Creating a vertex from conforming data and reading it back by the
/// same identity returns the input data exactly, with no adjacency
/// field visible.
pub proof fn lemma_create_then_read_roundtrip(
    pre: Map<Id, CellV>,
    schema_id: u32,
    d: Seq<(u64, SpecValue)>,
)
    requires
        conforming_data(d),
    ensures
        ({
            let vid = spec_vertex_id(schema_id, d);
            let post = pre.insert(vid, CellV { schema: schema_id, data: with_adjacency(d) });
            &&& post.contains_key(vid)
            &&& dm_strip_reserved(post[vid].data) == d
            &&& forall|i: int|
                0 <= i < dm_strip_reserved(post[vid].data).len() ==> !is_reserved_field(
                    #[trigger] dm_strip_reserved(post[vid].data)[i].0,
                )
        }),
{
    lemma_vertex_data_roundtrip(d);
    lemma_dm_strip_free(with_adjacency(d));
}

/// After a directed link of fresh endpoints, the source's outbound list
/// holds exactly the target, the target's inbound list holds exactly the
/// source, each resolving to the one edge between them, and an untouched
/// third list, the source's inbound one, stays empty.
pub proof fn lemma_directed_link_neighbourhood(
    pre: Map<Id, CellV>,
    post: Map<Id, CellV>,
    cat: Map<u32, SchemaType>,
    schema_id: u32,
    a: Id,
    b: Id,
    e: Edge,
)
    requires
        edge_attrs_of(cat, schema_id) == Some(
            EdgeAttributes { edge_type: EdgeType::Directed, has_body: false },
        ),
        link_ok(
            pre,
            post,
            EdgeAttributes { edge_type: EdgeType::Directed, has_body: false },
            schema_id,
            a,
            b,
            None,
            e,
        ),
        !pre.contains_key(spec_list_head_of(a, OUTBOUND_KEY_ID, schema_id)),
        !pre.contains_key(spec_list_head_of(b, INBOUND_KEY_ID, schema_id)),
        heads_independent(
            spec_list_head_of(a, OUTBOUND_KEY_ID, schema_id),
            spec_list_head_of(b, INBOUND_KEY_ID, schema_id),
        ),
        pre.contains_key(a) && pre[a].schema != schema_id,
        pre.contains_key(b) && pre[b].schema != schema_id,
        a.higher < 0x2000_0000_0000_0000u64 && a.higher >= 0x1000_0000_0000_0000u64,
        b.higher < 0x2000_0000_0000_0000u64 && b.higher >= 0x1000_0000_0000_0000u64,
        !pre.contains_key(spec_list_head_of(a, INBOUND_KEY_ID, schema_id)),
        heads_independent(
            spec_list_head_of(a, INBOUND_KEY_ID, schema_id),
            spec_list_head_of(a, OUTBOUND_KEY_ID, schema_id),
        ),
        heads_independent(
            spec_list_head_of(a, INBOUND_KEY_ID, schema_id),
            spec_list_head_of(b, INBOUND_KEY_ID, schema_id),
        ),
    ensures
        list_view(post, spec_list_head_of(a, OUTBOUND_KEY_ID, schema_id)) == Some(seq![b]),
        list_view(post, spec_list_head_of(b, INBOUND_KEY_ID, schema_id)) == Some(seq![a]),
        crate::edge::spec_resolve_member(post, a, false, schema_id, b) == Ok::<
            (Id, Id, bool),
            EdgeError,
        >((a, b, false)),
        crate::edge::spec_resolve_member(post, b, true, schema_id, a) == Ok::<
            (Id, Id, bool),
            EdgeError,
        >((a, b, false)),
        list_view(post, spec_list_head_of(a, INBOUND_KEY_ID, schema_id)) == Some(
            Seq::<Id>::empty(),
        ),
{
    let h1 = spec_list_head_of(a, OUTBOUND_KEY_ID, schema_id);
    let h2 = spec_list_head_of(b, INBOUND_KEY_ID, schema_id);
    let h3 = spec_list_head_of(a, INBOUND_KEY_ID, schema_id);
    lemma_list_head_bounds(a, OUTBOUND_KEY_ID, schema_id);
    lemma_list_head_bounds(b, INBOUND_KEY_ID, schema_id);
    lemma_list_head_bounds(a, INBOUND_KEY_ID, schema_id);
    assert(ready_list(pre, h1));
    assert(ready_list(pre, h2));
    assert(Seq::<Id>::empty().push(b) =~= seq![b]);
    assert(Seq::<Id>::empty().push(a) =~= seq![a]);
    lemma_not_a_segment(h1, a);
    lemma_not_a_segment(h2, a);
    lemma_not_a_segment(h1, b);
    lemma_not_a_segment(h2, b);
    assert(a != Id::spec_unit() && b != Id::spec_unit());
    assert(post.contains_key(a) && post[a] == pre[a]);
    assert(post.contains_key(b) && post[b] == pre[b]);
    lemma_independent_not_a_segment(h3, h1);
    lemma_independent_not_a_segment(h3, h2);
    assert(h3 != Id::spec_unit());
    assert(!post.contains_key(h3));
}

/// After an undirected link of fresh endpoints, both endpoints'
/// undirected lists hold exactly the other endpoint, each resolving to
/// an edge referencing it.
pub proof fn lemma_undirected_link_neighbourhoods(
    pre: Map<Id, CellV>,
    post: Map<Id, CellV>,
    cat: Map<u32, SchemaType>,
    schema_id: u32,
    a: Id,
    b: Id,
    e: Edge,
)
    requires
        edge_attrs_of(cat, schema_id) == Some(
            EdgeAttributes { edge_type: EdgeType::Undirected, has_body: false },
        ),
        link_ok(
            pre,
            post,
            EdgeAttributes { edge_type: EdgeType::Undirected, has_body: false },
            schema_id,
            a,
            b,
            None,
            e,
        ),
        !pre.contains_key(spec_list_head_of(a, UNDIRECTED_KEY_ID, schema_id)),
        !pre.contains_key(spec_list_head_of(b, UNDIRECTED_KEY_ID, schema_id)),
        heads_independent(
            spec_list_head_of(a, UNDIRECTED_KEY_ID, schema_id),
            spec_list_head_of(b, UNDIRECTED_KEY_ID, schema_id),
        ),
        pre.contains_key(a) && pre[a].schema != schema_id,
        pre.contains_key(b) && pre[b].schema != schema_id,
        a.higher < 0x2000_0000_0000_0000u64 && a.higher >= 0x1000_0000_0000_0000u64,
        b.higher < 0x2000_0000_0000_0000u64 && b.higher >= 0x1000_0000_0000_0000u64,
    ensures
        list_view(post, spec_list_head_of(a, UNDIRECTED_KEY_ID, schema_id)) == Some(seq![b]),
        list_view(post, spec_list_head_of(b, UNDIRECTED_KEY_ID, schema_id)) == Some(seq![a]),
        crate::edge::spec_resolve_member(post, a, false, schema_id, b) == Ok::<
            (Id, Id, bool),
            EdgeError,
        >((a, b, false)),
        crate::edge::spec_resolve_member(post, b, false, schema_id, a) == Ok::<
            (Id, Id, bool),
            EdgeError,
        >((b, a, false)),
{
    let h1 = spec_list_head_of(a, UNDIRECTED_KEY_ID, schema_id);
    let h2 = spec_list_head_of(b, UNDIRECTED_KEY_ID, schema_id);
    lemma_list_head_bounds(a, UNDIRECTED_KEY_ID, schema_id);
    lemma_list_head_bounds(b, UNDIRECTED_KEY_ID, schema_id);
    assert(ready_list(pre, h1));
    assert(ready_list(pre, h2));
    assert(Seq::<Id>::empty().push(b) =~= seq![b]);
    assert(Seq::<Id>::empty().push(a) =~= seq![a]);
    lemma_not_a_segment(h1, a);
    lemma_not_a_segment(h2, a);
    lemma_not_a_segment(h1, b);
    lemma_not_a_segment(h2, b);
    assert(a != Id::spec_unit() && b != Id::spec_unit());
    assert(post.contains_key(a) && post[a] == pre[a]);
    assert(post.contains_key(b) && post[b] == pre[b]);
}

/// Appending two distinct members absent from a list, in either order
/// one transaction apart, loses neither: the final list holds each of
/// them exactly once.
pub proof fn lemma_appends_no_lost_update(s: Seq<Id>, x: Id, y: Id)
    requires
        x != y,
        !s.contains(x),
        !s.contains(y),
    ensures
        s.push(x).push(y).contains(x),
        s.push(x).push(y).contains(y),
        forall|i: int, j: int|
            0 <= i < j < s.push(x).push(y).len() && (#[trigger] s.push(x).push(y)[i] == x
                || s.push(x).push(y)[i] == y) ==> s.push(x).push(y)[i] != #[trigger] s.push(
                x,
            ).push(y)[j],
{
    let t = s.push(x).push(y);
    assert(t[s.len() as int] == x);
    assert(t[s.len() as int + 1] == y);
    assert(forall|i: int| 0 <= i < s.len() ==> t[i] == s[i]);
    assert(forall|i: int| 0 <= i < s.len() ==> t[i] != x && t[i] != y);
}

/// A list built by successive appends reads back as the starting
/// members followed by every appended member, in append order, however
/// many segments that spans: each step is one snapshot satisfying the
/// append contract for the next member.
pub proof fn lemma_appends_accumulate(
    states: Seq<Map<Id, CellV>>,
    h: Id,
    start: Seq<Id>,
    xs: Seq<Id>,
)
    requires
        states.len() == xs.len() + 1,
        list_view(states[0], h) == Some(start),
        forall|k: int|
            0 <= k < xs.len() ==> #[trigger] list_view(states[k + 1], h) == Some(
                list_view(states[k], h).unwrap().push(xs[k]),
            ),
    ensures
        list_view(states[states.len() - 1], h) == Some(start + xs),
    decreases xs.len(),
{
    if xs.len() == 0 {
        assert(start + xs =~= start);
    } else {
        lemma_appends_accumulate(states.drop_last(), h, start, xs.drop_last());
        assert(states.drop_last()[states.drop_last().len() - 1] == states[states.len() - 2]);
        assert(list_view(states[states.len() - 2], h) == Some(start + xs.drop_last()));
        assert(list_view(states[xs.len() - 1 + 1], h) == Some(
            list_view(states[xs.len() - 1], h).unwrap().push(xs[xs.len() - 1]),
        ));
        assert((start + xs.drop_last()).push(xs[xs.len() - 1]) =~= start + xs);
    }
}

/// Removing a vertex and then reading the same identity finds nothing;
/// it never surfaces a storage error.
pub proof fn lemma_remove_then_get_not_found(v: Map<Id, CellV>, schema_id: u32, key: SpecValue)
    ensures
        !v.remove(Cell::spec_encode_cell_key(schema_id, key)).contains_key(
            Cell::spec_encode_cell_key(schema_id, key),
        ),
{
}

} // verus!
