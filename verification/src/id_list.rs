//! The distributed chained id list backing adjacency.
//!
//! One list is keyed by (owner vertex, direction field, edge schema); that
//! key is mapped deterministically to the head segment's cell identifier.
//! A segment cell holds at most `SEGMENT_CAPACITY` members and the
//! identifier of its successor segment, the null identifier at the tail.

use vstd::prelude::*;

use crate::store::{Cell, CellV, Store};
use crate::types::{
    dm_get, rot5, rot5_exec, DataMap, Id, SpecValue, Value, LIST_FIELD_ID, NEXT_FIELD_ID,
};

verus! {

/// Reserved schema id of the generic id-list segment cells.
pub const ID_LIST_SCHEMA_ID: u32 = 150;

/// Reserved schema id of the type-qualified list-of-lists.
pub const TYPE_LIST_SCHEMA_ID: u32 = 151;

/// How many members one segment cell holds at most.
pub const SEGMENT_CAPACITY: usize = 4;

/// How many members one list holds at most. The bound is a machine
/// limit, not a policy: reading a list materializes its members in one
/// vector.
pub const MAX_LIST_MEMBERS: usize = 0x1000_0000;

/// How many segments the longest list spans.
pub const MAX_LIST_SEGMENTS: usize = 0x0400_0000;

/// Enough fuel to walk any chain the library ever writes.
pub const CHAIN_FUEL: usize = 0x0400_0004;

/// Head identifiers keep this many low bits free so that successor
/// segment identifiers never wrap.
pub const SEG_LOWER_MAX: u64 = 0x0FFF_FFFF_FFFF_FFFF;

/// Why a list operation failed at the domain level.
#[derive(Clone, Copy, PartialEq, Eq, Structural, Debug)]
pub enum IdListError {
    Corrupted,
    MemberNotFound,
    ListFull,
}

/// A head identifier the chain code can grow segments from.
pub open spec fn valid_list_head(h: Id) -> bool {
    h.higher != 0 && h.lower <= SEG_LOWER_MAX
}

/// The identifier of segment `k` of the chain headed at `h0`.
pub open spec fn seg_id(h0: Id, k: int) -> Id {
    Id { higher: h0.higher, lower: (h0.lower + k) as u64 }
}

/// Is `id` one of the first `n` segment identifiers of the chain at `h0`?
pub open spec fn is_seg_of(h0: Id, n: int, id: Id) -> bool {
    exists|k: int| 0 <= k < n && id == seg_id(h0, k)
}

/// Exec mirror of `seg_id`.
pub fn seg_id_exec(h0: Id, k: usize) -> (r: Id)
    requires
        h0.lower <= SEG_LOWER_MAX,
        k <= CHAIN_FUEL,
    ensures
        r == seg_id(h0, k as int),
{
    Id { higher: h0.higher, lower: h0.lower + k as u64 }
}

/// The head identifier of the adjacency list keyed by (owner vertex,
/// direction field, edge schema). Deterministic, and in an identifier
/// space of its own so that segments never collide with entity cells.
pub open spec fn spec_list_head_of(owner: Id, dir_field: u64, schema: u32) -> Id {
    Id {
        higher: (0x2000_0000_0000_0000u64 + ((owner.higher ^ rot5(owner.lower) ^ dir_field)
            & 0x0FFF_FFFF_FFFF_FFFFu64)) as u64,
        lower: (owner.lower ^ rot5(owner.higher ^ dir_field) ^ ((schema as u64) << 13u64))
            & 0x0FFF_FFFF_FFFF_FFFFu64,
    }
}

/// Exec mirror of `spec_list_head_of`.
pub fn list_head_of(owner: Id, dir_field: u64, schema: u32) -> (r: Id)
    ensures
        r == spec_list_head_of(owner, dir_field, schema),
        valid_list_head(r),
        0x2000_0000_0000_0000u64 <= r.higher <= 0x2FFF_FFFF_FFFF_FFFFu64,
{
    let hmix = (owner.higher ^ rot5_exec(owner.lower) ^ dir_field) & 0x0FFF_FFFF_FFFF_FFFFu64;
    let lmix = (owner.lower ^ rot5_exec(owner.higher ^ dir_field) ^ ((schema as u64) << 13u64))
        & 0x0FFF_FFFF_FFFF_FFFFu64;
    proof {
        assert(forall|x: u64|
            #[trigger] (x & 0x0FFF_FFFF_FFFF_FFFFu64) <= 0x0FFF_FFFF_FFFF_FFFFu64)
            by (bit_vector);
    }
    Id { higher: 0x2000_0000_0000_0000u64 + hmix, lower: lmix }
}

/// The segment identifier spaces of `a` and `b` cannot overlap: they hang
/// under different high halves or are further apart than any chain is long.
pub open spec fn heads_independent(a: Id, b: Id) -> bool {
    ||| a.higher != b.higher
    ||| a.lower + CHAIN_FUEL < b.lower
    ||| b.lower + CHAIN_FUEL < a.lower
}

/// The chain at `h` is laid out exactly as `write_chain` leaves it: the
/// members of `m` split into capacity-sized chunks across consecutive
/// segment identifiers.
pub open spec fn canonical_chain(v: Map<Id, CellV>, h: Id, m: Seq<Id>) -> bool {
    &&& m.len() <= MAX_LIST_MEMBERS
    &&& forall|j: int|
        0 <= j < nsegs_of(m.len() as int) ==> v.contains_key(#[trigger] seg_id(h, j))
            && seg_parse(v[seg_id(h, j)]) == Some(
            (seg_next_of(h, nsegs_of(m.len() as int), j), chunk_of(m, j)),
        )
}

/// The list at `h` is either never materialized or canonically laid out.
pub open spec fn canonical_list(v: Map<Id, CellV>, h: Id) -> bool {
    !v.contains_key(h) || exists|m: Seq<Id>| canonical_chain(v, h, m)
}

/// A canonical chain reads back as exactly its members.
pub proof fn lemma_canonical_view(v: Map<Id, CellV>, h: Id, m: Seq<Id>)
    requires
        valid_list_head(h),
        canonical_chain(v, h, m),
    ensures
        chain_members(v, h, CHAIN_FUEL as nat) == Some(m),
        list_view(v, h) == Some(m),
        v.contains_key(h),
    decreases 0int,
{
    let n = nsegs_of(m.len() as int);
    lemma_chain_from_segments(v, h, m, n, 0);
    assert(seg_id(h, 0) == h);
    assert(m.subrange(0, m.len() as int) =~= m);
    assert(n <= MAX_LIST_SEGMENTS);
    lemma_chain_fuel_mono(v, h, (n + 1) as nat, CHAIN_FUEL as nat);
}

/// A write that only touches `hb`'s segment space leaves the canonical
/// list at an independent head `ha` untouched.
pub proof fn lemma_list_preserved(
    pre: Map<Id, CellV>,
    post: Map<Id, CellV>,
    ha: Id,
    hb: Id,
    n: int,
)
    requires
        valid_list_head(ha),
        valid_list_head(hb),
        canonical_list(pre, ha),
        preserved_outside(pre, post, hb, n),
        0 <= n <= CHAIN_FUEL,
        heads_independent(ha, hb),
    ensures
        canonical_list(post, ha),
        list_view(post, ha) == list_view(pre, ha),
{
    assert forall|k: int, j: int|
        0 <= k <= CHAIN_FUEL && 0 <= j < n implies #[trigger] seg_id(ha, k) != #[trigger] seg_id(
        hb,
        j,
    ) by {
        if ha.higher == hb.higher {
            assert(seg_id(ha, k).lower == ha.lower + k);
            assert(seg_id(hb, j).lower == hb.lower + j);
        }
    }
    if !pre.contains_key(ha) {
        assert(!is_seg_of(hb, n, ha)) by {
            assert(seg_id(ha, 0) == ha);
            if is_seg_of(hb, n, ha) {
                let j = choose|j: int| 0 <= j < n && ha == seg_id(hb, j);
                assert(seg_id(ha, 0) != seg_id(hb, j));
            }
        }
        assert(post.contains_key(ha) <==> pre.contains_key(ha));
        assert(list_view(post, ha) == Some(Seq::<Id>::empty()));
    } else {
        let m = choose|m: Seq<Id>| canonical_chain(pre, ha, m);
        lemma_canonical_view(pre, ha, m);
        assert forall|j2: int| 0 <= j2 < nsegs_of(m.len() as int) implies post.contains_key(
            #[trigger] seg_id(ha, j2),
        ) && post[seg_id(ha, j2)] == pre[seg_id(ha, j2)] by {
            assert(nsegs_of(m.len() as int) <= MAX_LIST_SEGMENTS);
            assert(!is_seg_of(hb, n, seg_id(ha, j2))) by {
                if is_seg_of(hb, n, seg_id(ha, j2)) {
                    let j = choose|j: int| 0 <= j < n && seg_id(ha, j2) == seg_id(hb, j);
                    assert(seg_id(ha, j2) != seg_id(hb, j));
                }
            }
            assert(post.contains_key(seg_id(ha, j2)) <==> pre.contains_key(seg_id(ha, j2)));
        }
        assert(canonical_chain(post, ha, m));
        lemma_canonical_view(post, ha, m);
    }
}

/// Writing one cell under a different high half leaves the canonical
/// list at `ha` untouched.
pub proof fn lemma_list_preserved_insert(
    pre: Map<Id, CellV>,
    ha: Id,
    cid: Id,
    c: CellV,
)
    requires
        valid_list_head(ha),
        canonical_list(pre, ha),
        cid.higher != ha.higher,
    ensures
        canonical_list(pre.insert(cid, c), ha),
        list_view(pre.insert(cid, c), ha) == list_view(pre, ha),
{
    let post = pre.insert(cid, c);
    assert(forall|k: int| (#[trigger] seg_id(ha, k)).higher == ha.higher);
    if !pre.contains_key(ha) {
        assert(seg_id(ha, 0) == ha);
        assert(ha != cid);
        assert(!post.contains_key(ha));
    } else {
        let m = choose|m: Seq<Id>| canonical_chain(pre, ha, m);
        lemma_canonical_view(pre, ha, m);
        assert forall|j2: int| 0 <= j2 < nsegs_of(m.len() as int) implies post.contains_key(
            #[trigger] seg_id(ha, j2),
        ) && post[seg_id(ha, j2)] == pre[seg_id(ha, j2)] by {
            assert(seg_id(ha, j2) != cid);
        }
        assert(canonical_chain(post, ha, m));
        lemma_canonical_view(post, ha, m);
    }
}

/// Everything outside the first `n` segment identifiers of the chain at
/// `h0` is the same in `post` as in `pre`.
pub open spec fn preserved_outside(
    pre: Map<Id, CellV>,
    post: Map<Id, CellV>,
    h0: Id,
    n: int,
) -> bool {
    forall|id: Id|
        !is_seg_of(h0, n, id) ==> ((#[trigger] post.contains_key(id) <==> pre.contains_key(id))
            && (pre.contains_key(id) ==> post[id] == pre[id]))
}

/// A frame over a small segment space is also one over a larger space.
pub proof fn lemma_preserved_mono(
    pre: Map<Id, CellV>,
    post: Map<Id, CellV>,
    h0: Id,
    n1: int,
    n2: int,
)
    requires
        preserved_outside(pre, post, h0, n1),
        n1 <= n2,
    ensures
        preserved_outside(pre, post, h0, n2),
{
    assert forall|id: Id| !is_seg_of(h0, n2, id) implies ((#[trigger] post.contains_key(id)
        <==> pre.contains_key(id)) && (pre.contains_key(id) ==> post[id] == pre[id])) by {
        if is_seg_of(h0, n1, id) {
            let k = choose|k: int| 0 <= k < n1 && id == seg_id(h0, k);
            assert(is_seg_of(h0, n2, id));
        }
        assert(!is_seg_of(h0, n1, id));
        assert(post.contains_key(id) <==> pre.contains_key(id));
    }
}

/// What a segment cell says: its successor and its members; `None` when
/// the cell is not a well-formed segment.
pub open spec fn seg_parse(c: CellV) -> Option<(Id, Seq<Id>)> {
    if c.schema != ID_LIST_SCHEMA_ID {
        None
    } else {
        match dm_get(c.data, NEXT_FIELD_ID) {
            Some(SpecValue::Id(next)) => match dm_get(c.data, LIST_FIELD_ID) {
                Some(SpecValue::Ids(members)) => Some((next, members)),
                _ => None,
            },
            _ => None,
        }
    }
}

/// The members of the chain headed at `h`, read by following successor
/// pointers with the given fuel; `None` on any corruption or when the
/// fuel runs out.
pub open spec fn chain_members(v: Map<Id, CellV>, h: Id, fuel: nat) -> Option<Seq<Id>>
    decreases fuel,
{
    if h.spec_is_unit() {
        Some(Seq::empty())
    } else if fuel == 0 {
        None
    } else if !v.contains_key(h) {
        None
    } else {
        match seg_parse(v[h]) {
            None => None,
            Some(pair) => match chain_members(v, pair.0, (fuel - 1) as nat) {
                None => None,
                Some(rest) => Some(pair.1 + rest),
            },
        }
    }
}

/// The members of the list headed at `h` in snapshot `v`: an absent head
/// is the never-materialized empty list; otherwise the chain walk, or
/// `None` when the chain is corrupt.
pub open spec fn list_view(v: Map<Id, CellV>, h: Id) -> Option<Seq<Id>> {
    if !v.contains_key(h) {
        Some(Seq::empty())
    } else {
        chain_members(v, h, CHAIN_FUEL as nat)
    }
}

/// How many segments a list of `len` members is written across.
pub open spec fn nsegs_of(len: int) -> int {
    if len <= 0 {
        1
    } else {
        (len + SEGMENT_CAPACITY - 1) / (SEGMENT_CAPACITY as int)
    }
}

/// The members segment `k` carries.
pub open spec fn chunk_of(m: Seq<Id>, k: int) -> Seq<Id> {
    m.subrange(
        k * SEGMENT_CAPACITY,
        if (k + 1) * SEGMENT_CAPACITY <= m.len() {
            (k + 1) * SEGMENT_CAPACITY
        } else {
            m.len() as int
        },
    )
}

/// The successor pointer segment `k` carries in a chain of `n` segments.
pub open spec fn seg_next_of(h0: Id, n: int, k: int) -> Id {
    if k + 1 < n {
        seg_id(h0, k + 1)
    } else {
        Id::spec_unit()
    }
}

/// More fuel never changes a successful walk.
pub proof fn lemma_chain_fuel_mono(v: Map<Id, CellV>, h: Id, f1: nat, f2: nat)
    requires
        f1 <= f2,
        chain_members(v, h, f1) is Some,
    ensures
        chain_members(v, h, f2) == chain_members(v, h, f1),
    decreases f1,
{
    if !h.spec_is_unit() {
        let pair = seg_parse(v[h]).unwrap();
        lemma_chain_fuel_mono(v, pair.0, (f1 - 1) as nat, (f2 - 1) as nat);
    }
}

/// A snapshot whose cells from segment `k` on parse as the chunks of `m`
/// chains them together into exactly the tail of `m`.
pub proof fn lemma_chain_from_segments(v: Map<Id, CellV>, h0: Id, m: Seq<Id>, n: int, k: int)
    requires
        valid_list_head(h0),
        m.len() <= MAX_LIST_MEMBERS,
        n == nsegs_of(m.len() as int),
        0 <= k < n,
        forall|j: int|
            k <= j < n ==> v.contains_key(#[trigger] seg_id(h0, j)) && seg_parse(
                v[seg_id(h0, j)],
            ) == Some((seg_next_of(h0, n, j), chunk_of(m, j))),
    ensures
        chain_members(v, seg_id(h0, k), (n - k + 1) as nat) == Some(
            m.subrange(k * SEGMENT_CAPACITY, m.len() as int),
        ),
    decreases n - k,
{
    let h = seg_id(h0, k);
    assert(!h.spec_is_unit());
    assert(v.contains_key(h));
    assert(seg_parse(v[h]) == Some((seg_next_of(h0, n, k), chunk_of(m, k))));
    if k + 1 < n {
        lemma_chain_from_segments(v, h0, m, n, k + 1);
        assert(chunk_of(m, k) + m.subrange((k + 1) * SEGMENT_CAPACITY, m.len() as int) =~= m
            .subrange(k * SEGMENT_CAPACITY, m.len() as int));
    } else {
        assert(seg_next_of(h0, n, k).spec_is_unit());
        assert(chain_members(v, seg_next_of(h0, n, k), (n - k) as nat) == Some(
            Seq::<Id>::empty(),
        ));
        assert(chunk_of(m, k) + Seq::<Id>::empty() =~= m.subrange(
            k * SEGMENT_CAPACITY,
            m.len() as int,
        ));
    }
}

fn copy_id_range(v: &Vec<Id>, a: usize, b: usize) -> (r: Vec<Id>)
    requires
        a <= b <= v@.len(),
    ensures
        r@ == v@.subrange(a as int, b as int),
{
    let mut out: Vec<Id> = Vec::new();
    let mut i: usize = a;
    while i < b
        invariant
            a <= i <= b <= v@.len(),
            out@ == v@.subrange(a as int, i as int),
        decreases b - i,
    {
        out.push(v[i]);
        proof {
            assert(out@ =~= v@.subrange(a as int, i + 1 as int));
        }
        i += 1;
    }
    out
}

/// Build one segment cell.
fn make_segment(id: Id, next: Id, chunk: Vec<Id>) -> (r: Cell)
    ensures
        r.id == id,
        seg_parse(r@) == Some((next, chunk@)),
{
    let ghost chunk_v = chunk@;
    let mut data = DataMap::new();
    proof {
        assert(crate::types::dm_remove_key(data@, NEXT_FIELD_ID) =~= Seq::<(
            u64,
            SpecValue,
        )>::empty());
    }
    data.insert(NEXT_FIELD_ID, Value::Id(next));
    proof {
        assert(data@ =~= seq![(NEXT_FIELD_ID, SpecValue::Id(next))]);
        assert(data@.skip(1) =~= Seq::<(u64, SpecValue)>::empty());
        assert(crate::types::dm_remove_key(data@.skip(1), LIST_FIELD_ID) =~= Seq::<(
            u64,
            SpecValue,
        )>::empty());
        assert(crate::types::dm_remove_key(data@, LIST_FIELD_ID) =~= data@);
    }
    data.insert(LIST_FIELD_ID, Value::Ids(chunk));
    let r = Cell { id, schema: ID_LIST_SCHEMA_ID, data };
    proof {
        let s = r@.data;
        assert(s =~= seq![
            (NEXT_FIELD_ID, SpecValue::Id(next)),
            (LIST_FIELD_ID, SpecValue::Ids(chunk_v)),
        ]);
        assert(s[0].0 == NEXT_FIELD_ID);
        assert(dm_get(s, NEXT_FIELD_ID) == Some(SpecValue::Id(next)));
        assert(s.skip(1)[0].0 == LIST_FIELD_ID);
        assert(dm_get(s, LIST_FIELD_ID) == dm_get(s.skip(1), LIST_FIELD_ID));
        assert(dm_get(s, LIST_FIELD_ID) == Some(SpecValue::Ids(chunk_v)));
    }
    r
}

/// Rewrite the whole chain at `h0` so that it holds exactly `members`.
/// Cells outside the chain's segment identifiers are untouched.
#[verifier::loop_isolation(false)]
pub fn write_chain(store: &mut Store, h0: Id, members: Vec<Id>)
    requires
        old(store).wf(),
        valid_list_head(h0),
        members@.len() <= MAX_LIST_MEMBERS,
    ensures
        final(store).wf(),
        chain_members(final(store)@, h0, CHAIN_FUEL as nat) == Some(members@),
        list_view(final(store)@, h0) == Some(members@),
        preserved_outside(old(store)@, final(store)@, h0, nsegs_of(members@.len() as int)),
        canonical_chain(final(store)@, h0, members@),
{
    let len = members.len();
    let n: usize = if len == 0 {
        1
    } else {
        (len + SEGMENT_CAPACITY - 1) / SEGMENT_CAPACITY
    };
    proof {
        assert(n == nsegs_of(len as int));
        assert(n <= MAX_LIST_SEGMENTS);
        assert forall|id: Id| !is_seg_of(h0, n as int, id) implies ((
        #[trigger] store@.contains_key(id) <==> old(store)@.contains_key(id)) && (old(
            store,
        )@.contains_key(id) ==> store@[id] == old(store)@[id])) by {}
    }
    let mut k: usize = n;
    while k > 0
        invariant
            k <= n,
            n == nsegs_of(members@.len() as int),
            n <= MAX_LIST_SEGMENTS,
            len == members@.len(),
            members@.len() <= MAX_LIST_MEMBERS,
            valid_list_head(h0),
            store.wf(),
            preserved_outside(old(store)@, store@, h0, n as int),
            forall|j: int|
                k <= j < n ==> store@.contains_key(#[trigger] seg_id(h0, j)) && seg_parse(
                    store@[seg_id(h0, j)],
                ) == Some((seg_next_of(h0, n as int, j), chunk_of(members@, j))),
        decreases k,
    {
        k -= 1;
        let lo = k * SEGMENT_CAPACITY;
        let hi = if len >= SEGMENT_CAPACITY && k <= (len - SEGMENT_CAPACITY) / SEGMENT_CAPACITY {
            (k + 1) * SEGMENT_CAPACITY
        } else {
            len
        };
        proof {
            assert(lo <= hi <= len);
        }
        let chunk = copy_id_range(&members, lo, hi);
        let next = if k + 1 < n {
            seg_id_exec(h0, k + 1)
        } else {
            Id::unit_id()
        };
        let sid = seg_id_exec(h0, k);
        let cell = make_segment(sid, next, chunk);
        proof {
            assert(chunk@ =~= chunk_of(members@, k as int));
            assert(next == seg_next_of(h0, n as int, k as int));
            assert(is_seg_of(h0, n as int, sid));
        }
        let ghost pre = store@;
        store.write(cell);
        proof {
            assert(forall|j: int|
                k <= j < n ==> seg_id(h0, j).lower == h0.lower + j);
            assert(forall|j: int|
                k < j < n ==> seg_id(h0, j) != seg_id(h0, k as int));
            assert forall|id: Id| !is_seg_of(h0, n as int, id) implies ((
            #[trigger] store@.contains_key(id) <==> old(store)@.contains_key(id)) && (old(
                store,
            )@.contains_key(id) ==> store@[id] == old(store)@[id])) by {
                assert(is_seg_of(h0, n as int, sid));
                assert(id != sid);
                assert(pre.contains_key(id) <==> old(store)@.contains_key(id));
            }
        }
    }
    proof {
        lemma_chain_from_segments(store@, h0, members@, n as int, 0);
        assert(seg_id(h0, 0) == h0);
        assert(members@.subrange(0, members@.len() as int) =~= members@);
        lemma_chain_fuel_mono(store@, h0, (n + 1) as nat, CHAIN_FUEL as nat);
        assert(store@.contains_key(h0));
    }
}

/// Read the full ordered member sequence of the list headed at `head`.
#[verifier::loop_isolation(false)]
pub fn id_list_all(store: &Store, head: Id) -> (r: Result<Vec<Id>, IdListError>)
    requires
        store.wf(),
        !head.spec_is_unit(),
    ensures
        match r {
            Ok(ids) => list_view(store@, head) == Some(ids@),
            Err(e) => list_view(store@, head) is None && e == IdListError::Corrupted,
        },
{
    if store.read(head).is_none() {
        proof {
            assert(list_view(store@, head) == Some(Seq::<Id>::empty()));
        }
        let empty: Vec<Id> = Vec::new();
        proof {
            assert(empty@ =~= Seq::<Id>::empty());
        }
        return Ok(empty);
    }
    let mut acc: Vec<Id> = Vec::new();
    let mut cur: Id = head;
    let mut fuel: usize = CHAIN_FUEL;
    proof {
        assert(acc@ + chain_members(store@, head, CHAIN_FUEL as nat).unwrap() =~= chain_members(
            store@,
            head,
            CHAIN_FUEL as nat,
        ).unwrap());
    }
    while !cur.is_unit()
        invariant
            store.wf(),
            fuel <= CHAIN_FUEL,
            (match chain_members(store@, cur, fuel as nat) {
                None => chain_members(store@, head, CHAIN_FUEL as nat) is None,
                Some(rest) => chain_members(store@, head, CHAIN_FUEL as nat) == Some(acc@ + rest),
            }),
        decreases fuel,
    {
        if fuel == 0 {
            proof {
                assert(chain_members(store@, cur, fuel as nat) is None);
                assert(store@.contains_key(head));
                assert(list_view(store@, head) is None);
            }
            return Err(IdListError::Corrupted);
        }
        let cell = match store.read(cur) {
            Some(c) => c,
            None => {
                proof {
                    assert(chain_members(store@, cur, fuel as nat) is None);
                    assert(store@.contains_key(head));
                    assert(list_view(store@, head) is None);
                }
                return Err(IdListError::Corrupted);
            },
        };
        let parsed = match parse_segment(cell) {
            Some(p) => p,
            None => {
                proof {
                    assert(seg_parse(store@[cur]) is None);
                    assert(chain_members(store@, cur, fuel as nat) is None);
                    assert(store@.contains_key(head));
                    assert(list_view(store@, head) is None);
                }
                return Err(IdListError::Corrupted);
            },
        };
        let (next, mut chunk) = parsed;
        let ghost pre_acc = acc@;
        let ghost chunk_v = chunk@;
        acc.append(&mut chunk);
        proof {
            assert(acc@ == pre_acc + chunk_v);
            if chain_members(store@, next, (fuel - 1) as nat) is Some {
                let rest = chain_members(store@, next, (fuel - 1) as nat).unwrap();
                assert((pre_acc + chunk_v) + rest =~= pre_acc + (chunk_v + rest));
            }
        }
        cur = next;
        fuel -= 1;
    }
    proof {
        assert(chain_members(store@, cur, fuel as nat) == Some(Seq::<Id>::empty()));
        assert(acc@ + Seq::<Id>::empty() =~= acc@);
    }
    Ok(acc)
}

/// Parse one segment cell; exec mirror of `seg_parse`.
fn parse_segment(c: &Cell) -> (r: Option<(Id, Vec<Id>)>)
    ensures
        match r {
            Some(p) => seg_parse(c@) == Some((p.0, p.1@)),
            None => seg_parse(c@) is None,
        },
{
    if c.schema != ID_LIST_SCHEMA_ID {
        return None;
    }
    let next: Id = match c.data.get(NEXT_FIELD_ID) {
        Some(Value::Id(next)) => *next,
        Some(_) => {
            return None;
        },
        None => {
            proof {
                crate::types::lemma_dm_get_contains(c@.data, NEXT_FIELD_ID);
            }
            return None;
        },
    };
    let members: Vec<Id> = match c.data.get(LIST_FIELD_ID) {
        Some(Value::Ids(ids)) => crate::types::copy_ids(ids),
        Some(_) => {
            return None;
        },
        None => {
            proof {
                crate::types::lemma_dm_get_contains(c@.data, LIST_FIELD_ID);
            }
            return None;
        },
    };
    Some((next, members))
}

/// Append `member` at the tail of the list headed at `head`, materializing
/// or extending segments as needed. Keeps every other cell unchanged.
#[verifier::loop_isolation(false)]
pub fn id_list_append(store: &mut Store, head: Id, member: Id) -> (r: Result<(), IdListError>)
    requires
        old(store).wf(),
        valid_list_head(head),
    ensures
        final(store).wf(),
        match r {
            Ok(()) => {
                &&& list_view(old(store)@, head) is Some
                &&& list_view(old(store)@, head).unwrap().len() < MAX_LIST_MEMBERS
                &&& list_view(final(store)@, head) == Some(
                    list_view(old(store)@, head).unwrap().push(member),
                )
                &&& canonical_list(final(store)@, head)
                &&& preserved_outside(
                    old(store)@,
                    final(store)@,
                    head,
                    nsegs_of(list_view(old(store)@, head).unwrap().len() as int + 1),
                )
            },
            Err(IdListError::Corrupted) => list_view(old(store)@, head) is None && final(store)@ == old(store)@,
            Err(IdListError::ListFull) => list_view(old(store)@, head) is Some && list_view(
                old(store)@,
                head,
            ).unwrap().len() >= MAX_LIST_MEMBERS && final(store)@ == old(store)@,
            Err(IdListError::MemberNotFound) => false,
        },
{
    let mut members = match id_list_all(store, head) {
        Ok(ids) => ids,
        Err(_) => {
            return Err(IdListError::Corrupted);
        },
    };
    if members.len() >= MAX_LIST_MEMBERS {
        return Err(IdListError::ListFull);
    }
    members.push(member);
    let ghost mv = members@;
    write_chain(store, head, members);
    proof {
        assert(canonical_chain(store@, head, mv));
        assert(canonical_list(store@, head));
    }
    proof {
        assert(list_view(store@, head) == Some(
            list_view(old(store)@, head).unwrap().push(member),
        ));
        let newlen = list_view(old(store)@, head).unwrap().len() as int + 1;
        assert(mv.len() as int == newlen);
        assert(preserved_outside(old(store)@, store@, head, nsegs_of(newlen)));
    }
    Ok(())
}

/// Remove the first occurrence of `member` from the list headed at `head`;
/// the remaining members keep their order. Reports `MemberNotFound` when
/// it is absent, leaving the store unchanged.
#[verifier::loop_isolation(false)]
pub fn id_list_remove(store: &mut Store, head: Id, member: Id) -> (r: Result<(), IdListError>)
    requires
        old(store).wf(),
        valid_list_head(head),
    ensures
        final(store).wf(),
        match r {
            Ok(()) => {
                &&& list_view(old(store)@, head) is Some
                &&& list_view(old(store)@, head).unwrap().contains(member)
                &&& list_view(final(store)@, head) == Some(
                    remove_first(list_view(old(store)@, head).unwrap(), member),
                )
                &&& preserved_outside(
                    old(store)@,
                    final(store)@,
                    head,
                    nsegs_of(list_view(old(store)@, head).unwrap().len() as int),
                )
            },
            Err(IdListError::Corrupted) => (list_view(old(store)@, head) is None || list_view(
                old(store)@,
                head,
            ).unwrap().len() > MAX_LIST_MEMBERS) && final(store)@ == old(store)@,
            Err(IdListError::MemberNotFound) => list_view(old(store)@, head) is Some
                && !list_view(old(store)@, head).unwrap().contains(member) && final(store)@
                == old(store)@,
            Err(IdListError::ListFull) => false,
        },
{
    let members = match id_list_all(store, head) {
        Ok(ids) => ids,
        Err(_) => {
            return Err(IdListError::Corrupted);
        },
    };
    if members.len() > MAX_LIST_MEMBERS {
        return Err(IdListError::Corrupted);
    }
    let n = members.len();
    let mut i: usize = 0;
    while i < n
        invariant
            n == members@.len(),
            i <= n,
            store.wf(),
            store@ == old(store)@,
            valid_list_head(head),
            members@.len() <= MAX_LIST_MEMBERS,
            list_view(old(store)@, head) == Some(members@),
            forall|j: int| 0 <= j < i ==> members@[j] != member,
        decreases n - i,
    {
        if members[i] == member {
            let out = remove_at(&members, i);
            let ghost ov = out@;
            proof {
                assert(members@.contains(member));
                lemma_remove_first_at(members@, member, i as int);
                assert(remove_first(members@, member) == ov);
                assert(nsegs_of(ov.len() as int) <= nsegs_of(members@.len() as int));
            }
            write_chain(store, head, out);
            proof {
                assert(list_view(store@, head) == Some(remove_first(members@, member)));
                lemma_preserved_mono(
                    old(store)@,
                    store@,
                    head,
                    nsegs_of(ov.len() as int),
                    nsegs_of(members@.len() as int),
                );
            }
            return Ok(());
        }
        i += 1;
    }
    Err(IdListError::MemberNotFound)
}

/// `s` with its first occurrence of `x` taken out; `s` itself when absent.
pub open spec fn remove_first(s: Seq<Id>, x: Id) -> Seq<Id>
    decreases s.len(),
{
    if s.len() == 0 {
        s
    } else if s[0] == x {
        s.skip(1)
    } else {
        seq![s[0]] + remove_first(s.skip(1), x)
    }
}

proof fn lemma_remove_first_at(s: Seq<Id>, x: Id, i: int)
    requires
        0 <= i < s.len(),
        s[i] == x,
        forall|j: int| 0 <= j < i ==> s[j] != x,
    ensures
        remove_first(s, x) == s.subrange(0, i) + s.skip(i + 1),
    decreases i,
{
    if i == 0 {
        assert(s.subrange(0, 0) + s.skip(1) =~= s.skip(1));
    } else {
        assert(forall|j: int| 0 <= j < i - 1 ==> s.skip(1)[j] != x);
        assert(s.skip(1)[i - 1] == x);
        lemma_remove_first_at(s.skip(1), x, i - 1);
        assert(s.skip(1).subrange(0, i - 1) =~= s.subrange(1, i));
        assert(s.skip(1).skip(i) =~= s.skip(i + 1));
        assert(seq![s[0]] + (s.subrange(1, i) + s.skip(i + 1)) =~= s.subrange(0, i) + s.skip(
            i + 1,
        ));
    }
}

fn remove_at(v: &Vec<Id>, i: usize) -> (r: Vec<Id>)
    requires
        i < v@.len(),
    ensures
        r@ == v@.subrange(0, i as int) + v@.skip(i as int + 1),
        r@.len() == v@.len() - 1,
{
    let mut out: Vec<Id> = Vec::new();
    let mut j: usize = 0;
    while j < v.len()
        invariant
            i < v@.len(),
            j <= v@.len(),
            out@ == if j <= i {
                v@.subrange(0, j as int)
            } else {
                v@.subrange(0, i as int) + v@.subrange(i as int + 1, j as int)
            },
        decreases v@.len() - j,
    {
        if j != i {
            out.push(v[j]);
        }
        proof {
            if j + 1 <= i {
                assert(out@ =~= v@.subrange(0, j + 1 as int));
            } else if j == i {
                assert(out@ =~= v@.subrange(0, i as int) + v@.subrange(
                    i as int + 1,
                    j + 1 as int,
                ));
            } else {
                assert(out@ =~= v@.subrange(0, i as int) + v@.subrange(
                    i as int + 1,
                    j + 1 as int,
                ));
            }
        }
        j += 1;
    }
    proof {
        assert(v@.subrange(i as int + 1, v@.len() as int) =~= v@.skip(i as int + 1));
    }
    out
}

} // verus!
