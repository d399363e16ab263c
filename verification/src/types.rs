//! Identifiers, field values and the ordered field-value maps stored in cells.

use vstd::prelude::*;

verus! {

/// Field id under which a vertex's inbound adjacency handle is kept.
pub const INBOUND_KEY_ID: u64 = 0xF000_0000_0000_0001;
/// Field id under which a vertex's outbound adjacency handle is kept.
pub const OUTBOUND_KEY_ID: u64 = 0xF000_0000_0000_0002;
/// Field id under which a vertex's undirected adjacency handle is kept.
pub const UNDIRECTED_KEY_ID: u64 = 0xF000_0000_0000_0003;
/// Field id of the primary key inside a vertex's data map.
pub const KEY_FIELD_ID: u64 = 0xF000_0000_0000_0010;
/// Field id of the successor pointer inside an id-list segment cell.
pub const NEXT_FIELD_ID: u64 = 0xF000_0000_0000_0020;
/// Field id of the member list inside an id-list segment cell.
pub const LIST_FIELD_ID: u64 = 0xF000_0000_0000_0021;
/// Field id of the source endpoint kept inside an edge body cell.
pub const EDGE_FROM_FIELD_ID: u64 = 0xF000_0000_0000_0030;
/// Field id of the target endpoint kept inside an edge body cell.
pub const EDGE_TO_FIELD_ID: u64 = 0xF000_0000_0000_0031;

/// A 128-bit cell identifier, split as the store keeps it.
#[derive(Clone, Copy, PartialEq, Eq, Structural, Debug, Hash)]
pub struct Id {
    pub higher: u64,
    pub lower: u64,
}

impl Id {
    /// The null identifier: adjacency handles start out as this value and
    /// segment chains end with it.
    pub fn unit_id() -> (r: Id)
        ensures
            r == Id::spec_unit(),
    {
        Id { higher: 0, lower: 0 }
    }

    pub open spec fn spec_unit() -> Id {
        Id { higher: 0, lower: 0 }
    }

    pub open spec fn spec_is_unit(self) -> bool {
        self.higher == 0 && self.lower == 0
    }

    pub fn is_unit(&self) -> (r: bool)
        ensures
            r == self.spec_is_unit(),
    {
        self.higher == 0 && self.lower == 0
    }
}

/// A field value as it sits in a cell's data map.
#[derive(Clone, Debug, PartialEq)]
pub enum Value {
    Null,
    Bool(bool),
    U64(u64),
    Id(Id),
    Bytes(Vec<u8>),
    Ids(Vec<Id>),
}

/// The mathematical shape of a `Value`.
#[verifier::ext_equal]
pub ghost enum SpecValue {
    Null,
    Bool(bool),
    U64(u64),
    Id(Id),
    Bytes(Seq<u8>),
    Ids(Seq<Id>),
}

impl View for Value {
    type V = SpecValue;

    open spec fn view(&self) -> SpecValue {
        match self {
            Value::Null => SpecValue::Null,
            Value::Bool(b) => SpecValue::Bool(*b),
            Value::U64(n) => SpecValue::U64(*n),
            Value::Id(id) => SpecValue::Id(*id),
            Value::Bytes(bs) => SpecValue::Bytes(bs@),
            Value::Ids(ids) => SpecValue::Ids(ids@),
        }
    }
}

impl Value {
    /// A deep copy whose mathematical value is unchanged.
    pub fn duplicate(&self) -> (r: Value)
        ensures
            r@ == self@,
    {
        match self {
            Value::Null => Value::Null,
            Value::Bool(b) => Value::Bool(*b),
            Value::U64(n) => Value::U64(*n),
            Value::Id(id) => Value::Id(*id),
            Value::Bytes(bs) => Value::Bytes(copy_bytes(bs)),
            Value::Ids(ids) => Value::Ids(copy_ids(ids)),
        }
    }
}

/// Is `k` one of the three hidden adjacency fields a vertex cell carries?
pub open spec fn is_reserved_field(k: u64) -> bool {
    k == INBOUND_KEY_ID || k == OUTBOUND_KEY_ID || k == UNDIRECTED_KEY_ID
}

/// Exec mirror of `is_reserved_field`.
pub fn reserved_field(k: u64) -> (r: bool)
    ensures
        r == is_reserved_field(k),
{
    k == INBOUND_KEY_ID || k == OUTBOUND_KEY_ID || k == UNDIRECTED_KEY_ID
}

/// The mathematical value of one entry list.
pub open spec fn dm_view(s: Seq<(u64, Value)>) -> Seq<(u64, SpecValue)> {
    s.map_values(|e: (u64, Value)| (e.0, e.1@))
}

/// Does `s` bind the field `k`?
pub open spec fn dm_contains_key(s: Seq<(u64, SpecValue)>, k: u64) -> bool {
    exists|i: int| 0 <= i < s.len() && s[i].0 == k
}

/// The value bound to the first occurrence of `k`, if any.
pub open spec fn dm_get(s: Seq<(u64, SpecValue)>, k: u64) -> Option<SpecValue>
    decreases s.len(),
{
    if s.len() == 0 {
        None
    } else if s[0].0 == k {
        Some(s[0].1)
    } else {
        dm_get(s.skip(1), k)
    }
}

pub proof fn lemma_dm_get_contains(s: Seq<(u64, SpecValue)>, k: u64)
    ensures
        dm_contains_key(s, k) <==> dm_get(s, k) is Some,
    decreases s.len(),
{
    if s.len() > 0 && s[0].0 != k {
        lemma_dm_get_contains(s.skip(1), k);
        if dm_contains_key(s, k) {
            let i = choose|i: int| 0 <= i < s.len() && s[i].0 == k;
            assert(s.skip(1)[i - 1].0 == k);
        }
        if dm_contains_key(s.skip(1), k) {
            let i = choose|i: int| 0 <= i < s.skip(1).len() && s.skip(1)[i].0 == k;
            assert(s[i + 1].0 == k);
        }
    }
}

/// `s` with every binding of `k` removed, order otherwise kept.
pub open spec fn dm_remove_key(s: Seq<(u64, SpecValue)>, k: u64) -> Seq<(u64, SpecValue)>
    decreases s.len(),
{
    if s.len() == 0 {
        Seq::empty()
    } else if s[0].0 == k {
        dm_remove_key(s.skip(1), k)
    } else {
        seq![s[0]] + dm_remove_key(s.skip(1), k)
    }
}

/// `s` with every hidden adjacency binding removed, order otherwise kept.
pub open spec fn dm_strip_reserved(s: Seq<(u64, SpecValue)>) -> Seq<(u64, SpecValue)>
    decreases s.len(),
{
    if s.len() == 0 {
        Seq::empty()
    } else if is_reserved_field(s[0].0) {
        dm_strip_reserved(s.skip(1))
    } else {
        seq![s[0]] + dm_strip_reserved(s.skip(1))
    }
}

pub proof fn lemma_dm_remove_absent(s: Seq<(u64, SpecValue)>, k: u64)
    requires
        !dm_contains_key(s, k),
    ensures
        dm_remove_key(s, k) == s,
    decreases s.len(),
{
    if s.len() > 0 {
        assert(s[0].0 != k);
        assert(forall|i: int| 0 <= i < s.skip(1).len() ==> s.skip(1)[i] == s[i + 1]);
        lemma_dm_remove_absent(s.skip(1), k);
        assert(seq![s[0]] + s.skip(1) =~= s);
    }
}

/// Stripping does nothing to a map without reserved fields.
pub proof fn lemma_dm_strip_no_reserved(s: Seq<(u64, SpecValue)>)
    requires
        forall|i: int| 0 <= i < s.len() ==> !is_reserved_field(#[trigger] s[i].0),
    ensures
        dm_strip_reserved(s) == s,
    decreases s.len(),
{
    if s.len() > 0 {
        assert(!is_reserved_field(s[0].0));
        assert(forall|i: int| 0 <= i < s.skip(1).len() ==> s.skip(1)[i] == s[i + 1]);
        lemma_dm_strip_no_reserved(s.skip(1));
        assert(seq![s[0]] + s.skip(1) =~= s);
    }
}

/// Appending a reserved binding does not change the stripped view.
pub proof fn lemma_dm_strip_push_reserved(s: Seq<(u64, SpecValue)>, e: (u64, SpecValue))
    requires
        is_reserved_field(e.0),
    ensures
        dm_strip_reserved(s.push(e)) == dm_strip_reserved(s),
    decreases s.len(),
{
    if s.len() == 0 {
        assert(s.push(e)[0] == e);
        assert(s.push(e).skip(1) =~= Seq::<(u64, SpecValue)>::empty());
        assert(dm_strip_reserved(s.push(e)) == dm_strip_reserved(s.push(e).skip(1)));
        assert(dm_strip_reserved(s.push(e).skip(1)) == Seq::<(u64, SpecValue)>::empty());
        assert(dm_strip_reserved(s) == Seq::<(u64, SpecValue)>::empty());
    } else {
        assert(s.push(e)[0] == s[0]);
        assert(s.push(e).skip(1) =~= s.skip(1).push(e));
        lemma_dm_strip_push_reserved(s.skip(1), e);
        assert(dm_strip_reserved(s.skip(1).push(e)) == dm_strip_reserved(s.skip(1)));
        if is_reserved_field(s[0].0) {
            assert(dm_strip_reserved(s.push(e)) == dm_strip_reserved(s.skip(1).push(e)));
            assert(dm_strip_reserved(s) == dm_strip_reserved(s.skip(1)));
        } else {
            assert(dm_strip_reserved(s.push(e)) == seq![s[0]] + dm_strip_reserved(
                s.skip(1).push(e),
            ));
            assert(dm_strip_reserved(s) == seq![s[0]] + dm_strip_reserved(s.skip(1)));
        }
    }
}

/// A stripped map binds no reserved field.
pub proof fn lemma_dm_strip_free(s: Seq<(u64, SpecValue)>)
    ensures
        forall|i: int|
            0 <= i < dm_strip_reserved(s).len() ==> !is_reserved_field(
                #[trigger] dm_strip_reserved(s)[i].0,
            ),
    decreases s.len(),
{
    if s.len() > 0 {
        lemma_dm_strip_free(s.skip(1));
        if !is_reserved_field(s[0].0) {
            assert(dm_strip_reserved(s) == seq![s[0]] + dm_strip_reserved(s.skip(1)));
            assert forall|i: int| 0 <= i < dm_strip_reserved(s).len() implies !is_reserved_field(
                #[trigger] dm_strip_reserved(s)[i].0,
            ) by {
                if i == 0 {
                    assert(dm_strip_reserved(s)[0] == s[0]);
                } else {
                    assert(dm_strip_reserved(s)[i] == dm_strip_reserved(s.skip(1))[i - 1]);
                }
            }
        } else {
            assert(dm_strip_reserved(s) == dm_strip_reserved(s.skip(1)));
            assert forall|i: int| 0 <= i < dm_strip_reserved(s).len() implies !is_reserved_field(
                #[trigger] dm_strip_reserved(s)[i].0,
            ) by {
                assert(dm_strip_reserved(s)[i] == dm_strip_reserved(s.skip(1))[i]);
            }
        }
    } else {
        assert(dm_strip_reserved(s).len() == 0);
    }
}

/// One rotate-and-mix step of the key hash.
pub open spec fn rot5(h: u64) -> u64 {
    (h << 5) | (h >> 59)
}

pub open spec fn spec_hash_bytes(s: Seq<u8>, acc: u64) -> u64
    decreases s.len(),
{
    if s.len() == 0 {
        acc
    } else {
        spec_hash_bytes(s.skip(1), rot5(acc) ^ (s[0] as u64))
    }
}

pub open spec fn spec_hash_ids(s: Seq<Id>, acc: u64) -> u64
    decreases s.len(),
{
    if s.len() == 0 {
        acc
    } else {
        spec_hash_ids(s.skip(1), rot5(rot5(acc) ^ s[0].higher) ^ s[0].lower)
    }
}

/// A deterministic 64-bit digest of a field value, used to derive cell
/// identifiers from primary keys.
pub open spec fn spec_hash_value(v: SpecValue) -> u64 {
    match v {
        SpecValue::Null => 3,
        SpecValue::Bool(b) => if b {
            7
        } else {
            5
        },
        SpecValue::U64(n) => n ^ 0x9E37_79B9_7F4A_7C15,
        SpecValue::Id(id) => rot5(id.higher) ^ id.lower ^ 0xA5A5_A5A5_A5A5_A5A5,
        SpecValue::Bytes(bs) => spec_hash_bytes(bs, 0xCBF2_9CE4_8422_2325),
        SpecValue::Ids(ids) => spec_hash_ids(ids, 0x0000_0100_0000_01B3),
    }
}

pub fn rot5_exec(h: u64) -> (r: u64)
    ensures
        r == rot5(h),
{
    (h << 5u64) | (h >> 59u64)
}

/// Exec mirror of `spec_hash_value`.
pub fn hash_value(v: &Value) -> (r: u64)
    ensures
        r == spec_hash_value(v@),
{
    match v {
        Value::Null => 3,
        Value::Bool(b) => if *b {
            7
        } else {
            5
        },
        Value::U64(n) => *n ^ 0x9E37_79B9_7F4A_7C15,
        Value::Id(id) => rot5_exec(id.higher) ^ id.lower ^ 0xA5A5_A5A5_A5A5_A5A5,
        Value::Bytes(bs) => {
            let mut acc: u64 = 0xCBF2_9CE4_8422_2325;
            let mut i: usize = 0;
            proof {
                assert(bs@.skip(0) =~= bs@);
            }
            while i < bs.len()
                invariant
                    i <= bs@.len(),
                    spec_hash_bytes(bs@, 0xCBF2_9CE4_8422_2325) == spec_hash_bytes(
                        bs@.skip(i as int),
                        acc,
                    ),
                decreases bs@.len() - i,
            {
                proof {
                    assert(bs@.skip(i as int)[0] == bs@[i as int]);
                    assert(bs@.skip(i as int).skip(1) =~= bs@.skip(i + 1 as int));
                }
                acc = rot5_exec(acc) ^ (bs[i] as u64);
                i += 1;
            }
            acc
        },
        Value::Ids(ids) => {
            let mut acc: u64 = 0x0000_0100_0000_01B3;
            let mut i: usize = 0;
            proof {
                assert(ids@.skip(0) =~= ids@);
            }
            while i < ids.len()
                invariant
                    i <= ids@.len(),
                    spec_hash_ids(ids@, 0x0000_0100_0000_01B3) == spec_hash_ids(
                        ids@.skip(i as int),
                        acc,
                    ),
                decreases ids@.len() - i,
            {
                proof {
                    assert(ids@.skip(i as int)[0] == ids@[i as int]);
                    assert(ids@.skip(i as int).skip(1) =~= ids@.skip(i + 1 as int));
                }
                acc = rot5_exec(rot5_exec(acc) ^ ids[i].higher) ^ ids[i].lower;
                i += 1;
            }
            acc
        },
    }
}

/// An ordered field-id to value map, as one cell stores its data.
#[derive(Debug, PartialEq)]
pub struct DataMap {
    entries: Vec<(u64, Value)>,
}

impl View for DataMap {
    type V = Seq<(u64, SpecValue)>;

    closed spec fn view(&self) -> Seq<(u64, SpecValue)> {
        dm_view(self.entries@)
    }
}

impl DataMap {
    pub fn new() -> (r: DataMap)
        ensures
            r@ == Seq::<(u64, SpecValue)>::empty(),
    {
        let r = DataMap { entries: Vec::new() };
        proof {
            assert(r@ =~= Seq::<(u64, SpecValue)>::empty());
        }
        r
    }

    pub fn len(&self) -> (r: usize)
        ensures
            r == self@.len(),
    {
        self.entries.len()
    }

    /// A deep copy whose mathematical value is unchanged.
    pub fn duplicate(&self) -> (r: DataMap)
        ensures
            r@ == self@,
    {
        let mut out: Vec<(u64, Value)> = Vec::new();
        let mut i: usize = 0;
        proof {
            assert(self@.skip(0) =~= self@);
            assert(dm_view(out@) =~= Seq::<(u64, SpecValue)>::empty());
            assert(dm_view(out@) + self@ =~= self@);
        }
        while i < self.entries.len()
            invariant
                i <= self.entries.len(),
                self@ == dm_view(out@) + self@.skip(i as int),
            decreases self.entries.len() - i,
        {
            let e = &self.entries[i];
            proof {
                assert(self@.skip(i as int)[0] == self@[i as int]);
                assert(self@.skip(i as int).skip(1) =~= self@.skip(i + 1 as int));
            }
            out.push((e.0, e.1.duplicate()));
            proof {
                assert(dm_view(out@) =~= dm_view(out@.drop_last()).push(
                    (self@[i as int].0, self@[i as int].1),
                ));
                assert(dm_view(out@.drop_last()) + (seq![self@[i as int]] + self@.skip(
                    i + 1 as int,
                )) =~= dm_view(out@) + self@.skip(i + 1 as int));
                assert(seq![self@[i as int]] + self@.skip(i + 1 as int) =~= self@.skip(i as int));
            }
            i += 1;
        }
        let r = DataMap { entries: out };
        proof {
            assert(self@.skip(i as int).len() == 0);
            assert(r@ =~= self@);
        }
        r
    }

    /// The value bound to `key`, if any.
    pub fn get(&self, key: u64) -> (r: Option<&Value>)
        ensures
            match r {
                Some(v) => dm_get(self@, key) == Some(v@),
                None => !dm_contains_key(self@, key),
            },
    {
        let mut i: usize = 0;
        proof {
            assert(self@.skip(0) =~= self@);
        }
        while i < self.entries.len()
            invariant
                i <= self.entries.len(),
                dm_get(self@, key) == dm_get(self@.skip(i as int), key),
                forall|j: int| 0 <= j < i ==> self@[j].0 != key,
            decreases self.entries.len() - i,
        {
            let e = &self.entries[i];
            if e.0 == key {
                proof {
                    assert(self@.skip(i as int)[0] == self@[i as int]);
                }
                return Some(&e.1);
            }
            proof {
                assert(self@.skip(i as int).skip(1) =~= self@.skip(i + 1 as int));
            }
            i += 1;
        }
        proof {
            assert(self@.skip(i as int).len() == 0);
        }
        None
    }

    /// Bind `key` to `val`, dropping any earlier binding of `key`;
    /// the new binding comes last.
    pub fn insert(&mut self, key: u64, val: Value)
        ensures
            final(self)@ == dm_remove_key(old(self)@, key).push((key, val@)),
    {
        let mut out: Vec<(u64, Value)> = Vec::new();
        let ghost orig: Seq<(u64, SpecValue)> = self@;
        let mut i: usize = 0;
        proof {
            assert(orig.skip(0) =~= orig);
            assert(dm_view(out@) =~= Seq::<(u64, SpecValue)>::empty());
            assert(dm_view(out@) + dm_remove_key(orig, key) =~= dm_remove_key(orig, key));
        }
        while i < self.entries.len()
            invariant
                i <= self.entries.len(),
                orig == self@,
                dm_remove_key(orig, key) == dm_view(out@) + dm_remove_key(
                    orig.skip(i as int),
                    key,
                ),
            decreases self.entries.len() - i,
        {
            let e = &self.entries[i];
            proof {
                assert(orig.skip(i as int)[0] == orig[i as int]);
                assert(orig.skip(i as int).skip(1) =~= orig.skip(i + 1 as int));
            }
            if e.0 != key {
                out.push((e.0, e.1.duplicate()));
                proof {
                    assert(dm_view(out@) =~= dm_view(out@.drop_last()).push(
                        (orig[i as int].0, orig[i as int].1),
                    ));
                    assert(dm_view(out@.drop_last()) + (seq![orig[i as int]] + dm_remove_key(
                        orig.skip(i + 1 as int),
                        key,
                    )) =~= dm_view(out@) + dm_remove_key(orig.skip(i + 1 as int), key));
                }
            }
            i += 1;
        }
        proof {
            assert(orig.skip(i as int).len() == 0);
            assert(dm_remove_key(orig, key) =~= dm_view(out@));
        }
        out.push((key, val));
        self.entries = out;
        proof {
            assert(self@ =~= dm_remove_key(orig, key).push((key, val@)));
        }
    }

    /// The user-visible part of a stored vertex map: everything except the
    /// hidden adjacency bindings, order kept.
    pub fn without_reserved(&self) -> (r: DataMap)
        ensures
            r@ == dm_strip_reserved(self@),
    {
        let mut out: Vec<(u64, Value)> = Vec::new();
        let mut i: usize = 0;
        proof {
            assert(self@.skip(0) =~= self@);
            assert(dm_view(out@) =~= Seq::<(u64, SpecValue)>::empty());
            assert(dm_view(out@) + dm_strip_reserved(self@) =~= dm_strip_reserved(self@));
        }
        while i < self.entries.len()
            invariant
                i <= self.entries.len(),
                dm_strip_reserved(self@) == dm_view(out@) + dm_strip_reserved(
                    self@.skip(i as int),
                ),
            decreases self.entries.len() - i,
        {
            let e = &self.entries[i];
            proof {
                assert(self@.skip(i as int)[0] == self@[i as int]);
                assert(self@.skip(i as int).skip(1) =~= self@.skip(i + 1 as int));
            }
            if !reserved_field(e.0) {
                out.push((e.0, e.1.duplicate()));
                proof {
                    assert(dm_view(out@) =~= dm_view(out@.drop_last()).push(
                        (self@[i as int].0, self@[i as int].1),
                    ));
                    assert(dm_view(out@.drop_last()) + (seq![self@[i as int]]
                        + dm_strip_reserved(self@.skip(i + 1 as int))) =~= dm_view(out@)
                        + dm_strip_reserved(self@.skip(i + 1 as int)));
                }
            }
            i += 1;
        }
        proof {
            assert(self@.skip(i as int).len() == 0);
            assert(dm_strip_reserved(self@) =~= dm_view(out@));
        }
        let r = DataMap { entries: out };
        proof {
            assert(r@ =~= dm_strip_reserved(self@));
        }
        r
    }
}

pub(crate) fn copy_bytes(bs: &Vec<u8>) -> (r: Vec<u8>)
    ensures
        r@ == bs@,
{
    let mut out: Vec<u8> = Vec::new();
    let mut i: usize = 0;
    while i < bs.len()
        invariant
            i <= bs.len(),
            out@ == bs@.take(i as int),
        decreases bs.len() - i,
    {
        out.push(bs[i]);
        proof {
            assert(out@ =~= bs@.take(i + 1 as int));
        }
        i += 1;
    }
    proof {
        assert(out@ =~= bs@);
    }
    out
}

pub(crate) fn copy_ids(ids: &Vec<Id>) -> (r: Vec<Id>)
    ensures
        r@ == ids@,
{
    let mut out: Vec<Id> = Vec::new();
    let mut i: usize = 0;
    while i < ids.len()
        invariant
            i <= ids.len(),
            out@ == ids@.take(i as int),
        decreases ids.len() - i,
    {
        out.push(ids[i]);
        proof {
            assert(out@ =~= ids@.take(i + 1 as int));
        }
        i += 1;
    }
    proof {
        assert(out@ =~= ids@);
    }
    out
}

} // verus!
