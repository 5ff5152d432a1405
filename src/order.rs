use crate::laws::{lemma_kv_order, lemma_total_order};
use crate::value::{f32_key, f64_key, model, model_list, KV, Value, ValueModel};
use std::cmp::Ordering;
use std::sync::Arc;
use vstd::prelude::*;

verus! {

/// Place of a variant in the order between variants.
pub open spec fn rank(m: ValueModel) -> int {
    match m {
        ValueModel::Bool(_) => 0,
        ValueModel::U8(_) => 1,
        ValueModel::U16(_) => 2,
        ValueModel::U32(_) => 3,
        ValueModel::U64(_) => 4,
        ValueModel::I8(_) => 5,
        ValueModel::I16(_) => 6,
        ValueModel::I32(_) => 7,
        ValueModel::I64(_) => 8,
        ValueModel::F32(_) => 9,
        ValueModel::F64(_) => 10,
        ValueModel::Char(_) => 11,
        ValueModel::Str(_) => 12,
        ValueModel::Unit => 13,
        ValueModel::Opt(_) => 14,
        ValueModel::Newtype(_) => 15,
        ValueModel::List(_) => 16,
        ValueModel::Dict(_, _) => 17,
        ValueModel::Bytes(_) => 18,
    }
}

pub open spec fn cmp_int(x: int, y: int) -> Ordering {
    if x < y {
        Ordering::Less
    } else if x > y {
        Ordering::Greater
    } else {
        Ordering::Equal
    }
}

/// Lexicographic order of byte strings.
pub open spec fn cmp_bytes(x: Seq<u8>, y: Seq<u8>) -> Ordering
    decreases x.len(),
{
    if x.len() == 0 {
        if y.len() == 0 {
            Ordering::Equal
        } else {
            Ordering::Less
        }
    } else if y.len() == 0 {
        Ordering::Greater
    } else if x[0] != y[0] {
        cmp_int(x[0] as int, y[0] as int)
    } else {
        cmp_bytes(x.drop_first(), y.drop_first())
    }
}

/// Lexicographic order of sequences of values.
pub open spec fn cmp_list(s: Seq<ValueModel>, t: Seq<ValueModel>) -> Ordering
    decreases s,
{
    if s.len() == 0 {
        if t.len() == 0 {
            Ordering::Equal
        } else {
            Ordering::Less
        }
    } else if t.len() == 0 {
        Ordering::Greater
    } else {
        match cmp_model(s[0], t[0]) {
            Ordering::Equal => cmp_list(s.drop_first(), t.drop_first()),
            o => o,
        }
    }
}

/// The total order on value models: first by variant rank, then by content.
pub open spec fn cmp_model(a: ValueModel, b: ValueModel) -> Ordering
    decreases a,
{
    if rank(a) != rank(b) {
        cmp_int(rank(a), rank(b))
    } else {
        match (a, b) {
            (ValueModel::Bool(x), ValueModel::Bool(y)) => cmp_int(
                if x { 1 } else { 0 },
                if y { 1 } else { 0 },
            ),
            (ValueModel::U8(x), ValueModel::U8(y)) => cmp_int(x as int, y as int),
            (ValueModel::U16(x), ValueModel::U16(y)) => cmp_int(x as int, y as int),
            (ValueModel::U32(x), ValueModel::U32(y)) => cmp_int(x as int, y as int),
            (ValueModel::U64(x), ValueModel::U64(y)) => cmp_int(x as int, y as int),
            (ValueModel::I8(x), ValueModel::I8(y)) => cmp_int(x as int, y as int),
            (ValueModel::I16(x), ValueModel::I16(y)) => cmp_int(x as int, y as int),
            (ValueModel::I32(x), ValueModel::I32(y)) => cmp_int(x as int, y as int),
            (ValueModel::I64(x), ValueModel::I64(y)) => cmp_int(x as int, y as int),
            (ValueModel::F32(x), ValueModel::F32(y)) => cmp_int(x, y),
            (ValueModel::F64(x), ValueModel::F64(y)) => cmp_int(x, y),
            (ValueModel::Char(x), ValueModel::Char(y)) => cmp_int(x as int, y as int),
            (ValueModel::Str(x), ValueModel::Str(y)) => cmp_bytes(x, y),
            (ValueModel::Opt(x), ValueModel::Opt(y)) => match (x, y) {
                (None, None) => Ordering::Equal,
                (None, Some(_)) => Ordering::Less,
                (Some(_), None) => Ordering::Greater,
                (Some(p), Some(q)) => cmp_model(*p, *q),
            },
            (ValueModel::Newtype(p), ValueModel::Newtype(q)) => cmp_model(*p, *q),
            (ValueModel::List(s), ValueModel::List(t)) => cmp_list(s, t),
            (ValueModel::Dict(k1, v1), ValueModel::Dict(k2, v2)) => match cmp_list(k1, k2) {
                Ordering::Equal => cmp_list(v1, v2),
                o => o,
            },
            (ValueModel::Bytes(x), ValueModel::Bytes(y)) => cmp_bytes(x, y),
            _ => Ordering::Equal,
        }
    }
}

/// The order between two values.
pub open spec fn cmp_values(a: Value, b: Value) -> Ordering {
    cmp_model(model(a), model(b))
}


fn cmp_num(x: i128, y: i128) -> (r: Ordering)
    ensures
        r == cmp_int(x as int, y as int),
{
    if x < y {
        Ordering::Less
    } else if x > y {
        Ordering::Greater
    } else {
        Ordering::Equal
    }
}

/// The place of a 32-bit float pattern in the float order.
pub fn float32_key(bits: u32) -> (r: i64)
    ensures
        r as int == f32_key(bits),
{
    let mag = bits % 0x8000_0000;
    if mag > 0x7f80_0000 {
        0x8000_0000
    } else if bits >= 0x8000_0000 {
        -(mag as i64)
    } else {
        mag as i64
    }
}

/// The place of a 64-bit float pattern in the float order.
pub fn float64_key(bits: u64) -> (r: i128)
    ensures
        r as int == f64_key(bits),
{
    let mag = bits % 0x8000_0000_0000_0000;
    if mag > 0x7ff0_0000_0000_0000 {
        0x8000_0000_0000_0000
    } else if bits >= 0x8000_0000_0000_0000 {
        -(mag as i128)
    } else {
        mag as i128
    }
}

/// Lexicographic comparison of two byte strings.
pub fn compare_bytes(x: &[u8], y: &[u8]) -> (r: Ordering)
    ensures
        r == cmp_bytes(x@, y@),
{
    let mut i: usize = 0;
    assert(x@.subrange(0, x@.len() as int) =~= x@);
    assert(y@.subrange(0, y@.len() as int) =~= y@);
    while i < x.len() && i < y.len()
        invariant
            i <= x@.len(),
            i <= y@.len(),
            cmp_bytes(x@, y@) == cmp_bytes(
                x@.subrange(i as int, x@.len() as int),
                y@.subrange(i as int, y@.len() as int),
            ),
        decreases x.len() - i,
    {
        let ghost sx = x@.subrange(i as int, x@.len() as int);
        let ghost sy = y@.subrange(i as int, y@.len() as int);
        if x[i] != y[i] {
            return cmp_num(x[i] as i128, y[i] as i128);
        }
        assert(sx.drop_first() =~= x@.subrange(i + 1, x@.len() as int));
        assert(sy.drop_first() =~= y@.subrange(i + 1, y@.len() as int));
        i = i + 1;
    }
    cmp_num((x.len() - i) as i128, (y.len() - i) as i128)
}

impl Value {
    /// The rank of this value's variant.
    pub fn rank_of(&self) -> (r: u8)
        ensures
            r as int == rank(model(*self)),
    {
        match self {
            Value::Bool(_) => 0,
            Value::U8(_) => 1,
            Value::U16(_) => 2,
            Value::U32(_) => 3,
            Value::U64(_) => 4,
            Value::I8(_) => 5,
            Value::I16(_) => 6,
            Value::I32(_) => 7,
            Value::I64(_) => 8,
            Value::F32(_) => 9,
            Value::F64(_) => 10,
            Value::Char(_) => 11,
            Value::String(_) => 12,
            Value::Unit => 13,
            Value::Option(_) => 14,
            Value::Newtype(_) => 15,
            Value::Sequence(_) => 16,
            Value::Mapping(_) => 17,
            Value::Bytes(_) => 18,
        }
    }

    /// Compares two values in the total order.
    pub fn compare(&self, other: &Value) -> (r: Ordering)
        ensures
            r == cmp_values(*self, *other),
        decreases self,
    {
        let ra = self.rank_of();
        let rb = other.rank_of();
        if ra != rb {
            return cmp_num(ra as i128, rb as i128);
        }
        match (self, other) {
            (Value::Bool(x), Value::Bool(y)) => cmp_num(
                if *x { 1 } else { 0 },
                if *y { 1 } else { 0 },
            ),
            (Value::U8(x), Value::U8(y)) => cmp_num(*x as i128, *y as i128),
            (Value::U16(x), Value::U16(y)) => cmp_num(*x as i128, *y as i128),
            (Value::U32(x), Value::U32(y)) => cmp_num(*x as i128, *y as i128),
            (Value::U64(x), Value::U64(y)) => cmp_num(*x as i128, *y as i128),
            (Value::I8(x), Value::I8(y)) => cmp_num(*x as i128, *y as i128),
            (Value::I16(x), Value::I16(y)) => cmp_num(*x as i128, *y as i128),
            (Value::I32(x), Value::I32(y)) => cmp_num(*x as i128, *y as i128),
            (Value::I64(x), Value::I64(y)) => cmp_num(*x as i128, *y as i128),
            (Value::F32(x), Value::F32(y)) => cmp_num(
                float32_key(*x) as i128,
                float32_key(*y) as i128,
            ),
            (Value::F64(x), Value::F64(y)) => cmp_num(float64_key(*x), float64_key(*y)),
            (Value::Char(x), Value::Char(y)) => cmp_num(*x as i128, *y as i128),
            (Value::String(x), Value::String(y)) => compare_bytes(
                x.as_str().as_bytes(),
                y.as_str().as_bytes(),
            ),
            (Value::Unit, Value::Unit) => Ordering::Equal,
            (Value::Option(x), Value::Option(y)) => match (x, y) {
                (None, None) => Ordering::Equal,
                (None, Some(_)) => Ordering::Less,
                (Some(_), None) => Ordering::Greater,
                (Some(p), Some(q)) => p.compare(q),
            },
            (Value::Newtype(p), Value::Newtype(q)) => p.compare(q),
            (Value::Sequence(s), Value::Sequence(t)) => compare_list(s, t),
            (Value::Mapping(m), Value::Mapping(n)) => {
                let c = compare_list(&m.0, &n.0);
                match c {
                    Ordering::Equal => compare_list(&m.1, &n.1),
                    _ => c,
                }
            },
            (Value::Bytes(x), Value::Bytes(y)) => compare_bytes(x.as_slice(), y.as_slice()),
            _ => Ordering::Equal,
        }
    }
}

/// Lexicographic comparison of two sequences of values.
pub fn compare_list(s: &Vec<Value>, t: &Vec<Value>) -> (r: Ordering)
    ensures
        r == cmp_list(model_list(s@), model_list(t@)),
    decreases s,
{
    broadcast use vstd::std_specs::vec::axiom_vec_index_decreases;

    let ghost ms = model_list(s@);
    let ghost mt = model_list(t@);
    let mut i: usize = 0;
    assert(ms.subrange(0, ms.len() as int) =~= ms);
    assert(mt.subrange(0, mt.len() as int) =~= mt);
    while i < s.len() && i < t.len()
        invariant
            i <= s@.len(),
            i <= t@.len(),
            ms == model_list(s@),
            mt == model_list(t@),
            cmp_list(ms, mt) == cmp_list(
                ms.subrange(i as int, ms.len() as int),
                mt.subrange(i as int, mt.len() as int),
            ),
        decreases s.len() - i,
    {
        let ghost sx = ms.subrange(i as int, ms.len() as int);
        let ghost sy = mt.subrange(i as int, mt.len() as int);
        assert(sx[0] == model(s@[i as int]));
        assert(sy[0] == model(t@[i as int]));
        let c = s[i].compare(&t[i]);
        match c {
            Ordering::Equal => {},
            _ => {
                return c;
            },
        }
        assert(sx.drop_first() =~= ms.subrange(i + 1, ms.len() as int));
        assert(sy.drop_first() =~= mt.subrange(i + 1, mt.len() as int));
        i = i + 1;
    }
    let ghost sx = ms.subrange(i as int, ms.len() as int);
    let ghost sy = mt.subrange(i as int, mt.len() as int);
    if i < s.len() {
        Ordering::Greater
    } else if i < t.len() {
        Ordering::Less
    } else {
        Ordering::Equal
    }
}


impl PartialEq for Value {
    /// Structural equality: the two values have the same content.
    fn eq(&self, other: &Value) -> (r: bool) {
        proof {
            lemma_total_order(*self, *other, *other);
        }
        match self.compare(other) {
            Ordering::Equal => true,
            _ => false,
        }
    }
}

impl vstd::std_specs::cmp::PartialEqSpecImpl for Value {
    open spec fn obeys_eq_spec() -> bool {
        true
    }

    open spec fn eq_spec(&self, other: &Value) -> bool {
        model(*self) == model(*other)
    }
}

impl Eq for Value {

}

impl PartialOrd for Value {
    fn partial_cmp(&self, other: &Value) -> (r: Option<Ordering>) {
        Some(self.compare(other))
    }
}

impl vstd::std_specs::cmp::PartialOrdSpecImpl for Value {
    open spec fn obeys_partial_cmp_spec() -> bool {
        true
    }

    open spec fn partial_cmp_spec(&self, other: &Value) -> Option<Ordering> {
        Some(cmp_values(*self, *other))
    }
}

/// The order on key/value collections: keys first, then values, each
/// lexicographically.
pub open spec fn cmp_kv(a: KV, b: KV) -> Ordering {
    match cmp_list(model_list(a.0@), model_list(b.0@)) {
        Ordering::Equal => cmp_list(model_list(a.1@), model_list(b.1@)),
        o => o,
    }
}

impl KV {
    /// Compares two collections position by position.
    pub fn compare(&self, other: &KV) -> (r: Ordering)
        ensures
            r == cmp_kv(*self, *other),
    {
        let c = compare_list(&self.0, &other.0);
        match c {
            Ordering::Equal => compare_list(&self.1, &other.1),
            _ => c,
        }
    }
}

impl PartialEq for KV {
    /// Positional equality of keys and of values.
    fn eq(&self, other: &KV) -> (r: bool) {
        proof {
            lemma_kv_order(*self, *other);
        }
        match self.compare(other) {
            Ordering::Equal => true,
            _ => false,
        }
    }
}

impl vstd::std_specs::cmp::PartialEqSpecImpl for KV {
    open spec fn obeys_eq_spec() -> bool {
        true
    }

    open spec fn eq_spec(&self, other: &KV) -> bool {
        model_list(self.0@) == model_list(other.0@) && model_list(self.1@) == model_list(other.1@)
    }
}

impl Eq for KV {

}

/// The number of keys of `ks` that are below `k`, counted from the front
/// until the first that is not.
pub open spec fn place(ks: Seq<ValueModel>, k: ValueModel) -> int
    decreases ks.len(),
{
    if ks.len() == 0 {
        0
    } else if cmp_model(ks[0], k) == Ordering::Less {
        1 + place(ks.drop_first(), k)
    } else {
        0
    }
}

/// Inserts a pair into keys kept in order: an equal key has its value
/// replaced; otherwise the pair goes before the first greater key.
pub open spec fn insert_entry(
    d: (Seq<ValueModel>, Seq<ValueModel>),
    k: ValueModel,
    v: ValueModel,
) -> (Seq<ValueModel>, Seq<ValueModel>) {
    let p = place(d.0, k);
    if p < d.0.len() && d.0[p] == k {
        (d.0, d.1.update(p, v))
    } else {
        (d.0.insert(p, k), d.1.insert(p, v))
    }
}

/// The keys and values of a collection built by inserting `entries` in turn.
pub open spec fn build_entries(entries: Seq<(ValueModel, ValueModel)>) -> (
    Seq<ValueModel>,
    Seq<ValueModel>,
)
    decreases entries.len(),
{
    if entries.len() == 0 {
        (Seq::empty(), Seq::empty())
    } else {
        insert_entry(build_entries(entries.drop_last()), entries.last().0, entries.last().1)
    }
}

pub open spec fn entry_models(entries: Seq<(Value, Value)>) -> Seq<(ValueModel, ValueModel)> {
    Seq::new(entries.len(), |i: int| (model(entries[i].0), model(entries[i].1)))
}

impl Value {
    /// A key/value collection holding `entries`, ordered by key; of two
    /// entries with equal keys the later one's value is kept.
    pub fn map(entries: Vec<(Value, Value)>) -> (r: Value)
        ensures
            r is Mapping,
            model(r) == ValueModel::Dict(
                build_entries(entry_models(entries@)).0,
                build_entries(entry_models(entries@)).1,
            ),
    {
        let ghost es = entry_models(entries@);
        let mut keys: Vec<Value> = Vec::new();
        let mut values: Vec<Value> = Vec::new();
        let mut i: usize = 0;
        assert(es.subrange(0, 0) =~= Seq::<(ValueModel, ValueModel)>::empty());
        assert(model_list(keys@) =~= Seq::<ValueModel>::empty());
        assert(model_list(values@) =~= Seq::<ValueModel>::empty());
        while i < entries.len()
            invariant
                i <= entries@.len(),
                es == entry_models(entries@),
                keys@.len() == values@.len(),
                (model_list(keys@), model_list(values@)) == build_entries(es.subrange(0, i as int)),
            decreases entries.len() - i,
        {
            let k = entries[i].0.duplicate();
            let v = entries[i].1.duplicate();
            let ghost mk = model_list(keys@);
            let ghost mv = model_list(values@);
            let mut p: usize = 0;
            assert(mk.subrange(0, mk.len() as int) =~= mk);
            while p < keys.len() && is_less(keys[p].compare(&k))
                invariant
                    p <= keys@.len(),
                    keys@.len() == values@.len(),
                    mk == model_list(keys@),
                    place(mk, model(k)) == p + place(mk.subrange(p as int, mk.len() as int), model(k)),
                decreases keys.len() - p,
            {
                assert(mk.subrange(p as int, mk.len() as int).drop_first() =~= mk.subrange(
                    p + 1,
                    mk.len() as int,
                ));
                p = p + 1;
            }
            assert(place(mk, model(k)) == p);
            let ghost next = es.subrange(0, i + 1);
            assert(next.drop_last() =~= es.subrange(0, i as int));
            assert(next.last() == (model(k), model(v)));
            if p < keys.len() && is_equal(keys[p].compare(&k)) {
                proof {
                    lemma_total_order(keys@[p as int], k, k);
                }
                values.set(p, v);
                assert(model_list(values@) =~= mv.update(p as int, model(v)));
            } else {
                proof {
                    if p < keys@.len() {
                        lemma_total_order(keys@[p as int], k, k);
                    }
                }
                keys.insert(p, k);
                values.insert(p, v);
                assert(model_list(keys@) =~= mk.insert(p as int, model(k)));
                assert(model_list(values@) =~= mv.insert(p as int, model(v)));
            }
            i = i + 1;
        }
        assert(es.subrange(0, es.len() as int) =~= es);
        Value::Mapping(Arc::new(KV(Arc::new(keys), values)))
    }
}

fn is_less(o: Ordering) -> (r: bool)
    ensures
        r == (o == Ordering::Less),
{
    match o {
        Ordering::Less => true,
        _ => false,
    }
}

fn is_equal(o: Ordering) -> (r: bool)
    ensures
        r == (o == Ordering::Equal),
{
    match o {
        Ordering::Equal => true,
        _ => false,
    }
}

} // verus!
