use crate::order::{
    build_entries, cmp_bytes, cmp_int, cmp_kv, cmp_list, cmp_model, cmp_values, place, rank,
};
use crate::dedup::{parts, union, Registry};
use crate::hash::hash_value;
use crate::value::{model, model_list, Value, ValueModel, KV};
use std::cmp::Ordering;
use vstd::prelude::*;

verus! {

/// The converse of an ordering.
pub open spec fn flip(o: Ordering) -> Ordering {
    match o {
        Ordering::Less => Ordering::Greater,
        Ordering::Equal => Ordering::Equal,
        Ordering::Greater => Ordering::Less,
    }
}

pub(crate) proof fn lemma_bytes_flip(x: Seq<u8>, y: Seq<u8>)
    ensures
        cmp_bytes(x, y) == flip(cmp_bytes(y, x)),
        cmp_bytes(x, y) == Ordering::Equal <==> x == y,
    decreases x.len(),
{
    if x.len() > 0 && y.len() > 0 && x[0] == y[0] {
        lemma_bytes_flip(x.drop_first(), y.drop_first());
        if x.drop_first() == y.drop_first() {
            assert(x =~= seq![x[0]] + x.drop_first());
            assert(y =~= seq![y[0]] + y.drop_first());
        }
    }
    if x.len() == 0 && y.len() == 0 {
        assert(x =~= y);
    }
}

proof fn lemma_bytes_trans(x: Seq<u8>, y: Seq<u8>, z: Seq<u8>)
    requires
        cmp_bytes(x, y) == Ordering::Less,
        cmp_bytes(y, z) == Ordering::Less,
    ensures
        cmp_bytes(x, z) == Ordering::Less,
    decreases x.len(),
{
    if x.len() > 0 && y.len() > 0 && z.len() > 0 && x[0] == y[0] && y[0] == z[0] {
        lemma_bytes_trans(x.drop_first(), y.drop_first(), z.drop_first());
    }
}

proof fn lemma_model_flip(a: ValueModel, b: ValueModel)
    ensures
        cmp_model(a, b) == flip(cmp_model(b, a)),
        cmp_model(a, b) == Ordering::Equal <==> a == b,
    decreases a,
{
    if rank(a) == rank(b) {
        match (a, b) {
            (ValueModel::Char(x), ValueModel::Char(y)) => {
                if x as int == y as int {
                    assert(x == y);
                }
            },
            (ValueModel::Str(x), ValueModel::Str(y)) => lemma_bytes_flip(x, y),
            (ValueModel::Bytes(x), ValueModel::Bytes(y)) => lemma_bytes_flip(x, y),
            (ValueModel::Opt(x), ValueModel::Opt(y)) => {
                if let (Some(p), Some(q)) = (x, y) {
                    lemma_model_flip(*p, *q);
                }
            },
            (ValueModel::Newtype(p), ValueModel::Newtype(q)) => lemma_model_flip(*p, *q),
            (ValueModel::List(s), ValueModel::List(t)) => lemma_list_flip(s, t),
            (ValueModel::Dict(k1, v1), ValueModel::Dict(k2, v2)) => {
                lemma_list_flip(k1, k2);
                lemma_list_flip(v1, v2);
            },
            _ => {},
        }
    }
}

pub(crate) proof fn lemma_list_flip(s: Seq<ValueModel>, t: Seq<ValueModel>)
    ensures
        cmp_list(s, t) == flip(cmp_list(t, s)),
        cmp_list(s, t) == Ordering::Equal <==> s == t,
    decreases s,
{
    if s.len() > 0 && t.len() > 0 {
        lemma_model_flip(s[0], t[0]);
        if s[0] == t[0] {
            lemma_list_flip(s.drop_first(), t.drop_first());
            if s.drop_first() == t.drop_first() {
                assert(s =~= seq![s[0]] + s.drop_first());
                assert(t =~= seq![t[0]] + t.drop_first());
            }
        }
    }
    if s.len() == 0 && t.len() == 0 {
        assert(s =~= t);
    }
}

proof fn lemma_model_trans(a: ValueModel, b: ValueModel, c: ValueModel)
    requires
        cmp_model(a, b) == Ordering::Less,
        cmp_model(b, c) == Ordering::Less,
    ensures
        cmp_model(a, c) == Ordering::Less,
    decreases a,
{
    if rank(a) == rank(b) && rank(b) == rank(c) {
        match (a, b, c) {
            (ValueModel::Str(x), ValueModel::Str(y), ValueModel::Str(z)) => lemma_bytes_trans(
                x,
                y,
                z,
            ),
            (ValueModel::Bytes(x), ValueModel::Bytes(y), ValueModel::Bytes(z)) => lemma_bytes_trans(
                x,
                y,
                z,
            ),
            (ValueModel::Opt(x), ValueModel::Opt(y), ValueModel::Opt(z)) => {
                if let (Some(p), Some(q), Some(r)) = (x, y, z) {
                    lemma_model_trans(*p, *q, *r);
                }
            },
            (ValueModel::Newtype(p), ValueModel::Newtype(q), ValueModel::Newtype(r)) => {
                lemma_model_trans(*p, *q, *r);
            },
            (ValueModel::List(s), ValueModel::List(t), ValueModel::List(u)) => {
                lemma_list_trans(s, t, u);
            },
            (ValueModel::Dict(k1, v1), ValueModel::Dict(k2, v2), ValueModel::Dict(k3, v3)) => {
                lemma_list_flip(k1, k2);
                lemma_list_flip(k2, k3);
                if cmp_list(k1, k2) == Ordering::Less && cmp_list(k2, k3) == Ordering::Less {
                    lemma_list_trans(k1, k2, k3);
                }
                if k1 == k2 && k2 == k3 {
                    lemma_list_trans(v1, v2, v3);
                }
            },
            _ => {},
        }
    }
}

proof fn lemma_list_trans(s: Seq<ValueModel>, t: Seq<ValueModel>, u: Seq<ValueModel>)
    requires
        cmp_list(s, t) == Ordering::Less,
        cmp_list(t, u) == Ordering::Less,
    ensures
        cmp_list(s, u) == Ordering::Less,
    decreases s,
{
    if s.len() > 0 && t.len() > 0 && u.len() > 0 {
        lemma_model_flip(s[0], t[0]);
        lemma_model_flip(t[0], u[0]);
        if cmp_model(s[0], t[0]) == Ordering::Less && cmp_model(t[0], u[0]) == Ordering::Less {
            lemma_model_trans(s[0], t[0], u[0]);
        }
        if s[0] == t[0] && t[0] == u[0] {
            lemma_list_trans(s.drop_first(), t.drop_first(), u.drop_first());
        }
    }
}

/// `compare` is a total order: swapping the arguments reverses the result,
/// it answers `Equal` exactly on values with the same content, and it is
/// transitive.  Values that compare `Equal` have the same content hash.
pub proof fn lemma_total_order(a: Value, b: Value, c: Value)
    ensures
        cmp_values(a, b) == flip(cmp_values(b, a)),
        cmp_values(a, b) == Ordering::Equal <==> model(a) == model(b),
        cmp_values(a, b) == Ordering::Less && cmp_values(b, c) == Ordering::Less ==> cmp_values(
            a,
            c,
        ) == Ordering::Less,
        cmp_values(a, b) != Ordering::Greater && cmp_values(b, c) != Ordering::Greater
            ==> cmp_values(a, c) != Ordering::Greater,
        cmp_values(a, b) == Ordering::Equal ==> hash_value(a) == hash_value(b),
{
    lemma_model_flip(model(a), model(b));
    lemma_model_flip(model(b), model(c));
    lemma_model_flip(model(a), model(c));
    if cmp_values(a, b) == Ordering::Less && cmp_values(b, c) == Ordering::Less {
        lemma_model_trans(model(a), model(b), model(c));
    }
}

/// Values of different variants are never equal, and they compare by the
/// rank of their variants.
pub proof fn lemma_variant_rank(a: Value, b: Value)
    requires
        rank(model(a)) != rank(model(b)),
    ensures
        model(a) != model(b),
        cmp_values(a, b) == cmp_int(rank(model(a)), rank(model(b))),
{
}

/// Two collections compare `Equal` exactly when their keys and their values
/// agree position by position.
pub proof fn lemma_kv_order(a: KV, b: KV)
    ensures
        cmp_kv(a, b) == flip(cmp_kv(b, a)),
        cmp_kv(a, b) == Ordering::Equal <==> (model_list(a.0@) == model_list(b.0@) && model_list(
            a.1@,
        ) == model_list(b.1@)),
{
    lemma_list_flip(model_list(a.0@), model_list(b.0@));
    lemma_list_flip(model_list(a.1@), model_list(b.1@));
}

/// Whether a 32-bit pattern is a not-a-number.
pub open spec fn f32_is_nan(bits: u32) -> bool {
    bits as int % 0x8000_0000 > 0x7f80_0000
}

/// Whether a 64-bit pattern is a not-a-number.
pub open spec fn f64_is_nan(bits: u64) -> bool {
    bits as int % 0x8000_0000_0000_0000 > 0x7ff0_0000_0000_0000
}

/// Floats are totally ordered: every pattern, a not-a-number included, is
/// equal to itself; all not-a-number patterns are equal to each other and
/// greater than every other float; the two zeros are equal.
pub proof fn lemma_float_order(x: u64, y: u64, p: u32, q: u32)
    ensures
        cmp_values(Value::F64(x), Value::F64(x)) == Ordering::Equal,
        cmp_values(Value::F32(p), Value::F32(p)) == Ordering::Equal,
        f64_is_nan(x) && f64_is_nan(y) ==> model(Value::F64(x)) == model(Value::F64(y)),
        f32_is_nan(p) && f32_is_nan(q) ==> model(Value::F32(p)) == model(Value::F32(q)),
        f64_is_nan(x) && !f64_is_nan(y) ==> cmp_values(Value::F64(x), Value::F64(y))
            == Ordering::Greater,
        f32_is_nan(p) && !f32_is_nan(q) ==> cmp_values(Value::F32(p), Value::F32(q))
            == Ordering::Greater,
        x as int % 0x8000_0000_0000_0000 == 0 && y as int % 0x8000_0000_0000_0000 == 0 ==> model(
            Value::F64(x),
        ) == model(Value::F64(y)),
        p as int % 0x8000_0000 == 0 && q as int % 0x8000_0000 == 0 ==> model(Value::F32(p))
            == model(Value::F32(q)),
{
}

/// Canonicalizing the result `r` of a canonicalization of `v` (which has the
/// content of `v`) registers nothing new in the session.
pub proof fn lemma_dedup_idempotent(session: Registry, v: Value, r: Value)
    requires
        model(r) == model(v),
    ensures
        union(union(session, parts(model(v))), parts(model(r))) == union(
            session,
            parts(model(v)),
        ),
{
    assert(union(union(session, parts(model(v))), parts(model(r))) =~= union(
        session,
        parts(model(v)),
    ));
}

/// Key/value collections are compared position by position: two
/// collections whose keys or values differ at some position (the same pairs
/// in another order, say) are not equal, and canonicalizing both registers
/// both.
pub proof fn lemma_collections_positional(session: Registry, a: KV, b: KV)
    requires
        model_list(a.0@) != model_list(b.0@) || model_list(a.1@) != model_list(b.1@),
    ensures
        cmp_kv(a, b) != Ordering::Equal,
        model(Value::Mapping(std::sync::Arc::new(a))) != model(Value::Mapping(std::sync::Arc::new(b))),
        union(
            union(session, parts(model(Value::Mapping(std::sync::Arc::new(a))))),
            parts(model(Value::Mapping(std::sync::Arc::new(b)))),
        ).dicts.contains((model_list(a.0@), model_list(a.1@))),
        union(
            union(session, parts(model(Value::Mapping(std::sync::Arc::new(a))))),
            parts(model(Value::Mapping(std::sync::Arc::new(b)))),
        ).dicts.contains((model_list(b.0@), model_list(b.1@))),
{
    lemma_kv_order(a, b);
}

/// Each key is below the next one.
pub open spec fn strictly_sorted(ks: Seq<ValueModel>) -> bool {
    forall|i: int, j: int| 0 <= i < j < ks.len() ==> cmp_model(ks[i], ks[j]) == Ordering::Less
}

proof fn lemma_place(ks: Seq<ValueModel>, k: ValueModel)
    ensures
        0 <= place(ks, k) <= ks.len(),
        forall|i: int| 0 <= i < place(ks, k) ==> cmp_model(ks[i], k) == Ordering::Less,
        place(ks, k) < ks.len() ==> cmp_model(ks[place(ks, k)], k) != Ordering::Less,
    decreases ks.len(),
{
    if ks.len() > 0 && cmp_model(ks[0], k) == Ordering::Less {
        let rest = ks.drop_first();
        lemma_place(rest, k);
        assert forall|i: int| 0 <= i < place(ks, k) implies cmp_model(ks[i], k) == Ordering::Less by {
            if i > 0 {
                assert(ks[i] == rest[i - 1]);
            }
        }
    }
}

/// The keys of a collection built by `Value::map` are in strictly
/// increasing order, with one value for each key.
pub proof fn lemma_map_keys_sorted(entries: Seq<(ValueModel, ValueModel)>)
    ensures
        strictly_sorted(build_entries(entries).0),
        build_entries(entries).0.len() == build_entries(entries).1.len(),
    decreases entries.len(),
{
    if entries.len() > 0 {
        let d = build_entries(entries.drop_last());
        lemma_map_keys_sorted(entries.drop_last());
        let k = entries.last().0;
        lemma_place(d.0, k);
        let p = place(d.0, k);
        if !(p < d.0.len() && d.0[p] == k) {
            if p < d.0.len() {
                lemma_model_flip(d.0[p], k);
            }
            let old_keys = d.0;
            let ks = old_keys.insert(p, k);
            assert forall|i: int, j: int| 0 <= i < j < ks.len() implies cmp_model(ks[i], ks[j])
                == Ordering::Less by {
                if j < p {
                    assert(ks[i] == old_keys[i] && ks[j] == old_keys[j]);
                } else if j == p {
                    assert(ks[i] == old_keys[i]);
                } else if i < p {
                    assert(ks[i] == old_keys[i] && ks[j] == old_keys[j - 1]);
                } else if i == p {
                    assert(ks[j] == old_keys[j - 1]);
                    if j - 1 > p {
                        lemma_model_trans(k, old_keys[p], old_keys[j - 1]);
                    }
                } else {
                    assert(ks[i] == old_keys[i - 1] && ks[j] == old_keys[j - 1]);
                }
            }
        }
    }
}

} // verus!
