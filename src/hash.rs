use crate::order::{float32_key, float64_key, rank};
use crate::value::{model, model_list, Value, ValueModel};
use vstd::prelude::*;

verus! {

/// Folds one word into a running hash.
pub open spec fn mix(h: u64, x: u64) -> u64 {
    ((h as int * 0x100_0000_01b3 + x as int) % 0x1_0000_0000_0000_0000) as u64
}

/// Folds a byte string, first byte first, into a running hash.
pub open spec fn hash_bytes(h: u64, b: Seq<u8>) -> u64
    decreases b.len(),
{
    if b.len() == 0 {
        h
    } else {
        mix(hash_bytes(h, b.drop_last()), b.last() as u64)
    }
}

/// Folds the hashes of a sequence of values into a running hash.
pub open spec fn hash_list(h: u64, s: Seq<ValueModel>) -> u64
    decreases s,
{
    if s.len() == 0 {
        h
    } else {
        mix(hash_list(h, s.drop_last()), hash_model(s.last()))
    }
}

/// The content hash of a value model: its variant's rank combined with its
/// content.
pub open spec fn hash_model(m: ValueModel) -> u64
    decreases m,
{
    let h0 = rank(m) as u64;
    match m {
        ValueModel::Bool(x) => mix(h0, if x { 1 } else { 0 }),
        ValueModel::U8(x) => mix(h0, x as u64),
        ValueModel::U16(x) => mix(h0, x as u64),
        ValueModel::U32(x) => mix(h0, x as u64),
        ValueModel::U64(x) => mix(h0, x),
        ValueModel::I8(x) => mix(h0, x as u64),
        ValueModel::I16(x) => mix(h0, x as u64),
        ValueModel::I32(x) => mix(h0, x as u64),
        ValueModel::I64(x) => mix(h0, x as u64),
        ValueModel::F32(k) => mix(h0, k as u64),
        ValueModel::F64(k) => mix(h0, k as u64),
        ValueModel::Char(c) => mix(h0, c as u64),
        ValueModel::Str(b) => hash_bytes(h0, b),
        ValueModel::Unit => h0,
        ValueModel::Opt(o) => match o {
            None => mix(h0, 0),
            Some(p) => mix(mix(h0, 1), hash_model(*p)),
        },
        ValueModel::Newtype(p) => mix(h0, hash_model(*p)),
        ValueModel::List(s) => hash_list(h0, s),
        ValueModel::Dict(k, v) => hash_list(hash_list(h0, k), v),
        ValueModel::Bytes(b) => hash_bytes(h0, b),
    }
}

/// The content hash of a value.
pub open spec fn hash_value(v: Value) -> u64 {
    hash_model(model(v))
}

fn mix_exec(h: u64, x: u64) -> (r: u64)
    ensures
        r == mix(h, x),
{
    (((h as u128) * 0x100_0000_01b3 + (x as u128)) % 0x1_0000_0000_0000_0000) as u64
}

pub(crate) fn hash_byte_slice(h: u64, b: &[u8]) -> (r: u64)
    ensures
        r == hash_bytes(h, b@),
{
    let mut acc = h;
    let mut i: usize = 0;
    assert(b@.subrange(0, 0).len() == 0);
    while i < b.len()
        invariant
            i <= b@.len(),
            acc == hash_bytes(h, b@.subrange(0, i as int)),
        decreases b.len() - i,
    {
        assert(b@.subrange(0, i + 1).drop_last() =~= b@.subrange(0, i as int));
        acc = mix_exec(acc, b[i] as u64);
        i = i + 1;
    }
    assert(b@.subrange(0, b@.len() as int) =~= b@);
    acc
}

pub(crate) fn hash_vec(h: u64, s: &Vec<Value>) -> (r: u64)
    ensures
        r == hash_list(h, model_list(s@)),
    decreases s,
{
    broadcast use vstd::std_specs::vec::axiom_vec_index_decreases;

    let ghost ms = model_list(s@);
    let mut acc = h;
    let mut i: usize = 0;
    assert(ms.subrange(0, 0).len() == 0);
    while i < s.len()
        invariant
            i <= s@.len(),
            ms == model_list(s@),
            acc == hash_list(h, ms.subrange(0, i as int)),
        decreases s.len() - i,
    {
        assert(ms.subrange(0, i + 1).drop_last() =~= ms.subrange(0, i as int));
        let x = s[i].hash_code();
        acc = mix_exec(acc, x);
        i = i + 1;
    }
    assert(ms.subrange(0, ms.len() as int) =~= ms);
    acc
}

impl Value {
    /// The content hash: equal values have equal hashes, whatever their
    /// sharing.
    pub fn hash_code(&self) -> (r: u64)
        ensures
            r == hash_value(*self),
        decreases self,
    {
        let h0 = self.rank_of() as u64;
        match self {
            Value::Bool(x) => mix_exec(h0, if *x { 1 } else { 0 }),
            Value::U8(x) => mix_exec(h0, *x as u64),
            Value::U16(x) => mix_exec(h0, *x as u64),
            Value::U32(x) => mix_exec(h0, *x as u64),
            Value::U64(x) => mix_exec(h0, *x),
            Value::I8(x) => mix_exec(h0, *x as u64),
            Value::I16(x) => mix_exec(h0, *x as u64),
            Value::I32(x) => mix_exec(h0, *x as u64),
            Value::I64(x) => mix_exec(h0, *x as u64),
            Value::F32(b) => mix_exec(h0, float32_key(*b) as u64),
            Value::F64(b) => mix_exec(h0, float64_key(*b) as u64),
            Value::Char(c) => mix_exec(h0, *c as u64),
            Value::String(s) => hash_byte_slice(h0, s.as_str().as_bytes()),
            Value::Unit => h0,
            Value::Option(o) => match o {
                None => mix_exec(h0, 0),
                Some(p) => {
                    let inner = p.hash_code();
                    mix_exec(mix_exec(h0, 1), inner)
                },
            },
            Value::Newtype(p) => {
                let inner = p.hash_code();
                mix_exec(h0, inner)
            },
            Value::Sequence(s) => hash_vec(h0, s),
            Value::Mapping(kv) => {
                let hk = hash_vec(h0, &kv.0);
                hash_vec(hk, &kv.1)
            },
            Value::Bytes(b) => hash_byte_slice(h0, b.as_slice()),
        }
    }
}

} // verus!
