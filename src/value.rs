use std::sync::Arc;
use vstd::prelude::*;

verus! {

/// A self-describing structured value.
///
/// Floating-point payloads are held as their IEEE-754 bit patterns, so every
/// value, including a not-a-number, has a place in the total order.
#[derive(Debug)]
pub enum Value {
    Unit,
    Bool(bool),
    U8(u8),
    U16(u16),
    U32(u32),
    U64(u64),
    I8(i8),
    I16(i16),
    I32(i32),
    I64(i64),
    F32(u32),
    F64(u64),
    Char(char),
    Option(Option<Box<Value>>),
    Newtype(Box<Value>),
    String(Arc<String>),
    Bytes(Arc<Vec<u8>>),
    Sequence(Arc<Vec<Value>>),
    Mapping(Arc<KV>),
}

/// A key/value collection: a shareable key sequence and, position for
/// position, the values.
#[derive(Debug)]
pub struct KV(pub Arc<Vec<Value>>, pub Vec<Value>);

/// The mathematical content of a value.  Two values are equal exactly when
/// their models are equal.
pub enum ValueModel {
    Bool(bool),
    U8(u8),
    U16(u16),
    U32(u32),
    U64(u64),
    I8(i8),
    I16(i16),
    I32(i32),
    I64(i64),
    F32(int),
    F64(int),
    Char(char),
    Str(Seq<u8>),
    Unit,
    Opt(Option<Box<ValueModel>>),
    Newtype(Box<ValueModel>),
    List(Seq<ValueModel>),
    Dict(Seq<ValueModel>, Seq<ValueModel>),
    Bytes(Seq<u8>),
}

/// Position of a 32-bit float pattern in the float total order: not-a-number
/// patterns all sit above infinity, and both zeros share one place.
pub open spec fn f32_key(bits: u32) -> int {
    let mag = bits as int % 0x8000_0000;
    if mag > 0x7f80_0000 {
        0x8000_0000
    } else if bits as int >= 0x8000_0000 {
        -mag
    } else {
        mag
    }
}

/// Position of a 64-bit float pattern in the float total order.
pub open spec fn f64_key(bits: u64) -> int {
    let mag = bits as int % 0x8000_0000_0000_0000;
    if mag > 0x7ff0_0000_0000_0000 {
        0x8000_0000_0000_0000
    } else if bits as int >= 0x8000_0000_0000_0000 {
        -mag
    } else {
        mag
    }
}

pub open spec fn model_list(s: Seq<Value>) -> Seq<ValueModel>
    decreases s,
{
    Seq::new(s.len(), |i: int| if 0 <= i < s.len() { model(s[i]) } else { ValueModel::Unit })
}

/// The model of a value.
pub open spec fn model(v: Value) -> ValueModel
    decreases v,
{
    match v {
        Value::Unit => ValueModel::Unit,
        Value::Bool(b) => ValueModel::Bool(b),
        Value::U8(n) => ValueModel::U8(n),
        Value::U16(n) => ValueModel::U16(n),
        Value::U32(n) => ValueModel::U32(n),
        Value::U64(n) => ValueModel::U64(n),
        Value::I8(n) => ValueModel::I8(n),
        Value::I16(n) => ValueModel::I16(n),
        Value::I32(n) => ValueModel::I32(n),
        Value::I64(n) => ValueModel::I64(n),
        Value::F32(b) => ValueModel::F32(f32_key(b)),
        Value::F64(b) => ValueModel::F64(f64_key(b)),
        Value::Char(c) => ValueModel::Char(c),
        Value::Option(o) => match o {
            Some(b) => ValueModel::Opt(Some(Box::new(model(*b)))),
            None => ValueModel::Opt(None),
        },
        Value::Newtype(b) => ValueModel::Newtype(Box::new(model(*b))),
        Value::String(s) => ValueModel::Str(vstd::utf8::encode_utf8(s@)),
        Value::Bytes(b) => ValueModel::Bytes(b@),
        Value::Sequence(a) => ValueModel::List(model_list(a@)),
        Value::Mapping(kv) => ValueModel::Dict(model_list(kv.0@), model_list(kv.1@)),
    }
}

/// Relies on `Arc::clone`: a new handle to the same allocation.
#[verifier::external_body]
pub(crate) fn share<T>(a: &Arc<T>) -> (r: Arc<T>)
    ensures
        r == *a,
{
    Arc::clone(a)
}

impl Value {
    /// A sequence value holding `value`.
    pub fn seq(value: Vec<Value>) -> (r: Value)
        ensures
            r == Value::Sequence(Arc::new(value)),
    {
        Value::Sequence(Arc::new(value))
    }

    /// A string value holding `value`.
    pub fn string(value: String) -> (r: Value)
        ensures
            r == Value::String(Arc::new(value)),
    {
        Value::String(Arc::new(value))
    }

    /// A byte-blob value holding `value`.
    pub fn bytes(value: Vec<u8>) -> (r: Value)
        ensures
            r == Value::Bytes(Arc::new(value)),
    {
        Value::Bytes(Arc::new(value))
    }

    /// A copy of this value: shared children are shared, not copied.
    pub fn duplicate(&self) -> (r: Value)
        ensures
            r == *self,
        decreases self,
    {
        match self {
            Value::Unit => Value::Unit,
            Value::Bool(b) => Value::Bool(*b),
            Value::U8(n) => Value::U8(*n),
            Value::U16(n) => Value::U16(*n),
            Value::U32(n) => Value::U32(*n),
            Value::U64(n) => Value::U64(*n),
            Value::I8(n) => Value::I8(*n),
            Value::I16(n) => Value::I16(*n),
            Value::I32(n) => Value::I32(*n),
            Value::I64(n) => Value::I64(*n),
            Value::F32(n) => Value::F32(*n),
            Value::F64(n) => Value::F64(*n),
            Value::Char(c) => Value::Char(*c),
            Value::Option(o) => match o {
                None => Value::Option(None),
                Some(b) => Value::Option(Some(Box::new(b.duplicate()))),
            },
            Value::Newtype(b) => Value::Newtype(Box::new(b.duplicate())),
            Value::String(s) => Value::String(share(s)),
            Value::Bytes(b) => Value::Bytes(share(b)),
            Value::Sequence(a) => Value::Sequence(share(a)),
            Value::Mapping(kv) => Value::Mapping(share(kv)),
        }
    }
}

impl Clone for Value {
    fn clone(&self) -> Value {
        self.duplicate()
    }
}

impl Clone for KV {
    fn clone(&self) -> KV {
        self.duplicate()
    }
}

/// A copy of each value of `v`, in order.
pub fn duplicate_all(v: &Vec<Value>) -> (r: Vec<Value>)
    ensures
        r@ == v@,
{
    let mut out: Vec<Value> = Vec::new();
    let mut i: usize = 0;
    while i < v.len()
        invariant
            i <= v@.len(),
            out@ == v@.subrange(0, i as int),
        decreases v.len() - i,
    {
        out.push(v[i].duplicate());
        i = i + 1;
    }
    assert(v@.subrange(0, v@.len() as int) =~= v@);
    out
}

impl KV {
    /// The shared key sequence.
    pub fn keys(&self) -> (r: &Arc<Vec<Value>>)
        ensures
            *r == self.0,
    {
        &self.0
    }

    /// The values, position for position with the keys.
    pub fn values(&self) -> (r: &Vec<Value>)
        ensures
            *r == self.1,
    {
        &self.1
    }

    /// A copy of this collection; the key sequence is shared.
    pub fn duplicate(&self) -> (r: KV)
        ensures
            r.0 == self.0,
            r.1@ == self.1@,
    {
        KV(share(&self.0), duplicate_all(&self.1))
    }

    /// The key/value pairs, in order; a surplus key or value has no pair.
    pub fn entries(&self) -> (r: Vec<(Value, Value)>)
        ensures
            r@.len() == (if self.0@.len() <= self.1@.len() { self.0@.len() } else { self.1@.len() }),
            forall|i: int| 0 <= i < r@.len() ==> #[trigger] r@[i] == (self.0@[i], self.1@[i]),
    {
        let mut out: Vec<(Value, Value)> = Vec::new();
        let mut i: usize = 0;
        while i < self.0.len() && i < self.1.len()
            invariant
                i <= self.0@.len(),
                i <= self.1@.len(),
                out@.len() == i,
                forall|j: int| 0 <= j < i ==> #[trigger] out@[j] == (self.0@[j], self.1@[j]),
            decreases self.1.len() - i,
        {
            out.push((self.0[i].duplicate(), self.1[i].duplicate()));
            i = i + 1;
        }
        out
    }
}

/// What a decoder found where it expected something else.
#[derive(Clone, Copy, Debug)]
pub enum Found<'a> {
    Bool(bool),
    Unsigned(u64),
    Signed(i64),
    Float32(u32),
    Float64(u64),
    Char(char),
    Str(&'a str),
    Bytes(&'a [u8]),
    Unit,
    Option,
    NewtypeStruct,
    Sequence,
    Mapping,
}

impl Value {
    /// Describes this value for a type-mismatch report: integers widened to
    /// 64 bits, strings and blobs by their content, composites by kind.
    pub fn unexpected(&self) -> (r: Found<'_>)
        ensures
            match *self {
                Value::Bool(b) => r == Found::Bool(b),
                Value::U8(n) => r == Found::Unsigned(n as u64),
                Value::U16(n) => r == Found::Unsigned(n as u64),
                Value::U32(n) => r == Found::Unsigned(n as u64),
                Value::U64(n) => r == Found::Unsigned(n),
                Value::I8(n) => r == Found::Signed(n as i64),
                Value::I16(n) => r == Found::Signed(n as i64),
                Value::I32(n) => r == Found::Signed(n as i64),
                Value::I64(n) => r == Found::Signed(n),
                Value::F32(b) => r == Found::Float32(b),
                Value::F64(b) => r == Found::Float64(b),
                Value::Char(c) => r == Found::Char(c),
                Value::String(s) => r matches Found::Str(t) && t@ == s@,
                Value::Unit => r == Found::Unit,
                Value::Option(_) => r == Found::Option,
                Value::Newtype(_) => r == Found::NewtypeStruct,
                Value::Sequence(_) => r == Found::Sequence,
                Value::Mapping(_) => r == Found::Mapping,
                Value::Bytes(b) => r matches Found::Bytes(t) && t@ == b@,
            },
    {
        match self {
            Value::Bool(b) => Found::Bool(*b),
            Value::U8(n) => Found::Unsigned(*n as u64),
            Value::U16(n) => Found::Unsigned(*n as u64),
            Value::U32(n) => Found::Unsigned(*n as u64),
            Value::U64(n) => Found::Unsigned(*n),
            Value::I8(n) => Found::Signed(*n as i64),
            Value::I16(n) => Found::Signed(*n as i64),
            Value::I32(n) => Found::Signed(*n as i64),
            Value::I64(n) => Found::Signed(*n),
            Value::F32(b) => Found::Float32(*b),
            Value::F64(b) => Found::Float64(*b),
            Value::Char(c) => Found::Char(*c),
            Value::String(s) => Found::Str(s.as_str()),
            Value::Unit => Found::Unit,
            Value::Option(_) => Found::Option,
            Value::Newtype(_) => Found::NewtypeStruct,
            Value::Sequence(_) => Found::Sequence,
            Value::Mapping(_) => Found::Mapping,
            Value::Bytes(b) => Found::Bytes(b.as_slice()),
        }
    }
}

} // verus!
