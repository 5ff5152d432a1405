use crate::laws::{lemma_bytes_flip, lemma_list_flip};
use crate::hash::{hash_byte_slice, hash_bytes, hash_list, hash_vec};
use crate::index::HashIndex;
use crate::order::{compare_bytes, compare_list};
use crate::value::{duplicate_all, model, model_list, share, Value, ValueModel, KV};
use std::cmp::Ordering;
use std::sync::Arc;
use vstd::prelude::*;

verus! {

/// Shareable content, by shape: byte blobs, strings (as UTF-8 bytes),
/// sequences, and key/value collections (as key and value sequences).
#[verifier::ext_equal]
pub struct Registry {
    pub blobs: Set<Seq<u8>>,
    pub strings: Set<Seq<u8>>,
    pub lists: Set<Seq<ValueModel>>,
    pub dicts: Set<(Seq<ValueModel>, Seq<ValueModel>)>,
}

pub open spec fn empty_registry() -> Registry {
    Registry {
        blobs: Set::empty(),
        strings: Set::empty(),
        lists: Set::empty(),
        dicts: Set::empty(),
    }
}

pub open spec fn union(a: Registry, b: Registry) -> Registry {
    Registry {
        blobs: a.blobs + b.blobs,
        strings: a.strings + b.strings,
        lists: a.lists + b.lists,
        dicts: a.dicts + b.dicts,
    }
}

/// Every shareable sub-value of a value model, its own content included.
pub open spec fn parts(m: ValueModel) -> Registry
    decreases m,
{
    match m {
        ValueModel::Str(b) => Registry { strings: set![b], ..empty_registry() },
        ValueModel::Bytes(b) => Registry { blobs: set![b], ..empty_registry() },
        ValueModel::Opt(o) => match o {
            Some(b) => parts(*b),
            None => empty_registry(),
        },
        ValueModel::Newtype(b) => parts(*b),
        ValueModel::List(s) => union(
            parts_list(s),
            Registry { lists: set![s], ..empty_registry() },
        ),
        ValueModel::Dict(k, v) => union(
            union(parts_list(k), parts_list(v)),
            Registry { lists: set![k], dicts: set![(k, v)], ..empty_registry() },
        ),
        _ => empty_registry(),
    }
}

/// The shareable sub-values of all elements of a sequence.
pub open spec fn parts_list(s: Seq<ValueModel>) -> Registry
    decreases s,
{
    if s.len() == 0 {
        empty_registry()
    } else {
        union(parts_list(s.drop_last()), parts(s.last()))
    }
}

/// The sum of `cost` over the elements of `s`.
pub open spec fn total<T>(s: Seq<T>, cost: spec_fn(T) -> int) -> int
    decreases s.len(),
{
    if s.len() == 0 {
        0
    } else {
        total(s.drop_last(), cost) + cost(s.last())
    }
}

spec fn blob_cost(a: Arc<Vec<u8>>) -> int {
    a@.len() as int
}

spec fn string_cost(a: Arc<String>) -> int {
    string_bytes(a).len() as int
}

spec fn vector_cost(a: Arc<Vec<Value>>) -> int {
    (a@.len() * vstd::layout::size_of::<Value>()) as int
}

spec fn object_cost(a: Arc<KV>) -> int {
    (vstd::layout::size_of::<KV>() + a.1@.len() * vstd::layout::size_of::<Value>()) as int
}

/// `n`, or `usize::MAX` where `n` is larger.
pub open spec fn clamp(n: int) -> int {
    if n > usize::MAX {
        usize::MAX as int
    } else {
        n
    }
}

/// `a + b`, saturating.
fn add_clamped(a: usize, b: usize) -> (r: usize)
    ensures
        r == clamp(a + b),
{
    a.saturating_add(b)
}

fn mul_clamped(a: usize, b: usize) -> (r: usize)
    ensures
        r == clamp(a * b),
{
    if b != 0 && a > usize::MAX / b {
        assert(a * b > usize::MAX) by (nonlinear_arith)
            requires
                b != 0,
                a > usize::MAX / b,
        ;
        usize::MAX
    } else {
        assert(a * b <= usize::MAX) by (nonlinear_arith)
            requires
                b == 0 || a <= usize::MAX / b,
        ;
        a * b
    }
}

/// Adds the length of a byte string to a running size.
pub open spec fn bytes_step() -> spec_fn(int, Seq<u8>) -> int {
    |acc: int, b: Seq<u8>| acc + b.len()
}

/// Adds the size of a sequence of values to a running size.
pub open spec fn list_step() -> spec_fn(int, Seq<ValueModel>) -> int {
    |acc: int, l: Seq<ValueModel>| acc + l.len() * vstd::layout::size_of::<Value>()
}

/// Adds the size of a key/value collection to a running size.
pub open spec fn dict_step() -> spec_fn(int, (Seq<ValueModel>, Seq<ValueModel>)) -> int {
    |acc: int, d: (Seq<ValueModel>, Seq<ValueModel>)|
        acc + vstd::layout::size_of::<KV>() + d.1.len() * vstd::layout::size_of::<Value>()
}

/// The size estimate of registered content: the length of each blob and
/// string, the element count of each sequence times the size of a value,
/// and for each collection the size of the collection record plus its value
/// count times the size of a value.
pub open spec fn registry_size(r: Registry) -> int {
    r.blobs.fold(0, bytes_step()) + r.strings.fold(0, bytes_step()) + r.lists.fold(0, list_step())
        + r.dicts.fold(0, dict_step())
}

/// Each set of `a` is a subset of the matching set of `b`.
pub open spec fn included(a: Registry, b: Registry) -> bool {
    &&& a.blobs.subset_of(b.blobs)
    &&& a.strings.subset_of(b.strings)
    &&& a.lists.subset_of(b.lists)
    &&& a.dicts.subset_of(b.dicts)
}

/// Summing `cost` over a sequence of items with distinct contents is folding
/// the matching step over the set of those contents.
proof fn lemma_total_is_fold<T, U>(
    s: Seq<T>,
    g: spec_fn(T) -> U,
    cost: spec_fn(T) -> int,
    c: spec_fn(U) -> int,
    f: spec_fn(int, U) -> int,
)
    requires
        forall|i: int, j: int| 0 <= i < j < s.len() ==> g(s[i]) != g(s[j]),
        forall|a: T| #[trigger] cost(a) == c(g(a)),
        forall|acc: int, u: U| #[trigger] f(acc, u) == acc + c(u),
    ensures
        contents(s, g).finite(),
        total(s, cost) == contents(s, g).fold(0, f),
    decreases s.len(),
{
    if s.len() == 0 {
        assert(contents(s, g) =~= Set::empty());
        vstd::set::fold::lemma_fold_empty(0int, f);
    } else {
        let p = s.drop_last();
        let x = s.last();
        lemma_total_is_fold(p, g, cost, c, f);
        assert(p.push(x) =~= s);
        lemma_contents_push(p, x, g);
        if contents(p, g).contains(g(x)) {
            let i = choose|i: int| 0 <= i < p.len() && g(p[i]) == g(x);
            assert(g(s[i]) == g(s[s.len() - 1]));
        }
        assert(vstd::set::fold::is_fun_commutative(f)) by {
            assert forall|a1: U, a2: U, b: int| #[trigger] f(f(b, a2), a1) == f(f(b, a1), a2) by {
                assert(f(b, a2) == b + c(a2));
                assert(f(b, a1) == b + c(a1));
            }
        }
        vstd::set::fold::lemma_fold_insert(contents(p, g), 0int, f, g(x));
    }
}

/// Folding a step that adds a non-negative cost over a finite set gives at
/// least as much as over any of its subsets.
proof fn lemma_fold_monotone<U>(a: Set<U>, b: Set<U>, c: spec_fn(U) -> int, f: spec_fn(int, U) -> int)
    requires
        b.finite(),
        a.subset_of(b),
        forall|u: U| #[trigger] c(u) >= 0,
        forall|acc: int, u: U| #[trigger] f(acc, u) == acc + c(u),
    ensures
        a.fold(0, f) <= b.fold(0, f),
    decreases b.len(),
{
    if !(a =~= b) {
        let x = choose|x: U| b.contains(x) && !a.contains(x);
        let rest = b.remove(x);
        lemma_fold_monotone(a, rest, c, f);
        assert(rest.insert(x) =~= b);
        assert(vstd::set::fold::is_fun_commutative(f)) by {
            assert forall|a1: U, a2: U, z: int| #[trigger] f(f(z, a2), a1) == f(f(z, a1), a2) by {
                assert(f(z, a2) == z + c(a2));
                assert(f(z, a1) == z + c(a1));
            }
        }
        vstd::set::fold::lemma_fold_insert(rest, 0int, f, x);
        assert(c(x) >= 0);
    }
}

/// Whether a value is a scalar: unit, a boolean, a number or a character.
pub open spec fn is_scalar(v: Value) -> bool {
    !(v is Option || v is Newtype || v is String || v is Bytes || v is Sequence || v is Mapping)
}

/// A canonicalization session: one content-addressed set per shareable shape.
pub struct Dedup {
    blobs: Vec<Arc<Vec<u8>>>,
    strings: Vec<Arc<String>>,
    vectors: Vec<Arc<Vec<Value>>>,
    objects: Vec<Arc<KV>>,
    blob_index: HashIndex,
    string_index: HashIndex,
    vector_index: HashIndex,
    object_index: HashIndex,
}

pub open spec fn blob_hash(a: Arc<Vec<u8>>) -> u64 {
    hash_bytes(0, a@)
}

pub open spec fn string_hash(a: Arc<String>) -> u64 {
    hash_bytes(0, string_bytes(a))
}

pub open spec fn vector_hash(a: Arc<Vec<Value>>) -> u64 {
    hash_list(0, model_list(a@))
}

pub open spec fn object_hash(a: Arc<KV>) -> u64 {
    hash_list(hash_list(0, kv_content(a).0), kv_content(a).1)
}

pub open spec fn string_bytes(s: Arc<String>) -> Seq<u8> {
    vstd::utf8::encode_utf8(s@)
}

pub open spec fn kv_content(kv: Arc<KV>) -> (Seq<ValueModel>, Seq<ValueModel>) {
    (model_list(kv.0@), model_list(kv.1@))
}

/// The set of the images under `f` of the elements of `s`.
pub open spec fn contents<T, U>(s: Seq<T>, f: spec_fn(T) -> U) -> Set<U> {
    Set::new(|u: U| exists|i: int| 0 <= i < s.len() && f(s[i]) == u)
}

proof fn lemma_contents_push<T, U>(s: Seq<T>, x: T, f: spec_fn(T) -> U)
    ensures
        contents(s.push(x), f) == contents(s, f).insert(f(x)),
{
    let t = s.push(x);
    assert forall|u: U| contents(t, f).contains(u) <==> contents(s, f).insert(f(x)).contains(u) by {
        if contents(s, f).contains(u) {
            let i = choose|i: int| 0 <= i < s.len() && f(s[i]) == u;
            assert(f(t[i]) == u);
        }
        if u == f(x) {
            assert(f(t[s.len() as int]) == u);
        }
        if contents(t, f).contains(u) {
            let i = choose|i: int| 0 <= i < t.len() && f(t[i]) == u;
            if i < s.len() {
                assert(f(s[i]) == u);
            }
        }
    }
    assert(contents(t, f) =~= contents(s, f).insert(f(x)));
}

proof fn lemma_contents_pointwise<T, S, U>(
    s: Seq<T>,
    f: spec_fn(T) -> U,
    t: Seq<S>,
    g: spec_fn(S) -> U,
)
    requires
        s.len() == t.len(),
        forall|i: int| 0 <= i < s.len() ==> f(s[i]) == g(t[i]),
    ensures
        contents(s, f) == contents(t, g),
{
    assert forall|u: U| contents(s, f).contains(u) <==> contents(t, g).contains(u) by {
        if contents(s, f).contains(u) {
            let i = choose|i: int| 0 <= i < s.len() && f(s[i]) == u;
            assert(g(t[i]) == u);
        }
        if contents(t, g).contains(u) {
            let i = choose|i: int| 0 <= i < t.len() && g(t[i]) == u;
            assert(f(s[i]) == u);
        }
    }
    assert(contents(s, f) =~= contents(t, g));
}

/// Relies on `Arc::strong_count`: the number of live handles to the
/// allocation, the one passed in among them.
#[verifier::external_body]
fn handle_count<T>(a: &Arc<T>) -> (r: usize)
    ensures
        r >= 1,
{
    Arc::strong_count(a)
}

/// The entries of `s` whose count exceeds `threshold`, in order.
pub open spec fn popular_entries<T>(s: Seq<(T, usize)>, threshold: usize) -> Seq<(T, usize)>
    decreases s.len(),
{
    if s.len() == 0 {
        s
    } else if s[0].1 > threshold {
        seq![s[0]] + popular_entries(s.drop_first(), threshold)
    } else {
        popular_entries(s.drop_first(), threshold)
    }
}

/// Keeps the entries whose count exceeds `threshold`, in order.
pub fn popular<T>(entries: Vec<(T, usize)>, threshold: usize) -> (r: Vec<(T, usize)>)
    ensures
        r@ == popular_entries(entries@, threshold),
{
    let ghost all = entries@;
    let mut rest = entries;
    let mut out: Vec<(T, usize)> = Vec::new();
    assert(out@ + popular_entries(rest@, threshold) =~= popular_entries(all, threshold));
    while rest.len() > 0
        invariant
            popular_entries(all, threshold) == out@ + popular_entries(rest@, threshold),
        decreases rest.len(),
    {
        let ghost before = rest@;
        let e = rest.remove(0);
        assert(before.drop_first() =~= rest@);
        if e.1 > threshold {
            let ghost o = out@;
            out.push(e);
            assert(o + (seq![e] + popular_entries(rest@, threshold)) =~= out@ + popular_entries(
                rest@,
                threshold,
            ));
        }
    }
    assert(out@ + popular_entries(rest@, threshold) =~= out@);
    out
}

impl View for Dedup {
    type V = Registry;

    closed spec fn view(&self) -> Registry {
        Registry {
            blobs: contents(self.blobs@, |a: Arc<Vec<u8>>| a@),
            strings: contents(self.strings@, |a: Arc<String>| string_bytes(a)),
            lists: contents(self.vectors@, |a: Arc<Vec<Value>>| model_list(a@)),
            dicts: contents(self.objects@, |a: Arc<KV>| kv_content(a)),
        }
    }
}

impl Dedup {
    /// Each content is held once, and each index describes the hashes of
    /// its contents.
    pub closed spec fn wf(&self) -> bool {
        &&& self.blob_index.indexes(self.blobs@.map_values(|a: Arc<Vec<u8>>| blob_hash(a)))
        &&& self.string_index.indexes(self.strings@.map_values(|a: Arc<String>| string_hash(a)))
        &&& self.vector_index.indexes(self.vectors@.map_values(|a: Arc<Vec<Value>>| vector_hash(a)))
        &&& self.object_index.indexes(self.objects@.map_values(|a: Arc<KV>| object_hash(a)))
        &&& forall|i: int, j: int|
            0 <= i < j < self.blobs@.len() ==> self.blobs@[i]@ != self.blobs@[j]@
        &&& forall|i: int, j: int|
            0 <= i < j < self.strings@.len() ==> string_bytes(self.strings@[i]) != string_bytes(
                self.strings@[j],
            )
        &&& forall|i: int, j: int|
            0 <= i < j < self.vectors@.len() ==> model_list(self.vectors@[i]@) != model_list(
                self.vectors@[j]@,
            )
        &&& forall|i: int, j: int|
            0 <= i < j < self.objects@.len() ==> kv_content(self.objects@[i]) != kv_content(
                self.objects@[j],
            )
    }

    /// A fresh session, with nothing registered.
    pub fn new() -> (r: Dedup)
        ensures
            r.wf(),
            r@ == empty_registry(),
            registry_size(r@) == 0,
    {
        let r = Dedup {
            blobs: Vec::new(),
            strings: Vec::new(),
            vectors: Vec::new(),
            objects: Vec::new(),
            blob_index: HashIndex::new(),
            string_index: HashIndex::new(),
            vector_index: HashIndex::new(),
            object_index: HashIndex::new(),
        };
        assert(r.blobs@.map_values(|a: Arc<Vec<u8>>| blob_hash(a)) =~= Seq::empty());
        assert(r.strings@.map_values(|a: Arc<String>| string_hash(a)) =~= Seq::empty());
        assert(r.vectors@.map_values(|a: Arc<Vec<Value>>| vector_hash(a)) =~= Seq::empty());
        assert(r.objects@.map_values(|a: Arc<KV>| object_hash(a)) =~= Seq::empty());
        assert(r@ =~= empty_registry());
        proof {
            vstd::set::fold::lemma_fold_empty(0int, bytes_step());
            vstd::set::fold::lemma_fold_empty(0int, list_step());
            vstd::set::fold::lemma_fold_empty(0int, dict_step());
        }
        r
    }

    fn dedup_blob(&mut self, value: Arc<Vec<u8>>) -> (r: Arc<Vec<u8>>)
        requires
            old(self).wf(),
        ensures
            final(self).wf(),
            r@ == value@,
            final(self)@ == (Registry { blobs: old(self)@.blobs.insert(value@), ..old(self)@ }),
    {
        let h = hash_byte_slice(0, value.as_slice());
        let ghost hs = self.blobs@.map_values(|a: Arc<Vec<u8>>| blob_hash(a));
        if let Some(bucket) = self.blob_index.bucket(h, Ghost(hs)) {
            let mut j: usize = 0;
            while j < bucket.len()
                invariant
                    self.wf(),
                    hs == self.blobs@.map_values(|a: Arc<Vec<u8>>| blob_hash(a)),
                    h == blob_hash(value),
                    j <= bucket@.len(),
                    forall|k: int| 0 <= k < bucket@.len() ==> #[trigger] bucket@[k] < hs.len(),
                    forall|i: int| 0 <= i < hs.len() && hs[i] == h ==> bucket@.contains(i as usize),
                    forall|k: int|
                        0 <= k < j ==> self.blobs@[#[trigger] bucket@[k] as int]@ != value@,
                decreases bucket.len() - j,
            {
                let p = bucket[j];
                let c = compare_bytes(self.blobs[p].as_slice(), value.as_slice());
                proof {
                    lemma_bytes_flip(self.blobs@[p as int]@, value@);
                }
                if let Ordering::Equal = c {
                    let r = share(&self.blobs[p]);
                    assert(contents(self.blobs@, |a: Arc<Vec<u8>>| a@).contains(value@)) by {
                        assert((|a: Arc<Vec<u8>>| a@)(self.blobs@[p as int]) == value@);
                    }
                    assert(self@ =~= Registry { blobs: self@.blobs.insert(value@), ..self@ });
                    return r;
                }
                j = j + 1;
            }
            assert forall|i: int| 0 <= i < self.blobs@.len() implies self.blobs@[i]@ != value@ by {
                assert(self.blobs@.len() == self.blobs.len()) by {
                    broadcast use vstd::std_specs::vec::axiom_spec_len;
                }
                if self.blobs@[i]@ == value@ {
                    assert(hs[i] == h);
                    assert(bucket@.contains(i as usize));
                    let k = choose|k: int| 0 <= k < bucket@.len() && bucket@[k] == i as usize;
                    assert(bucket@[k] as int == i);
                    assert(self.blobs@[bucket@[k] as int]@ != value@);
                }
            }
        } else {
            assert forall|i: int| 0 <= i < self.blobs@.len() implies self.blobs@[i]@ != value@ by {
                assert(hs[i] != h);
            }
        }
        let ghost before = self@;
        proof {
            lemma_contents_push(self.blobs@, value, |a: Arc<Vec<u8>>| a@);
        }
        let n = self.blobs.len();
        self.blobs.push(share(&value));
        self.blob_index.add(h, n, Ghost(hs));
        assert(self.blobs@.map_values(|a: Arc<Vec<u8>>| blob_hash(a)) =~= hs.push(h));
        assert(self@ =~= Registry { blobs: before.blobs.insert(value@), ..before });
        value
    }

    fn dedup_string(&mut self, value: Arc<String>) -> (r: Arc<String>)
        requires
            old(self).wf(),
        ensures
            final(self).wf(),
            string_bytes(r) == string_bytes(value),
            final(self)@ == (Registry { strings: old(self)@.strings.insert(string_bytes(value)), ..old(self)@ }),
    {
        let h = hash_byte_slice(0, value.as_str().as_bytes());
        let ghost hs = self.strings@.map_values(|a: Arc<String>| string_hash(a));
        if let Some(bucket) = self.string_index.bucket(h, Ghost(hs)) {
            let mut j: usize = 0;
            while j < bucket.len()
                invariant
                    self.wf(),
                    hs == self.strings@.map_values(|a: Arc<String>| string_hash(a)),
                    h == string_hash(value),
                    j <= bucket@.len(),
                    forall|k: int| 0 <= k < bucket@.len() ==> #[trigger] bucket@[k] < hs.len(),
                    forall|i: int| 0 <= i < hs.len() && hs[i] == h ==> bucket@.contains(i as usize),
                    forall|k: int|
                        0 <= k < j ==>
                            string_bytes(self.strings@[#[trigger] bucket@[k] as int]) != string_bytes(value),
                decreases bucket.len() - j,
            {
                let p = bucket[j];
                let c = compare_bytes(self.strings[p].as_str().as_bytes(), value.as_str().as_bytes());
                proof {
                    lemma_bytes_flip(string_bytes(self.strings@[p as int]), string_bytes(value));
                }
                if let Ordering::Equal = c {
                    let r = share(&self.strings[p]);
                    assert(contents(self.strings@, |a: Arc<String>| string_bytes(a)).contains(string_bytes(value)))
                    by {
                        assert((|a: Arc<String>| string_bytes(a))(self.strings@[p as int]) == string_bytes(value));
                    }
                    assert(self@ =~= Registry { strings: self@.strings.insert(string_bytes(value)), ..self@ });
                    return r;
                }
                j = j + 1;
            }
            assert forall|i: int| 0 <= i < self.strings@.len() implies
                string_bytes(self.strings@[i]) != string_bytes(value)
            by {
                assert(self.strings@.len() == self.strings.len()) by {
                    broadcast use vstd::std_specs::vec::axiom_spec_len;
                }
                if string_bytes(self.strings@[i]) == string_bytes(value) {
                    assert(hs[i] == h);
                    assert(bucket@.contains(i as usize));
                    let k = choose|k: int| 0 <= k < bucket@.len() && bucket@[k] == i as usize;
                    assert(bucket@[k] as int == i);
                    assert(string_bytes(self.strings@[bucket@[k] as int]) != string_bytes(value));
                }
            }
        } else {
            assert forall|i: int| 0 <= i < self.strings@.len() implies
                string_bytes(self.strings@[i]) != string_bytes(value)
            by {
                assert(hs[i] != h);
            }
        }
        let ghost before = self@;
        proof {
            lemma_contents_push(self.strings@, value, |a: Arc<String>| string_bytes(a));
        }
        let n = self.strings.len();
        self.strings.push(share(&value));
        self.string_index.add(h, n, Ghost(hs));
        assert(self.strings@.map_values(|a: Arc<String>| string_hash(a)) =~= hs.push(h));
        assert(self@ =~= Registry { strings: before.strings.insert(string_bytes(value)), ..before });
        value
    }

    fn dedup_seq(&mut self, value: Arc<Vec<Value>>) -> (r: Arc<Vec<Value>>)
        requires
            old(self).wf(),
        ensures
            final(self).wf(),
            model_list(r@) == model_list(value@),
            final(self)@ == (Registry { lists: old(self)@.lists.insert(model_list(value@)), ..old(self)@ }),
    {
        let h = hash_vec(0, &value);
        let ghost hs = self.vectors@.map_values(|a: Arc<Vec<Value>>| vector_hash(a));
        if let Some(bucket) = self.vector_index.bucket(h, Ghost(hs)) {
            let mut j: usize = 0;
            while j < bucket.len()
                invariant
                    self.wf(),
                    hs == self.vectors@.map_values(|a: Arc<Vec<Value>>| vector_hash(a)),
                    h == vector_hash(value),
                    j <= bucket@.len(),
                    forall|k: int| 0 <= k < bucket@.len() ==> #[trigger] bucket@[k] < hs.len(),
                    forall|i: int| 0 <= i < hs.len() && hs[i] == h ==> bucket@.contains(i as usize),
                    forall|k: int|
                        0 <= k < j ==>
                            model_list(self.vectors@[#[trigger] bucket@[k] as int]@) != model_list(value@),
                decreases bucket.len() - j,
            {
                let p = bucket[j];
                let c = compare_list(&self.vectors[p], &value);
                proof {
                    lemma_list_flip(model_list(self.vectors@[p as int]@), model_list(value@));
                }
                if let Ordering::Equal = c {
                    let r = share(&self.vectors[p]);
                    assert(contents(self.vectors@, |a: Arc<Vec<Value>>| model_list(a@)).contains(model_list(value@)))
                    by {
                        assert((|a: Arc<Vec<Value>>| model_list(a@))(self.vectors@[p as int]) == model_list(value@));
                    }
                    assert(self@ =~= Registry { lists: self@.lists.insert(model_list(value@)), ..self@ });
                    return r;
                }
                j = j + 1;
            }
            assert forall|i: int| 0 <= i < self.vectors@.len() implies
                model_list(self.vectors@[i]@) != model_list(value@)
            by {
                assert(self.vectors@.len() == self.vectors.len()) by {
                    broadcast use vstd::std_specs::vec::axiom_spec_len;
                }
                if model_list(self.vectors@[i]@) == model_list(value@) {
                    assert(hs[i] == h);
                    assert(bucket@.contains(i as usize));
                    let k = choose|k: int| 0 <= k < bucket@.len() && bucket@[k] == i as usize;
                    assert(bucket@[k] as int == i);
                    assert(model_list(self.vectors@[bucket@[k] as int]@) != model_list(value@));
                }
            }
        } else {
            assert forall|i: int| 0 <= i < self.vectors@.len() implies
                model_list(self.vectors@[i]@) != model_list(value@)
            by {
                assert(hs[i] != h);
            }
        }
        let ghost before = self@;
        proof {
            lemma_contents_push(self.vectors@, value, |a: Arc<Vec<Value>>| model_list(a@));
        }
        let n = self.vectors.len();
        self.vectors.push(share(&value));
        self.vector_index.add(h, n, Ghost(hs));
        assert(self.vectors@.map_values(|a: Arc<Vec<Value>>| vector_hash(a)) =~= hs.push(h));
        assert(self@ =~= Registry { lists: before.lists.insert(model_list(value@)), ..before });
        value
    }

    fn dedup_map(&mut self, value: Arc<KV>) -> (r: Arc<KV>)
        requires
            old(self).wf(),
        ensures
            final(self).wf(),
            kv_content(r) == kv_content(value),
            final(self)@ == (Registry { dicts: old(self)@.dicts.insert(kv_content(value)), ..old(self)@ }),
    {
        let h = hash_vec(hash_vec(0, &value.0), &value.1);
        let ghost hs = self.objects@.map_values(|a: Arc<KV>| object_hash(a));
        if let Some(bucket) = self.object_index.bucket(h, Ghost(hs)) {
            let mut j: usize = 0;
            while j < bucket.len()
                invariant
                    self.wf(),
                    hs == self.objects@.map_values(|a: Arc<KV>| object_hash(a)),
                    h == object_hash(value),
                    j <= bucket@.len(),
                    forall|k: int| 0 <= k < bucket@.len() ==> #[trigger] bucket@[k] < hs.len(),
                    forall|i: int| 0 <= i < hs.len() && hs[i] == h ==> bucket@.contains(i as usize),
                    forall|k: int|
                        0 <= k < j ==>
                            kv_content(self.objects@[#[trigger] bucket@[k] as int]) != kv_content(value),
                decreases bucket.len() - j,
            {
                let p = bucket[j];
                let c = self.objects[p].compare(&value);
                proof {
                    lemma_list_flip(kv_content(self.objects@[p as int]).0, kv_content(value).0);
                    lemma_list_flip(kv_content(self.objects@[p as int]).1, kv_content(value).1);
                }
                if let Ordering::Equal = c {
                    let r = share(&self.objects[p]);
                    assert(contents(self.objects@, |a: Arc<KV>| kv_content(a)).contains(kv_content(value)))
                    by {
                        assert((|a: Arc<KV>| kv_content(a))(self.objects@[p as int]) == kv_content(value));
                    }
                    assert(self@ =~= Registry { dicts: self@.dicts.insert(kv_content(value)), ..self@ });
                    return r;
                }
                j = j + 1;
            }
            assert forall|i: int| 0 <= i < self.objects@.len() implies
                kv_content(self.objects@[i]) != kv_content(value)
            by {
                assert(self.objects@.len() == self.objects.len()) by {
                    broadcast use vstd::std_specs::vec::axiom_spec_len;
                }
                if kv_content(self.objects@[i]) == kv_content(value) {
                    assert(hs[i] == h);
                    assert(bucket@.contains(i as usize));
                    let k = choose|k: int| 0 <= k < bucket@.len() && bucket@[k] == i as usize;
                    assert(bucket@[k] as int == i);
                    assert(kv_content(self.objects@[bucket@[k] as int]) != kv_content(value));
                }
            }
        } else {
            assert forall|i: int| 0 <= i < self.objects@.len() implies
                kv_content(self.objects@[i]) != kv_content(value)
            by {
                assert(hs[i] != h);
            }
        }
        let ghost before = self@;
        proof {
            lemma_contents_push(self.objects@, value, |a: Arc<KV>| kv_content(a));
        }
        let n = self.objects.len();
        self.objects.push(share(&value));
        self.object_index.add(h, n, Ghost(hs));
        assert(self.objects@.map_values(|a: Arc<KV>| object_hash(a)) =~= hs.push(h));
        assert(self@ =~= Registry { dicts: before.dicts.insert(kv_content(value)), ..before });
        value
    }

    /// Canonicalizes each element of `vec`, in order.
    fn dedup_value_vec(&mut self, vec: &Vec<Value>) -> (r: Vec<Value>)
        requires
            old(self).wf(),
        ensures
            final(self).wf(),
            model_list(r@) == model_list(vec@),
            final(self)@ == union(old(self)@, parts_list(model_list(vec@))),
        decreases vec,
    {
        broadcast use vstd::std_specs::vec::axiom_vec_index_decreases;

        let ghost start = self@;
        let ghost ms = model_list(vec@);
        let mut out: Vec<Value> = Vec::new();
        let mut i: usize = 0;
        assert(ms.subrange(0, 0) =~= Seq::<ValueModel>::empty());
        assert(union(start, empty_registry()) =~= start);
        while i < vec.len()
            invariant
                self.wf(),
                i <= vec@.len(),
                ms == model_list(vec@),
                out@.len() == i,
                forall|j: int| 0 <= j < i ==> model(#[trigger] out@[j]) == model(vec@[j]),
                self@ == union(start, parts_list(ms.subrange(0, i as int))),
            decreases vec.len() - i,
        {
            let ghost mid = self@;
            let x = self.canon(&vec[i]);
            out.push(x);
            proof {
                let pre = ms.subrange(0, i as int);
                let next = ms.subrange(0, i + 1);
                assert(next.drop_last() =~= pre);
                assert(next.last() == model(vec@[i as int]));
                assert(union(union(start, parts_list(pre)), parts(next.last())) =~= union(
                    start,
                    union(parts_list(pre), parts(next.last())),
                ));
            }
            i = i + 1;
        }
        assert(ms.subrange(0, ms.len() as int) =~= ms);
        assert(model_list(out@) =~= ms);
        out
    }

    /// Canonicalizes a value bottom-up: children first, then the value itself.
    fn canon(&mut self, v: &Value) -> (r: Value)
        requires
            old(self).wf(),
        ensures
            final(self).wf(),
            model(r) == model(*v),
            is_scalar(*v) ==> r == *v,
            final(self)@ == union(old(self)@, parts(model(*v))),
        decreases v,
    {
        let ghost start = self@;
        assert(union(start, empty_registry()) =~= start);
        match v {
            Value::Unit => Value::Unit,
            Value::Bool(b) => Value::Bool(*b),
            Value::U8(n) => Value::U8(*n),
            Value::U16(n) => Value::U16(*n),
            Value::U32(n) => Value::U32(*n),
            Value::U64(n) => Value::U64(*n),
            Value::I8(n) => Value::I8(*n),
            Value::I16(n) => Value::I16(*n),
            Value::I32(n) => Value::I32(*n),
            Value::I64(n) => Value::I64(*n),
            Value::F32(n) => Value::F32(*n),
            Value::F64(n) => Value::F64(*n),
            Value::Char(c) => Value::Char(*c),
            Value::Option(o) => match o {
                None => Value::Option(None),
                Some(b) => Value::Option(Some(Box::new(self.canon(b)))),
            },
            Value::Newtype(b) => Value::Newtype(Box::new(self.canon(b))),
            Value::String(s) => {
                let r = self.dedup_string(share(s));
                assert(self@ =~= union(start, parts(model(*v))));
                Value::String(r)
            },
            Value::Bytes(b) => {
                let r = self.dedup_blob(share(b));
                assert(self@ =~= union(start, parts(model(*v))));
                Value::Bytes(r)
            },
            Value::Sequence(a) => {
                let elements = self.dedup_value_vec(a);
                let r = self.dedup_seq(Arc::new(elements));
                assert(self@ =~= union(start, parts(model(*v))));
                Value::Sequence(r)
            },
            Value::Mapping(kv) => {
                let keys = self.dedup_value_vec(&kv.0);
                let values = self.dedup_value_vec(&kv.1);
                let keys = self.dedup_seq(Arc::new(keys));
                let r = self.dedup_map(Arc::new(KV(keys, values)));
                assert(self@ =~= union(start, parts(model(*v))));
                Value::Mapping(r)
            },
        }
    }

    /// Returns a value with the content of `value` in which every string,
    /// byte blob, sequence and key/value collection is the session's shared
    /// instance for that content; content not seen before is registered.
    pub fn dedup(&mut self, value: Value) -> (r: Value)
        requires
            old(self).wf(),
        ensures
            final(self).wf(),
            model(r) == model(value),
            is_scalar(value) ==> r == value,
            final(self)@ == union(old(self)@, parts(model(value))),
            registry_size(final(self)@) >= registry_size(old(self)@),
            included(parts(model(value)), old(self)@) ==> final(self)@ == old(self)@,
    {
        proof {
            self.lemma_size();
        }
        let r = self.canon(&value);
        proof {
            self.lemma_size();
            let before = old(self)@;
            let after = self@;
            lemma_fold_monotone(before.blobs, after.blobs, |b: Seq<u8>| b.len() as int, bytes_step());
            lemma_fold_monotone(
                before.strings,
                after.strings,
                |b: Seq<u8>| b.len() as int,
                bytes_step(),
            );
            lemma_fold_monotone(
                before.lists,
                after.lists,
                |l: Seq<ValueModel>| (l.len() * vstd::layout::size_of::<Value>()) as int,
                list_step(),
            );
            lemma_fold_monotone(
                before.dicts,
                after.dicts,
                |d: (Seq<ValueModel>, Seq<ValueModel>)|
                    (vstd::layout::size_of::<KV>() + d.1.len() * vstd::layout::size_of::<Value>()) as int,
                dict_step(),
            );
            if included(parts(model(value)), before) {
                assert(after =~= before);
            }
        }
        r
    }

    /// The size estimate summed over the held items.
    spec fn size_estimate(&self) -> int {
        total(self.blobs@, |a: Arc<Vec<u8>>| blob_cost(a)) + total(
            self.strings@,
            |a: Arc<String>| string_cost(a),
        ) + total(
            self.vectors@,
            |a: Arc<Vec<Value>>| vector_cost(a),
        ) + total(
            self.objects@,
            |a: Arc<KV>| object_cost(a),
        )
    }

    /// Under `wf`, the sets of the view are finite and the size estimate
    /// summed over the held items is the estimate of the registered content.
    proof fn lemma_size(&self)
        requires
            self.wf(),
        ensures
            self@.blobs.finite(),
            self@.strings.finite(),
            self@.lists.finite(),
            self@.dicts.finite(),
            self.size_estimate() == registry_size(self@),
    {
        lemma_total_is_fold(
            self.blobs@,
            |a: Arc<Vec<u8>>| a@,
            |a: Arc<Vec<u8>>| blob_cost(a),
            |b: Seq<u8>| b.len() as int,
            bytes_step(),
        );
        lemma_total_is_fold(
            self.strings@,
            |a: Arc<String>| string_bytes(a),
            |a: Arc<String>| string_cost(a),
            |b: Seq<u8>| b.len() as int,
            bytes_step(),
        );
        lemma_total_is_fold(
            self.vectors@,
            |a: Arc<Vec<Value>>| model_list(a@),
            |a: Arc<Vec<Value>>| vector_cost(a),
            |l: Seq<ValueModel>| (l.len() * vstd::layout::size_of::<Value>()) as int,
            list_step(),
        );
        lemma_total_is_fold(
            self.objects@,
            |a: Arc<KV>| kv_content(a),
            |a: Arc<KV>| object_cost(a),
            |d: (Seq<ValueModel>, Seq<ValueModel>)|
                (vstd::layout::size_of::<KV>() + d.1.len() * vstd::layout::size_of::<Value>()) as int,
            dict_step(),
        );
    }

    /// An approximate byte count of the registered content, saturating at
    /// `usize::MAX`.
    pub fn size(&self) -> (r: usize)
        requires
            self.wf(),
        ensures
            r == clamp(registry_size(self@)),
    {
        proof {
            self.lemma_size();
        }
        let value_size = std::mem::size_of::<Value>();
        let kv_size = std::mem::size_of::<KV>();
        let mut res: usize = 0;
        let mut i: usize = 0;
        assert(self.blobs@.subrange(0, 0).len() == 0);
        while i < self.blobs.len()
            invariant
                i <= self.blobs@.len(),
                res == clamp(total(self.blobs@.subrange(0, i as int), |a: Arc<Vec<u8>>| blob_cost(a))),
            decreases self.blobs.len() - i,
        {
            assert(self.blobs@.subrange(0, i + 1).drop_last() =~= self.blobs@.subrange(0, i as int));
            res = add_clamped(res, self.blobs[i].len());
            i = i + 1;
        }
        assert(self.blobs@.subrange(0, self.blobs@.len() as int) =~= self.blobs@);
        let ghost through_blobs = total(self.blobs@, |a: Arc<Vec<u8>>| blob_cost(a));
        i = 0;
        assert(self.strings@.subrange(0, 0).len() == 0);
        while i < self.strings.len()
            invariant
                i <= self.strings@.len(),
                through_blobs == total(self.blobs@, |a: Arc<Vec<u8>>| blob_cost(a)),
                res == clamp(through_blobs + total(self.strings@.subrange(0, i as int), |a: Arc<String>| string_cost(a))),
            decreases self.strings.len() - i,
        {
            assert(self.strings@.subrange(0, i + 1).drop_last() =~= self.strings@.subrange(0, i as int));
            res = add_clamped(res, self.strings[i].as_str().as_bytes().len());
            i = i + 1;
        }
        assert(self.strings@.subrange(0, self.strings@.len() as int) =~= self.strings@);
        let ghost through_strings = through_blobs + total(self.strings@, |a: Arc<String>| string_cost(a));
        i = 0;
        assert(self.vectors@.subrange(0, 0).len() == 0);
        while i < self.vectors.len()
            invariant
                i <= self.vectors@.len(),
                value_size == vstd::layout::size_of::<Value>(),
                through_strings == total(self.blobs@, |a: Arc<Vec<u8>>| blob_cost(a)) + total(self.strings@, |a: Arc<String>| string_cost(a)),
                res == clamp(through_strings + total(self.vectors@.subrange(0, i as int), |a: Arc<Vec<Value>>| vector_cost(a))),
            decreases self.vectors.len() - i,
        {
            assert(self.vectors@.subrange(0, i + 1).drop_last() =~= self.vectors@.subrange(0, i as int));
            res = add_clamped(res, mul_clamped(self.vectors[i].len(), value_size));
            i = i + 1;
        }
        assert(self.vectors@.subrange(0, self.vectors@.len() as int) =~= self.vectors@);
        let ghost through_vectors = through_strings + total(self.vectors@, |a: Arc<Vec<Value>>| vector_cost(a));
        i = 0;
        assert(self.objects@.subrange(0, 0).len() == 0);
        while i < self.objects.len()
            invariant
                i <= self.objects@.len(),
                value_size == vstd::layout::size_of::<Value>(),
                kv_size == vstd::layout::size_of::<KV>(),
                through_vectors == total(self.blobs@, |a: Arc<Vec<u8>>| blob_cost(a)) + total(self.strings@, |a: Arc<String>| string_cost(a)) + total(self.vectors@, |a: Arc<Vec<Value>>| vector_cost(a)),
                res == clamp(through_vectors + total(self.objects@.subrange(0, i as int), |a: Arc<KV>| object_cost(a))),
            decreases self.objects.len() - i,
        {
            assert(self.objects@.subrange(0, i + 1).drop_last() =~= self.objects@.subrange(0, i as int));
            let cost = add_clamped(kv_size, mul_clamped(self.objects[i].1.len(), value_size));
            res = add_clamped(res, cost);
            i = i + 1;
        }
        assert(self.objects@.subrange(0, self.objects@.len() as int) =~= self.objects@);
        res
    }

    /// A session with the same registered content, sharing each registered
    /// instance with this one.
    pub fn duplicate(&self) -> (r: Dedup)
        ensures
            r@ == self@,
            self.wf() ==> r.wf(),
    {
        let mut blobs: Vec<Arc<Vec<u8>>> = Vec::new();
        let mut blob_index = HashIndex::new();
        let mut i: usize = 0;
        assert(self.blobs@.subrange(0, 0) =~= blobs@);
        assert(blobs@.map_values(|a: Arc<Vec<u8>>| blob_hash(a)) =~= Seq::empty());
        while i < self.blobs.len()
            invariant
                i <= self.blobs@.len(),
                blobs@ == self.blobs@.subrange(0, i as int),
                blob_index.indexes(blobs@.map_values(|a: Arc<Vec<u8>>| blob_hash(a))),
            decreases self.blobs.len() - i,
        {
            let h = hash_byte_slice(0, self.blobs[i].as_slice());
            let ghost hs = blobs@.map_values(|a: Arc<Vec<u8>>| blob_hash(a));
            blob_index.add(h, i, Ghost(hs));
            blobs.push(share(&self.blobs[i]));
            assert(blobs@ =~= self.blobs@.subrange(0, i + 1));
            assert(blobs@.map_values(|a: Arc<Vec<u8>>| blob_hash(a)) =~= hs.push(h));
            i = i + 1;
        }
        assert(self.blobs@.subrange(0, self.blobs@.len() as int) =~= self.blobs@);
        let mut strings: Vec<Arc<String>> = Vec::new();
        let mut string_index = HashIndex::new();
        let mut i: usize = 0;
        assert(self.strings@.subrange(0, 0) =~= strings@);
        assert(strings@.map_values(|a: Arc<String>| string_hash(a)) =~= Seq::empty());
        while i < self.strings.len()
            invariant
                i <= self.strings@.len(),
                strings@ == self.strings@.subrange(0, i as int),
                string_index.indexes(strings@.map_values(|a: Arc<String>| string_hash(a))),
            decreases self.strings.len() - i,
        {
            let h = hash_byte_slice(0, self.strings[i].as_str().as_bytes());
            let ghost hs = strings@.map_values(|a: Arc<String>| string_hash(a));
            string_index.add(h, i, Ghost(hs));
            strings.push(share(&self.strings[i]));
            assert(strings@ =~= self.strings@.subrange(0, i + 1));
            assert(strings@.map_values(|a: Arc<String>| string_hash(a)) =~= hs.push(h));
            i = i + 1;
        }
        assert(self.strings@.subrange(0, self.strings@.len() as int) =~= self.strings@);
        let mut vectors: Vec<Arc<Vec<Value>>> = Vec::new();
        let mut vector_index = HashIndex::new();
        let mut i: usize = 0;
        assert(self.vectors@.subrange(0, 0) =~= vectors@);
        assert(vectors@.map_values(|a: Arc<Vec<Value>>| vector_hash(a)) =~= Seq::empty());
        while i < self.vectors.len()
            invariant
                i <= self.vectors@.len(),
                vectors@ == self.vectors@.subrange(0, i as int),
                vector_index.indexes(vectors@.map_values(|a: Arc<Vec<Value>>| vector_hash(a))),
            decreases self.vectors.len() - i,
        {
            let h = hash_vec(0, &self.vectors[i]);
            let ghost hs = vectors@.map_values(|a: Arc<Vec<Value>>| vector_hash(a));
            vector_index.add(h, i, Ghost(hs));
            vectors.push(share(&self.vectors[i]));
            assert(vectors@ =~= self.vectors@.subrange(0, i + 1));
            assert(vectors@.map_values(|a: Arc<Vec<Value>>| vector_hash(a)) =~= hs.push(h));
            i = i + 1;
        }
        assert(self.vectors@.subrange(0, self.vectors@.len() as int) =~= self.vectors@);
        let mut objects: Vec<Arc<KV>> = Vec::new();
        let mut object_index = HashIndex::new();
        let mut i: usize = 0;
        assert(self.objects@.subrange(0, 0) =~= objects@);
        assert(objects@.map_values(|a: Arc<KV>| object_hash(a)) =~= Seq::empty());
        while i < self.objects.len()
            invariant
                i <= self.objects@.len(),
                objects@ == self.objects@.subrange(0, i as int),
                object_index.indexes(objects@.map_values(|a: Arc<KV>| object_hash(a))),
            decreases self.objects.len() - i,
        {
            let h = hash_vec(hash_vec(0, &self.objects[i].0), &self.objects[i].1);
            let ghost hs = objects@.map_values(|a: Arc<KV>| object_hash(a));
            object_index.add(h, i, Ghost(hs));
            objects.push(share(&self.objects[i]));
            assert(objects@ =~= self.objects@.subrange(0, i + 1));
            assert(objects@.map_values(|a: Arc<KV>| object_hash(a)) =~= hs.push(h));
            i = i + 1;
        }
        assert(self.objects@.subrange(0, self.objects@.len() as int) =~= self.objects@);
        let r = Dedup {
            blobs,
            strings,
            vectors,
            objects,
            blob_index,
            string_index,
            vector_index,
            object_index,
        };
        assert(r@ =~= self@);
        r
    }

    /// Each registered byte blob with the number of live handles to it.
    pub fn blobs(&self) -> (r: Vec<(Vec<u8>, usize)>)
        ensures
            contents(r@, |p: (Vec<u8>, usize)| p.0@) == self@.blobs,
            self.wf() ==> forall|i: int, j: int|
                0 <= i < j < r@.len() ==> r@[i].0@ != r@[j].0@,
            forall|i: int| 0 <= i < r@.len() ==> #[trigger] r@[i].1 >= 1,
    {
        let mut out: Vec<(Vec<u8>, usize)> = Vec::new();
        let mut i: usize = 0;
        while i < self.blobs.len()
            invariant
                i <= self.blobs@.len(),
                out@.len() == i,
                forall|j: int| 0 <= j < i ==> #[trigger] out@[j].0@ == self.blobs@[j]@,
                forall|j: int| 0 <= j < i ==> #[trigger] out@[j].1 >= 1,
            decreases self.blobs.len() - i,
        {
            let bytes = vstd::slice::slice_to_vec(self.blobs[i].as_slice());
            let ghost prev = out@;
            out.push((bytes, handle_count(&self.blobs[i])));
            assert forall|j: int| 0 <= j < i + 1 implies #[trigger] out@[j].0@ == self.blobs@[j]@ by {
                if j < i {
                    assert(out@[j] == prev[j]);
                }
            }
            i = i + 1;
        }
        proof {
            lemma_contents_pointwise(
                out@,
                |p: (Vec<u8>, usize)| p.0@,
                self.blobs@,
                |a: Arc<Vec<u8>>| a@,
            );
        }
        out
    }

    /// Each registered string with the number of live handles to it.
    pub fn strings(&self) -> (r: Vec<(String, usize)>)
        ensures
            contents(r@, |p: (String, usize)| vstd::utf8::encode_utf8(p.0@)) == self@.strings,
            self.wf() ==> forall|i: int, j: int|
                0 <= i < j < r@.len() ==> vstd::utf8::encode_utf8(r@[i].0@)
                    != vstd::utf8::encode_utf8(r@[j].0@),
            forall|i: int| 0 <= i < r@.len() ==> #[trigger] r@[i].1 >= 1,
    {
        let mut out: Vec<(String, usize)> = Vec::new();
        let mut i: usize = 0;
        while i < self.strings.len()
            invariant
                i <= self.strings@.len(),
                out@.len() == i,
                forall|j: int| 0 <= j < i ==> #[trigger] out@[j].0@ == self.strings@[j]@,
                forall|j: int| 0 <= j < i ==> #[trigger] out@[j].1 >= 1,
            decreases self.strings.len() - i,
        {
            let text: String = self.strings[i].as_str().to_owned();
            let ghost prev = out@;
            out.push((text, handle_count(&self.strings[i])));
            assert forall|j: int| 0 <= j < i + 1 implies #[trigger] out@[j].0@ == self.strings@[j]@ by {
                if j < i {
                    assert(out@[j] == prev[j]);
                }
            }
            i = i + 1;
        }
        proof {
            lemma_contents_pointwise(
                out@,
                |p: (String, usize)| vstd::utf8::encode_utf8(p.0@),
                self.strings@,
                |a: Arc<String>| string_bytes(a),
            );
        }
        out
    }

    /// Each registered sequence with the number of live handles to it.
    pub fn vectors(&self) -> (r: Vec<(Vec<Value>, usize)>)
        ensures
            contents(r@, |p: (Vec<Value>, usize)| model_list(p.0@)) == self@.lists,
            self.wf() ==> forall|i: int, j: int|
                0 <= i < j < r@.len() ==> model_list(r@[i].0@) != model_list(r@[j].0@),
            forall|i: int| 0 <= i < r@.len() ==> #[trigger] r@[i].1 >= 1,
    {
        let mut out: Vec<(Vec<Value>, usize)> = Vec::new();
        let mut i: usize = 0;
        while i < self.vectors.len()
            invariant
                i <= self.vectors@.len(),
                out@.len() == i,
                forall|j: int| 0 <= j < i ==> #[trigger] out@[j].0@ == self.vectors@[j]@,
                forall|j: int| 0 <= j < i ==> #[trigger] out@[j].1 >= 1,
            decreases self.vectors.len() - i,
        {
            let elements = duplicate_all(&self.vectors[i]);
            let ghost prev = out@;
            out.push((elements, handle_count(&self.vectors[i])));
            assert forall|j: int| 0 <= j < i + 1 implies #[trigger] out@[j].0@ == self.vectors@[j]@ by {
                if j < i {
                    assert(out@[j] == prev[j]);
                }
            }
            i = i + 1;
        }
        proof {
            lemma_contents_pointwise(
                out@,
                |p: (Vec<Value>, usize)| model_list(p.0@),
                self.vectors@,
                |a: Arc<Vec<Value>>| model_list(a@),
            );
        }
        out
    }

    /// Each registered key/value collection with the number of live handles
    /// to it.
    pub fn objects(&self) -> (r: Vec<(KV, usize)>)
        ensures
            contents(r@, |p: (KV, usize)| (model_list(p.0.0@), model_list(p.0.1@))) == self@.dicts,
            self.wf() ==> forall|i: int, j: int|
                0 <= i < j < r@.len() ==> (model_list(r@[i].0.0@), model_list(r@[i].0.1@)) != (
                model_list(r@[j].0.0@),
                model_list(r@[j].0.1@),
            ),
            forall|i: int| 0 <= i < r@.len() ==> #[trigger] r@[i].1 >= 1,
    {
        let mut out: Vec<(KV, usize)> = Vec::new();
        let mut i: usize = 0;
        while i < self.objects.len()
            invariant
                i <= self.objects@.len(),
                out@.len() == i,
                forall|j: int| 0 <= j < i ==> (#[trigger] out@[j]).0.0 == self.objects@[j].0,
                forall|j: int| 0 <= j < i ==> (#[trigger] out@[j]).0.1@ == self.objects@[j].1@,
                forall|j: int| 0 <= j < i ==> #[trigger] out@[j].1 >= 1,
            decreases self.objects.len() - i,
        {
            let kv = self.objects[i].duplicate();
            out.push((kv, handle_count(&self.objects[i])));
            i = i + 1;
        }
        proof {
            lemma_contents_pointwise(
                out@,
                |p: (KV, usize)| (model_list(p.0.0@), model_list(p.0.1@)),
                self.objects@,
                |a: Arc<KV>| kv_content(a),
            );
        }
        out
    }
}

/// A canonicalization engine.
pub trait Deduplicator {
    /// Whether the engine is in a state to accept values.
    spec fn ready(&self) -> bool;

    /// The content registered so far.
    spec fn registered(&self) -> Registry;

    /// Returns a value with the content of `value`; the shareable parts of
    /// `value` are registered.
    fn dedup(&mut self, value: Value) -> (r: Value)
        requires
            old(self).ready(),
        ensures
            final(self).ready(),
            model(r) == model(value),
            is_scalar(value) ==> r == value,
            final(self).registered() == union(old(self).registered(), parts(model(value))),
    ;
}

impl Clone for Dedup {
    fn clone(&self) -> Dedup {
        self.duplicate()
    }
}

impl Deduplicator for Dedup {
    open spec fn ready(&self) -> bool {
        self.wf()
    }

    open spec fn registered(&self) -> Registry {
        self@
    }

    fn dedup(&mut self, value: Value) -> (r: Value) {
        Dedup::dedup(self, value)
    }
}

} // verus!
