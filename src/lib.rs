//! A self-describing value model with a total order and a content hash
//! that agree on every variant, and a canonicalization session that makes
//! structurally equal strings, byte blobs, sequences and key/value
//! collections share one instance.

mod dedup;
mod hash;
mod index;
mod laws;
mod order;
mod value;

pub use dedup::{
    bytes_step, clamp, contents, dict_step, empty_registry, included, kv_content, list_step, parts,
    is_scalar, parts_list, popular, popular_entries, registry_size,
    string_bytes, total, union, Dedup, Deduplicator, Registry,
};
pub use hash::{hash_bytes, hash_list, hash_model, hash_value, mix};
pub use laws::{
    f32_is_nan, f64_is_nan, flip, lemma_collections_positional, lemma_dedup_idempotent,
    lemma_float_order, lemma_kv_order, lemma_map_keys_sorted, lemma_total_order,
    lemma_variant_rank, strictly_sorted,
};
pub use order::{
    cmp_bytes, cmp_int, cmp_kv, cmp_list, cmp_model, cmp_values, compare_bytes, compare_list,
    build_entries, entry_models, float32_key, float64_key, insert_entry, place, rank,
};
pub use value::{duplicate_all, f32_key, f64_key, model, model_list, Found, Value, ValueModel, KV};
