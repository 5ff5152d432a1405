use std::sync::Arc;
use value_dedup::{popular, Dedup, Deduplicator, Value, KV};

fn record(x: u64, y: u64) -> Value {
    Value::map(vec![
        (Value::string("x".to_owned()), Value::U64(x)),
        (Value::string("y".to_owned()), Value::U64(y)),
    ])
}

fn registered_strings(dedup: &Dedup) -> Vec<String> {
    let mut strings: Vec<String> = dedup.strings().into_iter().map(|x| x.0).collect();
    strings.sort();
    strings
}

#[test]
fn dedup_simple() {
    let input = Value::seq(vec![
        Value::string("a".to_owned()),
        Value::string("a".to_owned()),
    ]);
    let mut dedup = Dedup::new();
    let result = dedup.dedup(input);
    if let Value::Sequence(x) = result {
        if let Value::String(ref a) = x[0] {
            if let Value::String(ref b) = x[1] {
                assert!(Arc::ptr_eq(a, b));
            } else {
                panic!();
            }
        } else {
            panic!();
        }
    } else {
        panic!();
    }
}

#[test]
fn dedup_record() {
    let value = Value::seq(vec![record(0, 0), record(0, 1), record(1, 1), record(1, 0)]);
    let mut dedup = Dedup::new();
    let result = dedup.dedup(value);

    assert_eq!(registered_strings(&dedup), vec!["x", "y"]);

    if let Value::Sequence(x) = result {
        if let Value::Mapping(ref a) = x[0] {
            if let Value::Mapping(ref b) = x[1] {
                assert!(Arc::ptr_eq(&a.as_ref().0, &b.as_ref().0));
            } else {
                panic!();
            }
        } else {
            panic!();
        }
    } else {
        panic!();
    }
}

#[test]
fn record_batch_shares_keys_and_strings() {
    let value = Value::seq(vec![record(0, 0), record(0, 1), record(1, 1), record(1, 0)]);
    let mut dedup = Dedup::new();
    let result = dedup.dedup(value.clone());
    assert_eq!(result, value);
    let items = match result {
        Value::Sequence(x) => x,
        _ => panic!(),
    };
    let kvs: Vec<Arc<KV>> = items
        .iter()
        .map(|v| match v {
            Value::Mapping(kv) => kv.clone(),
            _ => panic!(),
        })
        .collect();
    for kv in &kvs {
        assert!(Arc::ptr_eq(kvs[0].keys(), kv.keys()));
    }
    let keys = kvs[0].keys();
    let (x, y) = match (&keys[0], &keys[1]) {
        (Value::String(x), Value::String(y)) => (x.clone(), y.clone()),
        _ => panic!(),
    };
    assert_eq!(x.as_str(), "x");
    assert_eq!(y.as_str(), "y");
    assert_eq!(registered_strings(&dedup), vec!["x", "y"]);
    // four distinct collections, one key sequence plus the outer sequence
    assert_eq!(dedup.objects().len(), 4);
    assert_eq!(dedup.vectors().len(), 2);
}

#[test]
fn scalars_pass_through() {
    let mut dedup = Dedup::new();
    let r = dedup.dedup(Value::I32(-7));
    assert_eq!(r, Value::I32(-7));
    let r = dedup.dedup(Value::Bool(true));
    assert_eq!(r, Value::Bool(true));
    assert!(dedup.strings().is_empty());
    assert!(dedup.vectors().is_empty());
    assert!(dedup.objects().is_empty());
    assert_eq!(dedup.size(), 0);
}

#[test]
fn dedup_twice_registers_nothing_new() {
    let value = Value::seq(vec![
        record(3, 4),
        Value::string("z".to_owned()),
        Value::Newtype(Box::new(Value::bytes(vec![1, 2]))),
    ]);
    let mut dedup = Dedup::new();
    let first = dedup.dedup(value.clone());
    let size = dedup.size();
    let strings = registered_strings(&dedup);
    let n_vectors = dedup.vectors().len();
    let n_objects = dedup.objects().len();
    let second = dedup.dedup(first.clone());
    assert_eq!(second, first);
    assert_eq!(second, value);
    assert_eq!(dedup.size(), size);
    assert_eq!(registered_strings(&dedup), strings);
    assert_eq!(dedup.vectors().len(), n_vectors);
    assert_eq!(dedup.objects().len(), n_objects);
    match (&first, &second) {
        (Value::Sequence(a), Value::Sequence(b)) => assert!(Arc::ptr_eq(a, b)),
        _ => panic!(),
    }
}

#[test]
fn equal_strings_become_one_instance() {
    let mut dedup = Dedup::new();
    let a = dedup.dedup(Value::string("shared".to_owned()));
    let b = dedup.dedup(Value::string("shared".to_owned()));
    match (&a, &b) {
        (Value::String(a), Value::String(b)) => assert!(Arc::ptr_eq(a, b)),
        _ => panic!(),
    }
    let counts = dedup.strings();
    assert_eq!(counts.len(), 1);
    assert_eq!(counts[0].0, "shared");
    assert_eq!(counts[0].1, 3);
}

#[test]
fn collections_in_other_order_are_not_merged() {
    let xy = Value::Mapping(Arc::new(KV(
        Arc::new(vec![Value::string("x".to_owned()), Value::string("y".to_owned())]),
        vec![Value::U8(1), Value::U8(2)],
    )));
    let yx = Value::Mapping(Arc::new(KV(
        Arc::new(vec![Value::string("y".to_owned()), Value::string("x".to_owned())]),
        vec![Value::U8(2), Value::U8(1)],
    )));
    assert_ne!(xy, yx);
    let mut dedup = Dedup::new();
    let a = dedup.dedup(xy);
    let b = dedup.dedup(yx);
    match (&a, &b) {
        (Value::Mapping(a), Value::Mapping(b)) => assert!(!Arc::ptr_eq(a, b)),
        _ => panic!(),
    }
    assert_eq!(dedup.objects().len(), 2);
    assert_eq!(dedup.vectors().len(), 2);
    assert_eq!(registered_strings(&dedup), vec!["x", "y"]);
}

#[test]
fn blobs_are_shared() {
    let mut dedup = Dedup::new();
    let a = dedup.dedup(Value::bytes(vec![9, 8, 7]));
    let b = dedup.dedup(Value::Option(Some(Box::new(Value::bytes(vec![9, 8, 7])))));
    match (&a, &b) {
        (Value::Bytes(a), Value::Option(Some(inner))) => match inner.as_ref() {
            Value::Bytes(b) => assert!(Arc::ptr_eq(a, b)),
            _ => panic!(),
        },
        _ => panic!(),
    }
}

#[test]
fn size_estimate_counts_registered_content() {
    let mut dedup = Dedup::new();
    dedup.dedup(Value::seq(vec![
        Value::string("ab".to_owned()),
        Value::string("ab".to_owned()),
        Value::bytes(vec![1, 2, 3]),
    ]));
    let value_size = std::mem::size_of::<Value>();
    assert_eq!(dedup.size(), 3 + 2 + 3 * value_size);
    dedup.dedup(record(1, 2));
    assert_eq!(
        dedup.size(),
        3 + 2 + 1 + 1 + 3 * value_size + 2 * value_size + std::mem::size_of::<KV>() + 2 * value_size
    );
}

#[test]
fn trait_entry_point_canonicalizes() {
    fn run<D: Deduplicator>(d: &mut D, v: Value) -> Value {
        d.dedup(v)
    }
    let mut dedup = Dedup::new();
    let a = run(&mut dedup, Value::string("t".to_owned()));
    let b = run(&mut dedup, Value::string("t".to_owned()));
    match (&a, &b) {
        (Value::String(a), Value::String(b)) => assert!(Arc::ptr_eq(a, b)),
        _ => panic!(),
    }
}

#[test]
fn popular_keeps_entries_over_threshold() {
    let entries = vec![("a", 5usize), ("b", 1), ("c", 11), ("d", 10)];
    assert_eq!(popular(entries, 10), vec![("c", 11)]);
    assert_eq!(popular(vec![("a", 5usize), ("b", 6)], 4), vec![("a", 5), ("b", 6)]);
    assert!(popular(Vec::<(u8, usize)>::new(), 0).is_empty());
}

#[test]
fn size_counts_each_content_once() {
    let mut dedup = Dedup::new();
    assert_eq!(dedup.size(), 0);
    dedup.dedup(Value::string("abc".into()));
    dedup.dedup(Value::bytes(vec![1, 2]));
    dedup.dedup(Value::string("abc".into()));
    assert_eq!(dedup.size(), 5);
}

#[test]
fn size_never_shrinks() {
    let mut dedup = Dedup::new();
    let mut last = dedup.size();
    let inputs = vec![
        Value::U8(1),
        Value::string("q".into()),
        record(1, 2),
        Value::string("q".into()),
        Value::seq(vec![record(1, 2), Value::bytes(vec![7])]),
        record(1, 2),
    ];
    for v in inputs {
        dedup.dedup(v);
        let now = dedup.size();
        assert!(now >= last);
        last = now;
    }
}

#[test]
fn blobs_are_listed_with_counts() {
    let mut dedup = Dedup::new();
    let kept = dedup.dedup(Value::bytes(vec![4, 5]));
    dedup.dedup(Value::bytes(vec![4, 5]));
    dedup.dedup(Value::bytes(vec![6]));
    let mut blobs = dedup.blobs();
    blobs.sort();
    assert_eq!(blobs.len(), 2);
    assert_eq!(blobs[0].0, vec![4, 5]);
    assert_eq!(blobs[0].1, 2);
    assert_eq!(blobs[1].0, vec![6]);
    assert_eq!(blobs[1].1, 1);
    drop(kept);
}

#[test]
fn clone_keeps_registered_content() {
    let mut dedup = Dedup::new();
    let a = dedup.dedup(Value::string("kept".into()));
    dedup.dedup(record(5, 6));
    let mut copy = dedup.clone();
    assert_eq!(copy.size(), dedup.size());
    assert_eq!(registered_strings(&copy), registered_strings(&dedup));
    let b = copy.dedup(Value::string("kept".into()));
    match (&a, &b) {
        (Value::String(a), Value::String(b)) => assert!(Arc::ptr_eq(a, b)),
        _ => panic!(),
    }
    copy.dedup(Value::string("only in copy".into()));
    assert_eq!(dedup.strings().len(), 3);
    assert_eq!(copy.strings().len(), 4);
}

#[test]
fn float_scalars_keep_their_bits() {
    let mut dedup = Dedup::new();
    let negative_zero = (-0.0f64).to_bits();
    match dedup.dedup(Value::F64(negative_zero)) {
        Value::F64(bits) => assert_eq!(bits, negative_zero),
        _ => panic!(),
    }
    let payload_nan = 0x7ff8_0000_0000_0abc_u64;
    match dedup.dedup(Value::F64(payload_nan)) {
        Value::F64(bits) => assert_eq!(bits, payload_nan),
        _ => panic!(),
    }
    match dedup.dedup(Value::F32(0x7fc0_1234)) {
        Value::F32(bits) => assert_eq!(bits, 0x7fc0_1234),
        _ => panic!(),
    }
    assert_eq!(dedup.size(), 0);
}
