use std::cmp::Ordering;
use std::sync::Arc;
use value_dedup::{float32_key, float64_key, Found, Value, KV};

fn sample() -> Vec<Value> {
    vec![
        Value::Bool(true),
        Value::U8(200),
        Value::U16(1),
        Value::U32(1),
        Value::U64(1),
        Value::I8(-1),
        Value::I16(-1),
        Value::I32(-1),
        Value::I64(-1),
        Value::F32(2.5f32.to_bits()),
        Value::F64((-2.5f64).to_bits()),
        Value::Char('z'),
        Value::string("s".to_owned()),
        Value::Unit,
        Value::Option(None),
        Value::Newtype(Box::new(Value::Unit)),
        Value::seq(vec![]),
        Value::map(vec![]),
        Value::bytes(vec![]),
    ]
}

#[test]
fn variants_order_by_rank() {
    let values = sample();
    for (i, a) in values.iter().enumerate() {
        assert_eq!(a.rank_of() as usize, i);
        for (j, b) in values.iter().enumerate() {
            assert_eq!(a.compare(b), i.cmp(&j));
            assert_eq!(a == b, i == j);
        }
    }
    assert!(Value::Bool(true) < Value::U8(0));
    assert!(Value::U8(255) < Value::U16(0));
    assert!(Value::string("zzz".to_owned()) < Value::Unit);
    assert!(Value::map(vec![]) < Value::bytes(vec![]));
}

#[test]
fn order_is_antisymmetric_and_transitive() {
    let a = Value::seq(vec![Value::U8(1), Value::U8(2)]);
    let b = Value::seq(vec![Value::U8(1), Value::U8(3)]);
    let c = Value::seq(vec![Value::U8(2)]);
    assert_eq!(a.compare(&b), Ordering::Less);
    assert_eq!(b.compare(&a), Ordering::Greater);
    assert_eq!(b.compare(&c), Ordering::Less);
    assert_eq!(a.compare(&c), Ordering::Less);
    assert_eq!(a.compare(&a.clone()), Ordering::Equal);
    let shorter = Value::seq(vec![Value::U8(1)]);
    assert_eq!(shorter.compare(&a), Ordering::Less);
    assert_eq!(a.partial_cmp(&b), Some(Ordering::Less));
}

#[test]
fn equal_values_hash_alike() {
    let build = || {
        Value::Option(Some(Box::new(Value::seq(vec![
            Value::U16(8),
            Value::Char('a'),
            Value::F32(1.0f32.to_bits()),
            Value::string("hello".into()),
            Value::map(vec![
                (Value::Bool(false), Value::Unit),
                (
                    Value::Bool(true),
                    Value::Newtype(Box::new(Value::bytes(b"hi".as_ref().into()))),
                ),
            ]),
        ]))))
    };
    let a = build();
    let b = build();
    assert_eq!(a, b);
    assert_eq!(a.compare(&b), Ordering::Equal);
    assert_eq!(a.hash_code(), b.hash_code());
    assert_ne!(Value::U8(1).hash_code(), Value::U16(1).hash_code());
    assert_ne!(Value::U8(1).hash_code(), Value::U8(2).hash_code());
    let nan1 = Value::F64(f64::NAN.to_bits());
    let nan2 = Value::F64(0x7ff8_0000_0000_0001);
    assert_eq!(nan1.hash_code(), nan2.hash_code());
    assert_eq!(
        Value::F64(0.0f64.to_bits()).hash_code(),
        Value::F64((-0.0f64).to_bits()).hash_code()
    );
}

#[test]
fn floats_are_totally_ordered() {
    let nan = Value::F64(f64::NAN.to_bits());
    let other_nan = Value::F64(0xfff8_0000_0000_0001);
    assert_eq!(nan, nan.clone());
    assert_eq!(nan.compare(&nan), Ordering::Equal);
    assert_eq!(nan, other_nan);
    assert_eq!(nan.compare(&Value::F64(f64::INFINITY.to_bits())), Ordering::Greater);
    assert_eq!(Value::F64(f64::NEG_INFINITY.to_bits()).compare(&nan), Ordering::Less);
    assert_eq!(Value::F64(0.0f64.to_bits()), Value::F64((-0.0f64).to_bits()));
    assert_eq!(
        Value::F64((-1.0f64).to_bits()).compare(&Value::F64(0.5f64.to_bits())),
        Ordering::Less
    );
    assert_eq!(
        Value::F64((-2.0f64).to_bits()).compare(&Value::F64((-1.0f64).to_bits())),
        Ordering::Less
    );
    let nan32 = Value::F32(f32::NAN.to_bits());
    assert_eq!(nan32, Value::F32(0x7fc0_0001));
    assert_eq!(nan32.compare(&Value::F32(f32::MAX.to_bits())), Ordering::Greater);
    assert_eq!(
        Value::F32((-3.0f32).to_bits()).compare(&Value::F32(3.0f32.to_bits())),
        Ordering::Less
    );
    assert_eq!(float32_key(0x8000_0000), 0);
    assert_eq!(float32_key(1.0f32.to_bits()), 0x3f80_0000);
    assert_eq!(float32_key((-1.0f32).to_bits()), -0x3f80_0000);
    assert_eq!(float64_key(f64::NAN.to_bits()), 0x8000_0000_0000_0000);
}

#[test]
fn map_orders_keys_and_keeps_last_value() {
    let m = Value::map(vec![
        (Value::string("b".into()), Value::U8(1)),
        (Value::string("a".into()), Value::U8(2)),
        (Value::string("b".into()), Value::U8(3)),
        (Value::U8(0), Value::Unit),
    ]);
    let expected = Value::Mapping(Arc::new(KV(
        Arc::new(vec![
            Value::U8(0),
            Value::string("a".into()),
            Value::string("b".into()),
        ]),
        vec![Value::Unit, Value::U8(2), Value::U8(3)],
    )));
    assert_eq!(m, expected);
    if let Value::Mapping(kv) = &m {
        let entries = kv.entries();
        assert_eq!(entries.len(), 3);
        assert_eq!(entries[1], (Value::string("a".into()), Value::U8(2)));
        assert_eq!(kv.values().len(), 3);
        assert_eq!(kv.keys().len(), 3);
    } else {
        panic!();
    }
}

#[test]
fn collections_compare_by_position() {
    let xy = KV(
        Arc::new(vec![Value::string("x".into()), Value::string("y".into())]),
        vec![Value::U8(1), Value::U8(2)],
    );
    let yx = KV(
        Arc::new(vec![Value::string("y".into()), Value::string("x".into())]),
        vec![Value::U8(2), Value::U8(1)],
    );
    assert!(xy != yx);
    assert_eq!(xy.compare(&yx), Ordering::Less);
    assert!(xy == xy.clone());
}

#[test]
fn unexpected_describes_the_value() {
    assert!(matches!(Value::U16(7).unexpected(), Found::Unsigned(7)));
    assert!(matches!(Value::I8(-3).unexpected(), Found::Signed(-3)));
    assert!(matches!(Value::Bool(true).unexpected(), Found::Bool(true)));
    let s = Value::string("hello".into());
    assert!(matches!(s.unexpected(), Found::Str("hello")));
    let b = Value::bytes(vec![1, 2]);
    match b.unexpected() {
        Found::Bytes(x) => assert_eq!(x, &[1u8, 2][..]),
        _ => panic!(),
    }
    assert!(matches!(Value::F64(5).unexpected(), Found::Float64(5)));
    assert!(matches!(Value::seq(vec![]).unexpected(), Found::Sequence));
    assert!(matches!(Value::map(vec![]).unexpected(), Found::Mapping));
    assert!(matches!(Value::Unit.unexpected(), Found::Unit));
    assert!(matches!(Value::Option(None).unexpected(), Found::Option));
    assert!(matches!(
        Value::Newtype(Box::new(Value::Unit)).unexpected(),
        Found::NewtypeStruct
    ));
}

#[test]
fn duplicate_shares_children() {
    let v = Value::seq(vec![Value::string("q".into())]);
    let d = v.duplicate();
    match (&v, &d) {
        (Value::Sequence(a), Value::Sequence(b)) => assert!(Arc::ptr_eq(a, b)),
        _ => panic!(),
    }
    assert_eq!(v, d);
}
