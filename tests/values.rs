use fsk_core::number::{number_eq, number_is_nan, number_is_truthy, number_lt, number_same};
use fsk_core::opcode::OpCode;
use fsk_core::value::{find_key, VMValue};

fn num(x: f64) -> VMValue {
    VMValue::Number(x.to_bits())
}

fn obj(entries: Vec<(&str, VMValue)>) -> VMValue {
    VMValue::Object(entries.into_iter().map(|(k, v)| (k.to_string(), v)).collect())
}

#[test]
fn equal_is_reflexive_without_nan() {
    let values = vec![
        num(1.5),
        num(-0.0),
        VMValue::String("s".to_string()),
        VMValue::Bool(false),
        VMValue::Nil,
        VMValue::Function { bytecode_idx: 4, arity: 2 },
        VMValue::Array(vec![num(1.0), VMValue::Nil]),
        obj(vec![("a", num(1.0)), ("b", VMValue::Array(vec![]))]),
    ];
    for v in &values {
        assert!(v.equals(v), "{:?}", v);
    }
}

#[test]
fn nan_equals_itself() {
    let v = num(f64::NAN);
    assert!(v.equals(&v));
    assert!(VMValue::Array(vec![num(f64::NAN)]).equals(&VMValue::Array(vec![num(f64::NAN)])));
    assert!(obj(vec![("n", num(f64::NAN))]).equals(&obj(vec![("n", num(f64::NAN))])));
    assert!(!num(f64::NAN).equals(&num(1.0)));
    assert!(!num(f64::NAN).equals(&num(-f64::NAN)));
}

#[test]
fn objects_with_repeated_keys_compare_by_first_occurrence() {
    let a = obj(vec![("k", num(1.0)), ("k", num(1.0))]);
    let b = obj(vec![("k", num(1.0)), ("k", num(2.0))]);
    let c = obj(vec![("k", num(1.0))]);
    let d = obj(vec![("k", num(2.0)), ("k", num(1.0))]);
    assert!(a.equals(&b));
    assert!(b.equals(&a));
    assert!(b.equals(&b));
    assert!(a.equals(&c) && c.equals(&a));
    assert!(!b.equals(&d) && !d.equals(&b));
}

#[test]
fn equal_is_symmetric() {
    let pairs = vec![
        (obj(vec![("a", num(1.0)), ("b", num(2.0))]), obj(vec![("b", num(2.0)), ("a", num(1.0))])),
        (obj(vec![("a", num(1.0))]), obj(vec![("a", num(2.0))])),
        (num(0.0), num(-0.0)),
        (num(1.0), VMValue::Bool(true)),
        (VMValue::Array(vec![num(1.0)]), VMValue::Array(vec![num(1.0), num(1.0)])),
        (
            VMValue::Function { bytecode_idx: 1, arity: 0 },
            VMValue::Function { bytecode_idx: 1, arity: 1 },
        ),
    ];
    for (a, b) in &pairs {
        assert_eq!(a.equals(b), b.equals(a));
    }
    assert!(pairs[0].0.equals(&pairs[0].1));
    assert!(!pairs[1].0.equals(&pairs[1].1));
    assert!(pairs[2].0.equals(&pairs[2].1));
    assert!(!pairs[3].0.equals(&pairs[3].1));
}

#[test]
fn deep_clone_copies_nested_containers() {
    let v = obj(vec![("list", VMValue::Array(vec![num(1.0), VMValue::String("x".to_string())]))]);
    let c = v.deep_clone();
    assert_eq!(c, v);
}

#[test]
fn numeric_coercion() {
    assert_eq!(num(2.5).as_f64(), 2.5f64.to_bits());
    assert_eq!(VMValue::Bool(true).as_f64(), 1.0f64.to_bits());
    assert_eq!(VMValue::Bool(false).as_f64(), 0.0f64.to_bits());
    assert_eq!(VMValue::String("3".to_string()).as_f64(), 0.0f64.to_bits());
    assert_eq!(VMValue::Nil.as_f64(), 0.0f64.to_bits());
}

#[test]
fn truthiness() {
    assert!(!VMValue::Nil.is_truthy());
    assert!(!num(0.0).is_truthy());
    assert!(num(-3.0).is_truthy());
    assert!(VMValue::String(String::new()).is_truthy());
    assert!(obj(vec![]).is_truthy());
}

#[test]
fn float_predicates_match_hardware() {
    let samples = [
        0.0,
        -0.0,
        1.0,
        -1.0,
        0.5,
        -2.75,
        f64::INFINITY,
        f64::NEG_INFINITY,
        f64::NAN,
        f64::MIN_POSITIVE,
        -f64::MIN_POSITIVE,
        f64::MAX,
        f64::MIN,
        5e-324,
    ];
    for &a in &samples {
        assert_eq!(number_is_nan(a.to_bits()), a.is_nan());
        assert_eq!(number_is_truthy(a.to_bits()), a != 0.0);
        for &b in &samples {
            assert_eq!(number_eq(a.to_bits(), b.to_bits()), a == b, "{} == {}", a, b);
            assert_eq!(number_lt(a.to_bits(), b.to_bits()), a < b, "{} < {}", a, b);
            assert_eq!(
                number_same(a.to_bits(), b.to_bits()),
                a == b || a.to_bits() == b.to_bits(),
                "{} same as {}",
                a,
                b
            );
        }
    }
}

#[test]
fn find_key_gives_first_match() {
    let entries = vec![
        ("a".to_string(), num(1.0)),
        ("b".to_string(), num(2.0)),
        ("a".to_string(), num(3.0)),
    ];
    assert_eq!(find_key(&entries, &"a".to_string()), Some(0));
    assert_eq!(find_key(&entries, &"b".to_string()), Some(1));
    assert_eq!(find_key(&entries, &"c".to_string()), None);
}

#[test]
fn opcode_bytes_round_trip() {
    for b in 0..=255u8 {
        match OpCode::from_byte(b) {
            Some(op) => assert_eq!(op.to_byte(), b),
            None => assert!((21..255).contains(&b)),
        }
    }
    assert_eq!(OpCode::from_byte(17), Some(OpCode::Call));
    assert_eq!(OpCode::Call.operand_count(), 3);
    assert_eq!(OpCode::Halt.operand_count(), 0);
    assert!(OpCode::SetProp.register_operand(2));
    assert!(!OpCode::SetProp.register_operand(1));
    assert_eq!(OpCode::GetProp.constant_index_operand(), Some(2));
}
