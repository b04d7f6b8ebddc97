use chain_tables::abi::FieldValue;
use chain_tables::amount::U256;
use chain_tables::encoding::TableField;

#[test]
fn bytes_encode_as_lowercase_hex() {
    assert_eq!(vec![0xABu8, 0x01, 0xff].get_value(), "ab01ff");
    assert_eq!(vec![0xDEu8, 0xAD].get_value(), "dead");
    assert_eq!(Vec::<u8>::new().get_value(), "");
}

#[test]
fn integers_encode_in_decimal() {
    assert_eq!(U256::from_u64(0).get_value(), "0");
    assert_eq!(U256::from_u64(12345).get_value(), "12345");
    assert_eq!(U256 { limbs: [0, 1, 0, 0] }.get_value(), "18446744073709551616");
}

#[test]
fn booleans_and_text_encode_as_is() {
    assert_eq!(true.get_value(), "true");
    assert_eq!(false.get_value(), "false");
    assert_eq!(String::from("Uni").get_value(), "Uni");
}

#[test]
fn arrays_encode_bracketed() {
    assert_eq!(vec![vec![0xabu8], vec![0x01]].get_value(), "[ab,01]");
    assert_eq!(Vec::<Vec<u8>>::new().get_value(), "[]");
    assert_eq!(vec![vec![vec![1u8]], vec![]].get_value(), "[[01],[]]");
    assert_eq!(vec![U256::from_u64(1), U256::from_u64(20)].get_value(), "[1,20]");
}

#[test]
fn tuples_encode_parenthesized() {
    let a = vec![0xaau8];
    let b = U256::from_u64(7);
    assert_eq!((a.clone(), b).get_value(), "(aa,7)");
    assert_eq!((a.clone(), b, true).get_value(), "(aa,7,true)");
    assert_eq!((a.clone(), b, true, a.clone()).get_value(), "(aa,7,true,aa)");
    assert_eq!((a.clone(), b, true, a.clone(), b).get_value(), "(aa,7,true,aa,7)");
}

#[test]
fn distinct_arrays_of_same_length_encode_differently() {
    let x = vec![vec![0x01u8, 0x02], vec![0x03]];
    let y = vec![vec![0x01u8], vec![0x02, 0x03]];
    assert_ne!(x.get_value(), y.get_value());
    let p = (vec![0x01u8, 0x02], vec![0x03u8]);
    let q = (vec![0x01u8], vec![0x02u8, 0x03]);
    assert_ne!(p.get_value(), q.get_value());
}

#[test]
fn encoding_is_deterministic() {
    let v = vec![(vec![1u8, 2], U256::from_u64(3))];
    assert_eq!(v.get_value(), v.get_value());
    assert_eq!(v.get_value(), "[(0102,3)]");
}

#[test]
fn field_values_encode_recursively() {
    let minus_five = U256 { limbs: [u64::MAX - 4, u64::MAX, u64::MAX, u64::MAX] };
    assert_eq!(FieldValue::Int(minus_five).get_value(), "-5");
    assert_eq!(FieldValue::Int(U256::from_u64(5)).get_value(), "5");
    let v = FieldValue::Array(vec![
        FieldValue::Tuple(vec![FieldValue::Address(vec![0x12; 2]), FieldValue::Bool(false)]),
        FieldValue::Tuple(vec![FieldValue::Uint(U256::from_u64(9)), FieldValue::Text("x".to_string())]),
    ]);
    assert_eq!(v.get_value(), "[(1212,false),(9,x)]");
}
