use wolfram_wxf::{ToWolfram, WolframFunction, WolframPair, WolframRule, WolframSerializer, WolframValue};

#[test]
fn fast_test() {
    let serializer = WolframSerializer::default();

    assert_eq!(serializer.serialize_bool(true).unwrap(), WolframValue::Boolean(true));
    assert_eq!(serializer.serialize_bool(false).unwrap(), WolframValue::Boolean(false));
    assert_eq!(serializer.serialize_i8(-1i8).unwrap(), WolframValue::Integer8(-1));
    assert_eq!(serializer.serialize_u8(1u8).unwrap(), WolframValue::Integer8(1));
    assert_eq!(serializer.serialize_char('c').unwrap(), WolframValue::String("c".to_string()));
    assert_eq!(serializer.serialize_str("str").unwrap(), WolframValue::String("str".to_string()));
    let inner = serializer.serialize_bool(true).unwrap();
    assert_eq!(serializer.serialize_some(inner).unwrap(), WolframValue::Boolean(true));
    assert_eq!(serializer.serialize_none().unwrap(), WolframValue::system_symbol("None").unwrap());
}

fn list_of_bools(serializer: &WolframSerializer, items: &[bool]) -> WolframValue {
    let mut list = serializer.serialize_seq(Some(items.len())).unwrap();
    for b in items {
        list.serialize_element(serializer.serialize_bool(*b).unwrap()).unwrap();
    }
    list.end().unwrap()
}

#[test]
fn fast_container() {
    let serializer = WolframSerializer::default();

    let mut tuple = serializer.serialize_tuple(2).unwrap();
    tuple.serialize_element(serializer.serialize_bool(false).unwrap()).unwrap();
    tuple.serialize_element(serializer.serialize_bool(true).unwrap()).unwrap();
    assert_eq!(tuple.end().unwrap(), WolframValue::list(vec![false, true]));
    assert_eq!(list_of_bools(&serializer, &[true, false]), WolframValue::list(vec![true, false]));
    assert_eq!(list_of_bools(&serializer, &vec![true, false]), WolframValue::list(vec![true, false]));
    let mut hash_set = std::collections::HashSet::new();
    hash_set.insert(true);
    hash_set.insert(false);
    let mut items: Vec<bool> = hash_set.into_iter().collect();
    items.sort();
    assert_eq!(list_of_bools(&serializer, &items), WolframValue::list(vec![false, true]));
    let mut hash_map = std::collections::HashMap::new();
    hash_map.insert(true, true);
    hash_map.insert(false, false);
    let mut map = serializer.serialize_map(Some(hash_map.len())).unwrap();
    for (k, v) in hash_map.iter() {
        map.serialize_key(serializer.serialize_bool(*k).unwrap()).unwrap();
        map.serialize_value(serializer.serialize_bool(*v).unwrap()).unwrap();
    }
    let pairs = vec![
        WolframPair { rule: WolframRule::Rule, key: WolframValue::Boolean(true), value: WolframValue::Boolean(true) },
        WolframPair { rule: WolframRule::Rule, key: WolframValue::Boolean(false), value: WolframValue::Boolean(false) },
    ];
    assert_eq!(map.end().unwrap(), WolframValue::association(&pairs));
}

fn int32(serializer: &WolframSerializer, v: i32) -> WolframValue {
    serializer.serialize_i32(v).unwrap()
}

#[test]
fn test_structures() {
    let serializer = WolframSerializer::default();
    assert_eq!(serializer.serialize_unit_struct("Unit").unwrap(), WolframFunction::global("Unit", vec![]).unwrap().to_wolfram());

    let mut tuple = serializer.serialize_tuple_struct("UnitTuple", 2).unwrap();
    tuple.serialize_field(int32(&serializer, 1)).unwrap();
    tuple.serialize_field(int32(&serializer, -1)).unwrap();
    assert_eq!(
        tuple.end().unwrap(),
        WolframFunction::global("UnitTuple", vec![int32(&serializer, 1), int32(&serializer, -1)]).unwrap().to_wolfram(),
    );

    let mut record = serializer.serialize_struct("UnitStruct", 2).unwrap();
    record.serialize_named_field("x", int32(&serializer, 0)).unwrap();
    record.serialize_named_field("y", int32(&serializer, 0)).unwrap();
    assert_eq!(
        record.end().unwrap(),
        WolframFunction::global("UnitStruct", vec![WolframValue::pair("x", 0, false), WolframValue::pair("y", 0, false)])
            .unwrap()
            .to_wolfram(),
    );

    assert_eq!(
        serializer.serialize_unit_variant("UnitVariant", 0, "Unit").unwrap(),
        WolframFunction::namespace("UnitVariant", "Unit", vec![]).unwrap().to_wolfram(),
    );

    let mut tuple = serializer.serialize_tuple_variant("UnitVariant", 1, "UnitTuple", 2).unwrap();
    tuple.serialize_field(int32(&serializer, 1)).unwrap();
    tuple.serialize_field(int32(&serializer, -1)).unwrap();
    assert_eq!(
        tuple.end().unwrap(),
        WolframFunction::namespace("UnitVariant", "UnitTuple", vec![int32(&serializer, 1), int32(&serializer, -1)])
            .unwrap()
            .to_wolfram(),
    );

    let mut record = serializer.serialize_struct_variant("UnitVariant", 2, "UnitStruct", 2).unwrap();
    record.serialize_named_field("x", int32(&serializer, 0)).unwrap();
    record.serialize_named_field("y", int32(&serializer, 0)).unwrap();
    assert_eq!(
        record.end().unwrap(),
        WolframFunction::namespace("UnitVariant", "UnitStruct", vec![WolframValue::pair("x", 0, false), WolframValue::pair("y", 0, false)])
            .unwrap()
            .to_wolfram(),
    );
}

#[test]
fn test2() {
    let serializer = WolframSerializer::default();
    let f = serializer.serialize_unit_struct("Unit").unwrap();
    println!("{:?}", f);
}
