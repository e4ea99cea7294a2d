use wolfram_wxf::{DecimalText, ToWolfram, WolframSerializer, WolframValue};

#[test]
fn main() {
    println!("Hello Wolfram!")
}

#[test]
fn test_prim() {
    let serializer = WolframSerializer::default();

    let v = serializer.serialize_u64(0usize as u64).unwrap();
    assert_eq!(v.to_wolfram_string().unwrap(), "0");

    let v = serializer.serialize_f64(0.0f64.to_bits()).unwrap();
    let texts = vec![DecimalText { pattern: 0.0f64.to_le_bytes(), text: format!("{}", 0.0f64) }];
    assert_eq!(v.to_string_with(&texts).unwrap(), "0`");

    let v = serializer.serialize_bool(true).unwrap();
    assert_eq!(v.to_wolfram_string().unwrap(), "True");
}

fn list(serializer: &WolframSerializer, items: Vec<WolframValue>) -> WolframValue {
    let mut seq = serializer.serialize_seq(Some(items.len())).unwrap();
    for item in items {
        seq.serialize_element(item).unwrap();
    }
    seq.end().unwrap()
}

#[test]
fn test_struct() {
    let serializer = WolframSerializer::default();
    let mut map = serializer.serialize_map(Some(2)).unwrap();
    map.serialize_key(serializer.serialize_str("seq").unwrap()).unwrap();
    let seq = list(&serializer, vec![serializer.serialize_u64(1).unwrap(), serializer.serialize_u64(2).unwrap()]);
    map.serialize_value(seq).unwrap();
    map.serialize_key(serializer.serialize_str("int").unwrap()).unwrap();
    map.serialize_value(serializer.serialize_u64(0).unwrap()).unwrap();
    assert_eq!(map.end().unwrap().to_string().unwrap(), r#"<|"int"->0,"seq"->{1,2}|>"#);

    let seq = list(&serializer, vec![serializer.serialize_u64(1).unwrap(), serializer.serialize_u64(2).unwrap()]);
    let tuple = WolframValue::function("TestTuple", vec![serializer.serialize_u64(0).unwrap(), seq]).unwrap();
    assert_eq!(tuple.to_string().unwrap(), r#"TestTuple[0,{1,2}]"#);
}
