use std::collections::{BTreeMap, HashMap};
use wolfram_wxf::{ToWolfram, WolframPair, WolframRule, WolframValue};

#[test]
fn containers_test_list() {
    assert_eq!(vec![0u8].to_wolfram_bytes().unwrap(), [56, 58, 102, 1, 115, 4, 76, 105, 115, 116, 67, 0]);
    assert_eq!(vec![0u8].to_wolfram_string().unwrap(), "{0}");
    assert_eq!(vec!["0"].to_wolfram_bytes().unwrap(), [56, 58, 102, 1, 115, 4, 76, 105, 115, 116, 83, 1, 48]);
    assert_eq!(vec!["0"].to_wolfram_string().unwrap(), "{\"0\"}");
}

fn rule_pair(key: u8, value: u8) -> WolframPair {
    WolframPair { rule: WolframRule::Rule, key: key.to_wolfram(), value: value.to_wolfram() }
}

#[test]
fn test_dict() {
    let mut dict = BTreeMap::new();
    dict.insert(1u8, 2u8);
    let pairs: Vec<WolframPair> = dict.iter().map(|(k, v)| rule_pair(*k, *v)).collect();
    let value = WolframValue::association(&pairs);
    assert_eq!(value.to_bytes().unwrap(), [56, 58, 65, 1, 45, 67, 1, 67, 2]);
    assert_eq!(value.to_string().unwrap(), "<|1->2|>");
    let mut dict = HashMap::new();
    dict.insert(1u8, 2u8);
    let pairs: Vec<WolframPair> = dict.iter().map(|(k, v)| rule_pair(*k, *v)).collect();
    let value = WolframValue::association(&pairs);
    assert_eq!(value.to_bytes().unwrap(), [56, 58, 65, 1, 45, 67, 1, 67, 2]);
    assert_eq!(value.to_string().unwrap(), "<|1->2|>");
}

#[test]
fn test_bytes() {
    let v = WolframValue::Bytes(vec![1, 2, 3]);
    assert_eq!(v.to_bytes().unwrap(), [56, 58, 66, 3, 1, 2, 3]);
    assert_eq!(v.to_string().unwrap(), "ByteArray[{1,2,3}]");
}
