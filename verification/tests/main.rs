use wolfram_wxf::{ToWolfram, WolframValue};

#[test]
fn test_none() {
    assert_eq!(WolframValue::system_symbol("None").unwrap().to_bytes().unwrap(), [56, 58, 115, 4, 78, 111, 110, 101]);
    assert_eq!(WolframValue::system_symbol("None").unwrap().to_string().unwrap(), "None");
}

#[test]
fn test_bool() {
    assert_eq!(true.to_wolfram_bytes().unwrap(), [56, 58, 115, 4, 84, 114, 117, 101]);
    assert_eq!(true.to_wolfram_string().unwrap(), "True");
    assert_eq!(false.to_wolfram_bytes().unwrap(), [56, 58, 115, 5, 70, 97, 108, 115, 101]);
    assert_eq!(false.to_wolfram_string().unwrap(), "False");
}

#[test]
fn test_string() {
    assert_eq!("42".to_wolfram_bytes().unwrap(), [56, 58, 83, 2, 52, 50]);
    assert_eq!("42".to_wolfram_string().unwrap(), "\"42\"");
    assert_eq!("中文".to_wolfram_bytes().unwrap(), [56, 58, 83, 6, 228, 184, 173, 230, 150, 135]);
    assert_eq!("中文".to_wolfram_string().unwrap(), "\"中文\"");
}

#[test]
fn main_test_list() {
    assert_eq!(vec![0u8].to_wolfram_bytes().unwrap(), [56, 58, 102, 1, 115, 4, 76, 105, 115, 116, 67, 0]);
    assert_eq!(vec![0u8].to_wolfram_string().unwrap(), "{0}");
    assert_eq!(vec!["0"].to_wolfram_bytes().unwrap(), [56, 58, 102, 1, 115, 4, 76, 105, 115, 116, 83, 1, 48]);
    assert_eq!(vec!["0"].to_wolfram_string().unwrap(), "{\"0\"}");

    assert_eq!(vec![0].to_wolfram_string().unwrap(), "{0}");
    assert_eq!(vec![vec![0], vec![1]].to_wolfram_string().unwrap(), "{{0},{1}}");
    let pair = WolframValue::list(vec![vec![0].to_wolfram(), vec![1].to_wolfram()]);
    assert_eq!(pair.to_string().unwrap(), "{{0},{1}}");
}
