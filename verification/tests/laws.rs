use wolfram_wxf::symbols::qualify;
use wolfram_wxf::{ToWolfram, WolframAssociation, WolframPair, WolframRule, WolframSymbol, WolframValue};

#[test]
fn narrowing_takes_the_smallest_variant() {
    assert_eq!(127i8.to_wolfram(), WolframValue::Integer8(127));
    assert_eq!((-128i8).to_wolfram(), WolframValue::Integer8(-128));
    assert_eq!(127i16.to_wolfram(), WolframValue::Integer8(127));
    assert_eq!(128i16.to_wolfram(), WolframValue::Integer16(128));
    assert_eq!((-129i16).to_wolfram(), WolframValue::Integer16(-129));
    assert_eq!(32767i32.to_wolfram(), WolframValue::Integer16(32767));
    assert_eq!(32768i32.to_wolfram(), WolframValue::Integer32(32768));
    assert_eq!((-32769i32).to_wolfram(), WolframValue::Integer32(-32769));
    assert_eq!(2147483647i64.to_wolfram(), WolframValue::Integer32(2147483647));
    assert_eq!(2147483648i64.to_wolfram(), WolframValue::Integer64(2147483648));
    assert_eq!((-2147483649i64).to_wolfram(), WolframValue::Integer64(-2147483649));
    assert_eq!(9223372036854775807i128.to_wolfram(), WolframValue::Integer64(9223372036854775807));
    assert_eq!(9223372036854775808i128.to_wolfram(), WolframValue::integer(9223372036854775808));
    assert_eq!((-9223372036854775808i128).to_wolfram(), WolframValue::Integer64(-9223372036854775808));
    assert_eq!((-9223372036854775809i128).to_wolfram(), WolframValue::integer(-9223372036854775809));
}

#[test]
fn unsigned_sources_follow_the_boundary_table() {
    assert_eq!(127u8.to_wolfram(), WolframValue::Integer8(127));
    assert_eq!(128u8.to_wolfram(), WolframValue::Integer16(128));
    assert_eq!(255u8.to_wolfram(), WolframValue::Integer16(255));
    assert_eq!(5u16.to_wolfram(), WolframValue::Integer8(5));
    assert_eq!(32767u16.to_wolfram(), WolframValue::Integer16(32767));
    assert_eq!(32768u16.to_wolfram(), WolframValue::Integer32(32768));
    assert_eq!(65535u16.to_wolfram(), WolframValue::Integer32(65535));
    assert_eq!(2147483647u32.to_wolfram(), WolframValue::Integer32(2147483647));
    assert_eq!(2147483648u32.to_wolfram(), WolframValue::Integer64(2147483648));
    assert_eq!(9223372036854775807u64.to_wolfram(), WolframValue::Integer64(9223372036854775807));
    assert_eq!(9223372036854775808u64.to_wolfram(), WolframValue::integer(9223372036854775808));
    assert_eq!(0usize.to_wolfram(), WolframValue::Integer8(0));
    assert_eq!(u128::MAX.to_wolfram().to_string().unwrap(), "340282366920938463463374607431768211455");
}

#[test]
fn qualifying_is_idempotent() {
    assert_eq!(qualify("Global`x", "Global"), "Global`x");
    assert_eq!(qualify("Other`x", "Global"), "Other`x");
    assert_eq!(qualify("True", "Global"), "True");
    assert_eq!(qualify("DateObject", "Global"), "DateObject");
    assert_eq!(qualify("speed", "Global"), "Global`speed");
    assert_eq!(qualify("speed", "Physics"), "Physics`speed");
    assert_eq!(qualify("speed", "Global"), qualify("speed", "Global"));
    for name in ["speed", "True", "Global`x", "a`b`c", ""] {
        let once = qualify(name, "Global");
        assert_eq!(qualify(&once, "Global"), once);
    }
}

#[test]
fn resolving_a_bare_name() {
    assert_eq!(WolframSymbol::resolve("List").unwrap().qualified(), "List");
    assert_eq!(WolframSymbol::resolve("speed").unwrap().qualified(), "Global`speed");
    assert_eq!(WolframSymbol::resolve("My`speed").unwrap().qualified(), "My`speed");
    assert!(WolframSymbol::resolve("no way").is_err());
}

fn pair(key: WolframValue, value: WolframValue) -> WolframPair {
    WolframPair { rule: WolframRule::Rule, key, value }
}

#[test]
fn insertion_order_does_not_show() {
    let forward = vec![pair(1u8.to_wolfram(), 10u8.to_wolfram()), pair(2u8.to_wolfram(), 20u8.to_wolfram()), pair("k".to_wolfram(), 30u8.to_wolfram())];
    let backward = vec![pair("k".to_wolfram(), 30u8.to_wolfram()), pair(2u8.to_wolfram(), 20u8.to_wolfram()), pair(1u8.to_wolfram(), 10u8.to_wolfram())];
    let a = WolframValue::association(&forward);
    let b = WolframValue::association(&backward);
    assert_eq!(a, b);
    assert_eq!(a.to_bytes().unwrap(), b.to_bytes().unwrap());
    assert_eq!(a.to_string().unwrap(), b.to_string().unwrap());
    assert_eq!(a.to_string().unwrap(), "<|\"k\"->30,1->10,2->20|>");
    assert_eq!(a.to_bytes().unwrap(), [56, 58, 65, 3, 45, 83, 1, 107, 67, 30, 45, 67, 1, 67, 10, 45, 67, 2, 67, 20]);
}

#[test]
fn a_later_entry_replaces_an_earlier_one() {
    let entries = vec![pair(1u8.to_wolfram(), 10u8.to_wolfram()), pair(1u8.to_wolfram(), 11u8.to_wolfram())];
    assert_eq!(WolframValue::association(&entries).to_string().unwrap(), "<|1->11|>");
    let map = WolframAssociation::new()
        .insert(2u8.to_wolfram(), WolframRule::Rule, 0u8.to_wolfram())
        .insert(1u8.to_wolfram(), WolframRule::RuleDelayed, 0u8.to_wolfram())
        .insert(2u8.to_wolfram(), WolframRule::Rule, 9u8.to_wolfram());
    assert_eq!(map.len(), 2);
    assert_eq!(WolframValue::Association(map).to_string().unwrap(), "<|1:>0,2->9|>");
}

#[test]
fn keys_are_ordered_by_variant_first() {
    let entries = vec![
        pair(WolframValue::Rule, 0u8.to_wolfram()),
        pair(300u16.to_wolfram(), 0u8.to_wolfram()),
        pair(1u8.to_wolfram(), 0u8.to_wolfram()),
        pair(WolframValue::system_symbol("x").unwrap(), 0u8.to_wolfram()),
        pair(WolframValue::Bytes(vec![1]), 0u8.to_wolfram()),
        pair("a".to_wolfram(), 0u8.to_wolfram()),
        pair(true.to_wolfram(), 0u8.to_wolfram()),
        pair(WolframValue::list(vec![1u8]), 0u8.to_wolfram()),
        pair(WolframValue::Skip, 0u8.to_wolfram()),
        pair(WolframValue::integer(7), 0u8.to_wolfram()),
    ];
    let text = WolframValue::association(&entries).to_string().unwrap();
    assert_eq!(text, "<|->0,{1}->0,True->0,\"a\"->0,ByteArray[{1}]->0,x->0,1->0,300->0,7->0,->->0|>");
}

#[test]
fn text_and_bytes_agree_on_symbols() {
    let v = true.to_wolfram();
    let text = v.to_string().unwrap();
    let bytes = v.to_bytes().unwrap();
    assert_eq!(text, "True");
    assert_eq!(bytes[2], b's');
    assert_eq!(bytes[3] as usize, text.len());
    assert_eq!(&bytes[4..], text.as_bytes());
    let v = WolframValue::global_symbol("speed").unwrap();
    let text = v.to_string().unwrap();
    let bytes = v.to_bytes().unwrap();
    assert_eq!(text, "Global`speed");
    assert_eq!(bytes[2], b's');
    assert_eq!(bytes[3] as usize, text.len());
    assert_eq!(&bytes[4..], text.as_bytes());
}
