use std::io::Read;
use wolfram_wxf::compare::compare_values;
use wolfram_wxf::{
    date_object, detect_format, BigInteger, DecimalText, Document, DocumentEntry, Error, IoFailure, KeyOrder,
    ReadableBuffer, ReadableWriter, SupportedFormat, ToWolfram, WolframError, WolframFunction, WolframSerializer,
    WolframSymbol, WolframValue,
};

#[test]
fn symbol_names_are_checked() {
    assert!(WolframSymbol::is_valid(""));
    assert!(WolframSymbol::is_valid("a`b1Z"));
    assert!(!WolframSymbol::is_valid("a b"));
    assert!(!WolframSymbol::is_valid("a-b"));
    assert!(!WolframSymbol::is_valid("é"));
    assert_eq!(WolframSymbol::new("bad space", "x").unwrap_err(), WolframError::InvalidSymbol("bad space".to_string()));
    assert_eq!(WolframSymbol::new("Good", "x y").unwrap_err(), WolframError::InvalidSymbol("x y".to_string()));
    assert_eq!(WolframSymbol::system("a-b").unwrap_err(), WolframError::InvalidSymbol("a-b".to_string()));
    assert_eq!(WolframSymbol::global("a-b").unwrap_err(), WolframError::InvalidSymbol("a-b".to_string()));
    assert_eq!(WolframFunction::system("a+b", vec![]).unwrap_err(), WolframError::InvalidSymbol("a+b".to_string()));
    assert_eq!(WolframSymbol::new("Ctx", "name").unwrap().qualified(), "Ctx`name");
    assert_eq!(WolframSymbol::boolean(false).qualified(), "False");
}

#[test]
fn reserved_variants_are_refused() {
    let packed = WolframValue::PackedArray(vec![1u8.to_wolfram()]);
    assert_eq!(packed.to_bytes().unwrap_err(), WolframError::NotImplemented);
    assert_eq!(packed.to_string().unwrap_err(), WolframError::NotImplemented);
    assert_eq!(packed.to_compressed().unwrap_err(), WolframError::NotImplemented);
    let nested = WolframValue::list(vec![WolframValue::NumericArray(vec![])]);
    assert_eq!(nested.to_bytes().unwrap_err(), WolframError::NotImplemented);
    assert_eq!(nested.to_string().unwrap_err(), WolframError::NotImplemented);
    let mut out = vec![1u8, 2];
    assert_eq!(nested.write_bytes(&mut out).unwrap_err(), WolframError::NotImplemented);
    assert_eq!(out, [1, 2]);
    let big = WolframValue::BigDecimal("1.5".to_string());
    assert_eq!(big.to_bytes().unwrap_err(), WolframError::NotImplemented);
    assert_eq!(big.to_string().unwrap(), "1.5");
    assert_eq!(WolframValue::numeric_array().unwrap_err(), WolframError::NotImplemented);
    assert_eq!(WolframValue::packed_array().unwrap_err(), WolframError::NotImplemented);
}

#[test]
fn decimals_need_their_text() {
    let v = WolframValue::list(vec![WolframValue::from_binary64(1.5f64.to_bits())]);
    assert_eq!(v.to_string().unwrap_err(), WolframError::MissingDecimal);
    assert_eq!(v.decimal_patterns(), vec![1.5f64.to_le_bytes()]);
    let texts = vec![DecimalText { pattern: 1.5f64.to_le_bytes(), text: "1.5".to_string() }];
    assert_eq!(v.to_string_with(&texts).unwrap(), "{1.5`}");
    let other = vec![DecimalText { pattern: 2.5f64.to_le_bytes(), text: "2.5".to_string() }];
    assert_eq!(v.to_string_with(&other).unwrap_err(), WolframError::MissingDecimal);
}

#[test]
fn special_binary64_numbers_become_symbols() {
    assert_eq!(WolframValue::from_binary64(f64::INFINITY.to_bits()).to_string().unwrap(), "Infinity");
    assert_eq!(WolframValue::from_binary64(f64::NEG_INFINITY.to_bits()).to_string().unwrap(), "Neg[Infinity]");
    assert_eq!(WolframValue::from_binary64(f64::NAN.to_bits()).to_string().unwrap(), "Null");
    assert_eq!(WolframValue::from_binary64((-f64::NAN).to_bits()).to_string().unwrap(), "Null");
    assert_eq!(WolframValue::from_binary64((-0.0f64).to_bits()), WolframValue::Decimal64([0, 0, 0, 0, 0, 0, 0, 128]));
    assert_eq!(WolframValue::from_binary64(f64::MAX.to_bits()), WolframValue::Decimal64(f64::MAX.to_le_bytes()));
    assert_eq!(
        WolframValue::from_binary64(f64::NEG_INFINITY.to_bits()).to_bytes().unwrap(),
        [56, 58, 102, 1, 115, 3, 78, 101, 103, 115, 8, 73, 110, 102, 105, 110, 105, 116, 121]
    );
}

#[test]
fn integers_are_little_endian_twos_complement() {
    assert_eq!(WolframValue::Integer32(-1).to_bytes().unwrap(), [56, 58, 105, 255, 255, 255, 255]);
    assert_eq!(WolframValue::Integer32(0x01020304).to_bytes().unwrap(), [56, 58, 105, 4, 3, 2, 1]);
    assert_eq!(WolframValue::Integer64(-2).to_bytes().unwrap(), [56, 58, 76, 254, 255, 255, 255, 255, 255, 255, 255]);
    assert_eq!(WolframValue::Integer64(i64::MIN).to_bytes().unwrap(), [56, 58, 76, 0, 0, 0, 0, 0, 0, 0, 128]);
    assert_eq!(WolframValue::Integer64(i64::MIN).to_string().unwrap(), "-9223372036854775808");
    assert_eq!(WolframValue::integer(i128::MIN).to_string().unwrap(), "-170141183460469231731687303715884105728");
    assert_eq!(WolframValue::integer(-12).to_bytes().unwrap(), [56, 58, 73, 3, 45, 49, 50]);
    assert_eq!(WolframValue::integer(0).to_bytes().unwrap(), [56, 58, 73, 1, 48]);
}

#[test]
fn skip_encodes_to_nothing() {
    assert_eq!(WolframValue::Skip.to_bytes().unwrap(), [56, 58]);
    assert_eq!(WolframValue::Skip.to_string().unwrap(), "");
    let v = WolframValue::list(vec![WolframValue::Skip, WolframValue::Skip]);
    assert_eq!(v.to_string().unwrap(), "{,}");
    assert_eq!(v.to_bytes().unwrap(), [56, 58, 102, 2, 115, 4, 76, 105, 115, 116]);
    assert_eq!(WolframValue::Rule.to_bytes().unwrap(), [56, 58, 45]);
    assert_eq!(WolframValue::RuleDelayed.to_bytes().unwrap(), [56, 58, 58]);
    assert_eq!(WolframValue::Rule.to_string().unwrap(), "->");
    assert_eq!(WolframValue::RuleDelayed.to_string().unwrap(), ":>");
}

#[test]
fn a_symbol_named_list_is_written_in_braces() {
    let global = WolframFunction::global("List", vec![1u8.to_wolfram()]).unwrap().to_wolfram();
    assert_eq!(global.to_string().unwrap(), "{1}");
    assert_eq!(global.to_bytes().unwrap(), [56, 58, 102, 1, 115, 11, 71, 108, 111, 98, 97, 108, 96, 76, 105, 115, 116, 67, 1]);
    let other = WolframFunction::namespace("Other", "List", vec![]).unwrap().to_wolfram();
    assert_eq!(other.to_string().unwrap(), "{}");
    let lists = WolframFunction::global("Lists", vec![1u8.to_wolfram()]).unwrap().to_wolfram();
    assert_eq!(lists.to_string().unwrap(), "Global`Lists[1]");
    let text_head = WolframFunction::new("List", vec![1u8.to_wolfram()]).to_wolfram();
    assert_eq!(text_head.to_string().unwrap(), "\"List\"[1]");
    assert_eq!(WolframValue::list(Vec::<u8>::new()).to_string().unwrap(), "{}");
    assert_eq!(WolframValue::pair("x", 1u8, false).to_string().unwrap(), "Rule[\"x\",1]");
    assert_eq!(WolframValue::pair("x", 1u8, true).to_string().unwrap(), "RuleDelayed[\"x\",1]");
    assert_eq!(date_object("2020-01-02").to_string().unwrap(), "DateObject[\"2020-01-02\"]");
}

#[test]
fn compression_wraps_the_encoded_value() {
    let v = WolframValue::list(vec!["aaaaaaaaaaaaaaaaaaaaaaaaaaaaaaaaaaaaaaaaaaaaaaaaaaaaaaaa"; 20]);
    let raw = v.to_bytes().unwrap();
    let solid = v.to_compressed().unwrap();
    assert_eq!(&solid[0..3], b"8C:");
    assert_ne!(&solid[3..], &raw[2..]);
    assert!(solid.len() < raw.len());
    let mut body = Vec::new();
    flate2::read::ZlibDecoder::new(&solid[3..]).read_to_end(&mut body).unwrap();
    assert_eq!(body, &raw[2..]);
    assert_eq!(v.to_wolfram_solid().unwrap(), solid);
}

#[test]
fn the_buffer_indents_new_lines() {
    let mut buffer = ReadableBuffer::new(ReadableWriter::default());
    buffer.write_new_line();
    assert_eq!(buffer.buffer, "\n");
    buffer.indent();
    buffer.indent();
    buffer.write_new_line();
    assert_eq!(buffer.buffer, "\n\n        ");
    buffer.dedent();
    assert_eq!(buffer.indent_level, 1);
    let mut plain = ReadableBuffer::new(ReadableWriter { pretty: false, indent_string: "  " });
    plain.indent();
    plain.write_new_line();
    assert_eq!(plain.buffer, "\n");
    plain.write_value(&WolframValue::list(vec![1u8, 2u8]), &Vec::new());
    assert_eq!(plain.buffer, "\n{1,2}");
}

#[test]
fn the_file_name_selects_the_format() {
    assert_eq!(detect_format("a/b/c.yml", None), SupportedFormat::YAML);
    assert_eq!(detect_format("a/b/c.YAML", None), SupportedFormat::YAML);
    assert_eq!(detect_format("c.Json", None), SupportedFormat::JSON);
    assert_eq!(detect_format("c.toml", None), SupportedFormat::TOML);
    assert_eq!(detect_format("c.txt", None), SupportedFormat::TOML);
    assert_eq!(detect_format("a.json/c", None), SupportedFormat::TOML);
    assert_eq!(detect_format("json", None), SupportedFormat::JSON);
    assert_eq!(detect_format("c.json.", None), SupportedFormat::TOML);
    assert_eq!(detect_format("c.toml", Some("yaml")), SupportedFormat::YAML);
    assert_eq!(detect_format("c.yaml", Some("JSON")), SupportedFormat::JSON);
    assert_eq!(Error::from_io(IoFailure::NotFound), Error::FileNotFound);
    assert_eq!(Error::from_io(IoFailure::PermissionDenied), Error::PermissionDenied);
    assert_eq!(Error::from_io(IoFailure::Other), Error::UnknownIOError);
}

#[test]
fn documents_become_values() {
    let doc = Document::Table(vec![
        DocumentEntry { key: Document::Text("b".to_string()), value: Document::List(vec![Document::Integer(1), Document::Null]) },
        DocumentEntry { key: Document::Text("a".to_string()), value: Document::Boolean(true) },
        DocumentEntry { key: Document::Text("b".to_string()), value: Document::Unsigned(300) },
        DocumentEntry { key: Document::Text("d".to_string()), value: Document::Date("1979-05-27".to_string()) },
        DocumentEntry { key: Document::Text("e".to_string()), value: Document::Bad },
    ]);
    assert_eq!(doc.to_wolfram_string().unwrap(), "<|\"a\"->True,\"b\"->300,\"d\"->DateObject[\"1979-05-27\"],\"e\"->Null|>");
    assert_eq!(Document::List(vec![Document::Integer(1), Document::Null]).convert().to_string().unwrap(), "{1,None}");
    assert_eq!(Document::Bytes(vec![255]).convert(), WolframValue::Bytes(vec![255]));
    assert_eq!(Document::Decimal(f64::INFINITY.to_bits()).convert().to_string().unwrap(), "Infinity");
    assert_eq!(Document::number(Some(7), Some(7), Some(0)), Document::Unsigned(7));
    assert_eq!(Document::number(None, Some(-7), Some(0)), Document::Integer(-7));
    assert_eq!(Document::number(None, None, Some(9)), Document::Decimal(9));
    assert_eq!(Document::number(None, None, None), Document::Decimal(0));
    assert_eq!(Document::convert_all(&vec![]).to_string().unwrap(), "None");
    assert_eq!(Document::convert_all(&vec![Document::Integer(4)]).to_string().unwrap(), "4");
    assert_eq!(Document::convert_all(&vec![Document::Integer(4), Document::Integer(5)]).to_string().unwrap(), "{4,5}");
    let big = BigInteger::from_digits(true, vec![1, 2, 3]).unwrap();
    assert_eq!(Document::Big(big).convert().to_string().unwrap(), "-123");
}

#[test]
fn big_integers_hold_canonical_digits() {
    assert!(BigInteger::from_digits(false, vec![]).is_none());
    assert!(BigInteger::from_digits(false, vec![0, 1]).is_none());
    assert!(BigInteger::from_digits(false, vec![1, 10]).is_none());
    assert!(BigInteger::from_digits(true, vec![0]).is_none());
    assert_eq!(BigInteger::from_digits(false, vec![0]).unwrap(), BigInteger::from_i128(0));
    assert_eq!(BigInteger::from_digits(true, vec![4, 2]).unwrap(), BigInteger::from_i128(-42));
    assert_eq!(BigInteger::from_u128(u128::MAX).to_decimal_bytes(), b"340282366920938463463374607431768211455");
    let small = BigInteger::from_i128(-5);
    let mid = BigInteger::from_i128(99);
    let large = BigInteger::from_i128(100);
    assert_eq!(small.compare(&mid), KeyOrder::Less);
    assert_eq!(mid.compare(&large), KeyOrder::Less);
    assert_eq!(large.compare(&mid), KeyOrder::Greater);
    assert_eq!(mid.compare(&mid), KeyOrder::Equal);
    assert_eq!(BigInteger::from_i128(-100).compare(&BigInteger::from_i128(-99)), KeyOrder::Less);
    assert_eq!(BigInteger::from_i128(-7).compare(&BigInteger::from_i128(-8)), KeyOrder::Greater);
}

#[test]
fn values_are_totally_ordered() {
    let samples = vec![
        WolframValue::Skip,
        WolframValue::list(vec![1u8]),
        WolframValue::list(vec![1u8, 0u8]),
        WolframValue::list(vec![2u8]),
        false.to_wolfram(),
        true.to_wolfram(),
        "".to_wolfram(),
        "a".to_wolfram(),
        "ab".to_wolfram(),
        "b".to_wolfram(),
        WolframValue::Bytes(vec![]),
        WolframValue::Bytes(vec![0]),
        WolframValue::system_symbol("a").unwrap(),
        WolframValue::global_symbol("a").unwrap(),
        WolframValue::Integer8(-1),
        WolframValue::Integer8(1),
        WolframValue::Integer16(0),
        WolframValue::integer(-3),
        WolframValue::integer(3),
        WolframValue::Rule,
        WolframValue::RuleDelayed,
    ];
    for (i, a) in samples.iter().enumerate() {
        for (j, b) in samples.iter().enumerate() {
            let expected = if i < j {
                KeyOrder::Less
            }
            else if i == j {
                KeyOrder::Equal
            }
            else {
                KeyOrder::Greater
            };
            assert_eq!(compare_values(a, b), expected, "{:?} against {:?}", a, b);
        }
    }
}

#[test]
fn the_protocol_names_its_aggregates() {
    let serializer = WolframSerializer::default();
    assert_eq!(serializer.serialize_unit().unwrap().to_string().unwrap(), "Null");
    assert_eq!(serializer.serialize_bytes(&[1, 2]).unwrap(), WolframValue::Bytes(vec![1, 2]));
    assert_eq!(serializer.serialize_u64(u64::MAX).unwrap().to_string().unwrap(), "18446744073709551615");
    assert_eq!(serializer.serialize_f64(f64::NAN.to_bits()).unwrap().to_string().unwrap(), "Null");
    let inner = serializer.serialize_u8(200).unwrap();
    assert_eq!(serializer.serialize_newtype_struct("Meters", inner).unwrap().to_string().unwrap(), "Global`Meters[200]");
    let inner = serializer.serialize_i16(-3).unwrap();
    assert_eq!(
        serializer.serialize_newtype_variant("Shape", 0, "Side", inner).unwrap().to_bytes().unwrap(),
        [56, 58, 102, 1, 115, 10, 83, 104, 97, 112, 101, 96, 83, 105, 100, 101, 67, 253]
    );
    let mut record = serializer.serialize_struct("Point", 1).unwrap();
    record.serialize_named_field("x", serializer.serialize_i8(1).unwrap()).unwrap();
    assert_eq!(record.end().unwrap().to_string().unwrap(), "Global`Point[Rule[\"x\",1]]");
    assert_eq!(serializer.serialize_unit_struct("not valid").unwrap_err(), WolframError::InvalidSymbol("not valid".to_string()));
    let bad = serializer.serialize_tuple_struct("a b", 0).unwrap();
    assert_eq!(bad.end().unwrap_err(), WolframError::InvalidSymbol("a b".to_string()));
    assert!(!serializer.is_human_readable());
    let mut map = serializer.serialize_map(None).unwrap();
    map.serialize_key(serializer.serialize_bool(true).unwrap()).unwrap();
    map.serialize_value(serializer.serialize_bool(true).unwrap()).unwrap();
    map.serialize_key(serializer.serialize_bool(false).unwrap()).unwrap();
    map.serialize_value(serializer.serialize_bool(false).unwrap()).unwrap();
    assert_eq!(map.key, WolframValue::Skip);
    assert_eq!(map.end().unwrap().to_string().unwrap(), "<|False->False,True->True|>");
}

#[test]
fn calls_can_be_changed_in_place() {
    let mut f = WolframFunction::system("f", vec![]).unwrap();
    f.add_rest(1u8.to_wolfram());
    f.mut_rest().push(2u8.to_wolfram());
    *f.mut_head() = WolframValue::system_symbol("g").unwrap();
    assert_eq!(f.get_rest().len(), 2);
    assert_eq!(f.to_wolfram().to_string().unwrap(), "g[1,2]");
    f.set_head("h");
    assert_eq!(f.get_head(), &WolframValue::String("h".to_string()));
    let f = f.with_head(WolframValue::system_symbol("k").unwrap());
    assert_eq!(f.to_wolfram().to_bytes().unwrap(), [56, 58, 102, 2, 115, 1, 107, 67, 1, 67, 2]);
    assert_eq!('x'.to_wolfram(), WolframValue::String("x".to_string()));
    assert_eq!("a\"b\\c\n".to_wolfram_string().unwrap(), "\"a\\\"b\\\\c\\n\"");
}

#[test]
fn binary32_numbers_keep_their_value() {
    let samples = [
        0.0f32,
        -0.0,
        1.0,
        -1.5,
        0.1,
        3.4028235e38,
        -3.4028235e38,
        1.17549435e-38,
        1.1754942e-38,
        1e-45,
        -1e-45,
        2.8e-45,
        5.877472e-39,
        f32::INFINITY,
        f32::NEG_INFINITY,
        f32::MIN_POSITIVE,
        f32::EPSILON,
    ];
    for x in samples {
        assert_eq!(wolfram_wxf::binary32::widen(x.to_bits()), (x as f64).to_bits(), "{}", x);
        assert_eq!(WolframValue::from_binary32(x.to_bits()), WolframValue::from_binary64((x as f64).to_bits()));
    }
    for bits in [1u32, 2, 3, 0x7f_ffff, 0x40_0000, 0x80_0000, 0x80_0001, 0x8000_0001, 0x7f7f_ffff, 0x3f80_0000] {
        let x = f32::from_bits(bits);
        assert_eq!(wolfram_wxf::binary32::widen(bits), (x as f64).to_bits(), "{:#x}", bits);
    }
    assert_eq!(WolframValue::from_binary32(f32::NAN.to_bits()).to_string().unwrap(), "Null");
    assert_eq!(WolframValue::from_binary32(f32::INFINITY.to_bits()).to_string().unwrap(), "Infinity");
    assert_eq!(WolframValue::from_binary32(f32::NEG_INFINITY.to_bits()).to_string().unwrap(), "Neg[Infinity]");
    let serializer = WolframSerializer::default();
    assert_eq!(serializer.serialize_f32(0.5f32.to_bits()).unwrap(), WolframValue::Decimal64(0.5f64.to_le_bytes()));
}
