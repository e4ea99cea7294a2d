use integer_encoding::VarInt;
use wolfram_wxf::WolframValue;

fn length_encoding(len: usize) -> Vec<u8> {
    let mut buf = vec![];
    let mut varint = len;
    loop {
        let next = varint & 0x7F;
        varint >>= 7;
        if varint != 0 {
            buf.push((next | 0x80) as u8)
        }
        else {
            buf.push(next as u8);
            break;
        }
    }
    return buf.to_vec();
}

#[test]
fn test_var_encoding() {
    let check = vec![0usize, 1, 64, 127, 128, 255, 256, 1024, 2048]
        .iter()
        .all(|u| u.encode_var_vec() == length_encoding(*u));
    assert!(check)
}

#[test]
fn test_length_prefix_of_payloads() {
    for len in vec![0usize, 1, 64, 127, 128, 255, 256, 1024, 2048, 20000] {
        let payload = vec![7u8; len];
        let bytes = WolframValue::Bytes(payload.clone()).to_bytes().unwrap();
        let mut expected = vec![56u8, 58, 66];
        expected.extend_from_slice(&length_encoding(len));
        expected.extend_from_slice(&payload);
        assert_eq!(bytes, expected);
    }
}

#[test]
fn test_length_prefix_exact_bytes() {
    let bytes = WolframValue::Bytes(vec![0u8; 300]).to_bytes().unwrap();
    assert_eq!(&bytes[0..5], &[56u8, 58, 66, 172, 2]);
    assert_eq!(bytes.len(), 305);
    let text = "a".repeat(128);
    let bytes = WolframValue::String(text).to_bytes().unwrap();
    assert_eq!(&bytes[0..5], &[56u8, 58, 83, 128, 1]);
}
