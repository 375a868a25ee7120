use mem_backend::base64_bytes::{deserialize, serialize};

fn text(bytes: &[u8]) -> String {
    serialize(&Some(bytes.to_vec())).unwrap()
}

fn bytes(text: &str) -> Option<Vec<u8>> {
    deserialize(Some(text.to_string())).unwrap()
}

#[test]
fn standard_padded_texts() {
    assert_eq!(text(b""), "");
    assert_eq!(text(b"f"), "Zg==");
    assert_eq!(text(b"fo"), "Zm8=");
    assert_eq!(text(b"foo"), "Zm9v");
    assert_eq!(text(b"foob"), "Zm9vYg==");
    assert_eq!(text(b"fooba"), "Zm9vYmE=");
    assert_eq!(text(b"foobar"), "Zm9vYmFy");
    assert_eq!(text(&[0x03, 0x10]), "AxA=");
    assert_eq!(text(&[0xfb, 0xff, 0xbf]), "+/+/");
    assert_eq!(serialize(&None), None);
}

#[test]
fn texts_give_their_bytes_back() {
    assert_eq!(bytes("AxA="), Some(vec![0x03, 0x10]));
    assert_eq!(bytes(""), Some(vec![]));
    assert_eq!(bytes("+/+/"), Some(vec![0xfb, 0xff, 0xbf]));
    assert_eq!(deserialize(None).unwrap(), None);
    for n in 0..40usize {
        let data: Vec<u8> = (0..n).map(|i| (i * 37 + n) as u8).collect();
        let encoded = text(&data);
        assert_eq!(encoded.len(), 4 * n.div_ceil(3));
        assert_eq!(bytes(&encoded), Some(data));
    }
}

#[test]
fn other_texts_are_rejected() {
    for bad in [
        "!!", "A", "AB", "ABC", "AxA", "AxA==", "AxB=", "Ax==", "AxA=\n", "Zg", "Zm-v", "Zm_v",
        "====", "é=",
    ] {
        assert!(deserialize(Some(bad.to_string())).is_err(), "{bad}");
    }
    let error = deserialize(Some("!!".to_string())).unwrap_err();
    assert_eq!(error.message, "Invalid symbol 33, offset 0.");
    let error = deserialize(Some("AxB=".to_string())).unwrap_err();
    assert_eq!(error.message, "Invalid last symbol 66, offset 2.");
}
