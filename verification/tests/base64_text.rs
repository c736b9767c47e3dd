use base64::engine::general_purpose::STANDARD;
use base64::Engine;
use rollout_controller::base64_text::decode;

#[test]
fn decoding_undoes_encoding() {
    assert_eq!(decode(""), Some(vec![]));
    assert_eq!(decode("TQ=="), Some(b"M".to_vec()));
    assert_eq!(decode("TWE="), Some(b"Ma".to_vec()));
    assert_eq!(decode("TWFu"), Some(b"Man".to_vec()));
    assert_eq!(decode("+/8A"), Some(vec![0xfb, 0xff, 0x00]));
    let bytes: Vec<u8> = (0..=255).collect();
    for len in [0usize, 1, 2, 3, 4, 31, 32, 33, 100, 256] {
        let part = bytes[..len].to_vec();
        assert_eq!(decode(&STANDARD.encode(&part)), Some(part));
    }
}

#[test]
fn other_texts_are_refused() {
    for text in [
        "TQ", "TQ=", "TR==", "TWF=", "T===", "====", "=", "T", "TWFu=", "TWFuTQ", " TWFu",
        "TWFu\n", "TW-_", "TWé=", "TQ==TWFu",
    ] {
        assert_eq!(decode(text), None, "{}", text);
    }
}
