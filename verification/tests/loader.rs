use crochet_core::loader::gltf_parser::GltfLoader;
use crochet_core::types::PatternError;

#[test]
fn test_decode_data_uri() {
    let loader = GltfLoader::new();

    let uri = "data:application/octet-stream;base64,AAAA";
    let result = loader.decode_data_uri(uri);
    assert!(result.is_ok());
}

#[test]
fn data_uri_payload_is_decoded() {
    let loader = GltfLoader::new();
    let bytes = loader
        .decode_data_uri("data:application/octet-stream;base64,AAAA")
        .unwrap();
    assert_eq!(bytes, vec![0u8, 0, 0]);
    let bytes = loader.decode_data_uri("data:;base64,SGVsbG8sIHdvcmxkIQ==").unwrap();
    assert_eq!(bytes, b"Hello, world!".to_vec());
}

#[test]
fn data_uri_is_refused_without_scheme_comma_or_base64() {
    let loader = GltfLoader::new();
    for uri in [
        "http://example.com/a.bin",
        "data",
        "data:application/octet-stream;base64",
        "data:text/plain,AAAA",
        "data:application/octet-stream;base6,AAAA",
    ] {
        match loader.decode_data_uri(uri) {
            Err(PatternError::IOError(_)) => {}
            other => panic!("unexpected result for {}: {:?}", uri, other),
        }
    }
}

#[test]
fn base64_decodes_with_and_without_padding() {
    let loader = GltfLoader::new();
    assert_eq!(loader.decode_base64("").unwrap(), Vec::<u8>::new());
    assert_eq!(loader.decode_base64("TQ==").unwrap(), b"M".to_vec());
    assert_eq!(loader.decode_base64("TWE=").unwrap(), b"Ma".to_vec());
    assert_eq!(loader.decode_base64("TWFu").unwrap(), b"Man".to_vec());
    assert_eq!(loader.decode_base64("TWE").unwrap(), b"Ma".to_vec());
    assert_eq!(loader.decode_base64("T").unwrap(), Vec::<u8>::new());
    assert_eq!(loader.decode_base64("+/+/").unwrap(), vec![0xFB, 0xFF, 0xBF]);
    assert_eq!(loader.decode_base64("////").unwrap(), vec![0xFF, 0xFF, 0xFF]);
}

#[test]
fn base64_skips_white_space() {
    let loader = GltfLoader::new();
    assert_eq!(
        loader.decode_base64(" SGVs\nbG8s\tIHdv\r\ncmxk IQ== ").unwrap(),
        b"Hello, world!".to_vec()
    );
    assert_eq!(loader.decode_base64("TW\u{00A0}Fu\u{3000}").unwrap(), b"Man".to_vec());
}

#[test]
fn base64_reads_on_after_padding() {
    let loader = GltfLoader::new();
    assert_eq!(loader.decode_base64("TQ==TWFu").unwrap(), b"MMan".to_vec());
    assert_eq!(loader.decode_base64("T=!!TWFu").unwrap(), b"Man".to_vec());
}

#[test]
fn base64_refuses_characters_outside_the_alphabet() {
    let loader = GltfLoader::new();
    for text in ["TW-u", "TWFu!", "\u{00E9}AAA", "TWF_"] {
        match loader.decode_base64(text) {
            Err(PatternError::IOError(detail)) => assert_eq!(detail, "Invalid base64 character"),
            other => panic!("unexpected result for {}: {:?}", text, other),
        }
    }
}

#[test]
fn white_space_is_what_the_standard_library_calls_white_space() {
    let loader = GltfLoader::new();
    for code in 0..=0x10FFFFu32 {
        let c = match char::from_u32(code) {
            Some(c) => c,
            None => continue,
        };
        if c.is_ascii_alphanumeric() || c == '+' || c == '/' || c == '=' {
            continue;
        }
        let text: String = ['T', 'W', c, 'F', 'u'].iter().collect();
        let decoded = loader.decode_base64(&text);
        if c.is_whitespace() {
            assert_eq!(decoded.unwrap(), b"Man".to_vec(), "code point {:#x}", code);
        } else {
            assert!(decoded.is_err(), "code point {:#x}", code);
        }
    }
}
