use leaf::codec::{Codec, DeflateCodec, DEFAULT_COMPRESSION_LEVEL};

#[test]
fn test_deflate_encode_message_successful_encoding_returns_bytevec() {
    let codec = DeflateCodec::new();
    let message = "Hello World";
    let result: Vec<u8> = vec![120, 156, 243, 72, 205, 201, 201, 87, 8, 207, 47, 202, 73, 1, 0, 24, 11, 4, 29];

    let encoded = codec.encode_message(message).unwrap();

    assert_eq!(result, encoded);
}

#[test]
fn test_deflate_decode_message_successful_decoding_returns_str() {
    let codec = DeflateCodec::new();
    let encoded = vec![120, 156, 243, 72, 205, 201, 201, 87, 8, 207, 47, 202, 73, 1, 0, 24, 11, 4, 29];
    let result = "Hello World";

    let decoded = codec.decode_message(&encoded).unwrap();

    assert_eq!(result, &decoded);
}

#[test]
fn deflate_roundtrip_gives_the_message_back() {
    let codec = DeflateCodec::new();
    for message in ["", "a", "Leaf keeps shards", "ünïcödé text ✓"] {
        let encoded = codec.encode_message(message).unwrap();
        assert_ne!(encoded, message.as_bytes().to_vec());
        assert_eq!(codec.decode_message(&encoded).unwrap(), message);
    }
}

#[test]
fn deflate_refuses_a_stream_that_is_not_zlib() {
    let codec = DeflateCodec::new();
    assert!(codec.decode_message(b"not a zlib stream").is_err());
}

#[test]
fn deflate_refuses_content_that_is_not_utf8() {
    // zlib stream of the two bytes [0xff, 0xfe], stored without compression
    let stream: Vec<u8> = vec![120, 1, 1, 2, 0, 253, 255, 255, 254, 2, 254, 1, 254];
    let codec = DeflateCodec::new();
    assert!(codec.decode_message(&stream).is_err());
}

#[test]
fn default_compression_level_is_six() {
    assert_eq!(DEFAULT_COMPRESSION_LEVEL, 6);
}
