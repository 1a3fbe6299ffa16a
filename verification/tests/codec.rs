use aeronet::message::{decode, encode, CodecError, TryFromBytes, TryIntoBytes};

#[test]
fn encode_prefixes_the_length() {
    let framed = encode(&vec![7u8, 8u8]);
    assert_eq!(framed, vec![2, 0, 0, 0, 0, 0, 0, 0, 7, 8]);
}

#[test]
fn encode_of_empty_payload_is_just_the_header() {
    let framed = encode(&Vec::new());
    assert_eq!(framed, vec![0u8; 8]);
}

#[test]
fn decode_undoes_encode() {
    for payload in [vec![], vec![0u8], vec![1u8, 2, 3, 255], vec![9u8; 300]] {
        let framed = encode(&payload);
        assert_eq!(decode(&framed), Ok(payload));
    }
}

#[test]
fn decode_rejects_short_buffers_as_truncated() {
    assert_eq!(decode(&[]), Err(CodecError::Truncated));
    assert_eq!(decode(&[1, 0, 0]), Err(CodecError::Truncated));
    assert_eq!(decode(&[1, 0, 0, 0, 0, 0, 0]), Err(CodecError::Truncated));
}

#[test]
fn decode_rejects_missing_payload_bytes_as_truncated() {
    // Header declares three bytes; only two follow.
    assert_eq!(
        decode(&[3, 0, 0, 0, 0, 0, 0, 0, 1, 2]),
        Err(CodecError::Truncated)
    );
}

#[test]
fn decode_rejects_extra_bytes_as_trailing() {
    // Header declares one byte; two follow.
    assert_eq!(
        decode(&[1, 0, 0, 0, 0, 0, 0, 0, 1, 2]),
        Err(CodecError::Trailing)
    );
}

#[test]
fn byte_messages_convert_to_themselves() {
    let bytes = vec![1u8, 2, 3];
    assert_eq!(bytes.clone().try_into_bytes(), Ok(vec![1u8, 2, 3]));
    assert_eq!(<Vec<u8>>::try_from_bytes(&[1, 2, 3]), Ok(bytes));
}

#[test]
fn text_messages_convert_to_framed_utf8() {
    let text = String::from("ping");
    assert_eq!(
        text.try_into_bytes(),
        Ok(vec![4, 0, 0, 0, 0, 0, 0, 0, b'p', b'i', b'n', b'g'])
    );
    let accented = String::from("\u{e9}");
    assert_eq!(
        accented.try_into_bytes(),
        Ok(vec![2, 0, 0, 0, 0, 0, 0, 0, 0xc3, 0xa9])
    );
}

#[test]
fn text_messages_round_trip() {
    for text in ["", "ping", "caf\u{e9} \u{1f600}"] {
        let text = String::from(text);
        let bytes = text.clone().try_into_bytes().unwrap();
        assert_eq!(String::try_from_bytes(&bytes), Ok(text));
    }
}

#[test]
fn text_decoding_rejects_trailing_bytes() {
    let mut bytes = String::from("hi").try_into_bytes().unwrap();
    bytes.push(0);
    assert_eq!(String::try_from_bytes(&bytes), Err(CodecError::Trailing));
}

#[test]
fn text_decoding_rejects_malformed_bytes() {
    // The header declares one byte that is not valid UTF-8.
    assert_eq!(
        String::try_from_bytes(&[1, 0, 0, 0, 0, 0, 0, 0, 0xff]),
        Err(CodecError::Invalid)
    );
    // The header declares more bytes than follow.
    assert!(String::try_from_bytes(&[9, 0, 0, 0, 0, 0, 0, 0, b'a']).is_err());
}
