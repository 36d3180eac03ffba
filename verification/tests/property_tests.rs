use base16_rs::base16::Decoder;
use base16_rs::base16::Encoder;
use base16_rs::base16::Type::StdEncoding;

#[test]
fn round_trip_every_byte_value() {
    let buf: Vec<u8> = (0u8..=255u8).collect();
    let encoder = Encoder::new(StdEncoding);
    let decoder = Decoder::new();
    let upper = encoder.encode_upper_to_string(&buf);
    assert_eq!(decoder.decode_std(&upper), Ok(buf.clone()));
    let lower = encoder.encode_lower_to_string(&buf);
    assert_eq!(decoder.decode_std(&lower), Ok(buf));
}

#[test]
fn decode_is_case_invariant() {
    let decoder = Decoder::new();
    let mixed = decoder.decode_std("6a6B6c6D");
    assert_eq!(mixed, Ok(vec![0x6A, 0x6B, 0x6C, 0x6D]));
    assert_eq!(decoder.decode_std("6A6B6C6D"), mixed);
    assert_eq!(decoder.decode_std("6a6b6c6d"), mixed);
}

#[test]
fn encoded_length_is_twice_input_length() {
    let encoder = Encoder::new(StdEncoding);
    for len in [0usize, 1, 2, 7, 256] {
        let buf: Vec<u8> = vec![0xA5; len];
        assert_eq!(encoder.encode_upper_to_string(&buf).len(), 2 * len);
        assert_eq!(encoder.encode_lower_to_string(&buf).len(), 2 * len);
    }
}

#[test]
fn encode_and_decode_are_deterministic() {
    let encoder = Encoder::new(StdEncoding);
    let decoder = Decoder::new();
    let buf: Vec<u8> = Vec::from("determinism");
    assert_eq!(
        encoder.encode_upper_to_string(&buf),
        encoder.encode_upper_to_string(&buf)
    );
    assert_eq!(
        encoder.encode_lower_to_string(&buf),
        encoder.encode_lower_to_string(&buf)
    );
    let text = encoder.encode_lower_to_string(&buf);
    assert_eq!(decoder.decode_std(&text), decoder.decode_std(&text));
    assert_eq!(decoder.decode_std("not hex"), decoder.decode_std("not hex"));
}

#[test]
fn lower_and_upper_tables_agree_on_vectors() {
    let encoder = Encoder::new(StdEncoding);
    let buf: Vec<u8> = vec![0xAB, 0xCD, 0xEF, 0x01];
    assert_eq!(encoder.encode_upper_to_string(&buf), "ABCDEF01");
    assert_eq!(encoder.encode_lower_to_string(&buf), "abcdef01");
}

#[test]
fn error_reports_table_insertion_point() {
    let decoder = Decoder::new();
    // Below '0' in the table: insertion point 0.
    assert_eq!(decoder.decode_std("!"), Err(0));
    assert_eq!(decoder.decode_std("30 31"), Err(0));
    // Between '9' and 'a': insertion point 10.
    assert_eq!(decoder.decode_std(":"), Err(10));
    // Above 'f': insertion point 16, also for characters beyond ASCII
    // whose code points merely end in a hex digit's byte.
    assert_eq!(decoder.decode_std("0g"), Err(16));
    assert_eq!(decoder.decode_std("0\u{fc}"), Err(16));
    assert_eq!(decoder.decode_std("0\u{161}"), Err(16));
}

#[test]
fn odd_length_input_is_rejected() {
    let decoder = Decoder::new();
    // The index of the unpaired trailing digit is reported.
    assert_eq!(decoder.decode_std("30313"), Err(4));
    assert_eq!(decoder.decode_std("3"), Err(0));
    // A bad character is found first, before the length is at fault.
    assert_eq!(decoder.decode_std("3031x"), Err(16));
}
