use base16_rs::base16::Encoder;
use base16_rs::base16::Type::StdEncoding;

#[test]
fn empty() {
    let buf: Vec<u8> = Vec::from("");
    let encoder = Encoder::new(StdEncoding);
    let result = encoder.encode_upper_to_string(&buf);
    assert_eq!(result, "");
}

#[test]
fn number() {
    let buf: Vec<u8> = Vec::from("0123456789");
    let encoder = Encoder::new(StdEncoding);
    let result = encoder.encode_upper_to_string(&buf);
    assert_eq!(result, "30313233343536373839");
}

#[test]
fn alpha() {
    let buf: Vec<u8> = Vec::from("abcdefghijklnmopqrstuvwxyz");
    let encoder = Encoder::new(StdEncoding);
    let result = encoder.encode_upper_to_string(&buf);
    assert_eq!(
        result,
        "6162636465666768696A6B6C6E6D6F707172737475767778797A"
    );
}

#[test]
fn enter() {
    let buf: Vec<u8> = Vec::from("abcdefghijklnmo\npqrstuvwxyz");
    let encoder = Encoder::new(StdEncoding);
    let result = encoder.encode_upper_to_string(&buf);
    assert_eq!(
        result,
        "6162636465666768696A6B6C6E6D6F0A707172737475767778797A"
    );
}
