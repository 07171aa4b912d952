use warduino::levels::{InterruptMode, PinMode, PinVoltage, CHANGE, FALLING, HIGH, INPUT, LOW, OUTPUT, RISING};
use warduino::marshal::{
    decode_written, size_of_post_options, written_length, BoundaryError, Headers, PostOptions,
    LOCAL_ADDRESS_CAPACITY,
};

#[test]
fn codes_match_host_constants() {
    assert_eq!(PinMode::Input.code(), INPUT);
    assert_eq!(PinMode::Output.code(), OUTPUT);
    assert_eq!(PinMode::Output.code(), 2);
    assert_eq!(PinVoltage::Low.code(), LOW);
    assert_eq!(PinVoltage::High.code(), HIGH);
    assert_eq!(InterruptMode::Change.code(), CHANGE);
    assert_eq!(InterruptMode::Falling.code(), FALLING);
    assert_eq!(InterruptMode::Rising.code(), RISING);
    assert_eq!(InterruptMode::Rising.code(), 3);
}

#[test]
fn voltage_from_code_accepts_only_low_and_high() {
    assert_eq!(PinVoltage::from_code(0), Ok(PinVoltage::Low));
    assert_eq!(PinVoltage::from_code(1), Ok(PinVoltage::High));
    assert_eq!(PinVoltage::from_code(2), Err(BoundaryError::InvalidVoltage(2)));
    assert_eq!(PinVoltage::from_code(u32::MAX), Err(BoundaryError::InvalidVoltage(u32::MAX)));
}

#[test]
fn interrupt_modes_fire_on_their_edges() {
    let (high, low) = (PinVoltage::High, PinVoltage::Low);
    assert!(InterruptMode::Rising.fires(low, high));
    assert!(!InterruptMode::Rising.fires(high, low));
    assert!(!InterruptMode::Rising.fires(high, high));
    assert!(InterruptMode::Falling.fires(high, low));
    assert!(!InterruptMode::Falling.fires(low, high));
    assert!(InterruptMode::Change.fires(low, high));
    assert!(InterruptMode::Change.fires(high, low));
    assert!(!InterruptMode::Change.fires(low, low));
}

#[test]
fn written_length_checks_the_host_claim() {
    assert_eq!(written_length(0, 10), Ok(0));
    assert_eq!(written_length(7, 10), Ok(7));
    assert_eq!(written_length(10, 10), Ok(10));
    assert_eq!(written_length(11, 10), Err(BoundaryError::Overrun(11)));
    assert_eq!(written_length(-1, 10), Err(BoundaryError::Host(-1)));
    assert_eq!(written_length(i32::MIN, 0), Err(BoundaryError::Host(i32::MIN)));
}

#[test]
fn local_address_decodes_only_written_bytes() {
    let mut buffer = [0xffu8; LOCAL_ADDRESS_CAPACITY];
    let text = b"192.168.4.1";
    buffer[..text.len()].copy_from_slice(text);
    let decoded = decode_written(&buffer, text.len() as i32).unwrap();
    assert_eq!(decoded, "192.168.4.1");
    assert_eq!(decoded.len(), 11);
}

#[test]
fn decoded_text_ignores_the_unwritten_tail() {
    let mut zeros = [0u8; 16];
    let mut junk = [b'x'; 16];
    zeros[..4].copy_from_slice(b"ab\xc3\xa9");
    junk[..4].copy_from_slice(b"ab\xc3\xa9");
    let a = decode_written(&zeros, 4);
    let b = decode_written(&junk, 4);
    assert_eq!(a, b);
    assert_eq!(a.unwrap(), "ab\u{e9}");
}

#[test]
fn decode_refuses_invalid_utf8() {
    let buffer = [b'o', b'k', 0xc3, 0x28, 0];
    assert_eq!(decode_written(&buffer, 4), Err(BoundaryError::Decode));
    assert_eq!(decode_written(&buffer, 2), Ok("ok".to_string()));
}

#[test]
fn decode_refuses_host_errors_and_overruns() {
    let buffer = [b'a'; 8];
    assert_eq!(decode_written(&buffer, -3), Err(BoundaryError::Host(-3)));
    assert_eq!(decode_written(&buffer, 9), Err(BoundaryError::Overrun(9)));
    assert_eq!(decode_written(&buffer, 0), Ok(String::new()));
    assert_eq!(decode_written(&[], 0), Ok(String::new()));
}

#[test]
fn post_options_size_sums_uri_body_and_content_type() {
    let options = PostOptions {
        uri: "http://example.org/api",
        body: "{\"on\":true}".to_string(),
        headers: Headers { content_type: "application/json", authorization: "SECRET-REDACTED" },
    };
    assert_eq!(size_of_post_options(&options), 22 + 11 + 16);
    let empty = PostOptions {
        uri: "",
        body: String::new(),
        headers: Headers { content_type: "", authorization: "x" },
    };
    assert_eq!(size_of_post_options(&empty), 0);
}
