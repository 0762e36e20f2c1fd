use mcscan::packet::{
    create_handshake_packet, create_login_start, create_status_request, encode_string,
    MAX_PROTOCOL_VERSION, MIN_PROTOCOL_VERSION,
};

const UUID: &str = "00112233-4455-6677-8899-aabbccddeeff";

fn uuid_value() -> Vec<u8> {
    (0..16u8).map(|i| i * 0x11).collect()
}

#[test]
fn protocol_bounds() {
    assert_eq!(MAX_PROTOCOL_VERSION, 800);
    assert_eq!(MIN_PROTOCOL_VERSION, 47);
}

#[test]
fn string_counts_bytes() {
    assert_eq!(encode_string(""), vec![0]);
    assert_eq!(encode_string("abc"), vec![3, b'a', b'b', b'c']);
    assert_eq!(encode_string("\u{a7}"), vec![2, 0xc2, 0xa7]);
}

#[test]
fn long_string_has_a_long_count() {
    let text = "x".repeat(300);
    let bytes = encode_string(&text);
    assert_eq!(&bytes[..2], &[0xac, 0x02]);
    assert_eq!(&bytes[2..], text.as_bytes());
}

#[test]
fn handshake_for_status() {
    let packet = create_handshake_packet("1.2.3.4", 25565, 1, 800);
    assert_eq!(
        packet,
        vec![
            14, 0x00, 0xa0, 0x06, 7, b'1', b'.', b'2', b'.', b'3', b'.', b'4', 0x63, 0xdd, 0x01
        ]
    );
}

#[test]
fn handshake_port_is_big_endian() {
    let packet = create_handshake_packet("h", 0x0102, 2, 47);
    assert_eq!(packet, vec![7, 0x00, 47, 1, b'h', 0x01, 0x02, 2]);
}

#[test]
fn handshake_with_negative_numbers() {
    let packet = create_handshake_packet("h", 1, i32::MIN, -1);
    assert_eq!(
        packet,
        vec![
            15, 0x00, 0xff, 0xff, 0xff, 0xff, 0x0f, 1, b'h', 0x00, 0x01, 0x80, 0x80, 0x80, 0x80, 0x08
        ]
    );
}

#[test]
fn status_request_is_fixed() {
    assert_eq!(create_status_request(), vec![0x01, 0x00]);
}

#[test]
fn login_of_old_versions_is_the_name() {
    let expected = vec![6, 0x00, 4, b'A', b'l', b'e', b'x'];
    assert_eq!(create_login_start("Alex", UUID, 47), expected);
    assert_eq!(create_login_start("Alex", UUID, 758), expected);
    assert_eq!(create_login_start("Alex", "no identifier", 340), expected);
    assert_eq!(create_login_start("Alex", UUID, 5), expected);
}

#[test]
fn login_759_has_no_signature() {
    assert_eq!(
        create_login_start("Alex", UUID, 759),
        vec![7, 0x00, 4, b'A', b'l', b'e', b'x', 0x00]
    );
}

#[test]
fn login_760_has_no_signature_and_an_identifier() {
    let mut expected = vec![24, 0x00, 4, b'A', b'l', b'e', b'x', 0x00, 0x01];
    expected.extend(uuid_value());
    assert_eq!(create_login_start("Alex", UUID, 760), expected);
}

#[test]
fn login_761_to_763_has_an_identifier() {
    let mut expected = vec![23, 0x00, 4, b'A', b'l', b'e', b'x', 0x01];
    expected.extend(uuid_value());
    assert_eq!(create_login_start("Alex", UUID, 761), expected);
    assert_eq!(create_login_start("Alex", UUID, 762), expected);
    assert_eq!(create_login_start("Alex", UUID, 763), expected);
}

#[test]
fn login_764_and_later_always_has_an_identifier() {
    let mut expected = vec![22, 0x00, 4, b'A', b'l', b'e', b'x'];
    expected.extend(uuid_value());
    assert_eq!(create_login_start("Alex", UUID, 764), expected);
    assert_eq!(create_login_start("Alex", UUID, 10000), expected);
}
