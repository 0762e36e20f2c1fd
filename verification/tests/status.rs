use mcscan::error::ScanError;
use mcscan::packet::create_handshake_packet;
use mcscan::status::{read_status, status_requests, StatusRead, StatusRequests};
use mcscan::varint::encode_varint;

fn reply(text: &[u8]) -> Vec<u8> {
    let mut body = encode_varint(0);
    body.extend(encode_varint(text.len() as i32));
    body.extend(text);
    let mut packet = encode_varint(body.len() as i32);
    packet.extend(body);
    packet
}

#[test]
fn requests_of_a_status() {
    assert_eq!(
        status_requests("1.2.3.4", 25565),
        StatusRequests {
            handshake: create_handshake_packet("1.2.3.4", 25565, 1, 800),
            request: vec![0x01, 0x00],
        }
    );
}

#[test]
fn status_text_is_read_back() {
    let text = b"{\"description\":\"hi\"}".repeat(20);
    let mut data = reply(&text);
    assert_eq!(read_status(&data), Ok(StatusRead::Complete(text.clone())));
    data.extend([1, 2, 3]);
    assert_eq!(read_status(&data), Ok(StatusRead::Complete(text)));
}

#[test]
fn status_is_read_to_its_end_and_no_further() {
    let text = b"0123456789".repeat(30);
    let whole = reply(&text);
    let mut have = 0;
    loop {
        match read_status(&whole[..have]) {
            Ok(StatusRead::Integer) => have += 1,
            Ok(StatusRead::Text(n)) => {
                assert!(n > 0 && have + n <= whole.len());
                have += n;
            }
            Ok(StatusRead::Complete(body)) => {
                assert_eq!(body, text);
                break;
            }
            other => panic!("{:?}", other),
        }
    }
    assert_eq!(have, whole.len());
}

#[test]
fn status_asks_for_the_rest_of_the_text() {
    assert_eq!(read_status(&[]), Ok(StatusRead::Integer));
    assert_eq!(read_status(&[5]), Ok(StatusRead::Integer));
    assert_eq!(read_status(&[5, 0]), Ok(StatusRead::Integer));
    assert_eq!(read_status(&[5, 0, 3]), Ok(StatusRead::Text(3)));
    assert_eq!(read_status(&[5, 0, 3, b'a']), Ok(StatusRead::Text(2)));
    assert_eq!(read_status(&[5, 0, 3, b'a', b'b', b'c']), Ok(StatusRead::Complete(b"abc".to_vec())));
}

#[test]
fn status_without_text_is_complete() {
    assert_eq!(read_status(&[2, 0, 0]), Ok(StatusRead::Complete(vec![])));
}

#[test]
fn status_with_a_negative_length() {
    assert_eq!(
        read_status(&[2, 0, 0xff, 0xff, 0xff, 0xff, 0x0f]),
        Ok(StatusRead::NegativeLength(-1))
    );
}

#[test]
fn status_with_an_integer_that_is_too_long() {
    assert_eq!(read_status(&[0x80; 5]), Err(ScanError::VarintTooLong));
    let mut data = vec![1];
    data.extend([0x80; 5]);
    assert_eq!(read_status(&data), Err(ScanError::VarintTooLong));
    let mut data = vec![1, 0];
    data.extend([0x80; 5]);
    assert_eq!(read_status(&data), Err(ScanError::VarintTooLong));
}

#[test]
fn status_integers_in_front_may_have_any_value() {
    // A negative length, a negative number, and a count in more bytes than needed.
    let mut data = encode_varint(-1);
    data.extend(encode_varint(i32::MIN));
    data.extend([0x83, 0x80, 0x00]);
    data.extend(b"abc");
    assert_eq!(read_status(&data), Ok(StatusRead::Complete(b"abc".to_vec())));
    assert_eq!(read_status(&data[..data.len() - 1]), Ok(StatusRead::Text(1)));
    assert_eq!(read_status(&data[..11]), Ok(StatusRead::Integer));
}
