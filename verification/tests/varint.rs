use mcscan::varint::{encode_varint, read_varint, scan_varint, VarintEnd, VarintRead, VarintScan};

#[test]
fn varint_samples_encode() {
    assert_eq!(encode_varint(0), vec![0x00]);
    assert_eq!(encode_varint(1), vec![0x01]);
    assert_eq!(encode_varint(127), vec![0x7f]);
    assert_eq!(encode_varint(128), vec![0x80, 0x01]);
    assert_eq!(encode_varint(255), vec![0xff, 0x01]);
    assert_eq!(encode_varint(800), vec![0xa0, 0x06]);
    assert_eq!(encode_varint(25565), vec![0xdd, 0xc7, 0x01]);
    assert_eq!(encode_varint(2097151), vec![0xff, 0xff, 0x7f]);
    assert_eq!(encode_varint(i32::MAX), vec![0xff, 0xff, 0xff, 0xff, 0x07]);
}

#[test]
fn negative_varint_samples_encode() {
    assert_eq!(encode_varint(-1), vec![0xff, 0xff, 0xff, 0xff, 0x0f]);
    assert_eq!(encode_varint(-2), vec![0xfe, 0xff, 0xff, 0xff, 0x0f]);
    assert_eq!(encode_varint(-128), vec![0x80, 0xff, 0xff, 0xff, 0x0f]);
    assert_eq!(encode_varint(i32::MIN), vec![0x80, 0x80, 0x80, 0x80, 0x08]);
}

#[test]
fn no_two_numbers_share_an_encoding() {
    let values = [0, 1, -1, 127, 128, -128, i32::MAX, i32::MIN, i32::MIN + 1];
    for a in values {
        for b in values {
            assert_eq!(encode_varint(b).starts_with(&encode_varint(a)), a == b);
        }
    }
}

#[test]
fn varint_of_more_bytes_than_needed_is_read() {
    assert_eq!(read_varint(&[0x83, 0x80, 0x00]), VarintRead::Done(3));
    assert_eq!(read_varint(&[0x80, 0x00, 0x07]), VarintRead::Done(0));
}

#[test]
fn a_read_varint_does_not_change_with_more_bytes() {
    for front in [vec![0x05], vec![0xac, 0x02], vec![0x80; 5]] {
        let read = read_varint(&front);
        assert_ne!(read, VarintRead::More);
        let mut longer = front.clone();
        longer.extend([0x80, 0x01]);
        assert_eq!(read_varint(&longer), read);
    }
}

#[test]
fn varint_round_trip_with_data_behind() {
    let values = [
        0, 1, 127, 128, 16383, 16384, 2097151, 2097152, 268435455, 268435456, i32::MAX, -1, -300,
        i32::MIN,
    ];
    for value in values {
        let mut data = encode_varint(value);
        let len = data.len();
        data.push(0xff);
        assert_eq!(
            scan_varint(&data, 0),
            VarintScan { value, end: len, stop: VarintEnd::Terminated }
        );
        assert_eq!(read_varint(&data), VarintRead::Done(value));
    }
}

#[test]
fn varint_is_read_at_a_position() {
    let data = [0x05, 0xac, 0x02, 0x07];
    assert_eq!(
        scan_varint(&data, 1),
        VarintScan { value: 300, end: 3, stop: VarintEnd::Terminated }
    );
    assert_eq!(
        scan_varint(&data, 4),
        VarintScan { value: 0, end: 4, stop: VarintEnd::Truncated }
    );
}

#[test]
fn varint_asks_for_more_until_it_ends() {
    assert_eq!(read_varint(&[]), VarintRead::More);
    assert_eq!(read_varint(&[0x80]), VarintRead::More);
    assert_eq!(read_varint(&[0x80, 0x80, 0x80, 0x80]), VarintRead::More);
    assert_eq!(read_varint(&[0x80, 0x80, 0x80, 0x80, 0x01]), VarintRead::Done(1 << 28));
}

#[test]
fn varint_too_long_is_told() {
    assert_eq!(read_varint(&[0xff; 5]), VarintRead::TooLong);
    assert_eq!(read_varint(&[0x80, 0x80, 0x80, 0x80, 0x80, 0x00]), VarintRead::TooLong);
}

#[test]
fn varint_truncated_keeps_the_bits_read() {
    assert_eq!(
        scan_varint(&[0xac, 0x82], 0),
        VarintScan { value: 300, end: 2, stop: VarintEnd::Truncated }
    );
}

#[test]
fn varint_overlong_keeps_the_bits_read() {
    assert_eq!(
        scan_varint(&[0x81, 0x80, 0x80, 0x80, 0x80, 0x01], 0),
        VarintScan { value: 1, end: 5, stop: VarintEnd::Overlong }
    );
}

#[test]
fn varint_fifth_byte_reaches_the_sign() {
    assert_eq!(read_varint(&[0xff, 0xff, 0xff, 0xff, 0x0f]), VarintRead::Done(-1));
    assert_eq!(read_varint(&[0x80, 0x80, 0x80, 0x80, 0x08]), VarintRead::Done(i32::MIN));
    // Bits above the thirty-second are dropped.
    assert_eq!(read_varint(&[0x80, 0x80, 0x80, 0x80, 0x70]), VarintRead::Done(0));
}

#[test]
fn varint_shape_holds() {
    for value in [0, 127, 128, 99999, i32::MAX, -1, i32::MIN] {
        let bytes = encode_varint(value);
        assert!(!bytes.is_empty() && bytes.len() <= 5);
        assert!(value >= 0 || bytes.len() == 5);
        for (i, b) in bytes.iter().enumerate() {
            assert_eq!(b & 0x80 == 0, i + 1 == bytes.len());
        }
    }
}
