use mcscan::uuid::parse_uuid;

#[test]
fn uuid_with_dashes() {
    assert_eq!(
        parse_uuid("069a79f4-44e9-4726-a5be-fca90e38aaf5"),
        vec![
            0x06, 0x9a, 0x79, 0xf4, 0x44, 0xe9, 0x47, 0x26, 0xa5, 0xbe, 0xfc, 0xa9, 0x0e, 0x38,
            0xaa, 0xf5
        ]
    );
}

#[test]
fn uuid_dashes_do_not_count() {
    let bytes = parse_uuid("069a79f444e94726a5befca90e38aaf5");
    assert_eq!(parse_uuid("069a79f4-44e9-4726-a5be-fca90e38aaf5"), bytes);
    assert_eq!(parse_uuid("-0-69a79f444e94726a5befca90e38aaf5--"), bytes);
}

#[test]
fn uuid_of_either_case() {
    assert_eq!(parse_uuid("aBCd"), vec![0xab, 0xcd]);
}

#[test]
fn uuid_of_any_even_length() {
    assert_eq!(parse_uuid(""), Vec::<u8>::new());
    assert_eq!(parse_uuid("7f"), vec![0x7f]);
}

#[test]
fn uuid_pairs_that_are_no_numbers_are_zero() {
    assert_eq!(parse_uuid("zz12"), vec![0x00, 0x12]);
    assert_eq!(parse_uuid("1g"), vec![0]);
    assert_eq!(parse_uuid("\u{e9}"), vec![0]);
    assert_eq!(parse_uuid("+f++"), vec![0x0f, 0x00]);
}

#[test]
fn uuid_pairs_read_as_std_reads_them() {
    for a in 0x20u8..0x7f {
        for b in 0x20u8..0x7f {
            if a == b'-' || b == b'-' {
                continue;
            }
            let pair = format!("{}{}", a as char, b as char);
            let expected = u8::from_str_radix(&pair, 16).unwrap_or(0);
            assert_eq!(parse_uuid(&pair), vec![expected]);
        }
    }
}

#[test]
fn uuid_round_trip() {
    let bytes: Vec<u8> = (0..=255u8).collect();
    let text: String = bytes.iter().map(|b| format!("{:02x}", b)).collect();
    assert_eq!(parse_uuid(&text), bytes);
}
