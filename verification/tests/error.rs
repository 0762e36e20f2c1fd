use mcscan::error::ScanError;

#[test]
fn messages_of_errors() {
    assert_eq!(ScanError::VarintTooLong.message(), "VarInt is way too long");
    assert_eq!(ScanError::ProtocolTooOld(5).message(), "Protocol 5 is too old, can't check");
    assert_eq!(ScanError::ProtocolTooOld(-1).message(), "Protocol -1 is too old, can't check");
    assert_eq!(ScanError::BadCompressedPacket.message(), "bad compressed packet");
    assert_eq!(ScanError::BadPacket.message(), "bad packet");
    assert_eq!(
        ScanError::Inflate("corrupt deflate stream".to_string()).message(),
        "corrupt deflate stream"
    );
}

#[test]
fn message_of_the_lowest_protocol() {
    assert_eq!(
        ScanError::ProtocolTooOld(i32::MIN).message(),
        format!("Protocol {} is too old, can't check", i32::MIN)
    );
}
