use std::io::{Read, Write};

use flate2::read::ZlibDecoder;
use flate2::write::ZlibEncoder;
use flate2::Compression;
use mcscan::error::ScanError;
use mcscan::login::{
    interpret_content, interpret_inflated, interpret_packet, mentions_whitelist, open_packet,
    read_kick_reason, Envelope, PacketEffect, AUTH_CRACKED, AUTH_PREMIUM, AUTH_UNKNOWN,
    AUTH_WHITELISTED,
};

fn deflate(data: &[u8]) -> Vec<u8> {
    let mut encoder = ZlibEncoder::new(Vec::new(), Compression::default());
    encoder.write_all(data).unwrap();
    encoder.finish().unwrap()
}

#[test]
fn auth_mode_numbers() {
    assert_eq!(AUTH_UNKNOWN, -1);
    assert_eq!(AUTH_CRACKED, 0);
    assert_eq!(AUTH_PREMIUM, 1);
    assert_eq!(AUTH_WHITELISTED, 2);
}

#[test]
fn packet_numbers_decide() {
    assert_eq!(interpret_content(&[0x00]), Ok(PacketEffect::Finished(2)));
    assert_eq!(interpret_content(&[0x01, 9, 9]), Ok(PacketEffect::Finished(1)));
    assert_eq!(interpret_content(&[0x02, 9, 9]), Ok(PacketEffect::Finished(0)));
    assert_eq!(interpret_content(&[0x03, 0x80, 0x02]), Ok(PacketEffect::Compression(256)));
    assert_eq!(interpret_content(&[0x04]), Ok(PacketEffect::Ignored));
    assert_eq!(interpret_content(&[0xff, 0xff, 0xff, 0xff, 0x0f]), Ok(PacketEffect::Ignored));
    assert_eq!(interpret_content(&[0x80, 0x80, 0x80, 0x80, 0x08]), Ok(PacketEffect::Ignored));
    // A number in more bytes than it needs.
    assert_eq!(interpret_content(&[0x82, 0x00]), Ok(PacketEffect::Finished(0)));
}

#[test]
fn empty_content_is_ignored() {
    assert_eq!(interpret_content(&[]), Ok(PacketEffect::Ignored));
}

#[test]
fn truncated_packet_number_is_an_error() {
    assert_eq!(interpret_content(&[0x80]), Err(ScanError::BadPacket));
    assert_eq!(interpret_content(&[0x80, 0x80, 0x80, 0x80]), Err(ScanError::BadPacket));
}

#[test]
fn overlong_packet_number_is_taken_as_it_is() {
    assert_eq!(
        interpret_content(&[0x81, 0x80, 0x80, 0x80, 0x80]),
        Ok(PacketEffect::Finished(AUTH_PREMIUM))
    );
}

#[test]
fn threshold_that_is_cut_off() {
    assert_eq!(interpret_content(&[0x03]), Ok(PacketEffect::Compression(0)));
    assert_eq!(interpret_content(&[0x03, 0x85]), Ok(PacketEffect::Compression(5)));
    assert_eq!(
        interpret_content(&[0x03, 0xff, 0xff, 0xff, 0xff, 0x0f]),
        Ok(PacketEffect::Compression(-1))
    );
}

#[test]
fn refusals_count_as_whitelisted_whatever_the_reason() {
    assert_eq!(
        interpret_content(b"\x00\x0cWhitelisted!"),
        Ok(PacketEffect::Finished(AUTH_WHITELISTED))
    );
    assert_eq!(
        interpret_content(b"\x00\x06banned"),
        Ok(PacketEffect::Finished(AUTH_WHITELISTED))
    );
    assert_eq!(
        interpret_content(&[0x00, 0x02, 0xff, 0xff]),
        Ok(PacketEffect::Finished(AUTH_WHITELISTED))
    );
}

#[test]
fn kick_reason_is_read() {
    assert_eq!(read_kick_reason(b"\x00\x03abcdef", 1), Some("abc".to_string()));
    assert_eq!(read_kick_reason("\u{0}\u{2}\u{e9}".as_bytes(), 1), Some("\u{e9}".to_string()));
}

#[test]
fn kick_reason_that_is_not_there() {
    assert_eq!(read_kick_reason(b"\x00", 1), None);
    assert_eq!(read_kick_reason(b"\x00\x00", 1), None);
    assert_eq!(read_kick_reason(b"\x00\x04abc", 1), None);
    assert_eq!(read_kick_reason(&[0x00, 0x02, 0xc3, 0x28], 1), None);
    assert_eq!(read_kick_reason(&[0x00, 0xff, 0xff, 0xff, 0xff, 0x0f, 1], 1), None);
}

#[test]
fn whitelist_is_found_in_either_case() {
    assert!(mentions_whitelist("You are not WhiteListed on this server"));
    assert!(mentions_whitelist("WHITELIST"));
    assert!(!mentions_whitelist("white list"));
    assert!(!mentions_whitelist(""));
}

#[test]
fn packets_without_compression_are_plain() {
    assert_eq!(open_packet(-1, vec![1, 2, 3]), Ok(Envelope::Plain(vec![1, 2, 3])));
    assert_eq!(open_packet(-7, vec![]), Ok(Envelope::Plain(vec![])));
}

#[test]
fn packets_with_compression_have_a_length() {
    assert_eq!(open_packet(256, vec![0, 2, 3]), Ok(Envelope::Plain(vec![2, 3])));
    assert_eq!(open_packet(0, vec![0x80, 0x01, 7]), Ok(Envelope::Deflated(vec![7])));
    assert_eq!(open_packet(0, vec![]), Err(ScanError::BadCompressedPacket));
    assert_eq!(open_packet(0, vec![0x80]), Err(ScanError::BadCompressedPacket));
    // Five bytes are the most that a length takes, even of nothing.
    assert_eq!(
        open_packet(0, vec![0x80, 0x80, 0x80, 0x80, 0x80, 9]),
        Ok(Envelope::Plain(vec![9]))
    );
}

#[test]
fn compressed_packet_means_its_content() {
    for (content, effect) in [
        (vec![0x01, 0x10, 0x20], PacketEffect::Finished(AUTH_PREMIUM)),
        (vec![0x02], PacketEffect::Finished(AUTH_CRACKED)),
        (vec![0x03, 0x40], PacketEffect::Compression(64)),
        (vec![0x2a; 1000], PacketEffect::Ignored),
        (vec![], PacketEffect::Ignored),
    ] {
        let mut packet = vec![0x05];
        packet.extend(deflate(&content));
        assert_eq!(interpret_packet(256, packet), Ok(effect));
        assert_eq!(interpret_packet(-1, content.clone()), Ok(effect));
        assert_eq!(interpret_inflated(Ok(content)), Ok(effect));
    }
}

#[test]
fn bytes_behind_a_stream_do_not_count() {
    let mut packet = vec![0x01];
    packet.extend(deflate(&[0x02]));
    packet.extend([1, 2, 3]);
    assert_eq!(interpret_packet(0, packet), Ok(PacketEffect::Finished(AUTH_CRACKED)));
}

#[test]
fn uncompressed_packet_under_compression() {
    assert_eq!(
        interpret_packet(256, vec![0x00, 0x01]),
        Ok(PacketEffect::Finished(AUTH_PREMIUM))
    );
    assert_eq!(
        interpret_packet(256, vec![0x80, 0x00, 0x01]),
        Ok(PacketEffect::Finished(AUTH_PREMIUM))
    );
}

#[test]
fn stream_that_cannot_be_inflated_is_an_error() {
    assert_eq!(
        interpret_packet(0, vec![0x05, 1, 2, 3]),
        Err(ScanError::Inflate("corrupt deflate stream".to_string()))
    );
    let whole = deflate(&[0x2a; 100]);
    let mut packet = vec![0x64];
    packet.extend(&whole[..whole.len() - 6]);
    assert_eq!(
        interpret_packet(0, packet),
        Err(ScanError::Inflate("incomplete deflate stream".to_string()))
    );
    assert_eq!(
        interpret_inflated(Err("a reason".to_string())),
        Err(ScanError::Inflate("a reason".to_string()))
    );
}

#[test]
fn inflate_error_reads_as_the_decoder_tells_it() {
    for stream in [vec![1, 2, 3], vec![], vec![0x78], deflate(b"abc")[..7].to_vec()] {
        let told = ZlibDecoder::new(&stream[..]).read_to_end(&mut Vec::new()).unwrap_err();
        let mut packet = vec![0x03];
        packet.extend(stream);
        assert_eq!(interpret_packet(0, packet).unwrap_err().message(), told.to_string());
    }
}

#[test]
fn truncated_compressed_packet_is_an_error() {
    assert_eq!(interpret_packet(0, vec![0xff]), Err(ScanError::BadCompressedPacket));
}
