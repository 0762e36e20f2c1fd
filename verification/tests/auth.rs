use mcscan::auth::{auth_requests, settle_auth_mode, AuthRequests, AuthSession};
use mcscan::error::ScanError;
use mcscan::packet::{create_handshake_packet, create_login_start};

fn follow(stream: &[u8]) -> Result<Option<i32>, ScanError> {
    let mut session = AuthSession::new();
    let mut pos = 0;
    while stream.len() - pos >= session.wants() {
        let n = session.wants();
        let outcome = session.receive(stream[pos..pos + n].to_vec());
        pos += n;
        if outcome != Ok(None) {
            return outcome;
        }
    }
    Ok(None)
}

#[test]
fn requests_of_a_login() {
    assert_eq!(
        auth_requests("10.0.0.1", 25565, 765),
        Ok(AuthRequests {
            handshake: create_handshake_packet("10.0.0.1", 25565, 2, 765),
            login: create_login_start("Herobrine", "00000000-0000-0000-0000-000000000000", 765),
        })
    );
}

#[test]
fn login_of_the_probe() {
    let requests = auth_requests("h", 1, 764).unwrap();
    let mut expected = vec![27, 0x00, 9];
    expected.extend(b"Herobrine");
    expected.extend([0; 16]);
    assert_eq!(requests.login, expected);
}

#[test]
fn old_protocols_are_not_asked() {
    assert_eq!(auth_requests("h", 1, 46), Err(ScanError::ProtocolTooOld(46)));
    assert_eq!(auth_requests("h", 1, -3), Err(ScanError::ProtocolTooOld(-3)));
    assert!(auth_requests("h", 1, 47).is_ok());
}

#[test]
fn session_waits_for_a_length_first() {
    let mut session = AuthSession::new();
    assert_eq!(session.wants(), 1);
    assert_eq!(session.receive(vec![0x85]), Ok(None));
    assert_eq!(session.wants(), 1);
    assert_eq!(session.receive(vec![0x01]), Ok(None));
    assert_eq!(session.wants(), 133);
}

#[test]
fn session_reads_encryption_request_as_premium() {
    assert_eq!(follow(&[3, 0x01, 0, 0]), Ok(Some(1)));
    // A length in more bytes than it needs.
    assert_eq!(follow(&[0x83, 0x80, 0x00, 0x01, 0, 0]), Ok(Some(1)));
}

#[test]
fn session_reads_success_as_cracked() {
    assert_eq!(follow(&[1, 0x02, 0xff, 0xff]), Ok(Some(0)));
}

#[test]
fn session_reads_refusal_as_whitelisted() {
    assert_eq!(follow(b"\x05\x00\x03bye"), Ok(Some(2)));
}

#[test]
fn session_passes_over_other_and_empty_packets() {
    assert_eq!(follow(&[0, 2, 0x09, 0x09, 0, 1, 0x02]), Ok(Some(0)));
    // A negative length counts as none.
    assert_eq!(follow(&[0xff, 0xff, 0xff, 0xff, 0x0f, 1, 0x02]), Ok(Some(0)));
}

#[test]
fn session_turns_compression_on() {
    // Threshold 64, then an uncompressed success behind a zero.
    assert_eq!(follow(&[2, 0x03, 64, 2, 0x00, 0x02]), Ok(Some(0)));
}

#[test]
fn session_turns_compression_off_again() {
    // Threshold 64, then threshold -1 behind a zero, then a plain success.
    let stream = [2, 0x03, 64, 7, 0x00, 0x03, 0xff, 0xff, 0xff, 0xff, 0x0f, 1, 0x02];
    assert_eq!(follow(&stream), Ok(Some(0)));
}

#[test]
fn session_errors() {
    assert_eq!(follow(&[0x80, 0x80, 0x80, 0x80, 0x80]), Err(ScanError::VarintTooLong));
    assert_eq!(follow(&[1, 0x80]), Err(ScanError::BadPacket));
    assert_eq!(follow(&[2, 0x03, 64, 1, 0x80]), Err(ScanError::BadCompressedPacket));
    assert_eq!(
        follow(&[2, 0x03, 64, 3, 0x09, 1, 2]),
        Err(ScanError::Inflate("corrupt deflate stream".to_string()))
    );
}

#[test]
fn session_that_ends_early_knows_nothing() {
    assert_eq!(follow(&[]), Ok(None));
    assert_eq!(follow(&[5, 0x00]), Ok(None));
}

#[test]
fn auth_mode_is_unknown_when_time_runs_out() {
    assert_eq!(settle_auth_mode::<ScanError>(None), Ok(-1));
    assert_eq!(settle_auth_mode::<ScanError>(Some(Ok(1))), Ok(1));
    assert_eq!(settle_auth_mode(Some(Err(ScanError::BadPacket))), Err(ScanError::BadPacket));
}
