use mcscan::motd::Json;
use mcscan::scan::{
    decide_auth_check, record_auth_mode, scan_server, summarize, timed_out, AuthCheck, Player,
    ScanResult, ScanStep, Summary,
};
use mcscan::status::{PlayerSample, PlayersInfo, ServerResponse, VersionInfo};

fn blank(ip: &str, port: u16) -> ScanResult {
    ScanResult {
        ip: ip.to_string(),
        port,
        motd: None,
        version: None,
        protocol: None,
        max_players: None,
        online_players: None,
        players: None,
        favicon: None,
        auth_mode: None,
        error: None,
    }
}

fn response(protocol: i32) -> ServerResponse {
    ServerResponse {
        version: Some(VersionInfo { name: "1.20.4".to_string(), protocol }),
        players: Some(PlayersInfo {
            max: 20,
            online: 2,
            sample: Some(vec![
                PlayerSample { name: "Alex".to_string(), id: "id-a".to_string() },
                PlayerSample { name: "Steve".to_string(), id: "id-s".to_string() },
            ]),
        }),
        description: Some(Json::Text("\u{a7}aHello".to_string())),
        favicon: Some("data:image/png;base64,AAAA".to_string()),
    }
}

fn filled(protocol: i32) -> ScanResult {
    ScanResult {
        motd: Some("Hello".to_string()),
        version: Some("1.20.4".to_string()),
        protocol: Some(protocol),
        max_players: Some(20),
        online_players: Some(2),
        players: Some(vec![
            Player { name: "Alex".to_string(), uuid: "id-a".to_string() },
            Player { name: "Steve".to_string(), uuid: "id-s".to_string() },
        ]),
        favicon: Some("data:image/png;base64,AAAA".to_string()),
        ..blank("1.2.3.4", 25565)
    }
}

#[test]
fn status_is_recorded() {
    assert_eq!(
        scan_server("1.2.3.4".to_string(), 25565, false, Ok(response(765))),
        ScanStep::Finished(filled(765))
    );
}

#[test]
fn status_that_tells_nothing() {
    let nothing = ServerResponse { version: None, players: None, description: None, favicon: None };
    assert_eq!(
        scan_server("h".to_string(), 1, true, Ok(nothing)),
        ScanStep::Finished(blank("h", 1))
    );
}

#[test]
fn players_without_a_sample() {
    let some = ServerResponse {
        version: None,
        players: Some(PlayersInfo { max: 5, online: 0, sample: None }),
        description: None,
        favicon: None,
    };
    assert_eq!(
        scan_server("h".to_string(), 1, false, Ok(some)),
        ScanStep::Finished(ScanResult {
            max_players: Some(5),
            online_players: Some(0),
            ..blank("h", 1)
        })
    );
}

#[test]
fn failure_is_recorded() {
    assert_eq!(
        scan_server("h".to_string(), 1, true, Err("refused".to_string())),
        ScanStep::Finished(ScanResult { error: Some("refused".to_string()), ..blank("h", 1) })
    );
}

#[test]
fn auth_is_asked_if_wanted() {
    assert_eq!(
        scan_server("1.2.3.4".to_string(), 25565, true, Ok(response(47))),
        ScanStep::AskAuth(filled(47), 47)
    );
}

#[test]
fn auth_of_old_versions_is_unknown() {
    assert_eq!(
        scan_server("1.2.3.4".to_string(), 25565, true, Ok(response(46))),
        ScanStep::Finished(ScanResult { auth_mode: Some(-1), ..filled(46) })
    );
}

#[test]
fn auth_decisions() {
    assert_eq!(decide_auth_check(true, Some(47)), AuthCheck::Ask(47));
    assert_eq!(decide_auth_check(true, Some(46)), AuthCheck::Unknown);
    assert_eq!(decide_auth_check(true, Some(-1)), AuthCheck::Unknown);
    assert_eq!(decide_auth_check(true, None), AuthCheck::Skip);
    assert_eq!(decide_auth_check(false, Some(765)), AuthCheck::Skip);
    assert_eq!(decide_auth_check(false, None), AuthCheck::Skip);
}

#[test]
fn auth_mode_is_recorded() {
    assert_eq!(
        record_auth_mode(filled(765), Some(1)),
        ScanResult { auth_mode: Some(1), ..filled(765) }
    );
    assert_eq!(
        record_auth_mode(filled(765), None),
        ScanResult { auth_mode: Some(-1), ..filled(765) }
    );
}

#[test]
fn timeout_is_recorded() {
    assert_eq!(
        timed_out("h".to_string(), 7),
        ScanResult { error: Some("Timeout".to_string()), ..blank("h", 7) }
    );
}

#[test]
fn totals_of_a_scan() {
    let mode = |m: i32| ScanResult { auth_mode: Some(m), ..blank("h", 1) };
    let results = vec![
        mode(1),
        mode(1),
        mode(0),
        mode(2),
        mode(-1),
        blank("h", 2),
        timed_out("h".to_string(), 3),
    ];
    assert_eq!(
        summarize(&results),
        Summary { total: 7, ok: 6, failed: 1, online: 2, cracked: 1, whitelisted: 1 }
    );
}

#[test]
fn totals_of_nothing() {
    assert_eq!(
        summarize(&vec![]),
        Summary { total: 0, ok: 0, failed: 0, online: 0, cracked: 0, whitelisted: 0 }
    );
}

#[test]
fn totals_add_up() {
    let a = || vec![blank("a", 1), timed_out("b".to_string(), 2)];
    let b = || vec![record_auth_mode(blank("c", 3), Some(0))];
    let mut both = a();
    both.extend(b());
    let (x, y, z) = (summarize(&a()), summarize(&b()), summarize(&both));
    assert_eq!(z.ok, x.ok + y.ok);
    assert_eq!(z.cracked, x.cracked + y.cracked);
    assert_eq!(z.ok + z.failed, z.total);
}
