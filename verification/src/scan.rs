//! The record that a scan of one server fills, the decisions on the way, and the
//! totals over many.

use vstd::prelude::*;

use crate::login::{AUTH_CRACKED, AUTH_PREMIUM, AUTH_UNKNOWN, AUTH_WHITELISTED};
use crate::motd::{motd, parse_motd};
use crate::packet::MIN_PROTOCOL_VERSION;
use crate::status::{PlayerSample, ServerResponse};

verus! {

/// A player who was seen on a server.
#[derive(Clone, Debug, PartialEq, Eq)]
pub struct Player {
    pub name: String,
    pub uuid: String,
}

/// What a scan found out about a server. A field is empty if it could not be
/// found out, and `error` says why nothing could.
#[derive(Debug, PartialEq, Eq)]
pub struct ScanResult {
    pub ip: String,
    pub port: u16,
    pub motd: Option<String>,
    pub version: Option<String>,
    pub protocol: Option<i32>,
    pub max_players: Option<i32>,
    pub online_players: Option<i32>,
    pub players: Option<Vec<Player>>,
    pub favicon: Option<String>,
    pub auth_mode: Option<i32>,
    pub error: Option<String>,
}

/// A player: the name and the identifier.
pub struct PlayerView {
    pub name: Seq<char>,
    pub uuid: Seq<char>,
}

/// What a scan found out about a server.
pub struct ScanResultView {
    pub ip: Seq<char>,
    pub port: u16,
    pub motd: Option<Seq<char>>,
    pub version: Option<Seq<char>>,
    pub protocol: Option<i32>,
    pub max_players: Option<i32>,
    pub online_players: Option<i32>,
    pub players: Option<Seq<PlayerView>>,
    pub favicon: Option<Seq<char>>,
    pub auth_mode: Option<i32>,
    pub error: Option<Seq<char>>,
}

/// The characters of a text that may be missing.
pub open spec fn text_view(text: Option<String>) -> Option<Seq<char>> {
    match text {
        Some(s) => Some(s@),
        None => None,
    }
}

impl View for Player {
    type V = PlayerView;

    open spec fn view(&self) -> PlayerView {
        PlayerView { name: self.name@, uuid: self.uuid@ }
    }
}

impl View for ScanResult {
    type V = ScanResultView;

    open spec fn view(&self) -> ScanResultView {
        ScanResultView {
            ip: self.ip@,
            port: self.port,
            motd: text_view(self.motd),
            version: text_view(self.version),
            protocol: self.protocol,
            max_players: self.max_players,
            online_players: self.online_players,
            players: match self.players {
                Some(list) => Some(list@.map_values(|p: Player| p@)),
                None => None,
            },
            favicon: text_view(self.favicon),
            auth_mode: self.auth_mode,
            error: text_view(self.error),
        }
    }
}

/// A record in which nothing is found out yet.
pub open spec fn blank_result(ip: Seq<char>, port: u16) -> ScanResultView {
    ScanResultView {
        ip,
        port,
        motd: None,
        version: None,
        protocol: None,
        max_players: None,
        online_players: None,
        players: None,
        favicon: None,
        auth_mode: None,
        error: None,
    }
}

/// The record of a server that could not be asked.
pub open spec fn failed_result(ip: Seq<char>, port: u16, error: Seq<char>) -> ScanResultView {
    ScanResultView { error: Some(error), ..blank_result(ip, port) }
}

/// The players of a sample.
pub open spec fn sample_players(sample: Seq<PlayerSample>) -> Seq<PlayerView> {
    sample.map_values(|p: PlayerSample| PlayerView { name: p.name@, uuid: p.id@ })
}

/// The record of a server that told its status.
pub open spec fn status_result(ip: Seq<char>, port: u16, status: ServerResponse) -> ScanResultView {
    ScanResultView {
        motd: match status.description {
            Some(desc) => Some(motd(desc)),
            None => None,
        },
        version: match status.version {
            Some(version) => Some(version.name@),
            None => None,
        },
        protocol: match status.version {
            Some(version) => Some(version.protocol),
            None => None,
        },
        max_players: match status.players {
            Some(players) => Some(players.max),
            None => None,
        },
        online_players: match status.players {
            Some(players) => Some(players.online),
            None => None,
        },
        players: match status.players {
            Some(players) => match players.sample {
                Some(sample) => Some(sample_players(sample@)),
                None => None,
            },
            None => None,
        },
        favicon: text_view(status.favicon),
        ..blank_result(ip, port)
    }
}

/// Whether a server is to be asked how it authenticates players.
#[derive(Clone, Copy, Debug, PartialEq, Eq, Structural)]
pub enum AuthCheck {
    /// Nobody wants to know.
    Skip,
    /// Its version is too old to be asked.
    Unknown,
    /// It is to be asked in this version of the protocol.
    Ask(i32),
}

/// Whether a server is to be asked that speaks this version, if it told one.
pub open spec fn auth_check(wanted: bool, protocol: Option<i32>) -> AuthCheck {
    match protocol {
        Some(version) => if !wanted {
            AuthCheck::Skip
        } else if version >= MIN_PROTOCOL_VERSION {
            AuthCheck::Ask(version)
        } else {
            AuthCheck::Unknown
        },
        None => AuthCheck::Skip,
    }
}

/// Where a scan stands once the status has come or failed to.
#[derive(Debug, PartialEq, Eq)]
pub enum ScanStep {
    /// The record is complete.
    Finished(ScanResult),
    /// The record wants the way the server authenticates players, which is to be
    /// asked in this version of the protocol.
    AskAuth(ScanResult, i32),
}

/// Where a scan stands.
pub enum ScanStepView {
    Finished(ScanResultView),
    AskAuth(ScanResultView, i32),
}

impl View for ScanStep {
    type V = ScanStepView;

    open spec fn view(&self) -> ScanStepView {
        match self {
            ScanStep::Finished(result) => ScanStepView::Finished(result@),
            ScanStep::AskAuth(result, protocol) => ScanStepView::AskAuth(result@, *protocol),
        }
    }
}

/// A record to which the way the server authenticates players is added.
pub open spec fn with_auth_mode(result: ScanResultView, mode: i32) -> ScanResultView {
    ScanResultView { auth_mode: Some(mode), ..result }
}

/// Where a scan stands after a status, or the reason why there is none.
pub open spec fn scan_step(
    ip: Seq<char>,
    port: u16,
    wanted: bool,
    status: Result<ServerResponse, String>,
) -> ScanStepView {
    match status {
        Err(error) => ScanStepView::Finished(failed_result(ip, port, error@)),
        Ok(response) => {
            let result = status_result(ip, port, response);
            match auth_check(wanted, result.protocol) {
                AuthCheck::Skip => ScanStepView::Finished(result),
                AuthCheck::Unknown => ScanStepView::Finished(with_auth_mode(result, AUTH_UNKNOWN)),
                AuthCheck::Ask(protocol) => ScanStepView::AskAuth(result, protocol),
            }
        },
    }
}

fn new_result(ip: String, port: u16) -> (result: ScanResult)
    ensures
        result@ == blank_result(ip@, port),
{
    ScanResult {
        ip,
        port,
        motd: None,
        version: None,
        protocol: None,
        max_players: None,
        online_players: None,
        players: None,
        favicon: None,
        auth_mode: None,
        error: None,
    }
}

fn list_players(sample: Vec<PlayerSample>) -> (players: Vec<Player>)
    ensures
        players@.map_values(|p: Player| p@) == sample_players(sample@),
{
    let mut players: Vec<Player> = Vec::new();
    for p in it: sample
        invariant
            it.seq() == sample@,
            players@.len() == it.index(),
            forall|i: int|
                0 <= i < players@.len() ==> (#[trigger] players@[i])@ == sample_players(sample@)[i],
    {
        players.push(Player { name: p.name, uuid: p.id });
    }
    assert(players@.map_values(|p: Player| p@) =~= sample_players(sample@));
    players
}

/// Decides whether a server is to be asked how it authenticates players.
pub fn decide_auth_check(wanted: bool, protocol: Option<i32>) -> (check: AuthCheck)
    ensures
        check == auth_check(wanted, protocol),
{
    match protocol {
        Some(version) => if !wanted {
            AuthCheck::Skip
        } else if version >= MIN_PROTOCOL_VERSION {
            AuthCheck::Ask(version)
        } else {
            AuthCheck::Unknown
        },
        None => AuthCheck::Skip,
    }
}

/// Records the status of a server, or the reason why there is none, and decides
/// how the scan goes on.
pub fn scan_server(
    ip: String,
    port: u16,
    check_auth: bool,
    status: Result<ServerResponse, String>,
) -> (step: ScanStep)
    ensures
        step@ == scan_step(ip@, port, check_auth, status),
{
    let mut result = new_result(ip, port);
    match status {
        Err(error) => {
            result.error = Some(error);
            ScanStep::Finished(result)
        },
        Ok(response) => {
            if let Some(version) = response.version {
                result.version = Some(version.name);
                result.protocol = Some(version.protocol);
            }
            if let Some(players) = response.players {
                result.max_players = Some(players.max);
                result.online_players = Some(players.online);
                if let Some(sample) = players.sample {
                    result.players = Some(list_players(sample));
                }
            }
            if let Some(desc) = response.description {
                result.motd = Some(parse_motd(&desc));
            }
            result.favicon = response.favicon;
            match decide_auth_check(check_auth, result.protocol) {
                AuthCheck::Skip => ScanStep::Finished(result),
                AuthCheck::Unknown => {
                    result.auth_mode = Some(AUTH_UNKNOWN);
                    ScanStep::Finished(result)
                },
                AuthCheck::Ask(protocol) => ScanStep::AskAuth(result, protocol),
            }
        },
    }
}

/// Records how the server authenticates players. It is unknown if asking failed.
pub fn record_auth_mode(result: ScanResult, mode: Option<i32>) -> (complete: ScanResult)
    ensures
        complete@ == with_auth_mode(
            result@,
            match mode {
                Some(shown) => shown,
                None => AUTH_UNKNOWN,
            },
        ),
{
    let mut complete = result;
    complete.auth_mode = Some(
        match mode {
            Some(shown) => shown,
            None => AUTH_UNKNOWN,
        },
    );
    complete
}

/// The record of a server whose scan took too long.
pub fn timed_out(ip: String, port: u16) -> (result: ScanResult)
    ensures
        result@ == failed_result(ip@, port, "Timeout"@),
{
    let mut result = new_result(ip, port);
    result.error = Some("Timeout".to_owned());
    result
}

/// The totals over the records of many servers.
#[derive(Clone, Copy, Debug, PartialEq, Eq, Structural)]
pub struct Summary {
    pub total: usize,
    pub ok: usize,
    pub failed: usize,
    pub online: usize,
    pub cracked: usize,
    pub whitelisted: usize,
}

/// How many of the records pass a test.
pub open spec fn count(results: Seq<ScanResult>, test: spec_fn(ScanResult) -> bool) -> nat {
    results.filter(test).len()
}

/// How many of the servers told their status.
pub open spec fn count_ok(results: Seq<ScanResult>) -> nat {
    count(results, |r: ScanResult| r.error is None)
}

/// How many of the servers showed this mode.
pub open spec fn count_mode(results: Seq<ScanResult>, mode: i32) -> nat {
    count(results, |r: ScanResult| r.auth_mode == Some(mode))
}

proof fn lemma_count_step(results: Seq<ScanResult>, n: int, test: spec_fn(ScanResult) -> bool)
    requires
        0 <= n < results.len(),
    ensures
        count(results.take(n + 1), test) == count(results.take(n), test) + if test(results[n]) {
            1nat
        } else {
            0
        },
        count(results.take(n + 1), test) <= n + 1,
{
    reveal(Seq::filter);
    assert(results.take(n + 1).drop_last() =~= results.take(n));
    results.take(n + 1).lemma_filter_len(test);
}

/// Counts the records.
pub fn summarize(results: &Vec<ScanResult>) -> (summary: Summary)
    ensures
        summary.total == results@.len(),
        summary.ok == count_ok(results@),
        summary.failed == summary.total - summary.ok,
        summary.online == count_mode(results@, AUTH_PREMIUM),
        summary.cracked == count_mode(results@, AUTH_CRACKED),
        summary.whitelisted == count_mode(results@, AUTH_WHITELISTED),
{
    let mut ok: usize = 0;
    let mut online: usize = 0;
    let mut cracked: usize = 0;
    let mut whitelisted: usize = 0;
    let mut i: usize = 0;
    proof {
        reveal(Seq::filter);
    }
    while i < results.len()
        invariant
            i <= results.len(),
            ok == count_ok(results@.take(i as int)),
            online == count_mode(results@.take(i as int), AUTH_PREMIUM),
            cracked == count_mode(results@.take(i as int), AUTH_CRACKED),
            whitelisted == count_mode(results@.take(i as int), AUTH_WHITELISTED),
            ok <= i,
            online <= i,
            cracked <= i,
            whitelisted <= i,
        decreases results.len() - i,
    {
        proof {
            let n = i as int;
            lemma_count_step(results@, n, |r: ScanResult| r.error is None);
            lemma_count_step(results@, n, |r: ScanResult| r.auth_mode == Some(AUTH_PREMIUM));
            lemma_count_step(results@, n, |r: ScanResult| r.auth_mode == Some(AUTH_CRACKED));
            lemma_count_step(results@, n, |r: ScanResult| r.auth_mode == Some(AUTH_WHITELISTED));
        }
        if results[i].error.is_none() {
            ok = ok + 1;
        }
        match results[i].auth_mode {
            Some(mode) => {
                if mode == AUTH_PREMIUM {
                    online = online + 1;
                } else if mode == AUTH_CRACKED {
                    cracked = cracked + 1;
                } else if mode == AUTH_WHITELISTED {
                    whitelisted = whitelisted + 1;
                }
            },
            None => {},
        }
        i = i + 1;
    }
    assert(results@.take(i as int) =~= results@);
    Summary { total: results.len(), ok, failed: results.len() - ok, online, cracked, whitelisted }
}

/// The record of a scan that stands at `step`.
pub open spec fn step_result(step: ScanStepView) -> ScanResultView {
    match step {
        ScanStepView::Finished(result) => result,
        ScanStepView::AskAuth(result, _) => result,
    }
}

/// A record is always that of the server that was scanned, and it has an error
/// if, and only if, the server did not tell its status. With an error there is
/// nothing else in it.
pub proof fn law_record_of_the_server(
    ip: Seq<char>,
    port: u16,
    wanted: bool,
    status: Result<ServerResponse, String>,
)
    ensures
        ({
            let result = step_result(scan_step(ip, port, wanted, status));
            &&& result.ip == ip
            &&& result.port == port
            &&& result.error is None <==> status is Ok
            &&& result.error matches Some(error) ==> result == failed_result(ip, port, error)
        }),
{
}

/// A server is asked how it authenticates players only if that is wanted, and
/// only in a version of the protocol in which the answer can be followed. If it
/// is not wanted, the record does not speak of it.
pub proof fn law_auth_is_asked_where_it_can_be(
    ip: Seq<char>,
    port: u16,
    wanted: bool,
    status: Result<ServerResponse, String>,
)
    ensures
        scan_step(ip, port, wanted, status) matches ScanStepView::AskAuth(result, protocol) ==> {
            &&& wanted
            &&& protocol >= MIN_PROTOCOL_VERSION
            &&& result.protocol == Some(protocol)
            &&& result.error is None
        },
        !wanted ==> step_result(scan_step(ip, port, wanted, status)).auth_mode is None,
        scan_step(ip, port, wanted, status) matches ScanStepView::Finished(result) ==> (
        result.auth_mode is Some <==> wanted && result.protocol is Some),
{
}

/// Each part of a record comes from its own part of the status and from nothing
/// else: the message from the description, the version and its number from the
/// version, the counts and the list of players from the players, and the icon from
/// the icon. What the status does not tell, the record does not either.
pub proof fn law_record_shows_status(ip: Seq<char>, port: u16, wanted: bool, status: ServerResponse)
    ensures
        ({
            let result = step_result(scan_step(ip, port, wanted, Ok(status)));
            &&& status.description matches Some(desc) ==> result.motd == Some(motd(desc))
            &&& status.description is None ==> result.motd is None
            &&& status.version matches Some(version) ==> result.version == Some(version.name@)
                && result.protocol == Some(version.protocol)
            &&& status.version is None ==> result.version is None && result.protocol is None
            &&& status.players matches Some(players) ==> result.max_players == Some(players.max)
                && result.online_players == Some(players.online)
            &&& status.players is None ==> result.max_players is None && result.online_players
                is None && result.players is None
            &&& status.players matches Some(players) ==> players.sample is None
                ==> result.players is None
            &&& status.favicon matches Some(icon) ==> result.favicon == Some(icon@)
            &&& status.favicon is None ==> result.favicon is None
        }),
{
}

/// The players of a record are those of the sample, in order, each with the name
/// and the identifier that the server gave.
pub proof fn law_record_lists_players(
    ip: Seq<char>,
    port: u16,
    wanted: bool,
    status: ServerResponse,
    sample: Vec<PlayerSample>,
    i: int,
)
    requires
        status.players matches Some(players) && players.sample == Some(sample),
    ensures
        ({
            let result = step_result(scan_step(ip, port, wanted, Ok(status)));
            &&& result.players is Some
            &&& result.players->0.len() == sample@.len()
            &&& 0 <= i < sample@.len() ==> result.players->0[i].name == sample@[i].name@
                && result.players->0[i].uuid == sample@[i].id@
        }),
{
}

/// The record of a server that did not tell its status, or not in time, holds the
/// server and the reason, and nothing else.
pub proof fn law_failed_record(ip: Seq<char>, port: u16, wanted: bool, error: String)
    ensures
        scan_step(ip, port, wanted, Err(error)) == ScanStepView::Finished(
            failed_result(ip, port, error@),
        ),
        ({
            let result = failed_result(ip, port, error@);
            &&& result.ip == ip
            &&& result.port == port
            &&& result.error == Some(error@)
            &&& result.motd is None
            &&& result.version is None
            &&& result.protocol is None
            &&& result.max_players is None
            &&& result.online_players is None
            &&& result.players is None
            &&& result.favicon is None
            &&& result.auth_mode is None
        }),
{
}

/// How a scan goes on rests on the version that the status gives, and on whether
/// the way the server authenticates players is wanted. It is asked for in a version
/// that can be followed, unknown in an older one, and left out otherwise.
pub proof fn law_auth_follows_version(ip: Seq<char>, port: u16, wanted: bool, status: ServerResponse)
    ensures
        ({
            let step = scan_step(ip, port, wanted, Ok(status));
            let result = step_result(step);
            &&& !wanted || status.version is None ==> step is Finished && result.auth_mode is None
            &&& wanted ==> (status.version matches Some(version) ==> {
                &&& version.protocol >= 47 ==> step == ScanStepView::AskAuth(
                    result,
                    version.protocol,
                ) && result.auth_mode is None
                &&& version.protocol < 47 ==> step is Finished && result.auth_mode == Some(-1i32)
            })
        }),
        forall|protocol: i32|
            {
                &&& auth_check(false, Some(protocol)) == AuthCheck::Skip
                &&& protocol >= 47 ==> #[trigger] auth_check(true, Some(protocol))
                    == AuthCheck::Ask(protocol)
                &&& protocol < 47 ==> auth_check(true, Some(protocol)) == AuthCheck::Unknown
            },
        auth_check(wanted, None) == AuthCheck::Skip,
{
}

/// Recording how a server authenticates players changes that part of the record
/// and no other.
pub proof fn law_auth_mode_is_recorded(result: ScanResultView, mode: i32)
    ensures
        ({
            let complete = with_auth_mode(result, mode);
            &&& complete.auth_mode == Some(mode)
            &&& complete.ip == result.ip
            &&& complete.port == result.port
            &&& complete.motd == result.motd
            &&& complete.version == result.version
            &&& complete.protocol == result.protocol
            &&& complete.max_players == result.max_players
            &&& complete.online_players == result.online_players
            &&& complete.players == result.players
            &&& complete.favicon == result.favicon
            &&& complete.error == result.error
        }),
{
}

/// A record is seen as it is, part by part.
pub proof fn law_record_view(result: ScanResult, i: int)
    ensures
        result@.ip == result.ip@,
        result@.port == result.port,
        result.motd matches Some(text) ==> result@.motd == Some(text@),
        result.motd is None ==> result@.motd is None,
        result.version matches Some(text) ==> result@.version == Some(text@),
        result.version is None ==> result@.version is None,
        result@.protocol == result.protocol,
        result@.max_players == result.max_players,
        result@.online_players == result.online_players,
        result.players matches Some(list) ==> result@.players is Some && result@.players->0.len()
            == list@.len() && (0 <= i < list@.len() ==> result@.players->0[i].name
            == list@[i].name@ && result@.players->0[i].uuid == list@[i].uuid@),
        result.players is None ==> result@.players is None,
        result.favicon matches Some(text) ==> result@.favicon == Some(text@),
        result.favicon is None ==> result@.favicon is None,
        result@.auth_mode == result.auth_mode,
        result.error matches Some(text) ==> result@.error == Some(text@),
        result.error is None ==> result@.error is None,
{
}

/// Where a scan stands is seen as it is.
pub proof fn law_step_view(step: ScanStep)
    ensures
        step matches ScanStep::Finished(result) ==> step@ == ScanStepView::Finished(result@),
        step matches ScanStep::AskAuth(result, protocol) ==> step@ == ScanStepView::AskAuth(
            result@,
            protocol,
        ),
{
}

/// A record counts as a success if, and only if, it has no error, and under a mode
/// if, and only if, it holds that mode, whatever else is in it. No records count
/// as nothing.
pub proof fn law_one_record_counts(result: ScanResult, mode: i32)
    ensures
        result.error is None ==> count_ok(seq![result]) == 1,
        result.error is Some ==> count_ok(seq![result]) == 0,
        result.auth_mode == Some(mode) ==> count_mode(seq![result], mode) == 1,
        result.auth_mode != Some(mode) ==> count_mode(seq![result], mode) == 0,
        count_ok(Seq::empty()) == 0,
        count_mode(Seq::empty(), mode) == 0,
{
    let one = seq![result];
    lemma_count_step(one, 0, |r: ScanResult| r.error is None);
    lemma_count_step(one, 0, |r: ScanResult| r.auth_mode == Some(mode));
    assert(one.take(1) =~= one);
    assert(one.take(0) =~= Seq::empty());
    reveal(Seq::filter);
}

/// One more record at the end adds one to the successes if it has no error, and
/// one to its mode.
pub proof fn law_record_adds_to_totals(results: Seq<ScanResult>, last: ScanResult, mode: i32)
    ensures
        count_ok(results.push(last)) == count_ok(results) + if last.error is None {
            1nat
        } else {
            0
        },
        count_mode(results.push(last), mode) == count_mode(results, mode) + if last.auth_mode
            == Some(mode) {
            1nat
        } else {
            0
        },
{
    law_one_record_counts(last, mode);
    law_totals_add_up(results, seq![last], mode);
    assert(results.push(last) =~= results + seq![last]);
}

/// No server is counted under two modes.
pub proof fn law_modes_do_not_overlap(results: Seq<ScanResult>)
    ensures
        count_mode(results, AUTH_PREMIUM) + count_mode(results, AUTH_CRACKED) + count_mode(
            results,
            AUTH_WHITELISTED,
        ) <= results.len(),
        count_ok(results) <= results.len(),
    decreases results.len(),
{
    reveal(Seq::filter);
    results.lemma_filter_len(|r: ScanResult| r.error is None);
    if results.len() > 0 {
        law_modes_do_not_overlap(results.drop_last());
    }
}

/// The totals over two lists are those over both together.
pub proof fn law_totals_add_up(a: Seq<ScanResult>, b: Seq<ScanResult>, mode: i32)
    ensures
        count_ok(a + b) == count_ok(a) + count_ok(b),
        count_mode(a + b, mode) == count_mode(a, mode) + count_mode(b, mode),
{
    Seq::filter_distributes_over_add(a, b, |r: ScanResult| r.error is None);
    Seq::filter_distributes_over_add(a, b, |r: ScanResult| r.auth_mode == Some(mode));
}

} // verus!
