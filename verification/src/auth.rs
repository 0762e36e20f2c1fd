//! The exchange that finds out how a server authenticates players: what is sent,
//! how many bytes to wait for next, and what comes of them.

use vstd::prelude::*;
use vstd::utf8::*;

use crate::error::{viewed, ScanError, ScanErrorView};
use crate::login::{
    interpret_packet, law_plain_packet_shows_mode, packet_effect, PacketEffect, AUTH_UNKNOWN,
};
use crate::packet::{
    counted, create_handshake_packet, create_login_start, handshake_data, law_login_by_version,
    law_login_round_trip, login_data, MIN_PROTOCOL_VERSION,
};
use crate::uuid::{law_uuid_round_trip, spells, uuid_bytes, uuid_readable, without_dashes};
use crate::varint::{
    after_varint, complete_varint, integer_value, law_complete_varint_is_read,
    law_overlong_varint_is_read, law_truncated_varint_is_read, law_varint_asks_for_every_byte,
    law_varint_is_complete, read_varint, varint_read, varint_value, VarintRead,
};

verus! {

/// The packets that start a login, in the order in which they are sent.
#[derive(Debug, PartialEq, Eq)]
pub struct AuthRequests {
    pub handshake: Vec<u8>,
    pub login: Vec<u8>,
}

/// The name of the player who tries to log in.
pub open spec fn probe_name() -> Seq<char> {
    "Herobrine"@
}

/// The identifier of the player who tries to log in.
pub open spec fn probe_uuid() -> Seq<char> {
    "00000000-0000-0000-0000-000000000000"@
}

proof fn lemma_zeros_have_no_dashes(n: nat)
    ensures
        without_dashes(Seq::new(n, |i: int| '0')) == Seq::new(n, |i: int| '0'),
    decreases n,
{
    reveal(Seq::filter);
    let zeros = Seq::new(n, |i: int| '0');
    if n > 0 {
        lemma_zeros_have_no_dashes((n - 1) as nat);
        assert(zeros.drop_last() =~= Seq::new((n - 1) as nat, |i: int| '0'));
    }
    assert(without_dashes(zeros) =~= zeros);
}

/// The player's identifier is sixteen zero bytes.
pub proof fn law_probe_uuid()
    ensures
        uuid_readable(probe_uuid()),
        uuid_bytes(probe_uuid()) == Seq::new(16, |i: int| 0u8),
{
    reveal_strlit("00000000-0000-0000-0000-000000000000");
    let keep = |c: char| c != '-';
    let dash: Seq<char> = seq!['-'];
    let eight = Seq::new(8, |i: int| '0');
    let four = Seq::new(4, |i: int| '0');
    let twelve = Seq::new(12, |i: int| '0');
    let a = eight + dash;
    let b = a + four;
    let c = b + dash;
    let d = c + four;
    let e = d + dash;
    let f = e + four;
    let g = f + dash;
    assert(probe_uuid() =~= g + twelve);
    Seq::filter_distributes_over_add(g, twelve, keep);
    Seq::filter_distributes_over_add(f, dash, keep);
    Seq::filter_distributes_over_add(e, four, keep);
    Seq::filter_distributes_over_add(d, dash, keep);
    Seq::filter_distributes_over_add(c, four, keep);
    Seq::filter_distributes_over_add(b, dash, keep);
    Seq::filter_distributes_over_add(a, four, keep);
    Seq::filter_distributes_over_add(eight, dash, keep);
    lemma_zeros_have_no_dashes(8);
    lemma_zeros_have_no_dashes(4);
    lemma_zeros_have_no_dashes(12);
    assert(dash.filter(keep) =~= Seq::empty()) by {
        reveal(Seq::filter);
        assert(dash.drop_last() =~= Seq::empty());
        assert(dash.drop_last().filter(keep) =~= Seq::empty());
    }
    let bytes = Seq::new(16, |i: int| 0u8);
    assert(without_dashes(probe_uuid()) =~= Seq::new(32, |i: int| '0'));
    assert(spells(without_dashes(probe_uuid()), bytes));
    law_uuid_round_trip(probe_uuid(), bytes);
}

/// The packets that ask a server how it authenticates players, unless a login in
/// its version of the protocol could not be followed.
pub fn auth_requests(host: &str, port: u16, protocol: i32) -> (requests: Result<
    AuthRequests,
    ScanError,
>)
    ensures
        protocol < MIN_PROTOCOL_VERSION <==> requests is Err,
        requests matches Err(error) ==> error == ScanError::ProtocolTooOld(protocol),
        requests matches Ok(sent) ==> {
            &&& sent.handshake@ == counted(handshake_data(host@, port, 2, protocol))
            &&& sent.login@ == counted(login_data(probe_name(), probe_uuid(), protocol as int))
        },
{
    if protocol < MIN_PROTOCOL_VERSION {
        return Err(ScanError::ProtocolTooOld(protocol));
    }
    proof {
        law_probe_uuid();
    }
    let handshake = create_handshake_packet(host, port, 2, protocol);
    let login = create_login_start("Herobrine", "00000000-0000-0000-0000-000000000000", protocol);
    Ok(AuthRequests { handshake, login })
}

/// What a session waits for.
pub enum Awaiting {
    /// The rest of a packet's length, of which these bytes are there.
    Length(Seq<u8>),
    /// A packet of this many bytes.
    Packet(nat),
}

/// A session: the compression threshold in force and what is waited for.
pub struct AuthState {
    pub compression: i32,
    pub awaiting: Awaiting,
}

/// A session that waits for the next packet.
pub open spec fn between_packets(compression: i32) -> AuthState {
    AuthState { compression, awaiting: Awaiting::Length(Seq::empty()) }
}

impl AuthState {
    /// How many bytes are to be read next.
    pub open spec fn wants(self) -> nat {
        match self.awaiting {
            Awaiting::Length(_) => 1,
            Awaiting::Packet(n) => n,
        }
    }

    /// Whether a session can come to be in this state.
    pub open spec fn valid(self) -> bool {
        match self.awaiting {
            Awaiting::Length(have) => varint_read(have) == VarintRead::More,
            Awaiting::Packet(n) => 0 < n <= i32::MAX,
        }
    }
}

/// What becomes of a session that gets the bytes it waits for, and what it then
/// knows: the mode, or nothing yet. Packets of no length are passed over.
pub open spec fn auth_step(state: AuthState, bytes: Seq<u8>) -> (
    AuthState,
    Result<Option<i32>, ScanErrorView>,
) {
    match state.awaiting {
        Awaiting::Length(have) => match varint_read(have + bytes) {
            VarintRead::More => (
                AuthState { awaiting: Awaiting::Length(have + bytes), ..state },
                Ok(None),
            ),
            VarintRead::TooLong => (state, Err(ScanErrorView::VarintTooLong)),
            VarintRead::Done(len) => if len <= 0 {
                (between_packets(state.compression), Ok(None))
            } else {
                (AuthState { awaiting: Awaiting::Packet(len as nat), ..state }, Ok(None))
            },
        },
        Awaiting::Packet(_) => match packet_effect(state.compression, bytes) {
            Err(error) => (state, Err(error)),
            Ok(PacketEffect::Finished(mode)) => (state, Ok(Some(mode))),
            Ok(PacketEffect::Compression(threshold)) => (between_packets(threshold), Ok(None)),
            Ok(PacketEffect::Ignored) => (between_packets(state.compression), Ok(None)),
        },
    }
}

/// A login that is being followed.
#[derive(Debug)]
pub struct AuthSession {
    compression: i32,
    /// The bytes of a packet's length that are there.
    length: Vec<u8>,
    /// The length of the packet that is waited for, or zero while its length is.
    expected: usize,
}

impl View for AuthSession {
    type V = AuthState;

    closed spec fn view(&self) -> AuthState {
        AuthState {
            compression: self.compression,
            awaiting: if self.expected == 0 {
                Awaiting::Length(self.length@)
            } else {
                Awaiting::Packet(self.expected as nat)
            },
        }
    }
}

impl AuthSession {
    /// A session is always in a state that it can come to be in, and holds no
    /// bytes of a length while it waits for a packet.
    #[verifier::type_invariant]
    spec fn well_formed(self) -> bool {
        &&& self@.valid()
        &&& self.expected > 0 ==> self.length@.len() == 0
    }

    /// A session that has sent its requests: nothing is compressed yet.
    pub fn new() -> (session: AuthSession)
        ensures
            session@ == between_packets(-1i32),
            session@.valid(),
    {
        let session = AuthSession { compression: -1, length: Vec::new(), expected: 0 };
        assert(session.length@ =~= Seq::empty());
        session
    }

    /// How many bytes are to be read next.
    pub fn wants(&self) -> (n: usize)
        ensures
            n == self@.wants(),
            n > 0,
    {
        proof {
            use_type_invariant(self);
        }
        if self.expected == 0 {
            1
        } else {
            self.expected
        }
    }

    /// Takes the bytes that were waited for. The mode is known once it comes
    /// back; until then the session goes on waiting.
    pub fn receive(&mut self, bytes: Vec<u8>) -> (outcome: Result<Option<i32>, ScanError>)
        requires
            bytes@.len() == old(self)@.wants(),
        ensures
            final(self)@ == auth_step(old(self)@, bytes@).0,
            final(self)@.valid(),
            viewed(outcome) == auth_step(old(self)@, bytes@).1,
    {
        proof {
            use_type_invariant(&*self);
        }
        if self.expected == 0 {
            let mut all: Vec<u8> = self.length.clone();
            all.push(bytes[0]);
            assert(all@ =~= self.length@ + bytes@);
            match read_varint(&all) {
                VarintRead::More => {
                    self.length = all;
                    Ok(None)
                },
                VarintRead::TooLong => Err(ScanError::VarintTooLong),
                VarintRead::Done(len) => {
                    self.length = Vec::new();
                    assert(self.length@ =~= Seq::empty());
                    if len > 0 {
                        self.expected = len as usize;
                    }
                    Ok(None)
                },
            }
        } else {
            match interpret_packet(self.compression, bytes) {
                Err(error) => Err(error),
                Ok(PacketEffect::Finished(mode)) => Ok(Some(mode)),
                Ok(PacketEffect::Compression(threshold)) => {
                    self.compression = threshold;
                    self.expected = 0;
                    assert(self.length@ =~= Seq::empty());
                    Ok(None)
                },
                Ok(PacketEffect::Ignored) => {
                    self.expected = 0;
                    assert(self.length@ =~= Seq::empty());
                    Ok(None)
                },
            }
        }
    }
}

/// The result of a login that was followed for a limited time: what came of it,
/// or an unknown mode if the time ran out first.
pub fn settle_auth_mode<E>(outcome: Option<Result<i32, E>>) -> (mode: Result<i32, E>)
    ensures
        mode == match outcome {
            Some(result) => result,
            None => Ok(AUTH_UNKNOWN),
        },
{
    match outcome {
        Some(result) => result,
        None => Ok(AUTH_UNKNOWN),
    }
}

/// What a session makes of a whole stream of bytes: it reads on for as long as it
/// knows nothing and has what it waits for.
pub open spec fn auth_stream(state: AuthState, stream: Seq<u8>) -> Result<
    Option<i32>,
    ScanErrorView,
>
    decreases stream.len(),
{
    let n = state.wants();
    if n == 0 || stream.len() < n {
        Ok(None)
    } else {
        match auth_step(state, stream.take(n as int)) {
            (next, Ok(None)) => auth_stream(next, stream.skip(n as int)),
            (_, outcome) => outcome,
        }
    }
}

/// A session that has read a length: a packet is waited for unless it has none.
spec fn after_length(compression: i32, len: i32) -> AuthState {
    if len <= 0 {
        between_packets(compression)
    } else {
        AuthState { compression, awaiting: Awaiting::Packet(len as nat) }
    }
}

/// A session that has read some bytes of a length reads the others.
proof fn lemma_length_is_read(compression: i32, len: Seq<u8>, have: int, rest: Seq<u8>)
    requires
        complete_varint(len),
        0 <= have < len.len(),
    ensures
        auth_stream(
            AuthState { compression, awaiting: Awaiting::Length(len.take(have)) },
            len.skip(have) + rest,
        ) == auth_stream(after_length(compression, integer_value(len)), rest),
    decreases len.len() - have,
{
    let stream = len.skip(have) + rest;
    assert(len.take(have) + stream.take(1) =~= len.take(have + 1));
    assert(stream.skip(1) =~= len.skip(have + 1) + rest);
    if have + 1 < len.len() {
        law_varint_asks_for_every_byte(len, have + 1);
        lemma_length_is_read(compression, len, have + 1, rest);
    } else {
        assert(len.take(have + 1) =~= len);
        law_complete_varint_is_read(len, Seq::empty());
        assert(len + Seq::<u8>::empty() =~= len);
        assert(stream.skip(1) =~= rest);
    }
}

/// A session between packets reads a length.
proof fn lemma_whole_length_is_read(compression: i32, len: Seq<u8>, rest: Seq<u8>)
    requires
        complete_varint(len),
    ensures
        auth_stream(between_packets(compression), len + rest) == auth_stream(
            after_length(compression, integer_value(len)),
            rest,
        ),
{
    lemma_length_is_read(compression, len, 0, rest);
    assert(len.take(0) =~= Seq::empty());
    assert(len.skip(0) =~= len);
}

/// How a session between packets goes on that a packet had this effect on.
pub open spec fn after_packet(
    compression: i32,
    effect: Result<PacketEffect, ScanErrorView>,
    rest: Seq<u8>,
) -> Result<Option<i32>, ScanErrorView> {
    match effect {
        Err(error) => Err(error),
        Ok(PacketEffect::Finished(mode)) => Ok(Some(mode)),
        Ok(PacketEffect::Compression(threshold)) => auth_stream(between_packets(threshold), rest),
        Ok(PacketEffect::Ignored) => auth_stream(between_packets(compression), rest),
    }
}

/// A session that waits for a packet takes it and no more.
proof fn lemma_packet_is_read(compression: i32, packet: Seq<u8>, rest: Seq<u8>)
    requires
        0 < packet.len(),
    ensures
        auth_stream(
            AuthState { compression, awaiting: Awaiting::Packet(packet.len()) },
            packet + rest,
        ) == after_packet(compression, packet_effect(compression, packet), rest),
{
    let state = AuthState { compression, awaiting: Awaiting::Packet(packet.len()) };
    assert((packet + rest).take(state.wants() as int) =~= packet);
    assert((packet + rest).skip(state.wants() as int) =~= rest);
}

/// Packets are taken whole and one after the other: a session between packets
/// that gets one, behind its length, acts on it alone and goes on with what
/// follows unless the packet decided.
pub proof fn law_packet_is_taken_whole(
    compression: i32,
    len: Seq<u8>,
    packet: Seq<u8>,
    rest: Seq<u8>,
)
    requires
        complete_varint(len),
        integer_value(len) == packet.len(),
        0 < packet.len(),
    ensures
        auth_stream(between_packets(compression), len + (packet + rest)) == after_packet(
            compression,
            packet_effect(compression, packet),
            rest,
        ),
        auth_stream(between_packets(compression), len + (packet + rest)) == match packet_effect(
            compression,
            packet,
        ) {
            Err(error) => Err(error),
            Ok(PacketEffect::Finished(mode)) => Ok(Some(mode)),
            Ok(PacketEffect::Compression(threshold)) => auth_stream(
                between_packets(threshold),
                rest,
            ),
            Ok(PacketEffect::Ignored) => auth_stream(between_packets(compression), rest),
        },
{
    lemma_whole_length_is_read(compression, len, packet + rest);
    lemma_packet_is_read(compression, packet, rest);
}

/// A packet of no length, or of a negative one, is passed over.
pub proof fn law_empty_packet_is_passed_over(compression: i32, len: Seq<u8>, rest: Seq<u8>)
    requires
        complete_varint(len),
        integer_value(len) <= 0,
    ensures
        auth_stream(between_packets(compression), len + rest) == auth_stream(
            between_packets(compression),
            rest,
        ),
{
    lemma_whole_length_is_read(compression, len, rest);
}

/// A session that gets the packet it waits for knows the mode that the packet
/// shows, or fails as the packet does. Otherwise it waits for the next one, under
/// the threshold that the packet sets or else the one in force.
pub proof fn law_step_on_packet(compression: i32, packet: Seq<u8>)
    requires
        packet.len() > 0,
    ensures
        ({
            let state = AuthState { compression, awaiting: Awaiting::Packet(packet.len()) };
            let next = auth_step(state, packet).0;
            let outcome = auth_step(state, packet).1;
            &&& state.wants() == packet.len()
            &&& match packet_effect(compression, packet) {
                Err(error) => outcome == Err::<Option<i32>, _>(error),
                Ok(PacketEffect::Finished(mode)) => outcome == Ok::<_, ScanErrorView>(Some(mode)),
                Ok(PacketEffect::Compression(threshold)) => outcome == Ok::<_, ScanErrorView>(
                    None::<i32>,
                ) && next.compression == threshold && next.awaiting == Awaiting::Length(
                    Seq::empty(),
                ),
                Ok(PacketEffect::Ignored) => outcome == Ok::<_, ScanErrorView>(None::<i32>)
                    && next.compression == compression && next.awaiting == Awaiting::Length(
                    Seq::empty(),
                ),
            }
        }),
{
}

/// A session that gets one more byte of a length keeps it while the length goes
/// on, fails once it is too long, and once it is whole waits for a packet of that
/// length, or for the next length if that is not positive. The threshold stays.
pub proof fn law_step_on_length(compression: i32, have: Seq<u8>, byte: u8)
    ensures
        ({
            let state = AuthState { compression, awaiting: Awaiting::Length(have) };
            let next = auth_step(state, seq![byte]).0;
            let outcome = auth_step(state, seq![byte]).1;
            let nothing = Ok::<Option<i32>, ScanErrorView>(None);
            &&& state.wants() == 1
            &&& next.compression == compression
            &&& match varint_read(have.push(byte)) {
                VarintRead::More => outcome == nothing && next.awaiting == Awaiting::Length(
                    have.push(byte),
                ),
                VarintRead::TooLong => outcome == Err::<Option<i32>, _>(
                    ScanErrorView::VarintTooLong,
                ),
                VarintRead::Done(len) => outcome == nothing && next.awaiting == if len > 0 {
                    Awaiting::Packet(len as nat)
                } else {
                    Awaiting::Length(Seq::empty())
                },
            }
        }),
{
    assert(have + seq![byte] =~= have.push(byte));
}

/// A session that has read some bytes of a length that goes on for too long reads
/// it to the error.
proof fn lemma_endless_length(compression: i32, endless: Seq<u8>, have: int, rest: Seq<u8>)
    requires
        endless.len() == 5,
        forall|i: int| 0 <= i < endless.len() ==> endless[i] >= 128,
        0 <= have < 5,
    ensures
        auth_stream(
            AuthState { compression, awaiting: Awaiting::Length(endless.take(have)) },
            endless.skip(have) + rest,
        ) == Err::<Option<i32>, _>(ScanErrorView::VarintTooLong),
    decreases 5 - have,
{
    let stream = endless.skip(have) + rest;
    assert(endless.take(have) + stream.take(1) =~= endless.take(have + 1));
    assert(stream.skip(1) =~= endless.skip(have + 1) + rest);
    if have + 1 < 5 {
        law_truncated_varint_is_read(endless.take(have + 1));
        lemma_endless_length(compression, endless, have + 1, rest);
    } else {
        assert(endless.take(have + 1) =~= endless);
        law_overlong_varint_is_read(endless, Seq::empty());
        assert(endless + Seq::<u8>::empty() =~= endless);
    }
}

/// A length that goes on for too long is an error, whatever follows.
pub proof fn law_packet_length_too_long(compression: i32, endless: Seq<u8>, rest: Seq<u8>)
    requires
        endless.len() == 5,
        forall|i: int| 0 <= i < endless.len() ==> endless[i] >= 128,
    ensures
        auth_stream(between_packets(compression), endless + rest) == Err::<Option<i32>, _>(
            ScanErrorView::VarintTooLong,
        ),
{
    lemma_endless_length(compression, endless, 0, rest);
    assert(endless.take(0) =~= Seq::empty());
    assert(endless.skip(0) =~= endless);
}

/// A packet of which a part is missing decides nothing: the rest is waited for.
pub proof fn law_packet_is_waited_for(compression: i32, len: Seq<u8>, part: Seq<u8>)
    requires
        complete_varint(len),
        integer_value(len) > part.len(),
    ensures
        auth_stream(between_packets(compression), len + part) == Ok::<_, ScanErrorView>(
            None::<i32>,
        ),
{
    lemma_whole_length_is_read(compression, len, part);
}

proof fn lemma_length_is_waited_for(compression: i32, open: Seq<u8>, have: int)
    requires
        open.len() < 5,
        forall|i: int| 0 <= i < open.len() ==> open[i] >= 128,
        0 <= have <= open.len(),
    ensures
        auth_stream(
            AuthState { compression, awaiting: Awaiting::Length(open.take(have)) },
            open.skip(have),
        ) == Ok::<_, ScanErrorView>(None::<i32>),
    decreases open.len() - have,
{
    let stream = open.skip(have);
    if have < open.len() {
        assert(open.take(have) + stream.take(1) =~= open.take(have + 1));
        assert(stream.skip(1) =~= open.skip(have + 1));
        law_truncated_varint_is_read(open.take(have + 1));
        lemma_length_is_waited_for(compression, open, have + 1);
    }
}

/// A length of which a part is missing decides nothing either.
pub proof fn law_length_is_waited_for(compression: i32, open: Seq<u8>)
    requires
        open.len() < 5,
        forall|i: int| 0 <= i < open.len() ==> open[i] >= 128,
    ensures
        auth_stream(between_packets(compression), open) == Ok::<_, ScanErrorView>(None::<i32>),
{
    lemma_length_is_waited_for(compression, open, 0);
    assert(open.take(0) =~= Seq::empty());
    assert(open.skip(0) =~= open);
}

/// A server whose first packet is a refusal turns players away, one whose first is
/// a request for encryption has them checked, and one whose first lets the player
/// in lets anybody in, whatever else the packet holds and whatever follows it. Any
/// other first packet but a threshold leaves the question to the next.
pub proof fn law_first_packet_shows_mode(
    len: Seq<u8>,
    id: Seq<u8>,
    content: Seq<u8>,
    more: Seq<u8>,
)
    requires
        complete_varint(len),
        complete_varint(id),
        integer_value(len) == (id + content).len(),
    ensures
        ({
            let outcome = auth_stream(between_packets(-1i32), len + ((id + content) + more));
            let number = integer_value(id);
            &&& number == 0 ==> outcome == Ok::<_, ScanErrorView>(Some(2i32))
            &&& number == 1 ==> outcome == Ok::<_, ScanErrorView>(Some(1i32))
            &&& number == 2 ==> outcome == Ok::<_, ScanErrorView>(Some(0i32))
            &&& number == 3 ==> outcome == auth_stream(
                between_packets(varint_value(content)),
                more,
            )
            &&& number < 0 || number > 3 ==> outcome == auth_stream(between_packets(-1i32), more)
        }),
{
    law_plain_packet_shows_mode(-1i32, id, content);
    law_packet_is_taken_whole(-1i32, len, id + content, more);
}

/// The login that is started reads, in every version of the protocol, as that of
/// Herobrine with an identifier of sixteen zero bytes, where the version has one.
pub proof fn law_probe_login(protocol: int)
    ensures
        probe_name() == "Herobrine"@,
        ({
            let packet = counted(login_data(probe_name(), probe_uuid(), protocol));
            let at_name = after_varint(after_varint(packet));
            let behind = after_varint(at_name).skip(9);
            let zeros = Seq::new(16, |i: int| 0u8);
            &&& decode_utf8(after_varint(at_name).take(9)) == "Herobrine"@
            &&& protocol < 759 ==> behind.len() == 0
            &&& protocol == 759 ==> behind == seq![0u8]
            &&& protocol == 760 ==> behind == seq![0u8, 1u8] + zeros
            &&& 761 <= protocol <= 763 ==> behind == seq![1u8] + zeros
            &&& protocol >= 764 ==> behind == zeros
        }),
{
    reveal_strlit("Herobrine");
    is_ascii_chars_encode_utf8(probe_name());
    law_probe_uuid();
    law_varint_is_complete(0);
    law_varint_is_complete(9);
    let zeros = Seq::new(16, |i: int| 0u8);
    assert(login_data(probe_name(), probe_uuid(), protocol).len() <= 40);
    law_login_round_trip(probe_name(), probe_uuid(), protocol);
    law_login_by_version(probe_name(), probe_uuid(), zeros, protocol);
}

/// A mode that a server shows is one of the three known ones.
pub proof fn law_shown_modes(state: AuthState, stream: Seq<u8>)
    ensures
        auth_stream(state, stream) matches Ok(Some(mode)) ==> 0 <= mode <= 2,
    decreases stream.len(),
{
    let n = state.wants();
    if n > 0 && stream.len() >= n {
        law_shown_modes(auth_step(state, stream.take(n as int)).0, stream.skip(n as int));
    }
}

/// A session stays in a state that it can come to be in.
pub proof fn law_auth_step_keeps_valid(state: AuthState, bytes: Seq<u8>)
    requires
        state.valid(),
        bytes.len() == state.wants(),
    ensures
        auth_step(state, bytes).0.valid(),
        auth_step(state, bytes).0.wants() > 0,
{
}

} // verus!
