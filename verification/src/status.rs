//! The exchange that asks a server for its status, up to the JSON text that it
//! answers with, and what such a text tells.

use vstd::prelude::*;

use crate::error::{ScanError, ScanErrorView};
use crate::motd::Json;
use crate::packet::{
    counted, create_handshake_packet, create_status_request, handshake_data, MAX_PROTOCOL_VERSION,
};
use crate::varint::{
    after_varint, complete_varint, integer_value, law_complete_varint_is_read,
    law_overlong_varint_is_read, law_varint_asks_for_every_byte, scan_varint, varint, varint_read, varint_value, VarintEnd,
    VarintRead,
};

verus! {

/// The version that a server runs.
#[derive(Debug, PartialEq, Eq)]
pub struct VersionInfo {
    pub name: String,
    pub protocol: i32,
}

/// A player who is on a server.
#[derive(Debug, PartialEq, Eq)]
pub struct PlayerSample {
    pub name: String,
    pub id: String,
}

/// The players on a server.
#[derive(Debug, PartialEq, Eq)]
pub struct PlayersInfo {
    pub max: i32,
    pub online: i32,
    pub sample: Option<Vec<PlayerSample>>,
}

/// What a server tells of itself.
#[derive(Debug)]
pub struct ServerResponse {
    pub version: Option<VersionInfo>,
    pub players: Option<PlayersInfo>,
    pub description: Option<Json>,
    pub favicon: Option<String>,
}

/// The packets that ask for the status, in the order in which they are sent.
#[derive(Debug, PartialEq, Eq)]
pub struct StatusRequests {
    pub handshake: Vec<u8>,
    pub request: Vec<u8>,
}

/// The packets that ask a server for its status. The version they name is high,
/// so that the server tells its own.
pub fn status_requests(host: &str, port: u16) -> (requests: StatusRequests)
    ensures
        requests.handshake@ == counted(handshake_data(host@, port, 1, MAX_PROTOCOL_VERSION)),
        requests.request@ == counted(varint(0)),
{
    let handshake = create_handshake_packet(host, port, 1, MAX_PROTOCOL_VERSION);
    let request = create_status_request();
    StatusRequests { handshake, request }
}

/// How far the answer to a status request is there.
#[derive(Debug, PartialEq, Eq)]
pub enum StatusRead {
    /// One byte is to be read next, of an integer.
    Integer,
    /// This many bytes are to be read next, of the text.
    Text(usize),
    /// The text is there.
    Complete(Vec<u8>),
    /// The answer gives its text a negative length.
    NegativeLength(i32),
}

/// How far an answer is there.
pub enum StatusReadView {
    Integer,
    Text(nat),
    Complete(Seq<u8>),
    NegativeLength(i32),
}

impl View for StatusRead {
    type V = StatusReadView;

    open spec fn view(&self) -> StatusReadView {
        match self {
            StatusRead::Integer => StatusReadView::Integer,
            StatusRead::Text(n) => StatusReadView::Text(*n as nat),
            StatusRead::Complete(text) => StatusReadView::Complete(text@),
            StatusRead::NegativeLength(len) => StatusReadView::NegativeLength(*len),
        }
    }
}

/// What is known of an answer that has an integer at its front, of no interest,
/// and `then` behind it.
pub open spec fn behind_integer(
    received: Seq<u8>,
    then: Result<StatusReadView, ScanErrorView>,
) -> Result<StatusReadView, ScanErrorView> {
    match varint_read(received) {
        VarintRead::More => Ok(StatusReadView::Integer),
        VarintRead::TooLong => Err(ScanErrorView::VarintTooLong),
        VarintRead::Done(_) => then,
    }
}

/// How far a text is there that stands in `received` behind its length.
pub open spec fn text_read(received: Seq<u8>) -> Result<StatusReadView, ScanErrorView> {
    let len = varint_value(received);
    let rest = after_varint(received);
    behind_integer(
        received,
        if len < 0 {
            Ok(StatusReadView::NegativeLength(len))
        } else if rest.len() < len {
            Ok(StatusReadView::Text((len - rest.len()) as nat))
        } else {
            Ok(StatusReadView::Complete(rest.take(len as int)))
        },
    )
}

/// How far an answer is there of which `received` has come: the length of the
/// packet, its number, and the text behind its length.
pub open spec fn status_read(received: Seq<u8>) -> Result<StatusReadView, ScanErrorView> {
    let at_id = after_varint(received);
    let at_text = after_varint(at_id);
    behind_integer(received, behind_integer(at_id, text_read(at_text)))
}

/// Decides how to go on with an answer of which `received` has come.
pub fn read_status(received: &[u8]) -> (read: Result<StatusRead, ScanError>)
    ensures
        match read {
            Ok(found) => status_read(received@) == Ok::<_, ScanErrorView>(found@),
            Err(error) => status_read(received@) == Err::<StatusReadView, _>(error@),
        },
{
    let length = scan_varint(received, 0);
    assert(received@.skip(0) =~= received@);
    match length.stop {
        VarintEnd::Truncated => return Ok(StatusRead::Integer),
        VarintEnd::Overlong => return Err(ScanError::VarintTooLong),
        VarintEnd::Terminated => {},
    }
    let id = scan_varint(received, length.end);
    match id.stop {
        VarintEnd::Truncated => return Ok(StatusRead::Integer),
        VarintEnd::Overlong => return Err(ScanError::VarintTooLong),
        VarintEnd::Terminated => {},
    }
    assert(after_varint(after_varint(received@)) =~= received@.skip(id.end as int));
    let text = scan_varint(received, id.end);
    match text.stop {
        VarintEnd::Truncated => return Ok(StatusRead::Integer),
        VarintEnd::Overlong => return Err(ScanError::VarintTooLong),
        VarintEnd::Terminated => {},
    }
    let ghost rest = after_varint(received@.skip(id.end as int));
    assert(rest =~= received@.skip(text.end as int));
    if text.value < 0 {
        return Ok(StatusRead::NegativeLength(text.value));
    }
    let len: usize = text.value as usize;
    let have: usize = received.len() - text.end;
    if have < len {
        return Ok(StatusRead::Text(len - have));
    }
    let mut body: Vec<u8> = Vec::new();
    let mut i: usize = 0;
    while i < len
        invariant
            i <= len,
            text.end + len <= received.len(),
            rest == received@.skip(text.end as int),
            body@ == rest.take(i as int),
        decreases len - i,
    {
        body.push(received[text.end + i]);
        i = i + 1;
        assert(body@ =~= rest.take(i as int));
    }
    Ok(StatusRead::Complete(body))
}

/// How many bytes are to be read next.
pub open spec fn wanted(read: StatusReadView) -> nat {
    match read {
        StatusReadView::Integer => 1,
        StatusReadView::Text(n) => n,
        _ => 0,
    }
}

/// An answer: its length, its number, the length of its text, and the text.
pub open spec fn status_reply(len: Seq<u8>, id: Seq<u8>, count: Seq<u8>, text: Seq<u8>) -> Seq<u8> {
    len + (id + (count + text))
}

/// The text of an answer that is there, with whatever behind it, is the one that
/// the server wrote. The integers in front of the text's length may have any
/// value, and none of the three has to be written in as few bytes as can be.
pub proof fn law_status_round_trip(
    len: Seq<u8>,
    id: Seq<u8>,
    count: Seq<u8>,
    text: Seq<u8>,
    more: Seq<u8>,
)
    requires
        complete_varint(len),
        complete_varint(id),
        complete_varint(count),
        integer_value(count) == text.len(),
    ensures
        status_read(status_reply(len, id, count, text) + more) == Ok::<_, ScanErrorView>(
            StatusReadView::Complete(text),
        ),
{
    let from_text = count + (text + more);
    let from_id = id + from_text;
    assert(status_reply(len, id, count, text) + more =~= len + from_id);
    law_complete_varint_is_read(len, from_id);
    law_complete_varint_is_read(id, from_text);
    law_complete_varint_is_read(count, text + more);
    assert((text + more).take(text.len() as int) =~= text);
}

/// As long as a part of a text is missing, exactly that is asked for.
proof fn lemma_text_reads_no_further(count: Seq<u8>, text: Seq<u8>, have: int)
    requires
        complete_varint(count),
        integer_value(count) == text.len(),
        0 <= have < (count + text).len(),
    ensures
        text_read((count + text).take(have)) == Ok::<_, ScanErrorView>(
            if have < count.len() {
                StatusReadView::Integer
            } else {
                StatusReadView::Text((count.len() + text.len() - have) as nat)
            },
        ),
{
    let n = count.len() as int;
    let part = (count + text).take(have);
    if have < n {
        assert(part =~= count.take(have));
        law_varint_asks_for_every_byte(count, have);
    } else {
        let rest = text.take(have - n);
        assert(part =~= count + rest);
        law_complete_varint_is_read(count, rest);
    }
}

/// As long as a part is missing of what follows the length of an answer, a byte of
/// an integer is asked for, or exactly the rest of the text.
proof fn lemma_content_reads_no_further(id: Seq<u8>, count: Seq<u8>, text: Seq<u8>, have: int)
    requires
        complete_varint(id),
        complete_varint(count),
        integer_value(count) == text.len(),
        0 <= have < (id + (count + text)).len(),
    ensures
        ({
            let part = (id + (count + text)).take(have);
            behind_integer(part, text_read(after_varint(part))) == Ok::<_, ScanErrorView>(
                if have < id.len() + count.len() {
                    StatusReadView::Integer
                } else {
                    StatusReadView::Text((id.len() + count.len() + text.len() - have) as nat)
                },
            )
        }),
{
    let n = id.len() as int;
    let part = (id + (count + text)).take(have);
    if have < n {
        assert(part =~= id.take(have));
        law_varint_asks_for_every_byte(id, have);
    } else {
        let rest = (count + text).take(have - n);
        assert(part =~= id + rest);
        law_complete_varint_is_read(id, rest);
        lemma_text_reads_no_further(count, text, have - n);
    }
}

/// As long as a part of an answer is missing, more is asked for, and never more
/// than is missing: the answer is read to its end and no further. Its integers are
/// read byte by byte, and its text is asked for whole.
pub proof fn law_status_reads_no_further(
    len: Seq<u8>,
    id: Seq<u8>,
    count: Seq<u8>,
    text: Seq<u8>,
    have: int,
)
    requires
        complete_varint(len),
        complete_varint(id),
        complete_varint(count),
        integer_value(count) == text.len(),
        0 <= have < status_reply(len, id, count, text).len(),
    ensures
        status_read(status_reply(len, id, count, text).take(have)) matches Ok(read) && 0 < wanted(
            read,
        ) <= status_reply(len, id, count, text).len() - have,
        have < len.len() + id.len() + count.len() ==> status_read(
            status_reply(len, id, count, text).take(have),
        ) == Ok::<_, ScanErrorView>(StatusReadView::Integer),
        have >= len.len() + id.len() + count.len() ==> status_read(
            status_reply(len, id, count, text).take(have),
        ) == Ok::<_, ScanErrorView>(
            StatusReadView::Text((status_reply(len, id, count, text).len() - have) as nat),
        ),
{
    let n = len.len() as int;
    let part = status_reply(len, id, count, text).take(have);
    if have < n {
        assert(part =~= len.take(have));
        law_varint_asks_for_every_byte(len, have);
    } else {
        let rest = (id + (count + text)).take(have - n);
        assert(part =~= len + rest);
        law_complete_varint_is_read(len, rest);
        lemma_content_reads_no_further(id, count, text, have - n);
    }
}

/// An integer that goes on for too long is an error, whichever of the three it is
/// and whatever follows it.
pub proof fn law_status_integer_too_long(
    len: Seq<u8>,
    id: Seq<u8>,
    endless: Seq<u8>,
    more: Seq<u8>,
)
    requires
        complete_varint(len),
        complete_varint(id),
        endless.len() == 5,
        forall|i: int| 0 <= i < endless.len() ==> endless[i] >= 128,
    ensures
        status_read(endless + more) == Err::<StatusReadView, _>(ScanErrorView::VarintTooLong),
        status_read(len + (endless + more)) == Err::<StatusReadView, _>(
            ScanErrorView::VarintTooLong,
        ),
        status_read(len + (id + (endless + more))) == Err::<StatusReadView, _>(
            ScanErrorView::VarintTooLong,
        ),
{
    law_overlong_varint_is_read(endless, more);
    law_complete_varint_is_read(id, endless + more);
    law_complete_varint_is_read(len, endless + more);
    law_complete_varint_is_read(len, id + (endless + more));
}

/// A text of a negative length is told as such, whatever follows.
pub proof fn law_status_negative_length(
    len: Seq<u8>,
    id: Seq<u8>,
    count: Seq<u8>,
    more: Seq<u8>,
)
    requires
        complete_varint(len),
        complete_varint(id),
        complete_varint(count),
        integer_value(count) < 0,
    ensures
        status_read(len + (id + (count + more))) == Ok::<_, ScanErrorView>(
            StatusReadView::NegativeLength(integer_value(count)),
        ),
{
    law_complete_varint_is_read(count, more);
    law_complete_varint_is_read(id, count + more);
    law_complete_varint_is_read(len, id + (count + more));
}

/// What is known of an answer is what the reader says.
pub proof fn law_status_view(read: StatusRead)
    ensures
        read is Integer <==> read@ is Integer,
        read matches StatusRead::Text(n) ==> read@ == StatusReadView::Text(n as nat),
        read matches StatusRead::Complete(text) ==> read@ == StatusReadView::Complete(text@),
        read matches StatusRead::NegativeLength(n) ==> read@ == StatusReadView::NegativeLength(n),
{
}

} // verus!
