//! How a server authenticates players, told from its answers to a login that is
//! started and not gone through with.

use std::io::Read;

use flate2::read::ZlibDecoder;
use vstd::prelude::*;
use vstd::utf8::*;

use crate::error::{error_text, viewed, ScanError, ScanErrorView};
use crate::packet::{counted, law_counted_round_trip, law_string_round_trip};
use crate::text::{contains_text, has_part};
use crate::varint::{
    after_varint, complete_varint, integer_value, law_complete_varint_is_read,
    law_overlong_varint_is_read, law_truncated_varint_is_read, scan_varint, varint_bytes,
    varint_end, varint_value, VarintEnd,
};

verus! {

/// The mode of a server whose way to authenticate could not be found out.
pub const AUTH_UNKNOWN: i32 = -1;

/// The mode of a server that lets any player in.
pub const AUTH_CRACKED: i32 = 0;

/// The mode of a server that has its players checked.
pub const AUTH_PREMIUM: i32 = 1;

/// The mode of a server that turns unknown players away.
pub const AUTH_WHITELISTED: i32 = 2;

/// The error of a conversion from UTF-8, carried through unread.
#[verifier::external_type_specification]
#[verifier::external_body]
pub struct ExUtf8Error(core::str::Utf8Error);

/// `std::str::from_utf8` accepts valid UTF-8 and nothing else, and hands back
/// the text whose encoding the bytes are.
pub assume_specification[ core::str::from_utf8 ](v: &[u8]) -> (text: Result<
    &str,
    core::str::Utf8Error,
>)
    ensures
        text is Ok <==> valid_utf8(v@),
        text matches Ok(s) ==> encode_utf8(s@) == v@,
;

/// What `str::to_lowercase` makes of a text.
pub uninterp spec fn lowercased(s: Seq<char>) -> Seq<char>;

/// `str::to_lowercase` returns a text that depends on the given one alone.
pub assume_specification[ str::to_lowercase ](s: &str) -> (lower: String)
    ensures
        lower@ == lowercased(s@),
;

/// What the zlib stream at the front of `data` holds, or how the decoder's error
/// reads if there is no whole and sound one.
pub uninterp spec fn inflated(data: Seq<u8>) -> Result<Seq<u8>, Seq<char>>;

/// Reads a `flate2::read::ZlibDecoder` over `data` to its end. It yields the
/// content of the stream that `data` starts with, or an error if the stream is
/// corrupt or incomplete, which is handed on as its text: both depend on `data`
/// alone. Running out of memory is left out of account, as it is for every
/// allocation.
#[verifier::external_body]
fn inflate(data: &[u8]) -> (out: Result<Vec<u8>, String>)
    ensures
        match out {
            Ok(bytes) => inflated(data@) == Ok::<_, Seq<char>>(bytes@),
            Err(reason) => inflated(data@) == Err::<Seq<u8>, _>(reason@),
        },
{
    let mut decoder = ZlibDecoder::new(data);
    let mut out = Vec::new();
    match decoder.read_to_end(&mut out) {
        Ok(_) => Ok(out),
        Err(error) => Err(error.to_string()),
    }
}

/// The content of a packet, as it was sent.
#[derive(Debug, PartialEq, Eq)]
pub enum Envelope {
    /// The content itself.
    Plain(Vec<u8>),
    /// A zlib stream that holds the content.
    Deflated(Vec<u8>),
}

/// How the content of a packet was sent.
pub enum EnvelopeView {
    Plain(Seq<u8>),
    Deflated(Seq<u8>),
}

impl View for Envelope {
    type V = EnvelopeView;

    open spec fn view(&self) -> EnvelopeView {
        match self {
            Envelope::Plain(bytes) => EnvelopeView::Plain(bytes@),
            Envelope::Deflated(bytes) => EnvelopeView::Deflated(bytes@),
        }
    }
}

/// What is in a packet. Without compression (a negative threshold) it is the
/// content. With it, a length comes first: zero stands before content that was
/// not compressed, any other before a zlib stream.
pub open spec fn envelope(compression: i32, packet: Seq<u8>) -> Result<
    EnvelopeView,
    ScanErrorView,
> {
    if compression < 0 {
        Ok(EnvelopeView::Plain(packet))
    } else if varint_end(varint_bytes(packet)) == VarintEnd::Truncated {
        Err(ScanErrorView::BadCompressedPacket)
    } else if varint_value(packet) == 0 {
        Ok(EnvelopeView::Plain(after_varint(packet)))
    } else {
        Ok(EnvelopeView::Deflated(after_varint(packet)))
    }
}

/// What a packet means for the login.
#[derive(Clone, Copy, Debug, PartialEq, Eq, Structural)]
pub enum PacketEffect {
    /// Nothing: the next packet decides.
    Ignored,
    /// From now on packets are compressed above this threshold, or not at all if
    /// it is negative.
    Compression(i32),
    /// The server has shown this mode.
    Finished(i32),
}

/// What the content of a packet means: packet 0 is a refusal, 1 asks for
/// encryption, 2 lets the player in and 3 sets the compression threshold.
pub open spec fn content_effect(content: Seq<u8>) -> Result<PacketEffect, ScanErrorView> {
    if content.len() == 0 {
        Ok(PacketEffect::Ignored)
    } else if varint_end(varint_bytes(content)) == VarintEnd::Truncated {
        Err(ScanErrorView::BadPacket)
    } else {
        let id = varint_value(content);
        if id == 0 {
            Ok(PacketEffect::Finished(AUTH_WHITELISTED))
        } else if id == 1 {
            Ok(PacketEffect::Finished(AUTH_PREMIUM))
        } else if id == 2 {
            Ok(PacketEffect::Finished(AUTH_CRACKED))
        } else if id == 3 {
            Ok(PacketEffect::Compression(varint_value(after_varint(content))))
        } else {
            Ok(PacketEffect::Ignored)
        }
    }
}

/// What a compressed packet means whose stream gave `content`, or could not be
/// inflated for the reason given.
pub open spec fn inflated_effect(content: Result<Seq<u8>, Seq<char>>) -> Result<
    PacketEffect,
    ScanErrorView,
> {
    match content {
        Ok(bytes) => content_effect(bytes),
        Err(reason) => Err(ScanErrorView::Inflate(reason)),
    }
}

/// What a packet means.
pub open spec fn packet_effect(compression: i32, packet: Seq<u8>) -> Result<
    PacketEffect,
    ScanErrorView,
> {
    match envelope(compression, packet) {
        Err(error) => Err(error),
        Ok(EnvelopeView::Plain(content)) => content_effect(content),
        Ok(EnvelopeView::Deflated(stream)) => inflated_effect(inflated(stream)),
    }
}

/// The reason that a refusal gives, where there is a whole and readable one.
/// `rest` is what follows the packet's number.
pub open spec fn kick_reason(rest: Seq<u8>) -> Option<Seq<char>> {
    let len = varint_value(rest) as int;
    let body = after_varint(rest);
    if 0 < len <= body.len() && valid_utf8(body.take(len)) {
        Some(decode_utf8(body.take(len)))
    } else {
        None
    }
}

fn bytes_from(data: &[u8], start: usize) -> (bytes: Vec<u8>)
    requires
        start <= data@.len(),
    ensures
        bytes@ == data@.skip(start as int),
{
    let mut bytes: Vec<u8> = Vec::new();
    let mut i: usize = start;
    while i < data.len()
        invariant
            start <= i <= data.len(),
            bytes@ == data@.subrange(start as int, i as int),
        decreases data.len() - i,
    {
        bytes.push(data[i]);
        i = i + 1;
        assert(bytes@ =~= data@.subrange(start as int, i as int));
    }
    assert(bytes@ =~= data@.skip(start as int));
    bytes
}

/// Takes a packet out of what compression put around it.
pub fn open_packet(compression: i32, packet: Vec<u8>) -> (opened: Result<Envelope, ScanError>)
    ensures
        match opened {
            Ok(content) => envelope(compression, packet@) == Ok::<_, ScanErrorView>(content@),
            Err(error) => envelope(compression, packet@) == Err::<EnvelopeView, _>(error@),
        },
{
    if compression < 0 {
        return Ok(Envelope::Plain(packet));
    }
    let scan = scan_varint(&packet, 0);
    assert(packet@.skip(0) =~= packet@);
    if scan.stop == VarintEnd::Truncated {
        return Err(ScanError::BadCompressedPacket);
    }
    let content = bytes_from(&packet, scan.end);
    if scan.value == 0 {
        Ok(Envelope::Plain(content))
    } else {
        Ok(Envelope::Deflated(content))
    }
}

/// The reason that a refusal gives, read from `content` at `start`.
pub fn read_kick_reason(content: &[u8], start: usize) -> (reason: Option<String>)
    requires
        start <= content@.len(),
    ensures
        match reason {
            Some(text) => kick_reason(content@.skip(start as int)) == Some(text@),
            None => kick_reason(content@.skip(start as int)) is None,
        },
{
    let scan = scan_varint(content, start);
    let ghost rest = content@.skip(start as int);
    let ghost body = after_varint(rest);
    assert(body =~= content@.skip(scan.end as int));
    if scan.value > 0 && scan.value as usize <= content.len() - scan.end {
        let end: usize = scan.end + scan.value as usize;
        let bytes = vstd::slice::slice_subrange(content, scan.end, end);
        assert(bytes@ =~= body.take(scan.value as int));
        match core::str::from_utf8(bytes) {
            Ok(text) => {
                proof {
                    encode_utf8_decode_utf8(text@);
                }
                Some(text.to_owned())
            },
            Err(_) => None,
        }
    } else {
        None
    }
}

/// Whether a reason speaks of a whitelist, in letters of either case.
pub fn mentions_whitelist(reason: &str) -> (found: bool)
    ensures
        found == has_part(lowercased(reason@), "whitelist"@),
{
    contains_text(reason.to_lowercase().as_str(), "whitelist")
}

/// Decides what the content of a packet means.
pub fn interpret_content(content: &[u8]) -> (effect: Result<PacketEffect, ScanError>)
    ensures
        viewed(effect) == content_effect(content@),
{
    if content.len() == 0 {
        return Ok(PacketEffect::Ignored);
    }
    let scan = scan_varint(content, 0);
    assert(content@.skip(0) =~= content@);
    if scan.stop == VarintEnd::Truncated {
        return Err(ScanError::BadPacket);
    }
    match scan.value {
        0 => {
            if let Some(reason) = read_kick_reason(content, scan.end) {
                if mentions_whitelist(reason.as_str()) {
                    return Ok(PacketEffect::Finished(AUTH_WHITELISTED));
                }
            }
            // A refusal for any other reason counts the same.
            Ok(PacketEffect::Finished(AUTH_WHITELISTED))
        },
        1 => Ok(PacketEffect::Finished(AUTH_PREMIUM)),
        2 => Ok(PacketEffect::Finished(AUTH_CRACKED)),
        3 => Ok(PacketEffect::Compression(scan_varint(content, scan.end).value)),
        _ => Ok(PacketEffect::Ignored),
    }
}

/// Decides what a compressed packet means whose stream gave `content`, or could
/// not be inflated for the reason given.
pub fn interpret_inflated(content: Result<Vec<u8>, String>) -> (effect: Result<
    PacketEffect,
    ScanError,
>)
    ensures
        viewed(effect) == inflated_effect(
            match content {
                Ok(bytes) => Ok(bytes@),
                Err(reason) => Err(reason@),
            },
        ),
{
    match content {
        Ok(bytes) => interpret_content(&bytes),
        Err(reason) => Err(ScanError::Inflate(reason)),
    }
}

/// Decides what a packet means that came under a compression threshold.
pub fn interpret_packet(compression: i32, packet: Vec<u8>) -> (effect: Result<
    PacketEffect,
    ScanError,
>)
    ensures
        viewed(effect) == packet_effect(compression, packet@),
{
    match open_packet(compression, packet) {
        Ok(Envelope::Plain(content)) => interpret_content(&content),
        Ok(Envelope::Deflated(stream)) => interpret_inflated(inflate(&stream)),
        Err(error) => Err(error),
    }
}

/// Whether `s` is what a reader takes for the integer at the front of a packet: a
/// complete one, or five bytes none of which ends it.
pub open spec fn taken_whole(s: Seq<u8>) -> bool {
    complete_varint(s) || (s.len() == 5 && forall|i: int| 0 <= i < s.len() ==> s[i] >= 128)
}

proof fn lemma_taken_whole(s: Seq<u8>, rest: Seq<u8>)
    requires
        taken_whole(s),
    ensures
        s.len() > 0,
        varint_value(s + rest) == integer_value(s),
        after_varint(s + rest) == rest,
        varint_end(varint_bytes(s + rest)) != VarintEnd::Truncated,
{
    if complete_varint(s) {
        law_complete_varint_is_read(s, rest);
    } else {
        law_overlong_varint_is_read(s, rest);
    }
}

/// Without compression a packet is its content and means what that means, whatever
/// its length.
pub proof fn law_packet_without_compression(compression: i32, packet: Seq<u8>)
    requires
        compression < 0,
    ensures
        envelope(compression, packet) == Ok::<_, ScanErrorView>(EnvelopeView::Plain(packet)),
        packet_effect(compression, packet) == content_effect(packet),
{
}

/// With compression a packet is a length and what follows: the content itself if
/// the length is zero, and otherwise a stream that holds it. It means what the
/// content means, whatever that is, however long, and whatever the threshold.
pub proof fn law_packet_with_compression(compression: i32, len: Seq<u8>, rest: Seq<u8>)
    requires
        compression >= 0,
        taken_whole(len),
    ensures
        integer_value(len) == 0 ==> {
            &&& envelope(compression, len + rest) == Ok::<_, ScanErrorView>(
                EnvelopeView::Plain(rest),
            )
            &&& packet_effect(compression, len + rest) == content_effect(rest)
        },
        integer_value(len) != 0 ==> {
            &&& envelope(compression, len + rest) == Ok::<_, ScanErrorView>(
                EnvelopeView::Deflated(rest),
            )
            &&& inflated(rest) matches Ok(content) ==> packet_effect(compression, len + rest)
                == content_effect(content)
            &&& inflated(rest) matches Err(reason) ==> packet_effect(compression, len + rest)
                == Err::<PacketEffect, _>(ScanErrorView::Inflate(reason))
        },
{
    lemma_taken_whole(len, rest);
}

/// What the stream of a compressed packet gave means what it would mean alone, and
/// a stream that gave nothing is an error with the decoder's reason.
pub proof fn law_inflated_content(content: Seq<u8>, reason: Seq<char>)
    ensures
        inflated_effect(Ok(content)) == content_effect(content),
        inflated_effect(Err(reason)) == Err::<PacketEffect, _>(ScanErrorView::Inflate(reason)),
{
}

/// A packet that ends inside the integer at its front is an error, one of which
/// nothing is there at all is ignored, and with compression even that is an error.
pub proof fn law_cut_off_packet(compression: i32, packet: Seq<u8>)
    requires
        packet.len() < 5,
        forall|i: int| 0 <= i < packet.len() ==> packet[i] >= 128,
    ensures
        packet.len() > 0 ==> content_effect(packet) == Err::<PacketEffect, _>(
            ScanErrorView::BadPacket,
        ),
        packet.len() == 0 ==> content_effect(packet) == Ok::<_, ScanErrorView>(
            PacketEffect::Ignored,
        ),
        compression >= 0 ==> {
            &&& envelope(compression, packet) == Err::<EnvelopeView, _>(
                ScanErrorView::BadCompressedPacket,
            )
            &&& packet_effect(compression, packet) == Err::<PacketEffect, _>(
                ScanErrorView::BadCompressedPacket,
            )
        },
{
    law_truncated_varint_is_read(packet);
}

/// Once compression is on, a packet that is sent uncompressed, behind a zero
/// length, means what it meant before.
pub proof fn law_uncompressed_packet(compression: i32, len: Seq<u8>, content: Seq<u8>)
    requires
        compression >= 0,
        complete_varint(len),
        integer_value(len) == 0,
    ensures
        packet_effect(compression, len + content) == packet_effect(-1i32, content),
{
    law_complete_varint_is_read(len, content);
}

/// Once compression is on, a packet that is sent compressed, behind a length
/// that is not zero, means what the content of its stream means. If the stream
/// cannot be inflated, the error reads as the decoder's does.
pub proof fn law_compressed_packet(compression: i32, len: Seq<u8>, stream: Seq<u8>)
    requires
        compression >= 0,
        complete_varint(len),
        integer_value(len) != 0,
    ensures
        inflated(stream) matches Ok(content) ==> packet_effect(compression, len + stream)
            == packet_effect(-1i32, content),
        inflated(stream) matches Err(reason) ==> packet_effect(compression, len + stream) == Err::<
            PacketEffect,
            _,
        >(ScanErrorView::Inflate(reason)) && error_text(ScanErrorView::Inflate(reason)) == reason,
{
    law_complete_varint_is_read(len, stream);
}

/// The number at the front of a packet decides what it means: a refusal shows a
/// server that turns players away, a request for encryption one that has them
/// checked, and a success one that lets anybody in. Packet 3 carries a
/// compression threshold, and any other number means nothing.
pub proof fn law_packet_numbers(id: Seq<u8>, rest: Seq<u8>)
    requires
        taken_whole(id),
    ensures
        content_effect(id + rest) == Ok::<_, ScanErrorView>(
            match integer_value(id) {
                0 => PacketEffect::Finished(AUTH_WHITELISTED),
                1 => PacketEffect::Finished(AUTH_PREMIUM),
                2 => PacketEffect::Finished(AUTH_CRACKED),
                3 => PacketEffect::Compression(varint_value(rest)),
                _ => PacketEffect::Ignored,
            },
        ),
{
    lemma_taken_whole(id, rest);
}

/// A packet shows the mode of its number in whichever way it was sent: as it is
/// without compression, and with it behind a zero length or as a stream behind any
/// other. What follows the number is of no account, and neither is how much it is.
pub proof fn law_packet_shows_mode(
    threshold: i32,
    len: Seq<u8>,
    stream: Seq<u8>,
    id: Seq<u8>,
    rest: Seq<u8>,
)
    requires
        taken_whole(len),
        taken_whole(id),
        inflated(stream) == Ok::<_, Seq<char>>(id + rest),
    ensures
        ({
            let sent = if threshold < 0 {
                id + rest
            } else if integer_value(len) == 0 {
                len + (id + rest)
            } else {
                len + stream
            };
            let effect = packet_effect(threshold, sent);
            let number = integer_value(id);
            &&& number == 0 ==> effect == Ok::<_, ScanErrorView>(PacketEffect::Finished(2))
            &&& number == 1 ==> effect == Ok::<_, ScanErrorView>(PacketEffect::Finished(1))
            &&& number == 2 ==> effect == Ok::<_, ScanErrorView>(PacketEffect::Finished(0))
            &&& number == 3 ==> effect == Ok::<_, ScanErrorView>(
                PacketEffect::Compression(varint_value(rest)),
            )
            &&& number < 0 || number > 3 ==> effect == Ok::<_, ScanErrorView>(
                PacketEffect::Ignored,
            )
        }),
{
    law_packet_numbers(id, rest);
    if threshold < 0 {
        law_packet_without_compression(threshold, id + rest);
    } else if integer_value(len) == 0 {
        law_packet_with_compression(threshold, len, id + rest);
    } else {
        law_packet_with_compression(threshold, len, stream);
    }
}

/// Without compression a packet shows the mode of its number, whatever follows.
pub proof fn law_plain_packet_shows_mode(threshold: i32, id: Seq<u8>, rest: Seq<u8>)
    requires
        threshold < 0,
        taken_whole(id),
    ensures
        ({
            let effect = packet_effect(threshold, id + rest);
            let number = integer_value(id);
            &&& number == 0 ==> effect == Ok::<_, ScanErrorView>(PacketEffect::Finished(2))
            &&& number == 1 ==> effect == Ok::<_, ScanErrorView>(PacketEffect::Finished(1))
            &&& number == 2 ==> effect == Ok::<_, ScanErrorView>(PacketEffect::Finished(0))
            &&& number == 3 ==> effect == Ok::<_, ScanErrorView>(
                PacketEffect::Compression(varint_value(rest)),
            )
            &&& number < 0 || number > 3 ==> effect == Ok::<_, ScanErrorView>(
                PacketEffect::Ignored,
            )
        }),
{
    law_packet_numbers(id, rest);
    law_packet_without_compression(threshold, id + rest);
}

/// A compression threshold takes effect as it was sent.
pub proof fn law_threshold_is_read(id: Seq<u8>, threshold: Seq<u8>, rest: Seq<u8>)
    requires
        complete_varint(id),
        integer_value(id) == 3,
        complete_varint(threshold),
    ensures
        content_effect(id + (threshold + rest)) == Ok::<_, ScanErrorView>(
            PacketEffect::Compression(integer_value(threshold)),
        ),
{
    law_packet_numbers(id, threshold + rest);
    law_complete_varint_is_read(threshold, rest);
}

/// The reason of a refusal is read back as it was written, if it is not empty.
pub proof fn law_kick_reason_round_trip(reason: Seq<char>, rest: Seq<u8>)
    requires
        0 < reason.len(),
        encode_utf8(reason).len() <= i32::MAX,
    ensures
        kick_reason(counted(encode_utf8(reason)) + rest) == Some(reason),
{
    law_string_round_trip(reason, rest);
    law_counted_round_trip(encode_utf8(reason), rest);
    assert(encode_utf8(reason).len() > 0);
}

/// A refusal gives the reason that stands behind its length, if that is positive,
/// the whole of it is there, and it is text. Otherwise it gives none.
pub proof fn law_kick_reason(count: Seq<u8>, body: Seq<u8>)
    requires
        taken_whole(count),
    ensures
        ({
            let n = integer_value(count) as int;
            let reason = kick_reason(count + body);
            &&& n <= 0 || n > body.len() ==> reason is None
            &&& 0 < n <= body.len() ==> {
                &&& reason is Some <==> valid_utf8(body.take(n))
                &&& reason matches Some(text) ==> encode_utf8(text) == body.take(n)
            }
        }),
{
    lemma_taken_whole(count, body);
    let n = integer_value(count) as int;
    if 0 < n <= body.len() && valid_utf8(body.take(n)) {
        decode_utf8_encode_utf8(body.take(n));
    }
}

/// A refusal that ends inside the length of its reason gives none.
pub proof fn law_kick_reason_cut_off(count: Seq<u8>)
    requires
        count.len() < 5,
        forall|i: int| 0 <= i < count.len() ==> count[i] >= 128,
    ensures
        kick_reason(count) is None,
{
    law_truncated_varint_is_read(count);
}

/// How a packet was sent is seen as it is.
pub proof fn law_envelope_view(sent: Envelope)
    ensures
        sent matches Envelope::Plain(bytes) ==> sent@ == EnvelopeView::Plain(bytes@),
        sent matches Envelope::Deflated(bytes) ==> sent@ == EnvelopeView::Deflated(bytes@),
{
}

} // verus!
