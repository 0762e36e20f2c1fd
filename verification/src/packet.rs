//! The packets that are sent to a server.

use vstd::prelude::*;
use vstd::utf8::*;

use crate::uuid::{
    law_uuid_round_trip, parse_uuid, spells, uuid_bytes, uuid_readable, without_dashes,
};
use crate::varint::{
    after_varint, bits_of, encode_varint, law_bits_of, law_complete_varint_is_read,
    law_varint_is_complete, law_varint_round_trip, varint, varint_bytes, varint_value,
};

verus! {

/// The protocol version that a status handshake names, so that the server tells
/// its own.
pub const MAX_PROTOCOL_VERSION: i32 = 800;

/// The oldest protocol version whose login can be followed.
pub const MIN_PROTOCOL_VERSION: i32 = 47;

/// `bytes` behind their count, which is carried as its low 32 bits.
pub open spec fn counted(bytes: Seq<u8>) -> Seq<u8> {
    varint(bytes.len() % 0x1_0000_0000) + bytes
}

/// The two bytes of `n`, the high one first.
pub open spec fn big_endian(n: u16) -> Seq<u8> {
    seq![(n / 256) as u8, (n % 256) as u8]
}

/// The content of a handshake.
pub open spec fn handshake_data(host: Seq<char>, port: u16, next_state: i32, protocol: i32) -> Seq<
    u8,
> {
    varint(0) + varint(bits_of(protocol)) + counted(encode_utf8(host)) + big_endian(port) + varint(
        bits_of(next_state),
    )
}

/// What a login says of the player's identifier, which depends on the version
/// of the protocol.
pub open spec fn login_identity(uuid: Seq<char>, protocol: int) -> Seq<u8> {
    if protocol < 759 {
        seq![]
    } else if protocol == 759 {
        // no signature
        seq![0u8]
    } else if protocol == 760 {
        // no signature, an identifier
        seq![0u8, 1u8] + uuid_bytes(uuid)
    } else if protocol <= 763 {
        // an identifier
        seq![1u8] + uuid_bytes(uuid)
    } else {
        uuid_bytes(uuid)
    }
}

/// The content of the packet that starts a login.
pub open spec fn login_data(username: Seq<char>, uuid: Seq<char>, protocol: int) -> Seq<u8> {
    varint(0) + counted(encode_utf8(username)) + login_identity(uuid, protocol)
}

fn append(to: &mut Vec<u8>, bytes: &[u8])
    ensures
        final(to)@ == old(to)@ + bytes@,
{
    to.extend_from_slice(bytes);
    assert(to@ =~= old(to)@ + bytes@);
}

/// `bytes` behind their count.
fn prepend_count(bytes: &[u8]) -> (buf: Vec<u8>)
    ensures
        buf@ == counted(bytes@),
{
    let n: u64 = bytes.len() as u64;
    let count: i32 = n as i32;
    proof {
        assert((n as i32) as u32 == n % 0x1_0000_0000) by (bit_vector);
        law_bits_of(count);
    }
    let mut buf = encode_varint(count);
    append(&mut buf, bytes);
    buf
}

/// A text field: the count of its UTF-8 bytes, and the bytes.
pub fn encode_string(text: &str) -> (buf: Vec<u8>)
    ensures
        buf@ == counted(encode_utf8(text@)),
{
    prepend_count(text.as_bytes())
}

/// The first packet of a connection: which host and port were asked for, in
/// which version of the protocol, and what is to follow (`1` a status request,
/// `2` a login).
pub fn create_handshake_packet(host: &str, port: u16, next_state: i32, protocol: i32) -> (packet:
    Vec<u8>)
    ensures
        packet@ == counted(handshake_data(host@, port, next_state, protocol)),
{
    let mut data = encode_varint(0x00);
    append(&mut data, &encode_varint(protocol));
    append(&mut data, &encode_string(host));
    data.push((port / 256) as u8);
    data.push((port % 256) as u8);
    append(&mut data, &encode_varint(next_state));
    assert(data@ =~= handshake_data(host@, port, next_state, protocol));
    prepend_count(&data)
}

/// The packet that asks for the status.
pub fn create_status_request() -> (packet: Vec<u8>)
    ensures
        packet@ == counted(varint(0)),
{
    let packet: Vec<u8> = vec![0x01, 0x00];
    assert(packet@ =~= counted(varint(0)));
    packet
}

/// The packet that starts a login. Protocols up to 758 send the name alone, 759
/// adds that there is no signature, 760 that there is none and an identifier,
/// 761 to 763 that there is an identifier, and later ones always send it.
pub fn create_login_start(username: &str, uuid: &str, protocol: i32) -> (packet: Vec<u8>)
    requires
        protocol >= 760 ==> uuid_readable(uuid@),
    ensures
        packet@ == counted(login_data(username@, uuid@, protocol as int)),
{
    let mut data = encode_varint(0x00);
    append(&mut data, &encode_string(username));
    let ghost named = data@;
    if protocol == 759 {
        data.push(0x00);
    } else if protocol == 760 {
        data.push(0x00);
        data.push(0x01);
        append(&mut data, &parse_uuid(uuid));
    } else if protocol >= 761 && protocol <= 763 {
        data.push(0x01);
        append(&mut data, &parse_uuid(uuid));
    } else if protocol >= 764 {
        append(&mut data, &parse_uuid(uuid));
    }
    assert(data@ =~= named + login_identity(uuid@, protocol as int));
    prepend_count(&data)
}

/// Counted bytes are read back: the count is their number, and they stand right
/// behind it. The value of a count above the largest 32-bit integer is negative;
/// its bits are still the number.
pub proof fn law_counted_round_trip(bytes: Seq<u8>, rest: Seq<u8>)
    requires
        bytes.len() <= u32::MAX,
    ensures
        varint_bytes(counted(bytes) + rest) == varint(bytes.len()),
        bits_of(varint_value(counted(bytes) + rest)) == bytes.len(),
        bytes.len() <= i32::MAX ==> varint_value(counted(bytes) + rest) == bytes.len(),
        after_varint(counted(bytes) + rest) == bytes + rest,
        (bytes + rest).take(bytes.len() as int) == bytes,
        (bytes + rest).skip(bytes.len() as int) == rest,
{
    let count = varint(bytes.len());
    law_varint_is_complete(bytes.len());
    law_complete_varint_is_read(count, bytes + rest);
    assert(counted(bytes) + rest =~= count + (bytes + rest));
    assert((bytes + rest).take(bytes.len() as int) =~= bytes);
    assert((bytes + rest).skip(bytes.len() as int) =~= rest);
}

/// Bytes of any number stand behind the low 32 bits of it.
pub proof fn law_counted_low_bits(bytes: Seq<u8>, low: nat)
    requires
        low <= u32::MAX,
        (bytes.len() - low) % 0x1_0000_0000 == 0,
    ensures
        counted(bytes) == varint(low) + bytes,
{
    assert(bytes.len() % 0x1_0000_0000 == low);
}

/// A text field is read back as the text it was written from.
pub proof fn law_string_round_trip(text: Seq<char>, rest: Seq<u8>)
    requires
        encode_utf8(text).len() <= u32::MAX,
    ensures
        ({
            let field = counted(encode_utf8(text)) + rest;
            let n = bits_of(varint_value(field)) as int;
            &&& varint_bytes(field) == varint(encode_utf8(text).len())
            &&& n == encode_utf8(text).len()
            &&& after_varint(field).take(n) == encode_utf8(text)
            &&& valid_utf8(after_varint(field).take(n))
            &&& decode_utf8(after_varint(field).take(n)) == text
            &&& after_varint(field).skip(n) == rest
        }),
{
    law_counted_round_trip(encode_utf8(text), rest);
    encode_utf8_valid_utf8(text);
    encode_utf8_decode_utf8(text);
}

/// A server that takes a handshake apart finds in it, in this order and with
/// nothing behind: the length of the rest, the packet's number, the protocol
/// version, the host name, the port and the next state. Every integer is in as few
/// bytes as can be.
pub proof fn law_handshake_round_trip(host: Seq<char>, port: u16, next_state: i32, protocol: i32)
    requires
        handshake_data(host, port, next_state, protocol).len() <= u32::MAX,
    ensures
        ({
            let data = handshake_data(host, port, next_state, protocol);
            let packet = counted(data);
            let at_id = after_varint(packet);
            let at_protocol = after_varint(at_id);
            let at_host = after_varint(at_protocol);
            let host_len = bits_of(varint_value(at_host)) as int;
            let at_port = after_varint(at_host).skip(host_len);
            let at_state = at_port.skip(2);
            &&& bits_of(varint_value(packet)) == data.len()
            &&& varint_bytes(packet) == varint(data.len())
            &&& at_id == data
            &&& varint_value(at_id) == 0
            &&& varint_bytes(at_id) == varint(0)
            &&& varint_value(at_protocol) == protocol
            &&& varint_bytes(at_protocol) == varint(bits_of(protocol))
            &&& host_len == encode_utf8(host).len()
            &&& varint_bytes(at_host) == varint(encode_utf8(host).len())
            &&& decode_utf8(after_varint(at_host).take(host_len)) == host
            &&& at_port[0] * 256 + at_port[1] == port
            &&& varint_value(at_state) == next_state
            &&& varint_bytes(at_state) == varint(bits_of(next_state))
            &&& after_varint(at_state).len() == 0
        }),
{
    let data = handshake_data(host, port, next_state, protocol);
    let none = Seq::<u8>::empty();
    law_counted_round_trip(data, none);
    assert(counted(data) + none =~= counted(data));
    assert(data + none =~= data);
    let from_state = varint(bits_of(next_state)) + none;
    let from_port = big_endian(port) + from_state;
    let from_host = counted(encode_utf8(host)) + from_port;
    let from_protocol = varint(bits_of(protocol)) + from_host;
    assert(data =~= varint(0) + from_protocol);
    law_varint_round_trip(0, from_protocol);
    law_varint_round_trip(protocol, from_host);
    law_string_round_trip(host, from_port);
    assert(from_port.skip(2) =~= from_state);
    law_varint_round_trip(next_state, none);
}

/// A server that takes the start of a login apart finds in it, in this order,
/// the length of the rest, the packet's number, the player's name and what the
/// protocol version says of the identifier.
pub proof fn law_login_round_trip(username: Seq<char>, uuid: Seq<char>, protocol: int)
    requires
        login_data(username, uuid, protocol).len() <= u32::MAX,
    ensures
        ({
            let data = login_data(username, uuid, protocol);
            let packet = counted(data);
            let at_id = after_varint(packet);
            let at_name = after_varint(at_id);
            let name_len = bits_of(varint_value(at_name)) as int;
            &&& bits_of(varint_value(packet)) == data.len()
            &&& varint_bytes(packet) == varint(data.len())
            &&& at_id == data
            &&& varint_value(at_id) == 0
            &&& varint_bytes(at_id) == varint(0)
            &&& name_len == encode_utf8(username).len()
            &&& varint_bytes(at_name) == varint(encode_utf8(username).len())
            &&& decode_utf8(after_varint(at_name).take(name_len)) == username
            &&& after_varint(at_name).skip(name_len) == login_identity(uuid, protocol)
        }),
{
    let data = login_data(username, uuid, protocol);
    let none = Seq::<u8>::empty();
    law_counted_round_trip(data, none);
    assert(counted(data) + none =~= counted(data));
    assert(data + none =~= data);
    let from_name = counted(encode_utf8(username)) + login_identity(uuid, protocol);
    assert(data =~= varint(0) + from_name);
    law_varint_round_trip(0, from_name);
    law_string_round_trip(username, login_identity(uuid, protocol));
}

/// What stands in the start of a login behind the player's name: nothing in
/// versions before 759, a zero in 759, a zero, a one and the identifier in 760, a
/// one and the identifier in 761 to 763, and the identifier alone in every later
/// version. `id` is the identifier's bytes, which its text spells.
pub proof fn law_login_by_version(
    username: Seq<char>,
    uuid: Seq<char>,
    id: Seq<u8>,
    protocol: int,
)
    requires
        login_data(username, uuid, protocol).len() <= u32::MAX,
        id == uuid_bytes(uuid) || spells(without_dashes(uuid), id),
    ensures
        ({
            let packet = counted(login_data(username, uuid, protocol));
            let at_name = after_varint(after_varint(packet));
            let behind = after_varint(at_name).skip(encode_utf8(username).len() as int);
            &&& protocol < 759 ==> behind.len() == 0
            &&& protocol == 759 ==> behind == seq![0u8]
            &&& protocol == 760 ==> behind == seq![0u8, 1u8] + id
            &&& 761 <= protocol <= 763 ==> behind == seq![1u8] + id
            &&& protocol >= 764 ==> behind == id
        }),
{
    law_login_round_trip(username, uuid, protocol);
    if id != uuid_bytes(uuid) {
        law_uuid_round_trip(uuid, id);
    }
}

} // verus!
