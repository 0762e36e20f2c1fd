//! Variable-length integers: seven bits to a byte, least significant group
//! first, the high bit set on every byte but the last.

use vstd::prelude::*;

verus! {

/// The longest run of bytes that a reader takes for one integer.
pub const MAX_VARINT_LEN: usize = 5;

/// The bytes that stand for `v`.
pub open spec fn varint(v: nat) -> Seq<u8>
    decreases v,
{
    if v < 128 {
        seq![v as u8]
    } else {
        seq![(128 + v % 128) as u8] + varint(v / 128)
    }
}

/// The number that the low seven bits of the bytes of `s` spell.
pub open spec fn base128(s: Seq<u8>) -> nat
    decreases s.len(),
{
    if s.len() == 0 {
        0
    } else {
        (s[0] % 128) as nat + 128 * base128(s.drop_first())
    }
}

/// The 32-bit two's complement reading of the low 32 bits of `n`.
pub open spec fn low_i32(n: nat) -> i32 {
    let low = n % 0x1_0000_0000;
    if low < 0x8000_0000 {
        low as i32
    } else {
        (low - 0x1_0000_0000) as i32
    }
}

/// The 32 bits of `v` as a number that is not negative.
pub open spec fn bits_of(v: i32) -> nat {
    if v >= 0 {
        v as nat
    } else {
        (v + 0x1_0000_0000) as nat
    }
}

/// How many bytes of `s` a reader takes that stops after a byte without the
/// high bit, after `limit` bytes, or where `s` ends.
pub open spec fn varint_span(s: Seq<u8>, limit: nat) -> nat
    decreases limit,
{
    if limit == 0 || s.len() == 0 {
        0
    } else if s[0] < 128 {
        1
    } else {
        1 + varint_span(s.drop_first(), (limit - 1) as nat)
    }
}

/// Why a reader stopped.
#[derive(Clone, Copy, Debug, PartialEq, Eq, Structural)]
pub enum VarintEnd {
    /// The last byte read had its high bit clear.
    Terminated,
    /// The data ended in the middle of the integer.
    Truncated,
    /// The last byte that an integer may have still had its high bit set.
    Overlong,
}

/// What a reader found at a place in some data.
#[derive(Clone, Copy, Debug, PartialEq, Eq, Structural)]
pub struct VarintScan {
    /// The value of the bytes read, whatever made the reader stop.
    pub value: i32,
    /// The position behind the last byte read.
    pub end: usize,
    /// Why the reader stopped there.
    pub stop: VarintEnd,
}

/// The bytes that a reader takes from the front of `s`.
pub open spec fn varint_bytes(s: Seq<u8>) -> Seq<u8> {
    s.take(varint_span(s, MAX_VARINT_LEN as nat) as int)
}

/// Why a reader stops that took `taken`.
pub open spec fn varint_end(taken: Seq<u8>) -> VarintEnd {
    if taken.len() > 0 && taken.last() < 128 {
        VarintEnd::Terminated
    } else if taken.len() < MAX_VARINT_LEN {
        VarintEnd::Truncated
    } else {
        VarintEnd::Overlong
    }
}

/// The value that a reader makes of the front of `s`.
pub open spec fn varint_value(s: Seq<u8>) -> i32 {
    integer_value(varint_bytes(s))
}

/// What follows the bytes that a reader takes from the front of `s`.
pub open spec fn after_varint(s: Seq<u8>) -> Seq<u8> {
    s.skip(varint_bytes(s).len() as int)
}

/// Whether `s` is an integer and no more: up to five bytes, of which only the last
/// has its high bit clear. It need not be the shortest one of its value.
pub open spec fn complete_varint(s: Seq<u8>) -> bool {
    &&& 0 < s.len() <= MAX_VARINT_LEN
    &&& s.last() < 128
    &&& forall|i: int| 0 <= i < s.len() - 1 ==> s[i] >= 128
}

/// The value of a complete integer.
pub open spec fn integer_value(s: Seq<u8>) -> i32 {
    low_i32(base128(s))
}

/// What the bytes of an integer received so far amount to.
#[derive(Clone, Copy, Debug, PartialEq, Eq, Structural)]
pub enum VarintRead {
    /// Another byte is needed.
    More,
    /// The integer is complete.
    Done(i32),
    /// No integer is this long.
    TooLong,
}

/// What a reader that got `s` so far knows.
pub open spec fn varint_read(s: Seq<u8>) -> VarintRead {
    match varint_end(varint_bytes(s)) {
        VarintEnd::Terminated => VarintRead::Done(varint_value(s)),
        VarintEnd::Truncated => VarintRead::More,
        VarintEnd::Overlong => VarintRead::TooLong,
    }
}

/// `128` to the power `k`.
spec fn weight(k: nat) -> nat
    decreases k,
{
    if k == 0 {
        1
    } else {
        128 * weight((k - 1) as nat)
    }
}

proof fn lemma_weights()
    ensures
        weight(0) == 1,
        weight(1) == 0x80,
        weight(2) == 0x4000,
        weight(3) == 0x20_0000,
        weight(4) == 0x1000_0000,
        weight(5) == 0x8_0000_0000,
{
    reveal_with_fuel(weight, 6);
}

proof fn lemma_base128_push(s: Seq<u8>, b: u8)
    ensures
        base128(s.push(b)) == base128(s) + (b % 128) * weight(s.len()),
    decreases s.len(),
{
    if s.len() == 0 {
        assert(s.push(b).drop_first() =~= Seq::<u8>::empty());
        assert(base128(s.push(b).drop_first()) == 0);
        assert((b % 128) * weight(0) == b % 128) by (nonlinear_arith)
            requires
                weight(0) == 1,
        ;
    } else {
        let rest = s.drop_first();
        lemma_base128_push(rest, b);
        assert(s.push(b).drop_first() =~= rest.push(b));
        let d: int = (b % 128) as int;
        let w: int = weight(rest.len()) as int;
        assert(128 * (d * w) == d * (128 * w)) by (nonlinear_arith);
    }
}

proof fn lemma_base128_bound(s: Seq<u8>)
    ensures
        base128(s) < weight(s.len()),
    decreases s.len(),
{
    if s.len() > 0 {
        lemma_base128_bound(s.drop_first());
    }
}

proof fn lemma_low_i32(n: nat, r: u32)
    requires
        r == n % 0x1_0000_0000,
    ensures
        r as i32 == low_i32(n),
{
    assert(r < 0x8000_0000 ==> r as i32 == r) by (bit_vector);
    assert(r >= 0x8000_0000 ==> r as i32 == r - 0x1_0000_0000) by (bit_vector);
}

/// The bits of one more byte are laid above those collected so far.
proof fn lemma_add_group(taken: Seq<u8>, b: u8, result: u32)
    requires
        taken.len() < MAX_VARINT_LEN,
        result == base128(taken),
    ensures
        (result | (((b & 0x7f) as u32) << (7 * taken.len()) as u32)) == base128(taken.push(b))
            % 0x1_0000_0000,
        taken.len() < 4 ==> base128(taken.push(b)) < 0x1_0000_0000,
{
    lemma_weights();
    lemma_base128_push(taken, b);
    lemma_base128_bound(taken);
    lemma_base128_bound(taken.push(b));
    let x: u32 = (b & 0x7f) as u32;
    assert((b & 0x7f) == b % 128) by (bit_vector);
    assert(x < 128);
    if taken.len() == 0 {
        assert(result < 1 && x < 128 ==> (result | (x << 0u32)) == result + x) by (bit_vector);
    } else if taken.len() == 1 {
        assert(result < 0x80 && x < 128 ==> (result | (x << 7u32)) == result + x * 0x80)
            by (bit_vector);
    } else if taken.len() == 2 {
        assert(result < 0x4000 && x < 128 ==> (result | (x << 14u32)) == result + x * 0x4000)
            by (bit_vector);
    } else if taken.len() == 3 {
        assert(result < 0x20_0000 && x < 128 ==> (result | (x << 21u32)) == result + x * 0x20_0000)
            by (bit_vector);
    } else {
        assert(result < 0x1000_0000 && x < 128 ==> (result | (x << 28u32)) == (result + x
            * 0x1000_0000) % 0x1_0000_0000) by (bit_vector);
    }
}

/// The bits of a number are what a cast keeps of it, and its value is what they
/// are read back as.
pub proof fn law_bits_of(v: i32)
    ensures
        v as u32 == bits_of(v),
        low_i32(bits_of(v)) == v,
{
    assert(v >= 0 ==> v as u32 == v) by (bit_vector);
    assert(v < 0 ==> v as u32 == v + 0x1_0000_0000) by (bit_vector);
}

/// The bytes that stand for `val`: the groups of its 32 bits, so that a negative
/// number has five.
pub fn encode_varint(val: i32) -> (buf: Vec<u8>)
    ensures
        buf@ == varint(bits_of(val)),
{
    let mut rest: u32 = val as u32;
    let mut buf: Vec<u8> = Vec::new();
    proof {
        law_bits_of(val);
    }
    loop
        invariant_except_break
            varint(bits_of(val)) == buf@ + varint(rest as nat),
        ensures
            buf@ == varint(bits_of(val)),
        decreases rest,
    {
        assert((rest & 0x7F) == rest % 128) by (bit_vector);
        assert((rest >> 7) == rest / 128) by (bit_vector);
        let mut byte: u8 = (rest & 0x7F) as u8;
        let ghost before: u32 = rest;
        let ghost sent = buf@;
        rest = rest >> 7;
        if rest != 0 {
            assert(byte < 128 ==> (byte | 0x80) == 128 + byte) by (bit_vector);
            byte = byte | 0x80;
        }
        buf.push(byte);
        if rest == 0 {
            assert(buf@ =~= sent + varint(before as nat));
            break;
        }
        assert(buf@ + varint(rest as nat) =~= sent + varint(before as nat));
    }
    buf
}

/// Reads an integer from `data` at `start`: bytes up to and including the first
/// one whose high bit is clear, five at most, and no further than the data goes.
pub fn scan_varint(data: &[u8], start: usize) -> (scan: VarintScan)
    requires
        start <= data@.len(),
    ensures
        ({
            let rest = data@.skip(start as int);
            let taken = varint_bytes(rest);
            &&& scan.end == start + taken.len()
            &&& scan.end <= data@.len()
            &&& scan.value == varint_value(rest)
            &&& scan.stop == varint_end(taken)
        }),
{
    let mut result: u32 = 0;
    let mut shift: u32 = 0;
    let mut pos: usize = start;
    let ghost rest = data@.skip(start as int);
    let ghost mut taken: Seq<u8> = Seq::empty();
    assert(rest.skip(0) =~= rest);
    while pos < data.len() && shift < 35
        invariant
            start <= pos <= data@.len(),
            rest == data@.skip(start as int),
            taken == rest.take((pos - start) as int),
            taken.len() == pos - start,
            shift == 7 * taken.len(),
            taken.len() <= MAX_VARINT_LEN,
            taken.len() < MAX_VARINT_LEN ==> result == base128(taken),
            result == base128(taken) % 0x1_0000_0000,
            forall|i: int| 0 <= i < taken.len() ==> taken[i] >= 128,
            varint_span(rest, MAX_VARINT_LEN as nat) == taken.len() + varint_span(
                rest.skip(taken.len() as int),
                (MAX_VARINT_LEN - taken.len()) as nat,
            ),
        decreases data@.len() - pos,
    {
        let b: u8 = data[pos];
        proof {
            lemma_add_group(taken, b, result);
        }
        result = result | (((b & 0x7F) as u32) << shift);
        pos = pos + 1;
        shift = shift + 7;
        proof {
            let tail = rest.skip(taken.len() as int);
            assert(tail[0] == b);
            assert(tail.drop_first() =~= rest.skip(taken.len() as int + 1));
            taken = taken.push(b);
            assert(taken =~= rest.take((pos - start) as int));
        }
        assert(b & 0x80 == 0 <==> b < 128) by (bit_vector);
        if b & 0x80 == 0 {
            proof {
                lemma_low_i32(base128(taken), result);
            }
            return VarintScan { value: result as i32, end: pos, stop: VarintEnd::Terminated };
        }
    }
    proof {
        lemma_low_i32(base128(taken), result);
    }
    let stop = if shift < 35 {
        VarintEnd::Truncated
    } else {
        VarintEnd::Overlong
    };
    VarintScan { value: result as i32, end: pos, stop }
}

/// Decides what the bytes of an integer received so far amount to.
pub fn read_varint(received: &[u8]) -> (read: VarintRead)
    ensures
        read == varint_read(received@),
{
    let scan = scan_varint(received, 0);
    assert(received@.skip(0) =~= received@);
    match scan.stop {
        VarintEnd::Terminated => VarintRead::Done(scan.value),
        VarintEnd::Truncated => VarintRead::More,
        VarintEnd::Overlong => VarintRead::TooLong,
    }
}

proof fn lemma_base128_of_varint(v: nat)
    ensures
        base128(varint(v)) == v,
    decreases v,
{
    if v < 128 {
        assert(varint(v).drop_first() =~= Seq::<u8>::empty());
        assert(base128(varint(v).drop_first()) == 0);
    } else {
        lemma_base128_of_varint(v / 128);
        assert(varint(v).drop_first() =~= varint(v / 128));
    }
}

/// The encoding of `v` has as many bytes as it has groups.
proof fn lemma_varint_len(v: nat, limit: nat)
    requires
        0 < limit,
        v < weight(limit),
    ensures
        0 < varint(v).len() <= limit,
        varint(v).last() < 128,
        forall|i: int| 0 <= i < varint(v).len() - 1 ==> varint(v)[i] >= 128,
    decreases v,
{
    if v >= 128 {
        reveal_with_fuel(weight, 2);
        lemma_varint_len(v / 128, (limit - 1) as nat);
    }
}

/// Bytes that all ask for more leave a reader with room wanting more.
proof fn lemma_span_of_open(s: Seq<u8>, limit: nat)
    requires
        forall|i: int| 0 <= i < s.len() ==> s[i] >= 128,
        s.len() <= limit,
    ensures
        varint_span(s, limit) == s.len(),
    decreases limit,
{
    if s.len() > 0 {
        lemma_span_of_open(s.drop_first(), (limit - 1) as nat);
    }
}

/// A reader takes the whole of an integer for which it has room.
proof fn lemma_span_of_complete(s: Seq<u8>, rest: Seq<u8>, limit: nat)
    requires
        0 < s.len() <= limit,
        s.last() < 128,
        forall|i: int| 0 <= i < s.len() - 1 ==> s[i] >= 128,
    ensures
        varint_span(s + rest, limit) == s.len(),
    decreases limit,
{
    if s.len() > 1 {
        lemma_span_of_complete(s.drop_first(), rest, (limit - 1) as nat);
        assert((s + rest).drop_first() =~= s.drop_first() + rest);
    }
}

proof fn lemma_span_within(s: Seq<u8>, limit: nat)
    ensures
        varint_span(s, limit) <= s.len(),
        varint_span(s, limit) <= limit,
    decreases limit,
{
    if limit > 0 && s.len() > 0 {
        lemma_span_within(s.drop_first(), (limit - 1) as nat);
    }
}

/// A reader that did not run out of data does not see what follows.
proof fn lemma_span_extends(s: Seq<u8>, more: Seq<u8>, limit: nat)
    requires
        ({
            let n = varint_span(s, limit);
            n == limit || (0 < n && s[n - 1] < 128)
        }),
    ensures
        varint_span(s + more, limit) == varint_span(s, limit),
    decreases limit,
{
    if limit > 0 && s.len() > 0 && s[0] >= 128 {
        lemma_span_within(s.drop_first(), (limit - 1) as nat);
        lemma_span_extends(s.drop_first(), more, (limit - 1) as nat);
        assert((s + more).drop_first() =~= s.drop_first() + more);
    }
}

/// The seven bits that byte `i` of `s` carries, or none behind its end.
pub open spec fn group(s: Seq<u8>, i: int) -> int {
    if 0 <= i < s.len() {
        (s[i] % 128) as int
    } else {
        0
    }
}

/// The number that up to five groups make, the first the least significant.
pub open spec fn grouped(s: Seq<u8>) -> int {
    group(s, 0) + 0x80 * group(s, 1) + 0x4000 * group(s, 2) + 0x20_0000 * group(s, 3) + 0x1000_0000
        * group(s, 4)
}

proof fn lemma_base128_groups(s: Seq<u8>)
    requires
        s.len() <= 5,
    ensures
        base128(s) == grouped(s),
{
    let s1 = s.drop_first();
    let s2 = s1.drop_first();
    let s3 = s2.drop_first();
    let s4 = s3.drop_first();
    reveal_with_fuel(base128, 6);
    if s.len() > 4 {
        assert(s4[0] == s[4]);
    }
    if s.len() > 3 {
        assert(s3[0] == s[3]);
    }
    if s.len() > 2 {
        assert(s2[0] == s[2]);
    }
    if s.len() > 1 {
        assert(s1[0] == s[1]);
    }
}

/// The value of an integer is the 32-bit number whose bits are the groups of its
/// bytes, the first the least significant; what goes beyond 32 bits is lost.
pub proof fn law_integer_by_groups(s: Seq<u8>)
    requires
        s.len() <= 5,
    ensures
        (integer_value(s) - grouped(s)) % 0x1_0000_0000 == 0,
{
    lemma_base128_groups(s);
}

proof fn lemma_span_shape(s: Seq<u8>, limit: nat)
    ensures
        ({
            let n = varint_span(s, limit) as int;
            &&& n <= s.len()
            &&& n <= limit
            &&& forall|i: int| 0 <= i < n - 1 ==> s[i] >= 128
            &&& n == s.len() || n == limit || (n > 0 && s[n - 1] < 128)
        }),
    decreases limit,
{
    if limit > 0 && s.len() > 0 && s[0] >= 128 {
        let rest = s.drop_first();
        lemma_span_shape(rest, (limit - 1) as nat);
        let n = varint_span(s, limit) as int;
        assert forall|i: int| 0 <= i < n - 1 implies s[i] >= 128 by {
            if i > 0 {
                assert(s[i] == rest[i - 1]);
            }
        }
        if n > 1 {
            assert(s[n - 1] == rest[n - 2]);
        }
    }
}

/// A reader takes bytes up to the first one whose high bit is clear, five at most
/// and no more than there are, and goes on right behind them. What made it stop
/// shows in the last byte and in how many there were.
pub proof fn law_varint_is_read_byte_by_byte(s: Seq<u8>)
    ensures
        ({
            let taken = varint_bytes(s);
            let n = taken.len() as int;
            let ended = n > 0 && taken[n - 1] < 128;
            &&& n <= 5 && n <= s.len() && taken == s.take(n)
            &&& forall|i: int| 0 <= i < n - 1 ==> taken[i] >= 128
            &&& ended || n == 5 || n == s.len()
            &&& after_varint(s) == s.skip(n)
            &&& (varint_value(s) - grouped(taken)) % 0x1_0000_0000 == 0
            &&& varint_end(taken) == VarintEnd::Terminated <==> ended
            &&& varint_end(taken) == VarintEnd::Overlong <==> !ended && n == 5
            &&& varint_end(taken) == VarintEnd::Truncated <==> !ended && n < 5
            &&& varint_read(s) == VarintRead::Done(varint_value(s)) <==> ended
            &&& varint_read(s) == VarintRead::TooLong <==> !ended && n == 5
            &&& varint_read(s) == VarintRead::More <==> !ended && n < 5
        }),
{
    lemma_span_shape(s, 5);
    let taken = varint_bytes(s);
    assert(taken.len() == varint_span(s, 5));
    law_integer_by_groups(taken);
}

/// Five bytes none of which ends an integer are too many, whatever follows them.
pub proof fn law_overlong_varint_is_read(s: Seq<u8>, rest: Seq<u8>)
    requires
        s.len() == 5,
        forall|i: int| 0 <= i < s.len() ==> s[i] >= 128,
    ensures
        varint_bytes(s + rest) == s,
        varint_value(s + rest) == integer_value(s),
        after_varint(s + rest) == rest,
        varint_end(varint_bytes(s + rest)) == VarintEnd::Overlong,
        varint_read(s + rest) == VarintRead::TooLong,
{
    lemma_span_of_open(s, 5);
    assert(s.take(5) =~= s);
    lemma_span_extends(s, rest, 5);
    assert((s + rest).take(5) =~= s);
    assert((s + rest).skip(5) =~= rest);
}

/// Data that ends before an integer does is taken whole and wants more.
pub proof fn law_truncated_varint_is_read(s: Seq<u8>)
    requires
        s.len() < 5,
        forall|i: int| 0 <= i < s.len() ==> s[i] >= 128,
    ensures
        varint_bytes(s) == s,
        varint_value(s) == integer_value(s),
        after_varint(s).len() == 0,
        varint_end(varint_bytes(s)) == VarintEnd::Truncated,
        varint_read(s) == VarintRead::More,
{
    lemma_span_of_open(s, 5);
    assert(s.take(s.len() as int) =~= s);
}

/// A reader that comes upon a complete integer takes exactly its bytes, whatever
/// follows them.
pub proof fn law_complete_varint_is_read(s: Seq<u8>, rest: Seq<u8>)
    requires
        complete_varint(s),
    ensures
        varint_bytes(s + rest) == s,
        varint_value(s + rest) == integer_value(s),
        after_varint(s + rest) == rest,
        varint_end(varint_bytes(s + rest)) == VarintEnd::Terminated,
        varint_read(s + rest) == VarintRead::Done(integer_value(s)),
{
    lemma_span_of_complete(s, rest, 5);
    assert((s + rest).take(s.len() as int) =~= s);
    assert((s + rest).skip(s.len() as int) =~= rest);
}

/// A reader that is handed an integer byte by byte asks for more until it has the
/// whole of it.
pub proof fn law_varint_asks_for_every_byte(s: Seq<u8>, have: int)
    requires
        complete_varint(s),
        0 <= have < s.len(),
    ensures
        varint_read(s.take(have)) == VarintRead::More,
{
    let part = s.take(have);
    lemma_span_of_open(part, 5);
    assert(part.take(part.len() as int) =~= part);
}

/// An encoding of 32 bits is a complete integer, of the value that the bits have.
pub proof fn law_varint_is_complete(v: nat)
    requires
        v <= u32::MAX,
    ensures
        complete_varint(varint(v)),
        integer_value(varint(v)) == low_i32(v),
        v <= i32::MAX ==> low_i32(v) == v,
{
    lemma_weights();
    lemma_varint_len(v, 5);
    lemma_base128_of_varint(v);
}

proof fn lemma_varint_is_shortest(v: nat)
    ensures
        varint(v).len() > 0,
        varint(v).len() > 1 ==> varint(v).last() != 0,
    decreases v,
{
    if v >= 128 {
        lemma_varint_is_shortest(v / 128);
        assert(varint(v).last() == varint(v / 128).last());
        if varint(v / 128).len() == 1 {
            assert(v / 128 < 128) by {
                if v / 128 >= 128 {
                    lemma_varint_is_shortest(v / 128 / 128);
                }
            }
        }
    }
}

/// The bytes that stand for a number are the groups of its 32 bits, the first the
/// least significant, and as few as can be: the last group is not zero unless it
/// is the only one.
pub proof fn law_varint_by_groups(v: nat)
    requires
        v <= u32::MAX,
    ensures
        grouped(varint(v)) == v,
        0 < varint(v).len() <= 5,
        varint(v).len() > 1 ==> varint(v).last() != 0,
        varint(v).last() < 128,
        forall|i: int| 0 <= i < varint(v).len() - 1 ==> varint(v)[i] >= 128,
{
    law_varint_is_complete(v);
    lemma_varint_is_shortest(v);
    lemma_base128_of_varint(v);
    lemma_base128_groups(varint(v));
}

/// What was written is read back: a reader that comes upon the encoding of a
/// value takes exactly its bytes, whatever follows them, and makes that value of
/// them.
pub proof fn law_varint_round_trip(val: i32, rest: Seq<u8>)
    ensures
        varint_bytes(varint(bits_of(val)) + rest) == varint(bits_of(val)),
        varint_value(varint(bits_of(val)) + rest) == val,
        after_varint(varint(bits_of(val)) + rest) == rest,
        varint_end(varint_bytes(varint(bits_of(val)) + rest)) == VarintEnd::Terminated,
        varint_read(varint(bits_of(val)) + rest) == VarintRead::Done(val),
{
    law_varint_is_complete(bits_of(val));
    law_complete_varint_is_read(varint(bits_of(val)), rest);
}

/// An encoding has one to five bytes, of which only the last has its high bit
/// clear, and no fewer would do. Its groups are the 32 bits of the number, so that
/// a negative number has five.
pub proof fn law_varint_shape(val: i32)
    ensures
        complete_varint(varint(bits_of(val))),
        varint(bits_of(val)).len() > 1 ==> varint(bits_of(val)).last() != 0,
        0 <= grouped(varint(bits_of(val))) <= u32::MAX,
        (grouped(varint(bits_of(val))) - val) % 0x1_0000_0000 == 0,
        val < 0 ==> varint(bits_of(val)).len() == MAX_VARINT_LEN,
{
    law_varint_by_groups(bits_of(val));
    law_varint_is_complete(bits_of(val));
    if val < 0 {
        lemma_weights();
        lemma_base128_of_varint(bits_of(val));
        lemma_base128_bound(varint(bits_of(val)));
    }
}

/// Once a reader has made up its mind, bytes that follow do not change it.
pub proof fn law_varint_read_is_final(s: Seq<u8>, more: Seq<u8>)
    requires
        varint_read(s) != VarintRead::More,
    ensures
        varint_read(s + more) == varint_read(s),
        varint_bytes(s + more) == varint_bytes(s),
{
    lemma_span_within(s, 5);
    lemma_span_extends(s, more, 5);
    assert(varint_bytes(s + more) =~= varint_bytes(s));
}

/// No encoding is the beginning of another: two runs of bytes that start with
/// encodings and are equal start with the same value and go on alike.
pub proof fn law_varint_prefix_free(a: i32, b: i32, x: Seq<u8>, y: Seq<u8>)
    requires
        varint(bits_of(a)) + x == varint(bits_of(b)) + y,
    ensures
        a == b,
        x == y,
{
    law_varint_round_trip(a, x);
    law_varint_round_trip(b, y);
}

} // verus!
