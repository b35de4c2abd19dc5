//! ICMP echo framing: the ones'-complement checksum, echo-request
//! construction, and echo-reply validation.
//!
//! Only the bytes are handled here; opening sockets and moving packets is
//! the caller's business. An echo request is an 8-byte header — type,
//! code, checksum, identifier, sequence, each multi-byte field big-endian
//! — followed by the payload.

use vstd::prelude::*;

verus! {

/// ICMPv4 echo-request message type.
pub const ECHO_REQUEST_TYPE: u8 = 8;

/// ICMPv4 echo-reply message type.
pub const ECHO_REPLY_TYPE: u8 = 0;

/// Sum of the 16-bit big-endian words covering the first `k` bytes of
/// `data`; a trailing odd byte counts as the high byte of a padded word.
pub open spec fn words_sum(data: Seq<u8>, k: int) -> int
    decreases k,
{
    if k <= 0 {
        0
    } else if k % 2 == 1 {
        words_sum(data, k - 1) + data[k - 1] * 256
    } else {
        words_sum(data, k - 2) + data[k - 2] * 256 + data[k - 1]
    }
}

/// End-around-carry fold of a ones'-complement sum: add the overflow
/// above 16 bits back in until the sum fits in 16 bits.
pub open spec fn fold_carry(n: int) -> int
    recommends
        n >= 0,
    decreases n,
{
    if n < 0x10000 {
        n
    } else {
        fold_carry(n % 0x10000 + n / 0x10000)
    }
}

/// The ICMP checksum of a message: the ones'-complement of the folded
/// ones'-complement sum of its 16-bit words.
pub open spec fn checksum_spec(data: Seq<u8>) -> u16 {
    (0xffff - fold_carry(words_sum(data, data.len() as int))) as u16
}

proof fn lemma_words_sum_bound(data: Seq<u8>, k: int)
    requires
        0 <= k <= data.len(),
    ensures
        0 <= words_sum(data, k) <= k * 0xffff,
    decreases k,
{
    if k > 0 {
        if k % 2 == 1 {
            lemma_words_sum_bound(data, k - 1);
        } else {
            lemma_words_sum_bound(data, k - 2);
        }
    }
}

proof fn lemma_fold_carry_bounds(n: int)
    requires
        n >= 0,
    ensures
        0 <= fold_carry(n) <= 0xffff,
        n < 0x10000 ==> fold_carry(n) == n,
    decreases n,
{
    if n >= 0x10000 {
        lemma_fold_carry_bounds(n % 0x10000 + n / 0x10000);
    }
}

/// The Internet checksum over a message of at most 65535 bytes (the most
/// an IP datagram can carry).
pub fn icmp_checksum(data: &[u8]) -> (r: u16)
    requires
        data@.len() <= 0xffff,
    ensures
        r == checksum_spec(data@),
{
    let len = data.len();
    let mut sum: u32 = 0;
    let mut i: usize = 0;

    proof {
        lemma_words_sum_bound(data@, len as int);
    }

    while i + 1 < len
        invariant
            data@.len() <= 0xffff,
            len == data@.len(),
            i <= len,
            i % 2 == 0,
            sum == words_sum(data@, i as int),
            0 <= words_sum(data@, i as int) <= i * 0xffff,
        decreases len - i,
    {
        proof {
            lemma_words_sum_bound(data@, i + 2);
        }
        let hi = data[i];
        let lo = data[i + 1];
        sum = sum + (hi as u32) * 256 + (lo as u32);
        i = i + 2;
    }

    if i < len {
        proof {
            lemma_words_sum_bound(data@, i + 1);
        }
        sum = sum + (data[i] as u32) * 256;
        i = i + 1;
    }

    proof {
        assert(sum == words_sum(data@, len as int));
        lemma_fold_carry_bounds(sum as int);
    }

    while sum >> 16 != 0
        invariant
            fold_carry(sum as int) == fold_carry(words_sum(data@, data@.len() as int)),
        decreases sum,
    {
        let high: u32 = sum >> 16;
        let low: u32 = sum & 0xffff;
        proof {
            assert(sum >> 16 == sum / 0x10000 && sum & 0xffff == sum % 0x10000) by (bit_vector);
            assert(sum >> 16 != 0u32 ==> sum >= 0x10000) by (bit_vector);
            vstd::arithmetic::div_mod::lemma_fundamental_div_mod(sum as int, 0x10000);
            assert(sum / 0x10000 >= 1 ==> 0x10000 * (sum as int / 0x10000) >= 0x10000);
        }
        sum = low + high;
    }

    proof {
        assert(sum >> 16 == 0u32 ==> sum < 0x10000) by (bit_vector);
        let total = words_sum(data@, data@.len() as int);
        lemma_fold_carry_bounds(total);
        assert(fold_carry(sum as int) == sum as int);
        let s = sum;
        assert(s < 0x10000 ==> (!(s as u16)) == (0xffff - s) as u16) by (bit_vector);
    }
    !(sum as u16)
}

/// An ICMP echo message of the given type with a zeroed checksum field:
/// type, code 0, checksum 0, then identifier, sequence and payload.
pub open spec fn echo_message_unsummed(ty: u8, ident: u16, sequence: u16, payload: Seq<u8>) -> Seq<
    u8,
> {
    seq![
        ty,
        0u8,
        0u8,
        0u8,
        (ident >> 8) as u8,
        (ident & 0xff) as u8,
        (sequence >> 8) as u8,
        (sequence & 0xff) as u8,
    ] + payload
}

/// The same message with the checksum `c` written into bytes 2 and 3.
pub open spec fn with_checksum(msg: Seq<u8>, c: u16) -> Seq<u8> {
    msg.update(2, (c >> 8) as u8).update(3, (c & 0xff) as u8)
}

/// A finished echo message: checksum computed over the zero-checksum
/// form, then written into the header.
pub open spec fn echo_message(ty: u8, ident: u16, sequence: u16, payload: Seq<u8>) -> Seq<u8> {
    let unsummed = echo_message_unsummed(ty, ident, sequence, payload);
    with_checksum(unsummed, checksum_spec(unsummed))
}

/// Build one ICMPv4 echo request around the fixed 24-byte payload.
pub fn build_echo_request(ident: u16, sequence: u16, payload: &[u8; 24]) -> (r: Vec<u8>)
    ensures
        r@ =~= echo_message(ECHO_REQUEST_TYPE, ident, sequence, payload@),
        r@.len() == 32,
{
    let mut packet: Vec<u8> = Vec::new();
    packet.push(ECHO_REQUEST_TYPE);
    packet.push(0);
    packet.push(0);
    packet.push(0);
    packet.push((ident >> 8) as u8);
    packet.push((ident & 0xff) as u8);
    packet.push((sequence >> 8) as u8);
    packet.push((sequence & 0xff) as u8);
    packet.extend_from_slice(payload.as_slice());

    proof {
        assert(packet@ =~= echo_message_unsummed(ECHO_REQUEST_TYPE, ident, sequence, payload@));
    }

    let csum = icmp_checksum(packet.as_slice());
    packet[2] = (csum >> 8) as u8;
    packet[3] = (csum & 0xff) as u8;

    proof {
        assert(packet@ =~= echo_message(ECHO_REQUEST_TYPE, ident, sequence, payload@));
    }
    packet
}

/// Why an echo reply was not accepted.
#[derive(Clone, Copy, Debug, PartialEq, Eq, Structural)]
pub enum IcmpError {
    /// The reply is shorter than an ICMP header, past any leading IPv4 header.
    MalformedReply,
    /// Wrong type or code, or — where checked — identifier or sequence.
    ReplyMismatch,
}

/// Bytes to skip before the ICMP header: a raw IPv4 socket may hand the
/// whole datagram back, recognised by a leading version nibble of 4 and
/// enough room for the header length the low nibble gives.
pub open spec fn reply_offset(r: Seq<u8>) -> int {
    if r.len() > 0 && r[0] >> 4 == 4 && r.len() >= (r[0] & 0x0f) * 4 + 8 {
        (r[0] & 0x0f) * 4
    } else {
        0
    }
}

/// An ICMP header is present past the offset.
pub open spec fn reply_long_enough(r: Seq<u8>) -> bool {
    r.len() >= reply_offset(r) + 8
}

pub open spec fn reply_type(r: Seq<u8>) -> u8 {
    r[reply_offset(r)]
}

pub open spec fn reply_code(r: Seq<u8>) -> u8 {
    r[reply_offset(r) + 1]
}

pub open spec fn reply_ident(r: Seq<u8>) -> int {
    r[reply_offset(r) + 4] * 256 + r[reply_offset(r) + 5]
}

pub open spec fn reply_sequence(r: Seq<u8>) -> int {
    r[reply_offset(r) + 6] * 256 + r[reply_offset(r) + 7]
}

/// A reply that answers the request `(ident, sequence)`: echo-reply type
/// and code 0, and — under strict validation — the identifier and
/// sequence of the request. Lenient validation suits a transport whose
/// kernel rewrites identifiers on the way out.
pub open spec fn reply_accepted(r: Seq<u8>, strict: bool, ident: u16, sequence: u16) -> bool {
    &&& reply_long_enough(r)
    &&& reply_type(r) == ECHO_REPLY_TYPE
    &&& reply_code(r) == 0
    &&& (strict ==> reply_ident(r) == ident && reply_sequence(r) == sequence)
}

/// Validate a received echo reply against the request it should answer.
///
/// Returns the byte count of the ICMP message (header and payload, any
/// leading IPv4 header not counted). `strict` decides whether identifier
/// and sequence must round-trip, as they must on transports that let the
/// caller choose them.
pub fn parse_echo_reply(reply: &[u8], strict: bool, ident: u16, sequence: u16) -> (r: Result<
    usize,
    IcmpError,
>)
    ensures
        match r {
            Ok(bytes) => reply_accepted(reply@, strict, ident, sequence) && bytes == reply@.len()
                - reply_offset(reply@),
            Err(IcmpError::MalformedReply) => !reply_long_enough(reply@),
            Err(IcmpError::ReplyMismatch) => reply_long_enough(reply@) && !reply_accepted(
                reply@,
                strict,
                ident,
                sequence,
            ),
        },
{
    let n = reply.len();
    let mut off: usize = 0;
    if n > 0 && reply[0] >> 4 == 4 {
        let ihl = ((reply[0] & 0x0f) as usize) * 4;
        if n >= ihl + 8 {
            off = ihl;
        }
    }
    proof {
        assert(off == reply_offset(reply@));
    }
    if n < off + 8 {
        return Err(IcmpError::MalformedReply);
    }

    let r_type = reply[off];
    let r_code = reply[off + 1];
    let r_id = (reply[off + 4] as u32) * 256 + (reply[off + 5] as u32);
    let r_seq = (reply[off + 6] as u32) * 256 + (reply[off + 7] as u32);

    if r_type != ECHO_REPLY_TYPE || r_code != 0 {
        return Err(IcmpError::ReplyMismatch);
    }
    if strict && (r_id != ident as u32 || r_seq != sequence as u32) {
        return Err(IcmpError::ReplyMismatch);
    }
    Ok(n - off)
}

/// An echo reply built from the very identifier and sequence of a request
/// is accepted even under strict validation, and one whose sequence
/// disagrees is turned away by strict validation, whatever its payload.
pub proof fn lemma_reply_round_trip(ident: u16, sequence: u16, other: u16, payload: Seq<u8>)
    ensures
        reply_accepted(echo_message(ECHO_REPLY_TYPE, ident, sequence, payload), true, ident, sequence),
        other != sequence ==> !reply_accepted(
            echo_message(ECHO_REPLY_TYPE, ident, sequence, payload),
            true,
            ident,
            other,
        ),
{
    let unsummed = echo_message_unsummed(ECHO_REPLY_TYPE, ident, sequence, payload);
    let r = echo_message(ECHO_REPLY_TYPE, ident, sequence, payload);
    assert(r.len() == 8 + payload.len());
    assert(r[0] == 0u8 && r[1] == 0u8);
    assert(r[4] == (ident >> 8) as u8 && r[5] == (ident & 0xff) as u8);
    assert(r[6] == (sequence >> 8) as u8 && r[7] == (sequence & 0xff) as u8);
    assert(0u8 >> 4 != 4u8) by (bit_vector);
    assert(reply_offset(r) == 0);
    assert(((ident >> 8) as u8) * 256 + ((ident & 0xff) as u8) == ident) by (bit_vector);
    assert(((sequence >> 8) as u8) * 256 + ((sequence & 0xff) as u8) == sequence) by (bit_vector);
    assert(other != sequence ==> ((sequence >> 8) as u8) * 256 + ((sequence & 0xff) as u8)
        != other) by (bit_vector);
}

proof fn lemma_words_sum_eq(a: Seq<u8>, b: Seq<u8>, k: int)
    requires
        a.len() == b.len(),
        0 <= k <= a.len(),
        forall|t: int| 0 <= t < k ==> a[t] == b[t],
    ensures
        words_sum(a, k) == words_sum(b, k),
    decreases k,
{
    if k > 0 {
        if k % 2 == 1 {
            lemma_words_sum_eq(a, b, k - 1);
        } else {
            lemma_words_sum_eq(a, b, k - 2);
        }
    }
}

proof fn lemma_words_sum_diff(a: Seq<u8>, b: Seq<u8>, k: int, j: int)
    requires
        a.len() == b.len(),
        0 <= j < k <= a.len(),
        forall|t: int| 0 <= t < k && t != j ==> a[t] == b[t],
    ensures
        words_sum(a, k) - words_sum(b, k) == if j % 2 == 0 {
            (a[j] - b[j]) * 256
        } else {
            a[j] - b[j]
        },
    decreases k,
{
    if k % 2 == 1 {
        if j == k - 1 {
            lemma_words_sum_eq(a, b, k - 1);
        } else {
            lemma_words_sum_diff(a, b, k - 1, j);
        }
    } else {
        if j == k - 1 || j == k - 2 {
            lemma_words_sum_eq(a, b, k - 2);
        } else {
            lemma_words_sum_diff(a, b, k - 2, j);
        }
    }
}

proof fn lemma_fold_carry_mod(n: int)
    requires
        n >= 0,
    ensures
        0 <= fold_carry(n) <= 0xffff,
        fold_carry(n) % 0xffff == n % 0xffff,
    decreases n,
{
    if n >= 0x10000 {
        let m = n % 0x10000 + n / 0x10000;
        lemma_fold_carry_mod(m);
        vstd::arithmetic::div_mod::lemma_fundamental_div_mod(n, 0x10000);
        assert(n == 0xffff * (n / 0x10000) + m);
        vstd::arithmetic::div_mod::lemma_mod_multiples_vanish(n / 0x10000, m, 0xffff);
    }
}

/// Corrupting any single byte of a message changes its checksum: two
/// messages of equal length (up to the 65535 bytes a datagram can
/// carry) that differ in exactly one byte never share a checksum.
pub proof fn lemma_checksum_detects_byte_change(a: Seq<u8>, b: Seq<u8>, j: int)
    requires
        a.len() == b.len(),
        a.len() <= 0xffff,
        0 <= j < a.len(),
        a[j] != b[j],
        forall|t: int| 0 <= t < a.len() && t != j ==> a[t] == b[t],
    ensures
        checksum_spec(a) != checksum_spec(b),
{
    let n = a.len() as int;
    let sa = words_sum(a, n);
    let sb = words_sum(b, n);
    lemma_words_sum_bound(a, n);
    lemma_words_sum_bound(b, n);
    lemma_words_sum_diff(a, b, n, j);
    let d = sa - sb;
    assert(d != 0 && -0xff00 <= d <= 0xff00);
    lemma_fold_carry_mod(sa);
    lemma_fold_carry_mod(sb);
    if checksum_spec(a) == checksum_spec(b) {
        assert(fold_carry(sa) == fold_carry(sb));
        assert(sa % 0xffff == sb % 0xffff);
        vstd::arithmetic::div_mod::lemma_fundamental_div_mod(sa, 0xffff);
        vstd::arithmetic::div_mod::lemma_fundamental_div_mod(sb, 0xffff);
        let q = sa / 0xffff - sb / 0xffff;
        assert(d == 0xffff * q);
        assert(d == 0xffff * q && -0xffff < d < 0xffff && d != 0 ==> false) by (nonlinear_arith);
    }
}

} // verus!
