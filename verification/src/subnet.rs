//! IPv4 CIDR blocks: parsing `a.b.c.d/p` notation, counting usable
//! hosts, and enumerating them in ascending order.
//!
//! A block keeps the masked network base, never a host address. Usable
//! hosts follow the standard carve-out: for prefixes up to /30 the
//! network and broadcast addresses are excluded; /31 and /32 have no
//! such carve-out and every address in range is usable.

use crate::text::{
    all_digits, dec_str_of, dec_val, digit_of, digit_val, find_char_from, find_from, format_u32,
    is_digit, lemma_dec_val_bounds, trim_ascii, trim_spec,
};
use vstd::arithmetic::power2::{
    lemma2_to64, lemma_pow2_pos, lemma_pow2_strictly_increases, pow2,
};
use vstd::bits::{lemma_u64_pow2_no_overflow, lemma_u64_shl_is_mul};
use vstd::prelude::*;
use vstd::string::StringExecFns;

verus! {

/// The network mask of a prefix length: the high `prefix` bits set.
pub open spec fn mask_of(prefix: u8) -> u32
    recommends
        prefix <= 32,
{
    if prefix == 0 {
        0u32
    } else {
        (!0u32) << ((32u32 - prefix as u32) as u32)
    }
}

/// An IPv4 CIDR block.
#[derive(Clone, Copy, Debug, PartialEq, Eq, Structural)]
pub struct Ipv4Subnet {
    pub network: u32,
    pub prefix: u8,
}

/// A decimal octet as IPv4 text allows it: one to three digits, at most
/// 255, no leading zero.
pub open spec fn valid_octet_text(s: Seq<char>) -> bool {
    &&& 1 <= s.len() <= 3
    &&& all_digits(s)
    &&& dec_val(s) <= 255
    &&& (s.len() > 1 ==> s[0] != '0')
}

/// A prefix length as `u8` text allows it: a non-empty digit run whose
/// value fits in a byte (leading zeros permitted).
pub open spec fn valid_prefix_text(s: Seq<char>) -> bool {
    s.len() > 0 && all_digits(s) && dec_val(s) <= 255
}

/// Dotted-quad text: exactly three dots separating four valid octets.
pub open spec fn valid_ipv4_text(s: Seq<char>) -> bool {
    let d1 = find_from(s, '.', 0);
    let d2 = find_from(s, '.', d1 + 1);
    let d3 = find_from(s, '.', d2 + 1);
    let d4 = find_from(s, '.', d3 + 1);
    &&& d3 < s.len()
    &&& d4 == s.len()
    &&& valid_octet_text(s.subrange(0, d1))
    &&& valid_octet_text(s.subrange(d1 + 1, d2))
    &&& valid_octet_text(s.subrange(d2 + 1, d3))
    &&& valid_octet_text(s.subrange(d3 + 1, s.len() as int))
}

/// The address a dotted quad denotes, most significant octet first.
pub open spec fn ipv4_value(s: Seq<char>) -> int
    recommends
        valid_ipv4_text(s),
{
    let d1 = find_from(s, '.', 0);
    let d2 = find_from(s, '.', d1 + 1);
    let d3 = find_from(s, '.', d2 + 1);
    dec_val(s.subrange(0, d1)) * 0x1000000 + dec_val(s.subrange(d1 + 1, d2)) * 0x10000 + dec_val(
        s.subrange(d2 + 1, d3),
    ) * 0x100 + dec_val(s.subrange(d3 + 1, s.len() as int))
}

/// What CIDR text (already trimmed) parses to: the subnet with its
/// masked base, or the message naming what is wrong with the text.
pub open spec fn cidr_parse(s: Seq<char>) -> Result<Ipv4Subnet, Seq<char>> {
    let sl = find_from(s, '/', 0);
    if sl == s.len() {
        Err("Missing prefix length in subnet definition"@)
    } else if find_from(s, '/', sl + 1) != s.len() {
        Err("Too many '/' characters in subnet definition"@)
    } else {
        let ip_text = s.subrange(0, sl);
        let pre_text = s.subrange(sl + 1, s.len() as int);
        if !valid_ipv4_text(ip_text) {
            Err("Invalid IPv4 address in subnet definition"@)
        } else if !valid_prefix_text(pre_text) {
            Err("Invalid prefix length in subnet definition"@)
        } else if dec_val(pre_text) > 32 {
            Err("Prefix length must be between 0 and 32"@)
        } else {
            Ok(
                Ipv4Subnet {
                    network: (ipv4_value(ip_text) as u32) & mask_of(dec_val(pre_text) as u8),
                    prefix: dec_val(pre_text) as u8,
                },
            )
        }
    }
}

proof fn lemma_dec_val_small(t: Seq<char>)
    ensures
        t.len() == 1 ==> dec_val(t) == digit_val(t[0]),
        t.len() == 2 ==> dec_val(t) == digit_val(t[0]) * 10 + digit_val(t[1]),
        t.len() == 3 ==> dec_val(t) == (digit_val(t[0]) * 10 + digit_val(t[1])) * 10 + digit_val(
            t[2],
        ),
{
    reveal_with_fuel(dec_val, 5);
    if t.len() == 1 {
        assert(t.drop_last() =~= Seq::<char>::empty());
    }
    if t.len() == 2 {
        assert(t.drop_last().drop_last() =~= Seq::<char>::empty());
        assert(t.drop_last().last() == t[0]);
    }
    if t.len() == 3 {
        assert(t.drop_last().drop_last().drop_last() =~= Seq::<char>::empty());
        assert(t.drop_last().drop_last().last() == t[0]);
        assert(t.drop_last().last() == t[1]);
    }
}

/// Parse `s[start..end]` as one octet of a dotted quad.
fn parse_octet(s: &str, start: usize, end: usize) -> (r: Option<u8>)
    requires
        start <= end <= s@.len(),
    ensures
        (r is Some) == valid_octet_text(s@.subrange(start as int, end as int)),
        r matches Some(v) ==> v == dec_val(s@.subrange(start as int, end as int)),
{
    let ghost t = s@.subrange(start as int, end as int);
    proof {
        lemma_dec_val_small(t);
    }
    let len: usize = end - start;
    if len == 0 || len > 3 {
        return None;
    }
    let c0 = s.get_char(start);
    proof {
        assert(t[0] == c0);
    }
    let d0 = match digit_of(c0) {
        Some(d) => d,
        None => {
            return None;
        },
    };
    if len == 1 {
        proof {
            assert(all_digits(t));
        }
        return Some(d0);
    }
    if d0 == 0 {
        proof {
            assert(c0 as u32 == 48 && '0' as u32 == 48);
            assert(t[0] == '0');
        }
        return None;
    }
    let c1 = s.get_char(start + 1);
    proof {
        assert(t[1] == c1);
    }
    let d1 = match digit_of(c1) {
        Some(d) => d,
        None => {
            return None;
        },
    };
    if len == 2 {
        proof {
            assert(all_digits(t));
        }
        return Some(d0 * 10 + d1);
    }
    let c2 = s.get_char(start + 2);
    proof {
        assert(t[2] == c2);
    }
    let d2 = match digit_of(c2) {
        Some(d) => d,
        None => {
            return None;
        },
    };
    let val: u32 = (d0 as u32) * 100 + (d1 as u32) * 10 + (d2 as u32);
    if val > 255 {
        return None;
    }
    proof {
        assert(all_digits(t));
    }
    Some(val as u8)
}

/// Parse a whole string as dotted-quad IPv4 text.
fn parse_ipv4(s: &str) -> (r: Option<u32>)
    ensures
        (r is Some) == valid_ipv4_text(s@),
        r matches Some(v) ==> v == ipv4_value(s@),
{
    let n = s.unicode_len();
    let d1 = find_char_from(s, '.', 0);
    if d1 == n {
        return None;
    }
    let d2 = find_char_from(s, '.', d1 + 1);
    if d2 == n {
        return None;
    }
    let d3 = find_char_from(s, '.', d2 + 1);
    if d3 == n {
        return None;
    }
    let d4 = find_char_from(s, '.', d3 + 1);
    if d4 != n {
        return None;
    }
    let o1 = match parse_octet(s, 0, d1) {
        Some(v) => v,
        None => {
            return None;
        },
    };
    let o2 = match parse_octet(s, d1 + 1, d2) {
        Some(v) => v,
        None => {
            return None;
        },
    };
    let o3 = match parse_octet(s, d2 + 1, d3) {
        Some(v) => v,
        None => {
            return None;
        },
    };
    let o4 = match parse_octet(s, d3 + 1, n) {
        Some(v) => v,
        None => {
            return None;
        },
    };
    let val: u32 = (o1 as u32) * 0x1000000 + (o2 as u32) * 0x10000 + (o3 as u32) * 0x100 + (
    o4 as u32);
    Some(val)
}


/// The dotted-quad text of an address.
pub open spec fn ipv4_text_of(n: u32) -> Seq<char> {
    dec_str_of(n as int / 0x1000000) + "."@ + dec_str_of((n as int / 0x10000) % 0x100) + "."@
        + dec_str_of((n as int / 0x100) % 0x100) + "."@ + dec_str_of(n as int % 0x100)
}

/// Format an address as a dotted quad.
pub fn format_ipv4(n: u32) -> (r: String)
    ensures
        r@ =~= ipv4_text_of(n),
{
    let o1: u32 = n >> 24;
    let o2: u32 = (n >> 16) & 0xff;
    let o3: u32 = (n >> 8) & 0xff;
    let o4: u32 = n & 0xff;
    proof {
        assert(n >> 24 == n / 0x1000000 && (n >> 16) & 0xff == (n / 0x10000) % 0x100 && (n >> 8)
            & 0xff == (n / 0x100) % 0x100 && n & 0xff == n % 0x100) by (bit_vector);
    }
    let mut s = format_u32(o1);
    s.append(".");
    let p2 = format_u32(o2);
    s.append(p2.as_str());
    s.append(".");
    let p3 = format_u32(o3);
    s.append(p3.as_str());
    s.append(".");
    let p4 = format_u32(o4);
    s.append(p4.as_str());
    s
}

impl Ipv4Subnet {
    /// A subnet is well formed when its prefix fits and its base carries
    /// no host bits.
    pub open spec fn wf(self) -> bool {
        self.prefix <= 32 && self.network & mask_of(self.prefix) == self.network
    }

    /// The masked network base address.
    pub fn network(&self) -> (n: u32)
        ensures
            n == self.network,
    {
        self.network
    }

    /// The prefix length.
    pub fn prefix(&self) -> (p: u8)
        ensures
            p == self.prefix,
    {
        self.prefix
    }

    /// Addresses the block spans, usable or not.
    pub open spec fn total_spec(self) -> nat {
        pow2((32 - self.prefix) as nat)
    }

    /// The first usable host address.
    pub open spec fn first_host(self) -> int {
        if self.prefix >= 31 {
            self.network as int
        } else {
            self.network + 1
        }
    }

    /// How many usable hosts the block has.
    pub open spec fn usable_count(self) -> nat {
        if self.prefix >= 31 {
            self.total_spec()
        } else {
            (self.total_spec() - 2) as nat
        }
    }

    /// The usable host addresses in ascending order.
    pub open spec fn host_seq(self) -> Seq<u32> {
        Seq::new(self.usable_count(), |i: int| (self.first_host() + i) as u32)
    }


    /// The block as CIDR text: dotted-quad base, slash, prefix length.
    pub fn notation(&self) -> (r: String)
        ensures
            r@ =~= ipv4_text_of(self.network) + "/"@ + dec_str_of(self.prefix as int),
    {
        let mut s = format_ipv4(self.network);
        s.append("/");
        let p = format_u32(self.prefix as u32);
        s.append(p.as_str());
        s
    }

    /// Parse CIDR text, whitespace around it ignored.
    ///
    /// Succeeds exactly on `<dotted quad>/<prefix>` with the prefix
    /// between 0 and 32, and stores the masked base; each malformation
    /// earns its own message, as `cidr_parse` lays them out.
    pub fn from_str(input: &str) -> (r: Result<Ipv4Subnet, &'static str>)
        ensures
            match (r, cidr_parse(trim_spec(input@))) {
                (Ok(sub), Ok(expected)) => sub == expected && sub.wf(),
                (Err(e), Err(m)) => e@ == m,
                _ => false,
            },
    {
        let t = trim_ascii(input);
        let n = t.unicode_len();
        let sl = find_char_from(t, '/', 0);
        if sl == n {
            return Err("Missing prefix length in subnet definition");
        }
        let sl2 = find_char_from(t, '/', sl + 1);
        if sl2 != n {
            return Err("Too many '/' characters in subnet definition");
        }
        let ip_str = t.substring_char(0, sl);
        let pre_str = t.substring_char(sl + 1, n);
        let ip = match parse_ipv4(ip_str) {
            Some(v) => v,
            None => {
                return Err("Invalid IPv4 address in subnet definition");
            },
        };
        let pre = match crate::text::parse_decimal_capped(pre_str, 255) {
            Some(v) => v,
            None => {
                return Err("Invalid prefix length in subnet definition");
            },
        };
        if pre > 32 {
            return Err("Prefix length must be between 0 and 32");
        }
        let pre: u8 = pre as u8;
        let mask: u32 = if pre == 0 {
            0
        } else {
            (!0u32) << ((32 - pre) as u32)
        };
        let network: u32 = ip & mask;
        proof {
            assert((ip & mask) & mask == ip & mask) by (bit_vector);
        }
        Ok(Ipv4Subnet { network, prefix: pre })
    }

    /// Count the usable hosts: all `2^(32-p)` addresses for /31 and /32,
    /// two fewer for any wider block.
    pub fn host_count(&self) -> (r: u128)
        requires
            self.wf(),
        ensures
            r == self.host_seq().len(),
            self.prefix >= 31 ==> r == self.total_spec(),
            self.prefix <= 30 ==> r == self.total_spec() - 2,
    {
        let host_bits: u32 = 32 - self.prefix as u32;
        proof {
            lemma_u64_pow2_no_overflow(host_bits as nat);
            lemma_u64_shl_is_mul(1u64, host_bits as u64);
        }
        let total: u64 = 1u64 << (host_bits as u64);
        if self.prefix >= 31 {
            total as u128
        } else {
            proof {
                lemma2_to64();
                if host_bits > 2 {
                    lemma_pow2_strictly_increases(2, host_bits as nat);
                }
            }
            (total - 2) as u128
        }
    }

    /// Enumerate the usable hosts, lowest first.
    pub fn iter_hosts(&self) -> (it: SubnetHostIter)
        requires
            self.wf(),
        ensures
            it.wf(),
            it.remaining() =~= self.host_seq(),
    {
        proof {
            lemma_network_bound(self.network, self.prefix);
            lemma_pow2_pos((32 - self.prefix) as nat);
            lemma2_to64();
            if 32 - self.prefix > 2 {
                lemma_pow2_strictly_increases(2, (32 - self.prefix) as nat);
            }
        }
        let host_bits: u32 = 32 - self.prefix as u32;
        proof {
            lemma_u64_pow2_no_overflow(host_bits as nat);
            lemma_u64_shl_is_mul(1u64, host_bits as u64);
        }
        let total: u64 = 1u64 << (host_bits as u64);
        let net: u64 = self.network as u64;
        let start: u64;
        let end: u64;
        if self.prefix >= 31 {
            start = net;
            end = net + total - 1;
        } else {
            start = net + 1;
            end = net + total - 2;
        }
        SubnetHostIter { current: start as u32, end: end as u32, finished: false }
    }

    /// All usable hosts of the block, collected in ascending order.
    pub fn hosts(&self) -> (v: Vec<u32>)
        requires
            self.wf(),
        ensures
            v@ =~= self.host_seq(),
    {
        let mut it = self.iter_hosts();
        let mut v: Vec<u32> = Vec::new();
        loop
            invariant
                it.wf(),
                v@ + it.remaining() =~= self.host_seq(),
            decreases it.remaining().len(),
        {
            match it.next() {
                Some(h) => {
                    v.push(h);
                },
                None => {
                    return v;
                },
            }
        }
    }
}

proof fn lemma_network_bound(network: u32, prefix: u8)
    requires
        prefix <= 32,
        network & mask_of(prefix) == network,
    ensures
        network + pow2((32 - prefix) as nat) <= 0x1_0000_0000,
{
    let k: u64 = (32 - prefix) as u64;
    assert((network as u64) + (1u64 << k) <= 0x1_0000_0000u64) by (bit_vector)
        requires
            k == (32 - prefix) as u64,
            prefix <= 32,
            network & mask_of(prefix) == network,
    ;
    lemma_u64_pow2_no_overflow(k as nat);
    lemma_u64_shl_is_mul(1u64, k);
}

/// For any block wide enough to have the carve-out (prefix at most
/// 30), the enumerated hosts are exactly the addresses strictly between
/// the network address and the broadcast address, in ascending order.
pub proof fn lemma_hosts_exclude_network_and_broadcast(sub: Ipv4Subnet)
    requires
        sub.wf(),
        sub.prefix <= 30,
    ensures
        sub.host_seq().len() == sub.total_spec() - 2,
        forall|i: int|
            0 <= i < sub.host_seq().len() ==> #[trigger] sub.host_seq()[i] == sub.network + 1 + i,
        forall|i: int|
            0 <= i < sub.host_seq().len() ==> sub.network < #[trigger] sub.host_seq()[i]
                < sub.network + sub.total_spec() - 1,
{
    lemma_network_bound(sub.network, sub.prefix);
    lemma2_to64();
    if 32 - sub.prefix > 2 {
        lemma_pow2_strictly_increases(2, (32 - sub.prefix) as nat);
    }
}

/// A finite, restartable walk over a subnet's usable hosts.
pub struct SubnetHostIter {
    current: u32,
    end: u32,
    finished: bool,
}

impl SubnetHostIter {
    /// The hosts not yet handed out.
    pub closed spec fn remaining(self) -> Seq<u32> {
        if self.finished {
            Seq::empty()
        } else {
            Seq::new((self.end - self.current + 1) as nat, |i: int| (self.current + i) as u32)
        }
    }

    pub closed spec fn wf(self) -> bool {
        self.finished || self.current <= self.end
    }

    /// A walk over nothing at all.
    pub fn empty() -> (it: SubnetHostIter)
        ensures
            it.wf(),
            it.remaining() =~= Seq::<u32>::empty(),
    {
        SubnetHostIter { current: 0, end: 0, finished: true }
    }

    /// The next host, in ascending order, until none are left.
    pub fn next(&mut self) -> (r: Option<u32>)
        requires
            old(self).wf(),
        ensures
            final(self).wf(),
            old(self).remaining().len() == 0 ==> r is None && final(self).remaining()
                =~= Seq::<u32>::empty(),
            old(self).remaining().len() > 0 ==> r == Some(old(self).remaining()[0]) && final(self).remaining() =~= old(self).remaining().drop_first(),
    {
        if self.finished {
            return None;
        }
        let addr = self.current;
        if self.current == self.end {
            self.finished = true;
        } else {
            self.current = self.current + 1;
        }
        Some(addr)
    }
}

/// Every subnet that valid CIDR text parses to is well formed and
/// carries the prefix the text spells, so the host-count rule of
/// `host_count` applies to it verbatim.
pub proof fn lemma_cidr_parse_ok(s: Seq<char>, sub: Ipv4Subnet)
    requires
        cidr_parse(s) == Ok::<Ipv4Subnet, Seq<char>>(sub),
    ensures
        sub.wf(),
        sub.prefix == dec_val(s.subrange(find_from(s, '/', 0) + 1, s.len() as int)),
{
    let sl = find_from(s, '/', 0);
    let pre_text = s.subrange(sl + 1, s.len() as int);
    lemma_dec_val_bounds(pre_text);
    let prefix = dec_val(pre_text) as u8;
    let ip = ipv4_value(s.subrange(0, sl)) as u32;
    assert(sub.network == ip & mask_of(prefix));
    assert((ip & mask_of(prefix)) & mask_of(prefix) == ip & mask_of(prefix)) by (bit_vector);
}

} // verus!
