//! Peer transport addresses and IPv4 network matching.

use crate::mp::IpAddress;
use crate::text::{
    is_digit,
    parse_unsigned,
    push_decimal,
    push_str,
    spec_decimal,
    spec_parse_unsigned,
    spec_split_once,
    split_once,
};
use vstd::prelude::*;

verus! {

/// A peer's transport address: IP address and TCP port.
#[derive(Debug, Clone, Copy, PartialEq, Eq, Hash, Structural)]
pub struct SocketAddress {
    pub ip: IpAddress,
    pub port: u16,
}

impl SocketAddress {
    pub fn new(ip: IpAddress, port: u16) -> (r: Self)
        ensures
            r.ip == ip,
            r.port == port,
    {
        SocketAddress { ip, port }
    }

    /// Whether two addresses are the same.
    pub fn same(&self, other: &SocketAddress) -> (r: bool)
        ensures
            r == (*self == *other),
    {
        let ip_eq = match (self.ip, other.ip) {
            (IpAddress::V4(a), IpAddress::V4(b)) => a == b,
            (IpAddress::V6(a), IpAddress::V6(b)) => a == b,
            _ => false,
        };
        ip_eq && self.port == other.port
    }
}

/// The top `len` bits of a 32-bit address (all 32 from `len` 32 on; none for 0).
pub open spec fn spec_high_bits(a: u32, len: u8) -> u32 {
    if len == 0 {
        0
    } else if len >= 32 {
        a
    } else {
        a >> ((32 - len) as u32)
    }
}

/// The top `len` bits of a 32-bit address.
pub fn high_bits(a: u32, len: u8) -> (r: u32)
    ensures
        r == spec_high_bits(a, len),
{
    if len == 0 {
        0
    } else if len >= 32 {
        a
    } else {
        a >> ((32 - len) as u32)
    }
}

/// Whether `a` and `b` agree on their top `len` bits.
pub open spec fn same_network(a: u32, b: u32, len: u8) -> bool {
    spec_high_bits(a, len) == spec_high_bits(b, len)
}

/// Law of networks: two addresses lie in the same network of length `len`
/// exactly when they agree on their top `len` bits, that is when shifting
/// out the low `32 - len` bits leaves the same number. Every address lies in
/// the network of length 0, and a network of length 32 holds one address.
pub proof fn lemma_same_network_bits(a: u32, b: u32, len: u8)
    requires
        len <= 32,
    ensures
        1 <= len ==> (same_network(a, b, len) <==> a >> ((32 - len) as u32) == b >> ((32 - len) as u32)),
        len == 0 ==> same_network(a, b, len),
        len == 32 ==> (same_network(a, b, len) <==> a == b),
{
    if len == 32 {
        assert(a >> 0u32 == a && b >> 0u32 == b) by (bit_vector);
    }
}

/// One octet of dotted-quad text: one to three digits, no leading zero
/// unless it is the single digit `0`, and at most 255.
pub open spec fn spec_parse_octet(cs: Seq<char>) -> Option<nat> {
    if 1 <= cs.len() <= 3 && is_digit(cs[0]) && !(cs.len() > 1 && cs[0] == '0') {
        spec_parse_unsigned(cs, 255)
    } else {
        None
    }
}

/// Dotted-quad IPv4 text (`a.b.c.d`), as a 32-bit number.
pub open spec fn spec_parse_ipv4(cs: Seq<char>) -> Option<u32> {
    match spec_split_once(cs, '.') {
        None => None,
        Some((a, r1)) => match spec_split_once(r1, '.') {
            None => None,
            Some((b, r2)) => match spec_split_once(r2, '.') {
                None => None,
                Some((c, d)) => match (
                    spec_parse_octet(a),
                    spec_parse_octet(b),
                    spec_parse_octet(c),
                    spec_parse_octet(d),
                ) {
                    (Some(a), Some(b), Some(c), Some(d)) => Some(
                        (a * 16777216 + b * 65536 + c * 256 + d) as u32,
                    ),
                    _ => None,
                },
            },
        },
    }
}

/// Reads one octet of dotted-quad text.
pub fn parse_octet(cs: &[char]) -> (r: Option<u32>)
    ensures
        match spec_parse_octet(cs@) {
            Some(v) => r == Some(v as u32),
            None => r is None,
        },
{
    if cs.len() < 1 || cs.len() > 3 {
        return None;
    }
    if !(cs[0] >= '0' && cs[0] <= '9') {
        return None;
    }
    if cs.len() > 1 && cs[0] == '0' {
        return None;
    }
    match parse_unsigned(cs, 255) {
        Some(v) => Some(v as u32),
        None => None,
    }
}

/// Reads dotted-quad IPv4 text.
pub fn parse_ipv4(cs: &[char]) -> (r: Option<u32>)
    ensures
        r == spec_parse_ipv4(cs@),
{
    let (a, r1) = match split_once(cs, '.') {
        Some(p) => p,
        None => return None,
    };
    let (b, r2) = match split_once(&r1, '.') {
        Some(p) => p,
        None => return None,
    };
    let (c, d) = match split_once(&r2, '.') {
        Some(p) => p,
        None => return None,
    };
    let oa = parse_octet(&a);
    let ob = parse_octet(&b);
    let oc = parse_octet(&c);
    let od = parse_octet(&d);
    match (oa, ob, oc, od) {
        (Some(x), Some(y), Some(z), Some(w)) => Some(x * 16777216 + y * 65536 + z * 256 + w),
        _ => None,
    }
}

/// Dotted-quad text of a 32-bit IPv4 address.
pub open spec fn spec_ipv4_text(a: u32) -> Seq<char> {
    spec_decimal(a as nat / 16777216) + seq!['.'] + spec_decimal((a as nat / 65536) % 256) + seq!['.']
        + spec_decimal((a as nat / 256) % 256) + seq!['.'] + spec_decimal(a as nat % 256)
}

/// Appends the dotted-quad text of `a`.
pub fn push_ipv4(out: &mut String, a: u32)
    ensures
        final(out)@ == old(out)@ + spec_ipv4_text(a),
{
    proof {
        reveal_strlit(".");
    }
    push_decimal(out, (a / 16777216) as u64);
    push_str(out, ".");
    push_decimal(out, ((a / 65536) % 256) as u64);
    push_str(out, ".");
    push_decimal(out, ((a / 256) % 256) as u64);
    push_str(out, ".");
    push_decimal(out, (a % 256) as u64);
    assert(final(out)@ =~= old(out)@ + spec_ipv4_text(a));
}

/// The lower-case hexadecimal digit for `d` (`d < 16`).
pub open spec fn hex_char(d: nat) -> char {
    if d < 10 {
        (48 + d) as char
    } else {
        (87 + d) as char
    }
}

/// Lower-case hexadecimal digits of `n`, without leading zeros.
pub open spec fn spec_hex(n: nat) -> Seq<char>
    decreases n,
{
    if n < 16 {
        seq![hex_char(n)]
    } else {
        spec_hex(n / 16).push(hex_char(n % 16))
    }
}

/// 65536 to the power `n`.
pub open spec fn pow65536(n: nat) -> nat
    decreases n,
{
    if n == 0 {
        1
    } else {
        65536 * pow65536((n - 1) as nat)
    }
}

/// The eight 16-bit groups of an IPv6 address, most significant first.
pub open spec fn ipv6_segments(a: u128) -> Seq<u16> {
    Seq::new(8, |i: int| ((a as nat / pow65536((7 - i) as nat)) % 65536) as u16)
}

/// The longest run of zero groups so far and the current run, each as
/// (start, length); a later run replaces the longest only when longer.
pub open spec fn zero_runs(segs: Seq<u16>) -> (int, int, int, int)
    decreases segs.len(),
{
    if segs.len() == 0 {
        (0, 0, 0, 0)
    } else {
        let (bs, bl, cs, cl) = zero_runs(segs.drop_last());
        let i = segs.len() - 1;
        if segs.last() == 0 {
            let cs2 = if cl == 0 {
                i
            } else {
                cs
            };
            if cl + 1 > bl {
                (cs2, cl + 1, cs2, cl + 1)
            } else {
                (bs, bl, cs2, cl + 1)
            }
        } else {
            (bs, bl, 0, 0)
        }
    }
}

/// Groups in hexadecimal, separated by colons.
pub open spec fn hex_groups(s: Seq<u16>) -> Seq<char>
    decreases s.len(),
{
    if s.len() == 0 {
        Seq::empty()
    } else if s.len() == 1 {
        spec_hex(s[0] as nat)
    } else {
        hex_groups(s.drop_last()) + seq![':'] + spec_hex(s.last() as nat)
    }
}

/// IPv6 text as std writes it (RFC 5952): an IPv4-mapped address as
/// `::ffff:a.b.c.d`; otherwise lower-case groups, with the first longest run
/// of two or more zero groups written `::`.
pub open spec fn spec_ipv6_text(a: u128) -> Seq<char> {
    let segs = ipv6_segments(a);
    if segs[0] == 0 && segs[1] == 0 && segs[2] == 0 && segs[3] == 0 && segs[4] == 0 && segs[5]
        == 0xffff {
        seq![':', ':', 'f', 'f', 'f', 'f', ':'] + spec_ipv4_text((a as nat % 0x1_0000_0000) as u32)
    } else {
        let (bs, bl, cs, cl) = zero_runs(segs);
        if bl > 1 {
            hex_groups(segs.take(bs)) + seq![':', ':'] + hex_groups(segs.skip(bs + bl))
        } else {
            hex_groups(segs)
        }
    }
}

/// Appends the hexadecimal digits of `n`.
pub fn push_hex(out: &mut String, n: u16)
    ensures
        final(out)@ == old(out)@ + spec_hex(n as nat),
    decreases n,
{
    if n >= 16 {
        push_hex(out, n / 16);
    }
    push_str(out, hex_digit_str(n % 16));
    assert(final(out)@ =~= old(out)@ + spec_hex(n as nat));
}

/// The one-character text of a hexadecimal digit.
fn hex_digit_str(d: u16) -> (r: &'static str)
    requires
        d < 16,
    ensures
        r@ == seq![hex_char(d as nat)],
{
    if d < 10 {
        return crate::text::digit_str(d as u64);
    }
    proof {
        reveal_strlit("a");
        reveal_strlit("b");
        reveal_strlit("c");
        reveal_strlit("d");
        reveal_strlit("e");
        reveal_strlit("f");
    }
    let r = if d == 10 {
        "a"
    } else if d == 11 {
        "b"
    } else if d == 12 {
        "c"
    } else if d == 13 {
        "d"
    } else if d == 14 {
        "e"
    } else {
        "f"
    };
    assert(r@ =~= seq![hex_char(d as nat)]);
    r
}

/// Appends groups in hexadecimal, separated by colons.
fn push_hex_groups(out: &mut String, segs: &[u16], from: usize, to: usize)
    requires
        from <= to <= segs@.len(),
    ensures
        final(out)@ == old(out)@ + hex_groups(segs@.subrange(from as int, to as int)),
{
    proof {
        reveal_strlit(":");
    }
    let mut i: usize = from;
    assert(segs@.subrange(from as int, from as int) =~= Seq::<u16>::empty());
    while i < to
        invariant
            from <= i <= to <= segs@.len(),
            out@ == old(out)@ + hex_groups(segs@.subrange(from as int, i as int)),
        decreases to - i,
    {
        proof {
            reveal_strlit(":");
            assert(":"@ =~= seq![':']);
            assert(segs@.subrange(from as int, i + 1).drop_last() =~= segs@.subrange(from as int, i as int));
            assert(segs@.subrange(from as int, i + 1).last() == segs@[i as int]);
        }
        if i > from {
            push_str(out, ":");
        }
        push_hex(out, segs[i]);
        i = i + 1;
        proof {
            if i - 1 == from {
                assert(segs@.subrange(from as int, i as int) =~= seq![segs@[from as int]]);
            }
            assert(out@ =~= old(out)@ + hex_groups(segs@.subrange(from as int, i as int)));
        }
    }
}

/// The eight 16-bit groups of an IPv6 address.
pub fn ipv6_groups(a: u128) -> (r: Vec<u16>)
    ensures
        r@ == ipv6_segments(a),
{
    let mut groups: Vec<u16> = vec![0u16, 0, 0, 0, 0, 0, 0, 0];
    let mut rest: u128 = a;
    let mut k: usize = 0;
    assert(pow65536(0) == 1);
    assert(a as nat / 1 == a as nat);
    while k < 8
        invariant
            k <= 8,
            groups@.len() == 8,
            rest as nat == a as nat / pow65536(k as nat),
            forall|j: int| 8 - k <= j < 8 ==> groups@[j] == ipv6_segments(a)[j],
        decreases 8 - k,
    {
        proof {
            assert(pow65536((k + 1) as nat) == 65536 * pow65536(k as nat));
            lemma_pow65536_positive(k as nat);
            vstd::arithmetic::div_mod::lemma_div_denominator(a as int, pow65536(k as nat) as int, 65536);
            assert(pow65536(k as nat) * 65536 == 65536 * pow65536(k as nat)) by (nonlinear_arith);
        }
        groups.set(7 - k, (rest % 65536) as u16);
        rest = rest / 65536;
        k = k + 1;
    }
    assert(groups@ =~= ipv6_segments(a));
    groups
}

proof fn lemma_pow65536_positive(n: nat)
    ensures
        pow65536(n) > 0,
    decreases n,
{
    if n > 0 {
        lemma_pow65536_positive((n - 1) as nat);
    }
}

/// Appends the IPv6 text of `a`, as std writes it.
pub fn push_ipv6(out: &mut String, a: u128)
    ensures
        final(out)@ == old(out)@ + spec_ipv6_text(a),
{
    let segs = ipv6_groups(a);
    if segs[0] == 0 && segs[1] == 0 && segs[2] == 0 && segs[3] == 0 && segs[4] == 0 && segs[5]
        == 0xffff {
        proof {
            reveal_strlit("::ffff:");
        }
        push_str(out, "::ffff:");
        push_ipv4(out, (a % 0x1_0000_0000) as u32);
        assert(final(out)@ =~= old(out)@ + spec_ipv6_text(a));
        return;
    }
    let mut bs: usize = 0;
    let mut bl: usize = 0;
    let mut cs: usize = 0;
    let mut cl: usize = 0;
    let mut i: usize = 0;
    while i < 8
        invariant
            i <= 8,
            segs@ == ipv6_segments(a),
            zero_runs(segs@.take(i as int)) == (bs as int, bl as int, cs as int, cl as int),
            bs + bl <= i,
            cs + cl <= i,
            cl > 0 ==> cs + cl == i,
        decreases 8 - i,
    {
        proof {
            assert(segs@.take(i + 1).drop_last() =~= segs@.take(i as int));
        }
        if segs[i] == 0 {
            if cl == 0 {
                cs = i;
            }
            cl = cl + 1;
            if cl > bl {
                bs = cs;
                bl = cl;
            }
        } else {
            cs = 0;
            cl = 0;
        }
        i = i + 1;
    }
    assert(segs@.take(8) =~= segs@);
    if bl > 1 {
        proof {
            reveal_strlit("::");
            assert(segs@.subrange(0, bs as int) =~= segs@.take(bs as int));
            assert(segs@.subrange((bs + bl) as int, 8) =~= segs@.skip((bs + bl) as int));
        }
        push_hex_groups(out, segs.as_slice(), 0, bs);
        push_str(out, "::");
        push_hex_groups(out, segs.as_slice(), bs + bl, 8);
    } else {
        assert(segs@.subrange(0, 8) =~= segs@);
        push_hex_groups(out, segs.as_slice(), 0, 8);
    }
    assert(final(out)@ =~= old(out)@ + spec_ipv6_text(a));
}

/// The text of an IP address, as std writes it.
pub open spec fn spec_ip_text(ip: IpAddress) -> Seq<char> {
    match ip {
        IpAddress::V4(a) => spec_ipv4_text(a),
        IpAddress::V6(a) => spec_ipv6_text(a),
    }
}

/// The text of a transport address, as std writes it: `a.b.c.d:port`, or
/// `[v6]:port`.
pub open spec fn spec_socket_text(s: SocketAddress) -> Seq<char> {
    match s.ip {
        IpAddress::V4(a) => spec_ipv4_text(a) + seq![':'] + spec_decimal(s.port as nat),
        IpAddress::V6(a) => seq!['['] + spec_ipv6_text(a) + seq![']', ':'] + spec_decimal(
            s.port as nat,
        ),
    }
}

/// Appends the text of an IP address.
pub fn push_ip(out: &mut String, ip: IpAddress)
    ensures
        final(out)@ == old(out)@ + spec_ip_text(ip),
{
    match ip {
        IpAddress::V4(a) => push_ipv4(out, a),
        IpAddress::V6(a) => push_ipv6(out, a),
    }
}

/// Appends the text of a transport address.
pub fn push_socket(out: &mut String, s: SocketAddress)
    ensures
        final(out)@ == old(out)@ + spec_socket_text(s),
{
    proof {
        reveal_strlit(":");
        reveal_strlit("[");
        reveal_strlit("]:");
        assert(":"@ =~= seq![':']);
        assert("["@ =~= seq!['[']);
        assert("]:"@ =~= seq![']', ':']);
    }
    let ghost o = out@;
    match s.ip {
        IpAddress::V4(a) => {
            push_ipv4(out, a);
            push_str(out, ":");
            push_decimal(out, s.port as u64);
            assert(out@ =~= o + spec_ipv4_text(a) + seq![':'] + spec_decimal(s.port as nat));
        },
        IpAddress::V6(a) => {
            push_str(out, "[");
            push_ipv6(out, a);
            push_str(out, "]:");
            push_decimal(out, s.port as u64);
            assert(out@ =~= o + seq!['['] + spec_ipv6_text(a) + seq![']', ':'] + spec_decimal(s.port as nat));
        },
    }
}

} // verus!
