//! IPv4 and socket addresses.

use vstd::prelude::*;
use crate::text;

verus! {

/// An IPv4 address.
#[derive(Clone, Copy, Debug, PartialEq, Eq, Hash, Structural)]
pub struct Ipv4Addr {
    pub a: u8,
    pub b: u8,
    pub c: u8,
    pub d: u8,
}

/// A socket address of either family.
#[derive(Clone, Copy, Debug, PartialEq, Eq, Hash, Structural)]
pub enum SocketAddr {
    V4 { ip: Ipv4Addr, port: u16 },
    V6 { address: u128, port: u16, flowinfo: u32, scope_id: u32 },
}

/// The number that a dotted octet spells: one to three digits without a leading zero, at most
/// 255.
pub open spec fn octet_value(s: Seq<char>) -> Option<nat> {
    if 1 <= s.len() <= 3 && !(s.len() > 1 && s[0] == '0') {
        match text::digits_value(s, 10) {
            Some(v) => if v <= 255 {
                Some(v)
            } else {
                None
            },
            None => None,
        }
    } else {
        None
    }
}

/// The address that four octets separated by dots spell.
pub open spec fn parsed_ipv4(s: Seq<char>) -> Option<Ipv4Addr> {
    let p = text::split(s, '.');
    if p.len() == 4 && octet_value(p[0]) is Some && octet_value(p[1]) is Some && octet_value(
        p[2],
    ) is Some && octet_value(p[3]) is Some {
        Some(
            Ipv4Addr {
                a: octet_value(p[0])->0 as u8,
                b: octet_value(p[1])->0 as u8,
                c: octet_value(p[2])->0 as u8,
                d: octet_value(p[3])->0 as u8,
            },
        )
    } else {
        None
    }
}

fn octet(s: &[char]) -> (r: Option<u8>)
    ensures
        match r {
            Some(v) => octet_value(s@) == Some(v as nat),
            None => octet_value(s@) is None,
        },
{
    if s.len() == 0 || s.len() > 3 || (s.len() > 1 && s[0] == '0') {
        return None;
    }
    if s[0] == '+' {
        proof {
            lemma_bad_first_digit(s@);
        }
        return None;
    }
    match text::parse_number(s, 10, 255) {
        Some(v) => Some(v as u8),
        None => None,
    }
}

proof fn lemma_bad_first_digit(s: Seq<char>)
    requires
        s.len() > 0,
        text::digit_value(s[0], 10) is None,
    ensures
        text::digits_value(s, 10) is None,
    decreases s.len(),
{
    if s.len() > 1 {
        lemma_bad_first_digit(s.drop_last());
    }
}

impl Ipv4Addr {
    pub fn new(a: u8, b: u8, c: u8, d: u8) -> (r: Self)
        ensures
            r == (Ipv4Addr { a, b, c, d }),
    {
        Ipv4Addr { a, b, c, d }
    }

    /// The four bytes of the address in network order.
    pub open spec fn bytes(self) -> Seq<u8> {
        seq![self.a, self.b, self.c, self.d]
    }

    /// The address as a 32-bit number.
    pub open spec fn number(self) -> nat {
        (self.a * 0x100_0000 + self.b * 0x1_0000 + self.c * 0x100 + self.d) as nat
    }

    /// The four bytes of the address in network order.
    pub fn octets(&self) -> (r: [u8; 4])
        ensures
            r@ == self.bytes(),
    {
        let r: [u8; 4] = [self.a, self.b, self.c, self.d];
        assert(r@ =~= self.bytes());
        r
    }

    /// Whether this is 0.0.0.0.
    pub open spec fn unspecified(self) -> bool {
        self == (Ipv4Addr { a: 0, b: 0, c: 0, d: 0 })
    }

    /// Whether this is 0.0.0.0.
    pub fn is_unspecified(&self) -> (r: bool)
        ensures
            r == self.unspecified(),
    {
        self.a == 0 && self.b == 0 && self.c == 0 && self.d == 0
    }

    /// The address as a 32-bit number.
    pub fn to_number(&self) -> (r: u32)
        ensures
            r == self.number(),
    {
        self.a as u32 * 0x100_0000 + self.b as u32 * 0x1_0000 + self.c as u32 * 0x100
            + self.d as u32
    }

    /// The address that a 32-bit number stands for.
    pub fn from_number(n: u32) -> (r: Self)
        ensures
            r.number() == n,
    {
        Ipv4Addr {
            a: (n / 0x100_0000) as u8,
            b: (n / 0x1_0000 % 0x100) as u8,
            c: (n / 0x100 % 0x100) as u8,
            d: (n % 0x100) as u8,
        }
    }

    /// The dotted notation of the address.
    pub open spec fn dotted(self) -> Seq<char> {
        text::decimal(self.a as nat).push('.') + text::decimal(self.b as nat).push('.') + text::decimal(
            self.c as nat,
        ).push('.') + text::decimal(self.d as nat)
    }

    /// The dotted notation of the address.
    pub fn text(&self) -> (r: String)
        ensures
            r@ == self.dotted(),
    {
        let mut r = String::new();
        text::push_number(&mut r, self.a as u64, 10);
        r.push('.');
        text::push_number(&mut r, self.b as u64, 10);
        r.push('.');
        text::push_number(&mut r, self.c as u64, 10);
        r.push('.');
        text::push_number(&mut r, self.d as u64, 10);
        assert(r@ =~= self.dotted());
        r
    }

    /// Reads the dotted notation.
    pub fn parse(s: &[char]) -> (r: Option<Self>)
        ensures
            r == parsed_ipv4(s@),
    {
        let p = text::split_at(s, '.');
        let ghost v = text::split(s@, '.');
        assert(text::slice_views(p@).len() == p@.len());
        if p.len() != 4 {
            return None;
        }
        proof {
            assert(text::slice_views(p@)[0] == p@[0]@);
            assert(text::slice_views(p@)[1] == p@[1]@);
            assert(text::slice_views(p@)[2] == p@[2]@);
            assert(text::slice_views(p@)[3] == p@[3]@);
        }
        match (octet(p[0]), octet(p[1]), octet(p[2]), octet(p[3])) {
            (Some(a), Some(b), Some(c), Some(d)) => Some(Ipv4Addr { a, b, c, d }),
            _ => None,
        }
    }
}

/// The address of four bytes in network order.
pub open spec fn ipv4_of(s: Seq<u8>) -> Ipv4Addr {
    Ipv4Addr { a: s[0], b: s[1], c: s[2], d: s[3] }
}

/// An optional address as text.
pub fn parse_ipv4_text(s: &str) -> (r: Option<Ipv4Addr>)
    ensures
        r == parsed_ipv4(s@),
{
    let c = text::chars_of(s);
    Ipv4Addr::parse(&c)
}

/// The address of the socket that `arg` names: `full` where it reads as a whole socket address,
/// else a bare IPv4 address at `default_port`.
pub open spec fn target_of(
    arg: Seq<char>,
    full: Option<SocketAddr>,
    default_port: u16,
) -> Option<SocketAddr> {
    match full {
        Some(addr) => Some(addr),
        None => match parsed_ipv4(arg) {
            Some(ip) => Some(SocketAddr::V4 { ip, port: default_port }),
            None => None,
        },
    }
}

/// The socket that `arg` names: `full` where it reads as a whole socket address, else a bare IPv4
/// address at `default_port`.
pub fn parse_target(arg: &str, full: Option<SocketAddr>, default_port: u16) -> (r: Option<
    SocketAddr,
>)
    ensures
        r == target_of(arg@, full, default_port),
{
    match full {
        Some(addr) => Some(addr),
        None => match parse_ipv4_text(arg) {
            Some(ip) => Some(SocketAddr::V4 { ip, port: default_port }),
            None => None,
        },
    }
}

impl SocketAddr {
    /// The IPv4 address of the socket; 0.0.0.0 for a socket of the other family.
    pub open spec fn v4(self) -> Ipv4Addr {
        match self {
            SocketAddr::V4 { ip, .. } => ip,
            SocketAddr::V6 { .. } => Ipv4Addr { a: 0, b: 0, c: 0, d: 0 },
        }
    }

    /// The IPv4 address of the socket; 0.0.0.0 for a socket of the other family.
    pub fn target_v4(&self) -> (r: Ipv4Addr)
        ensures
            r == self.v4(),
    {
        match self {
            SocketAddr::V4 { ip, .. } => *ip,
            SocketAddr::V6 { .. } => Ipv4Addr::new(0, 0, 0, 0),
        }
    }
}

/// An octet in decimal notation has up to three digits, no dot and no zero in front.
proof fn lemma_octet(n: nat)
    requires
        n <= 255,
    ensures
        octet_value(text::decimal(n)) == Some(n),
        forall|i: int| 0 <= i < text::decimal(n).len() ==> #[trigger] text::decimal(n)[i] != '.',
{
    reveal_with_fuel(text::number_text, 4);
    text::law_number_round_trip(n, 10, 255);
    text::law_numbers_are_plain(n, 10);
    assert(text::decimal(n).len() <= 3);
}

/// An octet is written only in decimal notation.
proof fn lemma_octet_text(s: Seq<char>)
    requires
        octet_value(s) is Some,
    ensures
        s == text::decimal(octet_value(s)->0),
{
    reveal_with_fuel(text::number_text, 4);
    reveal_with_fuel(text::digits_value, 4);
    let v = octet_value(s)->0;
    let high = s.drop_last();
    if s.len() == 1 {
        assert(high =~= Seq::empty());
        assert(s =~= text::decimal(v));
    } else if s.len() == 2 {
        assert(high.drop_last() =~= Seq::empty());
        assert(s =~= text::decimal(v));
    } else {
        assert(high.drop_last().drop_last() =~= Seq::empty());
        assert(s =~= text::decimal(v));
    }
}

/// A text is an address exactly where it is the dotted notation of that address: four octets,
/// none over 255, none with a zero in front.
pub proof fn law_addresses_are_dotted(s: Seq<char>, ip: Ipv4Addr)
    ensures
        parsed_ipv4(s) == Some(ip) <==> s == ip.dotted(),
        ip.dotted() == text::decimal(ip.a as nat) + seq!['.'] + text::decimal(ip.b as nat)
            + seq!['.'] + text::decimal(ip.c as nat) + seq!['.'] + text::decimal(ip.d as nat),
{
    let a = text::decimal(ip.a as nat);
    let b = text::decimal(ip.b as nat);
    let c = text::decimal(ip.c as nat);
    let d = text::decimal(ip.d as nat);
    let parts = seq![a, b, c, d];
    lemma_octet(ip.a as nat);
    lemma_octet(ip.b as nat);
    lemma_octet(ip.c as nat);
    lemma_octet(ip.d as nat);
    lemma_four_joined(parts);
    assert(ip.dotted() =~= a + seq!['.'] + b + seq!['.'] + c + seq!['.'] + d);
    assert(text::joined(parts, '.') =~= ip.dotted());
    assert(text::free_of(parts, '.')) by {
        assert forall|p: int, j: int|
            0 <= p < parts.len() && 0 <= j < parts[p].len() implies #[trigger] parts[p][j]
            != '.' by {
            if p == 0 {
                assert(a[j] != '.');
            } else if p == 1 {
                assert(b[j] != '.');
            } else if p == 2 {
                assert(c[j] != '.');
            } else {
                assert(d[j] != '.');
            }
        }
    }
    text::law_split_inverts_join(parts, '.');
    assert(parsed_ipv4(ip.dotted()) == Some(ip));
    if parsed_ipv4(s) == Some(ip) {
        let p = text::split(s, '.');
        text::law_split_takes_apart(s, '.');
        lemma_octet_text(p[0]);
        lemma_octet_text(p[1]);
        lemma_octet_text(p[2]);
        lemma_octet_text(p[3]);
        assert(p =~= parts);
    }
}

proof fn lemma_four_joined(p: Seq<Seq<char>>)
    requires
        p.len() == 4,
    ensures
        text::joined(p, '.') == p[0] + seq!['.'] + p[1] + seq!['.'] + p[2] + seq!['.'] + p[3],
{
    reveal_with_fuel(text::joined, 4);
    assert(text::joined(p, '.') =~= p[0] + seq!['.'] + p[1] + seq!['.'] + p[2] + seq!['.'] + p[3]);
}

/// The number of an address counts its octets from the first down, and its bytes are the octets
/// in order; addresses with the same number are the same, and only 0.0.0.0 is unspecified.
pub proof fn law_address_octets(x: Ipv4Addr, y: Ipv4Addr)
    ensures
        x.number() == x.a * 0x100_0000 + x.b * 0x1_0000 + x.c * 0x100 + x.d,
        x.number() == y.number() <==> x == y,
        ipv4_of(x.bytes()) == x,
        x.bytes() == seq![x.a, x.b, x.c, x.d],
        x.unspecified() <==> x.number() == 0,
{
}

/// A target is what was given in full, or else the address that was given at the usual port; what
/// is neither is no target.
pub proof fn law_targets(arg: Seq<char>, full: Option<SocketAddr>, default_port: u16, ip: Ipv4Addr)
    ensures
        full is Some ==> target_of(arg, full, default_port) == full,
        full is None ==> (target_of(arg, full, default_port) == Some(
            SocketAddr::V4 { ip, port: default_port },
        ) <==> arg == ip.dotted()),
{
    law_addresses_are_dotted(arg, ip);
}

} // verus!
