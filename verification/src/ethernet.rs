//! UDP datagrams in Ethernet frames: parsing them off a bridge and building them for injection.

use vstd::prelude::*;
use crate::bytes;
use crate::net;
use crate::net::Ipv4Addr;
use crate::text;

verus! {

/// A hardware address.
#[derive(Clone, Copy, Debug, PartialEq, Eq)]
pub struct MacAddress(pub [u8; 6]);

#[derive(Clone, Copy, Debug, PartialEq, Eq, Structural)]
pub enum EthernetError {
    Mac,
    Frame,
    TooLarge,
}

impl EthernetError {
    /// The message that describes the error.
    pub open spec fn text(self) -> Seq<char> {
        match self {
            EthernetError::Mac => "MAC address must be six hexadecimal octets"@,
            EthernetError::Frame => "Ethernet/IPv4/UDP frame is truncated or unsupported"@,
            EthernetError::TooLarge => "UDP payload is too large"@,
        }
    }

    /// The message that describes the error.
    pub fn message(&self) -> (r: &'static str)
        ensures
            r@ == self.text(),
    {
        match self {
            EthernetError::Mac => "MAC address must be six hexadecimal octets",
            EthernetError::Frame => "Ethernet/IPv4/UDP frame is truncated or unsupported",
            EthernetError::TooLarge => "UDP payload is too large",
        }
    }
}

impl View for MacAddress {
    type V = Seq<u8>;

    open spec fn view(&self) -> Seq<u8> {
        self.0@
    }
}

/// The byte that two hexadecimal digits spell.
pub open spec fn hex_octet(s: Seq<char>) -> Option<nat> {
    if s.len() == 2 {
        text::digits_value(s, 16)
    } else {
        None
    }
}

/// Reads the byte that two hexadecimal digits spell.
fn read_octet(s: &[char]) -> (r: Option<u8>)
    ensures
        match r {
            Some(v) => hex_octet(s@) == Some(v as nat),
            None => hex_octet(s@) is None,
        },
{
    if s.len() != 2 {
        return None;
    }
    proof {
        assert(s@.drop_last().drop_last() =~= Seq::empty());
        reveal_with_fuel(text::digits_value, 3);
    }
    match (text::digit_of(s[0], 16), text::digit_of(s[1], 16)) {
        (Some(high), Some(low)) => Some((high * 16 + low) as u8),
        _ => None,
    }
}

/// Whether a text is six octets separated by colons.
pub open spec fn is_mac_text(s: Seq<char>) -> bool {
    &&& text::split(s, ':').len() == 6
    &&& forall|i: int| 0 <= i < 6 ==> hex_octet(#[trigger] text::split(s, ':')[i]) is Some
}

/// The six bytes that a text of six octets spells.
pub open spec fn mac_of_text(s: Seq<char>) -> Seq<u8> {
    Seq::new(6, |i: int| hex_octet(text::split(s, ':')[i])->0 as u8)
}

impl MacAddress {
    pub fn parse(text: &str) -> (r: Result<Self, EthernetError>)
        ensures
            match r {
                Ok(mac) => is_mac_text(text@) && mac@ == mac_of_text(text@),
                Err(e) => !is_mac_text(text@) && e == EthernetError::Mac,
            },
    {
        let chars = text::chars_of(text);
        let parts = text::split_at(&chars, ':');
        let ghost pieces = text::split(text@, ':');
        assert(text::slice_views(parts@).len() == parts@.len());
        if parts.len() != 6 {
            return Err(EthernetError::Mac);
        }
        let mut out: [u8; 6] = [0; 6];
        let mut i: usize = 0;
        while i < 6
            invariant
                i <= 6,
                parts@.len() == 6,
                pieces == text::split(text@, ':'),
                text::slice_views(parts@) == pieces,
                forall|j: int| 0 <= j < i ==> hex_octet(#[trigger] pieces[j]) is Some,
                forall|j: int| 0 <= j < i ==> out@[j] == hex_octet(#[trigger] pieces[j])->0,
            decreases 6 - i,
        {
            assert(text::slice_views(parts@)[i as int] == parts@[i as int]@);
            assert(pieces[i as int] == parts@[i as int]@);
            match read_octet(parts[i]) {
                Some(v) => {
                    out[i] = v;
                },
                None => {
                    assert(hex_octet(pieces[i as int]) is None);
                    return Err(EthernetError::Mac);
                },
            }
            i = i + 1;
        }
        assert(out@ =~= mac_of_text(text@));
        Ok(MacAddress(out))
    }

    /// Whether the two addresses are the same.
    pub fn same(&self, other: &MacAddress) -> (r: bool)
        ensures
            r == (self@ == other@),
    {
        bytes::same_bytes(&self.0, &other.0)
    }
}

/// A UDP datagram inside an Ethernet frame.
#[derive(Clone, Copy, Debug)]
pub struct EthernetUdp<'a> {
    pub source_mac: MacAddress,
    pub destination_mac: MacAddress,
    pub source_ip: Ipv4Addr,
    pub destination_ip: Ipv4Addr,
    pub source_port: u16,
    pub destination_port: u16,
    pub payload: &'a [u8],
}

/// What a UDP datagram inside an Ethernet frame holds.
pub struct UdpView {
    pub source_mac: Seq<u8>,
    pub destination_mac: Seq<u8>,
    pub source_ip: Ipv4Addr,
    pub destination_ip: Ipv4Addr,
    pub source_port: u16,
    pub destination_port: u16,
    pub payload: Seq<u8>,
}

impl<'a> View for EthernetUdp<'a> {
    type V = UdpView;

    open spec fn view(&self) -> UdpView {
        UdpView {
            source_mac: self.source_mac@,
            destination_mac: self.destination_mac@,
            source_ip: self.source_ip,
            destination_ip: self.destination_ip,
            source_port: self.source_port,
            destination_port: self.destination_port,
            payload: self.payload@,
        }
    }
}

/// Where the IPv4 packet starts in a frame whose type field stands at `at`, VLAN tags skipped.
pub open spec fn ipv4_start(frame: Seq<u8>, at: int) -> Option<int>
    decreases frame.len() + 4 - at,
{
    if frame.len() < at + 2 {
        None
    } else {
        let ether_type = bytes::be_value(frame.subrange(at, at + 2));
        if ether_type == 0x8100 || ether_type == 0x88a8 {
            ipv4_start(frame, at + 4)
        } else if ether_type == 0x0800 {
            Some(at + 2)
        } else {
            None
        }
    }
}

/// Finds where the IPv4 packet starts in a frame, VLAN tags skipped.
pub fn find_ipv4(frame: &[u8]) -> (r: Option<usize>)
    ensures
        match r {
            Some(at) => ipv4_start(frame@, 12) == Some(at as int) && 14 <= at <= frame@.len(),
            None => ipv4_start(frame@, 12) is None,
        },
{
    let mut at: usize = 12;
    loop
        invariant
            12 <= at,
            ipv4_start(frame@, 12) == ipv4_start(frame@, at as int),
        decreases frame@.len() - at,
    {
        let len: usize = frame.len();
        if len < 2 || at > len - 2 {
            return None;
        }
        let ether_type: u16 = bytes::read_u16_be(frame, at);
        if ether_type == 0x8100 || ether_type == 0x88a8 {
            if len - at < 6 {
                assert(ipv4_start(frame@, at + 4) is None);
                return None;
            }
            at = at + 4;
        } else if ether_type == 0x0800 {
            return Some(at + 2);
        } else {
            return None;
        }
    }
}

/// The length in bytes of the IPv4 header that starts with this byte.
pub open spec fn header_length(first: u8) -> int {
    (first % 16) * 4
}

/// The datagram in a frame.
pub open spec fn parsed_udp(frame: Seq<u8>) -> Option<UdpView> {
    match ipv4_start(frame, 12) {
        None => None,
        Some(at) => {
            let ip = frame.skip(at);
            let ihl = header_length(ip[0]);
            let udp = ip.skip(ihl);
            let length = bytes::be_value(udp.subrange(4, 6));
            if ip.len() < 28 || ip[0] / 16 != 4 || ip[9] != 17 || ihl < 20 || ip.len() < ihl + 8
                || length < 8 || udp.len() < length {
                None
            } else {
                Some(
                    UdpView {
                        destination_mac: frame.take(6),
                        source_mac: frame.subrange(6, 12),
                        source_ip: net::ipv4_of(ip.subrange(12, 16)),
                        destination_ip: net::ipv4_of(ip.subrange(16, 20)),
                        source_port: bytes::be_value(udp.take(2)) as u16,
                        destination_port: bytes::be_value(udp.subrange(2, 4)) as u16,
                        payload: udp.subrange(8, length as int),
                    },
                )
            }
        },
    }
}

proof fn lemma_ipv4_start(frame: Seq<u8>, at: int)
    requires
        0 <= at,
    ensures
        ipv4_start(frame, at) matches Some(start) ==> at + 2 <= start <= frame.len(),
    decreases frame.len() + 4 - at,
{
    if frame.len() >= at + 2 {
        lemma_ipv4_start(frame, at + 4);
    }
}

/// The datagram in a frame is no longer than the frame.
pub proof fn lemma_payload_fits(frame: Seq<u8>)
    ensures
        parsed_udp(frame) matches Some(d) ==> d.payload.len() <= frame.len(),
{
    lemma_ipv4_start(frame, 12);
}

fn mac_at(frame: &[u8], at: usize) -> (r: MacAddress)
    requires
        at + 6 <= frame@.len(),
    ensures
        r@ == frame@.subrange(at as int, at + 6),
{
    let end: usize = frame.len();
    assert(at + 6 <= end);
    let out: [u8; 6] = [
        frame[at],
        frame[at + 1],
        frame[at + 2],
        frame[at + 3],
        frame[at + 4],
        frame[at + 5],
    ];
    assert(out@ =~= frame@.subrange(at as int, at + 6));
    MacAddress(out)
}

impl<'a> EthernetUdp<'a> {
    pub fn parse(frame: &'a [u8]) -> (r: Result<Self, EthernetError>)
        ensures
            match r {
                Ok(udp) => parsed_udp(frame@) == Some(udp@),
                Err(e) => parsed_udp(frame@) is None && e == EthernetError::Frame,
            },
    {
        let at: usize = match find_ipv4(frame) {
            Some(at) => at,
            None => return Err(EthernetError::Frame),
        };
        let ip: &'a [u8] = &frame[at..frame.len()];
        assert(ip@ =~= frame@.skip(at as int));
        if ip.len() < 28 {
            return Err(EthernetError::Frame);
        }
        if ip[0] / 16 != 4 || ip[9] != 17 {
            return Err(EthernetError::Frame);
        }
        let ihl: usize = (ip[0] % 16) as usize * 4;
        if ihl < 20 || ip.len() < ihl + 8 {
            return Err(EthernetError::Frame);
        }
        let udp: &'a [u8] = &ip[ihl..ip.len()];
        assert(udp@ =~= ip@.skip(ihl as int));
        let length: usize = bytes::read_u16_be(udp, 4) as usize;
        if length < 8 || udp.len() < length {
            return Err(EthernetError::Frame);
        }
        proof {
            assert(frame@.subrange(0, 6) =~= frame@.take(6));
            assert(udp@.subrange(0, 2) =~= udp@.take(2));
        }
        Ok(
            EthernetUdp {
                destination_mac: mac_at(frame, 0),
                source_mac: mac_at(frame, 6),
                source_ip: Ipv4Addr::new(ip[12], ip[13], ip[14], ip[15]),
                destination_ip: Ipv4Addr::new(ip[16], ip[17], ip[18], ip[19]),
                source_port: bytes::read_u16_be(udp, 0),
                destination_port: bytes::read_u16_be(udp, 2),
                payload: &udp[8..length],
            },
        )
    }
}

/// The sum of the 16-bit words of `data` in network order; a last single byte counts as the high
/// half of a word.
pub open spec fn word_sum(data: Seq<u8>) -> nat
    decreases data.len(),
{
    if data.len() == 0 {
        0
    } else if data.len() == 1 {
        (data[0] * 256) as nat
    } else {
        (data[0] * 256 + data[1]) as nat + word_sum(data.skip(2))
    }
}

/// A sum in ones' complement arithmetic on 16 bits: every carry is added in again.
pub open spec fn folded(n: nat) -> nat {
    if n == 0 {
        0
    } else {
        ((n - 1) % 65535 + 1) as nat
    }
}

/// The Internet checksum of `data`: the complement of the ones' complement sum of its words.
pub open spec fn checksum(data: Seq<u8>) -> u16 {
    (0xffff - folded(word_sum(data))) as u16
}

proof fn lemma_fold_step(total: nat, word: nat)
    requires
        word <= 65535,
    ensures
        ({
            let t = folded(total) + word;
            folded(total + word) == if t <= 65535 {
                t
            } else {
                (t - 65535) as nat
            }
        }),
        folded(total) <= 65535,
{
}

proof fn lemma_word_sum_append(data: Seq<u8>, n: int)
    requires
        0 <= n <= data.len(),
        n % 2 == 0,
    ensures
        word_sum(data) == word_sum(data.take(n)) + word_sum(data.skip(n)),
    decreases n,
{
    if n == 0 {
        assert(data.take(0) =~= Seq::empty());
        assert(data.skip(0) =~= data);
    } else {
        lemma_word_sum_append(data.skip(2), n - 2);
        assert(data.skip(2).take(n - 2) =~= data.take(n).skip(2));
        assert(data.skip(2).skip(n - 2) =~= data.skip(n));
        assert(data.take(n)[0] == data[0] && data.take(n)[1] == data[1]);
    }
}

pub fn internet_checksum(data: &[u8]) -> (r: u16)
    ensures
        r == checksum(data@),
{
    let mut sum: u32 = 0;
    let mut i: usize = 0;
    assert(data@.take(0) =~= Seq::empty());
    while i < data.len()
        invariant
            i <= data@.len(),
            i % 2 == 0 || i == data@.len(),
            sum == folded(word_sum(data@.take(i as int))),
            sum <= 65535,
        decreases data@.len() - i,
    {
        let ghost before = word_sum(data@.take(i as int));
        let single: bool = data.len() - i == 1;
        let word: u32 = if single {
            data[i] as u32 * 256
        } else {
            data[i] as u32 * 256 + data[i + 1] as u32
        };
        let next: usize = if single {
            i + 1
        } else {
            i + 2
        };
        proof {
            let head = data@.take(next as int);
            lemma_word_sum_append(head, i as int);
            assert(head.take(i as int) =~= data@.take(i as int));
            let tail = head.skip(i as int);
            assert(tail.skip(2) =~= Seq::empty() || single);
            assert(tail[0] == data@[i as int]);
            if !single {
                assert(tail[1] == data@[i + 1]);
                assert(word_sum(tail.skip(2)) == 0);
            }
            assert(word_sum(head) == before + word);
            lemma_fold_step(before, word as nat);
        }
        sum = sum + word;
        if sum > 65535 {
            sum = sum - 65535;
        }
        i = next;
    }
    assert(data@.take(i as int) =~= data@);
    (65535 - sum) as u16
}

/// The 20 bytes of an IPv4 header with this checksum field.
pub open spec fn ip_header(
    length: nat,
    identification: u16,
    sum: u16,
    source: Ipv4Addr,
    destination: Ipv4Addr,
) -> Seq<u8> {
    seq![0x45u8, 0u8] + bytes::be_bytes(length, 2) + bytes::be_bytes(identification as nat, 2)
        + bytes::be_bytes(0x4000, 2) + seq![64u8, 17u8] + bytes::be_bytes(sum as nat, 2)
        + source.bytes() + destination.bytes()
}

/// The frame that carries `payload`.
pub open spec fn udp_frame(d: UdpView, identification: u16) -> Seq<u8> {
    let length = 28 + d.payload.len();
    let sum = checksum(ip_header(length, identification, 0, d.source_ip, d.destination_ip));
    d.destination_mac + d.source_mac + bytes::be_bytes(0x0800, 2) + ip_header(
        length,
        identification,
        sum,
        d.source_ip,
        d.destination_ip,
    ) + bytes::be_bytes(d.source_port as nat, 2) + bytes::be_bytes(d.destination_port as nat, 2)
        + bytes::be_bytes(8 + d.payload.len(), 2) + bytes::zeros(2) + d.payload
}

fn build_ip_header(
    length: u16,
    identification: u16,
    sum: u16,
    source: Ipv4Addr,
    destination: Ipv4Addr,
) -> (r: Vec<u8>)
    ensures
        r@ == ip_header(length as nat, identification, sum, source, destination),
{
    let mut out: Vec<u8> = vec![0x45, 0];
    assert(out@ =~= seq![0x45u8, 0u8]);
    bytes::push_be(&mut out, length as u64, 2);
    bytes::push_be(&mut out, identification as u64, 2);
    bytes::push_be(&mut out, 0x4000, 2);
    let fixed: [u8; 2] = [64, 17];
    assert(fixed@ =~= seq![64u8, 17u8]);
    bytes::append_slice(&mut out, &fixed);
    bytes::push_be(&mut out, sum as u64, 2);
    bytes::append_slice(&mut out, &source.octets());
    bytes::append_slice(&mut out, &destination.octets());
    out
}

/// Builds the frame that carries `payload`. The UDP checksum is left out, as IPv4 permits.
pub fn build_udp_ipv4(
    source_mac: MacAddress,
    destination_mac: MacAddress,
    source_ip: Ipv4Addr,
    destination_ip: Ipv4Addr,
    source_port: u16,
    destination_port: u16,
    payload: &[u8],
    identification: u16,
) -> (r: Result<Vec<u8>, EthernetError>)
    ensures
        match r {
            Ok(frame) => 28 + payload@.len() <= 65535 && frame@ == udp_frame(
                (UdpView {
                    source_mac: source_mac@,
                    destination_mac: destination_mac@,
                    source_ip,
                    destination_ip,
                    source_port,
                    destination_port,
                    payload: payload@,
                }),
                identification,
            ),
            Err(e) => 28 + payload@.len() > 65535 && e == EthernetError::TooLarge,
        },
{
    if payload.len() > 65535 - 28 {
        return Err(EthernetError::TooLarge);
    }
    let length: u16 = (28 + payload.len()) as u16;
    let bare = build_ip_header(length, identification, 0, source_ip, destination_ip);
    let sum: u16 = internet_checksum(&bare);
    let header = build_ip_header(length, identification, sum, source_ip, destination_ip);
    let mut out: Vec<u8> = Vec::new();
    bytes::append_slice(&mut out, &destination_mac.0);
    bytes::append_slice(&mut out, &source_mac.0);
    assert(out@ =~= destination_mac@ + source_mac@);
    bytes::push_be(&mut out, 0x0800, 2);
    bytes::append_slice(&mut out, &header);
    bytes::push_be(&mut out, source_port as u64, 2);
    bytes::push_be(&mut out, destination_port as u64, 2);
    bytes::push_be(&mut out, (8 + payload.len()) as u64, 2);
    bytes::append_zeros(&mut out, 2);
    bytes::append_slice(&mut out, payload);
    Ok(out)
}

proof fn lemma_ip_header_length(
    length: nat,
    identification: u16,
    sum: u16,
    source: Ipv4Addr,
    destination: Ipv4Addr,
)
    requires
        length <= 65535,
    ensures
        ip_header(length, identification, sum, source, destination).len() == 20,
{
    bytes::lemma_byte_span();
    bytes::lemma_be_round_trip(length, 2);
    bytes::lemma_be_round_trip(identification as nat, 2);
    bytes::lemma_be_round_trip(0x4000, 2);
    bytes::lemma_be_round_trip(sum as nat, 2);
}

/// Parsing gives back the datagram that a frame was built from.
pub proof fn law_frame_round_trip(d: UdpView, identification: u16)
    requires
        d.source_mac.len() == 6,
        d.destination_mac.len() == 6,
        28 + d.payload.len() <= 65535,
    ensures
        parsed_udp(udp_frame(d, identification)) == Some(d),
{
    let length = 28 + d.payload.len();
    let sum = checksum(ip_header(length, identification, 0, d.source_ip, d.destination_ip));
    let header = ip_header(length, identification, sum, d.source_ip, d.destination_ip);
    let frame = udp_frame(d, identification);
    bytes::lemma_byte_span();
    lemma_ip_header_length(length, identification, sum, d.source_ip, d.destination_ip);
    bytes::lemma_be_round_trip(0x0800, 2);
    bytes::lemma_be_round_trip(length, 2);
    bytes::lemma_be_round_trip(identification as nat, 2);
    bytes::lemma_be_round_trip(0x4000, 2);
    bytes::lemma_be_round_trip(sum as nat, 2);
    bytes::lemma_be_round_trip(d.source_port as nat, 2);
    bytes::lemma_be_round_trip(d.destination_port as nat, 2);
    bytes::lemma_be_round_trip(8 + d.payload.len(), 2);
    assert(frame.subrange(12, 14) =~= bytes::be_bytes(0x0800, 2));
    assert(ipv4_start(frame, 12) == Some(14int));
    let ip = frame.skip(14);
    let udp = ip.skip(20);
    assert(ip.take(20) =~= header);
    assert(header[0] == 0x45 && header[9] == 17);
    assert(ip[0] == header[0] && ip[9] == header[9]);
    assert(header_length(0x45) == 20);
    assert(udp.subrange(4, 6) =~= bytes::be_bytes(8 + d.payload.len(), 2));
    assert(udp.take(2) =~= bytes::be_bytes(d.source_port as nat, 2));
    assert(udp.subrange(2, 4) =~= bytes::be_bytes(d.destination_port as nat, 2));
    assert(udp.subrange(8, 8 + d.payload.len() as int) =~= d.payload);
    assert(frame.take(6) =~= d.destination_mac);
    assert(frame.subrange(6, 12) =~= d.source_mac);
    assert(ip.subrange(12, 16) =~= d.source_ip.bytes());
    assert(ip.subrange(16, 20) =~= d.destination_ip.bytes());
}

/// The words of the IPv4 header of a built frame, its checksum among them, add up to 0xffff in
/// ones' complement arithmetic: a receiver accepts the header.
pub proof fn law_header_checksum(
    length: nat,
    identification: u16,
    source: Ipv4Addr,
    destination: Ipv4Addr,
)
    requires
        length <= 65535,
    ensures
        folded(
            word_sum(
                ip_header(
                    length,
                    identification,
                    checksum(ip_header(length, identification, 0, source, destination)),
                    source,
                    destination,
                ),
            ),
        ) == 0xffff,
{
    let bare = ip_header(length, identification, 0, source, destination);
    let total = word_sum(bare);
    let sum = checksum(bare);
    let full = ip_header(length, identification, sum, source, destination);
    lemma_ip_header_length(length, identification, 0, source, destination);
    lemma_ip_header_length(length, identification, sum, source, destination);
    bytes::lemma_byte_span();
    bytes::lemma_be_round_trip(0, 2);
    bytes::lemma_be_round_trip(sum as nat, 2);
    bytes::lemma_be_round_trip(length, 2);
    bytes::lemma_be_round_trip(identification as nat, 2);
    bytes::lemma_be_round_trip(0x4000, 2);
    lemma_word_sum_append(bare, 10);
    lemma_word_sum_append(full, 10);
    lemma_word_sum_append(bare.skip(10), 2);
    lemma_word_sum_append(full.skip(10), 2);
    assert(bare.take(10) =~= full.take(10));
    assert(bare.skip(10).skip(2) =~= full.skip(10).skip(2));
    assert(bare.skip(10).take(2) =~= bytes::be_bytes(0, 2));
    assert(full.skip(10).take(2) =~= bytes::be_bytes(sum as nat, 2));
    lemma_two_bytes(0);
    lemma_two_bytes(sum as nat);
    lemma_fold_step(total, sum as nat);
}

proof fn lemma_two_bytes(v: nat)
    requires
        v <= 65535,
    ensures
        word_sum(bytes::be_bytes(v, 2)) == v,
{
    let s = bytes::be_bytes(v, 2);
    reveal_with_fuel(bytes::be_bytes, 3);
    assert(s =~= seq![(v / 256 % 256) as u8, (v % 256) as u8]);
    assert(s.skip(2) =~= Seq::empty());
    assert(word_sum(s.skip(2)) == 0);
}

/// Where the parts of a frame stand: hardware addresses first, then the IPv4 header without
/// options, of 64 hops and the protocol number of UDP, and the UDP header without a checksum. The
/// words of the IPv4 header with its checksum add up to a multiple of 65535.
pub proof fn law_frame_layout(d: UdpView, identification: u16)
    requires
        d.source_mac.len() == 6,
        d.destination_mac.len() == 6,
        28 + d.payload.len() <= 65535,
    ensures
        ({
            let f = udp_frame(d, identification);
            &&& f.len() == 42 + d.payload.len()
            &&& f.take(6) == d.destination_mac
            &&& f.subrange(6, 12) == d.source_mac
            &&& f[12] == 0x08 && f[13] == 0x00
            &&& f[14] == 0x45 && f[15] == 0
            &&& f[16] * 256 + f[17] == 28 + d.payload.len()
            &&& f[18] * 256 + f[19] == identification
            &&& f[20] == 0x40 && f[21] == 0
            &&& f[22] == 64 && f[23] == 17
            &&& f.subrange(26, 30) == d.source_ip.bytes()
            &&& f.subrange(30, 34) == d.destination_ip.bytes()
            &&& f[34] * 256 + f[35] == d.source_port
            &&& f[36] * 256 + f[37] == d.destination_port
            &&& f[38] * 256 + f[39] == 8 + d.payload.len()
            &&& f[40] == 0 && f[41] == 0
            &&& f.skip(42) == d.payload
            &&& ((f[14] * 256 + f[15]) + (f[16] * 256 + f[17]) + (f[18] * 256 + f[19]) + (f[20]
                * 256 + f[21]) + (f[22] * 256 + f[23]) + (f[24] * 256 + f[25]) + (f[26] * 256
                + f[27]) + (f[28] * 256 + f[29]) + (f[30] * 256 + f[31]) + (f[32] * 256 + f[33]))
                % 65535 == 0
        }),
{
    let length = 28 + d.payload.len();
    let sum = checksum(ip_header(length, identification, 0, d.source_ip, d.destination_ip));
    let header = ip_header(length, identification, sum, d.source_ip, d.destination_ip);
    let f = udp_frame(d, identification);
    lemma_ip_header_length(length, identification, sum, d.source_ip, d.destination_ip);
    lemma_be_pair(0x0800);
    lemma_be_pair(length);
    lemma_be_pair(identification as nat);
    lemma_be_pair(0x4000);
    lemma_be_pair(sum as nat);
    lemma_be_pair(d.source_port as nat);
    lemma_be_pair(d.destination_port as nat);
    lemma_be_pair(8 + d.payload.len());
    assert(f.take(6) =~= d.destination_mac);
    assert(f.subrange(6, 12) =~= d.source_mac);
    assert(f.subrange(26, 30) =~= d.source_ip.bytes());
    assert(f.subrange(30, 34) =~= d.destination_ip.bytes());
    assert(f.skip(42) =~= d.payload);
    law_header_checksum(length, identification, d.source_ip, d.destination_ip);
    assert(forall|i: int| 0 <= i < 20 ==> f[14 + i] == #[trigger] header[i]);
    lemma_ten_words(header);
    assert(word_sum(header) % 65535 == 0) by {
        let n = word_sum(header);
        assert((n - 1) % 65535 == 65534);
    }
}

proof fn lemma_be_pair(v: nat)
    requires
        v <= 65535,
    ensures
        bytes::be_bytes(v, 2).len() == 2,
        bytes::be_bytes(v, 2)[0] * 256 + bytes::be_bytes(v, 2)[1] == v,
        v == 0x0800 ==> bytes::be_bytes(v, 2)[0] == 8 && bytes::be_bytes(v, 2)[1] == 0,
        v == 0x4000 ==> bytes::be_bytes(v, 2)[0] == 0x40 && bytes::be_bytes(v, 2)[1] == 0,
{
    bytes::law_big_endian(Seq::empty(), 0, v);
}

proof fn lemma_ten_words(h: Seq<u8>)
    requires
        h.len() == 20,
    ensures
        word_sum(h) == (h[0] * 256 + h[1]) + (h[2] * 256 + h[3]) + (h[4] * 256 + h[5]) + (h[6] * 256
            + h[7]) + (h[8] * 256 + h[9]) + (h[10] * 256 + h[11]) + (h[12] * 256 + h[13]) + (h[14]
            * 256 + h[15]) + (h[16] * 256 + h[17]) + (h[18] * 256 + h[19]),
{
    reveal_with_fuel(word_sum, 11);
}

/// A VLAN tag in front of the type of a frame is passed over, one of either kind.
pub proof fn law_tags_are_skipped(macs: Seq<u8>, high: u8, low: u8, rest: Seq<u8>, double: bool)
    requires
        macs.len() == 12,
    ensures
        ({
            let tag = if double {
                seq![0x88u8, 0xa8u8, high, low]
            } else {
                seq![0x81u8, 0x00u8, high, low]
            };
            parsed_udp(macs + tag + rest) == parsed_udp(macs + rest)
        }),
{
    let tag = if double {
        seq![0x88u8, 0xa8u8, high, low]
    } else {
        seq![0x81u8, 0x00u8, high, low]
    };
    let tagged = macs + tag + rest;
    let plain = macs + rest;
    assert(tagged.subrange(12, 14) =~= tag.take(2));
    bytes::law_big_endian(tagged.subrange(12, 14), 0, 0);
    lemma_start_moves(macs, tag, rest, 12);
    assert(ipv4_start(tagged, 12) == ipv4_start(tagged, 16));
    assert(tagged.take(6) =~= plain.take(6));
    assert(tagged.subrange(6, 12) =~= plain.subrange(6, 12));
    if let Some(at) = ipv4_start(plain, 12) {
        lemma_ipv4_start(plain, 12);
        assert(tagged.skip(at + 4) =~= plain.skip(at));
    }
}

proof fn lemma_start_moves(macs: Seq<u8>, tag: Seq<u8>, rest: Seq<u8>, at: int)
    requires
        macs.len() == 12,
        tag.len() == 4,
        at >= 12,
    ensures
        ipv4_start(macs + tag + rest, at + 4) == (match ipv4_start(macs + rest, at) {
            Some(i) => Some(i + 4),
            None => None,
        }),
    decreases rest.len() + 16 - at,
{
    let tagged = macs + tag + rest;
    let plain = macs + rest;
    if plain.len() >= at + 2 {
        assert(tagged.subrange(at + 4, at + 6) =~= plain.subrange(at, at + 2));
        lemma_start_moves(macs, tag, rest, at + 4);
    }
}

/// What a frame without tags says, byte by byte: it has to be of IPv4 and UDP, and all of the
/// datagram has to be in it. The header ends where its own length says.
pub proof fn law_untagged_frames_are_read(f: Seq<u8>)
    requires
        f.len() >= 14,
        !(f[12] == 0x81 && f[13] == 0x00),
        !(f[12] == 0x88 && f[13] == 0xa8),
    ensures
        ({
            let n = (f[14] % 16) * 4;
            let u = 14 + n;
            let length = f[u + 4] * 256 + f[u + 5];
            let good = f[12] == 0x08 && f[13] == 0x00 && f.len() >= 42 && f[14] / 16 == 4 && f[23]
                == 17 && n >= 20 && f.len() >= u + 8 && length >= 8 && f.len() >= u + length;
            &&& parsed_udp(f) is Some <==> good
            &&& parsed_udp(f) matches Some(d) ==> {
                &&& d.destination_mac == f.take(6)
                &&& d.source_mac == f.subrange(6, 12)
                &&& d.source_ip == (Ipv4Addr { a: f[26], b: f[27], c: f[28], d: f[29] })
                &&& d.destination_ip == (Ipv4Addr { a: f[30], b: f[31], c: f[32], d: f[33] })
                &&& d.source_port == f[u] * 256 + f[u + 1]
                &&& d.destination_port == f[u + 2] * 256 + f[u + 3]
                &&& d.payload == f.subrange(u + 8, u + length)
            }
        }),
{
    let t = f.subrange(12, 14);
    bytes::law_big_endian(t, 0, 0);
    assert(t[0] == f[12] && t[1] == f[13]);
    if f[12] == 0x08 && f[13] == 0x00 && f.len() >= 42 {
        let ip = f.skip(14);
        let n = (f[14] % 16) * 4;
        let udp = ip.skip(n);
        assert(ip[0] == f[14] && ip[9] == f[23]);
        if n >= 20 && ip.len() >= n + 8 {
            bytes::law_big_endian(udp.subrange(4, 6), 0, 0);
            bytes::law_big_endian(udp.take(2), 0, 0);
            bytes::law_big_endian(udp.subrange(2, 4), 0, 0);
            let length = f[14 + n + 4] * 256 + f[14 + n + 5];
            assert(bytes::be_value(udp.subrange(4, 6)) == length);
            if length >= 8 && f.len() >= 14 + n + length {
                assert(udp.subrange(8, length) =~= f.subrange(14 + n + 8, 14 + n + length));
            }
        }
    }
}

/// A hardware address is written as six octets of two hexadecimal digits with colons between
/// them, in either case.
pub proof fn law_hardware_addresses_are_read(octets: Seq<Seq<char>>, s: Seq<char>)
    requires
        octets.len() == 6,
        forall|i: int|
            0 <= i < 6 ==> (#[trigger] octets[i]).len() == 2 && text::digit_value(octets[i][0], 16)
                is Some && text::digit_value(octets[i][1], 16) is Some,
    ensures
        is_mac_text(text::joined(octets, ':')),
        forall|i: int|
            0 <= i < 6 ==> #[trigger] mac_of_text(text::joined(octets, ':'))[i] == text::digit_value(
                octets[i][0],
                16,
            )->0 * 16 + text::digit_value(octets[i][1], 16)->0,
        mac_of_text(text::joined(octets, ':')).len() == 6,
        is_mac_text(s) ==> s.len() == 17 && s[2] == ':' && s[5] == ':' && s[8] == ':' && s[11]
            == ':' && s[14] == ':',
{
    assert(text::free_of(octets, ':')) by {
        assert forall|p: int, j: int|
            0 <= p < octets.len() && 0 <= j < octets[p].len() implies #[trigger] octets[p][j]
            != ':' by {
            let o = octets[p];
            assert(o.len() == 2);
            assert(j == 0 || j == 1);
            assert(text::digit_value(o[0], 16) is Some && text::digit_value(o[1], 16) is Some);
        }
    }
    text::law_split_inverts_join(octets, ':');
    assert forall|i: int| 0 <= i < 6 implies hex_octet(#[trigger] octets[i]) == Some(
        text::digit_value(octets[i][0], 16)->0 * 16 + text::digit_value(octets[i][1], 16)->0,
    ) by {
        let o = octets[i];
        assert(o =~= Seq::empty().push(o[0]).push(o[1]));
        text::law_digits_count(Seq::empty(), o[0], 16);
        text::law_digits_count(Seq::empty().push(o[0]), o[1], 16);
    }
    if is_mac_text(s) {
        let p = text::split(s, ':');
        text::law_split_takes_apart(s, ':');
        assert forall|i: int| 0 <= i < 6 implies (#[trigger] p[i]).len() == 2 by {
            assert(hex_octet(p[i]) is Some);
        }
        assert(p[0].len() == 2 && p[1].len() == 2 && p[2].len() == 2 && p[3].len() == 2
            && p[4].len() == 2 && p[5].len() == 2);
        reveal_with_fuel(text::joined, 6);
    }
}

} // verus!
