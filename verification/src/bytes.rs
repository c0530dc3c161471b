//! Byte-level building blocks: fixed-width integers in either byte order, and the few slice
//! operations that the packet formats need.

use vstd::prelude::*;

verus! {

/// The number that `s` spells with its least significant byte first.
pub open spec fn le_value(s: Seq<u8>) -> nat
    decreases s.len(),
{
    if s.len() == 0 {
        0
    } else {
        s[0] as nat + 256 * le_value(s.drop_first())
    }
}

/// The low `n` bytes of `v`, least significant byte first.
pub open spec fn le_bytes(v: nat, n: nat) -> Seq<u8>
    decreases n,
{
    if n == 0 {
        Seq::empty()
    } else {
        seq![(v % 256) as u8] + le_bytes(v / 256, (n - 1) as nat)
    }
}

/// The number that `s` spells with its most significant byte first.
pub open spec fn be_value(s: Seq<u8>) -> nat
    decreases s.len(),
{
    if s.len() == 0 {
        0
    } else {
        256 * be_value(s.drop_last()) + s.last() as nat
    }
}

/// The low `n` bytes of `v`, most significant byte first.
pub open spec fn be_bytes(v: nat, n: nat) -> Seq<u8>
    decreases n,
{
    if n == 0 {
        Seq::empty()
    } else {
        be_bytes(v / 256, (n - 1) as nat).push((v % 256) as u8)
    }
}

/// How many values `n` bytes can spell.
pub open spec fn byte_span(n: nat) -> nat
    decreases n,
{
    if n == 0 {
        1
    } else {
        256 * byte_span((n - 1) as nat)
    }
}

/// A run of `n` zero bytes.
pub open spec fn zeros(n: nat) -> Seq<u8> {
    Seq::new(n, |i: int| 0u8)
}

pub proof fn lemma_byte_span()
    ensures
        byte_span(1) == 0x100,
        byte_span(2) == 0x1_0000,
        byte_span(3) == 0x100_0000,
        byte_span(4) == 0x1_0000_0000,
        byte_span(5) == 0x100_0000_0000,
        byte_span(6) == 0x1_0000_0000_0000,
        byte_span(7) == 0x100_0000_0000_0000,
        byte_span(8) == 0x1_0000_0000_0000_0000,
{
    reveal_with_fuel(byte_span, 9);
}

pub proof fn lemma_byte_span_grows(m: nat, n: nat)
    requires
        m <= n,
    ensures
        0 < byte_span(m) <= byte_span(n),
    decreases n,
{
    if n > 0 && m < n {
        lemma_byte_span_grows(m, (n - 1) as nat);
    } else if n > 0 {
        lemma_byte_span_grows((m - 1) as nat, (n - 1) as nat);
    }
}

pub proof fn lemma_le_value_bound(s: Seq<u8>)
    ensures
        le_value(s) < byte_span(s.len()),
    decreases s.len(),
{
    if s.len() > 0 {
        lemma_le_value_bound(s.drop_first());
    }
}

pub proof fn lemma_be_value_bound(s: Seq<u8>)
    ensures
        be_value(s) < byte_span(s.len()),
    decreases s.len(),
{
    if s.len() > 0 {
        lemma_be_value_bound(s.drop_last());
    }
}

/// Writing a number in `n` bytes, least significant first, and reading them back gives the number.
pub proof fn lemma_le_round_trip(v: nat, n: nat)
    requires
        v < byte_span(n),
    ensures
        le_bytes(v, n).len() == n,
        le_value(le_bytes(v, n)) == v,
    decreases n,
{
    if n > 0 {
        assert(v / 256 < byte_span((n - 1) as nat)) by (nonlinear_arith)
            requires
                v < 256 * byte_span((n - 1) as nat),
        ;
        lemma_le_round_trip(v / 256, (n - 1) as nat);
        assert(le_bytes(v, n).drop_first() =~= le_bytes(v / 256, (n - 1) as nat));
    }
}

/// Reading bytes as a number, least significant first, and writing it back gives the bytes.
pub proof fn lemma_le_bytes_of_value(s: Seq<u8>)
    ensures
        le_bytes(le_value(s), s.len()) == s,
    decreases s.len(),
{
    if s.len() > 0 {
        let v = le_value(s);
        let rest = le_value(s.drop_first());
        assert(v % 256 == s[0] as nat && v / 256 == rest);
        lemma_le_bytes_of_value(s.drop_first());
        assert(seq![s[0]] + s.drop_first() =~= s);
    } else {
        assert(s =~= Seq::empty());
    }
}

/// Writing a number in `n` bytes, most significant first, and reading them back gives the number.
pub proof fn lemma_be_round_trip(v: nat, n: nat)
    requires
        v < byte_span(n),
    ensures
        be_bytes(v, n).len() == n,
        be_value(be_bytes(v, n)) == v,
    decreases n,
{
    if n > 0 {
        assert(v / 256 < byte_span((n - 1) as nat)) by (nonlinear_arith)
            requires
                v < 256 * byte_span((n - 1) as nat),
        ;
        lemma_be_round_trip(v / 256, (n - 1) as nat);
        assert(be_bytes(v, n).drop_last() =~= be_bytes(v / 256, (n - 1) as nat));
    }
}

/// Reading bytes as a number, most significant first, and writing it back gives the bytes.
pub proof fn lemma_be_bytes_of_value(s: Seq<u8>)
    ensures
        be_bytes(be_value(s), s.len()) == s,
    decreases s.len(),
{
    if s.len() > 0 {
        let v = be_value(s);
        let rest = be_value(s.drop_last());
        assert(v % 256 == s.last() as nat && v / 256 == rest);
        lemma_be_bytes_of_value(s.drop_last());
        assert(s.drop_last().push(s.last()) =~= s);
    } else {
        assert(s =~= Seq::empty());
    }
}

proof fn lemma_le_bytes_step(v: nat, k: nat)
    ensures
        le_bytes(v, k + 1) == le_bytes(v, k).push(((v / byte_span(k)) % 256) as u8),
        le_bytes(v, k).len() == k,
    decreases k,
{
    reveal_with_fuel(le_bytes, 2);
    if k > 0 {
        lemma_le_bytes_step(v / 256, (k - 1) as nat);
        let b = byte_span((k - 1) as nat);
        lemma_byte_span_grows(0, (k - 1) as nat);
        vstd::arithmetic::div_mod::lemma_div_denominator(v as int, 256, b as int);
        assert(le_bytes(v, k + 1) =~= le_bytes(v, k).push(((v / byte_span(k)) % 256) as u8));
    } else {
        assert(v / 1 == v);
        assert(le_bytes(v, 1) =~= le_bytes(v, 0).push((v % 256) as u8));
    }
}

/// Reads `s[from..to]` as a number, least significant byte first.
pub fn read_le(s: &[u8], from: usize, to: usize) -> (v: u64)
    requires
        from <= to <= s@.len(),
        to - from <= 8,
    ensures
        v == le_value(s@.subrange(from as int, to as int)),
        v < byte_span((to - from) as nat),
{
    let mut v: u64 = 0;
    let mut at: usize = to;
    proof {
        lemma_byte_span();
    }
    while at > from
        invariant
            from <= at <= to <= s@.len(),
            to - from <= 8,
            v == le_value(s@.subrange(at as int, to as int)),
        decreases at - from,
    {
        let ghost tail = s@.subrange(at as int, to as int);
        let ghost next = s@.subrange(at - 1, to as int);
        proof {
            lemma_le_value_bound(tail);
            lemma_byte_span_grows(tail.len(), 7);
            lemma_byte_span();
            assert(next.drop_first() =~= tail);
        }
        at = at - 1;
        v = v * 256 + s[at] as u64;
    }
    proof {
        lemma_le_value_bound(s@.subrange(from as int, to as int));
    }
    v
}

/// Reads `s[from..to]` as a number, most significant byte first.
pub fn read_be(s: &[u8], from: usize, to: usize) -> (v: u64)
    requires
        from <= to <= s@.len(),
        to - from <= 8,
    ensures
        v == be_value(s@.subrange(from as int, to as int)),
        v < byte_span((to - from) as nat),
{
    let mut v: u64 = 0;
    let mut at: usize = from;
    while at < to
        invariant
            from <= at <= to <= s@.len(),
            to - from <= 8,
            v == be_value(s@.subrange(from as int, at as int)),
        decreases to - at,
    {
        let ghost head = s@.subrange(from as int, at as int);
        let ghost next = s@.subrange(from as int, at + 1);
        proof {
            lemma_be_value_bound(head);
            lemma_byte_span_grows(head.len(), 7);
            lemma_byte_span();
            assert(next.drop_last() =~= head);
        }
        v = v * 256 + s[at] as u64;
        at = at + 1;
    }
    proof {
        lemma_be_value_bound(s@.subrange(from as int, to as int));
    }
    v
}

/// Reads two bytes, least significant first.
pub fn read_u16_le(s: &[u8], at: usize) -> (v: u16)
    requires
        at + 2 <= s@.len(),
    ensures
        v == le_value(s@.subrange(at as int, at + 2)),
{
    let end: usize = s.len();
    assert(at + 2 <= end);
    let v: u64 = read_le(s, at, at + 2);
    proof {
        lemma_byte_span();
    }
    v as u16
}

/// Reads four bytes, least significant first.
pub fn read_u32_le(s: &[u8], at: usize) -> (v: u32)
    requires
        at + 4 <= s@.len(),
    ensures
        v == le_value(s@.subrange(at as int, at + 4)),
{
    let end: usize = s.len();
    assert(at + 4 <= end);
    let v: u64 = read_le(s, at, at + 4);
    proof {
        lemma_byte_span();
    }
    v as u32
}

/// Reads two bytes, most significant first.
pub fn read_u16_be(s: &[u8], at: usize) -> (v: u16)
    requires
        at + 2 <= s@.len(),
    ensures
        v == be_value(s@.subrange(at as int, at + 2)),
{
    let end: usize = s.len();
    assert(at + 2 <= end);
    let v: u64 = read_be(s, at, at + 2);
    proof {
        lemma_byte_span();
    }
    v as u16
}

/// Reads four bytes, most significant first.
pub fn read_u32_be(s: &[u8], at: usize) -> (v: u32)
    requires
        at + 4 <= s@.len(),
    ensures
        v == be_value(s@.subrange(at as int, at + 4)),
{
    let end: usize = s.len();
    assert(at + 4 <= end);
    let v: u64 = read_be(s, at, at + 4);
    proof {
        lemma_byte_span();
    }
    v as u32
}

/// Appends the low `n` bytes of `v`, least significant byte first.
pub fn push_le(out: &mut Vec<u8>, v: u64, n: usize)
    requires
        n <= 8,
    ensures
        final(out)@ == old(out)@ + le_bytes(v as nat, n as nat),
{
    let ghost start = out@;
    let mut rest: u64 = v;
    let mut i: usize = 0;
    assert(v as nat / 1 == v);
    while i < n
        invariant
            i <= n <= 8,
            out@ == start + le_bytes(v as nat, i as nat),
            rest == v as nat / byte_span(i as nat),
        decreases n - i,
    {
        proof {
            lemma_le_bytes_step(v as nat, i as nat);
            lemma_byte_span_grows(0, i as nat);
            vstd::arithmetic::div_mod::lemma_div_denominator(
                v as int,
                byte_span(i as nat) as int,
                256,
            );
            vstd::arithmetic::mul::lemma_mul_is_commutative(byte_span(i as nat) as int, 256);
        }
        out.push((rest % 256) as u8);
        rest = rest / 256;
        i = i + 1;
        assert(out@ =~= start + le_bytes(v as nat, i as nat));
    }
}

/// Appends the low `n` bytes of `v`, most significant byte first.
pub fn push_be(out: &mut Vec<u8>, v: u64, n: usize)
    requires
        n <= 8,
    ensures
        final(out)@ == old(out)@ + be_bytes(v as nat, n as nat),
{
    let mut digits: Vec<u8> = Vec::new();
    push_le(&mut digits, v, n);
    let ghost start = out@;
    proof {
        lemma_reversed(v as nat, n as nat);
    }
    let mut i: usize = n;
    while i > 0
        invariant
            i <= n <= 8,
            digits@ == le_bytes(v as nat, n as nat),
            digits@.len() == n,
            be_bytes(v as nat, n as nat) == digits@.reverse(),
            out@ == start + digits@.reverse().take(n - i),
        decreases i,
    {
        i = i - 1;
        out.push(digits[i]);
        assert(out@ =~= start + digits@.reverse().take(n - i));
    }
    assert(digits@.reverse().take(n as int) =~= digits@.reverse());
}

proof fn lemma_reversed(v: nat, n: nat)
    ensures
        le_bytes(v, n).len() == n,
        be_bytes(v, n) == le_bytes(v, n).reverse(),
    decreases n,
{
    if n > 0 {
        lemma_reversed(v / 256, (n - 1) as nat);
        assert(be_bytes(v, n) =~= le_bytes(v, n).reverse());
    } else {
        assert(be_bytes(v, 0) =~= le_bytes(v, 0).reverse());
    }
}

/// Appends a copy of `tail`.
pub fn append_slice(out: &mut Vec<u8>, tail: &[u8])
    ensures
        final(out)@ == old(out)@ + tail@,
{
    let ghost start = out@;
    out.extend_from_slice(tail);
    assert(out@ =~= start + tail@);
}

/// Appends `n` zero bytes.
pub fn append_zeros(out: &mut Vec<u8>, n: usize)
    ensures
        final(out)@ == old(out)@ + zeros(n as nat),
{
    let ghost start = out@;
    let mut i: usize = 0;
    while i < n
        invariant
            i <= n,
            out@ == start + zeros(i as nat),
        decreases n - i,
    {
        out.push(0);
        i = i + 1;
        assert(out@ =~= start + zeros(i as nat));
    }
}

/// A copy of `s`.
pub fn copy_of(s: &[u8]) -> (r: Vec<u8>)
    ensures
        r@ == s@,
{
    let mut r: Vec<u8> = Vec::new();
    append_slice(&mut r, s);
    r
}

/// Whether the two slices hold the same bytes.
pub fn same_bytes(a: &[u8], b: &[u8]) -> (r: bool)
    ensures
        r == (a@ == b@),
{
    if a.len() != b.len() {
        return false;
    }
    let mut i: usize = 0;
    while i < a.len()
        invariant
            i <= a@.len() == b@.len(),
            a@.take(i as int) == b@.take(i as int),
        decreases a@.len() - i,
    {
        if a[i] != b[i] {
            return false;
        }
        proof {
            assert(a@.take(i + 1) =~= a@.take(i as int).push(a@[i as int]));
            assert(b@.take(i + 1) =~= b@.take(i as int).push(b@[i as int]));
        }
        i = i + 1;
    }
    proof {
        assert(a@.take(i as int) =~= a@);
        assert(b@.take(i as int) =~= b@);
    }
    true
}

/// Whether `s` begins with `prefix`.
pub open spec fn begins(s: Seq<u8>, prefix: Seq<u8>) -> bool {
    prefix.len() <= s.len() && s.take(prefix.len() as int) == prefix
}

/// Whether `s` begins with `prefix`.
pub fn begins_with(s: &[u8], prefix: &[u8]) -> (r: bool)
    ensures
        r == begins(s@, prefix@),
{
    if s.len() < prefix.len() {
        return false;
    }
    let r = same_bytes(&s[0..prefix.len()], prefix);
    proof {
        assert(s@.subrange(0, prefix@.len() as int) =~= s@.take(prefix@.len() as int));
    }
    r
}

/// Where `needle` first occurs in `s`.
pub open spec fn occurrence(s: Seq<u8>, needle: Seq<u8>) -> Option<int>
    decreases s.len(),
{
    if begins(s, needle) {
        Some(0)
    } else if s.len() == 0 {
        None
    } else {
        match occurrence(s.drop_first(), needle) {
            Some(i) => Some(i + 1),
            None => None,
        }
    }
}

pub proof fn lemma_occurrence(s: Seq<u8>, needle: Seq<u8>)
    ensures
        match occurrence(s, needle) {
            Some(at) => 0 <= at && at + needle.len() <= s.len() && begins(s.skip(at), needle),
            None => true,
        },
    decreases s.len(),
{
    if begins(s, needle) {
        assert(s.skip(0) =~= s);
    } else if s.len() > 0 {
        lemma_occurrence(s.drop_first(), needle);
        if let Some(i) = occurrence(s.drop_first(), needle) {
            assert(s.drop_first().skip(i) =~= s.skip(i + 1));
        }
    }
}

/// Finds where `needle` first occurs.
pub fn find(s: &[u8], needle: &[u8]) -> (r: Option<usize>)
    ensures
        match r {
            Some(at) => occurrence(s@, needle@) == Some(at as int) && at <= s@.len(),
            None => occurrence(s@, needle@) is None,
        },
{
    let mut i: usize = 0;
    assert(s@.skip(0) =~= s@);
    loop
        invariant
            i <= s@.len(),
            occurrence(s@, needle@) == (match occurrence(s@.skip(i as int), needle@) {
                Some(at) => Some(at + i),
                None => None,
            }),
        decreases s@.len() - i,
    {
        let rest = &s[i..s.len()];
        assert(rest@ =~= s@.skip(i as int));
        if begins_with(rest, needle) {
            return Some(i);
        }
        if i == s.len() {
            return None;
        }
        assert(s@.skip(i as int).drop_first() =~= s@.skip(i + 1));
        i = i + 1;
    }
}

/// Whether `at` is where the first zero byte of `s` stands, or the length where there is none.
pub open spec fn nul_at(s: Seq<u8>, at: int) -> bool {
    &&& 0 <= at <= s.len()
    &&& at < s.len() ==> s[at] == 0
    &&& forall|i: int| 0 <= i < at ==> #[trigger] s[i] != 0
}

/// What stands before the first zero byte of `s`, all of it where there is none.
pub open spec fn before_nul(s: Seq<u8>) -> Seq<u8>
    decreases s.len(),
{
    if s.len() == 0 || s[0] == 0 {
        Seq::empty()
    } else {
        seq![s[0]] + before_nul(s.drop_first())
    }
}

pub proof fn lemma_before_nul(s: Seq<u8>, at: int)
    requires
        nul_at(s, at),
    ensures
        before_nul(s) == s.take(at),
    decreases s.len(),
{
    if s.len() == 0 || s[0] == 0 {
        assert(s.take(at) =~= Seq::empty());
    } else {
        assert(nul_at(s.drop_first(), at - 1)) by {
            assert forall|i: int| 0 <= i < at - 1 implies #[trigger] s.drop_first()[i] != 0 by {
                assert(s[i + 1] != 0);
            }
        }
        lemma_before_nul(s.drop_first(), at - 1);
        assert(s.take(at) =~= seq![s[0]] + s.drop_first().take(at - 1));
    }
}

/// Where the first zero byte stands, or the length where there is none.
pub fn nul_position(s: &[u8]) -> (at: usize)
    ensures
        nul_at(s@, at as int),
        before_nul(s@) == s@.take(at as int),
{
    let mut i: usize = 0;
    while i < s.len() && s[i] != 0
        invariant
            i <= s@.len(),
            forall|j: int| 0 <= j < i ==> #[trigger] s@[j] != 0,
        decreases s@.len() - i,
    {
        i = i + 1;
    }
    proof {
        lemma_before_nul(s@, i as int);
    }
    i
}

/// In big-endian order the first byte counts most: two bytes are 256 times the first and the
/// second, and each further byte multiplies what stands before it by 256.
pub proof fn law_big_endian(s: Seq<u8>, b: u8, v: nat)
    ensures
        be_value(Seq::empty()) == 0,
        be_value(s.push(b)) == 256 * be_value(s) + b,
        s.len() == 2 ==> be_value(s) == s[0] * 256 + s[1],
        s.len() == 4 ==> be_value(s) == s[0] * 0x100_0000 + s[1] * 0x1_0000 + s[2] * 0x100 + s[3],
        v < 0x1_0000 ==> be_bytes(v, 2) == seq![(v / 256) as u8, (v % 256) as u8],
        be_bytes(be_value(s), s.len()) == s,
{
    assert(s.push(b).drop_last() =~= s);
    lemma_be_bytes_of_value(s);
    if s.len() == 2 {
        let t = s.drop_last();
        assert(t.drop_last() =~= Seq::empty());
        assert(be_value(t) == 256 * be_value(t.drop_last()) + t.last());
        assert(be_value(s) == 256 * be_value(t) + s.last());
    }
    if s.len() == 4 {
        let t = s.drop_last();
        let u = t.drop_last();
        let w = u.drop_last();
        assert(w.drop_last() =~= Seq::empty());
        assert(be_value(w) == 256 * be_value(w.drop_last()) + w.last());
        assert(be_value(u) == 256 * be_value(w) + u.last());
        assert(be_value(t) == 256 * be_value(u) + t.last());
        assert(be_value(s) == 256 * be_value(t) + s.last());
    }
    if v < 0x1_0000 {
        assert(be_bytes(v / 256 / 256, 0) =~= Seq::empty());
        assert(be_bytes(v / 256, 1) =~= seq![(v / 256 % 256) as u8]);
        assert(be_bytes(v, 2) =~= be_bytes(v / 256, 1).push((v % 256) as u8));
    }
}

/// In little-endian order the first byte counts least: each byte is followed by one that counts
/// 256 times as much.
pub proof fn law_little_endian(s: Seq<u8>, b: u8)
    ensures
        le_value(Seq::empty()) == 0,
        le_value(seq![b] + s) == b + 256 * le_value(s),
        s.len() == 2 ==> le_value(s) == s[0] + s[1] * 256,
        s.len() == 4 ==> le_value(s) == s[0] + s[1] * 0x100 + s[2] * 0x1_0000 + s[3] * 0x100_0000,
        le_bytes(le_value(s), s.len()) == s,
{
    assert((seq![b] + s).drop_first() =~= s);
    lemma_le_bytes_of_value(s);
    if s.len() == 2 {
        let t = s.drop_first();
        assert(t.drop_first() =~= Seq::empty());
        assert(le_value(t) == t[0] as nat + 256 * le_value(t.drop_first()));
        assert(le_value(s) == s[0] as nat + 256 * le_value(t));
    }
    if s.len() == 4 {
        let t = s.drop_first();
        let u = t.drop_first();
        let w = u.drop_first();
        assert(w.drop_first() =~= Seq::empty());
        assert(le_value(w) == w[0] as nat + 256 * le_value(w.drop_first()));
        assert(le_value(u) == u[0] as nat + 256 * le_value(w));
        assert(le_value(t) == t[0] as nat + 256 * le_value(u));
        assert(le_value(s) == s[0] as nat + 256 * le_value(t));
    }
}

/// Where some bytes occur in others is the first place where they stand in full; where there is
/// no such place, they do not occur.
pub proof fn law_occurrence_is_the_first(s: Seq<u8>, needle: Seq<u8>, j: int)
    ensures
        occurrence(s, needle) matches Some(at) ==> {
            &&& 0 <= at && at + needle.len() <= s.len()
            &&& s.subrange(at, at + needle.len()) == needle
            &&& 0 <= j < at && j + needle.len() <= s.len() ==> s.subrange(j, j + needle.len())
                != needle
        },
        occurrence(s, needle) is None && 0 <= j && j + needle.len() <= s.len() ==> s.subrange(
            j,
            j + needle.len(),
        ) != needle,
    decreases s.len(),
{
    let n = needle.len() as int;
    if n <= s.len() {
        assert(s.take(n) =~= s.subrange(0, n));
    }
    if !begins(s, needle) && s.len() > 0 {
        let t = s.drop_first();
        law_occurrence_is_the_first(t, needle, j - 1);
        if let Some(at) = occurrence(t, needle) {
            assert(s.subrange(at + 1, at + 1 + n) =~= t.subrange(at, at + n));
        }
        if j >= 1 && j + n <= s.len() {
            assert(s.subrange(j, j + n) =~= t.subrange(j - 1, j - 1 + n));
        }
        if j == 0 && n <= s.len() {
            assert(s.subrange(j, j + n) =~= s.take(n));
        }
    }
}

/// A padded text ends at its first zero byte, or where the bytes end.
pub proof fn law_padded_text_ends_at_zero(s: Seq<u8>, padding: Seq<u8>)
    requires
        forall|i: int| 0 <= i < s.len() ==> #[trigger] s[i] != 0,
        padding.len() > 0 ==> padding[0] == 0,
    ensures
        before_nul(s + padding) == s,
{
    let all = s + padding;
    assert(nul_at(all, s.len() as int));
    lemma_before_nul(all, s.len() as int);
    assert(all.take(s.len() as int) =~= s);
}

} // verus!
