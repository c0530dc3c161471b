//! Text operations on sequences of characters: trimming, splitting, ASCII case, and numbers in
//! decimal or hexadecimal notation.

use vstd::prelude::*;
use vstd::utf8;
use crate::bytes;

verus! {

/// `String::push` adds one character at the end.
pub assume_specification[ String::push ](s: &mut String, c: char)
    ensures
        final(s)@ == old(s)@.push(c),
;

/// What `String::from_utf8_lossy` makes of a byte string.
pub uninterp spec fn utf8_lossy(bytes: Seq<u8>) -> Seq<char>;

/// `String::from_utf8_lossy`, made owned. Invalid sequences become replacement characters in a
/// way that is only named here; valid UTF-8 is decoded as it stands.
#[verifier::external_body]
fn from_utf8_lossy(bytes: &[u8]) -> (r: String)
    ensures
        r@ == utf8_lossy(bytes@),
        utf8::valid_utf8(bytes@) ==> r@ == utf8::decode_utf8(bytes@),
{
    String::from_utf8_lossy(bytes).into_owned()
}

/// The text of a byte string: its UTF-8 decoding where it is valid UTF-8, else what
/// `String::from_utf8_lossy` makes of it.
pub open spec fn lossy(bytes: Seq<u8>) -> Seq<char> {
    if utf8::valid_utf8(bytes) {
        utf8::decode_utf8(bytes)
    } else {
        utf8_lossy(bytes)
    }
}

/// The text of a byte string.
pub fn lossy_text(bytes: &[u8]) -> (r: String)
    ensures
        r@ == lossy(bytes@),
{
    from_utf8_lossy(bytes)
}

/// The text of an encoded text is that text.
pub proof fn lemma_lossy_encoded(s: Seq<char>)
    ensures
        lossy(utf8::encode_utf8(s)) == s,
{
    utf8::encode_utf8_valid_utf8(s);
    utf8::encode_utf8_decode_utf8(s);
}

proof fn lemma_scalar_has_no_zero(c: char)
    requires
        c != '\0',
    ensures
        forall|i: int|
            0 <= i < utf8::encode_scalar(c as u32).len()
                ==> #[trigger] utf8::encode_scalar(c as u32)[i] != 0,
{
    let v = c as u32;
    assert(v != 0);
    assert(0 < v <= 0x7f ==> (v & 0x7f) as u8 != 0) by (bit_vector);
    assert(forall|b: u8| #[trigger] (0xc0u8 | b) != 0) by (bit_vector);
    assert(forall|b: u8| #[trigger] (0xe0u8 | b) != 0) by (bit_vector);
    assert(forall|b: u8| #[trigger] (0xf0u8 | b) != 0) by (bit_vector);
    assert(forall|b: u8| #[trigger] (0x80u8 | b) != 0) by (bit_vector);
}

/// The bytes of two texts behind each other.
pub proof fn lemma_encode_concat(a: Seq<char>, b: Seq<char>)
    ensures
        utf8::encode_utf8(a + b) == utf8::encode_utf8(a) + utf8::encode_utf8(b),
    decreases a.len(),
{
    if a.len() == 0 {
        assert(a + b =~= b);
        assert(utf8::encode_utf8(a) + utf8::encode_utf8(b) =~= utf8::encode_utf8(b));
    } else {
        lemma_encode_concat(a.drop_first(), b);
        assert((a + b).drop_first() =~= a.drop_first() + b);
        assert(utf8::encode_utf8(a + b) =~= utf8::encode_utf8(a) + utf8::encode_utf8(b));
    }
}

/// A text without zero characters is encoded without zero bytes.
pub proof fn lemma_encoded_has_no_zero(s: Seq<char>)
    requires
        forall|i: int| 0 <= i < s.len() ==> #[trigger] s[i] != '\0',
    ensures
        forall|i: int|
            0 <= i < utf8::encode_utf8(s).len() ==> #[trigger] utf8::encode_utf8(s)[i]
                != 0,
    decreases s.len(),
{
    if s.len() > 0 {
        assert forall|i: int| 0 <= i < s.drop_first().len() implies #[trigger] s.drop_first()[i]
            != '\0' by {
            assert(s[i + 1] != '\0');
        }
        lemma_encoded_has_no_zero(s.drop_first());
        assert(s[0] != '\0');
        lemma_scalar_has_no_zero(s[0]);
        let head = utf8::encode_scalar(s[0] as u32);
        let tail = utf8::encode_utf8(s.drop_first());
        assert forall|i: int| 0 <= i < utf8::encode_utf8(s).len() implies
            #[trigger] utf8::encode_utf8(s)[i] != 0 by {
            if i < head.len() {
                assert(head[i] != 0);
            } else {
                assert(tail[i - head.len()] != 0);
            }
        }
    }
}

/// The characters that the strings hold.
pub open spec fn text_views(v: Seq<String>) -> Seq<Seq<char>> {
    v.map_values(|s: String| s@)
}

/// The view of an optional string.
pub open spec fn text_view(s: Option<String>) -> Option<Seq<char>> {
    match s {
        Some(text) => Some(text@),
        None => None,
    }
}

/// The characters of a string.
pub fn chars_of(s: &str) -> (r: Vec<char>)
    ensures
        r@ == s@,
{
    let mut r: Vec<char> = Vec::new();
    for c in it: s.chars()
        invariant
            r@ == s@.take(it.index()),
            it.seq() == s@,
    {
        r.push(c);
        assert(s@.take(it.index() + 1) =~= s@.take(it.index()).push(c));
    }
    assert(s@.take(s@.len() as int) =~= s@);
    r
}

/// The string that the characters spell.
pub fn text_of(chars: &[char]) -> (r: String)
    ensures
        r@ == chars@,
{
    let mut r = String::new();
    let mut i: usize = 0;
    while i < chars.len()
        invariant
            i <= chars@.len(),
            r@ == chars@.take(i as int),
        decreases chars@.len() - i,
    {
        r.push(chars[i]);
        i = i + 1;
        assert(r@ =~= chars@.take(i as int));
    }
    assert(chars@.take(i as int) =~= chars@);
    r
}

/// Two texts with the same UTF-8 encoding hold the same characters.
pub proof fn lemma_utf8_injective(a: Seq<char>, b: Seq<char>)
    requires
        utf8::encode_utf8(a) == utf8::encode_utf8(b),
    ensures
        a == b,
{
    utf8::encode_utf8_decode_utf8(a);
    utf8::encode_utf8_decode_utf8(b);
}

/// Whether the two strings hold the same characters.
pub fn same_text(a: &str, b: &str) -> (r: bool)
    ensures
        r == (a@ == b@),
{
    let r = bytes::same_bytes(a.as_bytes(), b.as_bytes());
    proof {
        if r {
            lemma_utf8_injective(a@, b@);
        }
    }
    r
}

/// A copy of an optional string.
pub fn copy_text(s: &Option<String>) -> (r: Option<String>)
    ensures
        text_view(r) == text_view(*s),
{
    match s {
        Some(text) => Some(text.clone()),
        None => None,
    }
}

/// Unicode's White_Space property.
pub open spec fn is_space(c: char) -> bool {
    ||| '\u{9}' <= c <= '\u{d}'
    ||| c == ' '
    ||| c == '\u{85}'
    ||| c == '\u{a0}'
    ||| c == '\u{1680}'
    ||| '\u{2000}' <= c <= '\u{200a}'
    ||| c == '\u{2028}'
    ||| c == '\u{2029}'
    ||| c == '\u{202f}'
    ||| c == '\u{205f}'
    ||| c == '\u{3000}'
}

/// Whether the character is white space.
pub fn space(c: char) -> (r: bool)
    ensures
        r == is_space(c),
{
    ('\u{9}' <= c && c <= '\u{d}') || c == ' ' || c == '\u{85}' || c == '\u{a0}' || c == '\u{1680}'
        || ('\u{2000}' <= c && c <= '\u{200a}') || c == '\u{2028}' || c == '\u{2029}' || c
        == '\u{202f}' || c == '\u{205f}' || c == '\u{3000}'
}

/// `s` without its leading white space.
pub open spec fn trimmed_start(s: Seq<char>) -> Seq<char>
    decreases s.len(),
{
    if s.len() > 0 && is_space(s[0]) {
        trimmed_start(s.drop_first())
    } else {
        s
    }
}

/// `s` without its trailing white space.
pub open spec fn trimmed_end(s: Seq<char>) -> Seq<char>
    decreases s.len(),
{
    if s.len() > 0 && is_space(s.last()) {
        trimmed_end(s.drop_last())
    } else {
        s
    }
}

/// `s` without leading and trailing white space.
pub open spec fn trimmed(s: Seq<char>) -> Seq<char> {
    trimmed_end(trimmed_start(s))
}

/// `s` without leading white space.
pub fn trim_start(s: &[char]) -> (r: &[char])
    ensures
        r@ == trimmed_start(s@),
{
    let mut i: usize = 0;
    assert(s@.skip(0) =~= s@);
    while i < s.len() && space(s[i])
        invariant
            i <= s@.len(),
            trimmed_start(s@) == trimmed_start(s@.skip(i as int)),
        decreases s@.len() - i,
    {
        assert(s@.skip(i as int).drop_first() =~= s@.skip(i + 1));
        i = i + 1;
    }
    let r = &s[i..s.len()];
    assert(r@ =~= s@.skip(i as int));
    r
}

/// `s` without trailing white space.
pub fn trim_end(s: &[char]) -> (r: &[char])
    ensures
        r@ == trimmed_end(s@),
{
    let mut i: usize = s.len();
    assert(s@.take(i as int) =~= s@);
    while i > 0 && space(s[i - 1])
        invariant
            i <= s@.len(),
            trimmed_end(s@) == trimmed_end(s@.take(i as int)),
        decreases i,
    {
        assert(s@.take(i as int).drop_last() =~= s@.take(i - 1));
        i = i - 1;
    }
    let r = &s[0..i];
    assert(r@ =~= s@.take(i as int));
    r
}

/// `s` without leading and trailing white space.
pub fn trim(s: &[char]) -> (r: &[char])
    ensures
        r@ == trimmed(s@),
{
    trim_end(trim_start(s))
}

/// Where `c` first stands in `s`; the length of `s` where it does not.
pub open spec fn index_of(s: Seq<char>, c: char) -> int
    decreases s.len(),
{
    if s.len() == 0 || s[0] == c {
        0
    } else {
        1 + index_of(s.drop_first(), c)
    }
}

pub proof fn lemma_index_of(s: Seq<char>, c: char)
    ensures
        0 <= index_of(s, c) <= s.len(),
        index_of(s, c) < s.len() ==> s[index_of(s, c)] == c,
        forall|i: int| 0 <= i < index_of(s, c) ==> #[trigger] s[i] != c,
    decreases s.len(),
{
    if s.len() > 0 && s[0] != c {
        lemma_index_of(s.drop_first(), c);
        assert forall|i: int| 0 <= i < index_of(s, c) implies #[trigger] s[i] != c by {
            if i > 0 {
                assert(s.drop_first()[i - 1] != c);
            }
        }
    }
}

/// `index_of` is the only place with no `c` before it and `c`, or the end, at it.
pub proof fn lemma_index_of_unique(s: Seq<char>, c: char, at: int)
    requires
        0 <= at <= s.len(),
        at < s.len() ==> s[at] == c,
        forall|i: int| 0 <= i < at ==> #[trigger] s[i] != c,
    ensures
        index_of(s, c) == at,
{
    lemma_index_of(s, c);
}

/// Where `c` first stands in `s`; the length of `s` where it does not.
pub fn position(s: &[char], c: char) -> (r: usize)
    ensures
        r == index_of(s@, c),
        r <= s@.len(),
{
    let mut i: usize = 0;
    while i < s.len() && s[i] != c
        invariant
            i <= s@.len(),
            forall|j: int| 0 <= j < i ==> #[trigger] s@[j] != c,
        decreases s@.len() - i,
    {
        i = i + 1;
    }
    proof {
        lemma_index_of_unique(s@, c, i as int);
    }
    i
}

/// The pieces of `s` between the separators.
pub open spec fn split(s: Seq<char>, sep: char) -> Seq<Seq<char>>
    decreases s.len(),
    via split_decreases
{
    let i = index_of(s, sep);
    if i >= s.len() {
        seq![s]
    } else {
        seq![s.take(i)] + split(s.skip(i + 1), sep)
    }
}

#[via_fn]
proof fn split_decreases(s: Seq<char>, sep: char) {
    lemma_index_of(s, sep);
}

/// What stands before and after the first separator; `None` where there is none.
pub open spec fn split_once(s: Seq<char>, sep: char) -> Option<(Seq<char>, Seq<char>)> {
    let i = index_of(s, sep);
    if i < s.len() {
        Some((s.take(i), s.skip(i + 1)))
    } else {
        None
    }
}

/// The pieces of `s` between the separators, as slices.
pub fn split_at<'a>(s: &'a [char], sep: char) -> (r: Vec<&'a [char]>)
    ensures
        slice_views(r@) == split(s@, sep),
{
    let mut r: Vec<&'a [char]> = Vec::new();
    let mut rest: &'a [char] = s;
    loop
        invariant
            slice_views(r@) + split(rest@, sep) == split(s@, sep),
        decreases rest@.len(),
    {
        let ghost done = slice_views(r@);
        let i: usize = position(rest, sep);
        if i == rest.len() {
            r.push(rest);
            assert(slice_views(r@) =~= done + split(rest@, sep));
            return r;
        }
        let piece: &'a [char] = &rest[0..i];
        let next: &'a [char] = &rest[i + 1..rest.len()];
        assert(piece@ =~= rest@.take(i as int));
        assert(next@ =~= rest@.skip(i + 1));
        r.push(piece);
        assert(slice_views(r@) + split(next@, sep) =~= done + split(rest@, sep)) by {
            assert(slice_views(r@) =~= done + seq![piece@]);
        }
        rest = next;
    }
}

/// The characters that the slices hold.
pub open spec fn slice_views(v: Seq<&[char]>) -> Seq<Seq<char>> {
    v.map_values(|s: &[char]| s@)
}

/// Where white space first stands in `s`; the length of `s` where there is none.
pub open spec fn space_index(s: Seq<char>) -> int
    decreases s.len(),
{
    if s.len() == 0 || is_space(s[0]) {
        0
    } else {
        1 + space_index(s.drop_first())
    }
}

pub proof fn lemma_space_index(s: Seq<char>)
    ensures
        0 <= space_index(s) <= s.len(),
        s.len() > 0 && !is_space(s[0]) ==> space_index(s) > 0,
    decreases s.len(),
{
    if s.len() > 0 && !is_space(s[0]) {
        lemma_space_index(s.drop_first());
    }
}

pub proof fn lemma_trimmed_start_shorter(s: Seq<char>)
    ensures
        trimmed_start(s).len() <= s.len(),
        trimmed_start(s).len() > 0 ==> !is_space(trimmed_start(s)[0]),
    decreases s.len(),
{
    if s.len() > 0 && is_space(s[0]) {
        lemma_trimmed_start_shorter(s.drop_first());
    }
}

/// The words of `s`: its longest runs without white space, in order.
pub open spec fn words(s: Seq<char>) -> Seq<Seq<char>>
    decreases s.len(),
    via words_decreases
{
    let t = trimmed_start(s);
    if t.len() == 0 {
        Seq::empty()
    } else {
        seq![t.take(space_index(t))] + words(t.skip(space_index(t)))
    }
}

#[via_fn]
proof fn words_decreases(s: Seq<char>) {
    lemma_trimmed_start_shorter(s);
    lemma_space_index(trimmed_start(s));
}

/// Where white space first stands in `s`; the length of `s` where there is none.
fn space_position(s: &[char]) -> (r: usize)
    ensures
        r == space_index(s@),
        r <= s@.len(),
{
    let mut i: usize = 0;
    assert(s@.skip(0) =~= s@);
    while i < s.len() && !space(s[i])
        invariant
            i <= s@.len(),
            space_index(s@) == i + space_index(s@.skip(i as int)),
        decreases s@.len() - i,
    {
        assert(s@.skip(i as int).drop_first() =~= s@.skip(i + 1));
        i = i + 1;
    }
    i
}

/// The words of `s`, as slices.
pub fn split_words<'a>(s: &'a [char]) -> (r: Vec<&'a [char]>)
    ensures
        slice_views(r@) == words(s@),
{
    let mut r: Vec<&'a [char]> = Vec::new();
    let mut rest: &'a [char] = s;
    loop
        invariant
            slice_views(r@) + words(rest@) == words(s@),
        decreases rest@.len(),
    {
        let ghost done = slice_views(r@);
        let ghost before = rest@;
        let t: &'a [char] = trim_start(rest);
        proof {
            lemma_trimmed_start_shorter(rest@);
            lemma_space_index(t@);
        }
        if t.len() == 0 {
            assert(done + words(before) =~= done);
            return r;
        }
        let i: usize = space_position(t);
        let piece: &'a [char] = &t[0..i];
        let next: &'a [char] = &t[i..t.len()];
        assert(piece@ =~= t@.take(i as int));
        assert(next@ =~= t@.skip(i as int));
        r.push(piece);
        assert(slice_views(r@) + words(next@) =~= done + words(before)) by {
            assert(slice_views(r@) =~= done + seq![piece@]);
        }
        rest = next;
    }
}

/// The ASCII lower-case form of a character; any other character is its own.
pub open spec fn lower_char(c: char) -> char {
    if 'A' <= c <= 'Z' {
        ((c as u8) + 32) as char
    } else {
        c
    }
}

/// The ASCII lower-case form of a text.
pub open spec fn lowered(s: Seq<char>) -> Seq<char> {
    s.map_values(|c: char| lower_char(c))
}

/// The ASCII lower-case form of a character.
pub fn lower(c: char) -> (r: char)
    ensures
        r == lower_char(c),
{
    if 'A' <= c && c <= 'Z' {
        ((c as u8) + 32) as char
    } else {
        c
    }
}

/// The ASCII lower-case form of the characters.
pub fn lower_chars(s: &[char]) -> (r: Vec<char>)
    ensures
        r@ == lowered(s@),
{
    let mut r: Vec<char> = Vec::new();
    let mut i: usize = 0;
    while i < s.len()
        invariant
            i <= s@.len(),
            r@ == lowered(s@.take(i as int)),
        decreases s@.len() - i,
    {
        r.push(lower(s[i]));
        i = i + 1;
        assert(r@ =~= lowered(s@.take(i as int)));
    }
    assert(s@.take(i as int) =~= s@);
    r
}

/// Whether the two slices hold the same characters.
pub fn same_chars(a: &[char], b: &[char]) -> (r: bool)
    ensures
        r == (a@ == b@),
{
    if a.len() != b.len() {
        return false;
    }
    let mut i: usize = 0;
    while i < a.len()
        invariant
            i <= a@.len() == b@.len(),
            forall|j: int| 0 <= j < i ==> a@[j] == b@[j],
        decreases a@.len() - i,
    {
        if a[i] != b[i] {
            return false;
        }
        i = i + 1;
    }
    assert(a@ =~= b@);
    true
}

/// Whether two texts are the same up to the case of ASCII letters.
pub open spec fn same_folded(a: Seq<char>, b: Seq<char>) -> bool {
    lowered(a) == lowered(b)
}

/// Whether two texts are the same up to the case of ASCII letters.
pub fn folded_equal(a: &[char], b: &[char]) -> (r: bool)
    ensures
        r == same_folded(a@, b@),
{
    let la = lower_chars(a);
    let lb = lower_chars(b);
    same_chars(&la, &lb)
}

/// Whether two strings are the same up to the case of ASCII letters.
pub fn text_folded_equal(a: &str, b: &str) -> (r: bool)
    ensures
        r == same_folded(a@, b@),
{
    let ca = chars_of(a);
    let cb = chars_of(b);
    folded_equal(&ca, &cb)
}

/// Whether `s` begins with `prefix`.
pub open spec fn text_begins(s: Seq<char>, prefix: Seq<char>) -> bool {
    prefix.len() <= s.len() && s.take(prefix.len() as int) == prefix
}

/// Whether `s` begins with `prefix`.
pub fn chars_begin(s: &[char], prefix: &[char]) -> (r: bool)
    ensures
        r == text_begins(s@, prefix@),
{
    if s.len() < prefix.len() {
        return false;
    }
    let head = &s[0..prefix.len()];
    assert(head@ =~= s@.take(prefix@.len() as int));
    same_chars(head, prefix)
}

/// Whether `needle` occurs in `s`.
pub open spec fn text_contains(s: Seq<char>, needle: Seq<char>) -> bool {
    exists|i: int| 0 <= i <= s.len() && text_begins(#[trigger] s.skip(i), needle)
}

/// Whether `needle` occurs in `s`.
pub fn chars_contain(s: &[char], needle: &[char]) -> (r: bool)
    ensures
        r == text_contains(s@, needle@),
{
    let mut i: usize = 0;
    loop
        invariant
            i <= s@.len(),
            forall|j: int| 0 <= j < i ==> !text_begins(#[trigger] s@.skip(j), needle@),
        decreases s@.len() - i,
    {
        let rest = &s[i..s.len()];
        assert(rest@ =~= s@.skip(i as int));
        if chars_begin(rest, needle) {
            return true;
        }
        if i == s.len() {
            return false;
        }
        i = i + 1;
    }
}

/// The value of a digit in a base up to sixteen; `None` for any other character.
pub open spec fn digit_value(c: char, base: nat) -> Option<nat> {
    let v = if '0' <= c <= '9' {
        (c as u32 - '0' as u32) as nat
    } else if 'a' <= c <= 'f' {
        (c as u32 - 'a' as u32 + 10) as nat
    } else if 'A' <= c <= 'F' {
        (c as u32 - 'A' as u32 + 10) as nat
    } else {
        99
    };
    if v < base {
        Some(v)
    } else {
        None
    }
}

/// The number that the digits spell; `None` where a character is no digit.
pub open spec fn digits_value(s: Seq<char>, base: nat) -> Option<nat>
    decreases s.len(),
{
    if s.len() == 0 {
        Some(0)
    } else {
        match (digits_value(s.drop_last(), base), digit_value(s.last(), base)) {
            (Some(high), Some(low)) => Some(high * base + low),
            _ => None,
        }
    }
}

/// An unsigned number as `from_str_radix` reads it: one optional plus sign, then at least one
/// digit and nothing else, with a value of at most `max`.
pub open spec fn parsed_number(s: Seq<char>, base: nat, max: nat) -> Option<nat> {
    let digits = if s.len() > 0 && s[0] == '+' {
        s.drop_first()
    } else {
        s
    };
    if digits.len() == 0 {
        None
    } else {
        match digits_value(digits, base) {
            Some(v) => if v <= max {
                Some(v)
            } else {
                None
            },
            None => None,
        }
    }
}

proof fn lemma_digits_grow(s: Seq<char>, base: nat, n: int)
    requires
        0 <= n <= s.len(),
        base >= 1,
        digits_value(s, base) is Some,
    ensures
        digits_value(s.take(n), base) is Some,
        digits_value(s.take(n), base)->0 <= digits_value(s, base)->0,
    decreases s.len(),
{
    if n == s.len() {
        assert(s.take(n) =~= s);
    } else {
        lemma_digits_grow(s.drop_last(), base, n);
        assert(s.drop_last().take(n) =~= s.take(n));
        let high = digits_value(s.drop_last(), base)->0;
        assert(high * base >= high) by (nonlinear_arith)
            requires
                base >= 1,
                high >= 0,
        ;
    }
}

/// The value of a digit in a base up to sixteen.
pub fn digit_of(c: char, base: u64) -> (r: Option<u64>)
    requires
        2 <= base <= 16,
    ensures
        match r {
            Some(v) => digit_value(c, base as nat) == Some(v as nat),
            None => digit_value(c, base as nat) is None,
        },
{
    let v: u64 = if '0' <= c && c <= '9' {
        (c as u32 - '0' as u32) as u64
    } else if 'a' <= c && c <= 'f' {
        (c as u32 - 'a' as u32 + 10) as u64
    } else if 'A' <= c && c <= 'F' {
        (c as u32 - 'A' as u32 + 10) as u64
    } else {
        99
    };
    if v < base {
        Some(v)
    } else {
        None
    }
}

/// Reads an unsigned number of at most `max` in base ten or sixteen.
pub fn parse_number(s: &[char], base: u64, max: u64) -> (r: Option<u64>)
    requires
        2 <= base <= 16,
    ensures
        match r {
            Some(v) => parsed_number(s@, base as nat, max as nat) == Some(v as nat),
            None => parsed_number(s@, base as nat, max as nat) is None,
        },
{
    let digits: &[char] = if s.len() > 0 && s[0] == '+' {
        &s[1..s.len()]
    } else {
        s
    };
    proof {
        if s@.len() > 0 && s@[0] == '+' {
            assert(digits@ =~= s@.drop_first());
        }
    }
    if digits.len() == 0 {
        return None;
    }
    let mut v: u64 = 0;
    let mut i: usize = 0;
    while i < digits.len()
        invariant
            2 <= base <= 16,
            i <= digits@.len(),
            v <= max,
            digits_value(digits@.take(i as int), base as nat) == Some(v as nat),
            digits@.len() > 0,
            digits@ == (if s@.len() > 0 && s@[0] == '+' {
                s@.drop_first()
            } else {
                s@
            }),
        decreases digits@.len() - i,
    {
        let ghost next = digits@.take(i + 1);
        proof {
            assert(next.drop_last() =~= digits@.take(i as int));
            if digits_value(digits@, base as nat) is Some {
                lemma_digits_grow(digits@, base as nat, i + 1);
            }
        }
        match digit_of(digits[i], base) {
            None => {
                return None;
            },
            Some(d) => {
                assert(v * base <= 16 * u64::MAX) by (nonlinear_arith)
                    requires
                        v <= u64::MAX,
                        base <= 16,
                ;
                let wide: u128 = (v as u128) * (base as u128) + d as u128;
                if wide > max as u128 {
                    return None;
                }
                v = wide as u64;
            },
        }
        i = i + 1;
    }
    assert(digits@.take(i as int) =~= digits@);
    Some(v)
}

/// The character of a digit below sixteen, lower case.
pub open spec fn digit_char(d: nat) -> char {
    if d < 10 {
        (d + '0' as nat) as char
    } else {
        (d - 10 + 'a' as nat) as char
    }
}

/// `n` written in a base up to sixteen, without leading zeros.
pub open spec fn number_text(n: nat, base: nat) -> Seq<char>
    decreases n,
{
    if base < 2 || n < base {
        seq![digit_char(n)]
    } else {
        proof {
            assert(n / base < n) by (nonlinear_arith)
                requires
                    n >= base,
                    base >= 2,
            ;
        }
        number_text(n / base, base).push(digit_char(n % base))
    }
}

/// `n` in decimal notation.
pub open spec fn decimal(n: nat) -> Seq<char> {
    number_text(n, 10)
}

/// Whether every character is a digit of the base.
pub open spec fn all_digits(s: Seq<char>, base: nat) -> bool {
    forall|i: int| 0 <= i < s.len() ==> digit_value(#[trigger] s[i], base) is Some
}

/// A number is read back from its notation, which holds nothing but digits.
pub proof fn law_number_round_trip(n: nat, base: nat, max: nat)
    requires
        2 <= base <= 16,
        n <= max,
    ensures
        parsed_number(number_text(n, base), base, max) == Some(n),
        all_digits(number_text(n, base), base),
        number_text(n, base).len() > 0,
{
    lemma_number_digits(n, base);
    assert(digit_value(number_text(n, base)[0], base) is Some);
}

proof fn lemma_digit_round_trip(d: nat, base: nat)
    requires
        d < base <= 16,
    ensures
        digit_value(digit_char(d), base) == Some(d),
{
}

proof fn lemma_number_digits(n: nat, base: nat)
    requires
        2 <= base <= 16,
    ensures
        digits_value(number_text(n, base), base) == Some(n),
        all_digits(number_text(n, base), base),
        number_text(n, base).len() > 0,
    decreases n,
{
    let s = number_text(n, base);
    if n < base {
        lemma_digit_round_trip(n, base);
        assert(s.drop_last() =~= Seq::empty());
        assert(digits_value(s.drop_last(), base) == Some(0nat));
        assert(0 * base == 0) by (nonlinear_arith);
    } else {
        assert(n / base < n) by (nonlinear_arith)
            requires
                n >= base,
                base >= 2,
        ;
        lemma_number_digits(n / base, base);
        assert(n % base < base) by (nonlinear_arith)
            requires
                base >= 2,
        ;
        lemma_digit_round_trip(n % base, base);
        let high = number_text(n / base, base);
        assert(s.drop_last() =~= high);
        assert((n / base) * base + n % base == n) by (nonlinear_arith)
            requires
                base >= 2,
        ;
        assert forall|i: int| 0 <= i < s.len() implies digit_value(#[trigger] s[i], base) is Some by {
            if i < s.len() - 1 {
                assert(digit_value(high[i], base) is Some);
            }
        }
    }
}

/// Sixteen hexadecimal digits are enough for 64 bits.
pub proof fn lemma_hex_length(n: nat)
    requires
        n <= u64::MAX,
    ensures
        number_text(n, 16).len() <= 16,
{
    reveal_with_fuel(number_text, 17);
}

/// Digits have no space around them.
pub proof fn lemma_digits_are_trimmed(s: Seq<char>, base: nat)
    requires
        all_digits(s, base),
        base <= 16,
        s.len() > 0,
    ensures
        trimmed(s) == s,
{
    assert(digit_value(s[0], base) is Some);
    assert(digit_value(s.last(), base) is Some);
    assert(trimmed_start(s) == s);
    assert(trimmed_end(s) == s);
}

/// The character of a digit below sixteen.
pub fn digit_text(d: u64) -> (r: char)
    requires
        d < 16,
    ensures
        r == digit_char(d as nat),
{
    if d < 10 {
        (d as u8 + 48) as char
    } else {
        (d as u8 - 10 + 97) as char
    }
}

/// Appends `n` in the given base.
pub fn push_number(out: &mut String, n: u64, base: u64)
    requires
        2 <= base <= 16,
    ensures
        final(out)@ == old(out)@ + number_text(n as nat, base as nat),
    decreases n,
{
    let ghost start = out@;
    if n < base {
        out.push(digit_text(n));
        assert(out@ =~= start + number_text(n as nat, base as nat));
    } else {
        assert(n / base < n) by (nonlinear_arith)
            requires
                n >= base,
                base >= 2,
        ;
        push_number(out, n / base, base);
        out.push(digit_text(n % base));
        assert(out@ =~= start + number_text(n as nat, base as nat));
    }
}

/// `n` in decimal notation.
pub fn decimal_text(n: u64) -> (r: String)
    ensures
        r@ == decimal(n as nat),
{
    let mut r = String::new();
    push_number(&mut r, n, 10);
    assert(r@ =~= decimal(n as nat));
    r
}

/// Appends the characters of `tail`.
pub fn push_text(out: &mut String, tail: &str)
    ensures
        final(out)@ == old(out)@ + tail@,
{
    out.append(tail);
}

/// What stands before and behind the first `sep`.
pub fn split_pair<'a>(s: &'a [char], sep: char) -> (r: Option<(&'a [char], &'a [char])>)
    ensures
        match r {
            Some((a, b)) => split_once(s@, sep) == Some((a@, b@)),
            None => split_once(s@, sep) is None,
        },
{
    let at: usize = position(s, sep);
    if at < s.len() {
        let head = &s[0..at];
        let tail = &s[at + 1..s.len()];
        assert(head@ =~= s@.take(at as int));
        assert(tail@ =~= s@.skip(at + 1));
        Some((head, tail))
    } else {
        None
    }
}

/// What stands before the first `sep`; all of it where there is none.
pub open spec fn before(s: Seq<char>, sep: char) -> Seq<char> {
    s.take(index_of(s, sep))
}

/// What stands before the first `sep`.
pub fn text_before(s: &[char], sep: char) -> (r: &[char])
    ensures
        r@ == before(s@, sep),
{
    let at: usize = position(s, sep);
    let head = &s[0..at];
    assert(head@ =~= s@.take(at as int));
    head
}

/// Whether a line ends at `at`.
pub open spec fn breaks_at(s: Seq<char>, at: int) -> bool {
    0 <= at && at + 1 < s.len() && s[at] == '\r' && s[at + 1] == '\n'
}

/// Where the first line ends: the place of the first line break, or the end.
pub open spec fn line_end(s: Seq<char>) -> int
    decreases s.len(),
{
    if s.len() == 0 || breaks_at(s, 0) {
        0
    } else {
        1 + line_end(s.drop_first())
    }
}

proof fn lemma_line_end(s: Seq<char>)
    ensures
        0 <= line_end(s) <= s.len(),
        line_end(s) < s.len() <==> breaks_at(s, line_end(s)),
        forall|i: int| 0 <= i < line_end(s) ==> !breaks_at(s, i),
    decreases s.len(),
{
    if s.len() > 0 && !breaks_at(s, 0) {
        let t = s.drop_first();
        lemma_line_end(t);
        assert(breaks_at(t, line_end(t)) == breaks_at(s, line_end(s)));
        assert forall|i: int| 0 <= i < line_end(s) implies !breaks_at(s, i) by {
            if i > 0 {
                assert(!breaks_at(t, i - 1));
            }
        }
    }
}

proof fn lemma_line_end_unique(s: Seq<char>, at: int)
    requires
        0 <= at <= s.len(),
        at < s.len() ==> breaks_at(s, at),
        forall|i: int| 0 <= i < at ==> !breaks_at(s, i),
    ensures
        line_end(s) == at,
{
    lemma_line_end(s);
    if line_end(s) < at {
        assert(!breaks_at(s, line_end(s)));
    }
}

/// The lines of a text: what the line breaks separate.
pub open spec fn lines(s: Seq<char>) -> Seq<Seq<char>>
    decreases s.len(),
    via lines_decreases
{
    if line_end(s) < s.len() {
        seq![s.take(line_end(s))] + lines(s.skip(line_end(s) + 2))
    } else {
        seq![s]
    }
}

#[via_fn]
proof fn lines_decreases(s: Seq<char>) {
    lemma_line_end(s);
}

/// The lines of a text.
pub fn split_lines<'a>(s: &'a [char]) -> (r: Vec<&'a [char]>)
    ensures
        slice_views(r@) == lines(s@),
{
    let mut out: Vec<&'a [char]> = Vec::new();
    let mut from: usize = 0;
    let mut at: usize = 0;
    assert(s@.skip(0) =~= s@);
    assert(slice_views(out@) =~= Seq::empty());
    assert(slice_views(out@) + lines(s@.skip(0)) =~= lines(s@));
    while at < s.len()
        invariant
            from <= at <= s@.len(),
            slice_views(out@) + lines(s@.skip(from as int)) == lines(s@),
            forall|i: int| 0 <= i < at - from ==> !breaks_at(s@.skip(from as int), i),
        decreases s@.len() - at,
    {
        let ghost rest = s@.skip(from as int);
        if at + 1 < s.len() && s[at] == '\r' && s[at + 1] == '\n' {
            let line = &s[from..at];
            let ghost done = slice_views(out@);
            proof {
                assert(breaks_at(rest, at - from));
                lemma_line_end_unique(rest, at - from);
                assert(line@ =~= rest.take(at - from));
                assert(rest.skip(at - from + 2) =~= s@.skip(at + 2));
            }
            out.push(line);
            proof {
                assert(slice_views(out@) =~= done.push(line@));
                assert(slice_views(out@) + lines(s@.skip(at + 2)) =~= done + lines(rest));
            }
            from = at + 2;
            at = from;
        } else {
            proof {
                assert(!breaks_at(rest, at - from));
            }
            at = at + 1;
        }
    }
    let line = &s[from..s.len()];
    let ghost rest = s@.skip(from as int);
    let ghost done = slice_views(out@);
    proof {
        lemma_line_end_unique(rest, rest.len() as int);
        assert(line@ =~= rest);
    }
    out.push(line);
    proof {
        assert(slice_views(out@) =~= done.push(line@));
        assert(slice_views(out@) =~= done + lines(rest));
    }
    out
}

/// `s` with every occurrence of `needle` replaced, from left to right.
pub open spec fn replaced(s: Seq<char>, needle: Seq<char>, with: Seq<char>) -> Seq<char>
    decreases s.len(),
{
    if needle.len() == 0 || s.len() < needle.len() {
        s
    } else if s.take(needle.len() as int) == needle {
        with + replaced(s.skip(needle.len() as int), needle, with)
    } else {
        seq![s[0]] + replaced(s.skip(1), needle, with)
    }
}

/// Replaces every occurrence of `needle`, from left to right.
pub fn replace(s: &[char], needle: &[char], with: &[char]) -> (r: Vec<char>)
    requires
        needle@.len() > 0,
    ensures
        r@ == replaced(s@, needle@, with@),
{
    let mut out: Vec<char> = Vec::new();
    let mut i: usize = 0;
    assert(s@.skip(0) =~= s@);
    assert(out@ + replaced(s@.skip(0), needle@, with@) =~= replaced(s@, needle@, with@));
    while i < s.len()
        invariant
            i <= s@.len(),
            needle@.len() > 0,
            out@ + replaced(s@.skip(i as int), needle@, with@) == replaced(s@, needle@, with@),
        decreases s@.len() - i,
    {
        let ghost rest = s@.skip(i as int);
        let ghost start = out@;
        if needle.len() <= s.len() - i && same_chars(&s[i..i + needle.len()], needle) {
            proof {
                assert(s@.subrange(i as int, i + needle@.len()) =~= rest.take(
                    needle@.len() as int,
                ));
                assert(rest.skip(needle@.len() as int) =~= s@.skip(i + needle@.len()));
            }
            append_chars(&mut out, with);
            assert(out@ + replaced(s@.skip(i + needle@.len()), needle@, with@) =~= start + replaced(
                rest,
                needle@,
                with@,
            ));
            i = i + needle.len();
        } else {
            proof {
                if needle@.len() <= rest.len() {
                    assert(s@.subrange(i as int, i + needle@.len()) =~= rest.take(
                        needle@.len() as int,
                    ));
                } else {
                    assert(rest =~= seq![rest[0]] + rest.skip(1));
                    assert(replaced(rest.skip(1), needle@, with@) == rest.skip(1));
                }
                assert(rest.skip(1) =~= s@.skip(i + 1));
                assert(rest[0] == s@[i as int]);
            }
            out.push(s[i]);
            assert(out@ + replaced(s@.skip(i + 1), needle@, with@) =~= start + replaced(
                rest,
                needle@,
                with@,
            ));
            i = i + 1;
        }
    }
    assert(s@.skip(i as int) =~= Seq::empty());
    assert(out@ + Seq::<char>::empty() =~= out@);
    out
}

/// Appends characters.
fn append_chars(out: &mut Vec<char>, tail: &[char])
    ensures
        final(out)@ == old(out)@ + tail@,
{
    let ghost start = out@;
    let mut i: usize = 0;
    assert(out@ =~= start + tail@.take(0));
    while i < tail.len()
        invariant
            i <= tail@.len(),
            out@ == start + tail@.take(i as int),
        decreases tail@.len() - i,
    {
        out.push(tail[i]);
        assert(tail@.take(i + 1) =~= tail@.take(i as int).push(tail@[i as int]));
        i = i + 1;
        assert(out@ =~= start + tail@.take(i as int));
    }
    assert(tail@.take(i as int) =~= tail@);
}

/// Some parts in a row, with a separator between each two.
pub open spec fn joined(parts: Seq<Seq<char>>, sep: char) -> Seq<char>
    decreases parts.len(),
{
    if parts.len() == 0 {
        Seq::empty()
    } else if parts.len() == 1 {
        parts[0]
    } else {
        parts[0].push(sep) + joined(parts.drop_first(), sep)
    }
}

/// Whether none of the parts holds the separator.
pub open spec fn free_of(parts: Seq<Seq<char>>, sep: char) -> bool {
    forall|p: int, j: int|
        0 <= p < parts.len() && 0 <= j < parts[p].len() ==> #[trigger] parts[p][j] != sep
}

/// Splitting takes a text apart at every separator and nowhere else: no part holds one, and the
/// parts with the separators between them are the text.
pub proof fn law_split_takes_apart(s: Seq<char>, sep: char)
    ensures
        split(s, sep).len() >= 1,
        free_of(split(s, sep), sep),
        joined(split(s, sep), sep) == s,
    decreases s.len(),
{
    lemma_index_of(s, sep);
    let i = index_of(s, sep);
    let parts = split(s, sep);
    if i < s.len() {
        let rest = split(s.skip(i + 1), sep);
        law_split_takes_apart(s.skip(i + 1), sep);
        assert(parts =~= seq![s.take(i)] + rest);
        assert(parts.drop_first() =~= rest);
        assert forall|p: int, j: int|
            0 <= p < parts.len() && 0 <= j < parts[p].len() implies #[trigger] parts[p][j]
            != sep by {
            if p > 0 {
                assert(parts[p] == rest[p - 1]);
            }
        }
        assert(s.take(i).push(sep) + s.skip(i + 1) =~= s);
    }
}

/// Parts that hold no separator come back from the text in which separators stand between them.
pub proof fn law_split_inverts_join(parts: Seq<Seq<char>>, sep: char)
    requires
        parts.len() >= 1,
        free_of(parts, sep),
    ensures
        split(joined(parts, sep), sep) == parts,
    decreases parts.len(),
{
    let s = joined(parts, sep);
    let n = parts[0].len() as int;
    assert forall|i: int| 0 <= i < n implies #[trigger] s[i] != sep by {
        assert(s[i] == parts[0][i]);
    }
    if parts.len() == 1 {
        lemma_index_of_unique(s, sep, n);
        assert(split(s, sep) =~= parts);
    } else {
        let rest = parts.drop_first();
        assert(s[n] == sep);
        lemma_index_of_unique(s, sep, n);
        assert forall|p: int, j: int|
            0 <= p < rest.len() && 0 <= j < rest[p].len() implies #[trigger] rest[p][j]
            != sep by {
            assert(parts[p + 1][j] == rest[p][j]);
        }
        law_split_inverts_join(rest, sep);
        assert(s.take(n) =~= parts[0]);
        assert(s.skip(n + 1) =~= joined(rest, sep));
        assert(split(s, sep) =~= parts);
    }
}

/// A text is cut once at its first separator; without one it is not cut.
pub proof fn law_split_once_cuts_first(head: Seq<char>, sep: char, tail: Seq<char>)
    requires
        forall|i: int| 0 <= i < head.len() ==> #[trigger] head[i] != sep,
    ensures
        split_once(head.push(sep) + tail, sep) == Some((head, tail)),
        split_once(head, sep) is None,
        before(head.push(sep) + tail, sep) == head,
        before(head, sep) == head,
{
    let s = head.push(sep) + tail;
    let n = head.len() as int;
    assert(forall|i: int| 0 <= i < n ==> s[i] == head[i]);
    lemma_index_of_unique(s, sep, n);
    lemma_index_of_unique(head, sep, n);
    assert(s.take(n) =~= head);
    assert(s.skip(n + 1) =~= tail);
    assert(head.take(n) =~= head);
}

/// Whether all of a text is blank.
pub open spec fn blank(s: Seq<char>) -> bool {
    forall|i: int| 0 <= i < s.len() ==> is_space(#[trigger] s[i])
}

/// Whether a text holds no space.
pub open spec fn solid(s: Seq<char>) -> bool {
    forall|i: int| 0 <= i < s.len() ==> !is_space(#[trigger] s[i])
}

/// Blanks, tabs and line breaks are spaces; no character that one sees in ASCII is.
pub proof fn law_spaces(c: char)
    ensures
        is_space(' ') && is_space('\t') && is_space('\n') && is_space('\r'),
        '!' <= c <= '~' ==> !is_space(c),
        c < '\t' ==> !is_space(c),
{
}

/// Trimming takes away the blanks on both sides and no more: what is left begins and ends with
/// something else, or is empty.
pub proof fn law_trimmed_is_the_core(left: Seq<char>, core: Seq<char>, right: Seq<char>)
    requires
        blank(left),
        blank(right),
        core.len() > 0 ==> !is_space(core[0]) && !is_space(core.last()),
    ensures
        trimmed(left + core + right) == core,
        core.len() > 0 ==> trimmed_start(left + core + right) == core + right,
{
    let s = left + core + right;
    if core.len() > 0 {
        assert(s =~= left + (core + right));
        lemma_blanks_in_front(left, core + right);
        lemma_blanks_behind(core, right);
    } else {
        assert(s =~= left + right);
        assert(blank(s)) by {
            assert forall|i: int| 0 <= i < s.len() implies is_space(#[trigger] s[i]) by {
                if i < left.len() {
                    assert(s[i] == left[i]);
                } else {
                    assert(s[i] == right[i - left.len()]);
                }
            }
        }
        assert(s =~= s + Seq::<char>::empty());
        lemma_blanks_in_front(s, Seq::empty());
        assert(trimmed_end(Seq::<char>::empty()) =~= Seq::<char>::empty());
        assert(core =~= Seq::<char>::empty());
    }
}

proof fn lemma_blanks_in_front(left: Seq<char>, rest: Seq<char>)
    requires
        blank(left),
        rest.len() > 0 ==> !is_space(rest[0]),
    ensures
        trimmed_start(left + rest) == rest,
    decreases left.len(),
{
    if left.len() == 0 {
        assert(left + rest =~= rest);
    } else {
        assert(is_space(left[0]));
        let t = left.drop_first();
        assert forall|i: int| 0 <= i < t.len() implies is_space(#[trigger] t[i]) by {
            assert(t[i] == left[i + 1]);
        }
        assert((left + rest).drop_first() =~= t + rest);
        lemma_blanks_in_front(t, rest);
    }
}

proof fn lemma_blanks_behind(rest: Seq<char>, right: Seq<char>)
    requires
        blank(right),
        rest.len() > 0,
        !is_space(rest.last()),
    ensures
        trimmed_end(rest + right) == rest,
    decreases right.len(),
{
    if right.len() == 0 {
        assert(rest + right =~= rest);
    } else {
        assert(is_space(right.last()));
        let t = right.drop_last();
        assert forall|i: int| 0 <= i < t.len() implies is_space(#[trigger] t[i]) by {
            assert(t[i] == right[i]);
        }
        assert((rest + right).drop_last() =~= rest + t);
        assert((rest + right).last() == right.last());
        lemma_blanks_behind(rest, t);
    }
}

/// The words of a text are what stands between its spaces: blanks in front do not count, the
/// first run without a space is the first word, and the others are those of what follows it.
pub proof fn law_words_stand_between_spaces(left: Seq<char>, word: Seq<char>, rest: Seq<char>)
    requires
        blank(left),
        solid(word),
        rest.len() > 0 ==> is_space(rest[0]),
    ensures
        word.len() > 0 ==> words(left + word + rest) == seq![word] + words(rest),
        words(left) == Seq::<Seq<char>>::empty(),
{
    assert(left =~= left + Seq::<char>::empty());
    lemma_blanks_in_front(left, Seq::empty());
    if word.len() > 0 {
        let s = left + word + rest;
        assert(s =~= left + (word + rest));
        assert(!is_space(word[0]));
        lemma_blanks_in_front(left, word + rest);
        let t = word + rest;
        lemma_word_end(word, rest);
        assert(t.take(word.len() as int) =~= word);
        assert(t.skip(word.len() as int) =~= rest);
    }
}

proof fn lemma_word_end(word: Seq<char>, rest: Seq<char>)
    requires
        solid(word),
        rest.len() > 0 ==> is_space(rest[0]),
    ensures
        space_index(word + rest) == word.len(),
    decreases word.len(),
{
    if word.len() == 0 {
        assert(word + rest =~= rest);
    } else {
        assert(!is_space(word[0]));
        let t = word.drop_first();
        assert forall|i: int| 0 <= i < t.len() implies !is_space(#[trigger] t[i]) by {
            assert(t[i] == word[i + 1]);
        }
        assert((word + rest).drop_first() =~= t + rest);
        lemma_word_end(t, rest);
    }
}

/// Folding turns the capital letters of ASCII into small ones, letter by letter, and leaves all
/// else as it is.
pub proof fn law_folding_is_ascii(s: Seq<char>, t: Seq<char>, i: int)
    ensures
        lowered(s).len() == s.len(),
        0 <= i < s.len() ==> {
            &&& 'A' <= s[i] <= 'Z' ==> lowered(s)[i] as int == s[i] as int + 32
            &&& !('A' <= s[i] <= 'Z') ==> lowered(s)[i] == s[i]
        },
        same_folded(s, t) <==> lowered(s) == lowered(t),
        same_folded(s, lowered(s)),
{
    assert forall|j: int| 0 <= j < s.len() implies lowered(lowered(s))[j] == lowered(s)[j] by {
        let c = s[j];
        if 'A' <= c <= 'Z' {
            assert(lower_char(c) as int == c as int + 32);
        }
    }
    assert(lowered(lowered(s)) =~= lowered(s));
    if 0 <= i < s.len() {
        assert(lowered(s)[i] == lower_char(s[i]));
    }
}

/// A digit is worth what it says, a letter ten and more; each further digit multiplies what
/// stands before it by the base.
pub proof fn law_digits_count(s: Seq<char>, c: char, base: nat)
    requires
        2 <= base <= 16,
    ensures
        digits_value(Seq::empty(), base) == Some(0nat),
        digits_value(s.push(c), base) is Some <==> digits_value(s, base) is Some && digit_value(
            c,
            base,
        ) is Some,
        digits_value(s.push(c), base) matches Some(v) ==> v == digits_value(s, base)->0 * base
            + digit_value(c, base)->0,
        base == 10 ==> (digit_value(c, base) is Some <==> '0' <= c <= '9'),
        base == 16 ==> (digit_value(c, base) is Some <==> '0' <= c <= '9' || 'a' <= c <= 'f'
            || 'A' <= c <= 'F'),
        digit_value(c, base) matches Some(d) ==> {
            &&& '0' <= c <= '9' ==> d == c as int - 48
            &&& 'a' <= c <= 'f' ==> d == c as int - 97 + 10
            &&& 'A' <= c <= 'F' ==> d == c as int - 65 + 10
        },
{
    assert(s.push(c).drop_last() =~= s);
}

/// A number is written in plain digits and small letters, without a zero in front.
pub proof fn law_numbers_are_plain(n: nat, base: nat)
    requires
        2 <= base <= 16,
    ensures
        forall|i: int|
            0 <= i < number_text(n, base).len() ==> '0' <= #[trigger] number_text(n, base)[i]
                <= '9' || 'a' <= number_text(n, base)[i] <= 'f',
        n > 0 ==> number_text(n, base)[0] != '0',
        number_text(n, base).len() > 0,
        decimal(n) == number_text(n, 10),
    decreases n,
{
    if n >= base {
        assert(n / base < n && n / base > 0) by (nonlinear_arith)
            requires
                n >= base,
                base >= 2,
        ;
        assert(n % base < base) by (nonlinear_arith)
            requires
                base >= 2,
        ;
        law_numbers_are_plain(n / base, base);
    }
}

/// Lines end at each carriage return with a line feed behind it, and nowhere else.
pub proof fn law_lines_end_at_breaks(line: Seq<char>, rest: Seq<char>)
    requires
        forall|i: int| !#[trigger] breaks_at(line, i),
    ensures
        lines(line + seq!['\r', '\n'] + rest) == seq![line] + lines(rest),
        lines(line) == seq![line],
{
    let s = line + seq!['\r', '\n'] + rest;
    let n = line.len() as int;
    assert forall|i: int| 0 <= i < n implies !#[trigger] breaks_at(s, i) by {
        if i + 1 < n {
            assert(!breaks_at(line, i));
        }
    }
    assert(breaks_at(s, n));
    lemma_line_end_unique(s, n);
    assert(s.take(n) =~= line);
    assert(s.skip(n + 2) =~= rest);
    lemma_line_end_unique(line, n);
}

/// Replacing puts the new text in place of the first occurrence of the old one and goes on behind
/// it; a text in which the old one does not occur stays as it is.
pub proof fn law_replaced_at_occurrences(
    head: Seq<char>,
    tail: Seq<char>,
    needle: Seq<char>,
    with: Seq<char>,
)
    requires
        needle.len() > 0,
    ensures
        (forall|i: int|
            0 <= i < head.len() ==> !text_begins(#[trigger] (head + needle + tail).skip(i), needle))
            ==> replaced(head + needle + tail, needle, with) == head + with + replaced(
            tail,
            needle,
            with,
        ),
        (forall|i: int| 0 <= i < head.len() ==> !text_begins(#[trigger] head.skip(i), needle))
            ==> replaced(head, needle, with) == head,
    decreases head.len(),
{
    let s = head + needle + tail;
    let n = needle.len() as int;
    if head.len() == 0 {
        assert(s.take(n) =~= needle);
        assert(s.skip(n) =~= tail);
        assert(head + with + replaced(tail, needle, with) =~= with + replaced(tail, needle, with));
    } else {
        let rest = head.drop_first();
        law_replaced_at_occurrences(rest, tail, needle, with);
        let t = rest + needle + tail;
        assert(s.skip(1) =~= t);
        assert(head.skip(1) =~= rest);
        if forall|i: int|
            0 <= i < head.len() ==> !text_begins(#[trigger] s.skip(i), needle) {
            assert(s.skip(0) =~= s);
            assert(!text_begins(s.skip(0), needle));
            assert forall|i: int| 0 <= i < rest.len() implies !text_begins(
                #[trigger] t.skip(i),
                needle,
            ) by {
                assert(t.skip(i) =~= s.skip(i + 1));
            }
            assert(seq![s[0]] + (rest + with + replaced(tail, needle, with)) =~= head + with
                + replaced(tail, needle, with));
        }
        if forall|i: int| 0 <= i < head.len() ==> !text_begins(#[trigger] head.skip(i), needle) {
            assert(head.skip(0) =~= head);
            assert(!text_begins(head.skip(0), needle));
            assert forall|i: int| 0 <= i < rest.len() implies !text_begins(
                #[trigger] rest.skip(i),
                needle,
            ) by {
                assert(rest.skip(i) =~= head.skip(i + 1));
            }
            assert(seq![head[0]] + rest =~= head);
        }
    }
}

} // verus!
