//! The JSON bodies that the control plane writes itself.

use vstd::prelude::*;
use crate::text;

verus! {

/// A character as it stands inside a JSON text.
pub open spec fn escaped_char(c: char) -> Seq<char> {
    if c == '"' {
        seq!['\\', '"']
    } else if c == '\\' {
        seq!['\\', '\\']
    } else if c == '\u{8}' {
        seq!['\\', 'b']
    } else if c == '\u{c}' {
        seq!['\\', 'f']
    } else if c == '\n' {
        seq!['\\', 'n']
    } else if c == '\r' {
        seq!['\\', 'r']
    } else if c == '\t' {
        seq!['\\', 't']
    } else if (c as u32) < 0x20 {
        seq![
            '\\',
            'u',
            '0',
            '0',
            text::digit_char((c as u32 / 16) as nat),
            text::digit_char((c as u32 % 16) as nat),
        ]
    } else {
        seq![c]
    }
}

/// The characters of `s` as they stand inside a JSON text.
pub open spec fn escaped(s: Seq<char>) -> Seq<char>
    decreases s.len(),
{
    if s.len() == 0 {
        Seq::empty()
    } else {
        escaped(s.drop_last()) + escaped_char(s.last())
    }
}

/// `s` as a JSON text.
pub open spec fn quoted(s: Seq<char>) -> Seq<char> {
    seq!['"'] + escaped(s) + seq!['"']
}

/// Calls `serde_json::to_string` on a text: it hands back the text in quotation marks, with quotes,
/// backslashes and control characters escaped. It does not fail on a text.
#[verifier::external_body]
fn quote(s: &str) -> (r: String)
    ensures
        r@ == quoted(s@),
{
    serde_json::to_string(s).unwrap_or_default()
}

/// Texts as the items of a JSON list.
pub open spec fn listed(items: Seq<Seq<char>>) -> Seq<char>
    decreases items.len(),
{
    if items.len() == 0 {
        Seq::empty()
    } else if items.len() == 1 {
        quoted(items[0])
    } else {
        listed(items.drop_last()) + seq![','] + quoted(items.last())
    }
}

/// The object that says what went wrong.
pub open spec fn error_object(error: Seq<char>, message: Seq<char>) -> Seq<char> {
    "{\"error\":"@ + quoted(error) + ",\"message\":"@ + quoted(message) + "}"@
}

/// The object that says what went wrong.
pub fn error_text(error: &str, message: &str) -> (r: String)
    ensures
        r@ == error_object(error@, message@),
{
    let mut out = String::new();
    text::push_text(&mut out, "{\"error\":");
    text::push_text(&mut out, quote(error).as_str());
    text::push_text(&mut out, ",\"message\":");
    text::push_text(&mut out, quote(message).as_str());
    text::push_text(&mut out, "}");
    assert(out@ =~= error_object(error@, message@));
    out
}

/// The views of borrowed texts.
pub open spec fn str_views(v: Seq<&str>) -> Seq<Seq<char>> {
    v.map_values(|s: &str| s@)
}

/// The object that says what would have been supported.
pub open spec fn negotiation_object(error: Seq<char>, supported: Seq<Seq<char>>) -> Seq<char> {
    "{\"error\":"@ + quoted(error) + ",\"supported\":["@ + listed(supported) + "]}"@
}

/// The object that says what would have been supported.
pub fn negotiation_text(error: &str, supported: &[&str]) -> (r: String)
    ensures
        r@ == negotiation_object(error@, str_views(supported@)),
{
    let mut out = String::new();
    text::push_text(&mut out, "{\"error\":");
    text::push_text(&mut out, quote(error).as_str());
    text::push_text(&mut out, ",\"supported\":[");
    let ghost head = out@;
    let ghost all = str_views(supported@);
    let mut i: usize = 0;
    assert(all.take(0) =~= Seq::empty());
    assert(out@ =~= head + listed(all.take(0)));
    while i < supported.len()
        invariant
            i <= supported@.len(),
            all == str_views(supported@),
            out@ == head + listed(all.take(i as int)),
        decreases supported@.len() - i,
    {
        proof {
            assert(all.take(i + 1).drop_last() =~= all.take(i as int));
            assert(all.take(i + 1).last() == supported@[i as int]@);
        }
        if i > 0 {
            text::push_text(&mut out, ",");
            proof {
                reveal_strlit(",");
                assert(","@ =~= seq![',']);
            }
        }
        text::push_text(&mut out, quote(supported[i]).as_str());
        assert(out@ =~= head + listed(all.take(i + 1)));
        i = i + 1;
    }
    assert(all.take(i as int) =~= all);
    text::push_text(&mut out, "]}");
    assert(out@ =~= negotiation_object(error@, all));
    out
}

/// How a text is written: quotes around it, quotes and backslashes behind a backslash, line breaks
/// and tabs by their letters, other control characters by their number, all else as it is.
pub proof fn law_texts_are_escaped(s: Seq<char>, c: char)
    ensures
        quoted(s) == seq!['"'] + escaped(s) + seq!['"'],
        escaped(Seq::empty()) == Seq::<char>::empty(),
        escaped(s.push(c)) == escaped(s) + escaped_char(c),
        escaped_char('"') == seq!['\\', '"'],
        escaped_char('\\') == seq!['\\', '\\'],
        escaped_char('\n') == seq!['\\', 'n'],
        escaped_char('\r') == seq!['\\', 'r'],
        escaped_char('\t') == seq!['\\', 't'],
        escaped_char('\u{8}') == seq!['\\', 'b'],
        escaped_char('\u{c}') == seq!['\\', 'f'],
        (c as int) >= 32 && c != '"' && c != '\\' ==> escaped_char(c) == seq![c],
        (c as int) < 32 ==> escaped_char(c)[0] == '\\' && (escaped_char(c).len() == 2 || (escaped_char(
            c,
        ).len() == 6 && escaped_char(c)[1] == 'u' && text::digits_value(
            escaped_char(c).skip(2),
            16,
        ) == Some(c as nat))),
{
    assert(s.push(c).drop_last() =~= s);
    if (c as int) < 32 {
        let e = escaped_char(c);
        if e.len() == 6 {
            let d = e.skip(2);
            let high = (c as u32 / 16) as nat;
            let low = (c as u32 % 16) as nat;
            let none = Seq::<char>::empty();
            let z = '0';
            assert(d =~= none.push(z).push(z).push(text::digit_char(high)).push(
                text::digit_char(low),
            ));
            text::law_digits_count(none, z, 16);
            text::law_digits_count(none.push(z), z, 16);
            text::law_digits_count(none.push(z).push(z), text::digit_char(high), 16);
            text::law_digits_count(
                none.push(z).push(z).push(text::digit_char(high)),
                text::digit_char(low),
                16,
            );
            assert(high < 2 && low < 16);
            assert(high * 16 + low == c as nat);
        }
    }
}

/// A list is its texts with commas between them; an error is its name and a message, and a refused
/// type is its name and what would do.
pub proof fn law_objects_hold_their_members(
    items: Seq<Seq<char>>,
    item: Seq<char>,
    error: Seq<char>,
    message: Seq<char>,
)
    ensures
        listed(Seq::empty()) == Seq::<char>::empty(),
        items.len() == 0 ==> listed(items.push(item)) == quoted(item),
        items.len() > 0 ==> listed(items.push(item)) == listed(items) + seq![','] + quoted(item),
        error_object(error, message) == "{\"error\":"@ + quoted(error) + ",\"message\":"@ + quoted(
            message,
        ) + "}"@,
        negotiation_object(error, items) == "{\"error\":"@ + quoted(error) + ",\"supported\":["@
            + listed(items) + "]}"@,
{
    assert(items.push(item).drop_last() =~= items);
}

} // verus!
