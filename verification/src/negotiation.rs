//! Content negotiation: which of the offered media types a client gets.

use vstd::prelude::*;
use crate::http::{Request, RequestView, Response, ResponseView};
use crate::json;
use crate::text;

verus! {

/// How an item of an `Accept` field ranks that gives no quality: as one of quality one.
pub const RANK_ONE: u32 = 0x3f80_0000;

/// A media type without its parameters, in lower case.
pub open spec fn base_of(value: Seq<char>) -> Seq<char> {
    text::lowered(text::trimmed(text::before(value, ';')))
}

fn base_chars(value: &[char]) -> (r: Vec<char>)
    ensures
        r@ == base_of(value@),
{
    text::lower_chars(text::trim(text::text_before(value, ';')))
}

/// A media type without its parameters, in lower case.
pub fn media_base(value: &str) -> (r: String)
    ensures
        r@ == base_of(value@),
{
    text::text_of(&base_chars(&text::chars_of(value)))
}

/// The quality that a parameter gives.
pub open spec fn parameter_quality(param: Seq<char>) -> Option<Seq<char>> {
    match text::split_once(param, '=') {
        Some((k, v)) => if text::same_folded(text::trimmed(k), "q"@) {
            Some(text::trimmed(v))
        } else {
            None
        },
        None => None,
    }
}

/// The quality that the last of the parameters to give one gives.
pub open spec fn last_quality(params: Seq<Seq<char>>) -> Option<Seq<char>>
    decreases params.len(),
{
    if params.len() == 0 {
        None
    } else if parameter_quality(params.last()) is Some {
        parameter_quality(params.last())
    } else {
        last_quality(params.drop_last())
    }
}

/// The text of the quality of an item.
pub open spec fn item_quality(item: Seq<char>) -> Option<Seq<char>> {
    last_quality(text::split(item, ';').drop_first())
}

fn read_quality(item: &[char]) -> (r: Option<String>)
    ensures
        text::text_view(r) == item_quality(item@),
{
    let parts = text::split_at(item, ';');
    let ghost all = text::slice_views(parts@);
    let ghost params = text::split(item@, ';').drop_first();
    let mut r: Option<String> = None;
    let mut i: usize = 1;
    proof {
        assert(all.len() == parts@.len());
        assert(params.take(0) =~= Seq::empty());
    }
    while i < parts.len()
        invariant
            1 <= i <= parts@.len(),
            parts@.len() == params.len() + 1,
            all == text::slice_views(parts@),
            all == text::split(item@, ';'),
            params == all.drop_first(),
            text::text_view(r) == last_quality(params.take(i - 1)),
        decreases parts@.len() - i,
    {
        proof {
            assert(params.take(i as int).drop_last() =~= params.take(i - 1));
            assert(params.take(i as int).last() == parts@[i as int]@);
        }
        if let Some((k, v)) = text::split_pair(parts[i], '=') {
            if text::folded_equal(text::trim(k), &text::chars_of("q")) {
                r = Some(text::text_of(text::trim(v)));
            }
        }
        i = i + 1;
    }
    assert(params.take(i - 1) =~= params);
    r
}

/// The views of optional texts.
pub open spec fn optional_views(v: Seq<Option<String>>) -> Seq<Option<Seq<char>>> {
    v.map_values(|s: Option<String>| text::text_view(s))
}

/// The items of an `Accept` field.
pub open spec fn items_of(accept: Seq<char>) -> Seq<Seq<char>> {
    text::split(accept, ',')
}

/// The qualities in an `Accept` field, one for each of its items.
pub fn quality_texts(accept: &str) -> (r: Vec<Option<String>>)
    ensures
        optional_views(r@) == items_of(accept@).map_values(|item: Seq<char>| item_quality(item)),
{
    let chars = text::chars_of(accept);
    let items = text::split_at(&chars, ',');
    let ghost all = items_of(accept@);
    let mut out: Vec<Option<String>> = Vec::new();
    let mut i: usize = 0;
    assert(text::slice_views(items@).len() == items@.len());
    while i < items.len()
        invariant
            i <= items@.len() == all.len(),
            all == text::slice_views(items@),
            out@.len() == i,
            forall|j: int|
                0 <= j < i ==> text::text_view(#[trigger] out@[j]) == item_quality(all[j]),
        decreases items@.len() - i,
    {
        assert(all[i as int] == items@[i as int]@);
        out.push(read_quality(items[i]));
        i = i + 1;
    }
    assert(optional_views(out@) =~= all.map_values(|item: Seq<char>| item_quality(item)));
    out
}

/// Whether an accepted range covers a media type.
pub open spec fn covers(wanted: Seq<char>, base: Seq<char>) -> bool {
    ||| wanted == base
    ||| wanted == "*/*"@
    ||| wanted.len() >= 2 && wanted.skip(wanted.len() - 2) == "/*"@ && text::text_begins(
        base,
        wanted.take(wanted.len() - 1),
    )
}

fn range_covers(wanted: &[char], base: &[char]) -> (r: bool)
    ensures
        r == covers(wanted@, base@),
{
    let any = text::chars_of("*/*");
    let rest = text::chars_of("/*");
    if text::same_chars(wanted, base) || text::same_chars(wanted, &any) {
        return true;
    }
    if wanted.len() < 2 {
        return false;
    }
    let end: usize = wanted.len();
    let tail = &wanted[end - 2..end];
    let head = &wanted[0..end - 1];
    assert(tail@ =~= wanted@.skip(wanted@.len() - 2));
    assert(head@ =~= wanted@.take(wanted@.len() - 1));
    text::same_chars(tail, &rest) && text::chars_begin(base, head)
}

/// The first of the offered types that a range covers, from place `from` on.
pub open spec fn first_covered(wanted: Seq<char>, offered: Seq<Seq<char>>, from: int) -> Option<int>
    decreases offered.len() - from,
{
    if from < 0 || from >= offered.len() {
        None
    } else if covers(wanted, base_of(offered[from])) {
        Some(from)
    } else {
        first_covered(wanted, offered, from + 1)
    }
}

/// How an item ranks: by its quality where it gives one.
pub open spec fn rank_of(items: Seq<Seq<char>>, ranks: Seq<u32>, i: int) -> u32 {
    if item_quality(items[i]) is None {
        RANK_ONE
    } else if i < ranks.len() {
        ranks[i]
    } else {
        0
    }
}

/// Whether an item can be served: it names a range, is acceptable at all, and covers an offer.
pub open spec fn servable(
    items: Seq<Seq<char>>,
    ranks: Seq<u32>,
    offered: Seq<Seq<char>>,
    i: int,
) -> bool {
    &&& base_of(items[i]).len() > 0
    &&& rank_of(items, ranks, i) > 0
    &&& first_covered(base_of(items[i]), offered, 0) is Some
}

/// The best of the first `n` items: the one that ranks highest, and the first among equals.
pub open spec fn best_item(
    items: Seq<Seq<char>>,
    ranks: Seq<u32>,
    offered: Seq<Seq<char>>,
    n: int,
) -> Option<int>
    decreases n,
{
    if n <= 0 {
        None
    } else {
        match best_item(items, ranks, offered, n - 1) {
            Some(b) => if servable(items, ranks, offered, n - 1) && rank_of(items, ranks, n - 1)
                > rank_of(items, ranks, b) {
                Some(n - 1)
            } else {
                Some(b)
            },
            None => if servable(items, ranks, offered, n - 1) {
                Some(n - 1)
            } else {
                None
            },
        }
    }
}

/// Which of the offered types the client gets.
pub open spec fn negotiated(
    accept: Option<Seq<char>>,
    ranks: Seq<u32>,
    offered: Seq<Seq<char>>,
) -> Option<Seq<char>> {
    match accept {
        None => None,
        Some(accept) => {
            let items = items_of(accept);
            match best_item(items, ranks, offered, items.len() as int) {
                Some(i) => Some(offered[first_covered(base_of(items[i]), offered, 0)->0]),
                None => None,
            }
        },
    }
}

fn find_covered(wanted: &[char], offered: &[&str]) -> (r: Option<usize>)
    ensures
        match r {
            Some(j) => first_covered(wanted@, json::str_views(offered@), 0) == Some(j as int) && j
                < offered@.len(),
            None => first_covered(wanted@, json::str_views(offered@), 0) is None,
        },
{
    let ghost all = json::str_views(offered@);
    let mut j: usize = 0;
    while j < offered.len()
        invariant
            j <= offered@.len(),
            all == json::str_views(offered@),
            first_covered(wanted@, all, 0) == first_covered(wanted@, all, j as int),
        decreases offered@.len() - j,
    {
        assert(all[j as int] == offered@[j as int]@);
        let base = base_chars(&text::chars_of(offered[j]));
        if range_covers(wanted, &base) {
            return Some(j);
        }
        j = j + 1;
    }
    None
}

/// Picks the offered type that the client likes best.
pub fn negotiate<'a>(accept: Option<&str>, ranks: &[u32], offered: &[&'a str]) -> (r: Option<
    &'a str,
>)
    ensures
        match r {
            Some(offer) => negotiated(
                match accept {
                    Some(a) => Some(a@),
                    None => None,
                },
                ranks@,
                json::str_views(offered@),
            ) == Some(offer@),
            None => negotiated(
                match accept {
                    Some(a) => Some(a@),
                    None => None,
                },
                ranks@,
                json::str_views(offered@),
            ) is None,
        },
{
    let accept = match accept {
        Some(accept) => accept,
        None => return None,
    };
    let chars = text::chars_of(accept);
    let items = text::split_at(&chars, ',');
    let ghost all = items_of(accept@);
    let ghost offers = json::str_views(offered@);
    let mut best: Option<(u32, usize, usize)> = None;
    let mut i: usize = 0;
    assert(text::slice_views(items@).len() == items@.len());
    while i < items.len()
        invariant
            i <= items@.len() == all.len(),
            all == text::slice_views(items@),
            offers == json::str_views(offered@),
            match best {
                Some((rank, at, offer)) => {
                    &&& best_item(all, ranks@, offers, i as int) == Some(at as int)
                    &&& rank == rank_of(all, ranks@, at as int)
                    &&& first_covered(base_of(all[at as int]), offers, 0) == Some(offer as int)
                    &&& offer < offered@.len()
                },
                None => best_item(all, ranks@, offers, i as int) is None,
            },
        decreases items@.len() - i,
    {
        assert(all[i as int] == items@[i as int]@);
        let base = base_chars(items[i]);
        let rank: u32 = match read_quality(items[i]) {
            None => RANK_ONE,
            Some(_) => if i < ranks.len() {
                ranks[i]
            } else {
                0
            },
        };
        if base.len() > 0 && rank > 0 {
            if let Some(offer) = find_covered(&base, offered) {
                let better = match best {
                    Some((top, _, _)) => rank > top,
                    None => true,
                };
                if better {
                    best = Some((rank, i, offer));
                }
            }
        }
        i = i + 1;
    }
    match best {
        Some((_, _, offer)) => Some(offered[offer]),
        None => None,
    }
}

/// The client gets the type that it ranks highest among those that can be served, and the first
/// that it names among equals; it gets none only where none can be served.
pub proof fn law_best_is_served(
    items: Seq<Seq<char>>,
    ranks: Seq<u32>,
    offered: Seq<Seq<char>>,
    n: int,
    k: int,
)
    requires
        0 <= k < n,
        servable(items, ranks, offered, k),
    ensures
        match best_item(items, ranks, offered, n) {
            Some(i) => {
                &&& 0 <= i < n
                &&& servable(items, ranks, offered, i)
                &&& rank_of(items, ranks, i) > rank_of(items, ranks, k) || rank_of(items, ranks, i)
                    == rank_of(items, ranks, k) && i <= k
            },
            None => false,
        },
    decreases n,
{
    lemma_best_is_servable(items, ranks, offered, n - 1);
    if k < n - 1 {
        law_best_is_served(items, ranks, offered, n - 1, k);
    }
}

proof fn lemma_best_is_servable(
    items: Seq<Seq<char>>,
    ranks: Seq<u32>,
    offered: Seq<Seq<char>>,
    n: int,
)
    ensures
        best_item(items, ranks, offered, n) matches Some(i) ==> 0 <= i < n && servable(
            items,
            ranks,
            offered,
            i,
        ),
    decreases n,
{
    if n > 0 {
        lemma_best_is_servable(items, ranks, offered, n - 1);
    }
}

/// The response to a client that accepts none of the offered types.
pub open spec fn not_acceptable(offered: Seq<Seq<char>>) -> ResponseView {
    ResponseView::negotiation(406, "not_acceptable"@, offered)
}

/// The type that the client gets, or the response where there is none.
pub fn require_accept<'a>(request: &Request, offered: &[&'a str]) -> (r: Result<&'a str, Response>)
    ensures
        match r {
            Ok(offer) => negotiated(
                request@.header("accept"@),
                request@.ranks,
                json::str_views(offered@),
            ) == Some(offer@),
            Err(response) => {
                &&& negotiated(
                    request@.header("accept"@),
                    request@.ranks,
                    json::str_views(offered@),
                ) is None
                &&& response@ == not_acceptable(json::str_views(offered@))
            },
        },
{
    match negotiate(request.header("accept"), &request.ranks, offered) {
        Some(offer) => Ok(offer),
        None => Err(Response::negotiation(406, "not_acceptable", offered)),
    }
}

/// Whether the body of a request has this type, whatever its parameters.
pub open spec fn has_content_type(request: RequestView, expected: Seq<char>) -> bool {
    match request.header("content-type"@) {
        Some(value) => base_of(value) == base_of(expected),
        None => false,
    }
}

/// The response to a body of another type.
pub open spec fn unsupported_type(expected: Seq<char>) -> ResponseView {
    ResponseView::negotiation(415, "unsupported_media_type"@, seq![expected])
}

/// Checks that the body of a request has this type.
pub fn require_content_type(request: &Request, expected: &str) -> (r: Result<(), Response>)
    ensures
        match r {
            Ok(()) => has_content_type(request@, expected@),
            Err(response) => !has_content_type(request@, expected@) && response@
                == unsupported_type(expected@),
        },
{
    let fits = match request.header("content-type") {
        Some(value) => {
            let given = base_chars(&text::chars_of(value));
            let wanted = base_chars(&text::chars_of(expected));
            text::same_chars(&given, &wanted)
        },
        None => false,
    };
    if fits {
        Ok(())
    } else {
        let supported: [&str; 1] = [expected];
        assert(json::str_views(supported@) =~= seq![expected@]);
        Err(Response::negotiation(415, "unsupported_media_type", &supported))
    }
}

/// What stands behind a prefix.
pub open spec fn behind(s: Seq<char>, prefix: Seq<char>) -> Option<Seq<char>> {
    if text::text_begins(s, prefix) {
        Some(s.skip(prefix.len() as int))
    } else {
        None
    }
}

/// The token in an `Authorization` field.
pub open spec fn bearer(value: Seq<char>) -> Option<Seq<char>> {
    match behind(value, "Bearer "@) {
        Some(rest) => Some(text::trimmed(rest)),
        None => match behind(value, "bearer "@) {
            Some(rest) => Some(text::trimmed(rest)),
            None => None,
        },
    }
}

/// Whether a request presents the token, where one is wanted: in its `Authorization` field, or as
/// a query parameter.
pub open spec fn is_authorized(request: RequestView, token: Option<Seq<char>>) -> bool {
    match token {
        None => true,
        Some(token) => {
            ||| match request.header("authorization"@) {
                Some(value) => bearer(value) == Some(token),
                None => false,
            }
            ||| request.query_param("token"@) == Some(token)
        },
    }
}

fn strip<'a>(s: &'a [char], prefix: &str) -> (r: Option<&'a [char]>)
    ensures
        match r {
            Some(rest) => behind(s@, prefix@) == Some(rest@),
            None => behind(s@, prefix@) is None,
        },
{
    let head = text::chars_of(prefix);
    if text::chars_begin(s, &head) {
        let rest = &s[head.len()..s.len()];
        assert(rest@ =~= s@.skip(prefix@.len() as int));
        Some(rest)
    } else {
        None
    }
}

/// Whether a request presents the token, where one is wanted.
pub fn authorized(request: &Request, token: Option<&str>) -> (r: bool)
    ensures
        r == is_authorized(
            request@,
            match token {
                Some(t) => Some(t@),
                None => None,
            },
        ),
{
    let token = match token {
        Some(token) => token,
        None => return true,
    };
    let wanted = text::chars_of(token);
    if let Some(value) = request.header("authorization") {
        let chars = text::chars_of(value);
        let presented = match strip(&chars, "Bearer ") {
            Some(rest) => Some(rest),
            None => strip(&chars, "bearer "),
        };
        if let Some(rest) = presented {
            if text::same_chars(text::trim(rest), &wanted) {
                return true;
            }
        }
    }
    match request.query_param("token") {
        Some(t) => text::same_text(t.as_str(), token),
        None => false,
    }
}

/// A media type is compared without its parameters, without blanks around it and in small letters.
pub proof fn law_types_are_compared_bare(
    left: Seq<char>,
    core: Seq<char>,
    right: Seq<char>,
    parameters: Seq<char>,
)
    requires
        text::blank(left) && text::blank(right),
        core.len() > 0 ==> !text::is_space(core[0]) && !text::is_space(core.last()),
        forall|i: int| 0 <= i < core.len() ==> #[trigger] core[i] != ';',
    ensures
        base_of((left + core + right).push(';') + parameters) == text::lowered(core),
        base_of(left + core + right) == text::lowered(core),
{
    let head = left + core + right;
    text::law_spaces(';');
    assert forall|i: int| 0 <= i < head.len() implies #[trigger] head[i] != ';' by {
        if i < left.len() {
            assert(head[i] == left[i]);
        } else if i < left.len() + core.len() {
            assert(head[i] == core[i - left.len()]);
        } else {
            assert(head[i] == right[i - left.len() - core.len()]);
        }
    }
    text::law_split_once_cuts_first(head, ';', parameters);
    text::law_trimmed_is_the_core(left, core, right);
}

/// What a client asks for covers a type: that type, all types, or all types of its kind.
pub proof fn law_wildcards_cover(kind: Seq<char>, sub: Seq<char>, wanted: Seq<char>)
    ensures
        covers(wanted, wanted),
        covers("*/*"@, wanted),
        covers(kind + "/*"@, kind + "/"@ + sub),
        covers(wanted, kind + "/"@ + sub) ==> wanted == kind + "/"@ + sub || wanted == "*/*"@ || (
        wanted.len() >= 2 && wanted[wanted.len() - 2] == '/' && wanted[wanted.len() - 1] == '*'
            && wanted.take(wanted.len() - 1).is_prefix_of(kind + "/"@ + sub)),
{
    reveal_strlit("/*");
    reveal_strlit("/");
    let all = kind + "/*"@;
    let base = kind + "/"@ + sub;
    assert(all.skip(all.len() - 2) =~= "/*"@);
    assert(all.take(all.len() - 1) =~= kind + "/"@);
    assert(base.take(kind.len() as int + 1) =~= kind + "/"@);
    if covers(wanted, base) && wanted != base && wanted != "*/*"@ {
        let tail = wanted.skip(wanted.len() - 2);
        assert(tail[0] == wanted[wanted.len() - 2] && tail[1] == wanted[wanted.len() - 1]);
        let w = wanted.take(wanted.len() - 1);
        assert(base.subrange(0, w.len() as int) =~= base.take(w.len() as int));
    }
}

/// Of the types that are offered, the first that is covered is taken; where none is, nothing is.
pub proof fn law_first_covered_is_taken(wanted: Seq<char>, offered: Seq<Seq<char>>, from: int)
    requires
        0 <= from,
    ensures
        first_covered(wanted, offered, from) matches Some(i) ==> {
            &&& from <= i < offered.len()
            &&& covers(wanted, base_of(offered[i]))
            &&& forall|j: int| from <= j < i ==> !covers(wanted, base_of(#[trigger] offered[j]))
        },
        first_covered(wanted, offered, from) is None ==> forall|j: int|
            from <= j < offered.len() ==> !covers(wanted, base_of(#[trigger] offered[j])),
    decreases offered.len() - from,
{
    if from < offered.len() && !covers(wanted, base_of(offered[from])) {
        law_first_covered_is_taken(wanted, offered, from + 1);
    }
}

/// The quality of an item is the last of its parameters that is called q, in either case; an item
/// without one counts fully.
pub proof fn law_quality_is_the_last(
    params: Seq<Seq<char>>,
    param: Seq<char>,
    name: Seq<char>,
    value: Seq<char>,
    items: Seq<Seq<char>>,
    ranks: Seq<u32>,
    i: int,
)
    requires
        forall|k: int| 0 <= k < name.len() ==> #[trigger] name[k] != '=',
    ensures
        text::lowered(text::trimmed(name)) == text::lowered("q"@) ==> parameter_quality(
            name.push('=') + value,
        ) == Some(text::trimmed(value)),
        text::lowered(text::trimmed(name)) != text::lowered("q"@) ==> parameter_quality(
            name.push('=') + value,
        ) is None,
        parameter_quality(name) is None,
        last_quality(params.push(param)) == (if parameter_quality(param) is Some {
            parameter_quality(param)
        } else {
            last_quality(params)
        }),
        last_quality(Seq::empty()) is None,
        item_quality(items[i]) is None ==> rank_of(items, ranks, i) == 0x3f80_0000,
        item_quality(items[i]) is Some && i < ranks.len() ==> rank_of(items, ranks, i) == ranks[i],
        item_quality(items[i]) is Some && i >= ranks.len() ==> rank_of(items, ranks, i) == 0,
{
    text::law_split_once_cuts_first(name, '=', value);
    assert(params.push(param).drop_last() =~= params);
}

/// What is served is one of the types that are offered, under an item of the client's that covers
/// it and does not count nothing; no item of its counts more, and of those that count as much it
/// is the first. Without such an item, or without the header, nothing can be served.
pub proof fn law_negotiation_serves_the_best(
    accept: Seq<char>,
    ranks: Seq<u32>,
    offered: Seq<Seq<char>>,
)
    ensures
        negotiated(None, ranks, offered) is None,
        ({
            let items = text::split(accept, ',');
            let r = negotiated(Some(accept), ranks, offered);
            &&& r matches Some(served) ==> exists|i: int, o: int|
                #![trigger items[i], offered[o]]
                0 <= i < items.len() && 0 <= o < offered.len() && served == offered[o] && covers(
                    base_of(items[i]),
                    base_of(offered[o]),
                ) && rank_of(items, ranks, i) > 0 && base_of(items[i]).len() > 0 && forall|k: int|
                    0 <= k < items.len() && #[trigger] servable(items, ranks, offered, k)
                        ==> rank_of(items, ranks, k) < rank_of(items, ranks, i) || (rank_of(
                        items,
                        ranks,
                        k,
                    ) == rank_of(items, ranks, i) && i <= k)
            &&& r is None ==> forall|k: int|
                0 <= k < items.len() ==> !#[trigger] servable(items, ranks, offered, k)
        }),
{
    let items = text::split(accept, ',');
    let n = items.len() as int;
    match best_item(items, ranks, offered, n) {
        Some(i) => {
            lemma_best_is_servable(items, ranks, offered, n);
            law_first_covered_is_taken(base_of(items[i]), offered, 0);
            let o = first_covered(base_of(items[i]), offered, 0)->0;
            assert forall|k: int|
                0 <= k < items.len() && #[trigger] servable(items, ranks, offered, k) implies (
            rank_of(items, ranks, k) < rank_of(items, ranks, i) || (rank_of(items, ranks, k)
                == rank_of(items, ranks, i) && i <= k)) by {
                law_best_is_served(items, ranks, offered, n, k);
            }
            assert(items[i] == items[i] && offered[o] == offered[o]);
        },
        None => {
            assert forall|k: int| 0 <= k < items.len() implies !#[trigger] servable(
                items,
                ranks,
                offered,
                k,
            ) by {
                if servable(items, ranks, offered, k) {
                    law_best_is_served(items, ranks, offered, n, k);
                }
            }
        },
    }
}

/// A token is given behind the word Bearer, with a capital or without one, or as a parameter of
/// the query; without a token that is set, nobody is asked for one.
pub proof fn law_tokens_are_given(q: RequestView, token: Seq<char>, rest: Seq<char>)
    ensures
        bearer("Bearer "@ + rest) == Some(text::trimmed(rest)),
        bearer("bearer "@ + rest) == Some(text::trimmed(rest)),
        is_authorized(q, None),
        q.header("authorization"@) == Some("Bearer "@ + rest) && text::trimmed(rest) == token
            ==> is_authorized(q, Some(token)),
        q.query_param("token"@) == Some(token) ==> is_authorized(q, Some(token)),
        is_authorized(q, Some(token)) ==> q.query_param("token"@) == Some(token) || (q.header(
            "authorization"@,
        ) is Some && bearer(q.header("authorization"@)->0) == Some(token)),
        bearer(rest) is Some ==> "Bearer "@.is_prefix_of(rest) || "bearer "@.is_prefix_of(rest),
{
    reveal_strlit("Bearer ");
    reveal_strlit("bearer ");
    let a = "Bearer "@ + rest;
    let b = "bearer "@ + rest;
    assert(a.take(7) =~= "Bearer "@);
    assert(a.skip(7) =~= rest);
    assert(b.take(7) =~= "bearer "@);
    assert(b.skip(7) =~= rest);
    assert(b.take(7)[0] == 'b');
    assert("Bearer "@[0] == 'B');
    if rest.len() >= 7 {
        assert(rest.take(7) =~= rest.subrange(0, 7));
    }
}

/// A body has the type that is expected where its header names that type, parameters apart. What
/// is refused for its type names the types that would do.
pub proof fn law_types_are_expected(q: RequestView, expected: Seq<char>, offered: Seq<Seq<char>>)
    ensures
        has_content_type(q, expected) <==> q.header("content-type"@) is Some && base_of(
            q.header("content-type"@)->0,
        ) == base_of(expected),
        not_acceptable(offered) == ResponseView::negotiation(406, "not_acceptable"@, offered),
        unsupported_type(expected) == ResponseView::negotiation(
            415,
            "unsupported_media_type"@,
            seq![expected],
        ),
{
}

} // verus!
