//! Link headers, by which GitHub says where the next page is.

use crate::text;
use vstd::prelude::*;

verus! {

/// Whether a position stands between a `<` and the `>` that closes it.
pub open spec fn enclosed(s: Seq<char>, i: int) -> bool {
    opened(s, i) && closed_after(s, i)
}

/// Whether the last angle bracket before a position is a `<`.
pub open spec fn opened(s: Seq<char>, i: int) -> bool
    decreases i,
{
    if i <= 0 || s[i - 1] == '>' {
        false
    } else if s[i - 1] == '<' {
        true
    } else {
        opened(s, i - 1)
    }
}

/// Whether the first angle bracket after a position is a `>`.
pub open spec fn closed_after(s: Seq<char>, i: int) -> bool
    decreases s.len() - i,
{
    if i + 1 >= s.len() || s[i + 1] == '<' {
        false
    } else if s[i + 1] == '>' {
        true
    } else {
        closed_after(s, i + 1)
    }
}

/// Where a character first stands at or after `from` and not inside of `<…>`;
/// the length of the text where it does not.
pub open spec fn position_outside(s: Seq<char>, c: char, from: nat) -> nat
    decreases s.len() - from,
{
    if from >= s.len() {
        s.len()
    } else if s[from as int] == c && !enclosed(s, from as int) {
        from
    } else {
        position_outside(s, c, from + 1)
    }
}

/// The URL marked `rel="next"` among the entries that begin at `from` and
/// later. An entry ends at a comma. It is a URL and, behind a semicolon, its
/// parameters; an entry without a semicolon marks nothing. A comma or a
/// semicolon inside of `<…>` is part of the URL.
pub open spec fn next_link(s: Seq<char>, from: nat) -> Option<Seq<char>>
    decreases s.len() - from,
{
    let end = position_outside(s, ',', from);
    let entry = text::trimmed(s.subrange(from as int, end as int));
    let semicolon = position_outside(entry, ';', 0) as int;
    if from > s.len() {
        None
    } else if semicolon < entry.len() && text::occurs_in("rel=\"next\""@, text::trimmed(entry.skip(semicolon + 1))) {
        Some(
            text::without_trailing(
                text::without_leading(text::trimmed(entry.take(semicolon)), '<'),
                '>',
            ),
        )
    } else if from <= end < s.len() {
        next_link(s, end + 1)
    } else {
        None
    }
}

/// Whether a position stands between a `<` and the `>` that closes it.
fn is_enclosed(chars: &Vec<char>, i: usize) -> (yes: bool)
    requires
        i < chars@.len(),
    ensures
        yes == enclosed(chars@, i as int),
{
    let mut back: usize = i;
    while back > 0 && chars[back - 1] != '<' && chars[back - 1] != '>'
        invariant
            back <= i < chars@.len(),
            opened(chars@, back as int) == opened(chars@, i as int),
        decreases back,
    {
        back -= 1;
    }
    if back == 0 || chars[back - 1] == '>' {
        return false;
    }
    let n: usize = chars.len();
    let mut ahead: usize = i;
    while ahead + 1 < n && chars[ahead + 1] != '<' && chars[ahead + 1] != '>'
        invariant
            i <= ahead < n == chars@.len(),
            closed_after(chars@, ahead as int) == closed_after(chars@, i as int),
        decreases n - ahead,
    {
        ahead += 1;
    }
    ahead + 1 < n && chars[ahead + 1] == '>'
}

/// Where a character first stands at or after `from` and not inside of `<…>`.
fn find_outside(chars: &Vec<char>, c: char, from: usize) -> (at: usize)
    requires
        from <= chars@.len(),
    ensures
        from <= at <= chars@.len(),
        at == position_outside(chars@, c, from as nat),
{
    let mut at: usize = from;
    while at < chars.len()
        invariant
            from <= at <= chars@.len(),
            position_outside(chars@, c, at as nat) == position_outside(chars@, c, from as nat),
        decreases chars@.len() - at,
    {
        if chars[at] == c && !is_enclosed(chars, at) {
            return at;
        }
        at += 1;
    }
    at
}

/// Extract the URL marked `rel="next"` from a GitHub Link header, if any.
///
/// Handles:
///   - standard `<url>; rel="next", <url>; rel="last"` form
///   - the `rel="next"` entry landing anywhere in the list
///   - URLs that themselves contain commas or semicolons
pub fn parse_link_next(link_header: &str) -> (url: Option<String>)
    ensures
        text::opt_text(url) == next_link(link_header@, 0),
{
    let chars = text::chars_of(link_header);
    let ghost s = link_header@;
    let mut from: usize = 0;
    loop
        invariant
            chars@ == s,
            s == link_header@,
            from <= s.len(),
            next_link(s, from as nat) == next_link(s, 0),
        decreases s.len() - from,
    {
        let end: usize = find_outside(&chars, ',', from);
        let part = text::string_of(&chars, from, end);
        let entry = text::trim(part.as_str());
        let entry_chars = text::chars_of(entry.as_str());
        let semicolon: usize = find_outside(&entry_chars, ';', 0);
        if semicolon < entry_chars.len() {
            let url_part = text::string_of(&entry_chars, 0, semicolon);
            let rel_part = text::string_of(&entry_chars, semicolon + 1, entry_chars.len());
            assert(url_part@ =~= entry@.take(semicolon as int));
            assert(rel_part@ =~= entry@.skip(semicolon + 1));
            let url = text::trim(url_part.as_str());
            let rel = text::trim(rel_part.as_str());
            if text::contains(rel.as_str(), "rel=\"next\"") {
                return Some(text::strip_ends(url.as_str(), '<', '>'));
            }
        }
        if end == chars.len() {
            return None;
        }
        from = end + 1;
    }
}

// ---------------------------------------------------------------------------
// What holds of every list of links
// ---------------------------------------------------------------------------
/// A link as it is written in a header: a URL in angle brackets, its parameters
/// if it has any, and the white space before the URL, on both sides of the
/// semicolon, and at the end.
pub struct Link {
    pub url: Seq<char>,
    pub params: Option<Seq<char>>,
    pub lead: Seq<char>,
    pub gap: Seq<char>,
    pub inner: Seq<char>,
    pub trail: Seq<char>,
}

/// What is written of a link behind its URL.
pub open spec fn tail(l: Link) -> Seq<char> {
    match l.params {
        Some(p) => l.gap + seq![';'] + l.inner + p + l.trail,
        None => l.trail,
    }
}

/// The text of a link.
pub open spec fn written(l: Link) -> Seq<char> {
    l.lead + (seq!['<'] + l.url + seq!['>']) + tail(l)
}

/// The text of some links, with commas between them.
pub open spec fn header(links: Seq<Link>) -> Seq<char>
    decreases links.len(),
{
    if links.len() == 0 {
        Seq::empty()
    } else if links.len() == 1 {
        written(links[0])
    } else {
        written(links[0]) + seq![','] + header(links.drop_first())
    }
}

/// Whether a text is white space throughout.
pub open spec fn blank(s: Seq<char>) -> bool {
    forall|i: int| 0 <= i < s.len() ==> text::white_space(#[trigger] s[i])
}

/// Whether a text is not empty, and neither begins nor ends with white space.
pub open spec fn trim(s: Seq<char>) -> bool {
    s.len() > 0 && !text::white_space(s[0]) && !text::white_space(s.last())
}

/// Whether a link can be written: there are no angle brackets in the URL, no
/// angle brackets and no comma in the parameters, and nothing but white space
/// around them.
pub open spec fn writable(l: Link) -> bool {
    &&& forall|i: int| 0 <= i < l.url.len() ==> #[trigger] l.url[i] != '<' && l.url[i] != '>'
    &&& l.params is Some ==> trim(l.params->0) && forall|i: int|
        0 <= i < l.params->0.len() ==> #[trigger] l.params->0[i] != '<' && l.params->0[i] != '>' && l.params->0[i] != ','
    &&& blank(l.lead)
    &&& blank(l.gap)
    &&& blank(l.inner)
    &&& blank(l.trail)
}

/// Whether a link is marked as that to the next page.
pub open spec fn is_next(l: Link) -> bool {
    l.params is Some && text::occurs_in("rel=\"next\""@, l.params->0)
}

/// The URL of the first link that is marked as that to the next page.
pub open spec fn first_next(links: Seq<Link>) -> Option<Seq<char>>
    decreases links.len(),
{
    if links.len() == 0 {
        None
    } else if is_next(links[0]) {
        Some(links[0].url)
    } else {
        first_next(links.drop_first())
    }
}

/// The link to the next page is found wherever it stands in the header, however
/// it is spaced, also where URLs contain commas and semicolons and where other
/// links have no parameters.
pub proof fn next_link_is_found(links: Seq<Link>)
    requires
        forall|i: int| 0 <= i < links.len() ==> writable(#[trigger] links[i]),
    ensures
        next_link(header(links), 0) == first_next(links),
{
    let none = Seq::<char>::empty();
    if links.len() == 0 {
        let s = header(links);
        assert(s.subrange(0, 0) =~= none);
        assert(text::trimmed(none) =~= none);
    } else {
        lemma_found_behind(none, links);
        assert(none + header(links) =~= header(links));
    }
}

/// A link whose only parameter is the relation `next` is marked as that to the
/// next page.
pub proof fn next_is_marked(l: Link)
    requires
        l.params == Some("rel=\"next\""@),
    ensures
        is_next(l),
{
    let pattern = "rel=\"next\""@;
    assert(pattern.subrange(0, pattern.len() as int) =~= pattern);
    assert(text::stands_at(pattern, pattern, 0));
}

proof fn lemma_opened(s: Seq<char>, at: int, i: int)
    requires
        0 <= at < i <= s.len(),
        s[at] == '<' || s[at] == '>',
        forall|k: int| at < k < i ==> s[k] != '<' && s[k] != '>',
    ensures
        opened(s, i) == (s[at] == '<'),
    decreases i - at,
{
    if i > at + 1 {
        lemma_opened(s, at, i - 1);
    }
}

proof fn lemma_closed(s: Seq<char>, i: int, at: int)
    requires
        0 <= i < at < s.len(),
        s[at] == '>',
        forall|k: int| i < k < at ==> s[k] != '<' && s[k] != '>',
    ensures
        closed_after(s, i),
    decreases at - i,
{
    if at > i + 1 {
        lemma_closed(s, i + 1, at);
    }
}

proof fn lemma_position_outside(s: Seq<char>, c: char, from: nat, at: nat)
    requires
        from <= at <= s.len(),
        forall|j: int| from <= j < at && #[trigger] s[j] == c ==> enclosed(s, j),
        at < s.len() ==> s[at as int] == c && !enclosed(s, at as int),
    ensures
        position_outside(s, c, from) == at,
    decreases at - from,
{
    if from < at {
        lemma_position_outside(s, c, from + 1, at);
    }
}

proof fn lemma_trim_start(lead: Seq<char>, s: Seq<char>)
    requires
        blank(lead),
        s.len() > 0,
        !text::white_space(s[0]),
    ensures
        text::trim_start(lead + s) == s,
    decreases lead.len(),
{
    if lead.len() > 0 {
        assert((lead + s).drop_first() =~= lead.drop_first() + s);
        assert((lead + s)[0] == lead[0]);
        lemma_trim_start(lead.drop_first(), s);
    } else {
        assert(lead + s =~= s);
    }
}

proof fn lemma_trim_end(s: Seq<char>, trail: Seq<char>)
    requires
        blank(trail),
        s.len() > 0,
        !text::white_space(s.last()),
    ensures
        text::trim_end(s + trail) == s,
    decreases trail.len(),
{
    if trail.len() > 0 {
        assert((s + trail).drop_last() =~= s + trail.drop_last());
        assert((s + trail).last() == trail.last());
        lemma_trim_end(s, trail.drop_last());
    } else {
        assert(s + trail =~= s);
    }
}

proof fn lemma_trimmed(lead: Seq<char>, s: Seq<char>, trail: Seq<char>)
    requires
        blank(lead),
        trim(s),
        blank(trail),
    ensures
        text::trimmed(lead + s + trail) == s,
{
    assert(lead + s + trail =~= lead + (s + trail));
    lemma_trim_start(lead, s + trail);
    lemma_trim_end(s, trail);
}

/// A semicolon behind a URL of `n` characters in angle brackets is found, whatever
/// the URL holds.
proof fn lemma_semicolon(s: Seq<char>, n: int, at: int)
    requires
        0 <= n,
        n + 2 <= at <= s.len(),
        s[0] == '<',
        s[n + 1] == '>',
        forall|k: int| 0 < k <= n ==> s[k] != '<' && s[k] != '>',
        forall|k: int| n + 2 <= k < at ==> s[k] != '<' && s[k] != '>' && s[k] != ';',
        at < s.len() ==> s[at] == ';',
    ensures
        position_outside(s, ';', 0) == at,
{
    assert forall|j: int| 0 <= j < at && #[trigger] s[j] == ';' implies enclosed(s, j) by {
        assert(0 < j <= n);
        lemma_opened(s, 0, j);
        lemma_closed(s, j, n + 1);
    }
    if at < s.len() {
        lemma_opened(s, n + 1, at);
    }
    lemma_position_outside(s, ';', 0, at as nat);
}

/// What is read from the text of a link: the URL and the parameters.
proof fn lemma_written(l: Link)
    requires
        writable(l),
    ensures
        ({
            let entry = text::trimmed(written(l));
            let semicolon = position_outside(entry, ';', 0) as int;
            &&& l.params is None ==> semicolon == entry.len()
            &&& l.params is Some ==> {
                &&& semicolon < entry.len()
                &&& text::trimmed(entry.skip(semicolon + 1)) == l.params->0
                &&& text::without_trailing(
                    text::without_leading(text::trimmed(entry.take(semicolon)), '<'),
                    '>',
                ) == l.url
            }
        }),
{
    let none = Seq::<char>::empty();
    let n = l.url.len() as int;
    let bracketed = seq!['<'] + l.url + seq!['>'];
    assert(bracketed[0] == '<' && bracketed.last() == '>');
    assert forall|k: int| 0 < k <= n implies bracketed[k] != '<' && bracketed[k] != '>' by {
        assert(bracketed[k] == l.url[k - 1]);
    }
    if l.params is None {
        assert(written(l) =~= l.lead + bracketed + l.trail);
        lemma_trimmed(l.lead, bracketed, l.trail);
        lemma_semicolon(bracketed, n, n + 2);
    } else {
        let p = l.params->0;
        let core = bracketed + l.gap + seq![';'] + l.inner + p;
        assert(core[0] == '<' && core.last() == p.last());
        assert(written(l) =~= l.lead + core + l.trail);
        lemma_trimmed(l.lead, core, l.trail);
        let at = n + 2 + l.gap.len();
        assert forall|k: int| 0 <= k < n + 2 implies core[k] == bracketed[k] by {}
        assert forall|k: int| n + 2 <= k < at implies core[k] != ';' && core[k] != '<' && core[k] != '>' by {
            assert(core[k] == l.gap[k - (n + 2)]);
        }
        assert(core[at] == ';');
        lemma_semicolon(core, n, at);
        assert(core.skip(at + 1) =~= l.inner + p + none);
        lemma_trimmed(l.inner, p, none);
        assert(core.take(at) =~= none + bracketed + l.gap);
        lemma_trimmed(none, bracketed, l.gap);
        let half = l.url + seq!['>'];
        assert(bracketed.drop_first() =~= half);
        assert(half[0] != '<') by {
            if n > 0 {
                assert(half[0] == l.url[0]);
            }
        }
        reveal_with_fuel(text::without_leading, 2);
        reveal_with_fuel(text::without_trailing, 2);
        assert(text::without_leading(bracketed, '<') == half);
        assert(half.drop_last() =~= l.url);
        assert(l.url.len() > 0 ==> l.url.last() != '>');
    }
}

/// There are no angle brackets and no commas behind the URL of a link.
proof fn lemma_tail(l: Link)
    requires
        writable(l),
    ensures
        forall|k: int| 0 <= k < tail(l).len() ==> #[trigger] tail(l)[k] != '<' && tail(l)[k] != '>' && tail(l)[k] != ',',
{
    let t = tail(l);
    assert forall|k: int| 0 <= k < t.len() implies #[trigger] t[k] != '<' && t[k] != '>' && t[k] != ',' by {
        if l.params is Some {
            let p = l.params->0;
            let g = l.gap.len() as int;
            let i = l.inner.len() as int;
            if k < g {
                assert(t[k] == l.gap[k]);
            } else if k == g {
                assert(t[k] == ';');
            } else if k < g + 1 + i {
                assert(t[k] == l.inner[k - g - 1]);
            } else if k < g + 1 + i + p.len() {
                assert(t[k] == p[k - g - 1 - i]);
            } else {
                assert(t[k] == l.trail[k - g - 1 - i - p.len()]);
            }
        }
    }
}

proof fn lemma_found_behind(before: Seq<char>, links: Seq<Link>)
    requires
        links.len() > 0,
        forall|i: int| 0 <= i < links.len() ==> writable(#[trigger] links[i]),
    ensures
        next_link(before + header(links), before.len()) == first_next(links),
    decreases links.len(),
{
    let l = links[0];
    let e = written(l);
    let t = tail(l);
    let rest = links.drop_first();
    let behind = if links.len() == 1 {
        Seq::<char>::empty()
    } else {
        seq![','] + header(rest)
    };
    let s = before + header(links);
    assert(s =~= before + e + behind);
    let from = before.len() as int;
    let end = from + e.len();
    let n = l.url.len() as int;
    let open = from + l.lead.len();
    let close = open + n + 1;
    assert(writable(links[0]));
    lemma_tail(l);
    assert forall|k: int| 0 <= k < e.len() implies s[from + k] == #[trigger] e[k] by {}
    assert(s[open] == '<') by {
        assert(e[l.lead.len() as int] == '<');
    }
    assert(s[close] == '>') by {
        assert(e[l.lead.len() + n + 1] == '>');
    }
    assert forall|x: int| from <= x < open implies s[x] != ',' by {
        assert(s[x] == l.lead[x - from]);
    }
    assert forall|x: int| open < x < close implies s[x] != '<' && s[x] != '>' by {
        assert(s[x] == l.url[x - open - 1]);
    }
    assert forall|x: int| close < x < end implies s[x] != '<' && s[x] != '>' && s[x] != ',' by {
        assert(s[x] == t[x - close - 1]);
    }
    assert forall|j: int| from <= j < end && #[trigger] s[j] == ',' implies enclosed(s, j) by {
        assert(open < j < close);
        lemma_opened(s, open, j);
        lemma_closed(s, j, close);
    }
    if end < s.len() {
        assert(s[end] == behind[0]);
        lemma_opened(s, close, end);
    }
    lemma_position_outside(s, ',', from as nat, end as nat);
    assert(s.subrange(from, end) =~= e);
    lemma_written(l);
    if !is_next(l) {
        if links.len() == 1 {
            assert(s.len() == end);
            assert(first_next(rest) is None);
        } else {
            let before2 = before + e + seq![','];
            assert forall|i: int| 0 <= i < rest.len() implies writable(#[trigger] rest[i]) by {
                assert(rest[i] == links[i + 1]);
            }
            lemma_found_behind(before2, rest);
            assert(before2 + header(rest) =~= s);
            assert(before2.len() == end + 1);
        }
    }
}

} // verus!
