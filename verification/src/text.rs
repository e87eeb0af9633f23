//! Text: what the rest of the library needs of `str` and `String`.

use std::cmp::Ordering;
use vstd::prelude::*;
use vstd::utf8::*;

verus! {

// ---------------------------------------------------------------------------
// What is taken from std
// ---------------------------------------------------------------------------
/// `String::push` appends the given character.
pub assume_specification[ String::push ](s: &mut String, c: char)
    ensures
        final(s)@ == old(s)@.push(c),
;

/// `==` on `str` compares the texts character by character.
pub assume_specification[ <str as PartialEq>::eq ](s: &str, other: &str) -> (same: bool)
    ensures
        same == (s@ == other@),
;

/// Whether a character outside ASCII has the Unicode property `White_Space`.
pub uninterp spec fn unicode_white_space(c: char) -> bool;

/// `char::is_whitespace` tells whether a character has the Unicode property
/// `White_Space`. Of the ASCII characters these are the space and the five
/// control characters from tab to carriage return; for the others the answer
/// is only named.
pub assume_specification[ char::is_whitespace ](c: char) -> (b: bool)
    ensures
        b == (if (c as u32) < 0x80 {
            c == ' ' || (0x09 <= (c as u32) && (c as u32) <= 0x0d)
        } else {
            unicode_white_space(c)
        }),
;

/// The Unicode lowercase form of a text that is not ASCII throughout.
pub uninterp spec fn unicode_lowercase(s: Seq<char>) -> Seq<char>;

/// `str::to_lowercase` gives the lowercase equivalent of a text. A text of
/// ASCII characters keeps its length and has its letters `A` to `Z` replaced
/// by `a` to `z`; of any other text the lowercase form is only named.
#[verifier::external_body]
pub(crate) fn to_lowercase(s: &str) -> (lower: String)
    ensures
        lower@ == (if is_ascii_chars(s@) {
            s@.map_values(|c: char| ascii_lower(c))
        } else {
            unicode_lowercase(s@)
        }),
{
    s.to_lowercase()
}

/// `str::contains` with a `str` pattern tells whether the pattern occurs as a
/// run of consecutive characters.
#[verifier::external_body]
pub(crate) fn contains(s: &str, pattern: &str) -> (found: bool)
    ensures
        found == occurs_in(pattern@, s@),
{
    s.contains(pattern)
}

/// `str::cmp` orders texts lexicographically by the positions of their
/// characters in the Unicode code charts.
#[verifier::external_body]
pub(crate) fn text_order(a: &str, b: &str) -> (order: Ordering)
    ensures
        order == (if a@ == b@ {
            Ordering::Equal
        } else if text_le(a@, b@) {
            Ordering::Less
        } else {
            Ordering::Greater
        }),
{
    a.cmp(b)
}

// ---------------------------------------------------------------------------
// Words for contracts
// ---------------------------------------------------------------------------
/// The lowercase form of an ASCII character.
pub open spec fn ascii_lower(c: char) -> char {
    if 'A' <= c && c <= 'Z' {
        ((c as u32) + 32) as char
    } else {
        c
    }
}

/// The lowercase form of a text.
pub open spec fn lowercase(s: Seq<char>) -> Seq<char> {
    if is_ascii_chars(s) {
        s.map_values(|c: char| ascii_lower(c))
    } else {
        unicode_lowercase(s)
    }
}

/// Whether a character is white space.
pub open spec fn white_space(c: char) -> bool {
    if (c as u32) < 0x80 {
        c == ' ' || (0x09 <= (c as u32) && (c as u32) <= 0x0d)
    } else {
        unicode_white_space(c)
    }
}

/// Whether `pattern` stands in `s` at position `at`.
pub open spec fn stands_at(pattern: Seq<char>, s: Seq<char>, at: int) -> bool {
    &&& 0 <= at
    &&& at + pattern.len() <= s.len()
    &&& s.subrange(at, at + pattern.len()) == pattern
}

/// Whether `pattern` occurs in `s` as a run of consecutive characters.
pub open spec fn occurs_in(pattern: Seq<char>, s: Seq<char>) -> bool {
    exists|at: int| stands_at(pattern, s, at)
}

/// Lexicographic order of texts by the code points of their characters.
pub open spec fn text_le(a: Seq<char>, b: Seq<char>) -> bool
    decreases a.len(),
{
    if a.len() == 0 {
        true
    } else if b.len() == 0 {
        false
    } else if a[0] == b[0] {
        text_le(a.drop_first(), b.drop_first())
    } else {
        a[0] < b[0]
    }
}

/// Whether `prefix` begins `s`.
pub open spec fn begins_with(prefix: Seq<char>, s: Seq<char>) -> bool {
    stands_at(prefix, s, 0)
}

/// `s` without the white space that begins it.
pub open spec fn trim_start(s: Seq<char>) -> Seq<char>
    decreases s.len(),
{
    if s.len() > 0 && white_space(s[0]) {
        trim_start(s.drop_first())
    } else {
        s
    }
}

/// `s` without the white space that ends it.
pub open spec fn trim_end(s: Seq<char>) -> Seq<char>
    decreases s.len(),
{
    if s.len() > 0 && white_space(s.last()) {
        trim_end(s.drop_last())
    } else {
        s
    }
}

/// `s` without the white space at both ends.
pub open spec fn trimmed(s: Seq<char>) -> Seq<char> {
    trim_end(trim_start(s))
}

/// Where a character first stands in a text; the length where it does not.
pub open spec fn position(s: Seq<char>, c: char) -> nat
    decreases s.len(),
{
    if s.len() == 0 || s[0] == c {
        0
    } else {
        1 + position(s.drop_first(), c)
    }
}

/// `s` without the `c`s that begin it.
pub open spec fn without_leading(s: Seq<char>, c: char) -> Seq<char>
    decreases s.len(),
{
    if s.len() > 0 && s[0] == c {
        without_leading(s.drop_first(), c)
    } else {
        s
    }
}

/// `s` without the `c`s that end it.
pub open spec fn without_trailing(s: Seq<char>, c: char) -> Seq<char>
    decreases s.len(),
{
    if s.len() > 0 && s.last() == c {
        without_trailing(s.drop_last(), c)
    } else {
        s
    }
}

/// The texts of `parts`, with `separator` between each two of them.
pub open spec fn joined(parts: Seq<Seq<char>>, separator: Seq<char>) -> Seq<char>
    decreases parts.len(),
{
    if parts.len() == 0 {
        Seq::empty()
    } else if parts.len() == 1 {
        parts[0]
    } else {
        joined(parts.drop_last(), separator) + separator + parts.last()
    }
}

/// The parts of a text between the `c`s in it.
pub open spec fn parts(s: Seq<char>, c: char) -> Seq<Seq<char>>
    decreases s.len(),
{
    let at = position(s, c);
    if at < s.len() {
        seq![s.take(at as int)] + parts(s.skip(at as int + 1), c)
    } else {
        seq![s]
    }
}

/// The views of a sequence of `String`s.
pub open spec fn texts(strings: Seq<String>) -> Seq<Seq<char>> {
    strings.map_values(|s: String| s@)
}

/// The view of an optional text.
pub open spec fn opt_text(s: Option<String>) -> Option<Seq<char>> {
    match s {
        Some(t) => Some(t@),
        None => None,
    }
}

/// The view of an optional borrowed text.
pub open spec fn opt_str(s: Option<&str>) -> Option<Seq<char>> {
    match s {
        Some(t) => Some(t@),
        None => None,
    }
}

/// The text, or the empty text where there is none.
pub open spec fn text_or_empty(s: Option<Seq<char>>) -> Seq<char> {
    match s {
        Some(t) => t,
        None => Seq::empty(),
    }
}

/// The decimal digit of a number below ten.
pub open spec fn digit(d: nat) -> char {
    (('0' as u32) + d) as char
}

/// The decimal notation of a number.
pub open spec fn decimal(n: nat) -> Seq<char>
    decreases n,
{
    if n < 10 {
        seq![digit(n)]
    } else {
        decimal(n / 10).push(digit(n % 10))
    }
}

/// Whether a character is a decimal digit.
pub open spec fn is_digit(c: char) -> bool {
    '0' <= c && c <= '9'
}

/// The number that a run of decimal digits stands for; nothing where another
/// character is among them.
pub open spec fn digits_value(s: Seq<char>) -> Option<nat>
    decreases s.len(),
{
    if s.len() == 0 {
        Some(0)
    } else if !is_digit(s.last()) {
        None
    } else {
        match digits_value(s.drop_last()) {
            Some(v) => Some(v * 10 + ((s.last() as u32) - ('0' as u32)) as nat),
            None => None,
        }
    }
}

/// The digits of a number that may have a plus sign before it.
pub open spec fn unsigned_digits(s: Seq<char>) -> Seq<char> {
    if s.len() > 0 && s[0] == '+' {
        s.drop_first()
    } else {
        s
    }
}

/// The number that a text stands for: decimal digits, at least one, with or
/// without a plus sign before them, and no more than `usize` holds.
pub open spec fn parsed_usize(s: Seq<char>) -> Option<usize> {
    let body = unsigned_digits(s);
    match digits_value(body) {
        Some(v) => if body.len() > 0 && v <= usize::MAX {
            Some(v as usize)
        } else {
            None
        },
        None => None,
    }
}

/// What occurs in a part of a text occurs in the text.
pub proof fn part_of_part(a: Seq<char>, b: Seq<char>, s: Seq<char>)
    requires
        occurs_in(a, b),
        occurs_in(b, s),
    ensures
        occurs_in(a, s),
{
    let i = choose|i: int| stands_at(a, b, i);
    let j = choose|j: int| stands_at(b, s, j);
    assert(s.subrange(j + i, j + i + a.len()) =~= b.subrange(i, i + a.len()));
    assert(stands_at(a, s, j + i));
}

/// The order of texts is total: of two texts one comes first, and both do only
/// where they are equal.
pub proof fn text_order_is_total(a: Seq<char>, b: Seq<char>)
    ensures
        text_le(a, b) || text_le(b, a),
        text_le(a, b) && text_le(b, a) ==> a == b,
        text_le(a, a),
    decreases a.len(),
{
    if a.len() > 0 && b.len() > 0 && a[0] == b[0] {
        text_order_is_total(a.drop_first(), b.drop_first());
        if a.drop_first() == b.drop_first() {
            assert(a =~= seq![a[0]] + a.drop_first());
            assert(b =~= seq![b[0]] + b.drop_first());
        }
    }
    if a.len() > 0 {
        text_order_is_total(a.drop_first(), a.drop_first());
    }
    if a.len() == 0 && b.len() == 0 {
        assert(a =~= b);
    }
}

/// The order of texts is transitive.
pub proof fn text_order_is_transitive(a: Seq<char>, b: Seq<char>, c: Seq<char>)
    requires
        text_le(a, b),
        text_le(b, c),
    ensures
        text_le(a, c),
    decreases a.len(),
{
    if a.len() > 0 && a[0] == b[0] && b[0] == c[0] {
        text_order_is_transitive(a.drop_first(), b.drop_first(), c.drop_first());
    }
}

// ---------------------------------------------------------------------------
// Building and taking apart
// ---------------------------------------------------------------------------
/// The characters of a text.
pub(crate) fn chars_of(s: &str) -> (chars: Vec<char>)
    ensures
        chars@ == s@,
{
    let mut chars: Vec<char> = Vec::new();
    for c in it: s.chars()
        invariant
            it.seq() == s@,
            chars@ == s@.take(it.index() as int),
    {
        chars.push(c);
        assert(chars@ =~= s@.take(it.index() + 1));
    }
    assert(s@.take(s@.len() as int) =~= s@);
    chars
}

/// The text of the characters from `from` up to `to`.
pub(crate) fn string_of(chars: &Vec<char>, from: usize, to: usize) -> (s: String)
    requires
        from <= to <= chars@.len(),
    ensures
        s@ == chars@.subrange(from as int, to as int),
{
    let mut s = String::new();
    let mut i: usize = from;
    while i < to
        invariant
            from <= i <= to <= chars@.len(),
            s@ == chars@.subrange(from as int, i as int),
        decreases to - i,
    {
        s.push(chars[i]);
        i += 1;
        assert(s@ =~= chars@.subrange(from as int, i as int));
    }
    s
}

/// Where a character first stands in the characters from `from` on; their
/// number where it does not.
pub(crate) fn find(chars: &Vec<char>, c: char, from: usize) -> (at: usize)
    requires
        from <= chars@.len(),
    ensures
        from <= at <= chars@.len(),
        at - from == position(chars@.skip(from as int), c),
        forall|k: int| from <= k < at ==> chars@[k] != c,
        at < chars@.len() ==> chars@[at as int] == c,
{
    let mut at: usize = from;
    let ghost s = chars@.skip(from as int);
    assert(s.skip(0) =~= s);
    while at < chars.len() && chars[at] != c
        invariant
            from <= at <= chars@.len(),
            s == chars@.skip(from as int),
            position(s, c) == (at - from) + position(s.skip(at - from), c),
            forall|k: int| from <= k < at ==> chars@[k] != c,
        decreases chars@.len() - at,
    {
        assert(s.skip(at - from).drop_first() =~= s.skip(at - from + 1));
        at += 1;
    }
    at
}

/// The parts of a text between the `c`s in it.
pub(crate) fn split(s: &str, c: char) -> (out: Vec<String>)
    ensures
        texts(out@) == parts(s@, c),
{
    let chars = chars_of(s);
    let mut out: Vec<String> = Vec::new();
    let mut from: usize = 0;
    assert(texts(out@) + parts(s@.skip(0), c) =~= parts(s@, c)) by {
        assert(s@.skip(0) =~= s@);
    }
    loop
        invariant
            chars@ == s@,
            from <= s@.len(),
            texts(out@) + parts(s@.skip(from as int), c) == parts(s@, c),
        decreases s@.len() - from,
    {
        let at: usize = find(&chars, c, from);
        let part = string_of(&chars, from, at);
        let ghost rest = s@.skip(from as int);
        let ghost before = texts(out@);
        assert(part@ =~= rest.take(at - from));
        out.push(part);
        assert(texts(out@) =~= before.push(part@));
        if at == chars.len() {
            assert(rest =~= part@);
            assert(texts(out@) =~= before + parts(rest, c));
            return out;
        }
        assert(rest.skip(at - from + 1) =~= s@.skip(at + 1));
        assert(texts(out@) + parts(s@.skip(at + 1), c) =~= before + parts(rest, c));
        from = at + 1;
    }
}

/// The text before the first `c`; the whole text where there is none.
pub(crate) fn before(s: &str, c: char) -> (t: String)
    ensures
        t@ == s@.take(position(s@, c) as int),
{
    let chars = chars_of(s);
    assert(s@.skip(0) =~= s@);
    let at: usize = find(&chars, c, 0);
    let t = string_of(&chars, 0, at);
    assert(t@ =~= s@.take(at as int));
    t
}

/// The concatenation of two texts.
pub(crate) fn concat(a: &str, b: &str) -> (s: String)
    ensures
        s@ == a@ + b@,
{
    a.to_owned().concat(b)
}

/// The lowercase form of an ASCII character; any other as it is.
pub(crate) fn to_ascii_lower(c: char) -> (l: char)
    ensures
        l == ascii_lower(c),
{
    if 'A' <= c && c <= 'Z' {
        (c as u8 + 32) as char
    } else {
        c
    }
}

/// Whether `prefix` begins `s`.
pub(crate) fn starts_with(s: &str, prefix: &str) -> (yes: bool)
    ensures
        yes == begins_with(prefix@, s@),
{
    let whole = chars_of(s);
    let part = chars_of(prefix);
    if part.len() > whole.len() {
        return false;
    }
    let mut i: usize = 0;
    while i < part.len()
        invariant
            part@ == prefix@,
            whole@ == s@,
            i <= part@.len() <= whole@.len(),
            forall|j: int| 0 <= j < i ==> whole@[j] == part@[j],
        decreases part@.len() - i,
    {
        if whole[i] != part[i] {
            proof {
                if begins_with(prefix@, s@) {
                    assert(s@.subrange(0, prefix@.len() as int)[i as int] == prefix@[i as int]);
                }
            }
            return false;
        }
        i += 1;
    }
    assert(s@.subrange(0, prefix@.len() as int) =~= prefix@);
    true
}

/// What follows `prefix` in `s`, where `prefix` begins `s`.
pub(crate) fn strip_prefix(s: &str, prefix: &str) -> (rest: Option<String>)
    ensures
        opt_text(rest) == (if begins_with(prefix@, s@) {
            Some(s@.skip(prefix@.len() as int))
        } else {
            None
        }),
{
    if starts_with(s, prefix) {
        let whole = chars_of(s);
        let from: usize = prefix.unicode_len();
        let rest = string_of(&whole, from, whole.len());
        assert(rest@ =~= s@.skip(prefix@.len() as int));
        Some(rest)
    } else {
        None
    }
}

/// The text without the white space at both ends.
pub(crate) fn trim(s: &str) -> (t: String)
    ensures
        t@ == trimmed(s@),
{
    let chars = chars_of(s);
    let n: usize = chars.len();
    let mut from: usize = 0;
    assert(s@.skip(0) =~= s@);
    while from < n && chars[from].is_whitespace()
        invariant
            chars@ == s@,
            from <= n == s@.len(),
            trim_start(s@.skip(from as int)) == trim_start(s@),
        decreases n - from,
    {
        assert(s@.skip(from as int).drop_first() =~= s@.skip(from + 1));
        from += 1;
    }
    let ghost rest = s@.skip(from as int);
    assert(trim_start(s@) == rest);
    let mut to: usize = n;
    assert(rest.take(rest.len() as int) =~= rest);
    while to > from && chars[to - 1].is_whitespace()
        invariant
            chars@ == s@,
            from <= to <= n == s@.len(),
            rest == s@.skip(from as int),
            trim_end(rest.take(to - from)) == trim_end(rest),
        decreases to,
    {
        assert(rest.take(to - from).drop_last() =~= rest.take(to - from - 1));
        to -= 1;
    }
    assert(rest.take(to - from) =~= s@.subrange(from as int, to as int));
    string_of(&chars, from, to)
}

/// The text without the `first`s that begin it and the `last`s that end what is
/// left.
pub(crate) fn strip_ends(s: &str, first: char, last: char) -> (t: String)
    ensures
        t@ == without_trailing(without_leading(s@, first), last),
{
    let chars = chars_of(s);
    let n: usize = chars.len();
    let mut from: usize = 0;
    assert(s@.skip(0) =~= s@);
    while from < n && chars[from] == first
        invariant
            chars@ == s@,
            from <= n == s@.len(),
            without_leading(s@.skip(from as int), first) == without_leading(s@, first),
        decreases n - from,
    {
        assert(s@.skip(from as int).drop_first() =~= s@.skip(from + 1));
        from += 1;
    }
    let ghost rest = s@.skip(from as int);
    assert(without_leading(s@, first) == rest);
    let mut to: usize = n;
    assert(rest.take(rest.len() as int) =~= rest);
    while to > from && chars[to - 1] == last
        invariant
            chars@ == s@,
            from <= to <= n == s@.len(),
            rest == s@.skip(from as int),
            without_trailing(rest.take(to - from), last) == without_trailing(rest, last),
        decreases to,
    {
        assert(rest.take(to - from).drop_last() =~= rest.take(to - from - 1));
        to -= 1;
    }
    assert(rest.take(to - from) =~= s@.subrange(from as int, to as int));
    string_of(&chars, from, to)
}

/// The texts of `parts`, with `separator` between each two of them.
pub(crate) fn join(parts: &Vec<String>, separator: &str) -> (s: String)
    ensures
        s@ == joined(texts(parts@), separator@),
{
    let ghost all = texts(parts@);
    let mut s = String::new();
    let mut i: usize = 0;
    assert(all.take(0) =~= Seq::<Seq<char>>::empty());
    while i < parts.len()
        invariant
            all == texts(parts@),
            i <= parts@.len(),
            s@ == joined(all.take(i as int), separator@),
        decreases parts@.len() - i,
    {
        assert(all.take(i + 1).drop_last() =~= all.take(i as int));
        if i > 0 {
            s.append(separator);
        }
        s.append(parts[i].as_str());
        assert(i == 0 ==> s@ =~= all[0]);
        i += 1;
    }
    assert(all.take(parts@.len() as int) =~= all);
    s
}

// ---------------------------------------------------------------------------
// Numbers
// ---------------------------------------------------------------------------
/// The decimal notation of a number.
pub(crate) fn decimal_text(n: usize) -> (s: String)
    ensures
        s@ == decimal(n as nat),
    decreases n,
{
    let d: u8 = (n % 10) as u8;
    let last: char = ('0' as u8 + d) as char;
    assert(last == digit((n % 10) as nat));
    let mut s = if n < 10 {
        String::new()
    } else {
        decimal_text(n / 10)
    };
    s.push(last);
    assert(n < 10 ==> s@ =~= seq![digit(n as nat)]);
    s
}

/// The number that a text stands for (see [`parsed_usize`]).
pub(crate) fn parse_usize(s: &str) -> (n: Option<usize>)
    ensures
        n == parsed_usize(s@),
{
    let chars = chars_of(s);
    let from: usize = if chars.len() > 0 && chars[0] == '+' {
        1
    } else {
        0
    };
    let ghost body = unsigned_digits(s@);
    assert(body =~= s@.skip(from as int));
    if from == chars.len() {
        return None;
    }
    let mut value: usize = 0;
    let mut i: usize = from;
    assert(body.take(0) =~= Seq::<char>::empty());
    while i < chars.len()
        invariant
            chars@ == s@,
            body == unsigned_digits(s@),
            body == s@.skip(from as int),
            from <= i <= s@.len(),
            digits_value(body.take(i - from)) == Some(value as nat),
        decreases s@.len() - i,
    {
        let c: char = chars[i];
        let ghost so_far = body.take(i - from + 1);
        assert(so_far.drop_last() =~= body.take(i - from));
        assert(so_far.last() == c);
        if !('0' <= c && c <= '9') {
            proof {
                lemma_digits_of_prefix(body, i - from + 1);
            }
            return None;
        }
        let d: usize = (c as usize) - ('0' as usize);
        let ghost next: nat = value as nat * 10 + d as nat;
        assert(digits_value(so_far) == Some(next));
        if value > (usize::MAX - d) / 10 {
            proof {
                lemma_digits_of_prefix(body, i - from + 1);
            }
            return None;
        }
        value = value * 10 + d;
        i += 1;
    }
    assert(body.take(body.len() as int) =~= body);
    Some(value)
}

/// What a text of digits stands for is nothing, or no less than what its
/// beginning stands for.
proof fn lemma_digits_of_prefix(s: Seq<char>, n: int)
    requires
        0 <= n <= s.len(),
    ensures
        digits_value(s.take(n)) is None ==> digits_value(s) is None,
        digits_value(s) is Some ==> digits_value(s)->0 >= digits_value(s.take(n))->0,
    decreases s.len() - n,
{
    if n == s.len() {
        assert(s.take(n) =~= s);
    } else {
        assert(s.take(n + 1).drop_last() =~= s.take(n));
        lemma_digits_of_prefix(s, n + 1);
    }
}

/// Reading the decimal notation of a number gives the number back.
pub proof fn decimal_reads_back(n: usize)
    ensures
        parsed_usize(decimal(n as nat)) == Some(n),
{
    lemma_decimal_digits(n as nat);
}

proof fn lemma_decimal_digits(n: nat)
    ensures
        decimal(n).len() > 0,
        is_digit(decimal(n)[0]),
        digits_value(decimal(n)) == Some(n),
    decreases n,
{
    let d = n % 10;
    assert(digit(d) as u32 == ('0' as u32) + d);
    if n < 10 {
        assert(decimal(n).drop_last() =~= Seq::<char>::empty());
        assert(digits_value(Seq::<char>::empty()) == Some(0nat));
        assert(decimal(n).last() == digit(d));
    } else {
        lemma_decimal_digits(n / 10);
        assert(decimal(n).drop_last() =~= decimal(n / 10));
        assert(decimal(n).last() == digit(d));
    }
}

// ---------------------------------------------------------------------------
// Shortening
// ---------------------------------------------------------------------------
/// A text cut to `n` characters: as it is where it has no more than `n`, else
/// its first `n - 1` characters and an ellipsis.
pub open spec fn shortened(s: Seq<char>, n: nat) -> Seq<char> {
    if s.len() <= n {
        s
    } else if n == 0 {
        seq!['…']
    } else {
        s.take(n - 1).push('…')
    }
}

/// Truncate a string to `n` chars (not bytes), appending `…` if cut.
/// Safe for multi-byte UTF-8 input.
pub fn truncate(s: &str, n: usize) -> (t: String)
    ensures
        t@ == shortened(s@, n as nat),
{
    let chars = chars_of(s);
    if chars.len() <= n {
        return s.to_owned();
    }
    let keep: usize = if n > 0 {
        n - 1
    } else {
        0
    };
    let mut t = string_of(&chars, 0, keep);
    t.push('…');
    assert(t@ =~= shortened(s@, n as nat));
    t
}

/// A shortened text has no more than `n` characters, or is the ellipsis alone.
pub proof fn shortened_fits(s: Seq<char>, n: nat)
    ensures
        shortened(s, n).len() <= n || shortened(s, n) == seq!['…'],
{
}

/// Shortening twice is shortening once, to the smaller number.
pub proof fn shortening_twice(s: Seq<char>, m: nat, n: nat)
    requires
        n <= m,
    ensures
        shortened(shortened(s, m), n) == shortened(s, n),
{
    let once = shortened(s, m);
    if s.len() > m && 0 < n < m {
        assert(once.take(n - 1) =~= s.take(n - 1));
    }
    assert(shortened(once, n) =~= shortened(s, n));
}

/// The longest beginning of a text whose UTF-8 form has no more than `max`
/// bytes.
pub open spec fn clipped(s: Seq<char>, max: nat) -> Seq<char>
    decreases s.len(),
{
    if s.len() == 0 || encode_utf8(s).len() <= max {
        s
    } else {
        clipped(s.drop_last(), max)
    }
}

/// Cut a text to no more than `max` bytes, at a character boundary so that no
/// code point is split.
pub fn clip(s: String, max: usize) -> (t: String)
    ensures
        t@ == clipped(s@, max as nat),
{
    let size: usize = s.as_str().as_bytes().len();
    if size <= max {
        return s;
    }
    let mut t = String::new();
    let chars = chars_of(s.as_str());
    let mut i: usize = 0;
    let mut used: usize = 0;
    assert(encode_utf8(s@.take(0)) =~= Seq::<u8>::empty());
    assert(s@.take(s@.len() as int) =~= s@);
    while i < chars.len()
        invariant
            chars@ == s@,
            i <= s@.len(),
            t@ == s@.take(i as int),
            used == encode_utf8(s@.take(i as int)).len(),
            used <= max < encode_utf8(s@).len(),
            s@.take(s@.len() as int) == s@,
        decreases s@.len() - i,
    {
        let c: char = chars[i];
        let code: u32 = c as u32;
        let width: usize = if code <= 0x7f {
            1
        } else if code <= 0x7ff {
            2
        } else if code <= 0xffff {
            3
        } else {
            4
        };
        proof {
            char_is_scalar(c);
            lemma_encode_next(s@, i as int);
        }
        if width > max - used {
            proof {
                lemma_clipped(s@, i as int, max as nat);
            }
            return t;
        }
        t.push(c);
        used += width;
        i += 1;
        assert(t@ =~= s@.take(i as int));
    }
    t
}

/// A clipped text begins the text and has no more than `max` bytes.
pub proof fn clipped_fits(s: Seq<char>, max: nat)
    ensures
        clipped(s, max).len() <= s.len(),
        clipped(s, max) == s.take(clipped(s, max).len() as int),
        encode_utf8(clipped(s, max)).len() <= max,
    decreases s.len(),
{
    if s.len() == 0 || encode_utf8(s).len() <= max {
        assert(s.take(s.len() as int) =~= s);
    } else {
        clipped_fits(s.drop_last(), max);
        let n = clipped(s, max).len() as int;
        assert(s.drop_last().take(n) =~= s.take(n));
    }
}

/// Clipping a clipped text changes nothing.
pub proof fn clipping_is_idempotent(s: Seq<char>, max: nat)
    ensures
        clipped(clipped(s, max), max) == clipped(s, max),
{
    clipped_fits(s, max);
}

proof fn lemma_encode_push(s: Seq<char>, c: char)
    ensures
        encode_utf8(s.push(c)) == encode_utf8(s) + encode_scalar(c as u32),
    decreases s.len(),
{
    reveal_with_fuel(encode_utf8, 2);
    if s.len() == 0 {
        assert(s.push(c).drop_first() =~= s);
        assert(encode_utf8(s.push(c)) =~= encode_utf8(s) + encode_scalar(c as u32));
    } else {
        lemma_encode_push(s.drop_first(), c);
        assert(s.push(c).drop_first() =~= s.drop_first().push(c));
        assert(encode_utf8(s.push(c)) =~= encode_utf8(s) + encode_scalar(c as u32));
    }
}

proof fn lemma_encode_next(s: Seq<char>, i: int)
    requires
        0 <= i < s.len(),
    ensures
        encode_utf8(s.take(i + 1)).len() == encode_utf8(s.take(i)).len() + encode_scalar(s[i] as u32).len(),
{
    lemma_encode_push(s.take(i), s[i]);
    assert(s.take(i).push(s[i]) =~= s.take(i + 1));
}

proof fn lemma_clipped(s: Seq<char>, i: int, max: nat)
    requires
        0 <= i < s.len(),
        encode_utf8(s.take(i)).len() <= max,
        encode_utf8(s.take(i + 1)).len() > max,
    ensures
        encode_utf8(s).len() > max,
        clipped(s, max) == s.take(i),
    decreases s.len(),
{
    let rest = s.drop_last();
    if s.len() == i + 1 {
        assert(s.take(i + 1) =~= s);
        assert(rest =~= s.take(i));
        assert(clipped(rest, max) == rest);
    } else {
        assert(rest.take(i) =~= s.take(i));
        assert(rest.take(i + 1) =~= s.take(i + 1));
        lemma_clipped(rest, i, max);
        lemma_encode_next(s, s.len() - 1);
        assert(s.take(s.len() - 1) =~= rest);
        assert(s.take(s.len() as int) =~= s);
    }
}

// ---------------------------------------------------------------------------
// What holds of every text
// ---------------------------------------------------------------------------
/// A pattern occurs in every text that it stands in between two others.
pub proof fn occurs_between(before: Seq<char>, pattern: Seq<char>, after: Seq<char>)
    ensures
        occurs_in(pattern, before + pattern + after),
{
    let s = before + pattern + after;
    let at = before.len() as int;
    assert(s.subrange(at, at + pattern.len()) =~= pattern);
    assert(stands_at(pattern, s, at));
}

/// A pattern that occurs in a text stands in it between two others.
pub proof fn occurrence_parts(pattern: Seq<char>, s: Seq<char>) -> (around: (Seq<char>, Seq<char>))
    requires
        occurs_in(pattern, s),
    ensures
        s == around.0 + pattern + around.1,
{
    let at = choose|at: int| stands_at(pattern, s, at);
    let before = s.take(at);
    let after = s.skip(at + pattern.len());
    assert(s =~= before + s.subrange(at, at + pattern.len()) + after);
    (before, after)
}

/// Lowercasing an ASCII text changes the letters `A` to `Z` alone, each to the
/// letter of the same place in `a` to `z`.
pub proof fn ascii_lowercase_by_letter(s: Seq<char>, i: int)
    requires
        is_ascii_chars(s),
        0 <= i < s.len(),
    ensures
        lowercase(s).len() == s.len(),
        'A' <= s[i] && s[i] <= 'Z' ==> lowercase(s)[i] as u32 - 'a' as u32 == s[i] as u32 - 'A' as u32,
        !('A' <= s[i] && s[i] <= 'Z') ==> lowercase(s)[i] == s[i],
{
}

/// A text comes before what it begins; where two texts part, the one with the
/// smaller character comes first, whatever follows.
pub proof fn text_order_is_lexicographic(common: Seq<char>, a: Seq<char>, b: Seq<char>)
    ensures
        text_le(common, common + a),
        a.len() > 0 ==> !text_le(common + a, common),
        a.len() > 0 && b.len() > 0 && a[0] < b[0] ==> text_le(common + a, common + b) && !text_le(common + b, common + a),
    decreases common.len(),
{
    if common.len() > 0 {
        let rest = common.drop_first();
        text_order_is_lexicographic(rest, a, b);
        assert((common + a).drop_first() =~= rest + a);
        assert((common + b).drop_first() =~= rest + b);
    } else {
        assert(common + a =~= a);
        assert(common + b =~= b);
    }
}

/// A text begins with a prefix exactly where it is the prefix and something more.
pub proof fn prefix_and_rest(prefix: Seq<char>, s: Seq<char>, rest: Seq<char>)
    ensures
        begins_with(prefix, prefix + rest),
        begins_with(prefix, s) ==> s == prefix + s.skip(prefix.len() as int),
{
    assert((prefix + rest).subrange(0, prefix.len() as int) =~= prefix);
    if begins_with(prefix, s) {
        assert(s =~= s.subrange(0, prefix.len() as int) + s.skip(prefix.len() as int));
    }
}

/// Trimming takes white space off both ends and nothing else: what is left neither
/// begins nor ends with white space.
pub proof fn trimming_takes_white_space(s: Seq<char>) -> (ends: (Seq<char>, Seq<char>))
    ensures
        s == ends.0 + trimmed(s) + ends.1,
        forall|i: int| 0 <= i < ends.0.len() ==> white_space(#[trigger] ends.0[i]),
        forall|i: int| 0 <= i < ends.1.len() ==> white_space(#[trigger] ends.1[i]),
        trimmed(s).len() > 0 ==> !white_space(trimmed(s)[0]) && !white_space(trimmed(s).last()),
{
    let lead = lemma_trim_start(s);
    let rest = trim_start(s);
    let trail = lemma_trim_end(rest);
    assert(s =~= lead + trimmed(s) + trail);
    if trimmed(s).len() > 0 {
        assert(trimmed(s)[0] == rest[0]);
    }
    (lead, trail)
}

proof fn lemma_trim_start(s: Seq<char>) -> (lead: Seq<char>)
    ensures
        s == lead + trim_start(s),
        forall|i: int| 0 <= i < lead.len() ==> white_space(#[trigger] lead[i]),
        trim_start(s).len() > 0 ==> !white_space(trim_start(s)[0]),
    decreases s.len(),
{
    if s.len() > 0 && white_space(s[0]) {
        let rest = lemma_trim_start(s.drop_first());
        let lead = seq![s[0]] + rest;
        assert(s =~= seq![s[0]] + s.drop_first());
        assert(s.drop_first() == rest + trim_start(s));
        assert(lead + trim_start(s) =~= seq![s[0]] + (rest + trim_start(s)));
        lead
    } else {
        assert(s =~= Seq::<char>::empty() + s);
        Seq::empty()
    }
}

proof fn lemma_trim_end(s: Seq<char>) -> (trail: Seq<char>)
    ensures
        s == trim_end(s) + trail,
        forall|i: int| 0 <= i < trail.len() ==> white_space(#[trigger] trail[i]),
        trim_end(s).len() > 0 ==> !white_space(trim_end(s).last()),
    decreases s.len(),
{
    if s.len() > 0 && white_space(s.last()) {
        let rest = lemma_trim_end(s.drop_last());
        let trail = rest.push(s.last());
        assert(s =~= s.drop_last().push(s.last()));
        assert(s.drop_last() == trim_end(s) + rest);
        assert(trim_end(s) + trail =~= (trim_end(s) + rest).push(s.last()));
        trail
    } else {
        assert(s =~= s + Seq::<char>::empty());
        Seq::empty()
    }
}

/// The position of a character is that of the first one.
pub proof fn position_is_first(s: Seq<char>, c: char)
    ensures
        position(s, c) <= s.len(),
        position(s, c) < s.len() ==> s[position(s, c) as int] == c,
        forall|i: int| 0 <= i < position(s, c) ==> #[trigger] s[i] != c,
    decreases s.len(),
{
    if s.len() > 0 && s[0] != c {
        let rest = s.drop_first();
        position_is_first(rest, c);
        assert forall|i: int| 0 <= i < position(s, c) implies #[trigger] s[i] != c by {
            if i > 0 {
                assert(s[i] == rest[i - 1]);
            }
        }
    }
}

/// Joined texts stand one behind the other with the separator between them, and
/// nothing before the first or behind the last.
pub proof fn joined_in_two(a: Seq<Seq<char>>, b: Seq<Seq<char>>, separator: Seq<char>)
    ensures
        a.len() == 0 ==> joined(a, separator).len() == 0,
        a.len() == 1 ==> joined(a, separator) == a[0],
        a.len() > 0 && b.len() > 0 ==> joined(a + b, separator) == joined(a, separator) + separator + joined(b, separator),
    decreases b.len(),
{
    if a.len() > 0 && b.len() > 0 {
        let rest = b.drop_last();
        assert((a + b).drop_last() =~= a + rest);
        assert((a + b).last() == b.last());
        if b.len() > 1 {
            joined_in_two(a, rest, separator);
        } else {
            assert(a + rest =~= a);
        }
        assert(joined(a + b, separator) =~= joined(a, separator) + separator + joined(b, separator));
    }
}

/// Joined again, the parts of a text are the text, and none holds the character
/// that it was parted at.
pub proof fn parts_join_back(s: Seq<char>, c: char)
    ensures
        parts(s, c).len() > 0,
        joined(parts(s, c), seq![c]) == s,
        forall|i: int| 0 <= i < parts(s, c).len() ==> !(#[trigger] parts(s, c)[i]).contains(c),
    decreases s.len(),
{
    let at = position(s, c);
    position_is_first(s, c);
    if at < s.len() {
        let head = s.take(at as int);
        let tail = s.skip(at as int + 1);
        parts_join_back(tail, c);
        joined_in_two(seq![head], parts(tail, c), seq![c]);
        joined_in_two(seq![head], Seq::empty(), seq![c]);
        assert(s =~= head + seq![c] + tail);
        assert forall|i: int| 0 <= i < parts(s, c).len() implies !(#[trigger] parts(s, c)[i]).contains(c) by {
            if i > 0 {
                assert(parts(s, c)[i] == parts(tail, c)[i - 1]);
            } else {
                assert(parts(s, c)[i] == head);
                assert forall|k: int| 0 <= k < head.len() implies head[k] != c by {
                    assert(head[k] == s[k]);
                }
            }
        }
    } else {
        joined_in_two(parts(s, c), Seq::empty(), seq![c]);
    }
}

/// Behind the separator another text without it is one part more.
pub proof fn parts_of_two(s: Seq<char>, c: char, more: Seq<char>)
    requires
        !more.contains(c),
    ensures
        parts(more, c) == seq![more],
        parts(s + seq![c] + more, c) == parts(s, c).push(more),
    decreases s.len(),
{
    let both = s + seq![c] + more;
    position_is_first(more, c);
    if position(more, c) < more.len() {
        assert(more.contains(more[position(more, c) as int]));
    }
    position_is_first(s, c);
    position_is_first(both, c);
    let at = position(s, c);
    let place = position(both, c);
    assert(both[s.len() as int] == c);
    assert(place == at) by {
        if at < s.len() {
            assert(both[at as int] == s[at as int]);
        }
        if place < s.len() {
            assert(both[place as int] == s[place as int]);
        }
        if place < at {
            assert(s[place as int] == c);
        }
    }
    if at < s.len() {
        let tail = s.skip(at as int + 1);
        parts_of_two(tail, c, more);
        assert(both.skip(at as int + 1) =~= tail + seq![c] + more);
        assert(both.take(at as int) =~= s.take(at as int));
        assert(parts(both, c) =~= parts(s, c).push(more));
    } else {
        assert(at == s.len());
        assert(both.take(at as int) =~= s);
        assert(both.skip(at as int + 1) =~= more);
        assert(parts(s, c) == seq![s]);
        assert(parts(both, c) == seq![s] + parts(more, c));
        assert(parts(both, c) =~= parts(s, c).push(more));
    }
}

/// Each digit counts ten times what it would one place further to the right.
pub proof fn digits_in_two(a: Seq<char>, c: char)
    ensures
        is_digit(c) ==> digits_value(seq![c]) == Some((c as u32 - '0' as u32) as nat),
        digits_value(a) is Some && is_digit(c) ==> digits_value(a.push(c)) == Some(
            digits_value(a)->0 * 10 + digits_value(seq![c])->0,
        ),
        digits_value(a.push(c)) is Some ==> is_digit(c) && digits_value(a) is Some,
{
    assert(a.push(c).drop_last() =~= a);
    assert(seq![c].drop_last() =~= Seq::<char>::empty());
    assert(digits_value(Seq::<char>::empty()) == Some(0nat));
}

/// A number is at least one digit and nothing but digits, a plus sign before them
/// aside; the plus sign and zeros before the number make no difference.
pub proof fn number_is_digits(s: Seq<char>)
    ensures
        parsed_usize(s) is Some ==> s.len() > 0 && is_digit(s.last()) && forall|i: int|
            0 <= i < s.len() ==> is_digit(#[trigger] s[i]) || (i == 0 && s[0] == '+'),
        s.len() > 0 && s[0] != '+' ==> parsed_usize(seq!['+'] + s) == parsed_usize(s),
        s.len() > 0 && s[0] != '+' ==> parsed_usize(seq!['0'] + s) == parsed_usize(s),
        s.len() > 0 && (forall|i: int| 0 <= i < s.len() ==> is_digit(#[trigger] s[i])) ==> (parsed_usize(s) is None
            <==> digits_value(s)->0 > usize::MAX),
{
    let body = unsigned_digits(s);
    lemma_all_digits(body);
    if parsed_usize(s) is Some {
        assert forall|i: int| 0 <= i < s.len() implies is_digit(#[trigger] s[i]) || (i == 0 && s[0] == '+') by {
            if body.len() == s.len() {
                assert(body[i] == s[i]);
            } else if i > 0 {
                assert(body[i - 1] == s[i]);
            }
        }
        assert(body[body.len() - 1] == s.last());
    }
    if s.len() > 0 && s[0] != '+' {
        assert((seq!['+'] + s).drop_first() =~= s);
        assert(body == s);
        lemma_leading_zero(s);
        let zero = seq!['0'] + s;
        assert(zero[0] == '0');
        assert(unsigned_digits(zero) == zero);
    }
    if s.len() > 0 && forall|i: int| 0 <= i < s.len() ==> is_digit(#[trigger] s[i]) {
        assert(is_digit(s[0]));
        assert(body == s);
    }
}

proof fn lemma_all_digits(s: Seq<char>)
    ensures
        digits_value(s) is Some <==> forall|i: int| 0 <= i < s.len() ==> is_digit(#[trigger] s[i]),
    decreases s.len(),
{
    if s.len() > 0 {
        let rest = s.drop_last();
        lemma_all_digits(rest);
        assert(s[s.len() - 1] == s.last());
        if forall|i: int| 0 <= i < s.len() ==> is_digit(#[trigger] s[i]) {
            assert forall|i: int| 0 <= i < rest.len() implies is_digit(#[trigger] rest[i]) by {
                assert(rest[i] == s[i]);
            }
        }
        if digits_value(s) is Some {
            assert forall|i: int| 0 <= i < s.len() implies is_digit(#[trigger] s[i]) by {
                if i < rest.len() {
                    assert(rest[i] == s[i]);
                }
            }
        }
    }
}

proof fn lemma_leading_zero(s: Seq<char>)
    ensures
        digits_value(seq!['0'] + s) == digits_value(s),
    decreases s.len(),
{
    let zero = seq!['0'] + s;
    if s.len() > 0 {
        lemma_leading_zero(s.drop_last());
        assert(zero.drop_last() =~= seq!['0'] + s.drop_last());
        assert(zero.last() == s.last());
    } else {
        assert(zero =~= Seq::<char>::empty().push('0'));
        digits_in_two(Seq::empty(), '0');
        assert(digits_value(Seq::<char>::empty()) == Some(0nat));
    }
}

/// The decimal notation of a number is digits, of which the first is zero for zero
/// alone.
pub proof fn decimal_is_plain(n: nat)
    ensures
        decimal(n).len() > 0,
        forall|i: int| 0 <= i < decimal(n).len() ==> is_digit(#[trigger] decimal(n)[i]),
        decimal(n)[0] == '0' <==> n == 0,
        n < 10 <==> decimal(n).len() == 1,
    decreases n,
{
    let d = n % 10;
    assert(digit(d) as u32 == ('0' as u32) + d);
    if n >= 10 {
        decimal_is_plain(n / 10);
        assert forall|i: int| 0 <= i < decimal(n).len() implies is_digit(#[trigger] decimal(n)[i]) by {
            if i < decimal(n / 10).len() {
                assert(decimal(n)[i] == decimal(n / 10)[i]);
            }
        }
        assert(decimal(n)[0] == decimal(n / 10)[0]);
    }
}

/// A text that fits is not cut. One that does not is cut to exactly `n` characters:
/// all but the last are those that begin it, and the last is the ellipsis.
pub proof fn shortening_keeps_the_beginning(s: Seq<char>, n: nat)
    ensures
        s.len() <= n ==> shortened(s, n) == s,
        s.len() > n > 0 ==> shortened(s, n).len() == n && shortened(s, n).last() == '…' && forall|i: int|
            0 <= i < n - 1 ==> #[trigger] shortened(s, n)[i] == s[i],
        s.len() > n == 0 ==> shortened(s, n) == seq!['…'],
{
}

/// No longer beginning of a text would fit into `max` bytes.
pub proof fn clipped_is_longest(s: Seq<char>, max: nat, n: int)
    requires
        0 <= n <= s.len(),
        encode_utf8(s.take(n)).len() <= max,
    ensures
        n <= clipped(s, max).len(),
    decreases s.len(),
{
    if s.len() > 0 && encode_utf8(s).len() > max {
        let rest = s.drop_last();
        assert(n < s.len()) by {
            assert(s.take(s.len() as int) =~= s);
        }
        assert(rest.take(n) =~= s.take(n));
        clipped_is_longest(rest, max, n);
    }
}

/// Stripping takes a character off an end as often as it stands there, and nothing
/// else.
pub proof fn stripping_takes_every_one(s: Seq<char>, c: char) -> (taken: (Seq<char>, Seq<char>))
    ensures
        s == taken.0 + without_leading(s, c),
        s == without_trailing(s, c) + taken.1,
        forall|i: int| 0 <= i < taken.0.len() ==> #[trigger] taken.0[i] == c,
        forall|i: int| 0 <= i < taken.1.len() ==> #[trigger] taken.1[i] == c,
        without_leading(s, c).len() > 0 ==> without_leading(s, c)[0] != c,
        without_trailing(s, c).len() > 0 ==> without_trailing(s, c).last() != c,
    decreases s.len(),
{
    let none = Seq::<char>::empty();
    let lead = if s.len() > 0 && s[0] == c {
        let rest = s.drop_first();
        let taken = stripping_takes_every_one(rest, c);
        assert(s =~= seq![c] + rest);
        assert((seq![c] + taken.0) + without_leading(s, c) =~= seq![c] + (taken.0 + without_leading(s, c)));
        seq![c] + taken.0
    } else {
        assert(s =~= none + s);
        none
    };
    let trail = if s.len() > 0 && s.last() == c {
        let rest = s.drop_last();
        let taken = stripping_takes_every_one(rest, c);
        assert(s =~= rest.push(c));
        assert(without_trailing(s, c) + taken.1.push(c) =~= (without_trailing(s, c) + taken.1).push(c));
        taken.1.push(c)
    } else {
        assert(s =~= s + none);
        none
    };
    (lead, trail)
}

} // verus!
