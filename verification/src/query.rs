//! Query strings of URLs.

use crate::text;
use vstd::hash_map::StringHashMap;
use vstd::prelude::*;
use vstd::utf8::*;

verus! {

// ---------------------------------------------------------------------------
// Escapes
// ---------------------------------------------------------------------------
/// The value of a hexadecimal digit.
pub open spec fn hex_digit(b: u8) -> Option<u8> {
    if 0x30 <= b <= 0x39 {
        Some((b - 0x30) as u8)
    } else if 0x41 <= b <= 0x46 {
        Some((b - 0x41 + 10) as u8)
    } else if 0x61 <= b <= 0x66 {
        Some((b - 0x61 + 10) as u8)
    } else {
        None
    }
}

/// The value of two characters as a hexadecimal number, of which the first may
/// be a plus sign.
pub open spec fn hex_value(a: u8, b: u8) -> Option<u8> {
    match hex_digit(b) {
        Some(low) => if a == 0x2b {
            Some(low)
        } else {
            match hex_digit(a) {
                Some(high) => Some((high * 16 + low) as u8),
                None => None,
            }
        },
        None => None,
    }
}

/// The bytes that the bytes of a form-encoded text stand for: a plus sign is a
/// space, a percent sign and a hexadecimal number of two digits are the byte with
/// that value, and any other byte is itself.
pub open spec fn unescaped(form: Seq<u8>) -> Seq<u8>
    decreases form.len(),
{
    if form.len() == 0 {
        Seq::empty()
    } else if form[0] == 0x2b {
        seq![0x20u8] + unescaped(form.skip(1))
    } else if form[0] == 0x25 && form.len() > 2 && hex_value(form[1], form[2]) is Some {
        seq![hex_value(form[1], form[2])->0] + unescaped(form.skip(3))
    } else {
        seq![form[0]] + unescaped(form.skip(1))
    }
}

/// The text that some bytes are in UTF-8; where they are none, the characters with
/// the codes of the bytes.
pub open spec fn text_of(bytes: Seq<u8>) -> Seq<char> {
    if valid_utf8(bytes) {
        decode_utf8(bytes)
    } else {
        bytes.map_values(|b: u8| b as char)
    }
}

/// The text that the bytes of a form-encoded text stand for.
pub open spec fn decoded(form: Seq<u8>) -> Seq<char> {
    text_of(unescaped(form))
}

/// Whether no percent sign is followed by two bytes of which the second is not
/// the last of a character.
pub open spec fn escapes_whole(s: Seq<char>) -> bool {
    forall|i: int| 0 <= i < s.len() && #[trigger] s[i] == '%' ==> escape_whole(s, i)
}

/// Whether the two bytes after the percent sign at `i`, if there are two, end
/// with a character: one of two bytes, or two of one byte.
pub open spec fn escape_whole(s: Seq<char>, i: int) -> bool {
    ||| i + 1 >= s.len()
    ||| has_width_2_encoding(s[i + 1] as u32)
    ||| has_width_1_encoding(s[i + 1] as u32) && (i + 2 >= s.len() || has_width_1_encoding(s[i + 2] as u32))
}

fn read_digit(b: u8) -> (d: Option<u8>)
    ensures
        d == hex_digit(b),
{
    if 0x30 <= b && b <= 0x39 {
        Some(b - 0x30)
    } else if 0x41 <= b && b <= 0x46 {
        Some(b - 0x41 + 10)
    } else if 0x61 <= b && b <= 0x66 {
        Some(b - 0x61 + 10)
    } else {
        None
    }
}

fn read_hex(a: u8, b: u8) -> (v: Option<u8>)
    ensures
        v == hex_value(a, b),
{
    match read_digit(b) {
        Some(low) => if a == 0x2b {
            Some(low)
        } else {
            match read_digit(a) {
                Some(high) => Some(high * 16 + low),
                None => None,
            }
        },
        None => None,
    }
}

/// `String::from_utf8` gives the text that some bytes are in UTF-8; nothing where
/// they are not UTF-8.
#[verifier::external_body]
fn read_utf8(bytes: &Vec<u8>) -> (s: Option<String>)
    ensures
        match s {
            Some(t) => valid_utf8(bytes@) && t@ == decode_utf8(bytes@),
            None => !valid_utf8(bytes@),
        },
{
    String::from_utf8(bytes.to_vec()).ok()
}

/// The text that some bytes stand for.
fn read_text(bytes: &Vec<u8>) -> (s: String)
    ensures
        s@ == text_of(bytes@),
{
    match read_utf8(bytes) {
        Some(s) => s,
        None => {
            let ghost want = bytes@.map_values(|b: u8| b as char);
            let mut s = String::new();
            let mut i: usize = 0;
            assert(s@ =~= want.take(0));
            while i < bytes.len()
                invariant
                    i <= bytes@.len(),
                    want == bytes@.map_values(|b: u8| b as char),
                    s@ == want.take(i as int),
                decreases bytes@.len() - i,
            {
                s.push(bytes[i] as char);
                assert(s@ =~= want.take(i + 1));
                i += 1;
            }
            assert(want.take(want.len() as int) =~= want);
            s
        },
    }
}

/// Decode a form-encoded text (see [`decoded`]).
pub fn pct_decode(s: &str) -> (out: String)
    requires
        escapes_whole(s@),
    ensures
        out@ == decoded(encode_utf8(s@)),
{
    let bytes = s.as_bytes_vec();
    let ghost all = encode_utf8(s@);
    let mut out: Vec<u8> = Vec::new();
    let mut i: usize = 0;
    assert(all.skip(0) =~= all);
    assert(out@ + unescaped(all.skip(0)) =~= unescaped(all));
    while i < bytes.len()
        invariant
            bytes@ == all,
            i <= all.len(),
            out@ + unescaped(all.skip(i as int)) == unescaped(all),
        decreases all.len() - i,
    {
        let ghost rest = all.skip(i as int);
        let ghost before = out@;
        let c: u8 = bytes[i];
        if c == 0x2b {
            out.push(0x20);
            assert(rest.skip(1) =~= all.skip(i + 1));
            assert(out@ + unescaped(all.skip(i + 1)) =~= before + unescaped(rest));
            i += 1;
        } else {
            let escape: Option<u8> = if c == 0x25 && bytes.len() - i > 2 {
                read_hex(bytes[i + 1], bytes[i + 2])
            } else {
                None
            };
            match escape {
                Some(byte) => {
                    out.push(byte);
                    assert(rest.skip(3) =~= all.skip(i + 3));
                    assert(out@ + unescaped(all.skip(i + 3)) =~= before + unescaped(rest));
                    i += 3;
                },
                None => {
                    out.push(c);
                    assert(rest.skip(1) =~= all.skip(i + 1));
                    assert(out@ + unescaped(all.skip(i + 1)) =~= before + unescaped(rest));
                    i += 1;
                },
            }
        }
    }
    assert(unescaped(all.skip(i as int)) =~= Seq::<u8>::empty());
    assert(out@ =~= unescaped(all));
    read_text(&out)
}

// ---------------------------------------------------------------------------
// Parameters
// ---------------------------------------------------------------------------
/// The key of a `key=value` pair.
pub open spec fn pair_key(pair: Seq<char>) -> Seq<char> {
    pair.take(text::position(pair, '=') as int)
}

/// The value of a `key=value` pair; empty where there is no equals sign.
pub open spec fn pair_value(pair: Seq<char>) -> Seq<char> {
    let at = text::position(pair, '=');
    if at < pair.len() {
        pair.skip(at as int + 1)
    } else {
        Seq::empty()
    }
}

/// The parameters in some pairs: those without a key are left out, and of two
/// with one key the later counts.
pub open spec fn params_in(pairs: Seq<Seq<char>>) -> Map<Seq<char>, Seq<char>>
    decreases pairs.len(),
{
    if pairs.len() == 0 {
        Map::empty()
    } else {
        let earlier = params_in(pairs.drop_last());
        let pair = pairs.last();
        if pair_key(pair).len() == 0 {
            earlier
        } else {
            earlier.insert(decoded(encode_utf8(pair_key(pair))), decoded(encode_utf8(pair_value(pair))))
        }
    }
}

/// The parameters in a query string.
pub open spec fn params_of(qs: Seq<char>) -> Map<Seq<char>, Seq<char>> {
    params_in(text::parts(qs, '&'))
}

/// Whether the escapes in a pair can be read.
pub open spec fn pair_readable(pair: Seq<char>) -> bool {
    pair_key(pair).len() == 0 || (escapes_whole(pair_key(pair)) && escapes_whole(pair_value(pair)))
}

/// Whether the escapes in a query string can be read.
pub open spec fn readable(qs: Seq<char>) -> bool {
    forall|i: int| 0 <= i < text::parts(qs, '&').len() ==> pair_readable(#[trigger] text::parts(qs, '&')[i])
}

/// The parameters as texts.
pub open spec fn params_view(params: Map<Seq<char>, String>) -> Map<Seq<char>, Seq<char>> {
    params.map_values(|v: String| v@)
}

/// The key and the value of a pair.
fn split_pair(pair: &str) -> (kv: (String, String))
    ensures
        kv.0@ == pair_key(pair@),
        kv.1@ == pair_value(pair@),
{
    let chars = text::chars_of(pair);
    assert(pair@.skip(0) =~= pair@);
    let at: usize = text::find(&chars, '=', 0);
    let key = text::string_of(&chars, 0, at);
    assert(key@ =~= pair_key(pair@));
    let from: usize = if at < chars.len() {
        at + 1
    } else {
        at
    };
    let value = text::string_of(&chars, from, chars.len());
    assert(value@ =~= pair_value(pair@));
    (key, value)
}

/// Parse `?query=foo&limit=20&lang=Rust` style form-encoded query strings.
pub fn parse_query_string(qs: &str) -> (params: StringHashMap<String>)
    requires
        readable(qs@),
    ensures
        params_view(params@) == params_of(qs@),
{
    let pairs = text::split(qs, '&');
    let ghost all = text::parts(qs@, '&');
    let mut params: StringHashMap<String> = StringHashMap::new();
    let mut i: usize = 0;
    assert(all.take(0) =~= Seq::<Seq<char>>::empty());
    assert(params_view(params@) =~= Map::<Seq<char>, Seq<char>>::empty());
    while i < pairs.len()
        invariant
            i <= pairs@.len(),
            all == text::texts(pairs@),
            all == text::parts(qs@, '&'),
            readable(qs@),
            params_view(params@) == params_in(all.take(i as int)),
        decreases pairs@.len() - i,
    {
        assert(all.take(i + 1).drop_last() =~= all.take(i as int));
        assert(all[i as int] == pairs@[i as int]@);
        let (key, value) = split_pair(pairs[i].as_str());
        if key.as_str().unicode_len() > 0 {
            let ghost before = params@;
            let k = pct_decode(key.as_str());
            let v = pct_decode(value.as_str());
            params.insert(k, v);
            assert(params_view(params@) =~= params_view(before).insert(k@, v@));
        }
        i += 1;
    }
    assert(all.take(all.len() as int) =~= all);
    params
}

/// Whether the escapes in a text can be read.
fn check_escapes(s: &str) -> (yes: bool)
    ensures
        yes == escapes_whole(s@),
{
    let chars = text::chars_of(s);
    let n: usize = chars.len();
    let mut i: usize = 0;
    while i < n
        invariant
            chars@ == s@,
            i <= n == s@.len(),
            forall|k: int| 0 <= k < i && #[trigger] s@[k] == '%' ==> escape_whole(s@, k),
        decreases n - i,
    {
        if chars[i] == '%' && n - i > 1 {
            let c: u32 = chars[i + 1] as u32;
            let whole = if c <= 0x7f {
                n - i <= 2 || chars[i + 2] as u32 <= 0x7f
            } else {
                c <= 0x7ff
            };
            if !whole {
                assert(s@[i as int] == '%' && !escape_whole(s@, i as int));
                return false;
            }
        }
        i += 1;
    }
    true
}

/// Whether the escapes in a query string can be read.
pub fn is_readable(qs: &str) -> (yes: bool)
    ensures
        yes == readable(qs@),
{
    let pairs = text::split(qs, '&');
    let ghost all = text::parts(qs@, '&');
    let mut i: usize = 0;
    while i < pairs.len()
        invariant
            i <= pairs@.len(),
            all == text::texts(pairs@),
            all == text::parts(qs@, '&'),
            forall|k: int| 0 <= k < i ==> pair_readable(#[trigger] all[k]),
        decreases pairs@.len() - i,
    {
        assert(all[i as int] == pairs@[i as int]@);
        let (key, value) = split_pair(pairs[i].as_str());
        if key.as_str().unicode_len() > 0 && !(check_escapes(key.as_str()) && check_escapes(value.as_str())) {
            return false;
        }
        i += 1;
    }
    true
}

// ---------------------------------------------------------------------------
// What holds of every query string
// ---------------------------------------------------------------------------
/// An ASCII text has escapes that can be read.
pub proof fn ascii_escapes_are_whole(s: Seq<char>)
    requires
        is_ascii_chars(s),
    ensures
        escapes_whole(s),
{
    is_ascii_chars_nat_bound(s);
}

/// Whether `form` is a form-encoding of some bytes: each is written as it is,
/// unless it is a plus or a percent sign, or, if it is a space, as a plus sign,
/// or as a percent sign and two hexadecimal digits of either case.
pub open spec fn encodes(form: Seq<u8>, bytes: Seq<u8>) -> bool
    decreases bytes.len(),
{
    if bytes.len() == 0 {
        form.len() == 0
    } else {
        let b = bytes[0];
        let rest = bytes.skip(1);
        ||| form.len() > 0 && form[0] == b && b != 0x2b && b != 0x25 && encodes(form.skip(1), rest)
        ||| form.len() > 0 && form[0] == 0x2b && b == 0x20 && encodes(form.skip(1), rest)
        ||| form.len() > 2 && form[0] == 0x25 && hex_digit(form[1]) == Some((b / 16) as u8) && hex_digit(form[2]) == Some(
            (b % 16) as u8,
        ) && encodes(form.skip(3), rest)
    }
}

/// Decoding gives back the bytes that were encoded, however they were.
pub proof fn encoded_reads_back(form: Seq<u8>, bytes: Seq<u8>)
    requires
        encodes(form, bytes),
    ensures
        unescaped(form) == bytes,
    decreases bytes.len(),
{
    if bytes.len() > 0 {
        let b = bytes[0];
        let rest = bytes.skip(1);
        assert(bytes =~= seq![b] + rest);
        if form[0] == 0x25 {
            encoded_reads_back(form.skip(3), rest);
            assert(form[1] != 0x2b);
            assert(hex_value(form[1], form[2]) == Some(b));
        } else {
            encoded_reads_back(form.skip(1), rest);
        }
    }
    assert(unescaped(form) =~= bytes);
}

/// Decoding gives back every text that was encoded, however it was.
pub proof fn encoded_text_reads_back(form: Seq<u8>, s: Seq<char>)
    requires
        encodes(form, encode_utf8(s)),
    ensures
        decoded(form) == s,
{
    encoded_reads_back(form, encode_utf8(s));
    encode_utf8_valid_utf8(s);
    encode_utf8_decode_utf8(s);
}

/// A text without plus and percent signs is its own encoding.
pub proof fn plain_text_stays(s: Seq<char>)
    requires
        forall|i: int| 0 <= i < s.len() ==> #[trigger] s[i] != '+' && s[i] != '%',
    ensures
        decoded(encode_utf8(s)) == s,
{
    lemma_plain_bytes(s);
    lemma_plain_encodes(encode_utf8(s));
    encoded_text_reads_back(encode_utf8(s), s);
}

proof fn lemma_plain_encodes(bytes: Seq<u8>)
    requires
        forall|i: int| 0 <= i < bytes.len() ==> #[trigger] bytes[i] != 0x2b && bytes[i] != 0x25,
    ensures
        encodes(bytes, bytes),
    decreases bytes.len(),
{
    if bytes.len() > 0 {
        lemma_plain_encodes(bytes.skip(1));
    }
}

/// The bytes of a character of more than one byte are not those of ASCII.
proof fn lemma_wide_bytes(v: u32)
    by (bit_vector)
    ensures
        v <= 0x7f ==> leading_byte_width_1(v) == v,
        leading_byte_width_2(v) >= 0x80,
        leading_byte_width_3(v) >= 0x80,
        leading_byte_width_4(v) >= 0x80,
        third_last_continuation_byte(v) >= 0x80,
        second_last_continuation_byte(v) >= 0x80,
        last_continuation_byte(v) >= 0x80,
{
}

proof fn lemma_plain_bytes(s: Seq<char>)
    requires
        forall|i: int| 0 <= i < s.len() ==> #[trigger] s[i] != '+' && s[i] != '%',
    ensures
        forall|i: int| 0 <= i < encode_utf8(s).len() ==> #[trigger] encode_utf8(s)[i] != 0x2b && encode_utf8(s)[i] != 0x25,
    decreases s.len(),
{
    if s.len() > 0 {
        let v = s[0] as u32;
        let first = encode_scalar(v);
        let rest = encode_utf8(s.drop_first());
        lemma_plain_bytes(s.drop_first());
        lemma_wide_bytes(v);
        assert(s[0] != '+' && s[0] != '%');
        char_is_scalar(s[0]);
        char_u32_cast(s[0], v);
        assert(v != 0x2b && v != 0x25);
        assert forall|i: int| 0 <= i < first.len() implies #[trigger] first[i] != 0x2b && first[i] != 0x25 by {
            assert(i == 0 || i == 1 || i == 2 || i == 3);
        }
        assert forall|i: int| 0 <= i < encode_utf8(s).len() implies #[trigger] encode_utf8(s)[i] != 0x2b && encode_utf8(s)[i]
            != 0x25 by {
            if i < first.len() {
                assert(encode_utf8(s)[i] == first[i]);
            } else {
                assert(encode_utf8(s)[i] == rest[i - first.len()]);
            }
        }
    }
}

/// Of two pairs with one key the later counts, and a pair without a key counts
/// for nothing.
pub proof fn later_pair_counts(pairs: Seq<Seq<char>>, pair: Seq<char>)
    ensures
        params_in(pairs.push(pair)) == if pair_key(pair).len() == 0 {
            params_in(pairs)
        } else {
            params_in(pairs).insert(decoded(encode_utf8(pair_key(pair))), decoded(encode_utf8(pair_value(pair))))
        },
{
    assert(pairs.push(pair).drop_last() =~= pairs);
}

/// A key and a value that stand encoded in a pair are read back, whatever texts
/// they are.
pub proof fn encoded_pair_reads_back(
    pairs: Seq<Seq<char>>,
    key_form: Seq<char>,
    value_form: Seq<char>,
    key: Seq<char>,
    value: Seq<char>,
)
    requires
        key_form.len() > 0,
        !key_form.contains('='),
        encodes(encode_utf8(key_form), encode_utf8(key)),
        encodes(encode_utf8(value_form), encode_utf8(value)),
    ensures
        params_in(pairs.push(key_form + seq!['='] + value_form)) == params_in(pairs).insert(key, value),
{
    let pair = key_form + seq!['='] + value_form;
    lemma_equals_sign(key_form, value_form);
    assert(pair_key(pair) =~= key_form);
    assert(pair_value(pair) =~= value_form);
    later_pair_counts(pairs, pair);
    encoded_text_reads_back(encode_utf8(key_form), key);
    encoded_text_reads_back(encode_utf8(value_form), value);
}

proof fn lemma_equals_sign(key: Seq<char>, value: Seq<char>)
    requires
        !key.contains('='),
    ensures
        text::position(key + seq!['='] + value, '=') == key.len(),
    decreases key.len(),
{
    let pair = key + seq!['='] + value;
    if key.len() > 0 {
        let rest = key.drop_first();
        assert(key.contains(key[0]));
        assert(!rest.contains('=')) by {
            if rest.contains('=') {
                let i = choose|i: int| 0 <= i < rest.len() && rest[i] == '=';
                assert(key[i + 1] == '=');
            }
        }
        lemma_equals_sign(rest, value);
        assert(pair.drop_first() =~= rest + seq!['='] + value);
    }
}

/// The hexadecimal digits are `0` to `9`, `a` to `f` and `A` to `F`, each with its
/// value.
pub proof fn hexadecimal_digits_have_their_values(b: u8, n: u8)
    ensures
        n <= 9 ==> hex_digit((0x30 + n) as u8) == Some(n),
        10 <= n <= 15 ==> hex_digit((0x61 + n - 10) as u8) == Some(n) && hex_digit((0x41 + n - 10) as u8) == Some(n),
        hex_digit(b) is Some <==> 0x30 <= b <= 0x39 || 0x61 <= b <= 0x66 || 0x41 <= b <= 0x46,
        hex_digit(b) is Some ==> hex_digit(b)->0 <= 15,
{
}

/// Two hexadecimal digits are the number that they stand for.
pub proof fn two_digits_are_a_number(a: u8, b: u8)
    requires
        hex_digit(a) is Some,
        hex_digit(b) is Some,
    ensures
        hex_value(a, b) == Some((hex_digit(a)->0 * 16 + hex_digit(b)->0) as u8),
        hex_digit(a)->0 * 16 + hex_digit(b)->0 <= 255,
{
}

/// A percent sign that no two hexadecimal digits follow, a plus sign in place of the
/// first aside, stands for itself; so does every other byte but the plus sign, which
/// is a space.
pub proof fn other_bytes_stay(form: Seq<u8>)
    requires
        form.len() > 0,
    ensures
        form[0] == 0x2b ==> unescaped(form) == seq![0x20u8] + unescaped(form.skip(1)),
        form[0] != 0x2b && form[0] != 0x25 ==> unescaped(form) == seq![form[0]] + unescaped(form.skip(1)),
        form[0] == 0x25 && form.len() <= 2 ==> unescaped(form) == seq![form[0]] + unescaped(form.skip(1)),
        form[0] == 0x25 && form.len() > 2 && (hex_digit(form[2]) is None || (hex_digit(form[1]) is None && form[1] != 0x2b))
            ==> unescaped(form) == seq![form[0]] + unescaped(form.skip(1)),
        form[0] == 0x25 && form.len() > 2 && hex_digit(form[1]) is Some && hex_digit(form[2]) is Some ==> unescaped(form)
            == seq![(hex_digit(form[1])->0 * 16 + hex_digit(form[2])->0) as u8] + unescaped(form.skip(3)),
        unescaped(Seq::empty()).len() == 0,
{
}

/// Bytes that are no UTF-8 are read one by one, each as the character with its code.
pub proof fn other_encodings_are_read_by_byte(bytes: Seq<u8>, i: int)
    requires
        !valid_utf8(bytes),
        0 <= i < bytes.len(),
    ensures
        text_of(bytes).len() == bytes.len(),
        text_of(bytes)[i] as u32 == bytes[i] as u32,
{
}

/// A pair behind another query counts for its key, and for nothing else: whatever
/// texts the key and the value are, they are read back.
pub proof fn query_carries_its_pairs(
    qs: Seq<char>,
    key_form: Seq<char>,
    value_form: Seq<char>,
    key: Seq<char>,
    value: Seq<char>,
)
    requires
        key_form.len() > 0,
        !key_form.contains('='),
        !key_form.contains('&'),
        !value_form.contains('&'),
        encodes(encode_utf8(key_form), encode_utf8(key)),
        encodes(encode_utf8(value_form), encode_utf8(value)),
    ensures
        params_of(key_form + seq!['='] + value_form) == Map::<Seq<char>, Seq<char>>::empty().insert(key, value),
        params_of(qs + seq!['&'] + (key_form + seq!['='] + value_form)) == params_of(qs).insert(key, value),
{
    let pair = key_form + seq!['='] + value_form;
    assert(!pair.contains('&')) by {
        if pair.contains('&') {
            let i = choose|i: int| 0 <= i < pair.len() && pair[i] == '&';
            if i < key_form.len() {
                assert(key_form[i] == '&');
            } else if i > key_form.len() {
                assert(value_form[i - key_form.len() - 1] == '&');
            }
        }
    }
    text::parts_of_two(qs, '&', pair);
    let none = Seq::<Seq<char>>::empty();
    encoded_pair_reads_back(text::parts(qs, '&'), key_form, value_form, key, value);
    encoded_pair_reads_back(none, key_form, value_form, key, value);
    assert(none.push(pair) =~= seq![pair]);
}

/// A key alone has the empty value; an empty pair and one without a key count for
/// nothing.
pub proof fn odd_pairs(qs: Seq<char>, key_form: Seq<char>, value_form: Seq<char>, key: Seq<char>)
    requires
        key_form.len() > 0,
        !key_form.contains('='),
        !key_form.contains('&'),
        !value_form.contains('&'),
        encodes(encode_utf8(key_form), encode_utf8(key)),
    ensures
        params_of(qs + seq!['&'] + key_form) == params_of(qs).insert(key, Seq::empty()),
        params_of(qs + seq!['&'] + Seq::<char>::empty()) == params_of(qs),
        params_of(qs + seq!['&'] + (seq!['='] + value_form)) == params_of(qs),
        params_of(Seq::empty()) == Map::<Seq<char>, Seq<char>>::empty(),
{
    let none = Seq::<char>::empty();
    let pairs = text::parts(qs, '&');
    text::parts_of_two(qs, '&', key_form);
    text::parts_of_two(qs, '&', none);
    let headless = seq!['='] + value_form;
    assert(!headless.contains('&')) by {
        if headless.contains('&') {
            let i = choose|i: int| 0 <= i < headless.len() && headless[i] == '&';
            assert(value_form[i - 1] == '&');
        }
    }
    text::parts_of_two(qs, '&', headless);
    later_pair_counts(pairs, key_form);
    later_pair_counts(pairs, none);
    later_pair_counts(pairs, headless);
    later_pair_counts(Seq::empty(), none);
    text::position_is_first(key_form, '=');
    if text::position(key_form, '=') < key_form.len() {
        assert(key_form.contains(key_form[text::position(key_form, '=') as int]));
    }
    assert(pair_key(key_form) =~= key_form);
    assert(pair_value(key_form) =~= none);
    encoded_text_reads_back(encode_utf8(key_form), key);
    assert(encodes(encode_utf8(none), encode_utf8(none)));
    encoded_text_reads_back(encode_utf8(none), none);
    assert(Seq::<Seq<char>>::empty().push(none) =~= seq![none]);
    assert(params_in(Seq::<Seq<char>>::empty()) =~= Map::<Seq<char>, Seq<char>>::empty());
}

/// An escape can be read exactly where fewer than two bytes follow its percent sign,
/// or the two that do are those of whole characters.
pub proof fn escapes_take_whole_characters(s: Seq<char>, i: int)
    requires
        0 <= i < s.len(),
        s[i] == '%',
    ensures
        escape_whole(s, i) <==> encode_utf8(s.skip(i + 1)).len() < 2 || exists|n: int|
            0 <= n <= s.len() - i - 1 && #[trigger] encode_utf8(s.skip(i + 1).take(n)).len() == 2,
{
    let rest = s.skip(i + 1);
    if rest.len() > 0 {
        char_is_scalar(rest[0]);
        lemma_width(rest);
        lemma_widths(rest);
        assert forall|n: int| 0 <= n <= rest.len() && #[trigger] encode_utf8(rest.take(n)).len() == 2 implies escape_whole(s, i) by {
            let part = rest.take(n);
            if n > 0 {
                lemma_widths(part);
                lemma_width(part);
                assert(part[0] == rest[0]);
                if n > 1 {
                    let second = part.drop_first();
                    lemma_widths(second);
                    lemma_width(second);
                    char_is_scalar(second[0]);
                    assert(second[0] == s[i + 2]);
                }
            } else {
                assert(part =~= Seq::<char>::empty());
            }
        }
        if escape_whole(s, i) && encode_utf8(rest).len() >= 2 {
            if has_width_2_encoding(rest[0] as u32) {
                let part = rest.take(1);
                lemma_width(part);
                assert(part.drop_first() =~= Seq::<char>::empty());
                assert(encode_utf8(rest.take(1)).len() == 2);
            } else {
                assert(rest.len() > 1) by {
                    if rest.len() == 1 {
                        assert(rest.drop_first() =~= Seq::<char>::empty());
                    }
                }
                let part = rest.take(2);
                let second = part.drop_first();
                lemma_width(part);
                lemma_width(second);
                assert(second[0] == s[i + 2]);
                assert(second.drop_first() =~= Seq::<char>::empty());
                assert(encode_utf8(rest.take(2)).len() == 2);
            }
        }
        if !escape_whole(s, i) && encode_utf8(rest).len() < 2 {
            assert(false);
        }
    } else {
        assert(encode_utf8(rest).len() == 0);
    }
}

/// The bytes of a text are those of its first character and of the rest.
proof fn lemma_width(s: Seq<char>)
    requires
        s.len() > 0,
    ensures
        encode_utf8(s).len() == encode_scalar(s[0] as u32).len() + encode_utf8(s.drop_first()).len(),
{
}

/// Every character has at least one byte.
proof fn lemma_widths(s: Seq<char>)
    ensures
        encode_utf8(s).len() >= s.len(),
    decreases s.len(),
{
    if s.len() > 0 {
        lemma_widths(s.drop_first());
        lemma_width(s);
    }
}

/// A query of ASCII characters can be read.
pub proof fn ascii_queries_are_readable(qs: Seq<char>)
    requires
        is_ascii_chars(qs),
    ensures
        readable(qs),
{
    let pairs = text::parts(qs, '&');
    is_ascii_chars_nat_bound(qs);
    assert forall|i: int| 0 <= i < pairs.len() implies pair_readable(#[trigger] pairs[i]) by {
        let pair = pairs[i];
        lemma_part_chars(qs, '&', i);
        text::position_is_first(pair, '=');
        assert forall|k: int| 0 <= k < pair.len() implies (#[trigger] pair[k] as u32) < 0x80 by {
            assert(qs.contains(pair[k]));
        }
        assert(escapes_whole(pair_key(pair)));
        assert(escapes_whole(pair_value(pair)));
    }
}

/// The characters of a part are characters of the text.
proof fn lemma_part_chars(s: Seq<char>, c: char, i: int)
    requires
        0 <= i < text::parts(s, c).len(),
    ensures
        forall|k: int| 0 <= k < text::parts(s, c)[i].len() ==> s.contains(#[trigger] text::parts(s, c)[i][k]),
    decreases s.len(),
{
    let at = text::position(s, c);
    let part = text::parts(s, c)[i];
    text::position_is_first(s, c);
    if at < s.len() {
        let tail = s.skip(at as int + 1);
        if i == 0 {
            assert(part == s.take(at as int));
            assert forall|k: int| 0 <= k < part.len() implies s.contains(#[trigger] part[k]) by {
                assert(s[k] == part[k]);
            }
        } else {
            lemma_part_chars(tail, c, i - 1);
            assert(part == text::parts(tail, c)[i - 1]);
            assert forall|k: int| 0 <= k < part.len() implies s.contains(#[trigger] part[k]) by {
                assert(tail.contains(part[k]));
                let j = choose|j: int| 0 <= j < tail.len() && tail[j] == part[k];
                assert(s[at as int + 1 + j] == part[k]);
            }
        }
    }
}

} // verus!
