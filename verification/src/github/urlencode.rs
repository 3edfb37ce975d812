//! Percent-encoding of query values and decimal parsing of header values.
use vstd::prelude::*;

use vstd::utf8::{encode_scalar, encode_utf8};

use crate::text::string_from_chars;

verus! {

/// A character that stands for itself in a query value.
pub open spec fn unreserved(c: char) -> bool {
    ('a' <= c && c <= 'z') || ('A' <= c && c <= 'Z') || ('0' <= c && c <= '9') || c == '-' || c
        == '_' || c == '.' || c == '~'
}

/// The upper-case hexadecimal digit for `d` (below 16).
pub open spec fn hex_upper(d: nat) -> char {
    if d < 10 {
        crate::text::digit_char(d)
    } else if d == 10 {
        'A'
    } else if d == 11 {
        'B'
    } else if d == 12 {
        'C'
    } else if d == 13 {
        'D'
    } else if d == 14 {
        'E'
    } else {
        'F'
    }
}

/// `%XX` for each byte, in order.
pub open spec fn percent_bytes(bytes: Seq<u8>) -> Seq<char>
    decreases bytes.len(),
{
    if bytes.len() == 0 {
        Seq::<char>::empty()
    } else {
        seq!['%', hex_upper(bytes[0] as nat / 16), hex_upper(bytes[0] as nat % 16)] + percent_bytes(
            bytes.drop_first(),
        )
    }
}

/// How one character is written in a query value.
pub open spec fn encode_char(c: char) -> Seq<char> {
    if unreserved(c) {
        seq![c]
    } else if c == ':' {
        seq!['%', '3', 'A']
    } else if c == ' ' {
        seq!['%', '2', '0']
    } else {
        percent_bytes(encode_scalar(c as u32))
    }
}

/// A text percent-encoded for a query value, character by character.
pub open spec fn url_encode(s: Seq<char>) -> Seq<char>
    decreases s.len(),
{
    if s.len() == 0 {
        Seq::<char>::empty()
    } else {
        url_encode(s.drop_last()) + encode_char(s.last())
    }
}

fn hex_upper_exec(d: u8) -> (res: char)
    requires
        d < 16,
    ensures
        res == hex_upper(d as nat),
{
    if d == 0 {
        '0'
    } else if d == 1 {
        '1'
    } else if d == 2 {
        '2'
    } else if d == 3 {
        '3'
    } else if d == 4 {
        '4'
    } else if d == 5 {
        '5'
    } else if d == 6 {
        '6'
    } else if d == 7 {
        '7'
    } else if d == 8 {
        '8'
    } else if d == 9 {
        '9'
    } else if d == 10 {
        'A'
    } else if d == 11 {
        'B'
    } else if d == 12 {
        'C'
    } else if d == 13 {
        'D'
    } else if d == 14 {
        'E'
    } else {
        'F'
    }
}

/// The UTF-8 bytes of a character.
pub fn utf8_bytes(c: char) -> (res: Vec<u8>)
    ensures
        res@ == encode_scalar(c as u32),
{
    let v = c as u32;
    let mut out: Vec<u8> = Vec::new();
    if v <= 0x7F {
        out.push((v & 0x7F) as u8);
        assert(out@ =~= encode_scalar(c as u32));
    } else if v <= 0x7FF {
        out.push(0xC0 | ((v >> 6) & 0x1F) as u8);
        out.push(0x80 | (v & 0x3F) as u8);
        assert(out@ =~= encode_scalar(c as u32));
    } else if v <= 0xFFFF {
        out.push(0xE0 | ((v >> 12) & 0x0F) as u8);
        out.push(0x80 | ((v >> 6) & 0x3F) as u8);
        out.push(0x80 | (v & 0x3F) as u8);
        assert(!(0xD800 <= v && v <= 0xDFFF));
        assert(out@ =~= encode_scalar(c as u32));
    } else {
        out.push(0xF0 | ((v >> 18) & 0x7) as u8);
        out.push(0x80 | ((v >> 12) & 0x3F) as u8);
        out.push(0x80 | ((v >> 6) & 0x3F) as u8);
        out.push(0x80 | (v & 0x3F) as u8);
        assert(out@ =~= encode_scalar(c as u32));
    }
    out
}

fn push_percent_bytes(out: &mut Vec<char>, bytes: &[u8])
    ensures
        final(out)@ == old(out)@ + percent_bytes(bytes@),
{
    let ghost start = out@;
    let mut i: usize = 0;
    assert(bytes@.skip(0) =~= bytes@);
    while i < bytes.len()
        invariant
            i <= bytes@.len(),
            out@ + percent_bytes(bytes@.skip(i as int)) == start + percent_bytes(bytes@),
        decreases bytes@.len() - i,
    {
        let b = bytes[i];
        let ghost rest = bytes@.skip(i as int);
        assert(rest[0] == b);
        assert(rest.drop_first() =~= bytes@.skip(i + 1));
        let ghost before = out@;
        out.push('%');
        out.push(hex_upper_exec(b / 16));
        out.push(hex_upper_exec(b % 16));
        assert(out@ + percent_bytes(bytes@.skip(i + 1)) =~= before + percent_bytes(rest));
        i = i + 1;
    }
    assert(percent_bytes(bytes@.skip(i as int)) =~= Seq::<char>::empty());
    assert(out@ =~= start + percent_bytes(bytes@));
}

fn is_unreserved(c: char) -> (res: bool)
    ensures
        res == unreserved(c),
{
    ('a' <= c && c <= 'z') || ('A' <= c && c <= 'Z') || ('0' <= c && c <= '9') || c == '-' || c
        == '_' || c == '.' || c == '~'
}

/// Percent-encodes a query value: letters, digits and `-_.~` stay, `:` and space
/// become `%3A` and `%20`, every other character becomes `%XX` for each of its UTF-8 bytes.
pub fn urlencoded(s: &str) -> (res: String)
    ensures
        res@ == url_encode(s@),
{
    let chars = crate::text::chars_of(s);
    let mut out: Vec<char> = Vec::new();
    let mut i: usize = 0;
    assert(chars@.take(0) =~= Seq::<char>::empty());
    while i < chars.len()
        invariant
            chars@ == s@,
            i <= chars@.len(),
            out@ == url_encode(chars@.take(i as int)),
        decreases chars@.len() - i,
    {
        let c = chars[i];
        let ghost pre = chars@.take(i + 1);
        assert(pre.drop_last() =~= chars@.take(i as int));
        assert(pre.last() == c);
        let ghost before = out@;
        if is_unreserved(c) {
            out.push(c);
        } else if c == ':' {
            out.push('%');
            out.push('3');
            out.push('A');
        } else if c == ' ' {
            out.push('%');
            out.push('2');
            out.push('0');
        } else {
            let bytes = utf8_bytes(c);
            push_percent_bytes(&mut out, &bytes);
        }
        assert(out@ =~= before + encode_char(c));
        i = i + 1;
    }
    assert(chars@.take(chars@.len() as int) =~= chars@);
    string_from_chars(&out)
}

/// Text made of unreserved characters only is left as it is.
pub proof fn lemma_url_encode_unreserved(s: Seq<char>)
    requires
        forall|i: int| 0 <= i < s.len() ==> unreserved(s[i]),
    ensures
        url_encode(s) == s,
    decreases s.len(),
{
    if s.len() > 0 {
        lemma_url_encode_unreserved(s.drop_last());
        assert(s.drop_last().push(s.last()) =~= s);
        assert(s.drop_last() + seq![s.last()] =~= s);
    }
}

/// Encoding a concatenation encodes each part.
pub proof fn lemma_url_encode_concat(a: Seq<char>, b: Seq<char>)
    ensures
        url_encode(a + b) == url_encode(a) + url_encode(b),
    decreases b.len(),
{
    if b.len() == 0 {
        assert(a + b =~= a);
        assert(url_encode(a) + url_encode(b) =~= url_encode(a));
    } else {
        lemma_url_encode_concat(a, b.drop_last());
        assert((a + b).drop_last() =~= a + b.drop_last());
        assert((a + b).last() == b.last());
        assert(url_encode(a) + url_encode(b.drop_last()) + encode_char(b.last()) =~= url_encode(a)
            + (url_encode(b.drop_last()) + encode_char(b.last())));
    }
}

/// A hexadecimal digit, in either case.
pub open spec fn is_hex_digit(c: char) -> bool {
    ('0' <= c && c <= '9') || ('A' <= c && c <= 'F') || ('a' <= c && c <= 'f')
}

/// The value of a hexadecimal digit.
pub open spec fn hex_value(c: char) -> nat {
    if '0' <= c && c <= '9' {
        (c as u32 - '0' as u32) as nat
    } else if 'A' <= c && c <= 'F' {
        (c as u32 - 'A' as u32 + 10) as nat
    } else {
        (c as u32 - 'a' as u32 + 10) as nat
    }
}

/// The bytes a percent-encoded text stands for: `%XY` with two hexadecimal digits is the
/// byte `0xXY`, any other character its UTF-8 bytes.
pub open spec fn percent_decode(s: Seq<char>) -> Seq<u8>
    decreases s.len(),
{
    if s.len() == 0 {
        Seq::<u8>::empty()
    } else if s.len() >= 3 && s[0] == '%' && is_hex_digit(s[1]) && is_hex_digit(s[2]) {
        seq![(hex_value(s[1]) * 16 + hex_value(s[2])) as u8] + percent_decode(s.skip(3))
    } else {
        encode_scalar(s[0] as u32) + percent_decode(s.drop_first())
    }
}

proof fn lemma_hex_upper_value(d: nat)
    requires
        d < 16,
    ensures
        is_hex_digit(hex_upper(d)),
        hex_value(hex_upper(d)) == d,
        unreserved(hex_upper(d)),
{
    reveal_with_fuel(crate::text::digit_char, 1);
    if d == 0 {
    } else if d == 1 {
    } else if d == 2 {
    } else if d == 3 {
    } else if d == 4 {
    } else if d == 5 {
    } else if d == 6 {
    } else if d == 7 {
    } else if d == 8 {
    } else if d == 9 {
    } else if d == 10 {
    } else if d == 11 {
    } else if d == 12 {
    } else if d == 13 {
    } else if d == 14 {
    } else {
    }
}

proof fn lemma_decode_percent_bytes(bytes: Seq<u8>, rest: Seq<char>)
    ensures
        percent_decode(percent_bytes(bytes) + rest) == bytes + percent_decode(rest),
    decreases bytes.len(),
{
    if bytes.len() == 0 {
        assert(percent_bytes(bytes) + rest =~= rest);
        assert(bytes + percent_decode(rest) =~= percent_decode(rest));
    } else {
        let b = bytes[0];
        let hi = b as nat / 16;
        let lo = b as nat % 16;
        lemma_hex_upper_value(hi);
        lemma_hex_upper_value(lo);
        lemma_decode_percent_bytes(bytes.drop_first(), rest);
        let s = percent_bytes(bytes) + rest;
        let tail = percent_bytes(bytes.drop_first()) + rest;
        assert(s =~= seq!['%', hex_upper(hi), hex_upper(lo)] + tail);
        assert(s.skip(3) =~= tail);
        assert(s[1] == hex_upper(hi) && s[2] == hex_upper(lo));
        assert(hi * 16 + lo == b as nat);
        assert(((hi * 16 + lo) as u8) == b);
        assert(bytes =~= seq![b] + bytes.drop_first());
        assert(percent_decode(s) == seq![b] + percent_decode(tail));
        assert(seq![b] + (bytes.drop_first() + percent_decode(rest)) =~= bytes + percent_decode(rest));
    }
}

proof fn lemma_decode_encoded_char(c: char, rest: Seq<char>)
    ensures
        percent_decode(encode_char(c) + rest) == encode_scalar(c as u32) + percent_decode(rest),
{
    let s = encode_char(c) + rest;
    if unreserved(c) {
        assert(s[0] == c);
        assert(s.drop_first() =~= rest);
    } else if c == ':' {
        assert(s.skip(3) =~= rest);
        assert(s[1] == '3' && s[2] == 'A');
        assert(hex_value('3') == 3);
        assert(hex_value('A') == 10);
        assert(((58u32 & 0x7Fu32) as u8) == 58u8) by (bit_vector);
        assert(encode_scalar(c as u32) =~= seq![58u8]);
    } else if c == ' ' {
        assert(s.skip(3) =~= rest);
        assert(s[1] == '2' && s[2] == '0');
        assert(hex_value('2') == 2);
        assert(hex_value('0') == 0);
        assert(((32u32 & 0x7Fu32) as u8) == 32u8) by (bit_vector);
        assert(encode_scalar(c as u32) =~= seq![32u8]);
    } else {
        lemma_decode_percent_bytes(encode_scalar(c as u32), rest);
    }
}

/// Encoding a text starts with the encoding of its first character.
proof fn lemma_url_encode_first(s: Seq<char>)
    requires
        s.len() > 0,
    ensures
        url_encode(s) == encode_char(s[0]) + url_encode(s.drop_first()),
{
    lemma_url_encode_concat(seq![s[0]], s.drop_first());
    assert(seq![s[0]] + s.drop_first() =~= s);
    let one = seq![s[0]];
    assert(one.drop_last() =~= Seq::<char>::empty());
    assert(one.last() == s[0]);
    assert(url_encode(one.drop_last()) =~= Seq::<char>::empty());
    assert(url_encode(one) == url_encode(one.drop_last()) + encode_char(one.last()));
    assert(url_encode(one) =~= encode_char(s[0]));
}

/// Percent-decoding an encoded query value gives back exactly the UTF-8 bytes of the text.
pub proof fn lemma_url_encode_decodes(s: Seq<char>)
    ensures
        percent_decode(url_encode(s)) == encode_utf8(s),
    decreases s.len(),
{
    if s.len() == 0 {
        assert(url_encode(s) =~= Seq::<char>::empty());
        assert(encode_utf8(s) =~= Seq::<u8>::empty());
    } else {
        lemma_url_encode_first(s);
        lemma_url_encode_decodes(s.drop_first());
        lemma_decode_encoded_char(s[0], url_encode(s.drop_first()));
    }
}

/// An encoded query value holds only unreserved characters and `%`.
pub proof fn lemma_url_encode_charset(s: Seq<char>)
    ensures
        forall|i: int|
            0 <= i < url_encode(s).len() ==> unreserved(#[trigger] url_encode(s)[i]) || url_encode(s)[i]
                == '%',
    decreases s.len(),
{
    if s.len() > 0 {
        lemma_url_encode_charset(s.drop_last());
        let prev = url_encode(s.drop_last());
        let e = encode_char(s.last());
        assert forall|j: int| 0 <= j < e.len() implies unreserved(#[trigger] e[j]) || e[j] == '%' by {
            let c = s.last();
            if !unreserved(c) && c != ':' && c != ' ' {
                lemma_percent_bytes_charset(encode_scalar(c as u32), j);
            }
        }
        assert forall|i: int|
            0 <= i < url_encode(s).len() implies unreserved(#[trigger] url_encode(s)[i])
            || url_encode(s)[i] == '%' by {
            if i < prev.len() {
                assert(url_encode(s)[i] == prev[i]);
            } else {
                assert(url_encode(s)[i] == e[i - prev.len()]);
            }
        }
    }
}

proof fn lemma_percent_bytes_charset(bytes: Seq<u8>, j: int)
    requires
        0 <= j < percent_bytes(bytes).len(),
    ensures
        unreserved(percent_bytes(bytes)[j]) || percent_bytes(bytes)[j] == '%',
    decreases bytes.len(),
{
    if bytes.len() > 0 {
        let b = bytes[0];
        lemma_hex_upper_value(b as nat / 16);
        lemma_hex_upper_value(b as nat % 16);
        let head = seq!['%', hex_upper(b as nat / 16), hex_upper(b as nat % 16)];
        let tail = percent_bytes(bytes.drop_first());
        assert(percent_bytes(bytes) == head + tail);
        if j >= 3 {
            lemma_percent_bytes_charset(bytes.drop_first(), j - 3);
            assert(percent_bytes(bytes)[j] == tail[j - 3]);
        }
    }
}

/// An upper-case hexadecimal digit.
pub open spec fn is_upper_hex_digit(c: char) -> bool {
    ('0' <= c && c <= '9') || ('A' <= c && c <= 'F')
}

/// `%` at index `i` of `s` starts an escape: two upper-case hexadecimal digits follow.
pub open spec fn escape_at(s: Seq<char>, i: int) -> bool {
    i + 2 < s.len() && is_upper_hex_digit(s[i + 1]) && is_upper_hex_digit(s[i + 2])
}

proof fn lemma_hex_upper_is_upper_hex(d: nat)
    requires
        d < 16,
    ensures
        is_upper_hex_digit(hex_upper(d)),
        hex_upper(d) != '%',
{
    reveal_with_fuel(crate::text::digit_char, 1);
}

proof fn lemma_percent_bytes_escapes(bytes: Seq<u8>, j: int)
    requires
        0 <= j < percent_bytes(bytes).len(),
        percent_bytes(bytes)[j] == '%',
    ensures
        escape_at(percent_bytes(bytes), j),
    decreases bytes.len(),
{
    if bytes.len() > 0 {
        let b = bytes[0];
        lemma_hex_upper_is_upper_hex(b as nat / 16);
        lemma_hex_upper_is_upper_hex(b as nat % 16);
        let head = seq!['%', hex_upper(b as nat / 16), hex_upper(b as nat % 16)];
        let tail = percent_bytes(bytes.drop_first());
        let all = percent_bytes(bytes);
        assert(all == head + tail);
        if j >= 3 {
            assert(all[j] == tail[j - 3]);
            lemma_percent_bytes_escapes(bytes.drop_first(), j - 3);
            assert(all[j + 1] == tail[j - 2]);
            assert(all[j + 2] == tail[j - 1]);
        } else {
            assert(j == 0);
        }
    }
}

/// Every `%` in an encoded query value starts an escape of two upper-case hexadecimal
/// digits.
pub proof fn lemma_url_encode_escapes(s: Seq<char>)
    ensures
        forall|i: int|
            0 <= i < url_encode(s).len() && #[trigger] url_encode(s)[i] == '%' ==> escape_at(url_encode(s), i),
    decreases s.len(),
{
    if s.len() > 0 {
        lemma_url_encode_escapes(s.drop_last());
        let prev = url_encode(s.drop_last());
        let c = s.last();
        let e = encode_char(c);
        let all = url_encode(s);
        assert(all == prev + e);
        assert forall|i: int| 0 <= i < all.len() && #[trigger] all[i] == '%' implies escape_at(all, i) by {
            if i < prev.len() {
                assert(all[i] == prev[i]);
                assert(escape_at(prev, i));
                assert(all[i + 1] == prev[i + 1]);
                assert(all[i + 2] == prev[i + 2]);
            } else {
                let j = i - prev.len();
                assert(all[i] == e[j]);
                if unreserved(c) {
                } else if c == ':' || c == ' ' {
                    assert(j == 0);
                    assert(all[i + 1] == e[1]);
                    assert(all[i + 2] == e[2]);
                } else {
                    lemma_percent_bytes_escapes(encode_scalar(c as u32), j);
                    assert(all[i + 1] == e[j + 1]);
                    assert(all[i + 2] == e[j + 2]);
                }
            }
        }
    }
}

/// The value of an ASCII digit character.
pub open spec fn digit_value(c: char) -> nat {
    (c as u32 - '0' as u32) as nat
}

/// An ASCII digit.
pub open spec fn is_digit(c: char) -> bool {
    '0' <= c && c <= '9'
}

/// The number written by a sequence of ASCII digits.
pub open spec fn digits_value(s: Seq<char>) -> nat
    decreases s.len(),
{
    if s.len() == 0 {
        0
    } else {
        digits_value(s.drop_last()) * 10 + digit_value(s.last())
    }
}

/// The `usize` a text stands for, as `str::parse::<usize>` reads it: an optional `+`,
/// then one or more ASCII digits, with a value that fits.
pub open spec fn parsed_usize(s: Seq<char>) -> Option<usize> {
    parsed_digits(sign_stripped(s))
}

/// A text without its leading `+`, if it has one.
pub open spec fn sign_stripped(s: Seq<char>) -> Seq<char> {
    if s.len() > 0 && s[0] == '+' {
        s.drop_first()
    } else {
        s
    }
}

/// The `usize` written by one or more ASCII digits, when it fits.
pub open spec fn parsed_digits(digits: Seq<char>) -> Option<usize> {
    if digits.len() > 0 && (forall|i: int| 0 <= i < digits.len() ==> is_digit(#[trigger] digits[i]))
        && digits_value(digits) <= usize::MAX {
        Some(digits_value(digits) as usize)
    } else {
        None
    }
}

/// Parses a decimal `usize`: an optional `+` followed by digits; `None` for anything
/// else or a value too large.
pub fn parse_usize(s: &str) -> (res: Option<usize>)
    ensures
        res == parsed_usize(s@),
{
    let chars = crate::text::chars_of(s);
    let start: usize = if chars.len() > 0 && chars[0] == '+' {
        1
    } else {
        0
    };
    let ghost digits = sign_stripped(s@);
    assert(digits =~= chars@.skip(start as int));
    if start >= chars.len() {
        return None;
    }
    let mut value: usize = 0;
    let mut i: usize = start;
    assert(chars@.subrange(start as int, start as int) =~= Seq::<char>::empty());
    while i < chars.len()
        invariant
            chars@ == s@,
            start <= i <= chars@.len(),
            digits =~= chars@.skip(start as int),
            digits == sign_stripped(s@),
            forall|k: int| start <= k < i ==> is_digit(chars@[k]),
            value as nat == digits_value(chars@.subrange(start as int, i as int)),
        decreases chars@.len() - i,
    {
        let c = chars[i];
        let ghost pre = chars@.subrange(start as int, i + 1);
        assert(pre.drop_last() =~= chars@.subrange(start as int, i as int));
        assert(pre.last() == c);
        if !('0' <= c && c <= '9') {
            assert(digits[i - start] == c);
            assert(!is_digit(digits[i - start]));
            assert(0 <= i - start < digits.len());
            assert(!(forall|k: int| 0 <= k < digits.len() ==> is_digit(digits[k])));
            assert(parsed_digits(digits) is None);
            return None;
        }
        let d = (c as u32 - '0' as u32) as usize;
        match value.checked_mul(10) {
            Some(v10) => match v10.checked_add(d) {
                Some(v) => {
                    value = v;
                },
                None => {
                    proof {
                        assert(digits_value(pre) == value * 10 + d);
                        assert(digits.take(i + 1 - start) =~= pre);
                        lemma_digits_value_monotone(digits, i + 1 - start);
                        assert(digits_value(digits) > usize::MAX);
                    }
                    return None;
                },
            },
            None => {
                proof {
                    lemma_digits_value_monotone(digits, i + 1 - start);
                    assert(digits.take(i + 1 - start) =~= pre);
                    assert(value * 10 <= digits_value(pre));
                }
                return None;
            },
        }
        i = i + 1;
    }
    assert(chars@.subrange(start as int, chars@.len() as int) =~= digits);
    Some(value)
}

/// A prefix of digits never stands for more than the whole.
pub proof fn lemma_digits_value_monotone(s: Seq<char>, n: int)
    requires
        0 <= n <= s.len(),
    ensures
        digits_value(s.take(n)) <= digits_value(s),
    decreases s.len() - n,
{
    if n < s.len() {
        lemma_digits_value_monotone(s, n + 1);
        assert(s.take(n + 1).drop_last() =~= s.take(n));
    } else {
        assert(s.take(n) =~= s);
    }
}

} // verus!
