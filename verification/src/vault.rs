//! How secrets are written into the JSON files: hex, rather than base64, to
//! avoid a dependency for a handful of small blobs.
//!
//! The sealing itself (DPAPI, which ties the ciphertext to the current Windows
//! user) is an operating-system call the application makes; what goes into
//! and comes out of the files is here.
use vstd::prelude::*;
use vstd::string::StringSliceAdditionalSpecFns;
use vstd::utf8::{is_char_boundary, is_ascii_chars};

use crate::text::{ascii_lower, chars_of, lower_seq, push_char, push_str};
use crate::Error;

verus! {

/// The lowercase hex digit for `n < 16`.
pub open spec fn hex_char(n: nat) -> char {
    if n == 0 {
        '0'
    } else if n == 1 {
        '1'
    } else if n == 2 {
        '2'
    } else if n == 3 {
        '3'
    } else if n == 4 {
        '4'
    } else if n == 5 {
        '5'
    } else if n == 6 {
        '6'
    } else if n == 7 {
        '7'
    } else if n == 8 {
        '8'
    } else if n == 9 {
        '9'
    } else if n == 10 {
        'a'
    } else if n == 11 {
        'b'
    } else if n == 12 {
        'c'
    } else if n == 13 {
        'd'
    } else if n == 14 {
        'e'
    } else {
        'f'
    }
}

/// The value of a hex digit of either case.
pub open spec fn hex_val(c: char) -> Option<u8> {
    if '0' <= c && c <= '9' {
        Some((c as u32 - 48) as u8)
    } else if 'a' <= c && c <= 'f' {
        Some((c as u32 - 87) as u8)
    } else if 'A' <= c && c <= 'F' {
        Some((c as u32 - 55) as u8)
    } else {
        None
    }
}

/// Two lowercase hex digits per byte, high nibble first.
pub open spec fn hex_of(bytes: Seq<u8>) -> Seq<char>
    decreases bytes.len(),
{
    if bytes.len() == 0 {
        Seq::empty()
    } else {
        hex_of(bytes.drop_last()) + seq![
            hex_char((bytes.last() / 16) as nat),
            hex_char((bytes.last() % 16) as nat),
        ]
    }
}

fn hex_digit(n: u8) -> (c: char)
    requires
        n < 16,
    ensures
        c == hex_char(n as nat),
        hex_val(c) == Some(n),
{
    if n == 0 {
        '0'
    } else if n == 1 {
        '1'
    } else if n == 2 {
        '2'
    } else if n == 3 {
        '3'
    } else if n == 4 {
        '4'
    } else if n == 5 {
        '5'
    } else if n == 6 {
        '6'
    } else if n == 7 {
        '7'
    } else if n == 8 {
        '8'
    } else if n == 9 {
        '9'
    } else if n == 10 {
        'a'
    } else if n == 11 {
        'b'
    } else if n == 12 {
        'c'
    } else if n == 13 {
        'd'
    } else if n == 14 {
        'e'
    } else {
        'f'
    }
}

/// Two lowercase hex digits per byte.
pub fn to_hex(bytes: &[u8]) -> (r: String)
    ensures
        r@ == hex_of(bytes@),
{
    let mut out = String::new();
    let mut i: usize = 0;
    while i < bytes.len()
        invariant
            i <= bytes@.len(),
            out@ == hex_of(bytes@.take(i as int)),
        decreases bytes@.len() - i,
    {
        let b = bytes[i];
        push_char(&mut out, hex_digit(b / 16));
        push_char(&mut out, hex_digit(b % 16));
        assert(bytes@.take(i + 1).drop_last() =~= bytes@.take(i as int));
        i = i + 1;
        assert(out@ =~= hex_of(bytes@.take(i as int)));
    }
    assert(bytes@.take(i as int) =~= bytes@);
    out
}

/// What `u8::from_str_radix(pair, 16)` gives for a two-character pair: an
/// optional `+` before one digit, or two digits.
pub open spec fn pair_value(a: char, b: char) -> Option<u8> {
    if a == '+' {
        hex_val(b)
    } else {
        match (hex_val(a), hex_val(b)) {
            (Some(x), Some(y)) => Some((x * 16 + y) as u8),
            _ => None,
        }
    }
}

/// Decode an even-length run of pairs, or `None` at the first bad pair.
pub open spec fn decode_pairs(s: Seq<char>) -> Option<Seq<u8>>
    decreases s.len(),
{
    if s.len() < 2 {
        Some(Seq::empty())
    } else {
        match pair_value(s[0], s[1]) {
            Some(v) => match decode_pairs(s.skip(2)) {
                Some(rest) => Some(seq![v] + rest),
                None => None,
            },
            None => None,
        }
    }
}

pub open spec fn odd_length_message() -> Seq<char> {
    "stored secret is malformed (odd length)"@
}

pub open spec fn bad_digit_message() -> Seq<char> {
    "stored secret is malformed: invalid digit found in string"@
}

/// What `from_hex` gives: an error for an odd number of bytes, or for any
/// character that is not part of a valid pair; otherwise the decoded bytes.
pub open spec fn from_hex_spec(text: &str) -> Result<Seq<u8>, Seq<char>> {
    if text.len() % 2 == 1 {
        Err(odd_length_message())
    } else if !is_ascii_chars(text@) {
        Err(bad_digit_message())
    } else {
        match decode_pairs(text@) {
            Some(b) => Ok(b),
            None => Err(bad_digit_message()),
        }
    }
}

/// Every even byte offset of `text` falls between characters, so every
/// two-byte window of it is itself a string.
pub open spec fn pairs_on_boundaries(text: &str) -> bool {
    forall|i: int|
        0 <= i <= text.spec_bytes().len() && i % 2 == 0 ==> is_char_boundary(text.spec_bytes(), i)
}

fn error_with(message: &str) -> (e: Error)
    ensures
        e matches Error::Other(m) && m@ == message@,
{
    let mut m = String::new();
    push_str(&mut m, message);
    Error::Other(m)
}

/// Decode hex written by [`to_hex`] (either case is accepted, as
/// `u8::from_str_radix` accepts it).
///
/// A string whose pairs would split a character is left out: reading a
/// two-byte window of it is not possible.
pub fn from_hex(text: &str) -> (r: Result<Vec<u8>, Error>)
    requires
        text.len() % 2 == 1 || pairs_on_boundaries(text),
    ensures
        match from_hex_spec(text) {
            Ok(b) => r matches Ok(v) && v@ == b,
            Err(m) => r matches Err(Error::Other(e)) && e@ == m,
        },
{
    if text.len() % 2 == 1 {
        return Err(error_with("stored secret is malformed (odd length)"));
    }
    if !text.is_ascii() {
        return Err(error_with("stored secret is malformed: invalid digit found in string"));
    }
    let chars = chars_of(text);
    proof {
        vstd::string::is_ascii_spec_bytes(text);
    }
    let n = chars.len();
    let mut out: Vec<u8> = Vec::new();
    let mut i: usize = 0;
    assert(chars@.skip(0) =~= chars@);
    while i + 1 < n
        invariant
            i <= n,
            n == chars@.len(),
            chars@ == text@,
            i % 2 == 0,
            n % 2 == 0,
            text.len() % 2 == 0,
            is_ascii_chars(text@),
            decode_pairs(text@) == match decode_pairs(text@.skip(i as int)) {
                Some(rest) => Some(out@ + rest),
                None => None,
            },
        decreases n - i,
    {
        let a = chars[i];
        let b = chars[i + 1];
        let ghost s = text@.skip(i as int);
        assert(s[0] == a && s[1] == b);
        assert(s.skip(2) =~= text@.skip(i + 2));
        let value: Option<u8> = if a == '+' {
            hex_value(b)
        } else {
            match (hex_value(a), hex_value(b)) {
                (Some(x), Some(y)) => Some(x * 16 + y),
                _ => None,
            }
        };
        match value {
            Some(v) => {
                let ghost before = out@;
                out.push(v);
                assert(before + (seq![v] + decode_pairs(text@.skip(i + 2))->0) =~= out@
                    + decode_pairs(text@.skip(i + 2))->0);
            },
            None => {
                assert(pair_value(s[0], s[1]) is None);
                assert(decode_pairs(s) is None);
                return Err(error_with("stored secret is malformed: invalid digit found in string"));
            },
        }
        i = i + 2;
    }
    assert(decode_pairs(text@.skip(i as int)) == Some(Seq::<u8>::empty()));
    assert(out@ + Seq::<u8>::empty() =~= out@);
    Ok(out)
}

fn hex_value(c: char) -> (r: Option<u8>)
    ensures
        r == hex_val(c),
        r matches Some(v) ==> v < 16,
{
    if '0' <= c && c <= '9' {
        Some(((c as u32) - 48) as u8)
    } else if 'a' <= c && c <= 'f' {
        Some(((c as u32) - 87) as u8)
    } else if 'A' <= c && c <= 'F' {
        Some(((c as u32) - 55) as u8)
    } else {
        None
    }
}

/// Decoding what [`to_hex`] wrote gives the bytes back.
pub proof fn lemma_hex_round_trip(bytes: Seq<u8>)
    ensures
        decode_pairs(hex_of(bytes)) == Some(bytes),
        hex_of(bytes).len() == 2 * bytes.len(),
        is_ascii_chars(hex_of(bytes)),
    decreases bytes.len(),
{
    if bytes.len() > 0 {
        let first = bytes[0];
        let rest = bytes.drop_first();
        lemma_hex_of_front(bytes);
        lemma_hex_round_trip(rest);
        let h = hex_of(bytes);
        assert(h.skip(2) =~= hex_of(rest));
        assert(hex_val(hex_char((first / 16) as nat)) == Some(first / 16)) by {
            lemma_hex_char_val((first / 16) as nat);
        }
        assert(hex_val(hex_char((first % 16) as nat)) == Some(first % 16)) by {
            lemma_hex_char_val((first % 16) as nat);
        }
        assert(hex_char((first / 16) as nat) != '+') by {
            lemma_hex_char_val((first / 16) as nat);
        }
        assert(seq![first] + rest =~= bytes);
        lemma_hex_char_val((first / 16) as nat);
        lemma_hex_char_val((first % 16) as nat);
        assert forall|i: int| 0 <= i < h.len() implies (#[trigger] h[i] as u32) < 128 by {
            if i >= 2 {
                assert(h[i] == hex_of(rest)[i - 2]);
            }
        }
    } else {
        assert(hex_of(bytes) =~= Seq::<char>::empty());
    }
}

/// What [`to_hex`] writes, [`from_hex`] reads back: hex text is accepted
/// (its pairs never split a character) and decodes to the same bytes.
pub proof fn lemma_from_hex_reads_to_hex(text: &str, bytes: Seq<u8>)
    requires
        text@ == hex_of(bytes),
        text@.len() <= usize::MAX,
    ensures
        pairs_on_boundaries(text),
        text.len() % 2 == 0,
        from_hex_spec(text) == Ok::<Seq<u8>, Seq<char>>(bytes),
{
    lemma_hex_round_trip(bytes);
    vstd::string::is_ascii_spec_bytes(text);
    let b = text.spec_bytes();
    assert(b.len() == text@.len());
    assert(text.len() == b.len());
    vstd::utf8::encode_utf8_valid_utf8(text@);
    vstd::utf8::is_char_boundary_start_end_of_seq(b);
    assert forall|i: int| 0 <= i <= b.len() && i % 2 == 0 implies is_char_boundary(b, i) by {
        if i < b.len() {
            vstd::utf8::is_char_boundary_iff_is_leading_byte(b, i);
            assert((text@[i] as u32) < 128);
        }
    }
}

/// Every character is a hex digit, of either case.
pub open spec fn all_hex(s: Seq<char>) -> bool {
    forall|i: int| 0 <= i < s.len() ==> (#[trigger] hex_val(s[i])) is Some
}

/// A hex digit's value, written back as a lowercase digit, is the digit
/// lowercased.
proof fn lemma_hex_char_of_val(c: char)
    requires
        hex_val(c) is Some,
    ensures
        hex_val(c)->0 < 16,
        hex_char(hex_val(c)->0 as nat) == ascii_lower(c),
        c != '+',
        (c as u32) < 128,
{
    if '0' <= c && c <= '9' {
        assert(c == '0' || c == '1' || c == '2' || c == '3' || c == '4' || c == '5' || c == '6'
            || c == '7' || c == '8' || c == '9');
    } else if 'a' <= c && c <= 'f' {
        assert(c == 'a' || c == 'b' || c == 'c' || c == 'd' || c == 'e' || c == 'f');
    } else {
        assert(c == 'A' || c == 'B' || c == 'C' || c == 'D' || c == 'E' || c == 'F');
    }
}

/// Pairs of characters without a `+` decode exactly when every character is
/// a hex digit, and the bytes written back as hex are the text lowercased.
proof fn lemma_decode_pairs_hex(s: Seq<char>)
    requires
        s.len() % 2 == 0,
        forall|i: int| 0 <= i < s.len() ==> s[i] != '+',
    ensures
        (decode_pairs(s) is Some) == all_hex(s),
        decode_pairs(s) matches Some(b) ==> hex_of(b) == lower_seq(s),
    decreases s.len(),
{
    if s.len() == 0 {
        assert(lower_seq(s) =~= Seq::<char>::empty());
        assert(hex_of(Seq::<u8>::empty()) =~= Seq::<char>::empty());
    } else {
        let rest = s.skip(2);
        lemma_decode_pairs_hex(rest);
        assert forall|i: int| 0 <= i < rest.len() implies hex_val(#[trigger] rest[i]) == hex_val(s[i + 2]) by {}
        if hex_val(s[0]) is Some && hex_val(s[1]) is Some {
            let x = hex_val(s[0])->0;
            let y = hex_val(s[1])->0;
            lemma_hex_char_of_val(s[0]);
            lemma_hex_char_of_val(s[1]);
            let v = (x * 16 + y) as u8;
            assert(v / 16 == x && v % 16 == y) by (nonlinear_arith)
                requires x < 16, y < 16, v == (x * 16 + y) as u8;
            assert(all_hex(s) == all_hex(rest)) by {
                if all_hex(rest) {
                    assert forall|i: int| 0 <= i < s.len() implies (#[trigger] hex_val(s[i])) is Some by {
                        if i >= 2 {
                            assert(rest[i - 2] == s[i]);
                        }
                    }
                }
            }
            if let Some(r) = decode_pairs(rest) {
                let b = seq![v] + r;
                assert(decode_pairs(s) == Some(b));
                lemma_hex_of_front(b);
                assert(b.drop_first() =~= r);
                assert(lower_seq(s) =~= seq![ascii_lower(s[0]), ascii_lower(s[1])] + lower_seq(rest));
            }
        } else {
            assert(decode_pairs(s) is None);
            if hex_val(s[0]) is None {
                assert(!all_hex(s));
            } else {
                assert(!all_hex(s));
            }
        }
    }
}

/// `from_hex` accepts exactly the texts of an even number of hex digits, of
/// either case, and what it reads, written back by [`to_hex`], is the text
/// in lowercase. (A pair may also be `+` and one digit, as
/// `u8::from_str_radix` reads it; such texts are left out here.)
pub proof fn lemma_from_hex_accepts_hex(text: &str)
    requires
        forall|i: int| 0 <= i < text@.len() ==> text@[i] != '+',
        text@.len() <= usize::MAX,
    ensures
        (from_hex_spec(text) is Ok) == (text@.len() % 2 == 0 && all_hex(text@)),
        from_hex_spec(text) matches Ok(b) ==> hex_of(b) == lower_seq(text@),
{
    vstd::string::is_ascii_spec_bytes(text);
    if all_hex(text@) {
        assert forall|i: int| 0 <= i < text@.len() implies '\0' <= #[trigger] text@[i] <= '\u{7f}' by {
            lemma_hex_char_of_val(text@[i]);
        }
        assert(is_ascii_chars(text@));
    }
    if is_ascii_chars(text@) {
        assert(vstd::string::is_ascii(text));
        let b = text.spec_bytes();
        assert(b.len() == text@.len());
        assert(text.len() == b.len());
        if text@.len() % 2 == 0 {
            lemma_decode_pairs_hex(text@);
        }
    }
}

proof fn lemma_hex_char_val(n: nat)
    requires
        n < 16,
    ensures
        hex_val(hex_char(n)) == Some(n as u8),
        hex_char(n) != '+',
        (hex_char(n) as u32) < 128,
{
}

/// `hex_of` read from the front: the first byte's two digits, then the rest.
proof fn lemma_hex_of_front(bytes: Seq<u8>)
    requires
        bytes.len() > 0,
    ensures
        hex_of(bytes) == seq![
            hex_char((bytes[0] / 16) as nat),
            hex_char((bytes[0] % 16) as nat),
        ] + hex_of(bytes.drop_first()),
    decreases bytes.len(),
{
    if bytes.len() == 1 {
        assert(bytes.drop_last() =~= Seq::<u8>::empty());
        assert(bytes.drop_first() =~= Seq::<u8>::empty());
        assert(hex_of(bytes.drop_first()) =~= Seq::<char>::empty());
        assert(hex_of(bytes.drop_last()) =~= Seq::<char>::empty());
    } else {
        let init = bytes.drop_last();
        lemma_hex_of_front(init);
        assert(init.drop_first() =~= bytes.drop_first().drop_last());
        assert(bytes.drop_first().last() == bytes.last());
    }
}

/// The byte-order mark Notepad and PowerShell put at the start of UTF-8 files.
pub open spec fn without_bom(text: Seq<char>) -> Seq<char> {
    if text.len() > 0 && text[0] == '\u{feff}' {
        text.drop_first()
    } else {
        text
    }
}

/// `text` without a leading byte-order mark, so a hand-edited file still
/// parses.
pub fn strip_bom(text: &str) -> (r: String)
    ensures
        r@ == without_bom(text@),
{
    let chars = chars_of(text);
    let mut out = String::new();
    let start: usize = if chars.len() > 0 && chars[0] == '\u{feff}' {
        1
    } else {
        0
    };
    let mut i = start;
    while i < chars.len()
        invariant
            start <= i <= chars@.len(),
            chars@ == text@,
            out@ == text@.subrange(start as int, i as int),
        decreases chars@.len() - i,
    {
        push_char(&mut out, chars[i]);
        i = i + 1;
        assert(out@ =~= text@.subrange(start as int, i as int));
    }
    assert(out@ =~= without_bom(text@));
    out
}

} // verus!
