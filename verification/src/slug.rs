//! The slug codec: a reversible mapping between a human title and a
//! representation that is safe as a file name and as a URL path segment.
//!
//! A slug is the percent-encoding of the title's UTF-8 bytes: letters,
//! digits and `-`, `_`, `.`, `~` stand for themselves, every other byte is
//! written as `%` and two upper-case hexadecimal digits.
//!
//! Three titles would be no names that way: the empty title, `.` and
//! `..`. Their slugs are the title behind the mark `%5F`, an escape that
//! percent-encoding never writes.

use std::string::FromUtf8Error;
use crate::text::chain;
use vstd::prelude::*;
use vstd::string::*;
use vstd::utf8::*;

verus! {

/// Why a slug could not be decoded.
#[derive(Clone, Copy, Debug, PartialEq, Eq, Structural)]
pub enum DecodeError {
    /// The decoded bytes are not the UTF-8 encoding of any text.
    InvalidUtf8,
}

/// The bytes that a slug keeps as they are: ASCII letters, digits, `-`, `.`, `_`, `~`.
pub open spec fn is_unreserved(b: u8) -> bool {
    ||| 0x30 <= b <= 0x39
    ||| 0x41 <= b <= 0x5a
    ||| 0x61 <= b <= 0x7a
    ||| b == 0x2d
    ||| b == 0x2e
    ||| b == 0x5f
    ||| b == 0x7e
}

/// The upper-case hexadecimal digit for a value below 16.
pub open spec fn hex_digit(n: int) -> u8 {
    if n < 10 {
        (0x30 + n) as u8
    } else {
        (0x41 + n - 10) as u8
    }
}

/// Whether a byte is a hexadecimal digit, in either case.
pub open spec fn is_hex_digit(b: u8) -> bool {
    ||| 0x30 <= b <= 0x39
    ||| 0x41 <= b <= 0x46
    ||| 0x61 <= b <= 0x66
}

/// The value of a hexadecimal digit.
pub open spec fn hex_value(b: u8) -> int {
    if 0x30 <= b <= 0x39 {
        b - 0x30
    } else if 0x41 <= b <= 0x46 {
        b - 0x41 + 10
    } else {
        b - 0x61 + 10
    }
}

/// What one byte of a title becomes in the slug.
pub open spec fn escape_byte(b: u8) -> Seq<u8> {
    if is_unreserved(b) {
        seq![b]
    } else {
        seq![0x25u8, hex_digit(b as int / 16), hex_digit(b as int % 16)]
    }
}

/// Percent-encoding of a byte string: each byte is escaped in turn.
pub open spec fn percent_encode(bytes: Seq<u8>) -> Seq<u8>
    decreases bytes.len(),
{
    if bytes.len() == 0 {
        Seq::empty()
    } else {
        escape_byte(bytes[0]) + percent_encode(bytes.skip(1))
    }
}

/// Percent-decoding of a byte string, read from the left: `%` followed by
/// two hexadecimal digits is the byte they denote, any other byte (a `%`
/// that no two digits follow too) stands for itself.
pub open spec fn percent_decode(bytes: Seq<u8>) -> Seq<u8>
    decreases bytes.len(),
{
    if bytes.len() == 0 {
        Seq::empty()
    } else if bytes[0] == 0x25 && bytes.len() >= 3 && is_hex_digit(bytes[1]) && is_hex_digit(
        bytes[2],
    ) {
        seq![(hex_value(bytes[1]) * 16 + hex_value(bytes[2])) as u8] + percent_decode(
            bytes.skip(3),
        )
    } else {
        seq![bytes[0]] + percent_decode(bytes.skip(1))
    }
}

/// The text whose characters are the given ASCII bytes.
pub open spec fn ascii_text(bytes: Seq<u8>) -> Seq<char> {
    Seq::new(bytes.len(), |i: int| bytes[i] as char)
}

/// The percent-encoding of a text.
pub open spec fn percent_encoded(title: Seq<char>) -> Seq<char> {
    ascii_text(percent_encode(encode_utf8(title)))
}

/// The text that a percent-encoding stands for, if its decoded bytes are UTF-8.
pub open spec fn percent_decoded(slug: Seq<char>) -> Option<Seq<char>> {
    let bytes = percent_decode(encode_utf8(slug));
    if valid_utf8(bytes) {
        Some(decode_utf8(bytes))
    } else {
        None
    }
}

/// The titles that a file system and a URL read as a direction and not
/// as a name: the empty title, `.` and `..`.
pub open spec fn is_reserved_title(title: Seq<char>) -> bool {
    title.len() <= 2 && forall|i: int| 0 <= i < title.len() ==> title[i] == '.'
}

/// The mark in front of the slug of a reserved title: `_` written as an
/// escape. Percent-encoding never writes it, since `_` stands for itself.
pub open spec fn reserved_mark() -> Seq<char> {
    seq!['%', '5', 'F']
}

/// Whether a slug is the mark and then a reserved title.
pub open spec fn is_marked_slug(slug: Seq<char>) -> bool {
    reserved_mark().is_prefix_of(slug) && is_reserved_title(slug.skip(3))
}

/// The slug of a title: a reserved title behind the mark, the
/// percent-encoding of any other title.
pub open spec fn encode_spec(title: Seq<char>) -> Seq<char> {
    if is_reserved_title(title) {
        reserved_mark() + title
    } else {
        percent_encoded(title)
    }
}

/// The title that a slug stands for: the reserved title behind the mark,
/// else the text that the slug is the percent-encoding of, if its decoded
/// bytes are UTF-8.
pub open spec fn decode_spec(slug: Seq<char>) -> Option<Seq<char>> {
    if is_marked_slug(slug) {
        Some(slug.skip(3))
    } else {
        percent_decoded(slug)
    }
}

/// Whether a slug is safe as the name of a directory and as a segment of
/// a URL's path: it is not empty, is neither `.` nor `..`, and holds slug
/// characters only.
pub open spec fn is_safe_slug(slug: Seq<char>) -> bool {
    &&& slug.len() > 0
    &&& slug != seq!['.']
    &&& slug != seq!['.', '.']
    &&& forall|i: int| 0 <= i < slug.len() ==> is_slug_char(#[trigger] slug[i])
}

/// The characters that can occur in a slug.
pub open spec fn is_slug_char(c: char) -> bool {
    ||| '0' <= c <= '9'
    ||| 'A' <= c <= 'Z'
    ||| 'a' <= c <= 'z'
    ||| c == '-'
    ||| c == '.'
    ||| c == '_'
    ||| c == '~'
    ||| c == '%'
}

/// Percent-decoding undoes percent-encoding, on every byte string.
pub proof fn lemma_percent_round_trip(bytes: Seq<u8>)
    ensures
        percent_decode(percent_encode(bytes)) == bytes,
    decreases bytes.len(),
{
    if bytes.len() > 0 {
        let b = bytes[0];
        let rest = percent_encode(bytes.skip(1));
        let encoded = percent_encode(bytes);
        lemma_percent_round_trip(bytes.skip(1));
        if is_unreserved(b) {
            assert(encoded[0] == b);
            assert(encoded.skip(1) =~= rest);
        } else {
            let hi = b as int / 16;
            let lo = b as int % 16;
            assert(encoded[0] == 0x25 && encoded[1] == hex_digit(hi) && encoded[2] == hex_digit(lo));
            assert(hex_value(hex_digit(hi)) == hi && hex_value(hex_digit(lo)) == lo);
            assert(encoded.skip(3) =~= rest);
        }
        assert(percent_decode(encoded) =~= seq![b] + bytes.skip(1));
        assert(seq![b] + bytes.skip(1) =~= bytes);
    }
}

/// Percent-encoding yields only the ASCII bytes of slug characters.
pub proof fn lemma_percent_encode_chars(bytes: Seq<u8>)
    ensures
        forall|i: int|
            0 <= i < percent_encode(bytes).len() ==> is_slug_char(
                #[trigger] percent_encode(bytes)[i] as char,
            ) && percent_encode(bytes)[i] < 0x80,
    decreases bytes.len(),
{
    if bytes.len() > 0 {
        let head = escape_byte(bytes[0]);
        let rest = percent_encode(bytes.skip(1));
        lemma_percent_encode_chars(bytes.skip(1));
        assert forall|i: int| 0 <= i < percent_encode(bytes).len() implies is_slug_char(
            #[trigger] percent_encode(bytes)[i] as char,
        ) && percent_encode(bytes)[i] < 0x80 by {
            if i < head.len() {
                assert(percent_encode(bytes)[i] == head[i]);
            } else {
                assert(percent_encode(bytes)[i] == rest[i - head.len()]);
            }
        }
    }
}

/// A percent-encoding consists of slug characters only, all of them
/// ASCII, and its bytes are the percent-encoding of the text's bytes.
pub proof fn lemma_percent_encoded_chars(title: Seq<char>)
    ensures
        forall|i: int|
            0 <= i < percent_encoded(title).len() ==> is_slug_char(
                #[trigger] percent_encoded(title)[i],
            ),
        is_ascii_chars(percent_encoded(title)),
        encode_utf8(percent_encoded(title)) == percent_encode(encode_utf8(title)),
{
    let encoded = percent_encode(encode_utf8(title));
    let slug = percent_encoded(title);
    lemma_percent_encode_chars(encode_utf8(title));
    assert forall|i: int| 0 <= i < slug.len() implies is_slug_char(#[trigger] slug[i]) && '\0'
        <= slug[i] <= '\u{7f}' by {
        assert(slug[i] == encoded[i] as char);
    }
    is_ascii_chars_encode_utf8(slug);
    assert forall|i: int| 0 <= i < slug.len() implies encode_utf8(slug)[i] == encoded[i] by {
        assert(slug[i] == encoded[i] as char);
        assert(slug[i] as u8 == encode_utf8(slug)[i]);
    }
    assert(encode_utf8(slug) =~= encoded);
}

/// Percent-decoding the percent-encoding of a text gives the text back.
pub proof fn lemma_percent_decoded_encoded(title: Seq<char>)
    ensures
        percent_decoded(percent_encoded(title)) == Some(title),
{
    lemma_percent_encoded_chars(title);
    lemma_percent_round_trip(encode_utf8(title));
    encode_utf8_valid_utf8(title);
    encode_utf8_decode_utf8(title);
}

/// Bytes that all stand for themselves are their own percent-encoding.
proof fn lemma_unreserved_bytes(bytes: Seq<u8>)
    requires
        forall|i: int| 0 <= i < bytes.len() ==> is_unreserved(#[trigger] bytes[i]),
    ensures
        percent_encode(bytes) == bytes,
    decreases bytes.len(),
{
    if bytes.len() > 0 {
        assert(is_unreserved(bytes[0]));
        assert forall|i: int| 0 <= i < bytes.skip(1).len() implies is_unreserved(
            #[trigger] bytes.skip(1)[i],
        ) by {
            assert(bytes.skip(1)[i] == bytes[i + 1]);
        }
        lemma_unreserved_bytes(bytes.skip(1));
        assert(seq![bytes[0]] + bytes.skip(1) =~= bytes);
    } else {
        assert(percent_encode(bytes) =~= bytes);
    }
}

/// A text of dots is its own percent-encoding.
proof fn lemma_dots_encode_to_themselves(dots: Seq<char>)
    requires
        forall|i: int| 0 <= i < dots.len() ==> dots[i] == '.',
    ensures
        percent_encoded(dots) == dots,
{
    let bytes = encode_utf8(dots);
    assert(is_ascii_chars(dots));
    is_ascii_chars_encode_utf8(dots);
    assert forall|i: int| 0 <= i < bytes.len() implies #[trigger] bytes[i] == 0x2e by {
        assert(dots[i] == '.');
        assert(dots[i] as u8 == bytes[i]);
    }
    lemma_unreserved_bytes(bytes);
    assert(percent_encoded(dots) =~= dots) by {
        assert forall|i: int| 0 <= i < dots.len() implies percent_encoded(dots)[i] == dots[i] by {
            assert(bytes[i] == 0x2e);
        }
    }
}

/// No percent-encoding begins with the mark of the reserved titles.
pub proof fn lemma_percent_encoded_is_unmarked(title: Seq<char>)
    ensures
        !reserved_mark().is_prefix_of(percent_encoded(title)),
{
    let bytes = encode_utf8(title);
    let slug = percent_encoded(title);
    if slug.len() >= 3 {
        assert(bytes.len() > 0);
        let first = bytes[0];
        let head = escape_byte(first);
        let encoded = percent_encode(bytes);
        assert(encoded == head + percent_encode(bytes.skip(1)));
        assert(slug[0] == encoded[0] as char);
        assert(slug[1] == encoded[1] as char);
        assert(slug[2] == encoded[2] as char);
        lemma_percent_encode_chars(bytes);
        if is_unreserved(first) {
            assert(encoded[0] == first);
        } else {
            assert(encoded[0] == head[0] && encoded[1] == head[1] && encoded[2] == head[2]);
            let hi = first as int / 16;
            let lo = first as int % 16;
            if hex_digit(hi) == 0x35 && hex_digit(lo) == 0x46 {
                assert(hi == 5 && lo == 15);
                assert(first == 0x5f);
            }
        }
        assert(reserved_mark()[0] == '%' && reserved_mark()[1] == '5' && reserved_mark()[2] == 'F');
        if reserved_mark().is_prefix_of(slug) {
            assert(slug.subrange(0, 3)[0] == slug[0]);
            assert(slug.subrange(0, 3)[1] == slug[1]);
            assert(slug.subrange(0, 3)[2] == slug[2]);
        }
    }
}

/// Every slug is safe as the name of a directory and as a segment of a
/// URL's path.
pub proof fn lemma_slug_is_safe(title: Seq<char>)
    ensures
        is_safe_slug(encode_spec(title)),
{
    let slug = encode_spec(title);
    if is_reserved_title(title) {
        assert(slug.len() >= 3);
        assert(slug[0] == '%');
        assert forall|i: int| 0 <= i < slug.len() implies is_slug_char(#[trigger] slug[i]) by {
            if i >= 3 {
                assert(slug[i] == title[i - 3]);
            }
        }
    } else {
        lemma_percent_encoded_chars(title);
        lemma_percent_decoded_encoded(title);
        if slug.len() == 0 {
            assert(slug =~= Seq::<char>::empty());
            lemma_dots_encode_to_themselves(Seq::<char>::empty());
            lemma_percent_decoded_encoded(Seq::<char>::empty());
        }
        if slug == seq!['.'] {
            lemma_dots_encode_to_themselves(seq!['.']);
            lemma_percent_decoded_encoded(seq!['.']);
        }
        if slug == seq!['.', '.'] {
            lemma_dots_encode_to_themselves(seq!['.', '.']);
            lemma_percent_decoded_encoded(seq!['.', '.']);
        }
    }
}

/// Decoding the slug of a title gives the title back.
pub proof fn lemma_decode_encode(title: Seq<char>)
    ensures
        decode_spec(encode_spec(title)) == Some(title),
{
    if is_reserved_title(title) {
        let slug = reserved_mark() + title;
        assert(slug.subrange(0, 3) =~= reserved_mark());
        assert(slug.skip(3) =~= title);
    } else {
        lemma_percent_encoded_is_unmarked(title);
        lemma_percent_decoded_encoded(title);
    }
}

/// Two titles with the same slug are the same title.
pub proof fn lemma_encode_injective(a: Seq<char>, b: Seq<char>)
    requires
        encode_spec(a) == encode_spec(b),
    ensures
        a == b,
{
    lemma_decode_encode(a);
    lemma_decode_encode(b);
}

/// `std::string::FromUtf8Error`: the error of `urlencoding::decode`.
#[verifier::external_type_specification]
#[verifier::external_body]
pub struct ExFromUtf8Error(FromUtf8Error);

/// `urlencoding::encode`: the result consists of ASCII characters, one for
/// each byte of the percent-encoding of the argument's UTF-8 bytes.
#[verifier::external_body]
fn urlencoding_encode(title: &str) -> (slug: String)
    ensures
        slug@ == percent_encoded(title@),
{
    urlencoding::encode(title).into_owned()
}

/// `urlencoding::decode`: percent-decodes the argument's UTF-8 bytes and
/// reads the outcome as UTF-8; it fails exactly when the outcome is not
/// valid UTF-8.
#[verifier::external_body]
fn urlencoding_decode(slug: &str) -> (decoded: Result<String, FromUtf8Error>)
    ensures
        decoded is Ok <==> percent_decoded(slug@) is Some,
        decoded matches Ok(title) ==> percent_decoded(slug@) == Some(title@),
{
    urlencoding::decode(slug).map(|title| title.into_owned())
}

/// Whether a text is the empty title, `.` or `..`.
pub fn is_reserved(title: &str) -> (reserved: bool)
    ensures
        reserved == is_reserved_title(title@),
{
    let n = title.unicode_len();
    if n == 0 {
        true
    } else if n == 1 {
        title.get_char(0) == '.'
    } else if n == 2 {
        title.get_char(0) == '.' && title.get_char(1) == '.'
    } else {
        false
    }
}

/// Encodes a title as a slug. The slug is safe as the name of a
/// directory and as a segment of a URL's path, and `decode` gives the
/// title back.
pub fn encode(title: &str) -> (slug: String)
    ensures
        slug@ == encode_spec(title@),
        is_safe_slug(slug@),
        decode_spec(slug@) == Some(title@),
{
    proof {
        lemma_slug_is_safe(title@);
        lemma_decode_encode(title@);
    }
    if is_reserved(title) {
        proof {
            reveal_strlit("%5F");
            assert("%5F"@ =~= reserved_mark());
        }
        chain("%5F", title)
    } else {
        urlencoding_encode(title)
    }
}

/// Decodes a slug. The mark and a reserved title give that title. Any
/// other slug is percent-decoded: this succeeds exactly when the decoded
/// bytes are valid UTF-8, and then returns the text they encode.
pub fn decode(slug: &str) -> (decoded: Result<String, DecodeError>)
    ensures
        match decode_spec(slug@) {
            Some(title) => decoded matches Ok(text) && text@ == title,
            None => decoded == Err::<String, DecodeError>(DecodeError::InvalidUtf8),
        },
{
    let n = slug.unicode_len();
    if n >= 3 && slug.get_char(0) == '%' && slug.get_char(1) == '5' && slug.get_char(2) == 'F' {
        let rest = slug.substring_char(3, n);
        assert(rest@ =~= slug@.skip(3));
        assert(slug@.subrange(0, 3) =~= reserved_mark());
        if is_reserved(rest) {
            return Ok(rest.to_owned());
        }
    } else {
        assert(!reserved_mark().is_prefix_of(slug@)) by {
            if reserved_mark().is_prefix_of(slug@) {
                assert(slug@.subrange(0, 3)[0] == slug@[0]);
                assert(slug@.subrange(0, 3)[1] == slug@[1]);
                assert(slug@.subrange(0, 3)[2] == slug@[2]);
            }
        }
    }
    match urlencoding_decode(slug) {
        Ok(title) => Ok(title),
        Err(_) => Err(DecodeError::InvalidUtf8),
    }
}

} // verus!
