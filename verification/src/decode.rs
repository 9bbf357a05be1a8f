//! From the bytes of a response body to text: content codings are undone, then the bytes are
//! read as UTF-8, and where they are not UTF-8 as a legacy encoding.

use crate::header_list::{
    fields, first_value, get_header_value, law_the_first_of_a_name_is_found, HeaderList,
};
use crate::pairs::Pair;
use brotli::Decompressor;
use bytes::Bytes;
use encoding_rs::WINDOWS_1252;
use flate2::read::{DeflateDecoder, GzDecoder};
use std::io::Read;
use vstd::prelude::*;
use vstd::slice::slice_to_vec;
use vstd::utf8::{
    decode_first_codepoint, decode_utf8, encode_utf8, pop_first_scalar, valid_utf8,
};

verus! {

/// `bytes::Bytes`, carried as an opaque value.
#[verifier::external_type_specification]
#[verifier::external_body]
pub struct ExBytes(bytes::Bytes);

/// The bytes that a `Bytes` buffer holds.
pub uninterp spec fn contents(buffer: Bytes) -> Seq<u8>;

/// `Bytes::as_ref`: the buffer's bytes as a slice.
#[verifier::external_body]
pub(crate) fn byte_slice(buffer: &Bytes) -> (slice: &[u8])
    ensures
        slice@ == contents(*buffer),
{
    buffer.as_ref()
}

/// `String::from_utf8`: the text that the bytes encode, or nothing where they are not UTF-8.
#[verifier::external_body]
pub(crate) fn utf8_text(bytes: &[u8]) -> (text: Option<String>)
    ensures
        text.deep_view() == (if valid_utf8(bytes@) {
            Some(decode_utf8(bytes@))
        } else {
            None
        }),
{
    String::from_utf8(bytes.to_vec()).ok()
}

/// The text that comes of `len` bytes can be held in memory. Three bytes at most are needed for
/// each, and a buffer that grows may be of twice the length that it had.
pub open spec fn fits(len: nat) -> bool {
    4 * len + 32 <= isize::MAX
}

/// The text of the bytes can be had: they are UTF-8, and are their text's bytes, or the text that
/// comes of them can be held in memory.
pub open spec fn decodable(bytes: Seq<u8>) -> bool {
    valid_utf8(bytes) || fits(bytes.len())
}

/// The text that `String::from_utf8_lossy` makes of bytes.
pub uninterp spec fn utf8_lossy(bytes: Seq<u8>) -> Seq<char>;

/// `String::from_utf8_lossy`: UTF-8 is kept, and what is malformed is replaced. How much of it each
/// replacement character stands for is left to the name.
#[verifier::external_body]
fn lossy_text(bytes: &[u8]) -> (text: String)
    requires
        fits(bytes@.len()),
    ensures
        text@ == utf8_lossy(bytes@),
        valid_utf8(bytes@) ==> text@ == decode_utf8(bytes@),
{
    String::from_utf8_lossy(bytes).into_owned()
}

/// The bytes start with the byte order mark of UTF-8.
pub open spec fn utf8_marked(bytes: Seq<u8>) -> bool {
    bytes.len() >= 3 && bytes[0] == 0xEF && bytes[1] == 0xBB && bytes[2] == 0xBF
}

/// The bytes start with a byte order mark of UTF-16.
pub open spec fn utf16_marked(bytes: Seq<u8>) -> bool {
    bytes.len() >= 2 && (bytes[0] == 0xFF && bytes[1] == 0xFE || bytes[0] == 0xFE && bytes[1]
        == 0xFF)
}

/// The character that a byte stands for in windows-1252.
pub open spec fn windows_1252_char(byte: u8) -> char {
    if 0x80 <= byte < 0xA0 {
        seq![
            '\u{20AC}',
            '\u{0081}',
            '\u{201A}',
            '\u{0192}',
            '\u{201E}',
            '\u{2026}',
            '\u{2020}',
            '\u{2021}',
            '\u{02C6}',
            '\u{2030}',
            '\u{0160}',
            '\u{2039}',
            '\u{0152}',
            '\u{008D}',
            '\u{017D}',
            '\u{008F}',
            '\u{0090}',
            '\u{2018}',
            '\u{2019}',
            '\u{201C}',
            '\u{201D}',
            '\u{2022}',
            '\u{2013}',
            '\u{2014}',
            '\u{02DC}',
            '\u{2122}',
            '\u{0161}',
            '\u{203A}',
            '\u{0153}',
            '\u{009D}',
            '\u{017E}',
            '\u{0178}',
        ][byte - 0x80]
    } else {
        byte as char
    }
}

/// One character for each byte, as windows-1252 has it.
pub open spec fn windows_1252_text(bytes: Seq<u8>) -> Seq<char> {
    bytes.map_values(|byte: u8| windows_1252_char(byte))
}

/// The 16-bit units that follow a byte order mark of UTF-16, which tells the order of their bytes.
pub open spec fn utf16_units(bytes: Seq<u8>) -> Seq<int> {
    Seq::new(
        (bytes.len() / 2 - 1) as nat,
        |i: int|
            if bytes[0] == 0xFE {
                256 * bytes[2 * i + 2] + bytes[2 * i + 3]
            } else {
                256 * bytes[2 * i + 3] + bytes[2 * i + 2]
            },
    )
}

/// The text that 16-bit units encode, if they do: a unit is a character, but for surrogates, of
/// which a high one and a low one after it are a character together.
pub open spec fn units_text(units: Seq<int>) -> Option<Seq<char>>
    decreases units.len(),
{
    if units.len() == 0 {
        Some(Seq::empty())
    } else if !(0xD800 <= units[0] < 0xE000) {
        match units_text(units.skip(1)) {
            Some(rest) => Some(seq![units[0] as char] + rest),
            None => None,
        }
    } else if units[0] < 0xDC00 && units.len() >= 2 && 0xDC00 <= units[1] < 0xE000 {
        match units_text(units.skip(2)) {
            Some(rest) => Some(
                seq![(0x10000 + 0x400 * (units[0] - 0xD800) + (units[1] - 0xDC00)) as char] + rest,
            ),
            None => None,
        }
    } else {
        None
    }
}

/// The text of bytes that start with a byte order mark of UTF-16, if they are well formed.
pub open spec fn utf16_text(bytes: Seq<u8>) -> Option<Seq<char>> {
    if bytes.len() % 2 == 0 {
        units_text(utf16_units(bytes))
    } else {
        None
    }
}

/// `Encoding::decode` of windows-1252: a byte order mark, where there is one, decides the
/// encoding; without one every byte stands for a character. The second result tells whether
/// something malformed was replaced. What is put in the place of something malformed is left open.
#[verifier::external_body]
fn sniffed_text(bytes: &[u8]) -> (decoded: (String, bool))
    requires
        fits(bytes@.len()),
    ensures
        !utf8_marked(bytes@) && !utf16_marked(bytes@) ==> decoded.0@ == windows_1252_text(bytes@)
            && !decoded.1,
        utf8_marked(bytes@) ==> decoded.1 == !valid_utf8(bytes@.skip(3)),
        utf8_marked(bytes@) && !decoded.1 ==> decoded.0@ == decode_utf8(bytes@.skip(3)),
        utf16_marked(bytes@) ==> decoded.1 == (utf16_text(bytes@) is None),
        utf16_marked(bytes@) && !decoded.1 ==> decoded.0@ == utf16_text(bytes@)->Some_0,
{
    let (text, _, had_errors) = WINDOWS_1252.decode(bytes);
    (text.into_owned(), had_errors)
}

/// What flate2 makes of a gzip stream: the bytes, or the text of its error.
pub uninterp spec fn gzip_decoded(bytes: Seq<u8>) -> Result<Seq<u8>, Seq<char>>;

/// What flate2 makes of a raw deflate stream: the bytes, or the text of its error.
pub uninterp spec fn deflate_decoded(bytes: Seq<u8>) -> Result<Seq<u8>, Seq<char>>;

/// What brotli makes of a brotli stream: the bytes, or the text of its error.
pub uninterp spec fn brotli_decoded(bytes: Seq<u8>) -> Result<Seq<u8>, Seq<char>>;

/// `GzDecoder` over the bytes, read to its end. The result is named, not stated.
#[verifier::external_body]
fn gunzip(bytes: &[u8]) -> (decoded: Result<Vec<u8>, String>)
    ensures
        result_view(decoded) == gzip_decoded(bytes@),
{
    let mut buffer = Vec::new();
    let read = GzDecoder::new(bytes).read_to_end(&mut buffer);
    read.map(|_| buffer).map_err(|e| e.to_string())
}

/// `DeflateDecoder` over the bytes, read to its end. The result is named, not stated.
#[verifier::external_body]
fn inflate(bytes: &[u8]) -> (decoded: Result<Vec<u8>, String>)
    ensures
        result_view(decoded) == deflate_decoded(bytes@),
{
    let mut buffer = Vec::new();
    let read = DeflateDecoder::new(bytes).read_to_end(&mut buffer);
    read.map(|_| buffer).map_err(|e| e.to_string())
}

/// `Decompressor` of brotli over the bytes, read to its end. The result is named, not stated.
#[verifier::external_body]
fn unbrotli(bytes: &[u8]) -> (decoded: Result<Vec<u8>, String>)
    ensures
        result_view(decoded) == brotli_decoded(bytes@),
{
    let mut buffer = Vec::new();
    let read = Decompressor::new(bytes, 4096).read_to_end(&mut buffer);
    read.map(|_| buffer).map_err(|e| e.to_string())
}

/// Bytes or an error text, by their views.
pub open spec fn result_view(result: Result<Vec<u8>, String>) -> Result<Seq<u8>, Seq<char>> {
    match result {
        Ok(bytes) => Ok(bytes@),
        Err(message) => Err(message@),
    }
}

/// A text or an error text, by their views.
pub open spec fn text_view(result: Result<String, String>) -> Result<Seq<char>, Seq<char>> {
    match result {
        Ok(text) => Ok(text@),
        Err(message) => Err(message@),
    }
}

/// The text that bytes are read as. UTF-8 is taken as such. Anything else is windows-1252, but
/// for what starts with a byte order mark: that is UTF-16 where it is well formed, and UTF-8 with
/// replacements otherwise.
pub open spec fn decoded_text(bytes: Seq<u8>) -> Seq<char> {
    if valid_utf8(bytes) {
        decode_utf8(bytes)
    } else if utf16_marked(bytes) {
        match utf16_text(bytes) {
            Some(text) => text,
            None => utf8_lossy(bytes),
        }
    } else if utf8_marked(bytes) {
        utf8_lossy(bytes)
    } else {
        windows_1252_text(bytes)
    }
}

/// The second half of reading a text that is not UTF-8: `legacy` is what the legacy decoder
/// made of `bytes`, and it is kept unless the decoder had to replace something.
pub fn legacy_or_lossy(legacy: (String, bool), bytes: &[u8]) -> (text: String)
    requires
        fits(bytes@.len()),
    ensures
        text@ == (if legacy.1 {
            utf8_lossy(bytes@)
        } else {
            legacy.0@
        }),
{
    if !legacy.1 {
        return legacy.0;
    }
    lossy_text(bytes)
}

/// Reads bytes as text. This never fails.
pub fn decode_text(bytes: &[u8]) -> (text: Result<String, String>)
    requires
        decodable(bytes@),
    ensures
        text_view(text) == Ok::<Seq<char>, Seq<char>>(decoded_text(bytes@)),
{
    if let Some(text) = utf8_text(bytes) {
        return Ok(text);
    }
    proof {
        lemma_mark_is_utf8(bytes@);
    }
    Ok(legacy_or_lossy(sniffed_text(bytes), bytes))
}

/// Reads a body as text, whatever its headers say. This never fails.
pub fn decode_body(bytes: &Bytes) -> (text: Result<String, String>)
    requires
        decodable(contents(*bytes)),
    ensures
        text_view(text) == Ok::<Seq<char>, Seq<char>>(decoded_text(contents(*bytes))),
{
    decode_text(byte_slice(bytes))
}

/// Bytes that start with the mark of UTF-8 are UTF-8 where what follows the mark is.
proof fn lemma_mark_is_utf8(bytes: Seq<u8>)
    ensures
        utf8_marked(bytes) && valid_utf8(bytes.skip(3)) ==> valid_utf8(bytes),
{
    if utf8_marked(bytes) {
        assert((((0xEFu8 & 0x0F) as u32) << 12) | (((0xBBu8 & 0x3F) as u32) << 6) | ((0xBFu8
            & 0x3F) as u32) == 0xFEFFu32) by (bit_vector);
        assert(decode_first_codepoint(bytes) == 0xFEFFu32);
        assert(pop_first_scalar(bytes) =~= bytes.skip(3));
    }
}

/// The bytes of a body once the content coding that its headers name is undone, or the error text
/// of the decoder that failed. A coding that is not known leaves the bytes as they are.
pub open spec fn content(bytes: Seq<u8>, headers: Seq<Pair>) -> Result<Seq<u8>, Seq<char>> {
    match first_value(headers, "content-encoding"@) {
        Some(coding) => if coding == "gzip"@ {
            gzip_decoded(bytes)
        } else if coding == "deflate"@ {
            deflate_decoded(bytes)
        } else if coding == "br"@ {
            brotli_decoded(bytes)
        } else {
            Ok(bytes)
        },
        None => Ok(bytes),
    }
}

/// The text of a body that came with `headers`, or the error text of the decoder that failed.
pub open spec fn body_text(bytes: Seq<u8>, headers: Seq<Pair>) -> Result<Seq<char>, Seq<char>> {
    match content(bytes, headers) {
        Ok(plain) => Ok(decoded_text(plain)),
        Err(message) => Err(message),
    }
}

/// The text of the body can be had, once its content coding is undone.
pub open spec fn readable(bytes: Seq<u8>, headers: Seq<Pair>) -> bool {
    content(bytes, headers) is Ok ==> decodable(content(bytes, headers)->Ok_0)
}

/// Whether the text of bytes can be had.
pub fn is_decodable(bytes: &[u8]) -> (yes: bool)
    ensures
        yes == decodable(bytes@),
{
    bytes.len() <= (isize::MAX as usize - 32) / 4 || utf8_text(bytes).is_some()
}

/// Undoes the content coding that the headers name.
pub(crate) fn plain_content(bytes: &[u8], headers: &HeaderList) -> (plain: Result<Vec<u8>, String>)
    ensures
        result_view(plain) == content(bytes@, fields(*headers)),
{
    match get_header_value(headers, "content-encoding") {
        Some(coding) => if *coding == "gzip".to_owned() {
            gunzip(bytes)
        } else if *coding == "deflate".to_owned() {
            inflate(bytes)
        } else if *coding == "br".to_owned() {
            unbrotli(bytes)
        } else {
            Ok(slice_to_vec(bytes))
        },
        None => Ok(slice_to_vec(bytes)),
    }
}

/// Reads what came of undoing a content coding as text, and hands an error on.
pub fn text_of_content(plain: Result<Vec<u8>, String>) -> (text: Result<String, String>)
    requires
        plain is Ok ==> decodable(plain->Ok_0@),
    ensures
        text_view(text) == (match plain {
            Ok(bytes) => Ok(decoded_text(bytes@)),
            Err(message) => Err(message@),
        }),
{
    match plain {
        Ok(bytes) => decode_text(bytes.as_slice()),
        Err(message) => Err(message),
    }
}

/// Reads a body as text, undoing the content coding that its headers name.
pub fn decode_body_with_encoding(bytes: &Bytes, headers: &HeaderList) -> (text: Result<
    String,
    String,
>)
    requires
        readable(contents(*bytes), fields(*headers)),
    ensures
        text_view(text) == body_text(contents(*bytes), fields(*headers)),
{
    text_of_content(plain_content(byte_slice(bytes), headers))
}

/// Whether a body's text can be had.
pub fn is_readable(bytes: &Bytes, headers: &HeaderList) -> (yes: bool)
    ensures
        yes == readable(contents(*bytes), fields(*headers)),
{
    match plain_content(byte_slice(bytes), headers) {
        Ok(plain) => is_decodable(plain.as_slice()),
        Err(_) => true,
    }
}

/// Text that was sent as UTF-8 is read back as it was.
pub proof fn law_utf8_is_read_back(text: Seq<char>)
    ensures
        decoded_text(encode_utf8(text)) == text,
{
    broadcast use {vstd::utf8::encode_utf8_valid_utf8, vstd::utf8::encode_utf8_decode_utf8};

}

/// Text that was sent as UTF-8 under a content coding is read back as it was: where the coding is
/// undone to the text's bytes, the body's text is that text.
pub proof fn law_coded_utf8_is_read_back(text: Seq<char>, bytes: Seq<u8>, headers: Seq<Pair>)
    requires
        content(bytes, headers) == Ok::<Seq<u8>, Seq<char>>(encode_utf8(text)),
    ensures
        readable(bytes, headers),
        body_text(bytes, headers) == Ok::<Seq<char>, Seq<char>>(text),
{
    law_utf8_is_read_back(text);
    vstd::utf8::encode_utf8_valid_utf8(text);
}

/// Where no content coding that is undone here is named, the body's bytes are its text's bytes.
pub proof fn law_other_codings_are_left_alone(bytes: Seq<u8>, headers: Seq<Pair>)
    requires
        first_value(headers, "content-encoding"@) matches Some(coding) ==> coding != "gzip"@
            && coding != "deflate"@ && coding != "br"@,
    ensures
        body_text(bytes, headers) == Ok::<Seq<char>, Seq<char>>(decoded_text(bytes)),
{
}

/// Bytes without a byte order mark that are not UTF-8 give one character each, and none is
/// replaced.
pub proof fn law_unmarked_bytes_are_not_replaced(bytes: Seq<u8>)
    requires
        !valid_utf8(bytes),
        !utf8_marked(bytes),
        !utf16_marked(bytes),
    ensures
        decoded_text(bytes).len() == bytes.len(),
        forall|i: int|
            0 <= i < bytes.len() ==> #[trigger] decoded_text(bytes)[i] == windows_1252_char(
                bytes[i],
            ),
{
}

/// The first content coding alone decides what becomes of a body, whatever other fields its headers
/// have. `gzip`, `deflate` and `br` are undone by their decoders, whose errors are handed on; a body
/// under any other coding, or under none, is left as it is.
pub proof fn law_the_first_coding_alone_decides(bytes: Seq<u8>, headers: Seq<Pair>, i: int)
    requires
        0 <= i < headers.len(),
        headers[i].0 == "content-encoding"@,
        forall|j: int| 0 <= j < i ==> (#[trigger] headers[j]).0 != "content-encoding"@,
    ensures
        headers[i].1 == "gzip"@ ==> content(bytes, headers) == gzip_decoded(bytes),
        headers[i].1 == "deflate"@ ==> content(bytes, headers) == deflate_decoded(bytes),
        headers[i].1 == "br"@ ==> content(bytes, headers) == brotli_decoded(bytes),
        headers[i].1 != "gzip"@ && headers[i].1 != "deflate"@ && headers[i].1 != "br"@ ==> content(
            bytes,
            headers,
        ) == Ok::<Seq<u8>, Seq<char>>(bytes),
{
    law_the_first_of_a_name_is_found(headers, "content-encoding"@, i);
    reveal_strlit("gzip");
    reveal_strlit("deflate");
    reveal_strlit("br");
    assert("gzip"@.len() != "deflate"@.len());
    assert("gzip"@.len() != "br"@.len());
    assert("deflate"@.len() != "br"@.len());
}

/// A body without a content coding is left as it is, whatever its headers are.
pub proof fn law_an_uncoded_body_is_left_alone(bytes: Seq<u8>, headers: Seq<Pair>)
    requires
        forall|j: int|
            0 <= j < headers.len() ==> (#[trigger] headers[j]).0 != "content-encoding"@,
    ensures
        content(bytes, headers) == Ok::<Seq<u8>, Seq<char>>(bytes),
        body_text(bytes, headers) == Ok::<Seq<char>, Seq<char>>(decoded_text(bytes)),
{
    law_the_first_of_a_name_is_found(headers, "content-encoding"@, 0);
}

/// Two responses with the same body and the same first content coding, or none, have the same text.
pub proof fn law_other_fields_do_not_matter(bytes: Seq<u8>, one: Seq<Pair>, other: Seq<Pair>)
    requires
        first_value(one, "content-encoding"@) == first_value(other, "content-encoding"@),
    ensures
        content(bytes, one) == content(bytes, other),
        body_text(bytes, one) == body_text(bytes, other),
        readable(bytes, one) == readable(bytes, other),
{
}

/// The text of a body is the text of its bytes once its coding is undone, and it is an error just
/// where the decoder fails, with the decoder's words.
pub proof fn law_a_body_fails_with_its_decoder(bytes: Seq<u8>, headers: Seq<Pair>)
    ensures
        content(bytes, headers) matches Ok(plain) ==> body_text(bytes, headers) == Ok::<
            Seq<char>,
            Seq<char>,
        >(decoded_text(plain)),
        content(bytes, headers) matches Err(message) ==> body_text(bytes, headers) == Err::<
            Seq<char>,
            Seq<char>,
        >(message),
{
}

/// Every body can be read that is UTF-8, or not over a quarter of what can be held in memory, or
/// whose decoder fails.
pub proof fn law_bodies_can_be_read(bytes: Seq<u8>, headers: Seq<Pair>)
    ensures
        content(bytes, headers) is Err ==> readable(bytes, headers),
        content(bytes, headers) matches Ok(plain) ==> (valid_utf8(plain) || 4 * plain.len() + 32
            <= isize::MAX ==> readable(bytes, headers)),
        4 * bytes.len() + 32 <= isize::MAX || valid_utf8(bytes) ==> decodable(bytes),
{
}

/// Text, and an error, are seen in contracts as what they are.
pub proof fn law_results_are_seen_as_they_are(text: String, bytes: Vec<u8>, message: String)
    ensures
        text_view(Ok(text)) == Ok::<Seq<char>, Seq<char>>(text@),
        text_view(Err(message)) == Err::<Seq<char>, Seq<char>>(message@),
        result_view(Ok(bytes)) == Ok::<Seq<u8>, Seq<char>>(bytes@),
        result_view(Err(message)) == Err::<Seq<u8>, Seq<char>>(message@),
{
}

/// The 16-bit units that encode a character.
pub open spec fn char_units(c: char) -> Seq<int> {
    if (c as int) < 0x10000 {
        seq![c as int]
    } else {
        seq![0xD800 + (c as int - 0x10000) / 0x400, 0xDC00 + (c as int - 0x10000) % 0x400]
    }
}

/// The 16-bit units that encode a text.
pub open spec fn text_units(text: Seq<char>) -> Seq<int>
    decreases text.len(),
{
    if text.len() == 0 {
        Seq::empty()
    } else {
        char_units(text[0]) + text_units(text.skip(1))
    }
}

/// A text in UTF-16 with a byte order mark, the high byte of each unit first where `big` says so.
pub open spec fn utf16_encoded(text: Seq<char>, big: bool) -> Seq<u8> {
    let units = seq![0xFEFFint] + text_units(text);
    Seq::new(
        2 * units.len(),
        |i: int|
            if (i % 2 == 0) == big {
                (units[i / 2] / 256) as u8
            } else {
                (units[i / 2] % 256) as u8
            },
    )
}

/// A character is one unit that is no surrogate, or a high surrogate and a low one.
proof fn lemma_char_units(c: char)
    ensures
        char_units(c).len() == 1 ==> 0 <= char_units(c)[0] < 0x10000 && !(0xD800 <= char_units(c)[0]
            < 0xE000) && char_units(c)[0] as char == c,
        char_units(c).len() == 2 ==> 0xD800 <= char_units(c)[0] < 0xDC00 && 0xDC00 <= char_units(
            c,
        )[1] < 0xE000 && (0x10000 + 0x400 * (char_units(c)[0] - 0xD800) + (char_units(c)[1]
            - 0xDC00)) as char == c,
{
}

proof fn lemma_text_units_are_read_back(text: Seq<char>)
    ensures
        units_text(text_units(text)) == Some(text),
        forall|i: int|
            0 <= i < text_units(text).len() ==> 0 <= #[trigger] text_units(text)[i] < 0x10000,
    decreases text.len(),
{
    if text.len() > 0 {
        let c = text[0];
        let head = char_units(c);
        let rest = text_units(text.skip(1));
        lemma_char_units(c);
        let units = text_units(text);
        lemma_text_units_are_read_back(text.skip(1));
        assert(units.skip(head.len() as int) =~= rest);
        assert(units[0] == head[0]);
        if head.len() == 2 {
            assert(units[1] == head[1]);
        }
        assert forall|i: int| 0 <= i < units.len() implies 0 <= #[trigger] units[i] < 0x10000 by {
            if i < head.len() {
                assert(units[i] == head[i]);
            } else {
                assert(units[i] == rest[i - head.len()]);
            }
        }
        assert(seq![text[0]] + text.skip(1) =~= text);
    } else {
        assert(text =~= Seq::empty());
    }
}

proof fn lemma_read_units_are_text_units(units: Seq<int>)
    requires
        forall|i: int| 0 <= i < units.len() ==> 0 <= #[trigger] units[i] < 0x10000,
    ensures
        units_text(units) matches Some(text) ==> text_units(text) == units,
    decreases units.len(),
{
    if units.len() > 0 && units_text(units) is Some {
        let text = units_text(units)->Some_0;
        let n: int = if 0xD800 <= units[0] < 0xE000 {
            2
        } else {
            1
        };
        assert(forall|i: int|
            0 <= i < units.skip(n).len() ==> (#[trigger] units.skip(n)[i]) == units[i + n]);
        lemma_read_units_are_text_units(units.skip(n));
        let rest = units_text(units.skip(n))->Some_0;
        assert(text.skip(1) =~= rest);
        assert(char_units(text[0]) =~= units.take(n));
        assert(units =~= units.take(n) + units.skip(n));
    }
}

/// Text that was sent as UTF-16 with a byte order mark is read back as it was, in either order of
/// bytes.
pub proof fn law_utf16_is_read_back(text: Seq<char>, big: bool)
    ensures
        decoded_text(utf16_encoded(text, big)) == text,
{
    let bytes = utf16_encoded(text, big);
    let units = seq![0xFEFFint] + text_units(text);
    lemma_text_units_are_read_back(text);
    assert(bytes[0] == if big {
        0xFEu8
    } else {
        0xFFu8
    });
    assert(bytes[1] == if big {
        0xFFu8
    } else {
        0xFEu8
    });
    assert forall|i: int| 0 <= i < text_units(text).len() implies #[trigger] utf16_units(bytes)[i]
        == text_units(text)[i] by {
        assert(units[i + 1] == text_units(text)[i]);
        assert((2 * i + 2) / 2 == i + 1 && (2 * i + 3) / 2 == i + 1);
        assert((2 * i + 2) % 2 == 0 && (2 * i + 3) % 2 == 1);
    }
    assert(utf16_units(bytes) =~= text_units(text));
    lemma_utf16_is_not_utf8(bytes);
}

/// Bytes that start with a mark of UTF-16 are not UTF-8.
proof fn lemma_utf16_is_not_utf8(bytes: Seq<u8>)
    requires
        utf16_marked(bytes),
    ensures
        !valid_utf8(bytes),
{
    vstd::utf8::utf8_byte_ranges_bitwise(bytes[0]);
}

/// Bytes that start with a mark of UTF-16 and that no text is encoded as, and bytes that start with
/// a mark of UTF-8 and are not UTF-8, are read as UTF-8 with replacements.
pub proof fn law_malformed_marked_bytes_are_replaced(bytes: Seq<u8>)
    ensures
        utf16_marked(bytes) && (forall|text: Seq<char>, big: bool| #[trigger]
            utf16_encoded(text, big) != bytes) ==> decoded_text(bytes) == utf8_lossy(bytes),
        utf8_marked(bytes) && !valid_utf8(bytes) ==> decoded_text(bytes) == utf8_lossy(bytes),
        valid_utf8(bytes) ==> decoded_text(bytes) == decode_utf8(bytes),
{
    if utf16_marked(bytes) {
        lemma_utf16_is_not_utf8(bytes);
        if let Some(text) = utf16_text(bytes) {
            let units = utf16_units(bytes);
            let big = bytes[0] == 0xFE;
            lemma_read_units_are_text_units(units);
            let all = seq![0xFEFFint] + units;
            assert forall|i: int| 0 <= i < bytes.len() implies #[trigger] utf16_encoded(
                text,
                big,
            )[i] == bytes[i] by {
                if i >= 2 {
                    let k = i / 2 - 1;
                    assert(all[i / 2] == units[k]);
                    assert(i == 2 * k + 2 || i == 2 * k + 3);
                }
            }
            assert(utf16_encoded(text, big) =~= bytes);
        }
    }
}

} // verus!
