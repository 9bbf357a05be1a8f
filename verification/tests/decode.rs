use bytes::Bytes;
use flate2::write::{DeflateEncoder, GzEncoder};
use flate2::Compression;
use sharphttp::decode::{
    decode_body, decode_body_with_encoding, decode_text, is_readable, legacy_or_lossy,
    text_of_content,
};
use sharphttp::header_list::{list_of, HeaderList};
use std::io::Write;

fn headers(pairs: &[(&str, &str)]) -> HeaderList {
    list_of(pairs.iter().map(|(n, v)| (n.to_string(), v.to_string())).collect())
}

fn gzip(bytes: &[u8]) -> Vec<u8> {
    let mut encoder = GzEncoder::new(Vec::new(), Compression::default());
    encoder.write_all(bytes).unwrap();
    encoder.finish().unwrap()
}

fn deflate(bytes: &[u8]) -> Vec<u8> {
    let mut encoder = DeflateEncoder::new(Vec::new(), Compression::default());
    encoder.write_all(bytes).unwrap();
    encoder.finish().unwrap()
}

fn brotli(bytes: &[u8]) -> Vec<u8> {
    let mut out = Vec::new();
    {
        let mut writer = brotli::CompressorWriter::new(&mut out, 4096, 5, 22);
        writer.write_all(bytes).unwrap();
    }
    out
}

#[test]
fn utf8_is_kept() {
    let text = "gr\u{fc}\u{df} \u{1f680}";
    assert_eq!(decode_text(text.as_bytes()), Ok(text.to_string()));
    assert_eq!(decode_text(b""), Ok(String::new()));
}

#[test]
fn a_mark_of_utf8_is_kept_where_all_is_utf8() {
    assert_eq!(decode_text(b"\xEF\xBB\xBFhi"), Ok("\u{feff}hi".to_string()));
}

#[test]
fn other_bytes_are_windows_1252() {
    assert_eq!(decode_text(b"caf\xE9 \x80\x99\xFF"), Ok("caf\u{e9} \u{20ac}\u{2122}\u{ff}".to_string()));
}

#[test]
fn every_byte_of_windows_1252_is_read() {
    let bytes: Vec<u8> = (0x80..=0xFF).collect();
    let text = decode_text(&bytes).unwrap();
    let codes: Vec<u32> = text.chars().map(|c| c as u32).collect();
    let table = [
        0x20AC, 0x81, 0x201A, 0x192, 0x201E, 0x2026, 0x2020, 0x2021, 0x2C6, 0x2030, 0x160, 0x2039,
        0x152, 0x8D, 0x17D, 0x8F, 0x90, 0x2018, 0x2019, 0x201C, 0x201D, 0x2022, 0x2013, 0x2014,
        0x2DC, 0x2122, 0x161, 0x203A, 0x153, 0x9D, 0x17E, 0x178,
    ];
    assert_eq!(&codes[..32], &table[..]);
    assert_eq!(&codes[32..], &(0xA0u32..=0xFF).collect::<Vec<u32>>()[..]);
}

#[test]
fn a_mark_of_utf16_decides() {
    assert_eq!(decode_text(b"\xFF\xFEh\x00i\x00"), Ok("hi".to_string()));
    assert_eq!(decode_text(b"\xFE\xFF\x00h\x00i"), Ok("hi".to_string()));
    assert_eq!(decode_text(b"\xFE\xFF\xD8\x3D\xDE\x80\xFE\xFF"), Ok("\u{1f680}\u{feff}".to_string()));
    assert_eq!(decode_text(b"\xFF\xFE"), Ok(String::new()));
}

#[test]
fn malformed_bytes_after_a_mark_are_replaced() {
    assert_eq!(decode_text(b"\xEF\xBB\xBFa\xFF"), Ok("\u{feff}a\u{fffd}".to_string()));
    assert_eq!(decode_text(b"\xFF\xFE\x3D\xD8"), Ok("\u{fffd}\u{fffd}=\u{fffd}".to_string()));
    assert_eq!(decode_text(b"\xFF\xFE\x80\xDE\x3D\xD8").unwrap().chars().next(), Some('\u{fffd}'));
    assert_eq!(decode_text(b"\xFF\xFEa"), Ok("\u{fffd}\u{fffd}a".to_string()));
}

#[test]
fn a_clean_legacy_text_is_kept_and_another_is_not() {
    assert_eq!(legacy_or_lossy(("x".to_string(), false), b"\xFFy"), "x");
    assert_eq!(legacy_or_lossy(("x".to_string(), true), b"\xFFy"), "\u{fffd}y");
}

#[test]
fn a_body_without_headers_is_read_as_it_is() {
    let body = Bytes::from_static(b"caf\xE9");
    assert_eq!(decode_body(&body), Ok("caf\u{e9}".to_string()));
    assert_eq!(decode_body_with_encoding(&body, &headers(&[])), Ok("caf\u{e9}".to_string()));
}

#[test]
fn content_codings_are_undone() {
    let text = "hello hello hello \u{e9}";
    for (coding, bytes) in [
        ("gzip", gzip(text.as_bytes())),
        ("deflate", deflate(text.as_bytes())),
        ("br", brotli(text.as_bytes())),
    ] {
        let headers = headers(&[("server", "x"), ("content-encoding", coding)]);
        let body = Bytes::from(bytes);
        assert!(is_readable(&body, &headers));
        assert_eq!(decode_body_with_encoding(&body, &headers), Ok(text.to_string()));
    }
}

#[test]
fn legacy_text_is_read_after_the_coding_is_undone() {
    let body = Bytes::from(gzip(b"caf\xE9"));
    let headers = headers(&[("content-encoding", "gzip")]);
    assert_eq!(decode_body_with_encoding(&body, &headers), Ok("caf\u{e9}".to_string()));
}

#[test]
fn other_codings_are_left_alone() {
    let body = Bytes::from_static(b"plain");
    for coding in ["identity", "GZIP", "gzip, br", ""] {
        let headers = headers(&[("content-encoding", coding)]);
        assert_eq!(decode_body_with_encoding(&body, &headers), Ok("plain".to_string()));
    }
    let named_otherwise = headers(&[("Content-Encoding", "gzip")]);
    assert_eq!(decode_body_with_encoding(&body, &named_otherwise), Ok("plain".to_string()));
}

#[test]
fn the_first_coding_counts() {
    let body = Bytes::from(gzip(b"hello"));
    let headers = headers(&[("content-encoding", "gzip"), ("content-encoding", "br")]);
    assert_eq!(decode_body_with_encoding(&body, &headers), Ok("hello".to_string()));
}

#[test]
fn a_broken_stream_is_an_error() {
    let body = Bytes::from_static(b"not compressed");
    let message = |coding: &str| {
        decode_body_with_encoding(&body, &headers(&[("content-encoding", coding)])).unwrap_err()
    };
    assert_eq!(message("gzip"), "invalid gzip header");
    assert_eq!(message("deflate"), "corrupt deflate stream");
    assert_eq!(message("br"), "Invalid Data");
    let cut = gzip(b"hello hello hello");
    let cut = Bytes::from(cut[..cut.len() - 12].to_vec());
    assert!(decode_body_with_encoding(&cut, &headers(&[("content-encoding", "gzip")])).is_err());
}

#[test]
fn an_error_is_handed_on() {
    assert_eq!(text_of_content(Err("e".to_string())), Err("e".to_string()));
    assert_eq!(text_of_content(Ok(b"\xE9".to_vec())), Ok("\u{e9}".to_string()));
}
