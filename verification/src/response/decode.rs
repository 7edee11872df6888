//! Conversion of response bytes in various text encodings to text.

use vstd::prelude::*;
use vstd::utf8::{decode_utf8, valid_utf8};

verus! {

/// The legacy encodings tried, in order, when response bytes are not UTF-8.
#[derive(Debug, Clone, Copy, PartialEq, Eq)]
pub enum TextEncoding {
    /// Windows-1252 (covers ISO-8859-1 plus extras)
    Windows1252,
    /// ISO-8859-15 (Latin-9)
    Iso8859_15,
    /// ISO-8859-2 (Central European)
    Iso8859_2,
    /// UTF-16, little-endian
    Utf16Le,
    /// UTF-16, big-endian
    Utf16Be,
}

/// What `encoding_rs::Encoding::decode` gives for an encoding and input:
/// the text and whether malformed sequences were replaced.
pub uninterp spec fn legacy_decode(enc: TextEncoding, data: Seq<u8>) -> (Seq<char>, bool);

/// What `String::from_utf8_lossy` gives for an input.
pub uninterp spec fn lossy_utf8(data: Seq<u8>) -> Seq<char>;

/// Decodes `data` with one of the legacy encodings by
/// `encoding_rs::Encoding::decode` (which also honours a byte-order mark).
/// The contract only names the result; nothing is stated of its content.
#[verifier::external_body]
fn decode_legacy(enc: TextEncoding, data: &[u8]) -> (r: (String, bool))
    ensures
        (r.0@, r.1) == legacy_decode(enc, data@),
{
    let e = match enc {
        TextEncoding::Windows1252 => encoding_rs::WINDOWS_1252,
        TextEncoding::Iso8859_15 => encoding_rs::ISO_8859_15,
        TextEncoding::Iso8859_2 => encoding_rs::ISO_8859_2,
        TextEncoding::Utf16Le => encoding_rs::UTF_16LE,
        TextEncoding::Utf16Be => encoding_rs::UTF_16BE,
    };
    let (text, _, had_errors) = e.decode(data);
    (text.into_owned(), had_errors)
}

/// `std::str::from_utf8`: succeeds exactly on valid UTF-8, giving the
/// characters it encodes.
#[verifier::external_body]
fn utf8_text(data: &[u8]) -> (r: Option<String>)
    ensures
        r is Some <==> valid_utf8(data@),
        r matches Some(s) ==> s@ == decode_utf8(data@),
{
    std::str::from_utf8(data).ok().map(|s| s.to_owned())
}

/// `String::from_utf8_lossy`: valid UTF-8 gives the characters it encodes;
/// for other input the result (with replacement characters) is only named.
#[verifier::external_body]
pub(crate) fn utf8_lossy(data: &[u8]) -> (r: String)
    ensures
        r@ == lossy_utf8(data@),
        valid_utf8(data@) ==> r@ == decode_utf8(data@),
{
    String::from_utf8_lossy(data).into_owned()
}

/// The text of response bytes: UTF-8 when valid, else the first legacy
/// decoding without errors (Windows-1252, ISO-8859-15, ISO-8859-2,
/// UTF-16LE, UTF-16BE), else lossy UTF-8.
pub open spec fn decoded_text(data: Seq<u8>) -> Seq<char> {
    if valid_utf8(data) {
        decode_utf8(data)
    } else if !legacy_decode(TextEncoding::Windows1252, data).1 {
        legacy_decode(TextEncoding::Windows1252, data).0
    } else if !legacy_decode(TextEncoding::Iso8859_15, data).1 {
        legacy_decode(TextEncoding::Iso8859_15, data).0
    } else if !legacy_decode(TextEncoding::Iso8859_2, data).1 {
        legacy_decode(TextEncoding::Iso8859_2, data).0
    } else if !legacy_decode(TextEncoding::Utf16Le, data).1 {
        legacy_decode(TextEncoding::Utf16Le, data).0
    } else if !legacy_decode(TextEncoding::Utf16Be, data).1 {
        legacy_decode(TextEncoding::Utf16Be, data).0
    } else {
        lossy_utf8(data)
    }
}

/// Convert bytes with various text encodings to a UTF-8 string.
pub fn decode_text_with_encoding(data: &[u8]) -> (r: String)
    ensures
        r@ == decoded_text(data@),
{
    if let Some(s) = utf8_text(data) {
        return s;
    }
    let (t, e) = decode_legacy(TextEncoding::Windows1252, data);
    if !e {
        return t;
    }
    let (t, e) = decode_legacy(TextEncoding::Iso8859_15, data);
    if !e {
        return t;
    }
    let (t, e) = decode_legacy(TextEncoding::Iso8859_2, data);
    if !e {
        return t;
    }
    let (t, e) = decode_legacy(TextEncoding::Utf16Le, data);
    if !e {
        return t;
    }
    let (t, e) = decode_legacy(TextEncoding::Utf16Be, data);
    if !e {
        return t;
    }
    utf8_lossy(data)
}

} // verus!
