//! `file://` references for absolute paths, with percent-encoding of every
//! byte that is not a letter, a digit or one of `-_.~/`.

use vstd::prelude::*;
use vstd::string::StringSliceAdditionalSpecFns;
use vstd::utf8::*;

use crate::text::{
    ascii_bytes, ascii_chars, copy_range, lemma_ascii_chars_encoding, lemma_ascii_encoding,
    lemma_ascii_prefix_boundary, push_char, string_from_utf8,
};

verus! {

/// Whether a path byte may appear in a file reference without escaping:
/// an ASCII letter or digit, `-`, `.`, `_`, `~` or `/`.
pub open spec fn unreserved(b: u8) -> bool {
    ||| (0x30 <= b && b <= 0x39)
    ||| (0x41 <= b && b <= 0x5a)
    ||| (0x61 <= b && b <= 0x7a)
    ||| b == 0x2d
    ||| b == 0x2e
    ||| b == 0x5f
    ||| b == 0x7e
    ||| b == 0x2f
}

/// The uppercase hexadecimal digit for a nibble; `?` for anything larger.
pub open spec fn hex_digit(nibble: u8) -> char {
    if nibble < 10 {
        ((48 + nibble) as u8) as char
    } else if nibble < 16 {
        ((55 + nibble) as u8) as char
    } else {
        '?'
    }
}

/// The value of a hexadecimal digit of either case.
pub open spec fn hex_digit_value(b: u8) -> Option<u8> {
    if 0x30 <= b && b <= 0x39 {
        Some((b - 0x30) as u8)
    } else if 0x61 <= b && b <= 0x66 {
        Some((b - 0x61 + 10) as u8)
    } else if 0x41 <= b && b <= 0x46 {
        Some((b - 0x41 + 10) as u8)
    } else {
        None
    }
}

/// Whether `b` may stay unescaped in a file reference.
pub fn is_unreserved_path_byte(b: u8) -> (r: bool)
    ensures
        r == unreserved(b),
{
    (0x30 <= b && b <= 0x39) || (0x41 <= b && b <= 0x5a) || (0x61 <= b && b <= 0x7a) || b == 0x2d
        || b == 0x2e || b == 0x5f || b == 0x7e || b == 0x2f
}

/// The uppercase hexadecimal digit of a nibble (`?` above 15).
pub fn hex_upper(nibble: u8) -> (r: char)
    ensures
        r == hex_digit(nibble),
{
    if nibble < 10 {
        (0x30 + nibble) as char
    } else if nibble < 16 {
        (0x41 + (nibble - 10)) as char
    } else {
        '?'
    }
}

/// The value of a hexadecimal digit, accepting both cases.
pub fn hex_value(b: u8) -> (r: Option<u8>)
    ensures
        r == hex_digit_value(b),
{
    if 0x30 <= b && b <= 0x39 {
        Some(b - 0x30)
    } else if 0x61 <= b && b <= 0x66 {
        Some(b - 0x61 + 10)
    } else if 0x41 <= b && b <= 0x46 {
        Some(b - 0x41 + 10)
    } else {
        None
    }
}

/// How one path byte is written in a file reference: as itself when
/// unreserved, otherwise as `%` and two uppercase hexadecimal digits.
pub open spec fn escape_byte(b: u8) -> Seq<char> {
    if unreserved(b) {
        seq![b as char]
    } else {
        seq!['%', hex_digit(b / 16), hex_digit(b % 16)]
    }
}

/// The percent-encoded form of a byte sequence.
pub open spec fn percent_encoded(b: Seq<u8>) -> Seq<char>
    decreases b.len(),
{
    if b.len() == 0 {
        seq![]
    } else {
        escape_byte(b[0]) + percent_encoded(b.drop_first())
    }
}

pub proof fn lemma_percent_encoded_push(b: Seq<u8>, x: u8)
    ensures
        percent_encoded(b.push(x)) == percent_encoded(b) + escape_byte(x),
    decreases b.len(),
{
    if b.len() == 0 {
        assert(b.push(x).drop_first() =~= seq![]);
        assert(percent_encoded(b.push(x).drop_first()) =~= seq![]);
        assert(b.push(x)[0] == x);
        assert(percent_encoded(b.push(x)) =~= escape_byte(x));
        assert(percent_encoded(b) =~= seq![]);
        assert(percent_encoded(b) + escape_byte(x) =~= escape_byte(x));
    } else {
        assert(b.push(x).drop_first() =~= b.drop_first().push(x));
        assert(b.push(x)[0] == b[0]);
        lemma_percent_encoded_push(b.drop_first(), x);
        assert(percent_encoded(b.push(x)) =~= escape_byte(b[0]) + (percent_encoded(b.drop_first())
            + escape_byte(x)));
    }
}

/// Appends the percent-encoded form of `bytes` to `out`.
fn push_percent_encoded(out: &mut String, bytes: &[u8])
    ensures
        final(out)@ == old(out)@ + percent_encoded(bytes@),
{
    let ghost start = out@;
    let mut i: usize = 0;
    while i < bytes.len()
        invariant
            i <= bytes@.len(),
            out@ == start + percent_encoded(bytes@.subrange(0, i as int)),
        decreases bytes@.len() - i,
    {
        let b = bytes[i];
        proof {
            assert(bytes@.subrange(0, i + 1) =~= bytes@.subrange(0, i as int).push(b));
            lemma_percent_encoded_push(bytes@.subrange(0, i as int), b);
        }
        if is_unreserved_path_byte(b) {
            push_char(out, b as char);
        } else {
            assert(b >> 4 == b / 16 && b & 0x0f == b % 16) by (bit_vector);
            push_char(out, '%');
            push_char(out, hex_upper(b >> 4));
            push_char(out, hex_upper(b & 0x0f));
        }
        assert(out@ =~= start + percent_encoded(bytes@.subrange(0, i + 1)));
        i += 1;
    }
    assert(bytes@.subrange(0, bytes@.len() as int) =~= bytes@);
}

/// Percent-encodes the UTF-8 bytes of a path.
pub fn percent_encode_path(path: &str) -> (r: String)
    ensures
        r@ == percent_encoded(path.spec_bytes()),
{
    let mut encoded = String::new();
    push_percent_encoded(&mut encoded, path.as_bytes());
    encoded
}

/// The bytes that a percent-encoded sequence stands for: `%` with two
/// hexadecimal digits (of either case) is one byte, any other byte is
/// itself; `None` where a `%` is not followed by two hexadecimal digits.
pub open spec fn percent_decoded(b: Seq<u8>) -> Option<Seq<u8>>
    decreases b.len(),
{
    if b.len() == 0 {
        Some(seq![])
    } else if b[0] == 0x25 {
        if b.len() < 3 {
            None
        } else {
            match (hex_digit_value(b[1]), hex_digit_value(b[2])) {
                (Some(hi), Some(lo)) => match percent_decoded(b.subrange(3, b.len() as int)) {
                    Some(rest) => Some(seq![(hi * 16 + lo) as u8] + rest),
                    None => None,
                },
                _ => None,
            }
        }
    } else {
        match percent_decoded(b.drop_first()) {
            Some(rest) => Some(seq![b[0]] + rest),
            None => None,
        }
    }
}

/// The path text of a percent-encoded sequence: `None` where it does not
/// decode, or decodes to bytes that are not UTF-8.
pub open spec fn decoded_text(b: Seq<u8>) -> Option<Seq<char>> {
    match percent_decoded(b) {
        Some(d) => if valid_utf8(d) {
            Some(decode_utf8(d))
        } else {
            None
        },
        None => None,
    }
}

/// Decodes `bytes[start..]`.
fn decode_percent_from(bytes: &[u8], start: usize) -> (r: Option<Vec<u8>>)
    requires
        start <= bytes@.len(),
    ensures
        match r {
            Some(v) => percent_decoded(bytes@.subrange(start as int, bytes@.len() as int)) == Some(
                v@,
            ),
            None => percent_decoded(bytes@.subrange(start as int, bytes@.len() as int)) is None,
        },
{
    let ghost whole = bytes@.subrange(start as int, bytes@.len() as int);
    let mut i: usize = start;
    let mut decoded: Vec<u8> = Vec::new();
    while i < bytes.len()
        invariant
            start <= i <= bytes@.len(),
            whole == bytes@.subrange(start as int, bytes@.len() as int),
            percent_decoded(whole) == match percent_decoded(
                bytes@.subrange(i as int, bytes@.len() as int),
            ) {
                Some(rest) => Some(decoded@ + rest),
                None => None,
            },
        decreases bytes@.len() - i,
    {
        let ghost tail = bytes@.subrange(i as int, bytes@.len() as int);
        assert(tail[0] == bytes@[i as int]);
        if bytes[i] == 0x25 {
            if bytes.len() - i < 3 {
                return None;
            }
            let hi = match hex_value(bytes[i + 1]) {
                Some(h) => h,
                None => {
                    assert(tail[1] == bytes@[i + 1]);
                    return None;
                },
            };
            let lo = match hex_value(bytes[i + 2]) {
                Some(l) => l,
                None => {
                    assert(tail[1] == bytes@[i + 1] && tail[2] == bytes@[i + 2]);
                    return None;
                },
            };
            assert(tail[1] == bytes@[i + 1] && tail[2] == bytes@[i + 2]);
            assert(hi < 16 && lo < 16);
            assert((hi << 4) | lo == hi * 16 + lo) by (bit_vector)
                requires
                    hi < 16 && lo < 16,
            ;
            decoded.push((hi << 4) | lo);
            assert(tail.subrange(3, tail.len() as int) =~= bytes@.subrange(
                i + 3,
                bytes@.len() as int,
            ));
            i += 3;
        } else {
            decoded.push(bytes[i]);
            assert(tail.drop_first() =~= bytes@.subrange(i + 1, bytes@.len() as int));
            i += 1;
        }
        proof {
            let now = bytes@.subrange(i as int, bytes@.len() as int);
            if let Some(rest) = percent_decoded(now) {
                assert(decoded@ + rest =~= decoded@.drop_last() + (seq![decoded@.last()] + rest));
            }
        }
    }
    assert(percent_decoded(bytes@.subrange(i as int, bytes@.len() as int)) == Some(
        Seq::<u8>::empty(),
    ));
    assert(decoded@ + Seq::<u8>::empty() =~= decoded@);
    Some(decoded)
}

/// Decodes a percent-encoded path; `None` where an escape is malformed or
/// the decoded bytes are not UTF-8.
pub fn percent_decode_path(path: &str) -> (r: Option<String>)
    ensures
        match r {
            Some(s) => decoded_text(path.spec_bytes()) == Some(s@),
            None => decoded_text(path.spec_bytes()) is None,
        },
{
    let bytes = path.as_bytes();
    assert(bytes@.subrange(0, bytes@.len() as int) =~= bytes@);
    match decode_percent_from(bytes, 0) {
        Some(d) => {
            let r = string_from_utf8(d);
            proof {
                if r is Some {
                    encode_utf8_decode_utf8(r->0@);
                }
            }
            r
        },
        None => None,
    }
}

/// What the URI parser of `lsp_types` (fluent-uri) accepts as a URI
/// reference.
pub uninterp spec fn is_uri_reference(text: Seq<char>) -> bool;

/// Relies on `<lsp_types::Uri as FromStr>::from_str`, which validates the
/// text as a URI reference and keeps it as it is; it panics on texts longer
/// than `i32::MAX` bytes.
#[verifier::external_body]
fn uri_text_parses(text: &str) -> (r: bool)
    requires
        text.spec_bytes().len() <= i32::MAX,
    ensures
        r == is_uri_reference(text@),
{
    text.parse::<lsp_types::Uri>().is_ok()
}

/// Whether a text can serve as a URI: short enough for the parser, and
/// accepted by it.
pub open spec fn acceptable_uri(text: Seq<char>) -> bool {
    encode_utf8(text).len() <= i32::MAX && is_uri_reference(text)
}

/// The bytes of `file://`.
pub open spec fn file_scheme_bytes() -> Seq<u8> {
    seq![0x66u8, 0x69, 0x6c, 0x65, 0x3a, 0x2f, 0x2f]
}

/// `file://`.
pub open spec fn file_scheme() -> Seq<char> {
    ascii_chars(file_scheme_bytes())
}

/// Whether the UTF-8 bytes of a path start with `/`.
pub open spec fn is_absolute(path: Seq<u8>) -> bool {
    path.len() > 0 && path[0] == 0x2f
}

/// The reference text for a path: `file://` and its percent-encoded bytes.
pub open spec fn file_uri_text(path: Seq<char>) -> Seq<char> {
    file_scheme() + percent_encoded(encode_utf8(path))
}

/// The part of a reference after a leading `file://`, if there is one.
pub open spec fn without_file_scheme(b: Seq<u8>) -> Seq<u8> {
    if b.len() >= 7 && b.subrange(0, 7) == file_scheme_bytes() {
        b.subrange(7, b.len() as int)
    } else {
        b
    }
}

/// The path bytes that a reference names: the part after `file://`,
/// percent-decoded where that gives UTF-8, and as it stands otherwise.
pub open spec fn path_bytes_of_uri(b: Seq<u8>) -> Seq<u8> {
    let rest = without_file_scheme(b);
    match percent_decoded(rest) {
        Some(d) => if valid_utf8(d) {
            d
        } else {
            rest
        },
        None => rest,
    }
}

/// The path that a reference names.
pub open spec fn path_of_uri(text: Seq<char>) -> Seq<char> {
    decode_utf8(path_bytes_of_uri(encode_utf8(text)))
}

/// Why a path has no file reference.
#[derive(Debug, Clone, Copy, PartialEq, Eq)]
pub enum UriError {
    /// The path does not start at the root.
    NotAbsolute,
    /// The encoded reference is not accepted as a URI.
    Invalid,
}

/// A URI reference accepted by the parser, such as `file:///tmp/a.rs`.
pub struct FileUri {
    text: String,
}

impl View for FileUri {
    type V = Seq<char>;

    closed spec fn view(&self) -> Seq<char> {
        self.text@
    }
}

impl FileUri {
    /// Accepts a URI text (for instance one that the server sent back).
    pub fn parse(text: &str) -> (r: Option<FileUri>)
        ensures
            r is Some <==> acceptable_uri(text@),
            r matches Some(u) ==> u@ == text@,
    {
        if text.as_bytes().len() <= i32::MAX as usize && uri_text_parses(text) {
            Some(FileUri { text: text.to_owned() })
        } else {
            None
        }
    }

    /// The reference as text.
    pub fn as_str(&self) -> (r: &str)
        ensures
            r@ == self@,
    {
        self.text.as_str()
    }
}

/// Whether `b` starts with `file://`.
fn has_file_scheme(b: &[u8]) -> (r: bool)
    ensures
        r == (b@.len() >= 7 && b@.subrange(0, 7) == file_scheme_bytes()),
{
    let r = b.len() >= 7 && b[0] == 0x66 && b[1] == 0x69 && b[2] == 0x6c && b[3] == 0x65 && b[4]
        == 0x3a && b[5] == 0x2f && b[6] == 0x2f;
    proof {
        if b@.len() >= 7 {
            if r {
                assert(b@.subrange(0, 7) =~= file_scheme_bytes());
            } else if b@.subrange(0, 7) == file_scheme_bytes() {
                assert(b@.subrange(0, 7)[0] == b@[0]);
                assert(b@.subrange(0, 7)[6] == b@[6]);
            }
        }
    }
    r
}

/// Whether a path starts at the root (`/`).
pub fn is_absolute_path(path: &str) -> (r: bool)
    ensures
        r == is_absolute(path.spec_bytes()),
{
    let bytes = path.as_bytes();
    bytes.len() > 0 && bytes[0] == 0x2f
}

/// The `file://` reference of an absolute path, with every byte other than
/// a letter, a digit or `-_.~/` percent-encoded.
pub fn file_uri(path: &str) -> (r: Result<FileUri, UriError>)
    ensures
        r is Ok <==> is_absolute(path.spec_bytes()) && acceptable_uri(file_uri_text(path@)),
        r == Err::<FileUri, UriError>(UriError::NotAbsolute) <==> !is_absolute(path.spec_bytes()),
        r matches Ok(u) ==> u@ == file_uri_text(path@),
{
    if !is_absolute_path(path) {
        return Err(UriError::NotAbsolute);
    }
    let bytes = path.as_bytes();
    let mut text = String::new();
    push_char(&mut text, 'f');
    push_char(&mut text, 'i');
    push_char(&mut text, 'l');
    push_char(&mut text, 'e');
    push_char(&mut text, ':');
    push_char(&mut text, '/');
    push_char(&mut text, '/');
    assert(text@ =~= file_scheme());
    push_percent_encoded(&mut text, bytes);
    match FileUri::parse(text.as_str()) {
        Some(u) => Ok(u),
        None => Err(UriError::Invalid),
    }
}

/// The path that a reference names: the part after `file://` (all of it if
/// that prefix is missing), percent-decoded, or as it stands where it does
/// not decode to UTF-8.
pub fn uri_to_path(uri: &FileUri) -> (r: String)
    ensures
        r@ == path_of_uri(uri@),
{
    let s = uri.as_str();
    let bytes = s.as_bytes();
    proof {
        encode_utf8_valid_utf8(s@);
    }
    let start: usize = if has_file_scheme(bytes) {
        7
    } else {
        0
    };
    let ghost rest = bytes@.subrange(start as int, bytes@.len() as int);
    assert(rest == without_file_scheme(bytes@)) by {
        if start == 0 {
            assert(rest =~= bytes@);
        }
    }
    if let Some(d) = decode_percent_from(bytes, start) {
        if let Some(p) = string_from_utf8(d) {
            proof {
                encode_utf8_decode_utf8(p@);
            }
            return p;
        }
    }
    proof {
        if start == 7 {
            assert forall|i: int| 0 <= i < 7 implies #[trigger] bytes@[i] < 0x80 by {
                assert(bytes@[i] == bytes@.subrange(0, 7)[i]);
            }
            lemma_ascii_prefix_boundary(bytes@, 7);
            valid_utf8_split(bytes@, 7);
        } else {
            assert(rest =~= bytes@);
        }
    }
    match string_from_utf8(copy_range(bytes, start, bytes.len())) {
        Some(p) => {
            proof {
                encode_utf8_decode_utf8(p@);
            }
            p
        },
        None => String::new(),
    }
}

proof fn lemma_hex_digit_round_trip(n: u8)
    requires
        n < 16,
    ensures
        hex_digit_value(hex_digit(n) as u8) == Some(n),
        '\0' <= hex_digit(n) <= '\u{7f}',
        hex_digit(n) as u8 != 0x25,
{
}

proof fn lemma_escape_byte_ascii(x: u8)
    ensures
        is_ascii_chars(escape_byte(x)),
{
    if !unreserved(x) {
        lemma_hex_digit_round_trip(x / 16);
        lemma_hex_digit_round_trip(x % 16);
    }
}

proof fn lemma_percent_encoded_ascii(b: Seq<u8>)
    ensures
        is_ascii_chars(percent_encoded(b)),
    decreases b.len(),
{
    if b.len() > 0 {
        lemma_escape_byte_ascii(b[0]);
        lemma_percent_encoded_ascii(b.drop_first());
        is_ascii_chars_concat(
            percent_encoded(b),
            escape_byte(b[0]),
            percent_encoded(b.drop_first()),
        );
    }
}

proof fn lemma_percent_decoded_encoded(b: Seq<u8>)
    ensures
        percent_decoded(ascii_bytes(percent_encoded(b))) == Some(b),
    decreases b.len(),
{
    if b.len() == 0 {
        assert(ascii_bytes(percent_encoded(b)) =~= seq![]);
    } else {
        let x = b[0];
        let rest = b.drop_first();
        let e = ascii_bytes(percent_encoded(b));
        let tail = ascii_bytes(percent_encoded(rest));
        lemma_percent_decoded_encoded(rest);
        assert(e =~= ascii_bytes(escape_byte(x)) + tail);
        if unreserved(x) {
            assert(e[0] == x);
            assert(e.drop_first() =~= tail);
            assert(seq![x] + rest =~= b);
        } else {
            let hi = x / 16;
            let lo = x % 16;
            lemma_hex_digit_round_trip(hi);
            lemma_hex_digit_round_trip(lo);
            assert(e[0] == 0x25);
            assert(e[1] == hex_digit(hi) as u8);
            assert(e[2] == hex_digit(lo) as u8);
            assert(e.subrange(3, e.len() as int) =~= tail);
            assert((hi * 16 + lo) as u8 == x);
            assert(seq![x] + rest =~= b);
        }
    }
}

/// Turning a path into its file reference and taking the path back out of
/// that reference gives back the same path, whatever characters it holds.
pub proof fn lemma_path_round_trip(path: Seq<char>)
    ensures
        path_of_uri(file_uri_text(path)) == path,
{
    let b = encode_utf8(path);
    let enc = percent_encoded(b);
    let text = file_uri_text(path);
    lemma_ascii_encoding(file_scheme_bytes());
    lemma_percent_encoded_ascii(b);
    is_ascii_chars_concat(text, file_scheme(), enc);
    lemma_ascii_chars_encoding(text);
    lemma_ascii_chars_encoding(enc);
    let tb = encode_utf8(text);
    assert(tb =~= file_scheme_bytes() + ascii_bytes(enc));
    assert(tb.subrange(0, 7) =~= file_scheme_bytes());
    assert(without_file_scheme(tb) =~= ascii_bytes(enc));
    lemma_percent_decoded_encoded(b);
    encode_utf8_valid_utf8(path);
    encode_utf8_decode_utf8(path);
}

} // verus!
