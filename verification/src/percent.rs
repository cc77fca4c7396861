//! The percent-encoding crate, as the library uses it: decoding Commons
//! file names out of `Special:FilePath` URLs and encoding them back into
//! URL path segments. The encoding is `utf8_percent_encode` with the
//! control set plus ` `, `"`, `#`, `?` and `%`, whose whole behaviour the
//! few lines of `segment_encoded` state; it is written and proved here.

use vstd::prelude::*;


verus! {

/// What `percent_decode_str(s).decode_utf8_lossy()` returns for `s`.
pub uninterp spec fn percent_decoded_lossy(s: Seq<char>) -> Seq<char>;

/// `percent_encoding::percent_decode_str` followed by
/// `PercentDecode::decode_utf8_lossy`. Claimed: the result is the name
/// applied to the input, and a string without `%` decodes to itself (the
/// decoder only rewrites `%` sequences, and the input is valid UTF-8).
#[verifier::external_body]
pub(crate) fn percent_decode_lossy(s: &str) -> (res: String)
    ensures
        res@ == percent_decoded_lossy(s@),
        !s@.contains('%') ==> res@ == s@,
{
    percent_encoding::percent_decode_str(s).decode_utf8_lossy().into_owned()
}

/// Whether a UTF-8 byte is escaped in a Commons file path segment:
/// every non-ASCII byte, the C0 controls, DEL, and ` `, `"`, `#`, `?`, `%`
/// (the set `CONTROLS.add(b' ').add(b'"').add(b'#').add(b'?').add(b'%')`).
pub open spec fn escaped_byte(b: u8) -> bool {
    b >= 0x80 || b < 0x20 || b == 0x7f || b == 0x20 || b == 0x22 || b == 0x23 || b == 0x3f || b
        == 0x25
}

pub open spec fn hex_digit(n: u8) -> char {
    if n < 10 {
        ((n + 0x30) as u8) as char
    } else {
        ((n - 10 + 0x41) as u8) as char
    }
}

pub open spec fn encode_byte(b: u8) -> Seq<char> {
    if escaped_byte(b) {
        seq!['%', hex_digit(b / 16), hex_digit(b % 16)]
    } else {
        seq![b as char]
    }
}

/// `utf8_percent_encode(s, set)`: the UTF-8 bytes of `s`, escaped bytes as
/// `%` and two upper-case hex digits, the others as themselves.
pub open spec fn encode_bytes(bytes: Seq<u8>) -> Seq<char>
    decreases bytes.len(),
{
    if bytes.len() == 0 {
        Seq::empty()
    } else {
        encode_bytes(bytes.drop_last()) + encode_byte(bytes.last())
    }
}

pub open spec fn segment_encoded(s: Seq<char>) -> Seq<char> {
    encode_bytes(vstd::utf8::encode_utf8(s))
}

fn hex_char(n: u8) -> (c: char)
    requires
        n < 16,
    ensures
        c == hex_digit(n),
{
    if n < 10 {
        (n + 0x30) as char
    } else {
        (n - 10 + 0x41) as char
    }
}

/// Percent-encodes a Commons file name for use as a URL path segment.
pub fn encode_file_segment(s: &str) -> (res: String)
    ensures
        res@ == segment_encoded(s@),
{
    let bytes = s.as_bytes();
    let mut res = String::new();
    let mut i: usize = 0;
    while i < bytes.len()
        invariant
            bytes@ == vstd::utf8::encode_utf8(s@),
            i <= bytes@.len(),
            res@ == encode_bytes(bytes@.take(i as int)),
        decreases bytes@.len() - i,
    {
        let b = bytes[i];
        if b >= 0x80 || b < 0x20 || b == 0x7f || b == 0x20 || b == 0x22 || b == 0x23 || b == 0x3f
            || b == 0x25 {
            crate::text::push_char(&mut res, '%');
            crate::text::push_char(&mut res, hex_char(b / 16));
            crate::text::push_char(&mut res, hex_char(b % 16));
        } else {
            crate::text::push_char(&mut res, b as char);
        }
        assert(bytes@.take(i as int + 1).drop_last() =~= bytes@.take(i as int));
        i += 1;
    }
    assert(bytes@.take(bytes@.len() as int) =~= bytes@);
    res
}

} // verus!
