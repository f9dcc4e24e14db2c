//! From the bytes of a line to its text: decoding, and the line terminator.

use crate::models::FileEncoding;
use vstd::prelude::*;
use vstd::string::StrSliceExecFns;
use vstd::string::StringExecFns;
use vstd::utf8::decode_utf8;
use vstd::utf8::is_char_boundary;
use vstd::utf8::is_char_boundary_start_end_of_seq;
use vstd::utf8::is_continuation_byte;
use vstd::utf8::is_leading_byte_width_1;
use vstd::utf8::length_of_first_scalar;
use vstd::utf8::pop_first_scalar;
use vstd::utf8::valid_utf8;
use vstd::utf8::valid_utf8_split;

verus! {

/// The text that `String::from_utf8_lossy` gives for `bytes`: the bytes read
/// as UTF-8, with U+FFFD in place of what is not UTF-8.
pub uninterp spec fn utf8_lossy_text(bytes: Seq<u8>) -> Seq<char>;

/// The text that `encoding_rs::GBK.decode` gives for `bytes`: the bytes read
/// as GBK, or as a byte order mark at their start says, with U+FFFD in
/// place of what cannot be read.
pub uninterp spec fn gbk_text(bytes: Seq<u8>) -> Seq<char>;

/// Whether `data` begins with the byte order mark of UTF-8.
pub open spec fn starts_with_utf8_mark(data: Seq<u8>) -> bool {
    data.len() >= 3 && data[0] == 0xEF && data[1] == 0xBB && data[2] == 0xBF
}

/// The longest input that is handed to the GBK decoder: it sizes its output
/// at three bytes for each byte of input, rounded up to a power of two.
pub open spec fn gbk_input_limit() -> int {
    (usize::MAX / 8) as int
}

/// The text of `bytes` in `encoding`. Only GBK has a decoder of its own;
/// every other encoding is read as UTF-8 with replacement.
pub open spec fn decoded(encoding: FileEncoding, bytes: Seq<u8>) -> Seq<char> {
    match encoding {
        FileEncoding::Gbk => gbk_text(bytes),
        _ => utf8_lossy_text(bytes),
    }
}

/// `text` without the one line terminator at its end, which is a line feed
/// or a carriage return and a line feed.
pub open spec fn strip_terminator(text: Seq<char>) -> Seq<char> {
    let n = text.len() as int;
    if n >= 2 && text[n - 1] == '\n' && text[n - 2] == '\r' {
        text.subrange(0, n - 2)
    } else if n >= 1 && text[n - 1] == '\n' {
        text.subrange(0, n - 1)
    } else {
        text
    }
}

/// What `strip_terminator` takes off `text`.
pub open spec fn terminator_of(text: Seq<char>) -> Seq<char> {
    text.subrange(strip_terminator(text).len() as int, text.len() as int)
}

/// Stripping loses nothing but the terminator: put back, it restores the
/// text, and it is empty, a line feed, or a carriage return and a line feed.
pub proof fn lemma_strip_terminator_restores(text: Seq<char>)
    ensures
        strip_terminator(text) + terminator_of(text) == text,
        terminator_of(text) == Seq::<char>::empty() || terminator_of(text) == seq!['\n']
            || terminator_of(text) == seq!['\r', '\n'],
{
    let n = text.len() as int;
    let stripped = strip_terminator(text);
    let rest = terminator_of(text);
    assert(stripped + rest =~= text);
    if n >= 2 && text[n - 1] == '\n' && text[n - 2] == '\r' {
        assert(rest =~= seq!['\r', '\n']);
    } else if n >= 1 && text[n - 1] == '\n' {
        assert(rest =~= seq!['\n']);
    } else {
        assert(rest =~= Seq::<char>::empty());
    }
}

/// In UTF-8, a character ends where a byte below 0x80 ends: the position
/// after such a byte is a boundary between characters.
pub proof fn lemma_boundary_after_ascii(bytes: Seq<u8>, p: int)
    requires
        valid_utf8(bytes),
        0 < p <= bytes.len(),
        bytes[p - 1] < 0x80,
    ensures
        is_char_boundary(bytes, p),
    decreases bytes.len(),
{
    let first = length_of_first_scalar(bytes);
    let rest = pop_first_scalar(bytes);
    assert(is_leading_byte_width_1(bytes[p - 1]) && !is_continuation_byte(bytes[p - 1]));
    if p - 1 < first {
        assert(p - 1 == 0);
        assert(first == 1);
        assert(is_char_boundary(rest, 0));
    } else {
        assert(rest[p - first - 1] == bytes[p - 1]);
        lemma_boundary_after_ascii(rest, p - first);
    }
}

/// In UTF-8, the bytes between two ends of bytes below 0x80 are UTF-8 of
/// their own: the bytes from `from`, which is 0 or follows such a byte, up
/// to `to`, which follows such a byte or is the end.
pub proof fn lemma_utf8_between_ascii(bytes: Seq<u8>, from: int, to: int)
    requires
        valid_utf8(bytes),
        0 <= from <= to <= bytes.len(),
        from > 0 ==> bytes[from - 1] < 0x80,
        to < bytes.len() ==> to > 0 && bytes[to - 1] < 0x80,
    ensures
        valid_utf8(bytes.subrange(from, to)),
{
    let head = bytes.subrange(0, to);
    assert(is_char_boundary(bytes, to)) by {
        if to < bytes.len() {
            lemma_boundary_after_ascii(bytes, to);
        } else {
            is_char_boundary_start_end_of_seq(bytes);
        }
    }
    valid_utf8_split(bytes, to);
    assert(is_char_boundary(head, from)) by {
        if from > 0 {
            lemma_boundary_after_ascii(head, from);
        }
    }
    valid_utf8_split(head, from);
    assert(head.subrange(from, head.len() as int) =~= bytes.subrange(from, to));
}

/// Whether `bytes` are UTF-8: `std::str::from_utf8` accepts exactly the
/// byte strings that are.
#[verifier::external_body]
pub(crate) fn is_valid_utf8(bytes: &[u8]) -> (valid: bool)
    ensures
        valid == valid_utf8(bytes@),
{
    std::str::from_utf8(bytes).is_ok()
}

/// `String::from_utf8_lossy`: the text of `bytes` read as UTF-8 with
/// replacement, which for bytes that are UTF-8 is the text they encode.
#[verifier::external_body]
pub(crate) fn decode_utf8_lossy(bytes: &[u8]) -> (text: String)
    ensures
        text@ == utf8_lossy_text(bytes@),
        valid_utf8(bytes@) ==> text@ == decode_utf8(bytes@),
{
    String::from_utf8_lossy(bytes).into_owned()
}

/// `encoding_rs::GBK.decode`: the text of `bytes` read as GBK, or as a byte
/// order mark at their start says, with replacement. The decoder panics
/// when the size of its output buffer overflows, so longer inputs are kept
/// from it.
#[verifier::external_body]
pub(crate) fn decode_gbk(bytes: &[u8]) -> (text: String)
    requires
        bytes@.len() <= gbk_input_limit(),
    ensures
        text@ == gbk_text(bytes@),
{
    encoding_rs::GBK.decode(bytes).0.into_owned()
}

/// Decodes `bytes` as `encoding` says. Bytes that are UTF-8, in an
/// encoding other than GBK, give the text that they encode.
pub fn decode(encoding: FileEncoding, bytes: &[u8]) -> (text: String)
    requires
        encoding == FileEncoding::Gbk ==> bytes@.len() <= gbk_input_limit(),
    ensures
        text@ == decoded(encoding, bytes@),
        encoding != FileEncoding::Gbk && valid_utf8(bytes@) ==> text@ == decode_utf8(bytes@),
{
    match encoding {
        FileEncoding::Gbk => decode_gbk(bytes),
        _ => decode_utf8_lossy(bytes),
    }
}

/// Takes the line terminator off the end of `text`.
pub fn strip_line_terminator(text: &str) -> (line: String)
    ensures
        line@ == strip_terminator(text@),
{
    let n: usize = text.unicode_len();
    if n >= 1 && text.get_char(n - 1) == '\n' {
        if n >= 2 && text.get_char(n - 2) == '\r' {
            String::from_str(text.substring_char(0, n - 2))
        } else {
            String::from_str(text.substring_char(0, n - 1))
        }
    } else {
        proof {
            assert(text@.subrange(0, n as int) =~= text@);
        }
        String::from_str(text.substring_char(0, n))
    }
}

} // verus!
