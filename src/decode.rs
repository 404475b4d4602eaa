//! The content loader's decoding: UTF-8 first, then a fixed ladder of legacy
//! encodings, then a lossy GBK decode as the last resort.

use vstd::prelude::*;
use vstd::utf8::{decode_utf8, valid_utf8, partial_valid_utf8, partial_valid_utf8_extend_ascii_block};
use crate::ignore::views;
use crate::scanner::{lines_of, split_lines};

verus! {

/// The legacy encodings that the ladder tries.
#[derive(Debug, Clone, Copy, PartialEq, Eq)]
pub enum Charset {
    Gbk,
    Gb18030,
    Big5,
    Utf16Le,
    Utf16Be,
    ShiftJis,
    EucKr,
}

/// What `encoding_rs::Encoding::decode` gives for `b` in the encoding `c`:
/// the text, and whether malformed sequences were replaced.
pub uninterp spec fn legacy_decode(c: Charset, b: Seq<u8>) -> (Seq<char>, bool);

/// Relies on `encoding_rs::Encoding::decode`: the text and the error flag
/// depend on the encoding and the bytes alone.
#[verifier::external_body]
fn decode_as(c: Charset, b: &[u8]) -> (r: (String, bool))
    ensures
        (r.0@, r.1) == legacy_decode(c, b@),
{
    let encoding = match c {
        Charset::Gbk => encoding_rs::GBK,
        Charset::Gb18030 => encoding_rs::GB18030,
        Charset::Big5 => encoding_rs::BIG5,
        Charset::Utf16Le => encoding_rs::UTF_16LE,
        Charset::Utf16Be => encoding_rs::UTF_16BE,
        Charset::ShiftJis => encoding_rs::SHIFT_JIS,
        Charset::EucKr => encoding_rs::EUC_KR,
    };
    let (text, _, had_errors) = encoding.decode(b);
    (text.into_owned(), had_errors)
}

/// Relies on `std::str::from_utf8`: it accepts exactly the valid UTF-8 byte
/// sequences, and the text is what they encode.
#[verifier::external_body]
fn utf8_text(b: &[u8]) -> (r: Option<String>)
    ensures
        r is Some <==> valid_utf8(b@),
        r matches Some(s) ==> s@ == decode_utf8(b@),
{
    std::str::from_utf8(b).ok().map(|s| s.to_string())
}

/// The legacy encodings in the order in which they are tried.
pub open spec fn ladder() -> Seq<Charset> {
    seq![
        Charset::Gbk,
        Charset::Gb18030,
        Charset::Big5,
        Charset::Utf16Le,
        Charset::Utf16Be,
        Charset::ShiftJis,
        Charset::EucKr,
    ]
}

/// The text of the first attempt from `i` on that had no errors; the text of
/// the first attempt where every one had errors.
pub open spec fn pick_from(attempts: Seq<(Seq<char>, bool)>, i: int) -> Seq<char>
    decreases attempts.len() - i,
{
    if i < 0 || i >= attempts.len() {
        attempts[0].0
    } else if !attempts[i].1 {
        attempts[i].0
    } else {
        pick_from(attempts, i + 1)
    }
}

/// The text chosen among decoding attempts: the first clean one, else the first.
pub open spec fn pick(attempts: Seq<(Seq<char>, bool)>) -> Seq<char> {
    pick_from(attempts, 0)
}

/// The text of a file's bytes: their UTF-8 text where they are valid UTF-8;
/// otherwise the first legacy decoding of the ladder without errors; otherwise
/// the lossy GBK decoding.
pub open spec fn decoded(b: Seq<u8>) -> Seq<char> {
    if valid_utf8(b) {
        decode_utf8(b)
    } else {
        pick(ladder().map_values(|c: Charset| legacy_decode(c, b)))
    }
}

/// The views of a list of decoding attempts.
pub open spec fn attempt_views(a: Seq<(String, bool)>) -> Seq<(Seq<char>, bool)> {
    a.map_values(|x: (String, bool)| (x.0@, x.1))
}

/// Chooses among decoding attempts, given in the order they were tried: the
/// text of the first one without errors, or that of the first one when
/// every one had errors.
pub fn pick_decoding(attempts: Vec<(String, bool)>) -> (r: String)
    requires
        attempts@.len() > 0,
    ensures
        r@ == pick(attempt_views(attempts@)),
{
    let ghost a = attempt_views(attempts@);
    let mut i: usize = 0;
    while i < attempts.len()
        invariant
            a == attempt_views(attempts@),
            a.len() > 0,
            i <= attempts@.len(),
            pick_from(a, 0) == pick_from(a, i as int),
        decreases attempts.len() - i,
    {
        if !attempts[i].1 {
            assert(a[i as int] == (attempts@[i as int].0@, attempts@[i as int].1));
            let mut attempts = attempts;
            let (text, _) = attempts.swap_remove(i);
            return text;
        }
        i += 1;
    }
    assert(a[0] == (attempts@[0].0@, attempts@[0].1));
    let mut attempts = attempts;
    let (text, _) = attempts.swap_remove(0);
    text
}

/// The text of a file's bytes, as `decoded` defines it.
pub fn decode_bytes(bytes: &[u8]) -> (r: String)
    ensures
        r@ == decoded(bytes@),
{
    if let Some(text) = utf8_text(bytes) {
        return text;
    }
    let mut attempts: Vec<(String, bool)> = Vec::new();
    attempts.push(decode_as(Charset::Gbk, bytes));
    attempts.push(decode_as(Charset::Gb18030, bytes));
    attempts.push(decode_as(Charset::Big5, bytes));
    attempts.push(decode_as(Charset::Utf16Le, bytes));
    attempts.push(decode_as(Charset::Utf16Be, bytes));
    attempts.push(decode_as(Charset::ShiftJis, bytes));
    attempts.push(decode_as(Charset::EucKr, bytes));
    assert(attempt_views(attempts@) =~= ladder().map_values(|c: Charset| legacy_decode(c, bytes@)));
    pick_decoding(attempts)
}

/// Bytes that are all ASCII are valid UTF-8, so their text is their UTF-8
/// text and no legacy encoding is tried.
pub proof fn lemma_ascii_is_utf8(b: Seq<u8>)
    requires
        forall|i: int| 0 <= i < b.len() ==> b[i] < 0x80,
    ensures
        valid_utf8(b),
        decoded(b) == decode_utf8(b),
{
    assert(b.subrange(0, 0) =~= Seq::<u8>::empty());
    assert(partial_valid_utf8(b, 0));
    partial_valid_utf8_extend_ascii_block(b, 0, b.len() as int);
    assert(b.subrange(0, b.len() as int) == b);
}

/// The outcome of loading one file: its text, or the reason it could not be read.
pub fn read_file_content(read: Result<Vec<u8>, String>) -> (r: Result<String, String>)
    ensures
        read matches Ok(b) ==> r matches Ok(t) && t@ == decoded(b@),
        read matches Err(e) ==> r matches Err(e2) && e2@ == e@,
{
    match read {
        Ok(b) => Ok(decode_bytes(b.as_slice())),
        Err(e) => Err(e),
    }
}

/// The number of lines of a text: `\n` and `\r\n` end a line, and a last
/// line without an ending still counts.
pub fn count_lines(s: &str) -> (r: usize)
    ensures
        r == lines_of(s@).len(),
{
    let lines = split_lines(s);
    assert(views(lines@).len() == lines@.len());
    lines.len()
}

} // verus!
