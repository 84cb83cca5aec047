//! The lines of a byte stream, and their text.

use crate::pieces::{lemma_position_unique, position};
use crate::text::to_chars;
use vstd::prelude::*;
use vstd::slice::slice_subrange;
use vstd::string::StringSliceAdditionalSpecFns;
use vstd::utf8::{decode_utf8, encode_utf8_decode_utf8, valid_utf8};

verus! {

/// The byte that ends a line.
pub const LINE_FEED: u8 = 0x0a;

/// The byte that may stand before the line feed and belongs to the line's
/// end.
pub const CARRIAGE_RETURN: u8 = 0x0d;

/// The byte sequences that a list of slices stands for.
pub open spec fn byte_slices(v: Seq<&[u8]>) -> Seq<Seq<u8>> {
    v.map_values(|l: &[u8]| l@)
}

/// `line` without a carriage return at its end.
pub open spec fn strip_cr(line: Seq<u8>) -> Seq<u8> {
    if line.len() > 0 && line.last() == CARRIAGE_RETURN {
        line.drop_last()
    } else {
        line
    }
}

/// The lines of `content`. A line ends at a line feed, which does not belong
/// to it, nor does a carriage return just before the line feed. What follows
/// the last line feed is a line too, taken as it is, unless nothing follows.
pub open spec fn lines(content: Seq<u8>) -> Seq<Seq<u8>>
    decreases content.len(),
{
    let n = position(content, LINE_FEED) as int;
    if content.len() == 0 {
        Seq::empty()
    } else if n >= content.len() {
        seq![content]
    } else {
        seq![strip_cr(content.take(n))] + lines(content.skip(n + 1))
    }
}

/// Cuts `content` into its lines.
pub fn split_lines<'a>(content: &'a [u8]) -> (r: Vec<&'a [u8]>)
    ensures
        byte_slices(r@) == lines(content@),
{
    let mut out: Vec<&'a [u8]> = Vec::new();
    let mut start: usize = 0;
    let mut i: usize = 0;
    assert(content@.skip(0) == content@);
    while i < content.len()
        invariant
            start <= i <= content.len(),
            forall|j: int| start <= j < i ==> content@[j] != LINE_FEED,
            byte_slices(out@) + lines(content@.skip(start as int)) == lines(content@),
        decreases content.len() - i,
    {
        if content[i] == LINE_FEED {
            let end = if i > start && content[i - 1] == CARRIAGE_RETURN {
                i - 1
            } else {
                i
            };
            let line = slice_subrange(content, start, end);
            proof {
                let rest = content@.skip(start as int);
                lemma_position_unique(rest, LINE_FEED, i - start);
                assert(strip_cr(rest.take(i - start)) == line@);
                assert(rest.skip(i - start + 1) == content@.skip(i + 1));
            }
            out.push(line);
            start = i + 1;
        }
        i += 1;
    }
    if start < content.len() {
        let line = slice_subrange(content, start, content.len());
        proof {
            let rest = content@.skip(start as int);
            lemma_position_unique(rest, LINE_FEED, rest.len() as int);
        }
        out.push(line);
    }
    out
}

/// The text of a line: its characters where the line is UTF-8, nothing
/// where it is not.
pub open spec fn line_text(line: Seq<u8>) -> Option<Seq<char>> {
    if valid_utf8(line) {
        Some(decode_utf8(line))
    } else {
        None
    }
}

/// `core::str::from_utf8`: the bytes as a string slice where they are valid
/// UTF-8, with the very same bytes as its encoding, and nothing where they
/// are not.
#[verifier::external_body]
fn as_utf8<'a>(bytes: &'a [u8]) -> (r: Option<&'a str>)
    ensures
        r is Some <==> valid_utf8(bytes@),
        r is Some ==> r.unwrap().spec_bytes() == bytes@,
{
    match core::str::from_utf8(bytes) {
        Ok(s) => Some(s),
        Err(_) => None,
    }
}

/// The characters that a buffer holds, if there is a buffer.
pub open spec fn text_of(chars: Option<Vec<char>>) -> Option<Seq<char>> {
    match chars {
        Some(c) => Some(c@),
        None => None,
    }
}

/// Decodes a line into its characters.
pub fn decode_line(line: &[u8]) -> (r: Option<Vec<char>>)
    ensures
        text_of(r) == line_text(line@),
{
    match as_utf8(line) {
        Some(s) => {
            proof {
                encode_utf8_decode_utf8(s@);
            }
            Some(to_chars(s))
        },
        None => None,
    }
}

} // verus!
