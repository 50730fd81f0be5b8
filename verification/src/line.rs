//! White space at the ends of a message: a control message travels as one
//! line, and the JSON reader passes over white space around a value.

use vstd::prelude::*;
use vstd::slice::slice_subrange;

verus! {

/// The line feed that ends a control message.
pub const LINE_FEED: u8 = 10;

/// Which bytes count as white space.
#[derive(Debug, Clone, Copy, PartialEq, Eq, Structural)]
pub enum WhiteSpace {
    /// What JSON allows around a value: blank, tab, line feed, carriage return.
    Json,
    /// ASCII white space: JSON's four, vertical tab and form feed.
    Ascii,
}

/// Whether `b` is white space of the set `set`.
pub open spec fn is_space(b: u8, set: WhiteSpace) -> bool {
    match set {
        WhiteSpace::Json => b == 32 || b == 9 || b == 10 || b == 13,
        WhiteSpace::Ascii => b == 32 || 9 <= b <= 13,
    }
}

/// `s` without the white space at its start.
pub open spec fn strip_start(s: Seq<u8>, set: WhiteSpace) -> Seq<u8>
    decreases s.len(),
{
    if s.len() > 0 && is_space(s[0], set) {
        strip_start(s.drop_first(), set)
    } else {
        s
    }
}

/// `s` without the white space at its end.
pub open spec fn strip_end(s: Seq<u8>, set: WhiteSpace) -> Seq<u8>
    decreases s.len(),
{
    if s.len() > 0 && is_space(s.last(), set) {
        strip_end(s.drop_last(), set)
    } else {
        s
    }
}

/// `s` without the white space at either end.
pub open spec fn stripped(s: Seq<u8>, set: WhiteSpace) -> Seq<u8> {
    strip_end(strip_start(s, set), set)
}

/// `s` without the ASCII white space at either end: what is left of a line.
pub open spec fn trimmed(s: Seq<u8>) -> Seq<u8> {
    stripped(s, WhiteSpace::Ascii)
}

/// `s` without the JSON white space at either end.
pub open spec fn json_trimmed(s: Seq<u8>) -> Seq<u8> {
    stripped(s, WhiteSpace::Json)
}

/// Text that neither starts nor ends with white space stays as it is, and
/// is what is left of it and a line feed.
pub proof fn lemma_stripped_text(body: Seq<u8>, set: WhiteSpace)
    requires
        body.len() > 0,
        !is_space(body[0], set),
        !is_space(body.last(), set),
    ensures
        stripped(body, set) == body,
        stripped(body.push(LINE_FEED), set) == body,
{
    let line = body.push(LINE_FEED);
    assert(line[0] == body[0]);
    assert(strip_start(body, set) == body);
    assert(strip_start(line, set) == line);
    assert(line.drop_last() =~= body);
    assert(strip_end(line, set) == strip_end(body, set));
}

fn space(b: u8, set: WhiteSpace) -> (r: bool)
    ensures
        r == is_space(b, set),
{
    match set {
        WhiteSpace::Json => b == 32 || b == 9 || b == 10 || b == 13,
        WhiteSpace::Ascii => b == 32 || (9 <= b && b <= 13),
    }
}

/// The part of `bytes` between the white space at its ends.
pub fn strip(bytes: &[u8], set: WhiteSpace) -> (r: &[u8])
    ensures
        r@ == stripped(bytes@, set),
{
    let mut start: usize = 0;
    assert(bytes@.subrange(0, bytes.len() as int) =~= bytes@);
    while start < bytes.len() && space(bytes[start], set)
        invariant
            start <= bytes.len(),
            strip_start(bytes@, set) == strip_start(
                bytes@.subrange(start as int, bytes.len() as int),
                set,
            ),
        decreases bytes.len() - start,
    {
        assert(bytes@.subrange(start as int, bytes.len() as int).drop_first() =~= bytes@.subrange(
            start + 1,
            bytes.len() as int,
        ));
        start = start + 1;
    }
    let ghost rest = bytes@.subrange(start as int, bytes.len() as int);
    assert(strip_start(bytes@, set) == rest) by {
        if rest.len() > 0 {
            assert(rest[0] == bytes@[start as int]);
        }
    }
    let mut end: usize = bytes.len();
    while end > start && space(bytes[end - 1], set)
        invariant
            start <= end <= bytes.len(),
            rest == bytes@.subrange(start as int, bytes.len() as int),
            strip_end(rest, set) == strip_end(bytes@.subrange(start as int, end as int), set),
        decreases end,
    {
        assert(bytes@.subrange(start as int, end as int).drop_last() =~= bytes@.subrange(
            start as int,
            end - 1,
        ));
        end = end - 1;
    }
    let ghost kept = bytes@.subrange(start as int, end as int);
    assert(strip_end(rest, set) == kept) by {
        if kept.len() > 0 {
            assert(kept.last() == bytes@[end - 1]);
        }
    }
    slice_subrange(bytes, start, end)
}

/// The part of `line` between the ASCII white space at its ends.
pub fn trim(line: &[u8]) -> (r: &[u8])
    ensures
        r@ == trimmed(line@),
{
    strip(line, WhiteSpace::Ascii)
}

/// The part of `bytes` between the JSON white space at its ends.
pub fn trim_json(bytes: &[u8]) -> (r: &[u8])
    ensures
        r@ == json_trimmed(bytes@),
{
    strip(bytes, WhiteSpace::Json)
}

} // verus!
