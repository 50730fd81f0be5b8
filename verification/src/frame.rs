//! The byte layout shared by the two messages that carry fields.
//!
//! Such a message is written as an opening that names the variant and its
//! first field, the first field as a JSON string literal, a mark that names
//! the second field, the second field as a decimal number, and two closing
//! braces.

use vstd::prelude::*;
use crate::digits::{decimal, is_digit, lemma_decimal_canonical, parse_decimal, push_decimal};

verus! {

/// The two braces that end a record: `}}`.
pub open spec fn closing() -> Seq<u8> {
    seq![125u8, 125u8]
}

/// The bytes of a record with the given opening, string literal, mark and number.
pub open spec fn record(opening: Seq<u8>, literal: Seq<u8>, mark: Seq<u8>, number: nat) -> Seq<u8> {
    opening + literal + mark + decimal(number) + closing()
}

/// Whether a mark can be told apart from the digits that follow it.
pub open spec fn is_mark(mark: Seq<u8>) -> bool {
    mark.len() >= 1 && !is_digit(mark.last())
}

/// Where the parts of a record lie within the bytes `r`.
pub open spec fn has_layout(
    r: Seq<u8>,
    opening: Seq<u8>,
    literal: Seq<u8>,
    mark: Seq<u8>,
    number: nat,
) -> bool {
    let lit_end = (opening.len() + literal.len()) as int;
    let num_start = lit_end + mark.len();
    let num_end = num_start + decimal(number).len();
    &&& r.len() == num_end + 2
    &&& r.subrange(0, opening.len() as int) == opening
    &&& r.subrange(opening.len() as int, lit_end) == literal
    &&& r.subrange(lit_end, num_start) == mark
    &&& r.subrange(num_start, num_end) == decimal(number)
    &&& r[num_end] == 125
    &&& r[num_end + 1] == 125
}

/// A record is laid out part after part.
pub proof fn lemma_record_layout(opening: Seq<u8>, literal: Seq<u8>, mark: Seq<u8>, number: nat)
    ensures
        has_layout(record(opening, literal, mark, number), opening, literal, mark, number),
{
    let r = record(opening, literal, mark, number);
    let lit_end = (opening.len() + literal.len()) as int;
    let num_start = lit_end + mark.len();
    let num_end = num_start + decimal(number).len();
    assert(r.subrange(0, opening.len() as int) =~= opening);
    assert(r.subrange(opening.len() as int, lit_end) =~= literal);
    assert(r.subrange(lit_end, num_start) =~= mark);
    assert(r.subrange(num_start, num_end) =~= decimal(number));
}

/// A record has one reading: equal records have equal literals and numbers.
pub proof fn lemma_record_injective(
    opening: Seq<u8>,
    mark: Seq<u8>,
    literal_a: Seq<u8>,
    number_a: nat,
    literal_b: Seq<u8>,
    number_b: nat,
)
    requires
        is_mark(mark),
        record(opening, literal_a, mark, number_a) == record(opening, literal_b, mark, number_b),
    ensures
        literal_a == literal_b,
        number_a == number_b,
{
    let r = record(opening, literal_a, mark, number_a);
    lemma_record_layout(opening, literal_a, mark, number_a);
    lemma_record_layout(opening, literal_b, mark, number_b);
    lemma_decimal_canonical(number_a);
    lemma_decimal_canonical(number_b);
    let da = decimal(number_a);
    let db = decimal(number_b);
    let end = r.len() - 2;
    // The byte before the digits of one reading is the end of the mark, so it
    // cannot lie among the digits of the other reading.
    if da.len() < db.len() {
        let at = end - da.len() - 1;
        assert(r[at] == r.subrange(end - da.len() - mark.len(), end - da.len())[mark.len() - 1]);
        assert(r[at] == r.subrange(end - db.len(), end)[at - (end - db.len())]);
        assert(is_digit(db[at - (end - db.len())]));
    } else if db.len() < da.len() {
        let at = end - db.len() - 1;
        assert(r[at] == r.subrange(end - db.len() - mark.len(), end - db.len())[mark.len() - 1]);
        assert(r[at] == r.subrange(end - da.len(), end)[at - (end - da.len())]);
        assert(is_digit(da[at - (end - da.len())]));
    }
    assert(da == db);
    crate::digits::lemma_decimal_injective(number_a, number_b);
}

/// Appends the bytes of `src` to `out`.
pub fn append_bytes(out: &mut Vec<u8>, src: &[u8])
    ensures
        final(out)@ == old(out)@ + src@,
{
    let mut i: usize = 0;
    while i < src.len()
        invariant
            i <= src.len(),
            out@ == old(out)@ + src@.subrange(0, i as int),
        decreases src.len() - i,
    {
        out.push(src[i]);
        i = i + 1;
        assert(out@ =~= old(out)@ + src@.subrange(0, i as int));
    }
    assert(src@.subrange(0, i as int) =~= src@);
}

/// Whether `bytes` holds `pattern` at offset `start`.
pub fn holds_at(bytes: &[u8], start: usize, pattern: &[u8]) -> (r: bool)
    ensures
        r == (start + pattern.len() <= bytes.len() && bytes@.subrange(
            start as int,
            start + pattern.len(),
        ) == pattern@),
{
    if start > bytes.len() || pattern.len() > bytes.len() - start {
        return false;
    }
    let ghost window = bytes@.subrange(start as int, start + pattern.len());
    let mut i: usize = 0;
    while i < pattern.len()
        invariant
            i <= pattern.len(),
            start + pattern.len() <= bytes.len(),
            window == bytes@.subrange(start as int, start + pattern.len()),
            forall|j: int| 0 <= j < i ==> window[j] == pattern@[j],
        decreases pattern.len() - i,
    {
        if bytes[start + i] != pattern[i] {
            assert(window[i as int] != pattern@[i as int]);
            return false;
        }
        i = i + 1;
    }
    assert(window =~= pattern@);
    true
}

/// Writes a record from its parts.
pub fn build_record(opening: &[u8], literal: &[u8], mark: &[u8], number: u64) -> (out: Vec<u8>)
    ensures
        out@ == record(opening@, literal@, mark@, number as nat),
{
    let mut out: Vec<u8> = Vec::new();
    append_bytes(&mut out, opening);
    append_bytes(&mut out, literal);
    append_bytes(&mut out, mark);
    push_decimal(&mut out, number);
    out.push(125);
    out.push(125);
    assert(out@ =~= record(opening@, literal@, mark@, number as nat));
    out
}

/// Takes a record apart.
///
/// The answer is `Some((end, number))` exactly when `bytes` is a record with
/// this opening and mark whose number is at most `max`; the literal then lies
/// at `bytes[opening.len()..end]`. No other bytes are accepted.
pub fn split_record(bytes: &[u8], opening: &[u8], mark: &[u8], max: u64) -> (r: Option<(usize, u64)>)
    requires
        is_mark(mark@),
    ensures
        match r {
            Some((end, number)) => {
                &&& opening.len() <= end <= bytes.len()
                &&& number <= max
                &&& bytes@ == record(
                    opening@,
                    bytes@.subrange(opening.len() as int, end as int),
                    mark@,
                    number as nat,
                )
            },
            None => forall|literal: Seq<u8>, number: nat|
                number <= max ==> bytes@ != #[trigger] record(opening@, literal, mark@, number),
        },
{
    proof {
        assert forall|literal: Seq<u8>, number: nat|
            bytes@ == #[trigger] record(opening@, literal, mark@, number) implies has_layout(
            bytes@,
            opening@,
            literal,
            mark@,
            number,
        ) by {
            lemma_record_layout(opening@, literal, mark@, number);
        }
    }
    let len = bytes.len();
    if len < 2 || len - 2 < opening.len() || len - 2 - opening.len() < mark.len() {
        return None;
    }
    if !holds_at(bytes, 0, opening) {
        return None;
    }
    let num_end = len - 2;
    if bytes[num_end] != 125 || bytes[num_end + 1] != 125 {
        return None;
    }
    let floor = opening.len() + mark.len();
    let mut num_start: usize = num_end;
    while num_start > floor && bytes[num_start - 1] >= 48 && bytes[num_start - 1] <= 57
        invariant
            floor <= num_start <= num_end,
            num_end + 2 == bytes.len(),
            forall|j: int| num_start <= j < num_end ==> is_digit(#[trigger] bytes@[j]),
        decreases num_start,
    {
        num_start = num_start - 1;
    }
    proof {
        // Whatever record these bytes are, its digits start where the scan stopped.
        assert forall|literal: Seq<u8>, number: nat|
            bytes@ == #[trigger] record(opening@, literal, mark@, number) implies num_start
            == num_end - decimal(number).len() by {
            let d = decimal(number);
            let at = num_end - d.len();
            assert(has_layout(bytes@, opening@, literal, mark@, number));
            lemma_decimal_canonical(number);
            assert(bytes@[at - 1] == bytes@.subrange(at - mark@.len(), at)[mark@.len() - 1]);
            if num_start < at {
                assert(is_digit(bytes@[at - 1]));
            }
            if num_start > at {
                assert(bytes@[num_start - 1] == bytes@.subrange(at, num_end as int)[num_start - 1
                    - at]);
                assert(is_digit(d[num_start - 1 - at]));
            }
        }
    }
    let number = match parse_decimal(bytes, num_start, num_end, max) {
        Some(n) => n,
        None => {
            return None;
        },
    };
    let lit_end = num_start - mark.len();
    if !holds_at(bytes, lit_end, mark) {
        return None;
    }
    proof {
        let literal = bytes@.subrange(opening.len() as int, lit_end as int);
        assert(bytes@.subrange(0, opening.len() as int) == opening@);
        assert(bytes@ =~= record(opening@, literal, mark@, number as nat));
    }
    Some((lit_end, number))
}

} // verus!
