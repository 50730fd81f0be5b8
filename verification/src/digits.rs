//! Unsigned integers as decimal text, the way JSON writes them.

use vstd::prelude::*;

verus! {

/// Whether `b` is one of the ASCII digits `0` to `9`.
pub open spec fn is_digit(b: u8) -> bool {
    48 <= b <= 57
}

/// The ASCII digit that stands for `d`, for `d` below ten.
pub open spec fn digit_byte(d: nat) -> u8 {
    (48 + d) as u8
}

/// The decimal text of `n`: no sign, no leading zero, `0` for zero.
pub open spec fn decimal(n: nat) -> Seq<u8>
    decreases n,
{
    if n < 10 {
        seq![digit_byte(n)]
    } else {
        decimal(n / 10).push(digit_byte(n % 10))
    }
}

/// The number that a run of digits denotes, read most significant digit first.
pub open spec fn digits_value(s: Seq<u8>) -> nat
    decreases s.len(),
{
    if s.len() == 0 {
        0
    } else {
        digits_value(s.drop_last()) * 10 + (s.last() - 48) as nat
    }
}

/// Whether `s` is decimal text in canonical form: digits only, at least one,
/// and no leading zero unless it is the single digit `0`.
pub open spec fn is_canonical(s: Seq<u8>) -> bool {
    &&& s.len() >= 1
    &&& forall|i: int| 0 <= i < s.len() ==> is_digit(#[trigger] s[i])
    &&& (s.len() > 1 ==> s[0] != 48)
}

/// Decimal text is canonical and denotes the number it was written from.
pub proof fn lemma_decimal_canonical(n: nat)
    ensures
        is_canonical(decimal(n)),
        digits_value(decimal(n)) == n,
    decreases n,
{
    if n < 10 {
        let s = decimal(n);
        assert(s.len() == 1 && s[0] == digit_byte(n));
        assert(s.drop_last() =~= Seq::<u8>::empty());
        assert(digits_value(s.drop_last()) == 0);
        assert(digits_value(s) == n);
    } else {
        lemma_decimal_canonical(n / 10);
        let head = decimal(n / 10);
        let all = head.push(digit_byte(n % 10));
        assert(decimal(n) == all);
        assert(all.drop_last() =~= head);
        assert(all.last() == digit_byte(n % 10));
        assert(all[0] == head[0]);
        assert forall|i: int| 0 <= i < all.len() implies is_digit(#[trigger] all[i]) by {
            if i < head.len() {
                assert(all[i] == head[i]);
            }
        }
        assert(head.len() > 1 || head[0] != 48) by {
            if head.len() == 1 {
                lemma_leading_digit_bounds(head);
                assert(digits_value(head) == n / 10);
                if head[0] == 48 {
                    assert(head.drop_last() =~= Seq::<u8>::empty());
                    assert(digits_value(head.drop_last()) == 0);
                    assert(digits_value(head) == 0);
                }
            }
        }
        assert(digits_value(all) == (n / 10) * 10 + n % 10);
    }
}

/// Canonical text is the decimal text of the number it denotes.
pub proof fn lemma_canonical_is_decimal(s: Seq<u8>)
    requires
        is_canonical(s),
    ensures
        decimal(digits_value(s)) == s,
    decreases s.len(),
{
    let last = (s.last() - 48) as nat;
    assert(is_digit(s[s.len() - 1]));
    if s.len() == 1 {
        assert(s.drop_last() =~= Seq::<u8>::empty());
        assert(digits_value(s.drop_last()) == 0);
        assert(decimal(last) =~= s);
    } else {
        let head = s.drop_last();
        assert forall|i: int| 0 <= i < head.len() implies is_digit(#[trigger] head[i]) by {
            assert(head[i] == s[i]);
        }
        assert(head[0] == s[0]);
        lemma_canonical_is_decimal(head);
        lemma_leading_digit_bounds(head);
        let v = digits_value(head);
        assert(digits_value(s) == v * 10 + last);
        assert((v * 10 + last) / 10 == v && (v * 10 + last) % 10 == last) by (nonlinear_arith)
            requires
                last < 10,
        ;
        assert(decimal(digits_value(s)) =~= s);
    }
}

/// A run of digits that does not start with zero denotes a positive number,
/// and a single digit denotes a number below ten.
proof fn lemma_leading_digit_bounds(s: Seq<u8>)
    requires
        s.len() >= 1,
        forall|i: int| 0 <= i < s.len() ==> is_digit(#[trigger] s[i]),
    ensures
        s[0] != 48 ==> digits_value(s) >= 1,
        s.len() == 1 ==> digits_value(s) < 10,
        s.len() > 1 && s[0] != 48 ==> digits_value(s) >= 10,
    decreases s.len(),
{
    assert(is_digit(s[s.len() - 1]));
    if s.len() == 1 {
        assert(s.drop_last() =~= Seq::<u8>::empty());
        assert(digits_value(s.drop_last()) == 0);
    } else {
        let head = s.drop_last();
        assert forall|i: int| 0 <= i < head.len() implies is_digit(#[trigger] head[i]) by {
            assert(head[i] == s[i]);
        }
        assert(head[0] == s[0]);
        lemma_leading_digit_bounds(head);
    }
}

/// Two numbers with the same decimal text are the same number.
pub proof fn lemma_decimal_injective(a: nat, b: nat)
    requires
        decimal(a) == decimal(b),
    ensures
        a == b,
{
    lemma_decimal_canonical(a);
    lemma_decimal_canonical(b);
}

/// Appends the decimal text of `n` to `out`.
pub fn push_decimal(out: &mut Vec<u8>, n: u64)
    ensures
        final(out)@ == old(out)@ + decimal(n as nat),
    decreases n,
{
    if n >= 10 {
        push_decimal(out, n / 10);
    }
    let d: u8 = (n % 10) as u8;
    out.push(48 + d);
    assert(final(out)@ =~= old(out)@ + decimal(n as nat));
}

/// A run of digits denotes at least what any of its prefixes denotes.
pub proof fn lemma_prefix_value(s: Seq<u8>, k: int)
    requires
        0 <= k <= s.len(),
        forall|i: int| 0 <= i < s.len() ==> is_digit(#[trigger] s[i]),
    ensures
        digits_value(s.subrange(0, k)) <= digits_value(s),
    decreases s.len() - k,
{
    if k == s.len() {
        assert(s.subrange(0, k) =~= s);
    } else {
        let next = s.subrange(0, k + 1);
        assert(next.drop_last() =~= s.subrange(0, k));
        assert(is_digit(s[k]));
        assert(next.last() == s[k]);
        lemma_prefix_value(s, k + 1);
    }
}

/// Reads `bytes[start..end]` as the decimal text of a number up to `max`.
///
/// The answer is `Some(n)` exactly when the range holds the canonical text
/// of some `n <= max`; any other content gives `None`.
pub fn parse_decimal(bytes: &[u8], start: usize, end: usize, max: u64) -> (r: Option<u64>)
    requires
        start <= end <= bytes.len(),
    ensures
        match r {
            Some(n) => n <= max && bytes@.subrange(start as int, end as int) == decimal(n as nat),
            None => forall|n: nat|
                n <= max ==> bytes@.subrange(start as int, end as int) != #[trigger] decimal(n),
        },
{
    let ghost text = bytes@.subrange(start as int, end as int);
    proof {
        assert forall|n: nat| text == #[trigger] decimal(n) implies is_canonical(text)
            && digits_value(text) == n by {
            lemma_decimal_canonical(n);
        }
    }
    if start == end {
        return None;
    }
    if end - start > 1 && bytes[start] == 48 {
        assert(text[0] == 48);
        return None;
    }
    let mut acc: u64 = 0;
    let mut i: usize = start;
    while i < end
        invariant
            start <= i <= end <= bytes.len(),
            text == bytes@.subrange(start as int, end as int),
            forall|j: int| 0 <= j < i - start ==> is_digit(#[trigger] text[j]),
            acc == digits_value(text.subrange(0, i - start)),
            acc <= max,
            forall|n: nat| text == #[trigger] decimal(n) ==> is_canonical(text) && digits_value(text) == n,
        decreases end - i,
    {
        let b = bytes[i];
        assert(text[i - start] == b);
        if b < 48 || b > 57 {
            return None;
        }
        let d: u64 = (b - 48) as u64;
        let ghost next = text.subrange(0, i - start + 1);
        proof {
            assert(next.drop_last() =~= text.subrange(0, i - start));
            assert(next.last() == b);
            assert(digits_value(next) == acc * 10 + d);
        }
        if max < d || acc > (max - d) / 10 {
            proof {
                assert(acc * 10 + d > max);
                assert forall|n: nat| n <= max implies text != #[trigger] decimal(n) by {
                    if text == decimal(n) {
                        lemma_prefix_value(text, i - start + 1);
                    }
                }
            }
            return None;
        }
        acc = acc * 10 + d;
        i = i + 1;
    }
    proof {
        assert(text.subrange(0, i - start) =~= text);
        assert(text[0] == bytes[start as int]);
        assert(is_canonical(text));
        lemma_canonical_is_decimal(text);
    }
    Some(acc)
}

} // verus!
