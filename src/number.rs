use vstd::prelude::*;

verus! {

/// Whether `c` is one of the ASCII digits `0` to `9`.
pub open spec fn is_digit(c: char) -> bool {
    '0' <= c && c <= '9'
}

/// The value of a run of decimal digits, most significant first.
pub open spec fn digits_value(s: Seq<char>) -> nat
    decreases s.len(),
{
    if s.len() == 0 {
        0
    } else {
        digits_value(s.drop_last()) * 10 + (s.last() as nat - '0' as nat) as nat
    }
}

/// Whether every character of `s` is a digit.
pub open spec fn all_digits(s: Seq<char>) -> bool {
    forall|i: int| 0 <= i < s.len() ==> is_digit(#[trigger] s[i])
}

/// The digits of an unsigned number: the text with one optional leading `+` removed.
pub open spec fn unsigned_digits(s: Seq<char>) -> Seq<char> {
    if s.len() > 0 && s[0] == '+' {
        s.drop_first()
    } else {
        s
    }
}

/// What reading `s` as an unsigned machine integer gives: an optional `+`, then one or
/// more decimal digits whose value fits in `usize`; anything else reads as nothing.
pub open spec fn parse_unsigned(s: Seq<char>) -> Option<usize> {
    let d = unsigned_digits(s);
    if d.len() > 0 && all_digits(d) && digits_value(d) <= usize::MAX {
        Some(digits_value(d) as usize)
    } else {
        None
    }
}

} // verus!

verus! {

/// A prefix of a digit string never has a larger value than the whole string.
proof fn lemma_digits_value_grows(s: Seq<char>, k: int)
    requires
        0 <= k <= s.len(),
        all_digits(s),
    ensures
        digits_value(s.subrange(0, k)) <= digits_value(s),
    decreases s.len() - k,
{
    if k < s.len() {
        lemma_digits_value_grows(s, k + 1);
        assert(s.subrange(0, k + 1).drop_last() =~= s.subrange(0, k));
        assert(is_digit(s[k]));
    } else {
        assert(s.subrange(0, k) =~= s);
    }
}

/// Reads `chars[start..end]` as an unsigned number, as `parse_unsigned` describes.
pub fn parse_unsigned_at(chars: &Vec<char>, start: usize, end: usize) -> (r: Option<usize>)
    requires
        start <= end <= chars@.len(),
    ensures
        r == parse_unsigned(chars@.subrange(start as int, end as int)),
{
    let ghost s = chars@.subrange(start as int, end as int);
    let mut i: usize = start;
    if i < end && chars[i] == '+' {
        i = i + 1;
    }
    let ghost d = chars@.subrange(i as int, end as int);
    assert(unsigned_digits(s) =~= d);
    if i == end {
        return None;
    }
    let first: usize = i;
    let mut acc: usize = 0;
    while i < end
        invariant
            first <= i <= end,
            end <= chars@.len(),
            s == chars@.subrange(start as int, end as int),
            unsigned_digits(s) == d,
            d.len() > 0,
            d == chars@.subrange(first as int, end as int),
            all_digits(chars@.subrange(first as int, i as int)),
            acc as nat == digits_value(chars@.subrange(first as int, i as int)),
        decreases end - i,
    {
        let c = chars[i];
        if !('0' <= c && c <= '9') {
            assert(!all_digits(d)) by {
                assert(d[i - first] == c);
            }
            return None;
        }
        let digit: usize = (c as u32 - '0' as u32) as usize;
        assert(chars@.subrange(first as int, i + 1).drop_last() =~= chars@.subrange(
            first as int,
            i as int,
        ));
        if acc > (usize::MAX - digit) / 10 {
            assert(acc * 10 + digit > usize::MAX) by (nonlinear_arith)
                requires
                    acc > (usize::MAX - digit) / 10,
                    digit <= 9,
            ;
            proof {
                if all_digits(d) {
                    lemma_digits_value_grows(d, i + 1 - first);
                    assert(d.subrange(0, i + 1 - first) =~= chars@.subrange(first as int, i + 1));
                }
            }
            return None;
        }
        acc = acc * 10 + digit;
        i = i + 1;
    }
    assert(chars@.subrange(first as int, i as int) =~= d);
    Some(acc)
}

} // verus!
