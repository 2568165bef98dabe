//! Decimal integer texts, read as Rust's `u32` and `i64` `FromStr` read them.

use vstd::prelude::*;

verus! {

pub open spec fn is_digit_char(c: char) -> bool {
    '0' <= c <= '9'
}

pub open spec fn digit_value(c: char) -> int {
    (c as int) - ('0' as int)
}

/// One or more ASCII digits.
pub open spec fn all_digits(s: Seq<char>) -> bool {
    s.len() > 0 && forall|i: int| 0 <= i < s.len() ==> is_digit_char(#[trigger] s[i])
}

/// Value of a run of decimal digits.
pub open spec fn digits_value(s: Seq<char>) -> int
    decreases s.len(),
{
    if s.len() == 0 {
        0
    } else {
        digits_value(s.drop_last()) * 10 + digit_value(s.last())
    }
}

/// The digits after an optional leading `+`.
pub open spec fn unsigned_digits(s: Seq<char>) -> Seq<char> {
    if s.len() > 0 && s[0] == '+' {
        s.drop_first()
    } else {
        s
    }
}

/// `u32::from_str`: optional `+`, then digits, within range.
pub open spec fn parse_u32_text(s: Seq<char>) -> Option<u32> {
    let d = unsigned_digits(s);
    if all_digits(d) && digits_value(d) <= u32::MAX {
        Some(digits_value(d) as u32)
    } else {
        None
    }
}

/// The digits after an optional leading sign.
pub open spec fn signed_digits(s: Seq<char>) -> Seq<char> {
    if s.len() > 0 && (s[0] == '+' || s[0] == '-') {
        s.drop_first()
    } else {
        s
    }
}

/// The value a signed decimal text denotes.
pub open spec fn signed_value(s: Seq<char>) -> int {
    if s.len() > 0 && s[0] == '-' {
        -digits_value(signed_digits(s))
    } else {
        digits_value(signed_digits(s))
    }
}

/// `i64::from_str`: optional sign, then digits, within range.
pub open spec fn parse_i64_text(s: Seq<char>) -> Option<i64> {
    if all_digits(signed_digits(s)) && i64::MIN <= signed_value(s) <= i64::MAX {
        Some(signed_value(s) as i64)
    } else {
        None
    }
}

proof fn lemma_digits_value_step(s: Seq<char>, i: int)
    requires
        0 <= i < s.len(),
    ensures
        digits_value(s.subrange(0, i + 1)) == digits_value(s.subrange(0, i)) * 10 + digit_value(
            s[i],
        ),
{
    assert(s.subrange(0, i + 1).drop_last() =~= s.subrange(0, i));
}

proof fn lemma_digits_value_mono(s: Seq<char>, i: int)
    requires
        0 <= i <= s.len(),
        forall|j: int| 0 <= j < s.len() ==> is_digit_char(#[trigger] s[j]),
    ensures
        digits_value(s) >= digits_value(s.subrange(0, i)) >= 0,
    decreases s.len(),
{
    if s.len() > 0 {
        if i == s.len() {
            assert(s.subrange(0, i) =~= s);
            lemma_digits_value_mono(s.drop_last(), i - 1);
            assert(s.drop_last().subrange(0, i - 1) =~= s.drop_last());
        } else {
            lemma_digits_value_mono(s.drop_last(), i);
            assert(s.drop_last().subrange(0, i) =~= s.subrange(0, i));
            assert(s.drop_last().subrange(0, s.len() - 1) =~= s.drop_last());
            lemma_digits_value_mono(s.drop_last(), s.len() - 1);
        }
    } else {
        assert(s.subrange(0, i) =~= s);
    }
}

/// Value of the digits `s[from..]`, or `None` once it passes `limit`.
fn digits_upto(s: &Vec<char>, from: usize, limit: u128) -> (r: Option<u128>)
    requires
        from <= s@.len(),
        limit <= 0x1_0000_0000_0000_0000u128,
    ensures
        all_digits(s@.subrange(from as int, s@.len() as int)) && digits_value(
            s@.subrange(from as int, s@.len() as int),
        ) <= limit ==> r is Some,
        r matches Some(v) ==> v == digits_value(s@.subrange(from as int, s@.len() as int)) && v <= limit,
        !(all_digits(s@.subrange(from as int, s@.len() as int)) && digits_value(
            s@.subrange(from as int, s@.len() as int),
        ) <= limit) ==> r is None,
{
    let ghost d = s@.subrange(from as int, s@.len() as int);
    if from >= s.len() {
        return None;
    }
    let mut acc: u128 = 0;
    let mut i = from;
    while i < s.len()
        invariant
            from <= i <= s@.len(),
            d == s@.subrange(from as int, s@.len() as int),
            limit <= 0x1_0000_0000_0000_0000u128,
            acc <= limit,
            acc == digits_value(d.subrange(0, i - from)),
            forall|j: int| 0 <= j < i - from ==> is_digit_char(#[trigger] d[j]),
        decreases s.len() - i,
    {
        let c = s[i];
        if !('0' <= c && c <= '9') {
            proof {
                assert(d[i - from] == c);
            }
            return None;
        }
        proof {
            assert(d[i - from] == c);
            lemma_digits_value_step(d, i - from);
        }
        let next = acc * 10 + ((c as u128) - ('0' as u128));
        if next > limit {
            proof {
                if all_digits(d) {
                    lemma_digits_value_mono(d, i - from + 1);
                }
            }
            return None;
        }
        acc = next;
        i = i + 1;
    }
    proof {
        assert(d.subrange(0, i - from) =~= d);
    }
    Some(acc)
}

/// Read a `u32` as `u32::from_str` does.
pub fn parse_u32(s: &Vec<char>) -> (r: Option<u32>)
    ensures
        r == parse_u32_text(s@),
{
    let from: usize = if s.len() > 0 && s[0] == '+' { 1 } else { 0 };
    proof {
        assert(unsigned_digits(s@) =~= s@.subrange(from as int, s@.len() as int));
    }
    match digits_upto(s, from, 4294967295u128) {
        Some(v) => Some(v as u32),
        None => None,
    }
}

/// Read an `i64` as `i64::from_str` does.
pub fn parse_i64(s: &Vec<char>) -> (r: Option<i64>)
    ensures
        r == parse_i64_text(s@),
{
    let neg = s.len() > 0 && s[0] == '-';
    let from: usize = if s.len() > 0 && (s[0] == '+' || s[0] == '-') { 1 } else { 0 };
    proof {
        assert(signed_digits(s@) =~= s@.subrange(from as int, s@.len() as int));
    }
    let limit: u128 = if neg { 9223372036854775808u128 } else { 9223372036854775807u128 };
    match digits_upto(s, from, limit) {
        Some(v) => {
            if neg {
                if v == 9223372036854775808u128 {
                    Some(i64::MIN)
                } else {
                    Some(-(v as i64))
                }
            } else {
                Some(v as i64)
            }
        },
        None => None,
    }
}

} // verus!
