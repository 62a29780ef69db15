//! Decimal numbers in text: reading an unsigned number and writing one.

use vstd::prelude::*;

verus! {

/// The value of a decimal digit.
pub open spec fn digit_value(c: char) -> Option<nat> {
    if '0' <= c <= '9' {
        Some((c as u32 - '0' as u32) as nat)
    } else {
        None
    }
}

/// The value of a run of decimal digits, most significant first. The empty
/// run has the value zero; a run with any other character has none.
pub open spec fn digits_value(s: Seq<char>) -> Option<nat>
    decreases s.len(),
{
    if s.len() == 0 {
        Some(0)
    } else {
        match (digits_value(s.drop_last()), digit_value(s.last())) {
            (Some(high), Some(low)) => Some(high * 10 + low),
            _ => None,
        }
    }
}

/// The value of an unsigned decimal number: one or more digits, which a
/// single `+` may precede. Anything else has no value.
pub open spec fn decimal_value(s: Seq<char>) -> Option<nat> {
    let digits = if s.len() > 0 && s[0] == '+' {
        s.drop_first()
    } else {
        s
    };
    if digits.len() == 0 {
        None
    } else {
        digits_value(digits)
    }
}

/// The value of an unsigned decimal number that is at most `max`.
pub open spec fn bounded_decimal(s: Seq<char>, max: nat) -> Option<nat> {
    match decimal_value(s) {
        Some(v) => if v <= max {
            Some(v)
        } else {
            None
        },
        None => None,
    }
}

/// A longer run of digits has no smaller value than a run it begins with.
proof fn lemma_digits_grow(s: Seq<char>, upto: int)
    requires
        0 <= upto <= s.len(),
        digits_value(s) is Some,
    ensures
        digits_value(s.take(upto)) is Some,
        digits_value(s.take(upto))->Some_0 <= digits_value(s)->Some_0,
    decreases s.len() - upto,
{
    if upto == s.len() {
        assert(s.take(upto) =~= s);
    } else {
        assert(s.drop_last().take(upto) =~= s.take(upto));
        lemma_digits_grow(s.drop_last(), upto);
    }
}

/// Reads an unsigned decimal number that is at most `max`.
pub fn parse_decimal(s: &Vec<char>, max: u64) -> (res: Option<u64>)
    ensures
        match res {
            Some(v) => bounded_decimal(s@, max as nat) == Some(v as nat),
            None => bounded_decimal(s@, max as nat) is None,
        },
{
    let start: usize = if s.len() > 0 && s[0] == '+' {
        1
    } else {
        0
    };
    if start == s.len() {
        return None;
    }
    let ghost digits = s@.subrange(start as int, s.len() as int);
    assert(digits =~= if start == 1 {
        s@.drop_first()
    } else {
        s@
    });
    let mut value: u64 = 0;
    let mut i: usize = start;
    assert(digits.take(0) =~= Seq::<char>::empty());
    assert(decimal_value(s@) == digits_value(digits));
    while i < s.len()
        invariant
            start <= i <= s.len(),
            digits == s@.subrange(start as int, s.len() as int),
            decimal_value(s@) == digits_value(digits),
            digits_value(digits.take(i - start)) == Some(value as nat),
            value <= max,
        decreases s.len() - i,
    {
        let c = s[i];
        let ghost upto = digits.take(i - start + 1);
        proof {
            assert(upto.drop_last() =~= digits.take(i - start));
            assert(upto.last() == c);
        }
        if !('0' <= c && c <= '9') {
            proof {
                if digits_value(digits) is Some {
                    lemma_digits_grow(digits, i - start + 1);
                }
            }
            return None;
        }
        let low: u64 = (c as u32 - '0' as u32) as u64;
        let next = match value.checked_mul(10) {
            Some(high) => high.checked_add(low),
            None => None,
        };
        match next {
            Some(v) if v <= max => {
                value = v;
            },
            _ => {
                proof {
                    if digits_value(digits) is Some {
                        lemma_digits_grow(digits, i - start + 1);
                    }
                }
                return None;
            },
        }
        i += 1;
    }
    assert(digits.take(s.len() - start) =~= digits);
    Some(value)
}

/// The character of a decimal digit.
pub open spec fn digit_char(d: nat) -> char {
    if d == 0 {
        '0'
    } else if d == 1 {
        '1'
    } else if d == 2 {
        '2'
    } else if d == 3 {
        '3'
    } else if d == 4 {
        '4'
    } else if d == 5 {
        '5'
    } else if d == 6 {
        '6'
    } else if d == 7 {
        '7'
    } else if d == 8 {
        '8'
    } else {
        '9'
    }
}

/// A number in decimal, without leading zeros.
pub open spec fn decimal_text(n: nat) -> Seq<char>
    decreases n,
{
    if n < 10 {
        seq![digit_char(n)]
    } else {
        decimal_text(n / 10).push(digit_char(n % 10))
    }
}

fn digit(d: u64) -> (res: char)
    requires
        d < 10,
    ensures
        res == digit_char(d as nat),
{
    if d == 0 {
        '0'
    } else if d == 1 {
        '1'
    } else if d == 2 {
        '2'
    } else if d == 3 {
        '3'
    } else if d == 4 {
        '4'
    } else if d == 5 {
        '5'
    } else if d == 6 {
        '6'
    } else if d == 7 {
        '7'
    } else if d == 8 {
        '8'
    } else {
        '9'
    }
}

/// Appends a number in decimal to `out`.
pub fn push_decimal(out: &mut Vec<char>, n: u64)
    ensures
        final(out)@ == old(out)@ + decimal_text(n as nat),
    decreases n,
{
    if n >= 10 {
        push_decimal(out, n / 10);
    }
    out.push(digit(n % 10));
    assert(out@ =~= old(out)@ + decimal_text(n as nat));
}

/// Reading back a written number gives the number.
pub proof fn lemma_decimal_round_trip(n: nat)
    ensures
        decimal_value(decimal_text(n)) == Some(n),
{
    lemma_digits_of_text(n);
    lemma_text_shape(n);
}

proof fn lemma_text_shape(n: nat)
    ensures
        decimal_text(n).len() >= 1,
        decimal_text(n)[0] != '+',
    decreases n,
{
    if n >= 10 {
        lemma_text_shape(n / 10);
    }
}

proof fn lemma_digits_of_text(n: nat)
    ensures
        digits_value(decimal_text(n)) == Some(n),
    decreases n,
{
    if n < 10 {
        let t = decimal_text(n);
        assert(t.drop_last() =~= Seq::<char>::empty());
        assert(digits_value(t.drop_last()) == Some(0nat));
    } else {
        lemma_digits_of_text(n / 10);
        let t = decimal_text(n);
        assert(t.drop_last() =~= decimal_text(n / 10));
        assert(t.last() == digit_char(n % 10));
    }
}

} // verus!
