//! Small verified string helpers: equality by characters and parsing of
//! signed decimal integers, as the channel names and identifiers need.

use vstd::prelude::*;

verus! {

/// Character-wise string equality.
pub fn str_eq(a: &str, b: &str) -> (r: bool)
    ensures
        r == (a@ == b@),
{
    let alen = a.unicode_len();
    let blen = b.unicode_len();
    if alen != blen {
        proof {
            assert(a@ != b@);
        }
        return false;
    }
    let mut i: usize = 0;
    while i < alen
        invariant
            i <= alen,
            alen == a@.len(),
            alen == b@.len(),
            forall|k: int| 0 <= k < i ==> a@[k] == b@[k],
        decreases alen - i,
    {
        if a.get_char(i) != b.get_char(i) {
            proof {
                assert(a@[i as int] != b@[i as int]);
            }
            return false;
        }
        i = i + 1;
    }
    proof {
        assert(a@ =~= b@);
    }
    true
}

/// Whether a character is an ASCII decimal digit.
pub open spec fn is_digit(c: char) -> bool {
    '0' <= c && c <= '9'
}

/// The numeric value of a digit character.
pub open spec fn digit_val(c: char) -> int {
    c as int - 48
}

/// Whether every character of the sequence is a digit.
pub open spec fn all_digits(s: Seq<char>) -> bool {
    forall|i: int| 0 <= i < s.len() ==> is_digit(#[trigger] s[i])
}

/// The value of a digit string read in base ten.
pub open spec fn digits_val(s: Seq<char>) -> int
    decreases s.len(),
{
    if s.len() == 0 {
        0
    } else {
        digits_val(s.drop_last()) * 10 + digit_val(s.last())
    }
}

/// Digit strings denote non-negative values.
pub proof fn lemma_digits_val_nonneg(s: Seq<char>)
    requires
        all_digits(s),
    ensures
        digits_val(s) >= 0,
    decreases s.len(),
{
    if s.len() > 0 {
        assert(forall|i: int| 0 <= i < s.drop_last().len() ==> s.drop_last()[i] == s[i]);
        lemma_digits_val_nonneg(s.drop_last());
        assert(digits_val(s.drop_last()) * 10 >= 0) by (nonlinear_arith)
            requires
                digits_val(s.drop_last()) >= 0,
        ;
    }
}

/// Extending a digit string to the right never shrinks its value.
pub proof fn lemma_digits_val_grows(s: Seq<char>, i: int)
    requires
        all_digits(s),
        0 <= i <= s.len(),
    ensures
        digits_val(s) >= digits_val(s.take(i)),
    decreases s.len() - i,
{
    if i == s.len() {
        assert(s.take(i) =~= s);
    } else {
        lemma_digits_val_grows(s, i + 1);
        assert(s.take(i + 1).drop_last() =~= s.take(i));
        assert(s.take(i + 1).last() == s[i]);
        assert(forall|k: int| 0 <= k < i + 1 ==> s.take(i + 1)[k] == s[k]);
        assert(forall|k: int| 0 <= k < i ==> s.take(i)[k] == s[k]);
        lemma_digits_val_nonneg(s.take(i));
        assert(digits_val(s.take(i)) * 10 + digit_val(s[i]) >= digits_val(s.take(i)))
            by (nonlinear_arith)
            requires
                digits_val(s.take(i)) >= 0,
                digit_val(s[i]) >= 0,
        ;
    }
}

/// What parsing a signed decimal 32-bit integer yields: an optional sign,
/// then at least one digit and nothing else, with the signed value in the
/// 32-bit range.
pub open spec fn spec_parse_i32(s: Seq<char>) -> Option<i32> {
    let negative = s.len() > 0 && s[0] == '-';
    let digits = if s.len() > 0 && (s[0] == '-' || s[0] == '+') {
        s.drop_first()
    } else {
        s
    };
    if digits.len() == 0 || !all_digits(digits) {
        None
    } else {
        let v = if negative {
            -digits_val(digits)
        } else {
            digits_val(digits)
        };
        if i32::MIN <= v <= i32::MAX {
            Some(v as i32)
        } else {
            None
        }
    }
}

/// Parse the digit part of an integer, from character `start` on.
fn parse_digits(s: &str, start: usize) -> (r: Option<i64>)
    requires
        start <= s@.len(),
    ensures
        ({
            let digits = s@.skip(start as int);
            match r {
                Some(v) => digits.len() > 0 && all_digits(digits) && v == digits_val(digits) && 0
                    <= v <= 0x8000_0000,
                None => digits.len() == 0 || !all_digits(digits) || digits_val(digits)
                    > 0x8000_0000,
            }
        }),
{
    let len = s.unicode_len();
    if start == len {
        return None;
    }
    let ghost digits = s@.skip(start as int);
    let mut acc: i64 = 0;
    let mut i: usize = start;
    while i < len
        invariant
            start <= i <= len,
            len == s@.len(),
            digits == s@.skip(start as int),
            forall|k: int| 0 <= k < i - start ==> is_digit(#[trigger] digits[k]),
            acc == digits_val(digits.take(i - start)),
            0 <= acc <= 0x8000_0000,
        decreases len - i,
    {
        let c = s.get_char(i);
        if c < '0' || c > '9' {
            proof {
                assert(digits[i - start] == s@[i as int]);
                assert(!is_digit(digits[i - start]));
            }
            return None;
        }
        let d = (c as u32) - 48;
        proof {
            assert(digits.take(i - start + 1).drop_last() =~= digits.take(i - start));
            assert(digits.take(i - start + 1).last() == digits[i - start]);
            assert(digits[i - start] == s@[i as int]);
        }
        acc = acc * 10 + (d as i64);
        proof {
            assert(forall|k: int| 0 <= k < i + 1 - start ==> is_digit(#[trigger] digits[k]));
        }
        if acc > 0x8000_0000 {
            proof {
                assert(forall|k: int|
                    0 <= k < digits.len() ==> digits[k] == s@[k + start]);
                if all_digits(digits) {
                    lemma_digits_val_grows(digits, i + 1 - start);
                }
            }
            return None;
        }
        i = i + 1;
    }
    proof {
        assert(digits.take(i - start) =~= digits);
    }
    Some(acc)
}

/// Parse a signed decimal 32-bit integer from the characters of `s` from
/// position `start` on, exactly as `spec_parse_i32` says.
pub fn parse_i32_from(s: &str, start: usize) -> (r: Option<i32>)
    requires
        start <= s@.len(),
    ensures
        r == spec_parse_i32(s@.skip(start as int)),
{
    let len = s.unicode_len();
    let ghost tail = s@.skip(start as int);
    if start == len {
        return None;
    }
    let first = s.get_char(start);
    let negative = first == '-';
    let digits_start = if first == '-' || first == '+' {
        start + 1
    } else {
        start
    };
    proof {
        assert(tail[0] == s@[start as int]);
        if first == '-' || first == '+' {
            assert(tail.drop_first() =~= s@.skip(start as int + 1));
        }
    }
    match parse_digits(s, digits_start) {
        None => {
            proof {
                let digits = if tail[0] == '-' || tail[0] == '+' {
                    tail.drop_first()
                } else {
                    tail
                };
                if !(digits.len() == 0 || !all_digits(digits)) {
                    assert(digits_val(digits) > 0x8000_0000);
                    lemma_digits_val_nonneg(digits);
                }
            }
            None
        },
        Some(v) => {
            if negative {
                if v > 0x8000_0000 {
                    return None;
                }
                Some((-v) as i32)
            } else {
                if v > 0x7fff_ffff {
                    return None;
                }
                Some(v as i32)
            }
        },
    }
}

} // verus!
