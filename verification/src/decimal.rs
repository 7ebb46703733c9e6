//! Decimal integer text: parsing as `u64::from_str` / `i64::from_str` do,
//! and formatting as `Display` does.

use vstd::prelude::*;

verus! {

/// `c` is an ASCII digit.
pub open spec fn is_digit(c: char) -> bool {
    '0' <= c && c <= '9'
}

/// Numeric value of an ASCII digit.
pub open spec fn digit_value(c: char) -> int {
    (c as u32) - ('0' as u32)
}

/// Every character of `d` is an ASCII digit.
pub open spec fn all_digits(d: Seq<char>) -> bool {
    forall|i: int| 0 <= i < d.len() ==> is_digit(d[i])
}

/// The number that the digits `d` spell.
pub open spec fn digits_value(d: Seq<char>) -> int
    decreases d.len(),
{
    if d.len() == 0 {
        0
    } else {
        digits_value(d.drop_last()) * 10 + digit_value(d.last())
    }
}

/// The number written by a non-empty run of digits that fits `u64`.
pub open spec fn digits_u64(d: Seq<char>) -> Option<u64> {
    if d.len() > 0 && all_digits(d) && digits_value(d) <= u64::MAX {
        Some(digits_value(d) as u64)
    } else {
        None
    }
}

/// What `u64::from_str` returns: an optional `+`, then digits, within range.
pub open spec fn parse_u64(s: Seq<char>) -> Option<u64> {
    if s.len() > 0 && s[0] == '+' {
        digits_u64(s.skip(1))
    } else {
        digits_u64(s)
    }
}

/// What `i64::from_str` returns: an optional sign, then digits, within range.
pub open spec fn parse_i64(s: Seq<char>) -> Option<i64> {
    if s.len() > 0 && s[0] == '-' {
        let d = s.skip(1);
        if d.len() > 0 && all_digits(d) && digits_value(d) <= 0x8000_0000_0000_0000 {
            Some((0 - digits_value(d)) as i64)
        } else {
            None
        }
    } else {
        let d = if s.len() > 0 && s[0] == '+' {
            s.skip(1)
        } else {
            s
        };
        if d.len() > 0 && all_digits(d) && digits_value(d) <= i64::MAX {
            Some(digits_value(d) as i64)
        } else {
            None
        }
    }
}

/// The ASCII digit for `n < 10`.
pub open spec fn digit_char(n: int) -> char {
    (('0' as u32) + n) as char
}

/// Decimal text of `n` without leading zeros.
pub open spec fn decimal(n: nat) -> Seq<char>
    decreases n,
{
    if n < 10 {
        seq![digit_char(n as int)]
    } else {
        decimal(n / 10).push(digit_char((n % 10) as int))
    }
}

/// Decimal text of a signed value.
pub open spec fn decimal_signed(n: int) -> Seq<char> {
    if n < 0 {
        seq!['-'] + decimal((0 - n) as nat)
    } else {
        decimal(n as nat)
    }
}

proof fn lemma_digits_value_nonneg(d: Seq<char>)
    requires
        all_digits(d),
    ensures
        digits_value(d) >= 0,
    decreases d.len(),
{
    if d.len() > 0 {
        lemma_digits_value_nonneg(d.drop_last());
    }
}

/// Decimal text is all digits, non-empty, and spells `n`.
pub proof fn lemma_decimal(n: nat)
    ensures
        decimal(n).len() > 0,
        all_digits(decimal(n)),
        digits_value(decimal(n)) == n,
    decreases n,
{
    if n >= 10 {
        lemma_decimal(n / 10);
        let d = decimal(n);
        assert(d.drop_last() =~= decimal(n / 10));
        assert(forall|i: int| 0 <= i < d.len() - 1 ==> d[i] == decimal(n / 10)[i]);
        assert(digit_value(digit_char((n % 10) as int)) == n % 10);
        assert((n / 10) * 10 + n % 10 == n) by (nonlinear_arith);
        assert(d.last() == digit_char((n % 10) as int));
        assert(digits_value(d) == digits_value(d.drop_last()) * 10 + digit_value(d.last()));
        assert(digits_value(d.drop_last()) == n / 10);
        assert(digits_value(d) == (n / 10) * 10 + n % 10);
        assert(digits_value(d) == n);
    } else {
        let d = decimal(n);
        assert(digit_value(digit_char(n as int)) == n);
        assert(d.drop_last() =~= Seq::<char>::empty());
        assert(digits_value(Seq::<char>::empty()) == 0);
        assert(digits_value(d) == digits_value(d.drop_last()) * 10 + digit_value(d.last()));
        assert(digits_value(d) == n);
    }
}

/// Reading back the decimal text of a `u64` gives it back.
pub proof fn law_parse_decimal_roundtrip(n: u64)
    ensures
        parse_u64(decimal(n as nat)) == Some(n),
{
    lemma_decimal(n as nat);
}

/// Value of the digits of `d` up to `d.take(i + 1)`.
proof fn lemma_take_step(d: Seq<char>, i: int)
    requires
        0 <= i < d.len(),
    ensures
        digits_value(d.take(i + 1)) == digits_value(d.take(i)) * 10 + digit_value(d[i]),
{
    assert(d.take(i + 1).drop_last() =~= d.take(i));
}

/// Parses a non-empty run of ASCII digits into a `u64`; `None` on any other
/// character or when the value does not fit.
pub fn parse_digits(d: &Vec<char>, lo: usize) -> (r: Option<u64>)
    requires
        lo <= d.len(),
    ensures
        r == digits_u64(d@.skip(lo as int)),
{
    let ghost s = d@.skip(lo as int);
    if lo == d.len() {
        return None;
    }
    let mut acc: u64 = 0;
    let mut over = false;
    let mut i = lo;
    assert(s.take(0) =~= Seq::<char>::empty());
    while i < d.len()
        invariant
            lo <= i <= d.len(),
            s == d@.skip(lo as int),
            all_digits(s.take(i - lo)),
            !over ==> acc == digits_value(s.take(i - lo)),
            over ==> digits_value(s.take(i - lo)) > u64::MAX,
        decreases d.len() - i,
    {
        let c = d[i];
        if !('0' <= c && c <= '9') {
            assert(!is_digit(s[i - lo]));
            return None;
        }
        let dig = (c as u32 - '0' as u32) as u64;
        proof {
            lemma_take_step(s, i - lo);
            lemma_digits_value_nonneg(s.take(i - lo));
            assert(s[i - lo] == c);
            assert(all_digits(s.take(i - lo + 1))) by {
                assert forall|j: int| 0 <= j < i - lo + 1 implies is_digit(#[trigger] s.take(i - lo + 1)[j]) by {
                    if j < i - lo {
                        assert(s.take(i - lo + 1)[j] == s.take(i - lo)[j]);
                    }
                }
            }
        }
        if !over {
            if acc < 1844674407370955161 || (acc == 1844674407370955161 && dig <= 5) {
                acc = acc * 10 + dig;
            } else {
                over = true;
                assert(digits_value(s.take(i - lo + 1)) > u64::MAX) by (nonlinear_arith)
                    requires
                        digits_value(s.take(i - lo + 1)) == acc * 10 + dig,
                        acc > 1844674407370955161 || (acc == 1844674407370955161 && dig > 5),
                ;
            }
        } else {
            assert(digits_value(s.take(i - lo + 1)) > u64::MAX) by (nonlinear_arith)
                requires
                    digits_value(s.take(i - lo + 1)) == digits_value(s.take(i - lo)) * 10 + dig,
                    digits_value(s.take(i - lo)) > u64::MAX,
                    dig >= 0,
            ;
        }
        i += 1;
    }
    assert(s.take(i - lo) =~= s);
    if over {
        None
    } else {
        Some(acc)
    }
}

/// `u64::from_str` on a character sequence.
pub fn parse_u64_exec(s: &Vec<char>) -> (r: Option<u64>)
    ensures
        r == parse_u64(s@),
{
    if s.len() > 0 && s[0] == '+' {
        parse_digits(s, 1)
    } else {
        assert(s@.skip(0) =~= s@);
        parse_digits(s, 0)
    }
}

/// `i64::from_str` on a character sequence.
pub fn parse_i64_exec(s: &Vec<char>) -> (r: Option<i64>)
    ensures
        r == parse_i64(s@),
{
    if s.len() > 0 && s[0] == '-' {
        match parse_digits(s, 1) {
            Some(m) => {
                proof {
                    lemma_digits_value_nonneg(s@.skip(1));
                }
                if m <= 0x8000_0000_0000_0000 {
                    if m == 0x8000_0000_0000_0000 {
                        Some(i64::MIN)
                    } else {
                        Some(-(m as i64))
                    }
                } else {
                    None
                }
            },
            None => None,
        }
    } else {
        let lo: usize = if s.len() > 0 && s[0] == '+' {
            1
        } else {
            0
        };
        assert(s@.skip(0) =~= s@);
        match parse_digits(s, lo) {
            Some(m) => {
                proof {
                    lemma_digits_value_nonneg(s@.skip(lo as int));
                }
                if m <= 0x7fff_ffff_ffff_ffff {
                    Some(m as i64)
                } else {
                    None
                }
            },
            None => None,
        }
    }
}

/// Decimal text of `n` (`u64` as `Display` prints it).
pub fn format_u64(n: u64) -> (r: Vec<char>)
    ensures
        r@ == decimal(n as nat),
    decreases n,
{
    let d = ((n % 10) as u8 + 48u8) as char;
    proof {
        assert(((n % 10) as u8 + 48u8) as u32 == ('0' as u32) + (n % 10));
    }
    if n < 10 {
        let mut r: Vec<char> = Vec::new();
        r.push(d);
        assert(r@ =~= seq![digit_char(n as int)]);
        r
    } else {
        let mut r = format_u64(n / 10);
        r.push(d);
        r
    }
}

/// Decimal text of `n` (`i64` as `Display` prints it).
pub fn format_i64(n: i64) -> (r: Vec<char>)
    ensures
        r@ == decimal_signed(n as int),
{
    if n < 0 {
        let m: u64 = if n == i64::MIN {
            0x8000_0000_0000_0000
        } else {
            (-n) as u64
        };
        let digits = format_u64(m);
        let mut r: Vec<char> = Vec::new();
        r.push('-');
        let mut i: usize = 0;
        while i < digits.len()
            invariant
                i <= digits.len(),
                r@ == seq!['-'] + digits@.take(i as int),
            decreases digits.len() - i,
        {
            r.push(digits[i]);
            i += 1;
            assert(r@ =~= seq!['-'] + digits@.take(i as int));
        }
        assert(digits@.take(digits.len() as int) =~= digits@);
        r
    } else {
        format_u64(n as u64)
    }
}

} // verus!
