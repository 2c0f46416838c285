//! Decimal text: rendering the request count and parsing the configured port.

use vstd::prelude::*;
use vstd::string::*;

verus! {

/// `c` is a decimal digit.
pub open spec fn is_digit(c: char) -> bool {
    48 <= c as u32 <= 57
}

/// Numeric value of a digit character.
pub open spec fn digit_val(c: char) -> int {
    c as u32 - 48
}

/// The digit character for a value below ten.
pub open spec fn digit_char(d: int) -> char {
    if d == 0 {
        '0'
    } else if d == 1 {
        '1'
    } else if d == 2 {
        '2'
    } else if d == 3 {
        '3'
    } else if d == 4 {
        '4'
    } else if d == 5 {
        '5'
    } else if d == 6 {
        '6'
    } else if d == 7 {
        '7'
    } else if d == 8 {
        '8'
    } else {
        '9'
    }
}

/// Decimal rendering of `n`, most significant digit first, no leading zeros
/// (a single `'0'` for zero).
pub open spec fn spec_dec(n: nat) -> Seq<char>
    decreases n,
{
    if n < 10 {
        seq![digit_char(n as int)]
    } else {
        spec_dec(n / 10) + seq![digit_char((n % 10) as int)]
    }
}

/// Numeric value of a digit string, read most significant digit first.
pub open spec fn dec_value(s: Seq<char>) -> int
    decreases s.len(),
{
    if s.len() == 0 {
        0
    } else {
        dec_value(s.drop_last()) * 10 + digit_val(s.last())
    }
}

/// Every character of `s` is a decimal digit.
pub open spec fn all_digits(s: Seq<char>) -> bool {
    forall|i: int| 0 <= i < s.len() ==> is_digit(s[i])
}

/// The digit part of a numeral: everything after an optional leading `'+'`.
pub open spec fn digits_of(s: Seq<char>) -> Seq<char> {
    if s.len() > 0 && s[0] == '+' {
        s.skip(1)
    } else {
        s
    }
}

/// `s` is accepted by `u16` parsing: an optional `'+'`, then at least one
/// digit, and a value no greater than 65535.
pub open spec fn is_u16_string(s: Seq<char>) -> bool {
    let d = digits_of(s);
    d.len() > 0 && all_digits(d) && dec_value(d) <= 65535
}

/// The value of a digit string is never negative.
proof fn lemma_dec_value_nonneg(s: Seq<char>)
    requires
        all_digits(s),
    ensures
        dec_value(s) >= 0,
    decreases s.len(),
{
    if s.len() > 0 {
        assert forall|i: int| 0 <= i < s.drop_last().len() implies is_digit(
            #[trigger] s.drop_last()[i],
        ) by {
            assert(s.drop_last()[i] == s[i]);
        }
        lemma_dec_value_nonneg(s.drop_last());
    }
}

/// Extending a digit string with further digits can only grow its value.
proof fn lemma_dec_value_prefix(s: Seq<char>, t: int)
    requires
        all_digits(s),
        0 <= t <= s.len(),
    ensures
        0 <= dec_value(s.take(t)) <= dec_value(s),
    decreases s.len() - t,
{
    assert forall|u: int, i: int| 0 <= u <= s.len() && 0 <= i < u implies is_digit(
        #[trigger] s.take(u)[i],
    ) by {
        assert(s.take(u)[i] == s[i]);
    }
    lemma_dec_value_nonneg(s.take(t));
    if t == s.len() {
        assert(s.take(t) =~= s);
    } else {
        assert(s.take(t + 1).drop_last() =~= s.take(t));
        assert(s.take(t + 1).last() == s[t]);
        assert(dec_value(s.take(t + 1)) == dec_value(s.take(t)) * 10 + digit_val(s[t]));
        lemma_dec_value_prefix(s, t + 1);
    }
}

/// A decimal rendering is never empty and consists of digits alone.
pub proof fn lemma_spec_dec_digits(n: nat)
    ensures
        spec_dec(n).len() >= 1,
        all_digits(spec_dec(n)),
    decreases n,
{
    if n < 10 {
        assert(is_digit(spec_dec(n)[0]));
    } else {
        lemma_spec_dec_digits(n / 10);
        let head = spec_dec(n / 10);
        assert forall|i: int| 0 <= i < spec_dec(n).len() implies is_digit(spec_dec(n)[i]) by {
            if i < head.len() {
                assert(spec_dec(n)[i] == head[i]);
            } else {
                assert(spec_dec(n)[i] == digit_char((n % 10) as int));
            }
        }
    }
}

/// One decimal digit as a borrowed one-character string.
fn digit_str(d: u64) -> (r: &'static str)
    requires
        d < 10,
    ensures
        r@ == seq![digit_char(d as int)],
{
    proof {
        reveal_strlit("0");
        reveal_strlit("1");
        reveal_strlit("2");
        reveal_strlit("3");
        reveal_strlit("4");
        reveal_strlit("5");
        reveal_strlit("6");
        reveal_strlit("7");
        reveal_strlit("8");
        reveal_strlit("8");
        reveal_strlit("9");
    }
    if d == 0 {
        "0"
    } else if d == 1 {
        "1"
    } else if d == 2 {
        "2"
    } else if d == 3 {
        "3"
    } else if d == 4 {
        "4"
    } else if d == 5 {
        "5"
    } else if d == 6 {
        "6"
    } else if d == 7 {
        "7"
    } else if d == 8 {
        "8"
    } else {
        "9"
    }
}

/// `n` rendered in decimal, as `u64::to_string` renders it.
pub fn u64_to_string(n: u64) -> (r: String)
    ensures
        r@ == spec_dec(n as nat),
    decreases n,
{
    if n < 10 {
        digit_str(n).to_owned()
    } else {
        let mut s = u64_to_string(n / 10);
        s.append(digit_str(n % 10));
        s
    }
}

/// `s` parsed as a `u16` the way `str::parse::<u16>` reads it: `Some` exactly
/// on numerals no greater than 65535, `None` otherwise.
pub fn parse_u16(s: &str) -> (r: Option<u16>)
    ensures
        match r {
            Some(v) => is_u16_string(s@) && v as int == dec_value(digits_of(s@)),
            None => !is_u16_string(s@),
        },
{
    let cs = crate::text::to_chars(s);
    let n = cs.len();
    let mut i: usize = 0;
    if n > 0 && cs[0] == '+' {
        i = 1;
    }
    let ghost d = digits_of(s@);
    proof {
        assert(d =~= s@.skip(i as int));
    }
    if i == n {
        return None;
    }
    let mut val: u32 = 0;
    let mut k: usize = i;
    while k < n
        invariant
            cs@ == s@,
            n == s@.len(),
            i <= k <= n,
            i < n,
            d == digits_of(s@),
            d == s@.skip(i as int),
            all_digits(d.take((k - i) as int)),
            val as int == dec_value(d.take((k - i) as int)),
            val <= 65535,
        decreases n - k,
    {
        let c = cs[k];
        let u = c as u32;
        if u < 48 || u > 57 {
            proof {
                assert(d[(k - i) as int] == s@[k as int]);
                assert(!is_digit(d[(k - i) as int]));
            }
            return None;
        }
        let dv = u - 48;
        let newval = val * 10 + dv;
        proof {
            assert(d.take((k - i + 1) as int).drop_last() =~= d.take((k - i) as int));
            assert(d.take((k - i + 1) as int).last() == d[(k - i) as int]);
            assert(d[(k - i) as int] == c);
            assert(digit_val(c) == dv as int);
            assert(dec_value(d.take((k - i + 1) as int)) == val as int * 10 + dv as int);
        }
        if newval > 65535 {
            proof {
                if is_u16_string(s@) {
                    lemma_dec_value_prefix(d, k - i + 1);
                }
            }
            return None;
        }
        val = newval;
        k = k + 1;
    }
    proof {
        assert(d.take((n - i) as int) =~= d);
    }
    Some(val as u16)
}

} // verus!
