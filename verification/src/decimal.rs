//! Decimal numerals: rendering integers as digit strings and parsing digit
//! strings back, with an exact round trip.

use vstd::prelude::*;

verus! {

/// The character standing for one decimal digit value.
pub open spec fn digit_char(d: int) -> char {
    if d == 0 {
        '0'
    } else if d == 1 {
        '1'
    } else if d == 2 {
        '2'
    } else if d == 3 {
        '3'
    } else if d == 4 {
        '4'
    } else if d == 5 {
        '5'
    } else if d == 6 {
        '6'
    } else if d == 7 {
        '7'
    } else if d == 8 {
        '8'
    } else {
        '9'
    }
}

pub open spec fn is_digit(c: char) -> bool {
    48 <= c as u32 <= 57
}

pub open spec fn digit_val(c: char) -> int {
    c as u32 - 48
}

pub open spec fn all_digits(s: Seq<char>) -> bool {
    forall|i: int| 0 <= i < s.len() ==> is_digit(#[trigger] s[i])
}

/// Numeric value of a digit string, most significant digit first.
pub open spec fn dec_val(s: Seq<char>) -> int
    decreases s.len(),
{
    if s.len() == 0 {
        0
    } else {
        dec_val(s.drop_last()) * 10 + digit_val(s.last())
    }
}

/// Canonical decimal rendering of a non-negative integer.
pub open spec fn dec_chars(n: nat) -> Seq<char>
    decreases n,
{
    if n < 10 {
        seq![digit_char(n as int)]
    } else {
        dec_chars(n / 10).push(digit_char((n % 10) as int))
    }
}

/// Decimal rendering of a signed integer: a leading minus sign for negatives.
pub open spec fn int_dec_chars(n: int) -> Seq<char> {
    if n < 0 {
        seq!['-'] + dec_chars((-n) as nat)
    } else {
        dec_chars(n as nat)
    }
}

proof fn lemma_digit_char_val(d: int)
    requires
        0 <= d < 10,
    ensures
        is_digit(digit_char(d)),
        digit_val(digit_char(d)) == d,
{
}

pub proof fn lemma_dec_val_nonneg(s: Seq<char>)
    requires
        all_digits(s),
    ensures
        dec_val(s) >= 0,
    decreases s.len(),
{
    if s.len() > 0 {
        assert(all_digits(s.drop_last())) by {
            assert(forall|i: int|
                0 <= i < s.len() - 1 ==> s.drop_last()[i] == #[trigger] s[i]);
        }
        lemma_dec_val_nonneg(s.drop_last());
        assert(is_digit(s.last()));
    }
}

/// The rendering of a number consists of digits only and is never empty.
pub proof fn lemma_dec_chars_digits(n: nat)
    ensures
        dec_chars(n).len() >= 1,
        all_digits(dec_chars(n)),
    decreases n,
{
    if n < 10 {
        lemma_digit_char_val(n as int);
    } else {
        lemma_dec_chars_digits(n / 10);
        lemma_digit_char_val((n % 10) as int);
        assert forall|i: int| 0 <= i < dec_chars(n).len() implies is_digit(
            #[trigger] dec_chars(n)[i],
        ) by {
            if i < dec_chars(n / 10).len() {
                assert(dec_chars(n)[i] == dec_chars(n / 10)[i]);
            }
        }
    }
}

/// Parsing the rendering of a number gives that number back.
pub proof fn lemma_dec_val_of_dec_chars(n: nat)
    ensures
        dec_val(dec_chars(n)) == n,
    decreases n,
{
    if n < 10 {
        lemma_digit_char_val(n as int);
        let t = seq![digit_char(n as int)];
        assert(t.drop_last() =~= Seq::<char>::empty());
        assert(t.last() == digit_char(n as int));
        assert(dec_val(t) == dec_val(t.drop_last()) * 10 + digit_val(t.last()));
        assert(dec_val(t) == n);
    } else {
        lemma_dec_val_of_dec_chars(n / 10);
        lemma_digit_char_val((n % 10) as int);
        let s = dec_chars(n / 10);
        let c = digit_char((n % 10) as int);
        assert(s.push(c).drop_last() =~= s);
        assert(s.push(c).last() == c);
        assert(dec_val(s.push(c)) == dec_val(s) * 10 + digit_val(c));
        assert(n / 10 * 10 + n % 10 == n) by {
            vstd::arithmetic::div_mod::lemma_fundamental_div_mod(n as int, 10);
        }
    }
}

/// The value of a digit string bounds the value of each of its prefixes.
pub proof fn lemma_dec_val_prefix(s: Seq<char>, j: int)
    requires
        all_digits(s),
        0 <= j <= s.len(),
    ensures
        dec_val(s.take(j)) <= dec_val(s),
    decreases s.len() - j,
{
    if j < s.len() {
        lemma_dec_val_prefix(s, j + 1);
        let t = s.take(j + 1);
        assert(t.drop_last() =~= s.take(j));
        assert(t.last() == s[j]);
        assert(all_digits(s.take(j))) by {
            assert(forall|i: int|
                0 <= i < j ==> s.take(j)[i] == #[trigger] s[i]);
        }
        lemma_dec_val_nonneg(s.take(j));
        assert(is_digit(s[j]));
        assert(dec_val(s.take(j)) <= dec_val(s.take(j)) * 10 + digit_val(s[j]));
    } else {
        assert(s.take(j) =~= s);
    }
}

/// A single decimal digit as a string slice.
fn digit_str(d: u64) -> (r: &'static str)
    requires
        d < 10,
    ensures
        r@ =~= seq![digit_char(d as int)],
{
    proof {
        reveal_strlit("0");
        reveal_strlit("1");
        reveal_strlit("2");
        reveal_strlit("3");
        reveal_strlit("4");
        reveal_strlit("5");
        reveal_strlit("6");
        reveal_strlit("7");
        reveal_strlit("8");
        reveal_strlit("9");
    }
    if d == 0 {
        "0"
    } else if d == 1 {
        "1"
    } else if d == 2 {
        "2"
    } else if d == 3 {
        "3"
    } else if d == 4 {
        "4"
    } else if d == 5 {
        "5"
    } else if d == 6 {
        "6"
    } else if d == 7 {
        "7"
    } else if d == 8 {
        "8"
    } else {
        "9"
    }
}

/// Renders a non-negative number in decimal.
pub fn u64_to_dec(n: u64) -> (r: String)
    ensures
        r@ == dec_chars(n as nat),
    decreases n,
{
    if n < 10 {
        let s = digit_str(n);
        let r = s.to_owned();
        r
    } else {
        let mut r = u64_to_dec(n / 10);
        let d = digit_str(n % 10);
        r.append(d);
        assert(r@ =~= dec_chars(n as nat));
        r
    }
}

/// Renders a signed number in decimal, with a minus sign when negative.
pub fn i64_to_dec(n: i64) -> (r: String)
    ensures
        r@ == int_dec_chars(n as int),
{
    if n >= 0 {
        u64_to_dec(n as u64)
    } else {
        let wide: i128 = -(n as i128);
        let mag = u64_to_dec(wide as u64);
        proof {
            reveal_strlit("-");
        }
        let mut r = String::new();
        r.append("-");
        r.append(mag.as_str());
        assert(r@ =~= int_dec_chars(n as int));
        r
    }
}

/// What parsing a string as a bounded non-negative decimal numeral yields.
pub open spec fn parse_u64_spec(s: Seq<char>) -> Option<u64> {
    if s.len() > 0 && all_digits(s) && dec_val(s) <= u64::MAX {
        Some(dec_val(s) as u64)
    } else {
        None
    }
}

/// Parses a string of decimal digits; rejects empty strings, strings with a
/// non-digit character, and values that do not fit.
pub fn parse_u64_dec(s: &str) -> (r: Option<u64>)
    ensures
        r == parse_u64_spec(s@),
{
    let n = s.unicode_len();
    if n == 0 {
        return None;
    }
    let mut acc: u64 = 0;
    let mut i: usize = 0;
    while i < n
        invariant
            0 < n == s@.len(),
            0 <= i <= n,
            all_digits(s@.take(i as int)),
            acc == dec_val(s@.take(i as int)),
        decreases n - i,
    {
        let c = s.get_char(i);
        let cv = c as u32;
        if cv < 48 || cv > 57 {
            assert(!is_digit(s@[i as int]));
            return None;
        }
        let d = (cv - 48) as u64;
        proof {
            assert(s@.take(i + 1).drop_last() =~= s@.take(i as int));
            assert(s@.take(i + 1).last() == s@[i as int]);
            assert(forall|k: int|
                0 <= k < i + 1 ==> s@.take(i + 1)[k] == #[trigger] s@[k]);
        }
        proof {
            if all_digits(s@) {
                lemma_dec_val_prefix(s@, i + 1);
            }
        }
        let shifted = match acc.checked_mul(10) {
            Some(v) => v,
            None => {
                return None;
            },
        };
        acc = match shifted.checked_add(d) {
            Some(v) => v,
            None => {
                return None;
            },
        };
        i = i + 1;
    }
    proof {
        assert(s@.take(n as int) =~= s@);
    }
    Some(acc)
}

} // verus!
