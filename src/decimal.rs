use vstd::prelude::*;
use vstd::string::*;

verus! {

/// An ASCII decimal digit.
pub open spec fn is_digit(c: char) -> bool {
    '0' <= c && c <= '9'
}

/// A non-empty run of decimal digits.
pub open spec fn all_digits(s: Seq<char>) -> bool {
    s.len() > 0 && forall|i: int| 0 <= i < s.len() ==> is_digit(#[trigger] s[i])
}

/// A run of digits written without a redundant leading zero.
pub open spec fn is_canonical_digits(s: Seq<char>) -> bool {
    all_digits(s) && (s.len() == 1 || s[0] != '0')
}

pub open spec fn digit_value(c: char) -> nat {
    (c as u32 - '0' as u32) as nat
}

/// The number that a run of decimal digits denotes.
pub open spec fn digits_value(s: Seq<char>) -> nat
    decreases s.len(),
{
    if s.len() == 0 {
        0
    } else {
        digits_value(s.drop_last()) * 10 + digit_value(s.last())
    }
}

pub open spec fn digit_char(d: nat) -> char {
    if d == 0 {
        '0'
    } else if d == 1 {
        '1'
    } else if d == 2 {
        '2'
    } else if d == 3 {
        '3'
    } else if d == 4 {
        '4'
    } else if d == 5 {
        '5'
    } else if d == 6 {
        '6'
    } else if d == 7 {
        '7'
    } else if d == 8 {
        '8'
    } else {
        '9'
    }
}

/// The shortest decimal text of a natural number.
pub open spec fn decimal_text(n: nat) -> Seq<char>
    decreases n,
{
    if n < 10 {
        seq![digit_char(n)]
    } else {
        decimal_text(n / 10).push(digit_char(n % 10))
    }
}

/// The text of an integer: a minus sign before the digits of a negative one.
pub open spec fn int_text(n: int) -> Seq<char> {
    if n < 0 {
        seq!['-'] + decimal_text((-n) as nat)
    } else {
        decimal_text(n as nat)
    }
}

proof fn lemma_digit_char_value(c: char)
    requires
        is_digit(c),
    ensures
        digit_char(digit_value(c)) == c,
        digit_value(c) < 10,
{
}

proof fn lemma_leading_nonzero(s: Seq<char>)
    requires
        all_digits(s),
        s[0] != '0',
    ensures
        digits_value(s) >= 1,
    decreases s.len(),
{
    if s.len() > 1 {
        let t = s.drop_last();
        assert(t[0] == s[0]);
        assert forall|i: int| 0 <= i < t.len() implies is_digit(#[trigger] t[i]) by {
            assert(t[i] == s[i]);
        }
        lemma_leading_nonzero(t);
    }
}

/// Digits without a redundant leading zero are the decimal text of their value.
pub proof fn lemma_canonical_digits_text(s: Seq<char>)
    requires
        is_canonical_digits(s),
    ensures
        decimal_text(digits_value(s)) == s,
    decreases s.len(),
{
    let c = s.last();
    assert(is_digit(s[s.len() - 1]));
    lemma_digit_char_value(c);
    if s.len() == 1 {
        assert(s.drop_last().len() == 0);
        assert(digits_value(s.drop_last()) == 0);
        assert(digits_value(s) == digits_value(s.drop_last()) * 10 + digit_value(c));
        assert(decimal_text(digits_value(s)) =~= s);
    } else {
        let t = s.drop_last();
        assert(t[0] == s[0]);
        assert forall|i: int| 0 <= i < t.len() implies is_digit(#[trigger] t[i]) by {
            assert(t[i] == s[i]);
        }
        lemma_canonical_digits_text(t);
        lemma_leading_nonzero(t);
        let v = digits_value(t);
        let d = digit_value(c);
        assert((v * 10 + d) / 10 == v && (v * 10 + d) % 10 == d) by (nonlinear_arith)
            requires
                d < 10,
        ;
        assert(v * 10 + d >= 10) by (nonlinear_arith)
            requires
                v >= 1,
        ;
        assert(decimal_text(digits_value(s)) =~= t.push(c));
        assert(t.push(c) =~= s);
    }
}

/// The decimal text of a number is digits, and they denote that number.
pub proof fn lemma_decimal_text_digits(n: nat)
    ensures
        all_digits(decimal_text(n)),
        digits_value(decimal_text(n)) == n,
    decreases n,
{
    if n < 10 {
        let t = decimal_text(n);
        assert(t == seq![digit_char(n)]);
        assert(t.drop_last() =~= Seq::<char>::empty());
        assert(digits_value(t.drop_last()) == 0);
        assert(is_digit(t[0]));
        assert(digit_value(digit_char(n)) == n);
    } else {
        lemma_decimal_text_digits(n / 10);
        let t = decimal_text(n);
        let u = decimal_text(n / 10);
        assert(t.drop_last() =~= u);
        assert(t.last() == digit_char(n % 10));
        assert(n % 10 < 10);
        assert(digit_value(digit_char(n % 10)) == n % 10);
        assert(forall|i: int| 0 <= i < t.len() ==> is_digit(#[trigger] t[i])) by {
            assert forall|i: int| 0 <= i < t.len() implies is_digit(#[trigger] t[i]) by {
                if i < u.len() {
                    assert(t[i] == u[i]);
                }
            }
        }
        assert((n / 10) * 10 + n % 10 == n) by (nonlinear_arith);
    }
}

fn digit_str(d: usize) -> (r: &'static str)
    requires
        d < 10,
    ensures
        r@ == seq![digit_char(d as nat)],
{
    proof {
        reveal_strlit("0");
        reveal_strlit("1");
        reveal_strlit("2");
        reveal_strlit("3");
        reveal_strlit("4");
        reveal_strlit("5");
        reveal_strlit("6");
        reveal_strlit("7");
        reveal_strlit("8");
        reveal_strlit("9");
    }
    let r = if d == 0 {
        "0"
    } else if d == 1 {
        "1"
    } else if d == 2 {
        "2"
    } else if d == 3 {
        "3"
    } else if d == 4 {
        "4"
    } else if d == 5 {
        "5"
    } else if d == 6 {
        "6"
    } else if d == 7 {
        "7"
    } else if d == 8 {
        "8"
    } else {
        "9"
    };
    assert(r@ =~= seq![digit_char(d as nat)]);
    r
}

/// Appends the decimal text of `n` to `out`.
pub fn push_decimal(out: &mut String, n: usize)
    ensures
        final(out)@ == old(out)@ + decimal_text(n as nat),
    decreases n,
{
    if n >= 10 {
        push_decimal(out, n / 10);
    }
    out.append(digit_str(n % 10));
    assert(final(out)@ =~= old(out)@ + decimal_text(n as nat));
}

/// The integer that a text of digits, after an optional minus sign, denotes.
pub open spec fn integer_value(t: Seq<char>) -> Option<int> {
    if t.len() > 0 && t[0] == '-' {
        if all_digits(t.drop_first()) {
            Some(-(digits_value(t.drop_first()) as int))
        } else {
            None
        }
    } else if all_digits(t) {
        Some(digits_value(t) as int)
    } else {
        None
    }
}

/// The integer of a text, where it lies in `lo..=hi`.
pub open spec fn integer_in(t: Seq<char>, lo: int, hi: int) -> Option<int> {
    match integer_value(t) {
        Some(v) => if lo <= v && v <= hi {
            Some(v)
        } else {
            None
        },
        None => None,
    }
}

const BIG: u64 = 0x100_0000_0000;

pub fn parse_integer(t: &str, lo: i64, hi: i64) -> (r: Option<i64>)
    requires
        -0x100_0000_0000 < lo <= hi < 0x100_0000_0000,
    ensures
        r matches Some(v) ==> integer_in(t@, lo as int, hi as int) == Some(v as int),
        r is None ==> integer_in(t@, lo as int, hi as int) is None,
{
    let n = t.unicode_len();
    let negative = n > 0 && t.get_char(0) == '-';
    let start: usize = if negative {
        1
    } else {
        0
    };
    let ghost digits = t@.subrange(start as int, n as int);
    assert(negative == (t@.len() > 0 && t@[0] == '-'));
    assert(negative ==> digits =~= t@.drop_first());
    assert(!negative ==> digits =~= t@);
    if start == n {
        assert(!all_digits(digits));
        return None;
    }
    let mut value: u64 = 0;
    let mut big = false;
    let mut i: usize = start;
    while i < n
        invariant
            n == t@.len(),
            start < n,
            start <= i <= n,
            digits == t@.subrange(start as int, n as int),
            negative == (t@.len() > 0 && t@[0] == '-'),
            negative ==> digits == t@.drop_first(),
            !negative ==> digits == t@,
            forall|j: int| 0 <= j < i - start ==> is_digit(#[trigger] digits[j]),
            !big ==> value == digits_value(digits.subrange(0, i - start)) && value <= BIG,
            big ==> digits_value(digits.subrange(0, i - start)) > BIG,
        decreases n - i,
    {
        let c = t.get_char(i);
        assert(c == digits[i - start]);
        if !('0' <= c && c <= '9') {
            assert(!all_digits(digits));
            return None;
        }
        let ghost pre = digits.subrange(0, i - start);
        let ghost next = digits.subrange(0, i + 1 - start);
        assert(next.drop_last() =~= pre);
        let d = (c as u32 - '0' as u32) as u64;
        assert(d == digit_value(c));
        if big || value > (BIG - d) / 10 {
            assert(digits_value(pre) * 10 + d > BIG) by (nonlinear_arith)
                requires
                    digits_value(pre) > BIG || digits_value(pre) > (BIG - d) / 10,
                    d < 10,
            ;
            big = true;
        } else {
            assert(value * 10 + d <= BIG) by (nonlinear_arith)
                requires
                    value <= (BIG - d) / 10,
                    d < 10,
            ;
            value = value * 10 + d;
        }
        i = i + 1;
    }
    assert(digits.subrange(0, n - start) =~= digits);
    assert(all_digits(digits));
    if big {
        return None;
    }
    let v: i64 = if negative {
        -(value as i64)
    } else {
        value as i64
    };
    if lo <= v && v <= hi {
        Some(v)
    } else {
        None
    }
}

} // verus!
