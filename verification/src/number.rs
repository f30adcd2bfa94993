//! Numbers as decimal text.

use crate::text;
use vstd::prelude::*;

verus! {

/// The digit that stands for `d`.
pub open spec fn digit(d: nat) -> char
    recommends
        d < 10,
{
    (48 + d) as char
}

/// `n` in decimal, without leading zeros.
pub open spec fn decimal(n: nat) -> Seq<char>
    decreases n,
{
    if n < 10 {
        seq![digit(n)]
    } else {
        decimal(n / 10).push(digit(n % 10))
    }
}

/// The number that a row of digits stands for.
pub open spec fn digits_value(s: Seq<char>) -> nat
    decreases s.len(),
{
    if s.len() == 0 {
        0
    } else {
        digits_value(s.drop_last()) * 10 + (s.last() as nat - 48) as nat
    }
}

/// At least one character, and digits only.
pub open spec fn all_digits(s: Seq<char>) -> bool {
    &&& s.len() > 0
    &&& forall|i: int| 0 <= i < s.len() ==> text::is_digit(#[trigger] s[i])
}

/// The number that `s` writes: digits, with one plus sign before them or none.
pub open spec fn number_in(s: Seq<char>) -> Option<nat> {
    let body = if s.len() > 0 && s[0] == '+' {
        s.drop_first()
    } else {
        s
    };
    if all_digits(body) {
        Some(digits_value(body))
    } else {
        None
    }
}

/// The 16-bit number that `s` writes, if it is one.
pub open spec fn u16_in(s: Seq<char>) -> Option<u16> {
    match number_in(s) {
        Some(n) => if n <= u16::MAX {
            Some(n as u16)
        } else {
            None
        },
        None => None,
    }
}

/// Reading back what was rendered gives the number rendered.
pub proof fn lemma_decimal_value(n: nat)
    ensures
        all_digits(decimal(n)),
        digits_value(decimal(n)) == n,
    decreases n,
{
    if n < 10 {
        let s = decimal(n);
        assert(s.drop_last() =~= seq![]);
        assert(digits_value(s.drop_last()) == 0);
    } else {
        lemma_decimal_value(n / 10);
        let s = decimal(n);
        assert(s.drop_last() =~= decimal(n / 10));
        assert forall|i: int| 0 <= i < s.len() implies text::is_digit(#[trigger] s[i]) by {
            if i < s.len() - 1 {
                assert(decimal(n / 10)[i] == s[i]);
            }
        }
    }
}

/// Two numbers never have the same decimal form.
pub proof fn lemma_decimal_injective(m: nat, n: nat)
    requires
        decimal(m) == decimal(n),
    ensures
        m == n,
{
    lemma_decimal_value(m);
    lemma_decimal_value(n);
}

/// A number has at most one digit more than a tenth of its value.
pub proof fn lemma_decimal_len(n: nat)
    ensures
        decimal(n).len() <= 1 + n / 10,
    decreases n,
{
    if n >= 10 {
        lemma_decimal_len(n / 10);
    }
}

/// A 16-bit number is read back from its decimal form.
pub proof fn law_u16_round_trip(n: u16)
    ensures
        u16_in(decimal(n as nat)) == Some(n),
{
    lemma_decimal_value(n as nat);
    assert(text::is_digit(decimal(n as nat)[0]));
}

/// `n` in decimal.
pub fn to_decimal(n: u128) -> (r: String)
    ensures
        r@ == decimal(n as nat),
    decreases n,
{
    let low: u8 = (n % 10) as u8;
    let c = (48 + low) as char;
    if n < 10 {
        let mut s = String::new();
        s.push(c);
        assert(s@ =~= decimal(n as nat));
        s
    } else {
        let mut s = to_decimal(n / 10);
        s.push(c);
        s
    }
}

/// The 16-bit number that `s` writes, if it is one.
pub fn parse_u16(s: &str) -> (r: Option<u16>)
    ensures
        r == u16_in(s@),
{
    let v = text::to_chars(s);
    let start: usize = if v.len() > 0 && v[0] == '+' {
        1
    } else {
        0
    };
    let ghost body = v@.skip(start as int);
    proof {
        if start == 1 {
            assert(body =~= s@.drop_first());
        } else {
            assert(body =~= s@);
        }
    }
    if start == v.len() {
        return None;
    }
    let mut value: u32 = 0;
    let mut big: bool = false;
    let mut i: usize = start;
    assert(body.take(0) =~= seq![]);
    while i < v.len()
        invariant
            start <= i <= v@.len(),
            body == v@.skip(start as int),
            number_in(s@) == (if all_digits(body) {
                Some(digits_value(body))
            } else {
                None
            }),
            forall|j: int| 0 <= j < i - start ==> text::is_digit(#[trigger] body[j]),
            big ==> digits_value(body.take(i - start)) > u16::MAX,
            !big ==> digits_value(body.take(i - start)) == value && value <= u16::MAX,
        decreases v@.len() - i,
    {
        let c = v[i];
        assert(body[i - start] == c);
        if !(c >= '0' && c <= '9') {
            return None;
        }
        proof {
            assert(body.take(i + 1 - start).drop_last() =~= body.take(i - start));
            assert(body.take(i + 1 - start).last() == c);
        }
        if !big {
            value = value * 10 + (c as u32 - 48);
            if value > 65535 {
                big = true;
            }
        }
        i = i + 1;
    }
    assert(body.take(i - start) =~= body);
    if big {
        None
    } else {
        Some(value as u16)
    }
}

/// The digits of a number are those of its tenth, with one more behind them, and a plus sign
/// in front of digits makes no difference to what is read.
pub proof fn law_decimal(n: nat, d: nat)
    requires
        d < 10,
    ensures
        n > 0 ==> decimal(n * 10 + d) == decimal(n).push((48 + d) as char),
        decimal(d) == seq![(48 + d) as char],
{
    if n > 0 {
        assert((n * 10 + d) / 10 == n);
        assert((n * 10 + d) % 10 == d);
    }
}

/// A text is read as a port where it is a row of digits, with or without a plus sign in
/// front, whose value fits; nothing else is.
pub proof fn law_u16_in(s: Seq<char>, n: u16)
    ensures
        u16_in(s) is Some ==> s.len() > 0 && text::is_digit(s.last()) && forall|i: int|
            0 < i < s.len() ==> text::is_digit(#[trigger] s[i]),
        u16_in(s) is Some ==> text::is_digit(s[0]) || s[0] == '+',
        u16_in(seq!['+'] + decimal(n as nat)) == Some(n),
        n < u16::MAX ==> u16_in(decimal((u16::MAX + 1 + n) as nat)) is None,
{
    lemma_decimal_value(n as nat);
    let plus = seq!['+'] + decimal(n as nat);
    assert(plus.drop_first() =~= decimal(n as nat));
    lemma_decimal_value((u16::MAX + 1 + n) as nat);
    assert(text::is_digit(decimal((u16::MAX + 1 + n) as nat)[0]));
    if u16_in(s) is Some {
        if s[0] == '+' {
            let body = s.drop_first();
            assert forall|i: int| 0 < i < s.len() implies text::is_digit(#[trigger] s[i]) by {
                assert(body[i - 1] == s[i]);
            }
        }
        assert(text::is_digit(s[s.len() - 1]));
    }
}

proof fn lemma_leading_zero(s: Seq<char>)
    ensures
        digits_value(seq!['0'] + s) == digits_value(s),
    decreases s.len(),
{
    let longer = seq!['0'] + s;
    if s.len() == 0 {
        assert(longer.drop_last() =~= s);
    } else {
        lemma_leading_zero(s.drop_last());
        assert(longer.drop_last() =~= seq!['0'] + s.drop_last());
        assert(longer.last() == s.last());
    }
}

/// A zero in front of digits makes no difference to what is read.
pub proof fn law_leading_zeros(s: Seq<char>)
    requires
        all_digits(s),
    ensures
        u16_in(seq!['0'] + s) == u16_in(s),
{
    let longer = seq!['0'] + s;
    lemma_leading_zero(s);
    assert(text::is_digit(s[0]));
    assert forall|i: int| 0 <= i < longer.len() implies text::is_digit(#[trigger] longer[i]) by {
        if i > 0 {
            assert(longer[i] == s[i - 1]);
        }
    }
}

} // verus!
