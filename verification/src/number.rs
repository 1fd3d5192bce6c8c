//! Whole numbers written in decimal.
use crate::text::{chars_of, is_digit};
use vstd::prelude::*;

verus! {

/// The character for the digit `d`.
pub open spec fn digit_char(d: int) -> char {
    ((48 + d) as u8) as char
}

/// The value of the digit `c`.
pub open spec fn digit_value(c: char) -> nat {
    ((c as int) - 48) as nat
}

/// `n` in decimal, with no leading zeros.
pub open spec fn decimal(n: nat) -> Seq<char>
    decreases n,
{
    if n < 10 {
        seq![digit_char(n as int)]
    } else {
        decimal(n / 10).push(digit_char((n % 10) as int))
    }
}

/// `n` in decimal, with no leading zeros.
pub fn decimal_of(n: u64) -> (r: String)
    ensures
        r@ == decimal(n as nat),
    decreases n,
{
    let mut out = if n < 10 {
        String::new()
    } else {
        decimal_of(n / 10)
    };
    let d: u8 = (n % 10) as u8;
    out.push((48 + d) as char);
    assert(n < 10 ==> out@ == seq![digit_char(n as int)]);
    out
}

/// Whether `s` holds nothing but digits.
pub open spec fn all_digits(s: Seq<char>) -> bool {
    forall|i: int| 0 <= i < s.len() ==> is_digit(#[trigger] s[i])
}

/// The number that the digits of `s` write.
pub open spec fn digits_value(s: Seq<char>) -> nat
    decreases s.len(),
{
    if s.len() == 0 {
        0
    } else {
        digits_value(s.drop_last()) * 10 + digit_value(s.last())
    }
}

/// `s` without one leading plus sign.
pub open spec fn without_plus(s: Seq<char>) -> Seq<char> {
    if s.len() > 0 && s[0] == '+' {
        s.drop_first()
    } else {
        s
    }
}

/// The number that `s` writes: digits, at least one of them, after an optional
/// plus sign.
pub open spec fn number_in(s: Seq<char>) -> Option<nat> {
    let d = without_plus(s);
    if d.len() > 0 && all_digits(d) {
        Some(digits_value(d))
    } else {
        None
    }
}

/// The number that `s` writes, when it is at most `limit`.
pub open spec fn number_up_to(s: Seq<char>, limit: nat) -> Option<nat> {
    match number_in(s) {
        Some(n) => if n <= limit {
            Some(n)
        } else {
            None
        },
        None => None,
    }
}

/// The number that `v[from..]` writes in digits, when it is one and at most
/// `limit`.
fn read_digits(v: &Vec<char>, from: usize, limit: u64) -> (r: Option<u64>)
    requires
        from <= v@.len(),
    ensures
        match r {
            Some(n) => {
                &&& v@.len() > from
                &&& all_digits(v@.skip(from as int))
                &&& digits_value(v@.skip(from as int)) == n
                &&& n <= limit
            },
            None => {
                ||| v@.len() == from
                ||| !all_digits(v@.skip(from as int))
                ||| digits_value(v@.skip(from as int)) > limit
            },
        },
{
    let ghost d = v@.skip(from as int);
    if from == v.len() {
        return None;
    }
    let mut i: usize = from;
    let mut n: u64 = 0;
    let mut over: bool = false;
    while i < v.len()
        invariant
            from <= i <= v@.len(),
            d == v@.skip(from as int),
            all_digits(d.take(i - from)),
            over ==> digits_value(d.take(i - from)) > limit,
            !over ==> digits_value(d.take(i - from)) == n && n <= limit,
        decreases v@.len() - i,
    {
        let c = v[i];
        assert(d[i - from] == c);
        if c < '0' || c > '9' {
            return None;
        }
        let x: u64 = ((c as u8) - 48) as u64;
        assert(d.take(i - from + 1).drop_last() == d.take(i - from));
        assert(d.take(i - from + 1).last() == c);
        assert(x == digit_value(c));
        if !over {
            match n.checked_mul(10) {
                Some(m) => match m.checked_add(x) {
                    Some(k) => {
                        n = k;
                        over = k > limit;
                    },
                    None => {
                        over = true;
                    },
                },
                None => {
                    over = true;
                },
            }
        }
        i = i + 1;
    }
    assert(d.take(i - from) == d);
    if over {
        None
    } else {
        Some(n)
    }
}

/// The number that `s` writes, when it is at most `limit`.
pub fn read_number(s: &str, limit: u64) -> (r: Option<u64>)
    ensures
        match r {
            Some(n) => number_up_to(s@, limit as nat) == Some(n as nat),
            None => number_up_to(s@, limit as nat) is None,
        },
{
    let v = chars_of(s);
    let from: usize = if v.len() > 0 && v[0] == '+' {
        1
    } else {
        0
    };
    assert(v@.skip(from as int) == without_plus(s@));
    read_digits(&v, from, limit)
}

/// The whole number that `s` writes, with a minus sign allowed in front, when
/// it fits an `i64`.
pub open spec fn signed_in(s: Seq<char>) -> Option<int> {
    if s.len() > 0 && s[0] == '-' {
        let d = s.drop_first();
        if d.len() > 0 && all_digits(d) && digits_value(d) <= 0x8000_0000_0000_0000 {
            Some(-(digits_value(d) as int))
        } else {
            None
        }
    } else {
        match number_up_to(s, 0x7fff_ffff_ffff_ffff) {
            Some(n) => Some(n as int),
            None => None,
        }
    }
}

/// The whole number that `s` writes, with a minus sign allowed in front, when
/// it fits an `i64`.
pub fn read_signed(s: &str) -> (r: Option<i64>)
    ensures
        match r {
            Some(n) => signed_in(s@) == Some(n as int),
            None => signed_in(s@) is None,
        },
{
    let v = chars_of(s);
    if v.len() > 0 && v[0] == '-' {
        assert(v@.skip(1) == s@.drop_first());
        match read_digits(&v, 1, 0x8000_0000_0000_0000) {
            Some(n) => {
                let m: i128 = -(n as i128);
                Some(m as i64)
            },
            None => None,
        }
    } else {
        match read_number(s, 0x7fff_ffff_ffff_ffff) {
            Some(n) => Some(n as i64),
            None => None,
        }
    }
}

/// A number written in decimal reads back as itself.
pub proof fn law_decimal_reads_back(n: nat)
    ensures
        number_in(decimal(n)) == Some(n),
{
    lemma_decimal(n);
    assert(decimal(n)[0] != '+');
    assert(without_plus(decimal(n)) == decimal(n));
}

/// A number in decimal is made of digits, at least one.
pub proof fn lemma_decimal(n: nat)
    ensures
        decimal(n).len() > 0,
        all_digits(decimal(n)),
        digits_value(decimal(n)) == n,
        is_digit(decimal(n)[0]),
    decreases n,
{
    let s = decimal(n);
    if n < 10 {
        assert(s.drop_last() == Seq::<char>::empty());
        assert(digits_value(s.drop_last()) == 0);
    } else {
        lemma_decimal(n / 10);
        assert(s.drop_last() == decimal(n / 10));
    }
}

/// Different numbers have different decimal forms.
pub proof fn law_decimal_is_injective(m: nat, n: nat)
    requires
        decimal(m) == decimal(n),
    ensures
        m == n,
{
    lemma_decimal(m);
    lemma_decimal(n);
}

/// `n` in decimal, with a minus before it when it is negative.
pub open spec fn signed_decimal(n: int) -> Seq<char> {
    if n < 0 {
        "-"@ + decimal((-n) as nat)
    } else {
        decimal(n as nat)
    }
}

/// `n` in decimal, with a minus before it when it is negative.
pub fn signed_decimal_of(n: i64) -> (r: String)
    ensures
        r@ == signed_decimal(n as int),
{
    if n < 0 {
        let size: u64 = (-(n + 1)) as u64 + 1;
        let digits = decimal_of(size);
        crate::text::glue2("-", digits.as_str())
    } else {
        decimal_of(n as u64)
    }
}

/// A number is written with its last digit last, in the usual digits.
pub proof fn law_how_numbers_are_written(n: nat)
    ensures
        decimal(n).last() as int == 48 + n % 10,
        n < 10 ==> decimal(n).len() == 1,
        n >= 10 ==> decimal(n).drop_last() == decimal(n / 10),
        signed_decimal(n as int) == decimal(n),
        n > 0 ==> signed_decimal(-(n as int)) == "-"@ + decimal(n),
{
    if n >= 10 {
        assert(decimal(n).drop_last() == decimal(n / 10));
    }
}

/// A number is read digit by digit, with at most a plus sign before it; anything
/// else is none.
pub proof fn law_how_numbers_are_read(s: Seq<char>, c: char)
    ensures
        '0' <= c <= '9' ==> number_in(seq![c]) == Some((c as int - 48) as nat),
        '0' <= c <= '9' ==> (number_in(s) matches Some(n) ==> number_in(s.push(c)) == Some(
            (n * 10 + (c as int - 48)) as nat,
        )),
        !('0' <= c <= '9') && s.len() > 0 ==> number_in(s.push(c)) is None,
        number_in(Seq::empty()) is None,
        s.len() > 0 && s[0] != '+' ==> number_in(seq!['+'] + s) == number_in(s),
{
    let one = seq![c];
    if '0' <= c <= '9' {
        assert(without_plus(one) == one);
        assert(one.drop_last() == Seq::<char>::empty());
        assert(digits_value(one.drop_last()) == 0);
        assert(all_digits(one));
        if number_in(s) is Some {
            let d = without_plus(s);
            let more = s.push(c);
            assert(without_plus(more) == d.push(c)) by {
                if s[0] == '+' {
                    assert(more.drop_first() == s.drop_first().push(c));
                }
            }
            assert(d.push(c).drop_last() == d);
            assert(all_digits(d.push(c)));
        }
    } else if s.len() > 0 {
        let more = s.push(c);
        let d = without_plus(more);
        assert(d[d.len() - 1] == c);
        assert(!is_digit(c));
    }
    if s.len() > 0 && s[0] != '+' {
        assert((seq!['+'] + s).drop_first() == s);
    }
}

/// A number within its limit is read as itself, and one above it as none.
pub proof fn law_limits_are_kept(n: nat, limit: nat)
    ensures
        n <= limit ==> number_up_to(decimal(n), limit) == Some(n),
        n > limit ==> number_up_to(decimal(n), limit) is None,
        0 < n <= 0x8000_0000_0000_0000 ==> signed_in(seq!['-'] + decimal(n)) == Some(-(n as int)),
        n <= 0x7fff_ffff_ffff_ffff ==> signed_in(decimal(n)) == Some(n as int),
{
    law_decimal_reads_back(n);
    lemma_decimal(n);
    let neg = seq!['-'] + decimal(n);
    assert(neg.drop_first() == decimal(n));
}

} // verus!
