use vstd::prelude::*;
use crate::text::{chars_of, is_digit, push_char};

verus! {

pub open spec fn digit_char(d: int) -> char {
    seq!['0', '1', '2', '3', '4', '5', '6', '7', '8', '9'][d]
}

/// The decimal digits of `n`, most significant first, without leading zeros.
pub open spec fn decimal(n: nat) -> Seq<char>
    decreases n,
{
    if n < 10 {
        seq![digit_char(n as int)]
    } else {
        decimal(n / 10).push(digit_char((n % 10) as int))
    }
}

/// The decimal text of an integer: a `-` before the digits of a negative one.
pub open spec fn decimal_int(n: int) -> Seq<char> {
    if n < 0 {
        seq!['-'] + decimal((-n) as nat)
    } else {
        decimal(n as nat)
    }
}

fn digit(d: u64) -> (c: char)
    requires
        d < 10,
    ensures
        c == digit_char(d as int),
{
    let digits: [char; 10] = ['0', '1', '2', '3', '4', '5', '6', '7', '8', '9'];
    assert(digits@ == seq!['0', '1', '2', '3', '4', '5', '6', '7', '8', '9']);
    digits[d as usize]
}

/// Appends the decimal digits of `n` to `out`.
pub fn push_decimal(out: &mut String, n: u64)
    ensures
        final(out)@ == old(out)@ + decimal(n as nat),
    decreases n,
{
    if n >= 10 {
        push_decimal(out, n / 10);
        push_char(out, digit(n % 10));
        assert(decimal(n as nat) == decimal((n / 10) as nat).push(digit_char((n % 10) as int)));
    } else {
        push_char(out, digit(n));
    }
}

/// `u64::to_string`.
pub fn u64_text(n: u64) -> (s: String)
    ensures
        s@ == decimal(n as nat),
{
    let mut s = String::new();
    push_decimal(&mut s, n);
    s
}

/// `i64::to_string`.
pub fn i64_text(n: i64) -> (s: String)
    ensures
        s@ == decimal_int(n as int),
{
    let mut s = String::new();
    if n < 0 {
        push_char(&mut s, '-');
        let m: u64 = (0i128 - n as i128) as u64;
        push_decimal(&mut s, m);
    } else {
        push_decimal(&mut s, n as u64);
    }
    s
}

// ---------------------------------------------------------------------------
// Parsing
// ---------------------------------------------------------------------------

pub open spec fn all_digits(s: Seq<char>) -> bool {
    forall|i: int| 0 <= i < s.len() ==> is_digit(#[trigger] s[i])
}

/// The number that the decimal digits `s` spell.
pub open spec fn digits_value(s: Seq<char>) -> nat
    decreases s.len(),
{
    if s.len() == 0 {
        0
    } else {
        digits_value(s.drop_last()) * 10 + ((s.last() as int) - ('0' as int)) as nat
    }
}

/// What `str::parse::<i64>` gives for `s`: an optional `+` or `-`, then at
/// least one ASCII digit and nothing else, with a value in range.
pub open spec fn parsed_i64(s: Seq<char>) -> Option<i64> {
    let negative = s.len() > 0 && s[0] == '-';
    let body = if s.len() > 0 && (s[0] == '-' || s[0] == '+') {
        s.drop_first()
    } else {
        s
    };
    if body.len() == 0 || !all_digits(body) {
        None
    } else if negative {
        if digits_value(body) <= 0x8000_0000_0000_0000 {
            Some((-(digits_value(body) as int)) as i64)
        } else {
            None
        }
    } else {
        if digits_value(body) <= 0x7fff_ffff_ffff_ffff {
            Some(digits_value(body) as i64)
        } else {
            None
        }
    }
}

proof fn lemma_digits_value_grows(s: Seq<char>, i: int)
    requires
        0 <= i <= s.len(),
        all_digits(s),
    ensures
        digits_value(s.take(i)) <= digits_value(s),
    decreases s.len() - i,
{
    if i < s.len() {
        lemma_digits_value_grows(s, i + 1);
        assert(s.take(i + 1).drop_last() == s.take(i));
        assert(is_digit(s[i]));
    } else {
        assert(s.take(i) == s);
    }
}

/// `str::parse::<i64>`, with every error folded into `None`.
pub fn parse_i64(s: &str) -> (r: Option<i64>)
    ensures
        r == parsed_i64(s@),
{
    let v = chars_of(s);
    let negative = v.len() > 0 && v[0] == '-';
    let start: usize = if v.len() > 0 && (v[0] == '-' || v[0] == '+') {
        1
    } else {
        0
    };
    let ghost body = if v.len() > 0 && (v@[0] == '-' || v@[0] == '+') {
        v@.drop_first()
    } else {
        v@
    };
    assert(body == v@.skip(start as int));
    if start == v.len() {
        return None;
    }
    let limit: u64 = if negative {
        0x8000_0000_0000_0000
    } else {
        0x7fff_ffff_ffff_ffff
    };
    let mut acc: u64 = 0;
    let mut i = start;
    while i < v.len()
        invariant
            v@ == s@,
            start < v.len(),
            start <= i <= v.len(),
            negative == (v@.len() > 0 && v@[0] == '-'),
            limit == (if negative { 0x8000_0000_0000_0000u64 } else { 0x7fff_ffff_ffff_ffffu64 }),
            body == (if v@.len() > 0 && (v@[0] == '-' || v@[0] == '+') { v@.drop_first() } else { v@ }),
            body == v@.skip(start as int),
            acc <= limit,
            acc == digits_value(body.take(i - start)),
            all_digits(body.take(i - start)),
        decreases v.len() - i,
    {
        let c = v[i];
        assert(body.take(i + 1 - start).drop_last() == body.take(i - start));
        assert(body[i - start] == c);
        if !('0' <= c && c <= '9') {
            assert(!all_digits(body));
            return None;
        }
        let d: u64 = (c as u32 - '0' as u32) as u64;
        assert(d <= 9);
        if acc > (limit - d) / 10 {
            proof {
                assert forall|j: int| 0 <= j < body.take(i + 1 - start).len() implies is_digit(
                    #[trigger] body.take(i + 1 - start)[j],
                ) by {
                    if j < i - start {
                        assert(body.take(i + 1 - start)[j] == body.take(i - start)[j]);
                    }
                }
                assert(digits_value(body.take(i + 1 - start)) > limit);
                if all_digits(body) {
                    lemma_digits_value_grows(body, i + 1 - start);
                }
            }
            return None;
        }
        acc = acc * 10 + d;
        proof {
            assert forall|j: int| 0 <= j < body.take(i + 1 - start).len() implies is_digit(
                #[trigger] body.take(i + 1 - start)[j],
            ) by {
                if j < i - start {
                    assert(body.take(i + 1 - start)[j] == body.take(i - start)[j]);
                }
            }
        }
        i = i + 1;
    }
    assert(body.take(i - start) == body);
    if negative {
        Some((0i128 - acc as i128) as i64)
    } else {
        Some(acc as i64)
    }
}


pub proof fn lemma_digit_char(d: int)
    requires
        0 <= d < 10,
    ensures
        is_digit(digit_char(d)),
        (digit_char(d) as int) - ('0' as int) == d,
{
    let t = seq!['0', '1', '2', '3', '4', '5', '6', '7', '8', '9'];
    assert(t[0] == '0' && t[1] == '1' && t[2] == '2' && t[3] == '3' && t[4] == '4');
    assert(t[5] == '5' && t[6] == '6' && t[7] == '7' && t[8] == '8' && t[9] == '9');
}

/// The digits of `n` are digits, at least one, and spell `n`.
pub proof fn lemma_decimal(n: nat)
    ensures
        decimal(n).len() > 0,
        all_digits(decimal(n)),
        digits_value(decimal(n)) == n,
    decreases n,
{
    if n < 10 {
        lemma_digit_char(n as int);
        let d = decimal(n);
        assert(d.drop_last() == Seq::<char>::empty());
        assert(d.last() == digit_char(n as int));
        assert(digits_value(d.drop_last()) == 0);
        assert(digits_value(d) == digits_value(d.drop_last()) * 10 + ((d.last() as int) - ('0' as int)) as nat);
    } else {
        lemma_decimal(n / 10);
        lemma_digit_char((n % 10) as int);
        let d = decimal(n);
        assert(d.drop_last() == decimal(n / 10));
        assert(d.last() == digit_char((n % 10) as int));
        assert(digits_value(d) == digits_value(decimal(n / 10)) * 10 + (n % 10));
        assert((n / 10) * 10 + (n % 10) == n) by (nonlinear_arith);
        assert forall|i: int| 0 <= i < d.len() implies is_digit(#[trigger] d[i]) by {
            if i < d.len() - 1 {
                assert(d[i] == decimal(n / 10)[i]);
            }
        }
    }
}

/// Parsing the decimal text of an `i64` gives it back.
pub proof fn lemma_parse_decimal(n: i64)
    ensures
        parsed_i64(decimal_int(n as int)) == Some(n),
{
    if n < 0 {
        let m = (-(n as int)) as nat;
        lemma_decimal(m);
        let s = decimal_int(n as int);
        assert(s.drop_first() == decimal(m));
        assert(s[0] == '-');
    } else {
        lemma_decimal(n as nat);
        let s = decimal(n as nat);
        assert(is_digit(s[0]));
    }
}

} // verus!
