//! Decimal text for integers: printing as `to_string` does and parsing as
//! `str::parse::<i64>` does, so that settings stored as text read back unchanged.
use vstd::prelude::*;

verus! {

/// The character of a decimal digit `d` (0 to 9).
pub open spec fn digit_char(d: int) -> char {
    (48 + d) as char
}

pub open spec fn is_digit(c: char) -> bool {
    48 <= (c as int) <= 57
}

pub open spec fn digit_value(c: char) -> int {
    (c as int) - 48
}

/// Decimal text of `n`, most significant digit first, without leading zeros.
pub open spec fn decimal_text(n: nat) -> Seq<char>
    decreases n,
{
    if n < 10 {
        seq![digit_char(n as int)]
    } else {
        decimal_text(n / 10).push(digit_char((n % 10) as int))
    }
}

/// Decimal text of a signed integer: a `-` before the digits of a negative one.
pub open spec fn signed_text(x: int) -> Seq<char> {
    if x < 0 {
        seq!['-'] + decimal_text((-x) as nat)
    } else {
        decimal_text(x as nat)
    }
}

pub open spec fn all_digits(s: Seq<char>) -> bool {
    forall|i: int| 0 <= i < s.len() ==> is_digit(#[trigger] s[i])
}

/// Value of a string of decimal digits.
pub open spec fn digits_value(s: Seq<char>) -> int
    decreases s.len(),
{
    if s.len() == 0 {
        0
    } else {
        digits_value(s.drop_last()) * 10 + digit_value(s.last())
    }
}

/// What `str::parse::<i64>` gives: an optional `+` or `-`, then one or more
/// ASCII digits, whose value must lie in the range of `i64`; `None` otherwise.
pub open spec fn parse_i64_spec(s: Seq<char>) -> Option<i64> {
    let signed = s.len() > 0 && (s[0] == '+' || s[0] == '-');
    let negative = s.len() > 0 && s[0] == '-';
    let body = if signed { s.drop_first() } else { s };
    if body.len() == 0 || !all_digits(body) {
        None
    } else {
        let v = if negative { -digits_value(body) } else { digits_value(body) };
        if i64::MIN <= v <= i64::MAX {
            Some(v as i64)
        } else {
            None
        }
    }
}

proof fn lemma_digit_char(d: int)
    requires
        0 <= d < 10,
    ensures
        is_digit(digit_char(d)),
        digit_value(digit_char(d)) == d,
{
    assert(digit_char(d) as int == 48 + d);
}

proof fn lemma_decimal_text_digits(n: nat)
    ensures
        decimal_text(n).len() > 0,
        all_digits(decimal_text(n)),
        digits_value(decimal_text(n)) == n,
    decreases n,
{
    if n >= 10 {
        lemma_digit_char((n % 10) as int);
        lemma_decimal_text_digits(n / 10);
        let t = decimal_text(n);
        assert(t.drop_last() =~= decimal_text(n / 10));
        assert(t.last() == digit_char((n % 10) as int));
        assert(digits_value(t) == digits_value(decimal_text(n / 10)) * 10 + (n % 10));
        assert(digits_value(t) == n);
    } else {
        lemma_digit_char(n as int);
        assert(seq![digit_char(n as int)].drop_last() =~= Seq::<char>::empty());
        assert(digits_value(Seq::<char>::empty()) == 0);
        assert(decimal_text(n) == seq![digit_char(n as int)]);
        assert(digits_value(decimal_text(n)) == n);
        assert(seq![digit_char(n as int)].drop_last() =~= Seq::<char>::empty());
    }
}

proof fn lemma_digits_value_nonneg(s: Seq<char>)
    requires
        all_digits(s),
    ensures
        digits_value(s) >= 0,
    decreases s.len(),
{
    if s.len() > 0 {
        assert(all_digits(s.drop_last()));
        lemma_digits_value_nonneg(s.drop_last());
    }
}

/// Appending digits never makes the value smaller.
proof fn lemma_digits_value_prefix_le(s: Seq<char>, k: int)
    requires
        all_digits(s),
        0 <= k <= s.len(),
    ensures
        digits_value(s.take(k)) <= digits_value(s),
    decreases s.len() - k,
{
    if k < s.len() {
        lemma_digits_value_prefix_le(s, k + 1);
        assert(s.take(k + 1).drop_last() =~= s.take(k));
        assert(all_digits(s.take(k)));
        lemma_digits_value_nonneg(s.take(k));
    } else {
        assert(s.take(k) =~= s);
    }
}

/// Printing a value and parsing the text gives the value back.
pub proof fn lemma_parse_signed_text(x: i64)
    ensures
        parse_i64_spec(signed_text(x as int)) == Some(x),
{
    if x < 0 {
        let d = decimal_text((-x) as nat);
        lemma_decimal_text_digits((-x) as nat);
        let s = signed_text(x as int);
        assert(s.drop_first() =~= d);
    } else {
        let d = decimal_text(x as nat);
        lemma_decimal_text_digits(x as nat);
        assert(is_digit(d[0]));
    }
}

fn digit_str(d: u64) -> (s: &'static str)
    requires
        d < 10,
    ensures
        s@ == seq![digit_char(d as int)],
{
    proof {
        reveal_strlit("0");
        reveal_strlit("1");
        reveal_strlit("2");
        reveal_strlit("3");
        reveal_strlit("4");
        reveal_strlit("5");
        reveal_strlit("6");
        reveal_strlit("7");
        reveal_strlit("8");
        reveal_strlit("9");
    }
    if d == 0 {
        "0"
    } else if d == 1 {
        "1"
    } else if d == 2 {
        "2"
    } else if d == 3 {
        "3"
    } else if d == 4 {
        "4"
    } else if d == 5 {
        "5"
    } else if d == 6 {
        "6"
    } else if d == 7 {
        "7"
    } else if d == 8 {
        "8"
    } else {
        "9"
    }
}

/// Decimal text of an unsigned integer, as `n.to_string()` prints it.
pub fn format_u64(n: u64) -> (s: String)
    ensures
        s@ == decimal_text(n as nat),
{
    let mut s = String::from_str(digit_str(n % 10));
    let mut m = n / 10;
    assert(decimal_text(n as nat) =~= if n < 10 {
        s@
    } else {
        decimal_text(m as nat) + s@
    });
    while m > 0
        invariant
            m > 0 ==> decimal_text(n as nat) =~= decimal_text(m as nat) + s@,
            m == 0 ==> decimal_text(n as nat) =~= s@,
        decreases m,
    {
        let mut t = String::from_str(digit_str(m % 10));
        t.append(s.as_str());
        proof {
            if m >= 10 {
                assert(decimal_text(m as nat) + s@ =~= decimal_text((m / 10) as nat) + t@);
            } else {
                assert(decimal_text(m as nat) + s@ =~= t@);
            }
        }
        s = t;
        m = m / 10;
    }
    s
}

/// Decimal text of a signed integer, as `x.to_string()` prints it.
pub fn format_i64(x: i64) -> (s: String)
    ensures
        s@ == signed_text(x as int),
{
    if x < 0 {
        let magnitude: u64 = if x == i64::MIN {
            9223372036854775808u64
        } else {
            (-x) as u64
        };
        let digits = format_u64(magnitude);
        let mut s = String::from_str("-");
        proof {
            reveal_strlit("-");
        }
        s.append(digits.as_str());
        s
    } else {
        format_u64(x as u64)
    }
}

/// Parses a decimal integer as `str::parse::<i64>` does; `None` where it reports an error.
pub fn parse_i64(text: &str) -> (r: Option<i64>)
    ensures
        r == parse_i64_spec(text@),
{
    let len = text.unicode_len();
    let mut start: usize = 0;
    let mut negative = false;
    if len > 0 {
        let first = text.get_char(0);
        if first == '-' {
            negative = true;
            start = 1;
        } else if first == '+' {
            start = 1;
        }
    }
    let ghost s = text@;
    let ghost body = if start == 1 { s.drop_first() } else { s };
    assert(body =~= s.subrange(start as int, len as int));
    if start == len {
        return None;
    }
    // largest magnitude that fits: 2^63 for a negative value, 2^63 - 1 otherwise
    let limit: u64 = if negative { 9223372036854775808u64 } else { 9223372036854775807u64 };
    let mut magnitude: u64 = 0;
    let mut i = start;
    assert(body.take(0) =~= Seq::<char>::empty());
    while i < len
        invariant
            start <= i <= len,
            len == s.len(),
            s == text@,
            body =~= s.subrange(start as int, len as int),
            start == 0 || start == 1,
            start == 1 <==> (s.len() > 0 && (s[0] == '+' || s[0] == '-')),
            negative <==> (s.len() > 0 && s[0] == '-'),
            limit == if negative { 9223372036854775808u64 } else { 9223372036854775807u64 },
            all_digits(body.take(i - start)),
            magnitude == digits_value(body.take(i - start)),
            magnitude <= limit,
        decreases len - i,
    {
        let c = text.get_char(i);
        let code = c as u32;
        if code < 48 || code > 57 {
            assert(!is_digit(body[i - start]));
            return None;
        }
        let d = (code - 48) as u64;
        proof {
            assert(body[i - start] == c);
            assert(body.take(i - start + 1).drop_last() =~= body.take(i - start));
            assert(body.take(i - start + 1).last() == c);
            assert(all_digits(body.take(i - start + 1)));
            assert(digits_value(body.take(i - start + 1)) == magnitude * 10 + d);
        }
        if magnitude > (limit - d) / 10 {
            proof {
                assert(magnitude * 10 + d > limit) by (nonlinear_arith)
                    requires
                        magnitude > (limit - d) / 10,
                        d <= 9,
                        limit >= 9,
                ;
                if all_digits(body) {
                    lemma_digits_value_prefix_le(body, i - start + 1);
                    assert(digits_value(body) > limit);
                    assert(body.len() > 0);
                    if negative {
                        assert(-digits_value(body) < i64::MIN);
                    } else {
                        assert(digits_value(body) > i64::MAX);
                    }
                }
                let signed = s.len() > 0 && (s[0] == '+' || s[0] == '-');
                assert(body == if signed { s.drop_first() } else { s });
                assert(parse_i64_spec(s) is None);
            }
            return None;
        }
        assert(magnitude * 10 + d <= limit) by (nonlinear_arith)
            requires
                magnitude <= (limit - d) / 10,
                d <= 9,
                limit >= 9,
        ;
        magnitude = magnitude * 10 + d;
        i = i + 1;
    }
    assert(body.take(len - start) =~= body);
    if negative {
        if magnitude == 9223372036854775808u64 {
            Some(i64::MIN)
        } else {
            Some(-(magnitude as i64))
        }
    } else {
        Some(magnitude as i64)
    }
}

} // verus!
