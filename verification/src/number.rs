//! Decimal text of 64-bit integers: rendering and parsing.
use vstd::prelude::*;
use vstd::string::*;

verus! {

/// Whether `c` is one of the ten ASCII decimal digits.
pub open spec fn is_digit(c: char) -> bool {
    '0' <= c && c <= '9'
}

/// The ASCII digit that stands for `d`, for `0 <= d <= 9`.
pub open spec fn digit_char(d: int) -> char {
    (d + 48) as char
}

/// The value of a run of decimal digits, most significant first.
pub open spec fn digits_value(s: Seq<char>) -> nat
    decreases s.len(),
{
    if s.len() == 0 {
        0
    } else {
        (digits_value(s.drop_last()) * 10 + (s.last() as int - 48)) as nat
    }
}

/// The decimal digits of `n` without leading zeros; none for zero.
pub open spec fn digits(n: nat) -> Seq<char>
    decreases n,
{
    if n == 0 {
        Seq::empty()
    } else {
        digits(n / 10).push(digit_char((n % 10) as int))
    }
}

/// The decimal text of a natural number: `0` for zero.
pub open spec fn nat_text(n: nat) -> Seq<char> {
    if n == 0 {
        seq!['0']
    } else {
        digits(n)
    }
}

/// The decimal text of an integer: a minus sign for negative values, then
/// the digits of the magnitude.
pub open spec fn int_text(x: int) -> Seq<char> {
    if x < 0 {
        seq!['-'] + nat_text((-x) as nat)
    } else {
        nat_text(x as nat)
    }
}

/// Whether every character of `s` is a decimal digit.
pub open spec fn all_digits(s: Seq<char>) -> bool {
    forall|i: int| 0 <= i < s.len() ==> is_digit(#[trigger] s[i])
}

/// Whether `s` starts with a sign.
pub open spec fn is_signed(s: Seq<char>) -> bool {
    s.len() > 0 && (s[0] == '-' || s[0] == '+')
}

/// `s` without its sign, if it has one.
pub open spec fn unsigned_part(s: Seq<char>) -> Seq<char> {
    if is_signed(s) {
        s.subrange(1, s.len() as int)
    } else {
        s
    }
}

/// The integer that a decimal literal denotes: an optional `+` or `-`, then
/// one or more digits, with a value that fits in 64 bits; `None` for any
/// other text.
pub open spec fn int_of_text(s: Seq<char>) -> Option<i64> {
    let body = unsigned_part(s);
    let magnitude = digits_value(body) as int;
    let value = if s.len() > 0 && s[0] == '-' {
        -magnitude
    } else {
        magnitude
    };
    if body.len() > 0 && all_digits(body) && i64::MIN <= value <= i64::MAX {
        Some(value as i64)
    } else {
        None
    }
}

/// The value of a run of digits is at least the value of each of its
/// prefixes.
pub proof fn lemma_digits_value_grows(s: Seq<char>, k: int)
    requires
        all_digits(s),
        0 <= k <= s.len(),
    ensures
        digits_value(s.subrange(0, k)) <= digits_value(s),
    decreases s.len(),
{
    if k == s.len() {
        assert(s.subrange(0, k) =~= s);
    } else {
        assert(s.drop_last().subrange(0, k) =~= s.subrange(0, k));
        lemma_digits_value_grows(s.drop_last(), k);
        assert(is_digit(s[s.len() - 1]));
    }
}

/// The digits of a number are digits, and their value is the number.
pub proof fn lemma_digits_of(n: nat)
    ensures
        all_digits(digits(n)),
        digits_value(digits(n)) == n,
        n > 0 ==> digits(n).len() > 0,
    decreases n,
{
    if n > 0 {
        lemma_digits_of(n / 10);
        let d = digit_char((n % 10) as int);
        assert(digits(n).drop_last() =~= digits(n / 10));
        assert(digits(n).last() == d);
        assert(is_digit(d));
        assert forall|i: int| 0 <= i < digits(n).len() implies is_digit(#[trigger] digits(n)[i]) by {
            if i < digits(n).len() - 1 {
                assert(digits(n)[i] == digits(n / 10)[i]);
            }
        }
    }
}

/// Parsing the text of a 64-bit integer gives the integer back.
pub proof fn lemma_text_round_trip(x: i64)
    ensures
        int_of_text(int_text(x as int)) == Some(x),
{
    let magnitude: nat = if x < 0 {
        (-x) as nat
    } else {
        x as nat
    };
    lemma_digits_of(magnitude);
    let body = nat_text(magnitude);
    assert(all_digits(body) && digits_value(body) == magnitude && body.len() > 0) by {
        if magnitude == 0 {
            assert(body.drop_last() =~= Seq::<char>::empty());
            assert(digits_value(body.drop_last()) == 0);
        }
    }
    assert(is_digit(body[0]));
    if x < 0 {
        let s = int_text(x as int);
        assert(s[0] == '-');
        assert(s.subrange(1, s.len() as int) =~= body);
    } else {
        assert(int_text(x as int) == body);
    }
}

/// The text of one decimal digit.
fn digit_text(d: u64) -> (text: &'static str)
    requires
        d < 10,
    ensures
        text@ == seq![digit_char(d as int)],
{
    proof {
        reveal_strlit("0");
        reveal_strlit("1");
        reveal_strlit("2");
        reveal_strlit("3");
        reveal_strlit("4");
        reveal_strlit("5");
        reveal_strlit("6");
        reveal_strlit("7");
        reveal_strlit("8");
        reveal_strlit("9");
    }
    let text = if d == 0 {
        "0"
    } else if d == 1 {
        "1"
    } else if d == 2 {
        "2"
    } else if d == 3 {
        "3"
    } else if d == 4 {
        "4"
    } else if d == 5 {
        "5"
    } else if d == 6 {
        "6"
    } else if d == 7 {
        "7"
    } else if d == 8 {
        "8"
    } else {
        "9"
    };
    assert(text@ =~= seq![digit_char(d as int)]);
    text
}

/// The decimal text of `x`.
pub fn render_int(x: i64) -> (text: String)
    ensures
        text@ == int_text(x as int),
{
    let magnitude: u64 = if x < 0 {
        (-(x as i128)) as u64
    } else {
        x as u64
    };
    let mut n: u64 = magnitude;
    let mut text = String::new();
    while n > 0
        invariant
            digits(magnitude as nat) == digits(n as nat) + text@,
        decreases n,
    {
        let mut longer = digit_text(n % 10).to_owned();
        longer.append(text.as_str());
        assert(digits(n as nat) + text@ =~= digits((n / 10) as nat) + longer@);
        text = longer;
        n = n / 10;
    }
    assert(text@ =~= digits(magnitude as nat));
    if magnitude == 0 {
        proof {
            reveal_strlit("0");
        }
        text = "0".to_owned();
        assert(text@ =~= seq!['0']);
    }
    if x < 0 {
        proof {
            reveal_strlit("-");
        }
        let mut signed = "-".to_owned();
        signed.append(text.as_str());
        assert(signed@ =~= seq!['-'] + text@);
        signed
    } else {
        text
    }
}

/// The integer that `text` denotes, if it is a decimal literal of a 64-bit
/// integer.
pub fn parse_int(text: &str) -> (value: Option<i64>)
    ensures
        value == int_of_text(text@),
{
    let len = text.unicode_len();
    if len == 0 {
        return None;
    }
    let first = text.get_char(0);
    let negative = first == '-';
    let start: usize = if first == '-' || first == '+' {
        1
    } else {
        0
    };
    if start >= len {
        assert(unsigned_part(text@).len() == 0);
        return None;
    }
    let limit: u64 = if negative {
        0x8000_0000_0000_0000
    } else {
        0x7fff_ffff_ffff_ffff
    };
    let ghost body = unsigned_part(text@);
    let mut total: u64 = 0;
    let mut i: usize = start;
    assert(body.subrange(0, 0) =~= Seq::<char>::empty());
    while i < len
        invariant
            start <= i <= len,
            len == text@.len(),
            body == unsigned_part(text@),
            body.len() == len - start,
            start == if is_signed(text@) { 1int } else { 0int },
            all_digits(body.subrange(0, i - start)),
            total == digits_value(body.subrange(0, i - start)),
            total <= limit,
            limit == if negative { 0x8000_0000_0000_0000u64 } else { 0x7fff_ffff_ffff_ffffu64 },
            negative == (text@[0] == '-'),
        decreases len - i,
    {
        let c = text.get_char(i);
        assert(c == body[i - start]);
        let ghost prefix = body.subrange(0, i - start + 1);
        assert(prefix.drop_last() =~= body.subrange(0, i - start));
        assert(prefix.last() == c);
        if c < '0' || c > '9' {
            assert(!all_digits(body));
            return None;
        }
        let d: u64 = (c as u8 - 48) as u64;
        assert(digits_value(prefix) == total * 10 + d);
        if total > (limit - d) / 10 {
            proof {
                assert(total * 10 + d > limit);
                assert(digits_value(prefix) > limit);
                if all_digits(body) {
                    lemma_digits_value_grows(body, i - start + 1);
                }
            }
            return None;
        }
        total = total * 10 + d;
        assert forall|j: int| 0 <= j < prefix.len() implies is_digit(#[trigger] prefix[j]) by {
            if j < prefix.len() - 1 {
                assert(prefix[j] == body.subrange(0, i - start)[j]);
            }
        }
        i += 1;
    }
    assert(body.subrange(0, len - start) =~= body);
    if negative {
        Some((-(total as i128)) as i64)
    } else {
        Some(total as i64)
    }
}

} // verus!
