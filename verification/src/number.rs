//! Decimal numbers as they appear on a command line.

use vstd::prelude::*;
use vstd::string::*;

verus! {

/// The magnitude of the least 32-bit signed integer, one more than the
/// greatest.
const LIMIT: i64 = 2147483648;

/// The byte of `+`.
const PLUS: u8 = 43;

/// The byte of `-`.
const MINUS: u8 = 45;

/// The byte of `0`.
const ZERO: u8 = 48;

/// The byte of `9`.
const NINE: u8 = 57;

/// Whether `c` is one of the ten ASCII digits.
pub open spec fn is_digit(c: char) -> bool {
    '0' <= c <= '9'
}

/// The value of the digit `c`.
pub open spec fn digit_value(c: char) -> int {
    (c as int) - ('0' as int)
}

/// Whether `s` consists of ASCII digits only.
pub open spec fn all_digits(s: Seq<char>) -> bool {
    forall|i: int| 0 <= i < s.len() ==> is_digit(#[trigger] s[i])
}

/// The number that the digits `s` denote in base ten; zero for no digits.
pub open spec fn digits_value(s: Seq<char>) -> int
    decreases s.len(),
{
    if s.len() == 0 {
        0
    } else {
        digits_value(s.drop_last()) * 10 + digit_value(s.last())
    }
}

/// The digits of `s` once an optional leading sign is taken off.
pub open spec fn unsigned_part(s: Seq<char>) -> Seq<char> {
    if s.len() > 0 && (s[0] == '+' || s[0] == '-') {
        s.drop_first()
    } else {
        s
    }
}

/// The 32-bit signed integer that `s` denotes: an optional `+` or `-`, then
/// one or more ASCII digits and nothing else, with a value that fits.
/// `None` for every other text.
pub open spec fn decimal_i32(s: Seq<char>) -> Option<int> {
    let body = unsigned_part(s);
    let magnitude = digits_value(body);
    let value = if s.len() > 0 && s[0] == '-' {
        -magnitude
    } else {
        magnitude
    };
    if body.len() > 0 && all_digits(body) && i32::MIN <= value <= i32::MAX {
        Some(value)
    } else {
        None
    }
}

/// The character that shows the digit `d`.
pub open spec fn digit_char(d: int) -> char {
    (d + ('0' as int)) as char
}

/// The decimal digits of the natural number `n`, without leading zeros.
pub open spec fn natural_text(n: nat) -> Seq<char>
    decreases n,
{
    if n < 10 {
        seq![digit_char(n as int)]
    } else {
        natural_text(n / 10).push(digit_char((n % 10) as int))
    }
}

/// The decimal text of `n`, with a leading `-` when it is negative.
pub open spec fn decimal_text(n: int) -> Seq<char> {
    if n < 0 {
        seq!['-'] + natural_text((-n) as nat)
    } else {
        natural_text(n as nat)
    }
}

/// The message for a text that is no number.
pub open spec fn not_a_number_message(input: Seq<char>) -> Seq<char> {
    "Expected a number. Was '"@ + input + "'."@
}

/// The message for a number outside `1..=max`.
pub open spec fn out_of_range_message(input: Seq<char>, max: int) -> Seq<char> {
    "Number must be between 1 and "@ + decimal_text(max) + ". Was "@ + input + "."@
}

proof fn lemma_digits_value_grows(s: Seq<char>, k: int)
    requires
        all_digits(s),
        0 <= k <= s.len(),
    ensures
        0 <= digits_value(s.take(k)) <= digits_value(s),
    decreases s.len() - k,
{
    if k == s.len() {
        assert(s.take(k) =~= s);
        lemma_digits_value_nonnegative(s);
    } else {
        lemma_digits_value_grows(s, k + 1);
        let longer = s.take(k + 1);
        assert(longer.drop_last() =~= s.take(k));
        assert(is_digit(longer.last()));
        lemma_digits_value_nonnegative(s.take(k));
    }
}

proof fn lemma_digits_value_nonnegative(s: Seq<char>)
    requires
        all_digits(s),
    ensures
        0 <= digits_value(s),
    decreases s.len(),
{
    if s.len() > 0 {
        assert(all_digits(s.drop_last()));
        lemma_digits_value_nonnegative(s.drop_last());
        assert(is_digit(s.last()));
    }
}

/// Reads `input` as a decimal 32-bit signed integer.
pub fn parse_i32(input: &str) -> (r: Option<i32>)
    ensures
        match r {
            Some(v) => decimal_i32(input@) == Some(v as int),
            None => decimal_i32(input@) is None,
        },
{
    if !input.is_ascii() {
        proof {
            let s = input@;
            let i = choose|i: int| 0 <= i < s.len() && !('\0' <= #[trigger] s[i] <= '\u{7f}');
            let body = unsigned_part(s);
            if body.len() == s.len() {
                assert(!is_digit(body[i]));
            } else if i > 0 {
                assert(!is_digit(body[i - 1]));
            }
        }
        return None;
    }
    let n = input.unicode_len();
    if n == 0 {
        return None;
    }
    let first = input.get_ascii(0);
    let negative = first == MINUS;
    let start: usize = if first == PLUS || first == MINUS {
        1
    } else {
        0
    };
    let ghost body = unsigned_part(input@);
    assert(body =~= input@.subrange(start as int, n as int));
    if start == n {
        return None;
    }
    let mut acc: i64 = 0;
    let mut i: usize = start;
    assert(body.take(0) =~= Seq::<char>::empty());
    while i < n
        invariant
            start <= i <= n,
            n == input@.len(),
            input.is_ascii(),
            body == input@.subrange(start as int, n as int),
            body == unsigned_part(input@),
            all_digits(body.take(i - start)),
            acc == digits_value(body.take(i - start)),
            0 <= acc <= LIMIT,
        decreases n - i,
    {
        let b = input.get_ascii(i);
        let ghost c = input@[i as int];
        assert(c == body[i - start]);
        assert('\0' <= c <= '\u{7f}');
        if b < ZERO || b > NINE {
            assert(!is_digit(body[i - start]));
            return None;
        }
        let d: i64 = (b - ZERO) as i64;
        let next: i64 = acc * 10 + d;
        proof {
            let longer = body.take(i + 1 - start);
            assert(longer.drop_last() =~= body.take(i - start));
            assert(longer.last() == c);
            assert(digit_value(c) == d);
            assert(all_digits(longer)) by {
                assert forall|j: int| 0 <= j < longer.len() implies is_digit(#[trigger] longer[j]) by {
                    if j < longer.len() - 1 {
                        assert(longer[j] == body.take(i - start)[j]);
                    }
                }
            }
            assert(next == digits_value(longer));
        }
        if next > LIMIT {
            proof {
                if all_digits(body) {
                    lemma_digits_value_grows(body, i + 1 - start);
                }
            }
            return None;
        }
        acc = next;
        i += 1;
    }
    assert(body.take(n - start) =~= body);
    if negative {
        Some((-acc) as i32)
    } else if acc == LIMIT {
        None
    } else {
        Some(acc as i32)
    }
}

/// The one-character text of the digit `d`.
fn digit_text(d: u32) -> (r: &'static str)
    requires
        d < 10,
    ensures
        r@ == seq![digit_char(d as int)],
{
    proof {
        reveal_strlit("0");
        reveal_strlit("1");
        reveal_strlit("2");
        reveal_strlit("3");
        reveal_strlit("4");
        reveal_strlit("5");
        reveal_strlit("6");
        reveal_strlit("7");
        reveal_strlit("8");
        reveal_strlit("9");
    }
    let r = if d == 0 {
        "0"
    } else if d == 1 {
        "1"
    } else if d == 2 {
        "2"
    } else if d == 3 {
        "3"
    } else if d == 4 {
        "4"
    } else if d == 5 {
        "5"
    } else if d == 6 {
        "6"
    } else if d == 7 {
        "7"
    } else if d == 8 {
        "8"
    } else {
        "9"
    };
    assert(r@ =~= seq![digit_char(d as int)]);
    r
}

/// Appends the decimal digits of `n` to `out`.
fn push_natural(out: &mut String, n: u32)
    ensures
        final(out)@ == old(out)@ + natural_text(n as nat),
    decreases n,
{
    if n >= 10 {
        push_natural(out, n / 10);
    }
    out.append(digit_text(n % 10));
    assert(out@ =~= old(out)@ + natural_text(n as nat));
}

/// Appends the decimal text of `n` to `out`.
pub fn push_decimal(out: &mut String, n: i32)
    ensures
        final(out)@ == old(out)@ + decimal_text(n as int),
{
    if n < 0 {
        proof {
            reveal_strlit("-");
        }
        out.append("-");
        let magnitude: u32 = (-(n as i64)) as u32;
        push_natural(out, magnitude);
        assert(out@ =~= old(out)@ + decimal_text(n as int));
    } else {
        push_natural(out, n as u32);
    }
}

/// Whether `input` denotes a number from 1 to `max`.
pub open spec fn number_in_range(input: Seq<char>, max: int) -> bool {
    decimal_i32(input) matches Some(v) && 0 < v <= max
}

/// What is said of an `input` that denotes no number from 1 to `max`.
pub open spec fn validation_message(input: Seq<char>, max: int) -> Seq<char> {
    if decimal_i32(input) is None {
        not_a_number_message(input)
    } else {
        out_of_range_message(input, max)
    }
}

/// Accepts `input` when it denotes a number from 1 to `max`, and says what
/// is wrong with it when it does not.
pub fn validate_number(input: &str, max: i32) -> (r: Result<(), String>)
    ensures
        r is Ok <==> number_in_range(input@, max as int),
        r matches Err(message) ==> message@ == validation_message(input@, max as int),
{
    match parse_i32(input) {
        None => {
            let mut message = String::from_str("Expected a number. Was '");
            message.append(input);
            message.append("'.");
            Err(message)
        },
        Some(i) => {
            if i > 0 && i <= max {
                Ok(())
            } else {
                let mut message = String::from_str("Number must be between 1 and ");
                push_decimal(&mut message, max);
                message.append(". Was ");
                message.append(input);
                message.append(".");
                Err(message)
            }
        },
    }
}

} // verus!
