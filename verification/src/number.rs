//! Decimal numbers as text.

use vstd::prelude::*;

verus! {

/// Whether `c` is one of the ten decimal digits.
pub open spec fn is_digit(c: char) -> bool {
    '0' <= c && c <= '9'
}

/// The number that the digit `c` stands for.
pub open spec fn digit_of(c: char) -> nat {
    (c as nat - '0' as nat) as nat
}

/// The digit that stands for `d`, a number under ten.
pub open spec fn digit_char(d: nat) -> char {
    if d == 0 {
        '0'
    } else if d == 1 {
        '1'
    } else if d == 2 {
        '2'
    } else if d == 3 {
        '3'
    } else if d == 4 {
        '4'
    } else if d == 5 {
        '5'
    } else if d == 6 {
        '6'
    } else if d == 7 {
        '7'
    } else if d == 8 {
        '8'
    } else {
        '9'
    }
}

/// Whether `s` holds digits only.
pub open spec fn all_digits(s: Seq<char>) -> bool {
    forall|i: int| 0 <= i < s.len() ==> is_digit(#[trigger] s[i])
}

/// The number that the digits `s` spell, the first digit weighing most.
pub open spec fn digits_value(s: Seq<char>) -> nat
    decreases s.len(),
{
    if s.len() == 0 {
        0
    } else {
        digits_value(s.drop_last()) * 10 + digit_of(s.last())
    }
}

/// `s` without a plus sign in front.
pub open spec fn unsigned_part(s: Seq<char>) -> Seq<char> {
    if s.len() > 0 && s[0] == '+' {
        s.subrange(1, s.len() as int)
    } else {
        s
    }
}

/// The number that `s` spells: an optional plus sign, then one digit or
/// more and nothing else. `None` for every other text.
pub open spec fn number_of(s: Seq<char>) -> Option<nat> {
    let digits = unsigned_part(s);
    if digits.len() > 0 && all_digits(digits) {
        Some(digits_value(digits))
    } else {
        None
    }
}

/// The number that `s` spells, where it fits a `usize`.
pub open spec fn usize_of(s: Seq<char>) -> Option<usize> {
    match number_of(s) {
        Some(n) => if n <= usize::MAX {
            Some(n as usize)
        } else {
            None
        },
        None => None,
    }
}

/// The digits of `n`, without leading zeros.
pub open spec fn decimal_text(n: nat) -> Seq<char>
    decreases n,
{
    if n < 10 {
        seq![digit_char(n)]
    } else {
        decimal_text(n / 10).push(digit_char(n % 10))
    }
}

/// A longer run of digits spells no smaller number than its beginning.
pub proof fn lemma_prefix_value(s: Seq<char>, k: int)
    requires
        0 <= k <= s.len(),
    ensures
        digits_value(s.take(k)) <= digits_value(s),
    decreases s.len() - k,
{
    if k < s.len() {
        lemma_prefix_value(s.drop_last(), k);
        assert(s.drop_last().take(k) =~= s.take(k));
    } else {
        assert(s.take(k) =~= s);
    }
}

/// The number that the digits `chars[from..]` spell, where they are digits
/// and the number fits.
fn parse_digits(chars: &Vec<char>, from: usize) -> (n: Option<usize>)
    requires
        from <= chars@.len(),
    ensures
        n == (if from < chars@.len() && all_digits(chars@.subrange(from as int, chars@.len() as int))
            && digits_value(chars@.subrange(from as int, chars@.len() as int)) <= usize::MAX {
            Some(digits_value(chars@.subrange(from as int, chars@.len() as int)) as usize)
        } else {
            None
        }),
{
    let ghost digits = chars@.subrange(from as int, chars@.len() as int);
    if from >= chars.len() {
        return None;
    }
    let mut i: usize = from;
    while i < chars.len()
        invariant
            from <= i <= chars@.len(),
            digits == chars@.subrange(from as int, chars@.len() as int),
            all_digits(digits.take(i - from)),
        decreases chars@.len() - i,
    {
        let c = chars[i];
        if c < '0' || c > '9' {
            assert(!is_digit(digits[i - from]));
            return None;
        }
        i = i + 1;
        assert forall|k: int| 0 <= k < i - from implies is_digit(
            #[trigger] digits.take(i - from)[k],
        ) by {
            if k < i - from - 1 {
                assert(digits.take(i - from - 1)[k] == digits[k]);
            }
        }
    }
    assert(digits.take(i - from) =~= digits);
    let mut value: usize = 0;
    let mut j: usize = from;
    while j < chars.len()
        invariant
            from <= j <= chars@.len(),
            digits == chars@.subrange(from as int, chars@.len() as int),
            all_digits(digits),
            value == digits_value(digits.take(j - from)),
        decreases chars@.len() - j,
    {
        let c = chars[j];
        assert(is_digit(digits[j - from]));
        let d: usize = (c as u32 - '0' as u32) as usize;
        proof {
            let next = digits.take(j - from + 1);
            assert(next.drop_last() =~= digits.take(j - from));
            assert(next.last() == c);
            assert(digits_value(next) == value * 10 + d);
            lemma_prefix_value(digits, j - from + 1);
        }
        let scaled = match value.checked_mul(10) {
            Some(scaled) => scaled,
            None => {
                return None;
            },
        };
        value = match scaled.checked_add(d) {
            Some(sum) => sum,
            None => {
                return None;
            },
        };
        j = j + 1;
    }
    assert(digits.take(j - from) =~= digits);
    Some(value)
}

/// Reads a number as `str::parse::<usize>` does: `Some` where `s` spells a
/// number that fits, `None` where it does not.
pub fn parse_usize(s: &str) -> (n: Option<usize>)
    ensures
        n == usize_of(s@),
{
    let chars = crate::text::chars_of(s);
    assert(chars@.subrange(0, chars@.len() as int) =~= chars@);
    if chars.len() > 0 && chars[0] == '+' {
        parse_digits(&chars, 1)
    } else {
        parse_digits(&chars, 0)
    }
}

/// The digit that stands for `d`.
fn digit(d: usize) -> (c: char)
    requires
        d < 10,
    ensures
        c == digit_char(d as nat),
{
    if d == 0 {
        '0'
    } else if d == 1 {
        '1'
    } else if d == 2 {
        '2'
    } else if d == 3 {
        '3'
    } else if d == 4 {
        '4'
    } else if d == 5 {
        '5'
    } else if d == 6 {
        '6'
    } else if d == 7 {
        '7'
    } else if d == 8 {
        '8'
    } else {
        '9'
    }
}

/// Appends the digits of `n` to `out`.
pub fn push_decimal(out: &mut String, n: usize)
    ensures
        final(out)@ == old(out)@ + decimal_text(n as nat),
    decreases n,
{
    if n >= 10 {
        push_decimal(out, n / 10);
    }
    out.push(digit(n % 10));
    assert(out@ =~= old(out)@ + decimal_text(n as nat));
}

/// The digits of `n`, as `n.to_string()` gives them.
pub fn decimal(n: usize) -> (s: String)
    ensures
        s@ == decimal_text(n as nat),
{
    let mut s = String::new();
    push_decimal(&mut s, n);
    assert(s@ =~= decimal_text(n as nat));
    s
}

/// The text of a number with a sign: a minus and the digits of its size
/// where it is negative, else its digits.
pub open spec fn signed_text(n: int) -> Seq<char> {
    if n < 0 {
        seq!['-'] + decimal_text((-n) as nat)
    } else {
        decimal_text(n as nat)
    }
}

/// The text of `n`, as `n.to_string()` gives it.
pub fn signed_decimal(n: i32) -> (s: String)
    ensures
        s@ == signed_text(n as int),
{
    let mut s = String::new();
    if n < 0 {
        s.push('-');
        let wide: i64 = n as i64;
        let size: i64 = 0 - wide;
        push_decimal(&mut s, size as usize);
    } else {
        push_decimal(&mut s, n as usize);
    }
    assert(s@ =~= signed_text(n as int));
    s
}

/// The digits of a number are digits, and at least one.
pub proof fn lemma_decimal_text_digits(n: nat)
    ensures
        decimal_text(n).len() > 0,
        all_digits(decimal_text(n)),
        decimal_text(n)[0] != '+',
    decreases n,
{
    if n >= 10 {
        lemma_decimal_text_digits(n / 10);
    }
}

/// The digits of a number spell that number.
pub proof fn lemma_decimal_text_value(n: nat)
    ensures
        digits_value(decimal_text(n)) == n,
    decreases n,
{
    let text = decimal_text(n);
    if n >= 10 {
        lemma_decimal_text_value(n / 10);
        assert(text.drop_last() =~= decimal_text(n / 10));
        assert(digit_of(digit_char(n % 10)) == n % 10);
    } else {
        assert(text.drop_last() =~= Seq::<char>::empty());
        assert(digits_value(text.drop_last()) == 0);
        assert(digit_of(digit_char(n)) == n);
    }
}

/// Reading the text of a number gives the number back.
pub proof fn lemma_number_of_decimal_text(n: nat)
    ensures
        number_of(decimal_text(n)) == Some(n),
{
    lemma_decimal_text_digits(n);
    lemma_decimal_text_value(n);
}

} // verus!
