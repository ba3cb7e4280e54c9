//! Decimal numbers: reading an unsigned number from text, and writing one.

use vstd::prelude::*;

verus! {

/// Whether `c` is one of the ten decimal digits.
pub open spec fn is_digit(c: char) -> bool {
    '0' <= c && c <= '9'
}

/// The number that the digit `c` stands for.
pub open spec fn digit_value(c: char) -> nat
    recommends
        is_digit(c),
{
    (c as u32 - '0' as u32) as nat
}

/// The digit that stands for `d`.
pub open spec fn digit_char(d: nat) -> char
    recommends
        d < 10,
{
    (d + 48) as u8 as char
}

/// The digit that stands for `d`.
pub fn digit_of(d: u8) -> (c: char)
    requires
        d < 10,
    ensures
        c == digit_char(d as nat),
        is_digit(c),
        digit_value(c) == d,
{
    (d + 48) as char
}

/// The number that the digit `c` stands for, if `c` is a digit.
pub fn value_of_digit(c: char) -> (r: Option<u8>)
    ensures
        r is Some <==> is_digit(c),
        r is Some ==> r->0 == digit_value(c),
{
    if '0' <= c && c <= '9' {
        Some((c as u32 - '0' as u32) as u8)
    } else {
        None
    }
}

/// Whether every character of `s` is a decimal digit.
pub open spec fn all_digits(s: Seq<char>) -> bool {
    forall|i: int| 0 <= i < s.len() ==> is_digit(#[trigger] s[i])
}

/// The number that the digits `digits` stand for in base ten, the first digit
/// weighing most.
pub open spec fn decimal_value(digits: Seq<char>) -> nat
    decreases digits.len(),
{
    if digits.len() == 0 {
        0
    } else {
        decimal_value(digits.drop_last()) * 10 + digit_value(digits.last())
    }
}

/// The digits of a number's text: what follows one leading `+`, if there is one.
pub open spec fn unsigned_digits(s: Seq<char>) -> Seq<char> {
    if s.len() > 0 && s[0] == '+' {
        s.skip(1)
    } else {
        s
    }
}

/// The unsigned 64-bit number that `s` is the text of: an optional `+`, then
/// one or more decimal digits whose value fits. Any other text is no number.
pub open spec fn parsed_u64(s: Seq<char>) -> Option<u64> {
    let digits = unsigned_digits(s);
    if digits.len() > 0 && all_digits(digits) && decimal_value(digits) <= u64::MAX {
        Some(decimal_value(digits) as u64)
    } else {
        None
    }
}

/// The text of a number holds nothing but digits and, at most, a `+` in front.
pub proof fn lemma_number_chars(s: Seq<char>)
    requires
        parsed_u64(s) is Some,
    ensures
        s.len() > 0,
        forall|i: int| 0 <= i < s.len() ==> #[trigger] s[i] == '+' || is_digit(s[i]),
{
    let digits = unsigned_digits(s);
    assert forall|i: int| 0 <= i < s.len() implies #[trigger] s[i] == '+' || is_digit(s[i]) by {
        if s[0] == '+' {
            if i > 0 {
                assert(digits[i - 1] == s[i]);
            }
        } else {
            assert(digits[i] == s[i]);
        }
    }
}

/// One more digit at the end multiplies the value by ten and adds the digit.
pub proof fn lemma_decimal_value_push(digits: Seq<char>, c: char)
    ensures
        decimal_value(digits.push(c)) == decimal_value(digits) * 10 + digit_value(c),
{
    assert(digits.push(c).drop_last() =~= digits);
}

/// The value of the first `k` digits is at most the value of them all.
pub proof fn lemma_decimal_value_prefix(digits: Seq<char>, k: int)
    requires
        0 <= k <= digits.len(),
    ensures
        decimal_value(digits.take(k)) <= decimal_value(digits),
    decreases digits.len(),
{
    if k == digits.len() {
        assert(digits.take(k) =~= digits);
    } else {
        assert(digits.drop_last().take(k) =~= digits.take(k));
        lemma_decimal_value_prefix(digits.drop_last(), k);
    }
}

/// The unsigned 64-bit number that `s` is the text of, if it is one.
pub fn parse_u64(s: &[char]) -> (r: Option<u64>)
    ensures
        r == parsed_u64(s@),
{
    let n = s.len();
    let first: usize = if n > 0 && s[0] == '+' {
        1
    } else {
        0
    };
    let ghost digits = unsigned_digits(s@);
    assert(digits =~= s@.skip(first as int));
    if first == n {
        return None;
    }
    let mut value: u64 = 0;
    let mut i: usize = first;
    assert(digits.take(0).len() == 0);
    while i < n
        invariant
            n == s.len(),
            first <= i <= n,
            digits == unsigned_digits(s@),
            digits == s@.skip(first as int),
            all_digits(digits.take(i - first)),
            value == decimal_value(digits.take(i - first)),
        decreases n - i,
    {
        let ghost read = digits.take(i - first);
        let ghost more = digits.take(i + 1 - first);
        proof {
            assert(more =~= read.push(s@[i as int]));
            lemma_decimal_value_push(read, s@[i as int]);
            lemma_decimal_value_prefix(digits, i + 1 - first);
        }
        let d: u8 = match value_of_digit(s[i]) {
            Some(d) => d,
            None => {
                assert(!is_digit(digits[i - first]));
                return None;
            },
        };
        let tens: u64 = match value.checked_mul(10) {
            Some(tens) => tens,
            None => {
                return None;
            },
        };
        value = match tens.checked_add(d as u64) {
            Some(sum) => sum,
            None => {
                return None;
            },
        };
        i += 1;
        assert forall|j: int| 0 <= j < more.len() implies is_digit(#[trigger] more[j]) by {
            if j < read.len() {
                assert(more[j] == read[j]);
            }
        }
    }
    assert(digits.take(i - first) =~= digits);
    Some(value)
}

/// The text of `n` in base ten, without leading zeros; zero is written `0`.
pub open spec fn decimal_digits(n: nat) -> Seq<char>
    decreases n,
{
    if n < 10 {
        seq![digit_char(n)]
    } else {
        decimal_digits(n / 10).push(digit_char(n % 10))
    }
}

/// The text of `n` in base ten.
pub fn decimal_text(n: u64) -> (r: Vec<char>)
    ensures
        r@ == decimal_digits(n as nat),
    decreases n,
{
    if n < 10 {
        let mut out: Vec<char> = Vec::new();
        out.push(digit_of(n as u8));
        assert(out@ =~= seq![digit_char(n as nat)]);
        out
    } else {
        let mut out = decimal_text(n / 10);
        out.push(digit_of((n % 10) as u8));
        out
    }
}

/// The text of a number is made of digits, at least one, and stands for the number.
pub proof fn lemma_decimal_digits(n: nat)
    ensures
        decimal_digits(n).len() >= 1,
        all_digits(decimal_digits(n)),
        decimal_value(decimal_digits(n)) == n,
    decreases n,
{
    if n < 10 {
        let one = seq![digit_char(n)];
        assert(one.drop_last() =~= Seq::<char>::empty());
        assert(decimal_value(one.drop_last()) == 0);
        assert(one.last() == digit_char(n));
    } else {
        lemma_decimal_digits(n / 10);
        lemma_decimal_value_push(decimal_digits(n / 10), digit_char(n % 10));
    }
}

/// Reading the text of a number gives the number back.
pub proof fn lemma_parse_decimal_digits(n: u64)
    ensures
        parsed_u64(decimal_digits(n as nat)) == Some(n),
{
    lemma_decimal_digits(n as nat);
    let text = decimal_digits(n as nat);
    assert(is_digit(text[0]));
}

/// `digits` with zeros put before it until it is `width` long; text that is
/// already as long, or longer, stays as it is.
pub open spec fn zero_padded(digits: Seq<char>, width: nat) -> Seq<char> {
    if digits.len() < width {
        Seq::new((width - digits.len()) as nat, |i: int| '0') + digits
    } else {
        digits
    }
}

/// Padding makes a text at least `width` long and no longer than it must be,
/// keeps digits digits, and does not change the number that they stand for.
pub proof fn lemma_zero_padded(digits: Seq<char>, width: nat)
    ensures
        zero_padded(digits, width).len() == if digits.len() < width {
            width
        } else {
            digits.len()
        },
        all_digits(digits) ==> all_digits(zero_padded(digits, width)),
        decimal_value(zero_padded(digits, width)) == decimal_value(digits),
{
    if digits.len() < width {
        lemma_decimal_value_after_zeros((width - digits.len()) as nat, digits);
    }
}

/// A text of zeros stands for zero.
pub proof fn lemma_zeros_value(count: nat)
    ensures
        decimal_value(Seq::new(count, |i: int| '0')) == 0,
    decreases count,
{
    if count > 0 {
        let zeros = Seq::new(count, |i: int| '0');
        assert(zeros.drop_last() =~= Seq::new((count - 1) as nat, |i: int| '0'));
        lemma_zeros_value((count - 1) as nat);
    }
}

/// Zeros before a text do not change the number that it stands for.
pub proof fn lemma_decimal_value_after_zeros(count: nat, digits: Seq<char>)
    ensures
        decimal_value(Seq::new(count, |i: int| '0') + digits) == decimal_value(digits),
    decreases digits.len(),
{
    let zeros = Seq::new(count, |i: int| '0');
    if digits.len() == 0 {
        assert(zeros + digits =~= zeros);
        lemma_zeros_value(count);
    } else {
        assert((zeros + digits).drop_last() =~= zeros + digits.drop_last());
        lemma_decimal_value_after_zeros(count, digits.drop_last());
    }
}

/// `digits` with zeros put before it until it is `width` long.
pub fn pad_with_zeros(digits: &Vec<char>, width: usize) -> (r: Vec<char>)
    ensures
        r@ == zero_padded(digits@, width as nat),
{
    let n = digits.len();
    let mut out: Vec<char> = Vec::new();
    let mut i: usize = n;
    while i < width
        invariant
            n == digits.len(),
            n <= i,
            n < width ==> i <= width,
            n >= width ==> i == n,
            out@ == Seq::new((i - n) as nat, |k: int| '0'),
        decreases width - i,
    {
        out.push('0');
        i += 1;
        assert(out@ =~= Seq::new((i - n) as nat, |k: int| '0'));
    }
    let ghost zeros = out@;
    let mut k: usize = 0;
    while k < n
        invariant
            n == digits.len(),
            k <= n,
            out@ == zeros + digits@.take(k as int),
        decreases n - k,
    {
        out.push(digits[k]);
        k += 1;
        assert(out@ =~= zeros + digits@.take(k as int));
    }
    assert(digits@.take(n as int) =~= digits@);
    assert(n >= width ==> zeros + digits@ =~= digits@);
    out
}

} // verus!
