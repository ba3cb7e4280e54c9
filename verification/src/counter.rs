//! The counter placeholder `$(N:<start>:<step>:<width>)`: a number that grows
//! with the position of a file in its batch, written with leading zeros.

use crate::number::{
    all_digits, decimal_digits, decimal_text, decimal_value, lemma_decimal_digits,
    lemma_zero_padded, pad_with_zeros, parse_u64, parsed_u64, zero_padded,
};
use crate::text::{
    append, chars_of, find, find_char, first_occurrence, first_occurrence_from,
    lemma_first_occurrence_from, lemma_first_occurrence_some,
};
use vstd::prelude::*;
use vstd::slice::slice_subrange;

verus! {

/// The widest zero padding that a counter is written with.
pub const MAX_ZERO_PAD: u64 = 50;

/// The parameters of one counter placeholder.
#[derive(Clone, Copy, Debug, PartialEq, Eq, Structural)]
pub struct CounterToken {
    /// The counter's value for the first file of a batch.
    pub start: u64,
    /// What the value grows by from one file to the next.
    pub step: u64,
    /// The least number of digits that the value is written with.
    pub zeropad: u64,
}

/// The four characters that open a counter placeholder.
pub open spec fn counter_marker() -> Seq<char> {
    seq!['$', '(', 'N', ':']
}

/// The character between two parameters of a counter.
pub open spec fn colon() -> Seq<char> {
    seq![':']
}

/// The character that closes a counter placeholder.
pub open spec fn closing() -> Seq<char> {
    seq![')']
}

impl CounterToken {
    /// The counter's value for the file at position `index`: `start + step * index`.
    /// A product that does not fit in 64 bits counts as zero, and a sum that
    /// does not fit makes the whole value zero.
    pub open spec fn value_at(self, index: u64) -> u64 {
        let product: int = if self.step * index > u64::MAX {
            0
        } else {
            self.step * index
        };
        if product + self.start > u64::MAX {
            0
        } else {
            (product + self.start) as u64
        }
    }

    /// The number of digits that the value is padded to: `zeropad`, but at most
    /// `MAX_ZERO_PAD`.
    pub open spec fn width(self) -> nat {
        if self.zeropad < MAX_ZERO_PAD {
            self.zeropad as nat
        } else {
            MAX_ZERO_PAD as nat
        }
    }

    /// The text that stands for the counter at position `index`: its value in
    /// base ten, with zeros before it up to the width, and never cut short.
    pub open spec fn rendered(self, index: u64) -> Seq<char> {
        zero_padded(decimal_digits(self.value_at(index) as nat), self.width())
    }

    /// The counter's value for the file at position `index`.
    pub fn value(&self, index: u64) -> (r: u64)
        ensures
            r == self.value_at(index),
    {
        let product: u64 = match self.step.checked_mul(index) {
            Some(product) => product,
            None => 0,
        };
        match product.checked_add(self.start) {
            Some(sum) => sum,
            None => 0,
        }
    }

    /// The text that stands for the counter at position `index`.
    pub fn render(&self, index: u64) -> (r: Vec<char>)
        ensures
            r@ == self.rendered(index),
    {
        let width: usize = if self.zeropad < MAX_ZERO_PAD {
            self.zeropad as usize
        } else {
            MAX_ZERO_PAD as usize
        };
        let digits = decimal_text(self.value(index));
        pad_with_zeros(&digits, width)
    }
}

/// The counter's value is `start + step * index` wherever that fits in 64
/// bits. Where the product does not fit, the value is `start`; where the
/// product fits and the sum does not, the value is zero.
pub proof fn lemma_counter_value(token: CounterToken, index: u64)
    ensures
        token.step * index + token.start <= u64::MAX ==> token.value_at(index) == token.start
            + token.step * index,
        token.step * index > u64::MAX ==> token.value_at(index) == token.start,
        token.step * index <= u64::MAX && token.step * index + token.start > u64::MAX
            ==> token.value_at(index) == 0,
{
    assert(token.step * index >= 0) by (nonlinear_arith);
}

/// The text of a counter is made of digits, stands for the counter's value, and
/// is as long as the value's own text or as the width, whichever is more: the
/// value is never cut short, and the text is never longer than it must be.
pub proof fn lemma_rendered(token: CounterToken, index: u64)
    ensures
        all_digits(token.rendered(index)),
        decimal_value(token.rendered(index)) == token.value_at(index),
        token.width() <= MAX_ZERO_PAD,
        token.rendered(index).len() == if decimal_digits(token.value_at(index) as nat).len()
            < token.width() {
            token.width()
        } else {
            decimal_digits(token.value_at(index) as nat).len()
        },
        token.rendered(index).len() >= 1,
{
    let value = token.value_at(index) as nat;
    lemma_decimal_digits(value);
    lemma_zero_padded(decimal_digits(value), token.width());
}

/// What the text after a counter's marker holds. The first parameter ends at
/// the first colon, the second at the next colon, the third at the first
/// closing parenthesis after that; each must be the text of an unsigned 64-bit
/// number. The result is the three numbers and the number of characters up to
/// and including the parenthesis. Text that lacks a delimiter, or holds a
/// parameter that is no number, is no counter.
#[verifier::opaque]
pub open spec fn parsed_counter(rest: Seq<char>) -> Option<(CounterToken, int)> {
    match first_occurrence_from(rest, colon(), 0) {
        None => None,
        Some(first_colon) => match first_occurrence_from(rest, colon(), first_colon + 1) {
            None => None,
            Some(second_colon) => match first_occurrence_from(rest, closing(), second_colon) {
                None => None,
                Some(close) => match (
                    parsed_u64(rest.subrange(0, first_colon)),
                    parsed_u64(rest.subrange(first_colon + 1, second_colon)),
                    parsed_u64(rest.subrange(second_colon + 1, close)),
                ) {
                    (Some(start), Some(step), Some(zeropad)) => Some(
                        (CounterToken { start, step, zeropad }, close + 1),
                    ),
                    _ => None,
                },
            },
        },
    }
}

/// What the text after a counter's marker holds, if it is a counter: the three
/// numbers and the number of characters up to and including the parenthesis.
pub fn parse_counter(rest: &[char]) -> (r: Option<(CounterToken, usize)>)
    ensures
        match r {
            Some((token, used)) => parsed_counter(rest@) == Some((token, used as int)),
            None => parsed_counter(rest@) is None,
        },
        r matches Some((_, used)) ==> 0 < used <= rest@.len(),
{
    proof {
        reveal(parsed_counter);
    }
    if rest.len() == 0 {
        return None;
    }
    let first_colon: usize = match find_char(rest, 0, ':') {
        Some(p) => p,
        None => {
            return None;
        },
    };
    let second_colon: usize = match find_char(rest, first_colon + 1, ':') {
        Some(p) => p,
        None => {
            return None;
        },
    };
    let close: usize = match find_char(rest, second_colon, ')') {
        Some(p) => p,
        None => {
            return None;
        },
    };
    let start: u64 = match parse_u64(slice_subrange(rest, 0, first_colon)) {
        Some(start) => start,
        None => {
            return None;
        },
    };
    let step: u64 = match parse_u64(slice_subrange(rest, first_colon + 1, second_colon)) {
        Some(step) => step,
        None => {
            return None;
        },
    };
    let zeropad: u64 = match parse_u64(slice_subrange(rest, second_colon + 1, close)) {
        Some(zeropad) => zeropad,
        None => {
            return None;
        },
    };
    Some((CounterToken { start, step, zeropad }, close + 1))
}

/// `s` with every counter placeholder replaced by the counter's text for the
/// file at position `index`. The text is read from the left. At each marker,
/// what follows either is a counter, which is replaced from the marker through
/// its closing parenthesis, or is not, and then the marker stays as it is and
/// reading goes on right after it. What was put in is not read again.
pub open spec fn expanded_counters(s: Seq<char>, index: u64) -> Seq<char>
    decreases s.len(),
    via expanded_counters_decreases
{
    match first_occurrence(s, counter_marker()) {
        None => s,
        Some(p) => {
            let rest = s.skip(p + 4);
            match parsed_counter(rest) {
                Some((token, used)) => s.take(p) + token.rendered(index) + expanded_counters(
                    rest.skip(used),
                    index,
                ),
                None => s.take(p + 4) + expanded_counters(rest, index),
            }
        },
    }
}

#[via_fn]
proof fn expanded_counters_decreases(s: Seq<char>, index: u64) {
    if first_occurrence(s, counter_marker()) is Some {
        let p = first_occurrence(s, counter_marker())->0;
        lemma_first_occurrence_some(s, counter_marker());
        lemma_parsed_counter_length(s.skip(p + 4));
    }
}

/// A counter's parameters take at least one character and no more than there are.
pub proof fn lemma_parsed_counter_length(rest: Seq<char>)
    ensures
        parsed_counter(rest) matches Some((_, used)) ==> 0 < used <= rest.len(),
{
    reveal(parsed_counter);
    if parsed_counter(rest) is Some {
        lemma_first_occurrence_from(rest, colon(), 0);
        let first_colon = first_occurrence_from(rest, colon(), 0)->0;
        lemma_first_occurrence_from(rest, colon(), first_colon + 1);
        let second_colon = first_occurrence_from(rest, colon(), first_colon + 1)->0;
        lemma_first_occurrence_from(rest, closing(), second_colon);
    }
}

/// Text without a marker holds no counter and stays as it is.
pub proof fn lemma_expanded_without_marker(s: Seq<char>, index: u64)
    requires
        first_occurrence(s, counter_marker()) is None,
    ensures
        expanded_counters(s, index) == s,
{
}

/// At the first marker, a counter is replaced by its text, and the expansion
/// goes on behind its closing parenthesis.
pub proof fn lemma_expanded_at_counter(
    s: Seq<char>,
    index: u64,
    p: int,
    token: CounterToken,
    used: int,
)
    requires
        first_occurrence(s, counter_marker()) == Some(p),
        parsed_counter(s.skip(p + 4)) == Some((token, used)),
    ensures
        expanded_counters(s, index) == s.take(p) + token.rendered(index) + expanded_counters(
            s.skip(p + 4).skip(used),
            index,
        ),
{
}

/// At the first marker, text that is no counter keeps the marker, and the
/// expansion goes on behind the marker.
pub proof fn lemma_expanded_at_malformed(s: Seq<char>, index: u64, p: int)
    requires
        first_occurrence(s, counter_marker()) == Some(p),
        parsed_counter(s.skip(p + 4)) is None,
    ensures
        expanded_counters(s, index) == s.take(p + 4) + expanded_counters(s.skip(p + 4), index),
{
}

/// The four characters that open a counter placeholder.
pub fn marker_chars() -> (r: Vec<char>)
    ensures
        r@ == counter_marker(),
{
    let r = chars_of("$(N:");
    proof {
        reveal_strlit("$(N:");
        assert(r@ =~= counter_marker());
    }
    r
}

/// `text` with every counter placeholder replaced by the counter's text for
/// the file at position `index`.
pub fn expand_counters(text: &[char], index: u64) -> (r: Vec<char>)
    ensures
        r@ == expanded_counters(text@, index),
{
    let marker = marker_chars();
    let mut out: Vec<char> = Vec::new();
    let mut rest: &[char] = text;
    loop
        invariant
            marker@ == counter_marker(),
            out@ + expanded_counters(rest@, index) == expanded_counters(text@, index),
        decreases rest@.len(),
    {
        let ghost before = out@;
        let ghost s = rest@;
        let n = rest.len();
        let found = find(rest, 0, marker.as_slice());
        proof {
            assert(s.skip(0) =~= s);
            assert(counter_marker().len() == 4);
        }
        let p: usize = match found {
            Some(p) => p,
            None => {
                proof {
                    lemma_expanded_without_marker(s, index);
                }
                append(&mut out, rest);
                return out;
            },
        };
        let params = slice_subrange(rest, p + 4, n);
        assert(params@ == s.skip(p + 4));
        match parse_counter(params) {
            Some((token, used)) => {
                proof {
                    lemma_expanded_at_counter(s, index, p as int, token, used as int);
                }
                append(&mut out, slice_subrange(rest, 0, p));
                let digits = token.render(index);
                append(&mut out, digits.as_slice());
                rest = slice_subrange(params, used, params.len());
                proof {
                    assert(rest@ == s.skip(p + 4).skip(used as int));
                    assert(out@ == before + s.take(p as int) + token.rendered(index));
                    assert(out@ + expanded_counters(rest@, index) =~= before + (s.take(p as int)
                        + token.rendered(index) + expanded_counters(rest@, index)));
                }
            },
            None => {
                proof {
                    lemma_expanded_at_malformed(s, index, p as int);
                }
                append(&mut out, slice_subrange(rest, 0, p + 4));
                rest = params;
                proof {
                    assert(out@ == before + s.take(p + 4));
                    assert(out@ + expanded_counters(rest@, index) =~= before + (s.take(p + 4)
                        + expanded_counters(rest@, index)));
                }
            },
        }
    }
}

} // verus!
