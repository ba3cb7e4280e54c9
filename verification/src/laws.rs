//! What holds of the expansion as a whole.

use crate::counter::{
    closing, colon, counter_marker, expanded_counters, lemma_expanded_at_counter,
    lemma_expanded_at_malformed, lemma_expanded_without_marker, lemma_rendered, parsed_counter,
    CounterToken,
};
use crate::expand::{custom_name, expanded};
use crate::metadata::{resolved_values, FileMetadata};
use crate::number::{
    decimal_digits, is_digit, lemma_number_chars, lemma_parse_decimal_digits, parsed_u64,
};
use crate::placeholders::{
    creation_marker, current_marker, extension_marker, modification_marker, name_marker,
    size_marker, with_placeholders, PlaceholderTexts,
};
use crate::text::{
    first_occurrence, first_occurrence_from, lemma_first_char, lemma_first_occurrence_from,
    lemma_first_occurrence_is, lemma_first_occurrence_none, lemma_first_occurrence_some,
    lemma_occurs_in_suffix, lemma_replaced_absent, lemma_replaced_whole, occurs_at,
};
use vstd::prelude::*;

verus! {

/// A template that is the placeholder for the current path alone becomes the
/// path, whatever the other values are.
pub proof fn lemma_current_alone(values: PlaceholderTexts)
    ensures
        with_placeholders(current_marker(), values) == values.current,
{
    reveal_strlit("$(NAME)");
    reveal_strlit("$(EXT)");
    reveal_strlit("$(SIZE)");
    reveal_strlit("$(CREAT)");
    reveal_strlit("$(MODIF)");
    reveal_strlit("$(CURR)");
    let t = current_marker();
    assert forall|j: int| !occurs_at(t, name_marker(), j) by {
        if occurs_at(t, name_marker(), j) {
            assert(t.subrange(j, j + 7)[2] == name_marker()[2]);
        }
    }
    lemma_replaced_absent(t, name_marker(), values.name);
    assert forall|j: int| !occurs_at(t, extension_marker(), j) by {
        if occurs_at(t, extension_marker(), j) {
            assert(t.subrange(j, j + 6)[2] == extension_marker()[2]);
            assert(t.subrange(j, j + 6)[0] == extension_marker()[0]);
        }
    }
    lemma_replaced_absent(t, extension_marker(), values.extension);
    assert forall|j: int| !occurs_at(t, size_marker(), j) by {
        if occurs_at(t, size_marker(), j) {
            assert(t.subrange(j, j + 7)[2] == size_marker()[2]);
        }
    }
    lemma_replaced_absent(t, size_marker(), values.size);
    assert forall|j: int| !occurs_at(t, creation_marker(), j) by {}
    lemma_replaced_absent(t, creation_marker(), values.creation_date);
    assert forall|j: int| !occurs_at(t, modification_marker(), j) by {}
    lemma_replaced_absent(t, modification_marker(), values.modification_date);
    lemma_replaced_whole(t, values.current);
}

/// No marker in `s` is followed by the parameters of a counter: every counter
/// placeholder that `s` may seem to hold is malformed.
pub open spec fn holds_no_counter(s: Seq<char>) -> bool {
    forall|p: int| occurs_at(s, counter_marker(), p) ==> parsed_counter(s.skip(p + 4)) is None
}

/// What follows a marker in `s` holds a counter only where `s` does.
proof fn lemma_rest_holds_no_counter(s: Seq<char>, p: int)
    requires
        0 <= p,
        p + 4 <= s.len(),
        holds_no_counter(s),
    ensures
        holds_no_counter(s.skip(p + 4)),
{
    let rest = s.skip(p + 4);
    assert forall|q: int| occurs_at(rest, counter_marker(), q) implies parsed_counter(
        rest.skip(q + 4),
    ) is None by {
        lemma_occurs_in_suffix(s, counter_marker(), p + 4, q);
        assert(rest.skip(q + 4) =~= s.skip(p + 4 + q + 4));
    }
}

/// Text in which every counter placeholder is malformed comes out of the
/// expansion of counters as it went in.
pub proof fn lemma_malformed_counters_stay(s: Seq<char>, index: u64)
    requires
        holds_no_counter(s),
    ensures
        expanded_counters(s, index) == s,
    decreases s.len(),
{
    match first_occurrence(s, counter_marker()) {
        None => {
            lemma_expanded_without_marker(s, index);
        },
        Some(p) => {
            lemma_first_occurrence_some(s, counter_marker());
            lemma_expanded_at_malformed(s, index, p);
            lemma_rest_holds_no_counter(s, p);
            lemma_malformed_counters_stay(s.skip(p + 4), index);
            assert(s.take(p + 4) + s.skip(p + 4) =~= s);
        },
    }
}

/// A marker begins with `$`, and none stands at the three places behind the
/// start of another.
proof fn lemma_markers_apart(s: Seq<char>, p: int, q: int)
    requires
        occurs_at(s, counter_marker(), p),
        occurs_at(s, counter_marker(), q),
        p < q,
    ensures
        s[p] == '$',
        q >= p + 4,
{
    let marker = counter_marker();
    assert(s.subrange(p, p + 4)[0] == marker[0]);
    assert(s.subrange(q, q + 4)[0] == marker[0]);
    assert(s.subrange(p, p + 4)[1] == marker[1]);
    assert(s.subrange(p, p + 4)[2] == marker[2]);
    assert(s.subrange(p, p + 4)[3] == marker[3]);
}

/// A counter at the first marker makes the expansion differ from the text at
/// the marker's place: a digit stands there in place of the `$`.
proof fn lemma_counter_at_first_marker(
    s: Seq<char>,
    index: u64,
    p: int,
    token: CounterToken,
    used: int,
)
    requires
        first_occurrence(s, counter_marker()) == Some(p),
        parsed_counter(s.skip(p + 4)) == Some((token, used)),
    ensures
        expanded_counters(s, index) != s,
{
    lemma_first_occurrence_some(s, counter_marker());
    assert(s.subrange(p, p + 4)[0] == counter_marker()[0]);
    lemma_expanded_at_counter(s, index, p, token, used);
    lemma_rendered(token, index);
    let text = token.rendered(index);
    let out = s.take(p) + text + expanded_counters(s.skip(p + 4).skip(used), index);
    assert(out[p] == text[0]);
    assert(is_digit(text[0]));
    assert(s[p] == '$');
}

/// Text that holds a well-formed counter placeholder does not come out of the
/// expansion of counters as it went in.
pub proof fn lemma_counter_changes_text(s: Seq<char>, index: u64)
    requires
        !holds_no_counter(s),
    ensures
        expanded_counters(s, index) != s,
    decreases s.len(),
{
    let marker = counter_marker();
    let q = choose|q: int| occurs_at(s, marker, q) && parsed_counter(s.skip(q + 4)) is Some;
    lemma_first_occurrence_none(s, marker);
    lemma_first_occurrence_some(s, marker);
    let p = first_occurrence(s, marker)->0;
    let rest = s.skip(p + 4);
    match parsed_counter(rest) {
        Some((token, used)) => {
            lemma_counter_at_first_marker(s, index, p, token, used);
        },
        None => {
            lemma_expanded_at_malformed(s, index, p);
            assert(p < q) by {
                if q < p {
                    assert(!occurs_at(s, marker, q));
                }
            }
            lemma_markers_apart(s, p, q);
            assert(!holds_no_counter(rest)) by {
                lemma_occurs_in_suffix(s, marker, p + 4, q - (p + 4));
                assert(rest.skip(q - (p + 4) + 4) =~= s.skip(q + 4));
            }
            lemma_counter_changes_text(rest, index);
            let out = s.take(p + 4) + expanded_counters(rest, index);
            assert(out != s) by {
                if out == s {
                    assert(out.skip(p + 4) =~= expanded_counters(rest, index));
                }
            }
        },
    }
}

/// The parameters of a counter as they are written: three numbers with a colon
/// after the first and after the second, and a closing parenthesis at the end.
pub open spec fn counter_params(start: Seq<char>, step: Seq<char>, zeropad: Seq<char>) -> Seq<
    char,
> {
    start + colon() + step + colon() + zeropad + closing()
}

/// Three numbers written as the parameters of a counter are read as that
/// counter, whatever follows them, and are read up to the parenthesis.
pub proof fn lemma_counter_form(
    start: Seq<char>,
    step: Seq<char>,
    zeropad: Seq<char>,
    tail: Seq<char>,
)
    requires
        parsed_u64(start) is Some,
        parsed_u64(step) is Some,
        parsed_u64(zeropad) is Some,
    ensures
        parsed_counter(counter_params(start, step, zeropad) + tail) == Some(
            (
                CounterToken {
                    start: parsed_u64(start)->0,
                    step: parsed_u64(step)->0,
                    zeropad: parsed_u64(zeropad)->0,
                },
                counter_params(start, step, zeropad).len() as int,
            ),
        ),
{
    reveal(parsed_counter);
    let rest = counter_params(start, step, zeropad) + tail;
    lemma_number_chars(start);
    lemma_number_chars(step);
    lemma_number_chars(zeropad);
    let first_colon = start.len() as int;
    let second_colon = first_colon + 1 + step.len();
    let close = second_colon + 1 + zeropad.len();
    assert(rest.len() == close + 1 + tail.len());
    assert forall|j: int| 0 <= j < first_colon implies rest[j] == start[j] by {}
    assert(rest[first_colon] == ':');
    assert forall|j: int| 0 <= j < step.len() implies rest[first_colon + 1 + j] == step[j] by {}
    assert(rest[second_colon] == ':');
    assert forall|j: int| 0 <= j < zeropad.len() implies rest[second_colon + 1 + j]
        == zeropad[j] by {}
    assert(rest[close] == ')');
    assert(rest.skip(0) =~= rest);
    lemma_first_char(rest, ':', first_colon);
    let after_first = rest.skip(first_colon + 1);
    assert forall|j: int| 0 <= j < step.len() implies after_first[j] != ':' by {
        assert(after_first[j] == step[j]);
    }
    lemma_first_char(after_first, ':', step.len() as int);
    let from_second = rest.skip(second_colon);
    assert forall|j: int| 0 <= j < 1 + zeropad.len() implies from_second[j] != ')' by {
        if j > 0 {
            assert(from_second[j] == zeropad[j - 1]);
        }
    }
    lemma_first_char(from_second, ')', 1 + zeropad.len() as int);
    assert(rest.subrange(0, first_colon) =~= start);
    assert(rest.subrange(first_colon + 1, second_colon) =~= step);
    assert(rest.subrange(second_colon + 1, close) =~= zeropad);
}

/// Text that is read as a counter is three numbers written as the parameters
/// of a counter, and it is read up to the parenthesis that closes them.
pub proof fn lemma_counter_form_only(rest: Seq<char>)
    requires
        parsed_counter(rest) is Some,
    ensures
        ({
            let (token, used) = parsed_counter(rest)->0;
            exists|start: Seq<char>, step: Seq<char>, zeropad: Seq<char>|
                {
                    &&& rest == #[trigger] counter_params(start, step, zeropad) + rest.skip(used)
                    &&& used == counter_params(start, step, zeropad).len()
                    &&& parsed_u64(start) == Some(token.start)
                    &&& parsed_u64(step) == Some(token.step)
                    &&& parsed_u64(zeropad) == Some(token.zeropad)
                }
        }),
{
    reveal(parsed_counter);
    let (token, used) = parsed_counter(rest)->0;
    lemma_first_occurrence_from(rest, colon(), 0);
    let first_colon = first_occurrence_from(rest, colon(), 0)->0;
    lemma_first_occurrence_from(rest, colon(), first_colon + 1);
    let second_colon = first_occurrence_from(rest, colon(), first_colon + 1)->0;
    lemma_first_occurrence_from(rest, closing(), second_colon);
    let close = first_occurrence_from(rest, closing(), second_colon)->0;
    assert(rest.subrange(first_colon, first_colon + 1)[0] == colon()[0]);
    assert(rest.subrange(second_colon, second_colon + 1)[0] == colon()[0]);
    assert(rest.subrange(close, close + 1)[0] == closing()[0]);
    let start = rest.subrange(0, first_colon);
    let step = rest.subrange(first_colon + 1, second_colon);
    let zeropad = rest.subrange(second_colon + 1, close);
    assert(rest =~= counter_params(start, step, zeropad) + rest.skip(used));
}

/// A marker behind text that holds none is the first marker of the whole.
pub proof fn lemma_first_marker(before: Seq<char>, rest: Seq<char>)
    requires
        first_occurrence(before, counter_marker()) is None,
        occurs_at(rest, counter_marker(), 0),
    ensures
        first_occurrence(before + rest, counter_marker()) == Some(before.len() as int),
{
    let marker = counter_marker();
    let s = before + rest;
    let p = before.len() as int;
    assert(s.subrange(p, p + 4) =~= rest.subrange(0, 4));
    assert(rest.subrange(0, 4)[0] == marker[0]);
    lemma_first_occurrence_none(before, marker);
    assert forall|j: int| 0 <= j < p implies !occurs_at(s, marker, j) by {
        if occurs_at(s, marker, j) {
            let found = s.subrange(j, j + 4);
            if j + 4 <= p {
                assert(before.subrange(j, j + 4) =~= found);
                assert(occurs_at(before, marker, j));
            } else {
                assert(found[p - j] == s[p]);
                assert(found[p - j] == marker[p - j]);
            }
        }
    }
    lemma_first_occurrence_is(s, marker, p);
}

/// A well-formed counter in a text is replaced by its number, and what stands
/// before it and behind it is expanded on its own: text without a marker
/// before it stays, and the text behind it is expanded as if it stood alone.
/// The number is `start + step * index` with zeros up to the width, as
/// `CounterToken::rendered` says.
pub proof fn lemma_counter_in_text(
    before: Seq<char>,
    start: Seq<char>,
    step: Seq<char>,
    zeropad: Seq<char>,
    tail: Seq<char>,
    index: u64,
)
    requires
        first_occurrence(before, counter_marker()) is None,
        parsed_u64(start) is Some,
        parsed_u64(step) is Some,
        parsed_u64(zeropad) is Some,
    ensures
        expanded_counters(
            before + counter_marker() + counter_params(start, step, zeropad) + tail,
            index,
        ) == before + (CounterToken {
            start: parsed_u64(start)->0,
            step: parsed_u64(step)->0,
            zeropad: parsed_u64(zeropad)->0,
        }).rendered(index) + expanded_counters(tail, index),
{
    let marker = counter_marker();
    let params = counter_params(start, step, zeropad);
    let s = before + marker + params + tail;
    let rest = marker + params + tail;
    let p = before.len() as int;
    let token = CounterToken {
        start: parsed_u64(start)->0,
        step: parsed_u64(step)->0,
        zeropad: parsed_u64(zeropad)->0,
    };
    assert(first_occurrence(s, marker) == Some(p)) by {
        assert(rest.subrange(0, 4) =~= marker);
        assert(s =~= before + rest);
        lemma_first_marker(before, rest);
    }
    assert(s.skip(p + 4) == params + tail) by {
        assert(s.skip(p + 4) =~= params + tail);
    }
    assert(parsed_counter(s.skip(p + 4)) == Some((token, params.len() as int))) by {
        lemma_counter_form(start, step, zeropad, tail);
    }
    lemma_expanded_at_counter(s, index, p, token, params.len() as int);
    assert(s.skip(p + 4).skip(params.len() as int) == tail) by {
        assert((params + tail).skip(params.len() as int) =~= tail);
    }
    assert(s.take(p) == before) by {
        assert(s.take(p) =~= before);
    }
}

/// A template that is one counter, its three numbers written in base ten,
/// becomes the counter's text: the value `start + step * index`, with zeros
/// before it up to the width.
pub proof fn lemma_single_counter(token: CounterToken, index: u64)
    ensures
        expanded_counters(
            counter_marker() + counter_params(
                decimal_digits(token.start as nat),
                decimal_digits(token.step as nat),
                decimal_digits(token.zeropad as nat),
            ),
            index,
        ) == token.rendered(index),
{
    let start = decimal_digits(token.start as nat);
    let step = decimal_digits(token.step as nat);
    let zeropad = decimal_digits(token.zeropad as nat);
    let nothing = Seq::<char>::empty();
    let params = counter_params(start, step, zeropad);
    lemma_parse_decimal_digits(token.start);
    lemma_parse_decimal_digits(token.step);
    lemma_parse_decimal_digits(token.zeropad);
    lemma_first_occurrence_none(nothing, counter_marker());
    lemma_expanded_without_marker(nothing, index);
    lemma_counter_in_text(nothing, start, step, zeropad, nothing, index);
    assert(nothing + counter_marker() + params + nothing =~= counter_marker() + params);
    assert(nothing + token.rendered(index) + nothing =~= token.rendered(index));
}

/// Text without a `$` holds no placeholder: it is its own expansion, whatever
/// the values and the position in the batch.
pub proof fn lemma_plain_text_stays(template: Seq<char>, values: PlaceholderTexts, index: u64)
    requires
        forall|i: int| 0 <= i < template.len() ==> template[i] != '$',
    ensures
        with_placeholders(template, values) == template,
        expanded(template, values, index) == template,
{
    reveal_strlit("$(NAME)");
    reveal_strlit("$(EXT)");
    reveal_strlit("$(SIZE)");
    reveal_strlit("$(CREAT)");
    reveal_strlit("$(MODIF)");
    reveal_strlit("$(CURR)");
    lemma_no_dollar_no_occurrence(template, name_marker());
    lemma_replaced_absent(template, name_marker(), values.name);
    lemma_no_dollar_no_occurrence(template, extension_marker());
    lemma_replaced_absent(template, extension_marker(), values.extension);
    lemma_no_dollar_no_occurrence(template, size_marker());
    lemma_replaced_absent(template, size_marker(), values.size);
    lemma_no_dollar_no_occurrence(template, creation_marker());
    lemma_replaced_absent(template, creation_marker(), values.creation_date);
    lemma_no_dollar_no_occurrence(template, modification_marker());
    lemma_replaced_absent(template, modification_marker(), values.modification_date);
    lemma_no_dollar_no_occurrence(template, current_marker());
    lemma_replaced_absent(template, current_marker(), values.current);
    lemma_no_dollar_no_occurrence(template, counter_marker());
    lemma_first_occurrence_none(template, counter_marker());
    lemma_expanded_without_marker(template, index);
}

/// A pattern that begins with `$` stands nowhere in text without a `$`.
proof fn lemma_no_dollar_no_occurrence(s: Seq<char>, pat: Seq<char>)
    requires
        pat.len() > 0,
        pat[0] == '$',
        forall|i: int| 0 <= i < s.len() ==> s[i] != '$',
    ensures
        forall|j: int| !occurs_at(s, pat, j),
{
    assert forall|j: int| !occurs_at(s, pat, j) by {
        if occurs_at(s, pat, j) {
            assert(s.subrange(j, j + pat.len())[0] == s[j]);
        }
    }
}

/// A custom rule whose template is the placeholder for the current path gives
/// the path with its counters expanded, at every position of the batch, in a
/// preview or not: a counter placeholder in the path is read like one in the
/// template. So the rule gives the path itself exactly where every counter
/// placeholder in the path is malformed, and above all where it holds no marker.
pub proof fn lemma_current_path(
    path: Seq<char>,
    index: u64,
    example: bool,
    metadata: FileMetadata,
)
    ensures
        custom_name(path, current_marker(), index, example, metadata) == expanded_counters(
            path,
            index,
        ),
        holds_no_counter(path) <==> custom_name(path, current_marker(), index, example, metadata)
            == path,
        first_occurrence(path, counter_marker()) is None ==> custom_name(
            path,
            current_marker(),
            index,
            example,
            metadata,
        ) == path,
{
    lemma_current_alone(resolved_values(path, example, metadata));
    if holds_no_counter(path) {
        lemma_malformed_counters_stay(path, index);
    } else {
        lemma_counter_changes_text(path, index);
    }
    if first_occurrence(path, counter_marker()) is None {
        lemma_first_occurrence_none(path, counter_marker());
    }
}

/// The name that a rule gives depends on nothing but the path, the template,
/// the position in the batch, the preview flag and the metadata handed in: two
/// expansions of the same give the same text.
pub proof fn lemma_custom_name_is_determined(
    first: Seq<char>,
    second: Seq<char>,
    path: Seq<char>,
    template: Seq<char>,
    index: u64,
    example: bool,
    metadata: FileMetadata,
)
    requires
        first == custom_name(path, template, index, example, metadata),
        second == custom_name(path, template, index, example, metadata),
    ensures
        first == second,
{
}

/// In a preview the metadata plays no part in the name.
pub proof fn lemma_preview_ignores_metadata(
    path: Seq<char>,
    template: Seq<char>,
    index: u64,
    one: FileMetadata,
    other: FileMetadata,
)
    ensures
        custom_name(path, template, index, true, one) == custom_name(
            path,
            template,
            index,
            true,
            other,
        ),
{
}

} // verus!
