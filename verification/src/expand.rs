//! Expansion of a custom rule's template into a file name.

use crate::counter::{expand_counters, expanded_counters};
use crate::metadata::{resolve_values, resolved_values, FileMetadata};
use crate::placeholders::{fill_placeholders, with_placeholders, PlaceholderTexts, PlaceholderValues};
use crate::rules::SingleRule;
use crate::text::{chars_of, string_of};
use vstd::prelude::*;

verus! {

/// `template` expanded with the given values for the file at position `index`
/// of its batch: first every fixed placeholder is replaced by its value, then
/// every counter in the text that this gives is replaced by its number.
pub open spec fn expanded(template: Seq<char>, values: PlaceholderTexts, index: u64) -> Seq<char> {
    expanded_counters(with_placeholders(template, values), index)
}

/// The name that a custom rule with the template `template` gives to the file
/// at `path`, which stands at position `index` of its batch.
pub open spec fn custom_name(
    path: Seq<char>,
    template: Seq<char>,
    index: u64,
    example: bool,
    metadata: FileMetadata,
) -> Seq<char> {
    expanded(template, resolved_values(path, example, metadata), index)
}

/// `template` expanded with the given values for the file at position `index`
/// of its batch.
pub fn expand_template(template: &str, values: &PlaceholderValues, index: u64) -> (r: String)
    ensures
        r@ == expanded(template@, values@, index),
{
    let chars = chars_of(template);
    let filled = fill_placeholders(chars.as_slice(), values);
    let done = expand_counters(filled.as_slice(), index);
    string_of(done.as_slice())
}

/// The name that the custom rule `rule` gives to the file at `data_to_change`,
/// which stands at position `rule_number` of its batch. With `example` set the
/// file's size and times are shown as fixed texts, and `metadata` is not used.
pub fn rule_custom(
    data_to_change: &str,
    rule: &SingleRule,
    rule_number: u64,
    example: bool,
    metadata: &FileMetadata,
) -> (r: String)
    requires
        rule.is_custom(),
    ensures
        r@ == custom_name(data_to_change@, rule.template(), rule_number, example, *metadata),
{
    let values = resolve_values(data_to_change, example, metadata);
    expand_template(rule.rule_data.custom_text.as_str(), &values, rule_number)
}

} // verus!
