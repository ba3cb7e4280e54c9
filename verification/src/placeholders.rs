//! The fixed placeholders of a template (`$(NAME)`, `$(EXT)`, `$(SIZE)`,
//! `$(CREAT)`, `$(MODIF)`, `$(CURR)`) and the values that stand for them.

use crate::text::{chars_of, replace, replaced};
use vstd::prelude::*;

verus! {

/// The placeholder for the file's name without its extension.
pub open spec fn name_marker() -> Seq<char> {
    "$(NAME)"@
}

/// The placeholder for the file's extension.
pub open spec fn extension_marker() -> Seq<char> {
    "$(EXT)"@
}

/// The placeholder for the file's size.
pub open spec fn size_marker() -> Seq<char> {
    "$(SIZE)"@
}

/// The placeholder for the time at which the file was created.
pub open spec fn creation_marker() -> Seq<char> {
    "$(CREAT)"@
}

/// The placeholder for the time at which the file was last modified.
pub open spec fn modification_marker() -> Seq<char> {
    "$(MODIF)"@
}

/// The placeholder for the path as it is now.
pub open spec fn current_marker() -> Seq<char> {
    "$(CURR)"@
}

/// The text that stands for each fixed placeholder.
#[derive(Clone, Debug)]
pub struct PlaceholderValues {
    pub name: String,
    pub extension: String,
    pub size: String,
    pub creation_date: String,
    pub modification_date: String,
    pub current: String,
}

/// The texts of `PlaceholderValues` as character sequences.
pub struct PlaceholderTexts {
    pub name: Seq<char>,
    pub extension: Seq<char>,
    pub size: Seq<char>,
    pub creation_date: Seq<char>,
    pub modification_date: Seq<char>,
    pub current: Seq<char>,
}

impl View for PlaceholderValues {
    type V = PlaceholderTexts;

    open spec fn view(&self) -> PlaceholderTexts {
        PlaceholderTexts {
            name: self.name@,
            extension: self.extension@,
            size: self.size@,
            creation_date: self.creation_date@,
            modification_date: self.modification_date@,
            current: self.current@,
        }
    }
}

/// `template` with every fixed placeholder replaced by its value. The
/// placeholders are taken one after the other, in this order: name, extension,
/// size, creation time, modification time, current path. Each is replaced
/// everywhere in the text as the one before left it.
pub open spec fn with_placeholders(template: Seq<char>, values: PlaceholderTexts) -> Seq<char> {
    let named = replaced(template, name_marker(), values.name);
    let extended = replaced(named, extension_marker(), values.extension);
    let sized = replaced(extended, size_marker(), values.size);
    let created = replaced(sized, creation_marker(), values.creation_date);
    let modified = replaced(created, modification_marker(), values.modification_date);
    replaced(modified, current_marker(), values.current)
}

/// `text` with every occurrence of `marker` replaced by `value`.
fn replace_marker(text: &[char], marker: &str, value: &str) -> (r: Vec<char>)
    ensures
        r@ == replaced(text@, marker@, value@),
{
    let pattern = chars_of(marker);
    let with = chars_of(value);
    replace(text, pattern.as_slice(), with.as_slice())
}

/// `template` with every fixed placeholder replaced by its value.
pub fn fill_placeholders(template: &[char], values: &PlaceholderValues) -> (r: Vec<char>)
    ensures
        r@ == with_placeholders(template@, values@),
{
    let named = replace_marker(template, "$(NAME)", values.name.as_str());
    let extended = replace_marker(named.as_slice(), "$(EXT)", values.extension.as_str());
    let sized = replace_marker(extended.as_slice(), "$(SIZE)", values.size.as_str());
    let created = replace_marker(sized.as_slice(), "$(CREAT)", values.creation_date.as_str());
    let modified = replace_marker(created.as_slice(), "$(MODIF)", values.modification_date.as_str());
    replace_marker(modified.as_slice(), "$(CURR)", values.current.as_str())
}

} // verus!
