//! Rename rules: what a rule does, which part of a file name it works on, and
//! the data that it carries.

use vstd::prelude::*;

verus! {

/// What a rule does to a file name.
#[derive(Clone, Copy, Debug, PartialEq, Eq, Structural)]
pub enum RuleType {
    /// The new name is written out from a template.
    Custom,
    /// Letters are turned to upper or lower case.
    CaseSize,
    /// A part of the name is removed.
    Purge,
    /// Text is put before or behind the name.
    AddText,
    /// Text is cut from the start or the end of the name.
    Trim,
    /// One text is replaced by another.
    Replace,
    /// A number is put before or behind the name.
    AddNumber,
    /// The name is brought to a plain form.
    Normalize,
}

/// The part of a file name that a rule works on.
#[derive(Clone, Copy, Debug, PartialEq, Eq, Structural)]
pub enum RulePlace {
    /// The rule works on no part: it gives the whole name.
    NoPlace,
    /// The extension only.
    Extension,
    /// The name without its extension.
    Name,
    /// Both the name and the extension.
    ExtensionAndName,
}

/// The data that a rule carries.
#[derive(Clone, Debug)]
pub struct RuleData {
    /// The template of a custom rule: text with placeholders.
    pub custom_text: String,
}

/// One rename rule.
#[derive(Clone, Debug)]
pub struct SingleRule {
    pub rule_type: RuleType,
    pub rule_place: RulePlace,
    pub rule_data: RuleData,
}

impl RuleData {
    /// Data with an empty template.
    pub fn new() -> (r: Self)
        ensures
            r.custom_text@ == Seq::<char>::empty(),
    {
        RuleData { custom_text: String::new() }
    }
}

impl SingleRule {
    /// Whether this is a custom rule as the expansion takes it: of the custom
    /// type, and working on no part of the name.
    pub open spec fn is_custom(&self) -> bool {
        self.rule_type == RuleType::Custom && self.rule_place == RulePlace::NoPlace
    }

    /// The template that a custom rule carries.
    pub open spec fn template(&self) -> Seq<char> {
        self.rule_data.custom_text@
    }

    /// A custom rule with an empty template.
    pub fn new() -> (r: Self)
        ensures
            r.is_custom(),
            r.template() == Seq::<char>::empty(),
    {
        SingleRule {
            rule_type: RuleType::Custom,
            rule_place: RulePlace::NoPlace,
            rule_data: RuleData::new(),
        }
    }

    /// The custom rule that carries the template `text`.
    pub fn custom(text: &str) -> (r: Self)
        ensures
            r.is_custom(),
            r.template() == text@,
    {
        SingleRule {
            rule_type: RuleType::Custom,
            rule_place: RulePlace::NoPlace,
            rule_data: RuleData { custom_text: text.to_owned() },
        }
    }

    /// Whether this is a custom rule as the expansion takes it.
    pub fn accepts_expansion(&self) -> (r: bool)
        ensures
            r == self.is_custom(),
    {
        self.rule_type == RuleType::Custom && self.rule_place == RulePlace::NoPlace
    }
}

} // verus!
