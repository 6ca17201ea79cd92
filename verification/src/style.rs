//! The three ways in which an entry can be written.

use crate::text::same;
use std::str::FromStr;
use vstd::prelude::*;

verus! {

/// How a shown entry is written: by its name in an indented tree, by its
/// path as walked, or by its absolute path.
#[derive(Debug, PartialEq, Eq, Clone, Copy, Structural)]
pub enum Style {
    /// The name, indented by the level of the entry and marked with `* `.
    NAME,
    /// The path as it was walked from the root.
    RELATIVE,
    /// The absolute path, free of links and of steps back.
    ABSOLUTE,
}

/// The style that a word names, if it names one.
pub open spec fn style_named(word: Seq<char>) -> Option<Style> {
    if word == "name"@ {
        Some(Style::NAME)
    } else if word == "relative"@ {
        Some(Style::RELATIVE)
    } else if word == "absolute"@ {
        Some(Style::ABSOLUTE)
    } else {
        None
    }
}

/// Whether `outcome` is what reading `word` as a style gives: the style
/// that the word names, or else the message that lists the three words.
pub open spec fn reads_as(word: Seq<char>, outcome: Result<Style, String>) -> bool {
    match style_named(word) {
        Some(style) => outcome == Ok::<Style, String>(style),
        None => outcome is Err && outcome->Err_0@
            == "Expected one of the following values: name, relative or absolute"@,
    }
}

impl Style {
    /// Reads a style from its word: `name`, `relative` or `absolute`. Any
    /// other word is refused with a message that lists the three.
    pub fn parse(word: &str) -> (outcome: Result<Style, String>)
        ensures
            reads_as(word@, outcome),
    {
        if same(word, "name") {
            Ok(Style::NAME)
        } else if same(word, "relative") {
            Ok(Style::RELATIVE)
        } else if same(word, "absolute") {
            Ok(Style::ABSOLUTE)
        } else {
            Err("Expected one of the following values: name, relative or absolute".to_owned())
        }
    }
}

impl FromStr for Style {
    type Err = String;

    /// Reads a style from its word, as `Style::parse` does.
    fn from_str(s: &str) -> (outcome: Result<Self, Self::Err>)
        ensures
            reads_as(s@, outcome),
    {
        Style::parse(s)
    }
}

} // verus!
