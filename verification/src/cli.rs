//! The values of a command line on which every option is named apart, and
//! the settings that they stand for.

use crate::arguments::{Arguments, ArgumentsError, Settings};
use crate::pattern::{compile, regex_new};
use crate::style::{style_named, Style};
use regex::Regex;
use vstd::prelude::*;

verus! {

/// The values of a command line, as they were typed.
#[derive(Debug)]
pub struct Cli {
    /// Shows hidden files.
    pub hidden: bool,
    /// Hides the development directories.
    pub hide_dev: bool,
    /// Number of levels to explore; 0 explores them all.
    pub levels: u8,
    /// Number of spaces by which one level is indented.
    pub tab: u8,
    /// A pattern for the names to leave out; empty where there is none.
    pub exclude: String,
    /// A pattern for what is shown; empty where there is none.
    pub include_pattern: String,
    /// The word of the style in which entries are written.
    pub format: String,
    /// The path of the root.
    pub path: String,
}

/// A `Cli` as plain values.
pub ghost struct CliView {
    pub hidden: bool,
    pub hide_dev: bool,
    pub levels: u8,
    pub tab: u8,
    pub exclude: Seq<char>,
    pub include_pattern: Seq<char>,
    pub format: Seq<char>,
    pub path: Seq<char>,
}

impl View for Cli {
    type V = CliView;

    open spec fn view(&self) -> CliView {
        CliView {
            hidden: self.hidden,
            hide_dev: self.hide_dev,
            levels: self.levels,
            tab: self.tab,
            exclude: self.exclude@,
            include_pattern: self.include_pattern@,
            format: self.format@,
            path: self.path@,
        }
    }
}

/// The pattern that a typed text stands for: none where the text is empty,
/// else what the text compiles to.
pub open spec fn pattern_from(text: Seq<char>) -> Result<Option<Regex>, regex::Error> {
    if text.len() == 0 {
        Ok(None)
    } else {
        match regex_new(text) {
            Ok(re) => Ok(Some(re)),
            Err(error) => Err(error),
        }
    }
}

/// The settings that typed values stand for. The word of the style is
/// held to account first, then the exclude pattern, then the include
/// pattern.
pub open spec fn settings_from(cli: CliView) -> Result<Settings, ArgumentsError> {
    match style_named(cli.format) {
        None => Err(ArgumentsError::Style),
        Some(style) => match pattern_from(cli.exclude) {
            Err(error) => Err(ArgumentsError::Exclude(error)),
            Ok(exclude) => match pattern_from(cli.include_pattern) {
                Err(error) => Err(ArgumentsError::Include(error)),
                Ok(include_pattern) => Ok(
                    Settings {
                        levels: cli.levels as u32,
                        path: cli.path,
                        style,
                        hidden: cli.hidden,
                        development: cli.hide_dev,
                        tab: cli.tab as u32,
                        exclude,
                        include_pattern,
                    },
                ),
            },
        },
    }
}

/// Compiles a typed pattern, where one was typed.
fn pattern(text: &str) -> (outcome: Result<Option<Regex>, regex::Error>)
    ensures
        outcome == pattern_from(text@),
{
    if text.is_empty() {
        Ok(None)
    } else {
        match compile(text) {
            Ok(re) => Ok(Some(re)),
            Err(error) => Err(error),
        }
    }
}

impl Cli {
    /// The settings that these values stand for, or the first thing that
    /// is wrong with them.
    pub fn arguments(&self) -> (outcome: Result<Arguments, ArgumentsError>)
        ensures
            match settings_from(self@) {
                Ok(settings) => outcome is Ok && outcome->Ok_0@ == settings,
                Err(error) => outcome is Err && outcome->Err_0 == error,
            },
    {
        let style = match Style::parse(self.format.as_str()) {
            Ok(style) => style,
            Err(_) => {
                return Err(ArgumentsError::Style);
            },
        };
        let exclude = match pattern(self.exclude.as_str()) {
            Ok(exclude) => exclude,
            Err(error) => {
                return Err(ArgumentsError::Exclude(error));
            },
        };
        let include_pattern = match pattern(self.include_pattern.as_str()) {
            Ok(include_pattern) => include_pattern,
            Err(error) => {
                return Err(ArgumentsError::Include(error));
            },
        };
        Ok(
            Arguments {
                levels: self.levels as u32,
                path: self.path.clone(),
                style,
                hidden: self.hidden,
                development: self.hide_dev,
                tab: self.tab as u32,
                exclude,
                include_pattern,
            },
        )
    }
}

} // verus!
