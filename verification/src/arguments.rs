//! The settings of one exploration, and how they are read from the words of
//! a command line.

use crate::pattern::{compile, error_text, regex_error_text, regex_new};
use crate::style::{style_named, Style};
use crate::text::{
    decimal_u32, lemma_boundary_between, lemma_rest_after, parse_bool, parse_u32, same,
    starts_with, truth_value,
};
use regex::Regex;
use vstd::prelude::*;
use vstd::utf8::{decode_utf8, encode_utf8, encode_utf8_decode_utf8, is_char_boundary};

verus! {

/// How the words of a command line are read.
pub const USAGE: &'static str = "\
Usage:
    rt <path> [...options]

Params:
    path                          the path to explore
    levels=NUMBER,l=NUMBER        the number of levels to explore
    style=TEXT,s=TEXT             the node style. Available style are:
                                  name     -- show just the name of the item in a tree view
                                  relative -- show the relative path of the item
                                  absolute -- show the absolute path of the item
    hidden=BOOLEAN,h=BOOLEAN      if true we will show hidden item (default: false)
    development=BOOLEAN,d=BOOLEAN if true standard development folders and files are discarded
                                  (.git, target, node_modules, build, bin)
    tab=NUMBER,t=NUMBER           the number of spaces used to indent the tree (default is 2)
    exclude=REGEX,e=REGEX         the items to show doesn't have to match the 'exclude' pattern
    include=REGEX,i=REGEX         the items to show (or one of their descendant if the style is
                                  name) have to match the 'include' pattern
";

/// Whether `arg` carries one of the two tags of an option.
pub open spec fn tagged(arg: Seq<char>, long: Seq<char>, short: Seq<char>) -> bool {
    long.is_prefix_of(arg) || short.is_prefix_of(arg)
}

/// What follows the tag in `arg`. The short tag is looked for first.
pub open spec fn payload(arg: Seq<char>, long: Seq<char>, short: Seq<char>) -> Seq<char> {
    if short.is_prefix_of(arg) {
        arg.skip(short.len() as int)
    } else {
        arg.skip(long.len() as int)
    }
}

/// The number of bytes after which `arg` is cut to take its tag off: as
/// many as the short tag has where `arg` starts with it, else as many as
/// the long tag has.
pub open spec fn cut(arg: Seq<char>, long: Seq<char>, short: Seq<char>) -> int {
    if short.is_prefix_of(arg) {
        encode_utf8(short).len() as int
    } else {
        encode_utf8(long).len() as int
    }
}

/// An argument that carries one of the two tags is cut where a character
/// begins, and what is left of it is what follows the tag.
pub proof fn lemma_tagged_is_cut_after_the_tag(arg: Seq<char>, long: Seq<char>, short: Seq<char>)
    requires
        tagged(arg, long, short),
    ensures
        is_char_boundary(encode_utf8(arg), cut(arg, long, short)),
        decode_utf8(encode_utf8(arg).skip(cut(arg, long, short))) == payload(arg, long, short),
{
    let tag = if short.is_prefix_of(arg) {
        short
    } else {
        long
    };
    let rest = arg.skip(tag.len() as int);
    assert(arg == tag + rest);
    lemma_boundary_between(tag, rest);
    lemma_rest_after(tag, rest);
}

/// Takes the tag off an option and returns its value: `arg` without its
/// first bytes, as many as the abbreviation has where `arg` starts with
/// it, else as many as the long tag has. A character of `arg` must begin
/// where it is cut; that is so wherever `arg` carries one of the two tags.
pub fn parse_arg(arg: &String, arg_prefix: &'static str, abbreviation: &'static str) -> (value:
    String)
    requires
        is_char_boundary(encode_utf8(arg@), cut(arg@, arg_prefix@, abbreviation@)),
    ensures
        value@ == decode_utf8(encode_utf8(arg@).skip(cut(arg@, arg_prefix@, abbreviation@))),
{
    let text = arg.as_str();
    let tag = if starts_with(text, abbreviation) {
        abbreviation
    } else {
        arg_prefix
    };
    let (_, rest) = text.split_at(tag.as_bytes().len());
    proof {
        encode_utf8_decode_utf8(rest@);
    }
    rest.to_owned()
}

/// The value of an option that carries one of its two tags.
fn value_of(arg: &String, long: &'static str, short: &'static str) -> (value: String)
    requires
        tagged(arg@, long@, short@),
    ensures
        value@ == payload(arg@, long@, short@),
{
    proof {
        lemma_tagged_is_cut_after_the_tag(arg@, long@, short@);
    }
    parse_arg(arg, long, short)
}

/// The settings of one exploration.
#[derive(Debug, Clone)]
pub struct Arguments {
    /// How many levels below the root are explored; 0 sets no limit.
    pub levels: u32,
    /// The root of the exploration.
    pub path: String,
    /// How shown entries are written.
    pub style: Style,
    /// Whether entries whose name starts with a dot are shown.
    pub hidden: bool,
    /// Whether the usual development directories are left out.
    pub development: bool,
    /// The width of one level of indentation; 0 stands for the default.
    pub tab: u32,
    /// Entries whose name matches are left out, with all below them.
    pub exclude: Option<Regex>,
    /// Only entries that match are shown.
    pub include_pattern: Option<Regex>,
}

/// The settings as plain values.
#[verifier::ext_equal]
pub ghost struct Settings {
    pub levels: u32,
    pub path: Seq<char>,
    pub style: Style,
    pub hidden: bool,
    pub development: bool,
    pub tab: u32,
    pub exclude: Option<Regex>,
    pub include_pattern: Option<Regex>,
}

impl View for Arguments {
    type V = Settings;

    open spec fn view(&self) -> Settings {
        Settings {
            levels: self.levels,
            path: self.path@,
            style: self.style,
            hidden: self.hidden,
            development: self.development,
            tab: self.tab,
            exclude: self.exclude,
            include_pattern: self.include_pattern,
        }
    }
}

/// Why a command line gave no settings.
#[derive(Debug)]
pub enum ArgumentsError {
    /// Help was asked for: the usage text is due, and nothing has failed.
    Help,
    /// The words cannot be understood, or name no root: the usage text is due.
    Usage,
    /// The value of `levels` is no number of 32 bits.
    Levels,
    /// The value of `style` names no style.
    Style,
    /// The value of `hidden` is neither `true` nor `false`.
    Hidden,
    /// The value of `development` is neither `true` nor `false`.
    Development,
    /// The value of `tab` is no number of 32 bits.
    Tab,
    /// The value of `exclude` does not compile.
    Exclude(regex::Error),
    /// The value of `include` does not compile.
    Include(regex::Error),
}

/// The settings before any word is read.
pub open spec fn initial_settings() -> Settings {
    Settings {
        levels: 0,
        path: Seq::empty(),
        style: Style::NAME,
        hidden: false,
        development: false,
        tab: 0,
        exclude: None,
        include_pattern: None,
    }
}

/// The effect of one word on the settings read so far. Options are told by
/// their tags, in this order: levels, style, hidden, development, tab. A
/// word that is none of these is the root while no root is set; after that
/// it must be an exclude or an include pattern.
pub open spec fn accept(so_far: Settings, arg: Seq<char>) -> Result<Settings, ArgumentsError> {
    if tagged(arg, "levels="@, "l="@) {
        match decimal_u32(payload(arg, "levels="@, "l="@)) {
            Some(levels) => Ok(Settings { levels, ..so_far }),
            None => Err(ArgumentsError::Levels),
        }
    } else if tagged(arg, "style="@, "s="@) {
        match style_named(payload(arg, "style="@, "s="@)) {
            Some(style) => Ok(Settings { style, ..so_far }),
            None => Err(ArgumentsError::Style),
        }
    } else if tagged(arg, "hidden="@, "h="@) {
        match truth_value(payload(arg, "hidden="@, "h="@)) {
            Some(hidden) => Ok(Settings { hidden, ..so_far }),
            None => Err(ArgumentsError::Hidden),
        }
    } else if tagged(arg, "development="@, "d="@) {
        match truth_value(payload(arg, "development="@, "d="@)) {
            Some(development) => Ok(Settings { development, ..so_far }),
            None => Err(ArgumentsError::Development),
        }
    } else if tagged(arg, "tab="@, "t="@) {
        match decimal_u32(payload(arg, "tab="@, "t="@)) {
            Some(tab) => Ok(Settings { tab, ..so_far }),
            None => Err(ArgumentsError::Tab),
        }
    } else if so_far.path.len() == 0 {
        Ok(Settings { path: arg, ..so_far })
    } else if tagged(arg, "exclude="@, "e="@) {
        match regex_new(payload(arg, "exclude="@, "e="@)) {
            Ok(re) => Ok(Settings { exclude: Some(re), ..so_far }),
            Err(error) => Err(ArgumentsError::Exclude(error)),
        }
    } else if tagged(arg, "include="@, "i="@) {
        match regex_new(payload(arg, "include="@, "i="@)) {
            Ok(re) => Ok(Settings { include_pattern: Some(re), ..so_far }),
            Err(error) => Err(ArgumentsError::Include(error)),
        }
    } else {
        Err(ArgumentsError::Usage)
    }
}

/// The effect of the words from left to right; the first refusal ends it.
pub open spec fn accept_all(so_far: Settings, args: Seq<Seq<char>>) -> Result<
    Settings,
    ArgumentsError,
>
    decreases args.len(),
{
    if args.len() == 0 {
        Ok(so_far)
    } else {
        match accept(so_far, args[0]) {
            Ok(next) => accept_all(next, args.drop_first()),
            Err(error) => Err(error),
        }
    }
}

/// Whether `arg` is one of the spellings by which help is asked for.
pub open spec fn asks_for_help(arg: Seq<char>) -> bool {
    arg == "--help"@ || arg == "-help"@ || arg == "-h"@
}

/// What a whole command line means. No word at all is a usage error; a
/// single word that asks for help gets it; otherwise the words are read in
/// turn, and a root must have been named at the end.
pub open spec fn settings_of(args: Seq<Seq<char>>) -> Result<Settings, ArgumentsError> {
    if args.len() == 0 {
        Err(ArgumentsError::Usage)
    } else if args.len() == 1 && asks_for_help(args[0]) {
        Err(ArgumentsError::Help)
    } else {
        match accept_all(initial_settings(), args) {
            Ok(settings) => if settings.path.len() == 0 {
                Err(ArgumentsError::Usage)
            } else {
                Ok(settings)
            },
            Err(error) => Err(error),
        }
    }
}

/// The words of a command line as plain values.
pub open spec fn words(args: Seq<String>) -> Seq<Seq<char>> {
    Seq::new(args.len(), |i: int| args[i]@)
}

impl Arguments {
    /// Reads the settings from the words of a command line (without the
    /// program's own name).
    pub fn new(args: &Vec<String>) -> (outcome: Result<Arguments, ArgumentsError>)
        ensures
            match settings_of(words(args@)) {
                Ok(settings) => outcome is Ok && outcome->Ok_0@ == settings,
                Err(error) => outcome is Err && outcome->Err_0 == error,
            },
    {
        if args.len() < 1 {
            return Err(ArgumentsError::Usage);
        }
        if args.len() == 1 && (same(args[0].as_str(), "--help") || same(args[0].as_str(), "-help")
            || same(args[0].as_str(), "-h")) {
            return Err(ArgumentsError::Help);
        }
        let mut settings = Arguments {
            levels: 0,
            path: String::new(),
            style: Style::NAME,
            hidden: false,
            development: false,
            tab: 0,
            exclude: None,
            include_pattern: None,
        };
        let ghost all = words(args@);
        let mut i: usize = 0;
        proof {
            assert(all.skip(0) == all);
        }
        while i < args.len()
            invariant
                i <= args.len(),
                all == words(args@),
                all.len() > 0,
                !(all.len() == 1 && asks_for_help(all[0])),
                accept_all(initial_settings(), all) == accept_all(settings@, all.skip(i as int)),
            decreases args.len() - i,
        {
            let arg = &args[i];
            proof {
                assert(all.skip(i as int).drop_first() == all.skip(i + 1));
            }
            let word = arg.as_str();
            if starts_with(word, "levels=") || starts_with(word, "l=") {
                match parse_u32(value_of(arg, "levels=", "l=").as_str()) {
                    Some(levels) => {
                        settings.levels = levels;
                    },
                    None => {
                        return Err(ArgumentsError::Levels);
                    },
                }
            } else if starts_with(word, "style=") || starts_with(word, "s=") {
                match Style::parse(value_of(arg, "style=", "s=").as_str()) {
                    Ok(style) => {
                        settings.style = style;
                    },
                    Err(_) => {
                        return Err(ArgumentsError::Style);
                    },
                }
            } else if starts_with(word, "hidden=") || starts_with(word, "h=") {
                match parse_bool(value_of(arg, "hidden=", "h=").as_str()) {
                    Some(hidden) => {
                        settings.hidden = hidden;
                    },
                    None => {
                        return Err(ArgumentsError::Hidden);
                    },
                }
            } else if starts_with(word, "development=") || starts_with(word, "d=") {
                match parse_bool(value_of(arg, "development=", "d=").as_str()) {
                    Some(development) => {
                        settings.development = development;
                    },
                    None => {
                        return Err(ArgumentsError::Development);
                    },
                }
            } else if starts_with(word, "tab=") || starts_with(word, "t=") {
                match parse_u32(value_of(arg, "tab=", "t=").as_str()) {
                    Some(tab) => {
                        settings.tab = tab;
                    },
                    None => {
                        return Err(ArgumentsError::Tab);
                    },
                }
            } else if settings.path.as_str().is_empty() {
                settings.path = arg.clone();
            } else if starts_with(word, "exclude=") || starts_with(word, "e=") {
                match compile(value_of(arg, "exclude=", "e=").as_str()) {
                    Ok(re) => {
                        settings.exclude = Some(re);
                    },
                    Err(error) => {
                        return Err(ArgumentsError::Exclude(error));
                    },
                }
            } else if starts_with(word, "include=") || starts_with(word, "i=") {
                match compile(value_of(arg, "include=", "i=").as_str()) {
                    Ok(re) => {
                        settings.include_pattern = Some(re);
                    },
                    Err(error) => {
                        return Err(ArgumentsError::Include(error));
                    },
                }
            } else {
                return Err(ArgumentsError::Usage);
            }
            i = i + 1;
        }
        if settings.path.as_str().is_empty() {
            return Err(ArgumentsError::Usage);
        }
        Ok(settings)
    }
}

impl ArgumentsError {
    /// What the user is told: the usage text where that is due, else the
    /// sentence that says what was wrong with a value.
    pub open spec fn sentence(self) -> Seq<char> {
        match self {
            ArgumentsError::Help => USAGE@,
            ArgumentsError::Usage => USAGE@,
            ArgumentsError::Levels => "\"levels\" must be a valid number (u32)."@,
            ArgumentsError::Style =>
                "\"style\" must be one of: \"name\" or \"relative\" or \"absolute\"."@,
            ArgumentsError::Hidden => "\"hidden\" must be \"true\" or \"false\"."@,
            ArgumentsError::Development => "\"development\" must be \"true\" or \"false\"."@,
            ArgumentsError::Tab => "\"tab\" must be a positive integer number (u32)."@,
            ArgumentsError::Exclude(error) => "\"exclude\" must be a valid regular expression: "@
                + regex_error_text(error),
            ArgumentsError::Include(error) => "\"include\" must be a valid regular expression: "@
                + regex_error_text(error),
        }
    }

    /// The message for the user.
    pub fn message(&self) -> (text: String)
        ensures
            text@ == self.sentence(),
    {
        match self {
            ArgumentsError::Help => USAGE.to_owned(),
            ArgumentsError::Usage => USAGE.to_owned(),
            ArgumentsError::Levels => "\"levels\" must be a valid number (u32).".to_owned(),
            ArgumentsError::Style =>
                "\"style\" must be one of: \"name\" or \"relative\" or \"absolute\".".to_owned(),
            ArgumentsError::Hidden => "\"hidden\" must be \"true\" or \"false\".".to_owned(),
            ArgumentsError::Development =>
                "\"development\" must be \"true\" or \"false\".".to_owned(),
            ArgumentsError::Tab => "\"tab\" must be a positive integer number (u32).".to_owned(),
            ArgumentsError::Exclude(error) => {
                let mut text = "\"exclude\" must be a valid regular expression: ".to_owned();
                text.append(error_text(error).as_str());
                text
            },
            ArgumentsError::Include(error) => {
                let mut text = "\"include\" must be a valid regular expression: ".to_owned();
                text.append(error_text(error).as_str());
                text
            },
        }
    }
}

} // verus!
