//! The explorer: which entries it passes over, which it shows, and how a
//! shown entry is written.

use crate::arguments::{Arguments, Settings};
use crate::pattern::{duplicate, is_match, regex_is_match};
use crate::style::Style;
use crate::text::same;
use regex::Regex;
use vstd::prelude::*;

verus! {

/// Whether a name marks its entry as hidden: it starts with a dot.
pub open spec fn is_hidden(name: Seq<char>) -> bool {
    name.len() > 0 && name[0] == '.'
}

/// The names of the directories that development tools keep.
pub open spec fn development_names() -> Seq<Seq<char>> {
    seq![".git"@, "target"@, "node_modules"@, "build"@, "bin"@]
}

/// Whether a name is, letter for letter, one of the development names.
pub open spec fn is_development(name: Seq<char>) -> bool {
    development_names().contains(name)
}

/// Whether a pattern is set and found in `text`.
pub open spec fn found(pattern: Option<Regex>, text: Seq<char>) -> bool {
    pattern matches Some(re) && regex_is_match(re, text)
}

/// Whether an entry of this name is passed over, with all that lies below
/// it: because it is hidden, a development directory, or excluded.
pub open spec fn left_out(settings: Settings, name: Seq<char>) -> bool {
    ||| !settings.hidden && is_hidden(name)
    ||| settings.development && is_development(name)
    ||| found(settings.exclude, name)
}

/// Whether the depth limit forbids going below an entry at `level`.
pub open spec fn cut_off(settings: Settings, level: nat) -> bool {
    settings.levels != 0 && level >= settings.levels
}

/// An entry that the exploration has reached and not passed over.
#[derive(Debug, PartialEq, Eq)]
pub struct Item {
    /// Its path as walked from the root.
    pub path: String,
    /// The name it goes by.
    pub name: String,
    /// Its absolute path. Only the absolute style reads it.
    pub absolute: String,
    /// Whether it is a directory.
    pub is_dir: bool,
    /// How many directories lie between the root and it; the root has 0.
    pub level: u32,
}

/// An `Item` as plain values.
pub ghost struct ItemView {
    pub path: Seq<char>,
    pub name: Seq<char>,
    pub absolute: Seq<char>,
    pub is_dir: bool,
    pub level: nat,
}

impl View for Item {
    type V = ItemView;

    open spec fn view(&self) -> ItemView {
        ItemView {
            path: self.path@,
            name: self.name@,
            absolute: self.absolute@,
            is_dir: self.is_dir,
            level: self.level as nat,
        }
    }
}

/// Whether a reached entry gets a line. Without an include pattern every
/// one does. With one, the relative and the absolute style ask it of the
/// path they write; the name style shows every directory, and other
/// entries by their name.
pub open spec fn shown(settings: Settings, item: ItemView) -> bool {
    match settings.include_pattern {
        None => true,
        Some(re) => match settings.style {
            Style::RELATIVE => regex_is_match(re, item.path),
            Style::ABSOLUTE => regex_is_match(re, item.absolute),
            Style::NAME => item.is_dir || regex_is_match(re, item.name),
        },
    }
}

/// Whether the exploration goes on below a reached entry.
pub open spec fn descends(settings: Settings, item: ItemView) -> bool {
    item.is_dir && !cut_off(settings, item.level)
}

/// A run of `count` spaces.
pub open spec fn indentation(count: nat) -> Seq<char> {
    Seq::new(count, |i: int| ' ')
}

/// The number of spaces that one level is indented by.
pub open spec fn tab_width(settings: Settings) -> nat {
    if settings.tab == 0 {
        2
    } else {
        settings.tab as nat
    }
}

/// The line that stands for a reached entry.
pub open spec fn line_of(settings: Settings, item: ItemView) -> Seq<char> {
    match settings.style {
        Style::ABSOLUTE => item.absolute,
        Style::RELATIVE => item.path,
        Style::NAME => indentation(item.level * tab_width(settings)) + "* "@ + item.name,
    }
}

/// The explorer: the settings of one exploration, with the names of the
/// development directories.
#[derive(Debug)]
pub struct Core {
    options: Arguments,
    dev_excludes: Vec<String>,
}

impl View for Core {
    type V = Settings;

    closed spec fn view(&self) -> Settings {
        self.options@
    }
}

impl Core {
    #[verifier::type_invariant]
    spec fn names_are_set(&self) -> bool {
        &&& self.dev_excludes@.len() == development_names().len()
        &&& forall|i: int|
            0 <= i < self.dev_excludes@.len() ==> (#[trigger] self.dev_excludes@[i])@
                == development_names()[i]
    }

    /// An explorer with a copy of the given settings.
    pub fn new(options: &Arguments) -> (core: Core)
        ensures
            core@ == options@,
    {
        let mut dev_excludes: Vec<String> = Vec::new();
        dev_excludes.push(".git".to_owned());
        dev_excludes.push("target".to_owned());
        dev_excludes.push("node_modules".to_owned());
        dev_excludes.push("build".to_owned());
        dev_excludes.push("bin".to_owned());
        let exclude = match &options.exclude {
            Some(re) => Some(duplicate(re)),
            None => None,
        };
        let include_pattern = match &options.include_pattern {
            Some(re) => Some(duplicate(re)),
            None => None,
        };
        Core {
            options: Arguments {
                levels: options.levels,
                path: options.path.clone(),
                style: options.style,
                hidden: options.hidden,
                development: options.development,
                tab: options.tab,
                exclude,
                include_pattern,
            },
            dev_excludes,
        }
    }

    /// Whether `name` is one of the development names.
    fn is_development(&self, name: &str) -> (listed: bool)
        ensures
            listed == is_development(name@),
    {
        proof {
            use_type_invariant(self);
        }
        let mut i: usize = 0;
        while i < self.dev_excludes.len()
            invariant
                i <= self.dev_excludes@.len(),
                self.dev_excludes@.len() == development_names().len(),
                forall|k: int|
                    0 <= k < self.dev_excludes@.len() ==> (#[trigger] self.dev_excludes@[k])@
                        == development_names()[k],
                forall|k: int| 0 <= k < i ==> development_names()[k] != name@,
            decreases self.dev_excludes@.len() - i,
        {
            if same(self.dev_excludes[i].as_str(), name) {
                return true;
            }
            i = i + 1;
        }
        false
    }

    /// Whether an entry of this name is passed over.
    pub fn leaves_out(&self, name: &str) -> (out: bool)
        ensures
            out == left_out(self@, name@),
    {
        if !self.options.hidden && !name.is_empty() && name.get_char(0) == '.' {
            return true;
        }
        if self.options.development && self.is_development(name) {
            return true;
        }
        match &self.options.exclude {
            Some(re) => is_match(re, name),
            None => false,
        }
    }

    /// Whether the depth limit forbids going below an entry at `level`.
    pub fn cuts_off(&self, level: u32) -> (cut: bool)
        ensures
            cut == cut_off(self@, level as nat),
    {
        self.options.levels != 0 && level >= self.options.levels
    }

    /// The style in which entries are written.
    pub fn style(&self) -> (style: Style)
        ensures
            style == self@.style,
    {
        self.options.style
    }

    /// Whether the exploration goes on below an entry.
    pub fn goes_below(&self, item: &Item) -> (down: bool)
        ensures
            down == descends(self@, item@),
    {
        item.is_dir && !self.cuts_off(item.level)
    }

    /// Whether an entry gets a line.
    pub fn shows(&self, item: &Item) -> (show: bool)
        ensures
            show == shown(self@, item@),
    {
        match &self.options.include_pattern {
            None => true,
            Some(re) => match self.options.style {
                Style::RELATIVE => is_match(re, item.path.as_str()),
                Style::ABSOLUTE => is_match(re, item.absolute.as_str()),
                Style::NAME => item.is_dir || is_match(re, item.name.as_str()),
            },
        }
    }

    /// The line that stands for an entry.
    pub fn print_item(&self, item: &Item) -> (line: String)
        ensures
            line@ == line_of(self@, item@),
    {
        match self.options.style {
            Style::ABSOLUTE => item.absolute.clone(),
            Style::RELATIVE => item.path.clone(),
            Style::NAME => {
                let spaces: u64 = if self.options.tab > 0 {
                    self.options.tab as u64
                } else {
                    2
                };
                assert(item.level as u64 * spaces <= u64::MAX) by (nonlinear_arith)
                    requires
                        item.level <= u32::MAX,
                        spaces <= u32::MAX,
                ;
                let count: u64 = item.level as u64 * spaces;
                let mut line = String::new();
                let mut i: u64 = 0;
                while i < count
                    invariant
                        i <= count,
                        line@ == indentation(i as nat),
                    decreases count - i,
                {
                    proof {
                        reveal_strlit(" ");
                    }
                    line.append(" ");
                    i = i + 1;
                }
                line.append("* ");
                line.append(item.name.as_str());
                line
            },
        }
    }
}

} // verus!
