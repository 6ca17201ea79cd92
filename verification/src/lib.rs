//! A directory-tree explorer. It visits what lies below a root path and
//! writes one line for each entry that it shows: the name in an indented
//! tree, the path as walked, or the absolute path. Hidden entries, the
//! directories of development tools and entries that match a pattern can be
//! left out, with all that lies below them; a depth limit and a pattern for
//! what to show can be set.
//!
//! The library never touches the file system and writes nothing out. The
//! exploration is a machine ([`walk`]): it says what it needs to know or
//! wants written, and whoever drives it hands back what the file system
//! answered.
//!
//! - [`arguments`] and [`cli`]: the settings of one exploration, and the two
//!   ways in which they are read from a command line;
//! - [`style`]: the three ways in which an entry is written;
//! - [`explorer`]: what is decided of a single entry;
//! - [`walk`]: the machine;
//! - [`tree`]: what an exploration shows of a whole file tree, and what
//!   holds of it for all trees and settings;
//! - [`run`]: that the machine, driven truthfully, writes just that;
//! - [`pattern`]: regular expressions, taken on trust from the `regex` crate;
//! - [`text`]: helpers on the characters of strings.

pub mod arguments;
pub mod cli;
pub mod explorer;
pub mod pattern;
pub mod run;
pub mod style;
pub mod text;
pub mod tree;
pub mod walk;
