use dirtree::arguments::Arguments;
use dirtree::explorer::{Core, Item};
use dirtree::style::Style;
use regex::Regex;

fn item(path: &str, name: &str, absolute: &str, is_dir: bool, level: u32) -> Item {
    Item {
        path: path.to_string(),
        name: name.to_string(),
        absolute: absolute.to_string(),
        is_dir,
        level,
    }
}

fn settings(style: Style) -> Arguments {
    Arguments {
        levels: 0,
        path: String::from("."),
        style,
        hidden: false,
        development: false,
        tab: 0,
        exclude: None,
        include_pattern: None,
    }
}

#[test]
fn hidden_names_are_left_out_unless_asked_for() {
    let core = Core::new(&settings(Style::NAME));
    assert!(core.leaves_out(".git"));
    assert!(core.leaves_out(".secret"));
    assert!(core.leaves_out("."));
    assert!(core.leaves_out(".."));
    assert!(!core.leaves_out("a.txt"));
    assert!(!core.leaves_out("a."));
    assert!(!core.leaves_out(""));
    let core = Core::new(&Arguments { hidden: true, ..settings(Style::NAME) });
    assert!(!core.leaves_out(".git"));
    assert!(!core.leaves_out(".secret"));
}

#[test]
fn development_names_are_left_out_when_asked_for() {
    let core = Core::new(&Arguments { development: true, hidden: true, ..settings(Style::NAME) });
    for name in [".git", "target", "node_modules", "build", "bin"] {
        assert!(core.leaves_out(name), "{}", name);
    }
    for name in ["git", "targets", "Target", "node-modules", "builds", "bin.", "", "src", "."] {
        assert!(!core.leaves_out(name), "{}", name);
    }
    let core = Core::new(&Arguments { hidden: true, ..settings(Style::NAME) });
    for name in [".git", "target", "node_modules", "build", "bin"] {
        assert!(!core.leaves_out(name), "{}", name);
    }
}

#[test]
fn excluded_names_are_left_out() {
    let core = Core::new(&Arguments {
        exclude: Some(Regex::new("^tmp|\\.bak$").unwrap()),
        ..settings(Style::NAME)
    });
    assert!(core.leaves_out("tmp"));
    assert!(core.leaves_out("tmpfile"));
    assert!(core.leaves_out("old.bak"));
    assert!(!core.leaves_out("a_tmp"));
    assert!(!core.leaves_out("old.bak.txt"));
}

#[test]
fn the_depth_limit_cuts_off_from_its_level_on() {
    let core = Core::new(&settings(Style::NAME));
    assert!(!core.cuts_off(0));
    assert!(!core.cuts_off(u32::MAX));
    let core = Core::new(&Arguments { levels: 2, ..settings(Style::NAME) });
    assert!(!core.cuts_off(0));
    assert!(!core.cuts_off(1));
    assert!(core.cuts_off(2));
    assert!(core.cuts_off(3));
}

#[test]
fn without_a_pattern_everything_is_shown() {
    for style in [Style::NAME, Style::RELATIVE, Style::ABSOLUTE] {
        let core = Core::new(&settings(style));
        assert!(core.shows(&item("a/b", "b", "/r/a/b", false, 1)));
        assert!(core.shows(&item("a/b", "b", "/r/a/b", true, 1)));
    }
}

#[test]
fn each_style_asks_the_pattern_of_what_it_writes() {
    let only = |style: Style, pattern: &str| {
        Core::new(&Arguments {
            include_pattern: Some(Regex::new(pattern).unwrap()),
            ..settings(style)
        })
    };
    let core = only(Style::RELATIVE, "^src/");
    assert!(core.shows(&item("src/main.rs", "main.rs", "/r/src/main.rs", false, 1)));
    assert!(!core.shows(&item("doc/src.md", "src.md", "/r/doc/src.md", false, 1)));
    assert!(!core.shows(&item("doc", "doc", "/r/src/", true, 1)));
    let core = only(Style::ABSOLUTE, "^/r/src/");
    assert!(core.shows(&item("main.rs", "main.rs", "/r/src/main.rs", false, 1)));
    assert!(!core.shows(&item("/r/src/x", "x", "/q/x", false, 1)));
    assert!(!core.shows(&item("/r/src/x", "x", "/q/x", true, 1)));
    let core = only(Style::NAME, "\\.rs$");
    assert!(core.shows(&item("src/main.rs", "main.rs", "", false, 1)));
    assert!(!core.shows(&item("src/main.rs", "main.c", "", false, 1)));
    assert!(!core.shows(&item("src/main.rs", "notes", "/r/main.rs", false, 1)));
    assert!(core.shows(&item("src/main.rs", "notes", "", true, 1)));
}

#[test]
fn the_name_style_indents_by_level_and_tab() {
    let core = Core::new(&settings(Style::NAME));
    assert_eq!(core.print_item(&item("a/b", "b", "/r/a/b", false, 0)), "* b");
    assert_eq!(core.print_item(&item("a/b", "b", "/r/a/b", false, 1)), "  * b");
    assert_eq!(core.print_item(&item("a/b", "b", "/r/a/b", true, 3)), "      * b");
    let core = Core::new(&Arguments { tab: 4, ..settings(Style::NAME) });
    assert_eq!(core.print_item(&item("a/b", "b", "/r/a/b", false, 0)), "* b");
    assert_eq!(core.print_item(&item("a/b", "b", "/r/a/b", false, 2)), "        * b");
    let core = Core::new(&Arguments { tab: 1, ..settings(Style::NAME) });
    assert_eq!(
        core.print_item(&item("a/b", "name with spaces", "", false, 5)),
        "     * name with spaces"
    );
    assert_eq!(core.print_item(&item("", "", "", false, 0)), "* ");
}

#[test]
fn the_path_styles_write_the_path_as_it_is() {
    let core = Core::new(&Arguments { tab: 4, ..settings(Style::RELATIVE) });
    assert_eq!(core.print_item(&item("./a/b", "b", "/r/a/b", false, 7)), "./a/b");
    let core = Core::new(&Arguments { tab: 4, ..settings(Style::ABSOLUTE) });
    assert_eq!(core.print_item(&item("./a/b", "b", "/r/a/b", false, 7)), "/r/a/b");
}

#[test]
fn the_exploration_goes_below_directories_within_the_limit() {
    let core = Core::new(&settings(Style::NAME));
    assert!(core.goes_below(&item("a", "a", "", true, 0)));
    assert!(core.goes_below(&item("a", "a", "", true, u32::MAX)));
    assert!(!core.goes_below(&item("a", "a", "", false, 0)));
    let core = Core::new(&Arguments { levels: 2, ..settings(Style::NAME) });
    assert!(core.goes_below(&item("a", "a", "", true, 1)));
    assert!(!core.goes_below(&item("a", "a", "", true, 2)));
    assert!(!core.goes_below(&item("a", "a", "", true, 3)));
    assert!(!core.goes_below(&item("a", "a", "", false, 1)));
}

#[test]
fn the_explorer_keeps_a_copy_of_the_settings() {
    let given = Arguments {
        levels: 1,
        style: Style::RELATIVE,
        exclude: Some(Regex::new("x").unwrap()),
        include_pattern: Some(Regex::new("y").unwrap()),
        ..settings(Style::NAME)
    };
    let core = Core::new(&given);
    drop(given);
    assert_eq!(core.style(), Style::RELATIVE);
    assert!(core.cuts_off(1));
    assert!(core.leaves_out("axb"));
    assert!(!core.leaves_out("ayb"));
    assert!(core.shows(&item("ayb", "", "", false, 0)));
    assert!(!core.shows(&item("axb", "", "", false, 0)));
}
