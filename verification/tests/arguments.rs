use dirtree::arguments::{parse_arg, Arguments, ArgumentsError, USAGE};
use dirtree::style::Style;

fn words(list: &[&str]) -> Vec<String> {
    list.iter().map(|word| word.to_string()).collect()
}

#[test]
fn parse_arg_takes_the_tag_off() {
    assert_eq!(parse_arg(&"levels=3".to_string(), "levels=", "l="), "3");
    assert_eq!(parse_arg(&"l=3".to_string(), "levels=", "l="), "3");
    assert_eq!(parse_arg(&"style=name".to_string(), "style=", "s="), "name");
    assert_eq!(parse_arg(&"s=".to_string(), "style=", "s="), "");
    assert_eq!(parse_arg(&"exclude=a=b".to_string(), "exclude=", "e="), "a=b");
    assert_eq!(parse_arg(&"e=é".to_string(), "exclude=", "e="), "é");
}

#[test]
fn parse_arg_tries_the_abbreviation_first() {
    assert_eq!(parse_arg(&"ab=1".to_string(), "ab=", "a"), "b=1");
}

#[test]
fn parse_arg_cuts_an_argument_without_a_tag_by_the_length_of_the_long_tag() {
    assert_eq!(parse_arg(&"verbose".to_string(), "tab=", "t="), "ose");
    assert_eq!(parse_arg(&"tab".to_string(), "abc", "x"), "");
    assert_eq!(parse_arg(&"éa".to_string(), "ab", "x"), "a");
    assert_eq!(parse_arg(&"aébc!".to_string(), "été", "é"), "!");
    assert_eq!(parse_arg(&"ééé".to_string(), "ab", "é"), "éé");
}

#[test]
fn a_path_alone_gives_the_defaults() {
    let args = Arguments::new(&words(&["some/dir"])).unwrap();
    assert_eq!(args.path, "some/dir");
    assert_eq!(args.levels, 0);
    assert_eq!(args.style, Style::NAME);
    assert!(!args.hidden);
    assert!(!args.development);
    assert_eq!(args.tab, 0);
    assert!(args.exclude.is_none());
    assert!(args.include_pattern.is_none());
}

#[test]
fn every_option_is_read_by_its_long_tag() {
    let args = Arguments::new(&words(&[
        "root",
        "levels=3",
        "style=absolute",
        "hidden=true",
        "development=true",
        "tab=4",
        "exclude=^tmp",
        "include=\\.rs$",
    ]))
    .unwrap();
    assert_eq!(args.path, "root");
    assert_eq!(args.levels, 3);
    assert_eq!(args.style, Style::ABSOLUTE);
    assert!(args.hidden);
    assert!(args.development);
    assert_eq!(args.tab, 4);
    assert_eq!(args.exclude.as_ref().unwrap().as_str(), "^tmp");
    assert_eq!(args.include_pattern.as_ref().unwrap().as_str(), "\\.rs$");
}

#[test]
fn every_option_is_read_by_its_short_tag() {
    let args = Arguments::new(&words(&[
        "l=2", "s=relative", "h=true", "d=true", "t=8", "root", "e=x+", "i=y?",
    ]))
    .unwrap();
    assert_eq!(args.path, "root");
    assert_eq!(args.levels, 2);
    assert_eq!(args.style, Style::RELATIVE);
    assert!(args.hidden);
    assert!(args.development);
    assert_eq!(args.tab, 8);
    assert_eq!(args.exclude.as_ref().unwrap().as_str(), "x+");
    assert_eq!(args.include_pattern.as_ref().unwrap().as_str(), "y?");
}

#[test]
fn the_compiled_patterns_match_as_the_crate_does() {
    let args = Arguments::new(&words(&["root", "exclude=^tmp", "include=\\.rs$"])).unwrap();
    let exclude = args.exclude.unwrap();
    assert!(exclude.is_match("tmpfile"));
    assert!(!exclude.is_match("a_tmp"));
    let wanted = args.include_pattern.unwrap();
    assert!(wanted.is_match("main.rs"));
    assert!(!wanted.is_match("main.rs.bak"));
}

#[test]
fn a_later_word_overrides_an_earlier_one() {
    let args = Arguments::new(&words(&["root", "levels=1", "l=5", "hidden=true", "h=false"]))
        .unwrap();
    assert_eq!(args.levels, 5);
    assert!(!args.hidden);
}

#[test]
fn the_first_plain_word_is_the_root() {
    let args = Arguments::new(&words(&["tab=3", "first"])).unwrap();
    assert_eq!(args.path, "first");
    assert_eq!(args.tab, 3);
}

#[test]
fn a_pattern_before_the_root_is_taken_for_the_root() {
    let args = Arguments::new(&words(&["exclude=x", "root"]));
    assert!(matches!(args, Err(ArgumentsError::Usage)));
    let args = Arguments::new(&words(&["include=x"])).unwrap();
    assert_eq!(args.path, "include=x");
    assert!(args.include_pattern.is_none());
}

#[test]
fn no_word_at_all_calls_for_the_usage() {
    assert!(matches!(Arguments::new(&words(&[])), Err(ArgumentsError::Usage)));
}

#[test]
fn a_single_word_can_ask_for_help() {
    assert!(matches!(Arguments::new(&words(&["--help"])), Err(ArgumentsError::Help)));
    assert!(matches!(Arguments::new(&words(&["-help"])), Err(ArgumentsError::Help)));
    assert!(matches!(Arguments::new(&words(&["-h"])), Err(ArgumentsError::Help)));
}

#[test]
fn help_among_other_words_is_a_word_like_any_other() {
    let args = Arguments::new(&words(&["--help", "levels=1"])).unwrap();
    assert_eq!(args.path, "--help");
    assert!(matches!(
        Arguments::new(&words(&["root", "--help"])),
        Err(ArgumentsError::Usage)
    ));
}

#[test]
fn a_second_plain_word_calls_for_the_usage() {
    assert!(matches!(
        Arguments::new(&words(&["root", "other"])),
        Err(ArgumentsError::Usage)
    ));
}

#[test]
fn options_without_a_root_call_for_the_usage() {
    assert!(matches!(Arguments::new(&words(&["levels=1"])), Err(ArgumentsError::Usage)));
    assert!(matches!(Arguments::new(&words(&[""])), Err(ArgumentsError::Usage)));
    assert!(matches!(
        Arguments::new(&words(&["", "tab=1"])),
        Err(ArgumentsError::Usage)
    ));
}

#[test]
fn an_empty_word_leaves_the_root_open() {
    let args = Arguments::new(&words(&["", "root"])).unwrap();
    assert_eq!(args.path, "root");
}

#[test]
fn a_bad_value_is_refused_by_its_option() {
    assert!(matches!(
        Arguments::new(&words(&["root", "levels=x"])),
        Err(ArgumentsError::Levels)
    ));
    assert!(matches!(
        Arguments::new(&words(&["root", "l=-1"])),
        Err(ArgumentsError::Levels)
    ));
    assert!(matches!(
        Arguments::new(&words(&["root", "l=4294967296"])),
        Err(ArgumentsError::Levels)
    ));
    assert!(matches!(
        Arguments::new(&words(&["root", "style=tree"])),
        Err(ArgumentsError::Style)
    ));
    assert!(matches!(
        Arguments::new(&words(&["root", "hidden=yes"])),
        Err(ArgumentsError::Hidden)
    ));
    assert!(matches!(
        Arguments::new(&words(&["root", "development=1"])),
        Err(ArgumentsError::Development)
    ));
    assert!(matches!(Arguments::new(&words(&["root", "tab="])), Err(ArgumentsError::Tab)));
    assert!(matches!(
        Arguments::new(&words(&["root", "exclude=("])),
        Err(ArgumentsError::Exclude(_))
    ));
    assert!(matches!(
        Arguments::new(&words(&["root", "include=["])),
        Err(ArgumentsError::Include(_))
    ));
}

#[test]
fn the_first_bad_word_decides() {
    assert!(matches!(
        Arguments::new(&words(&["root", "tab=x", "levels=y"])),
        Err(ArgumentsError::Tab)
    ));
    assert!(matches!(
        Arguments::new(&words(&["root", "stray", "levels=y"])),
        Err(ArgumentsError::Usage)
    ));
    assert!(matches!(
        Arguments::new(&words(&["levels=y"])),
        Err(ArgumentsError::Levels)
    ));
}

#[test]
fn each_refusal_has_its_sentence() {
    assert_eq!(ArgumentsError::Levels.message(), "\"levels\" must be a valid number (u32).");
    assert_eq!(
        ArgumentsError::Style.message(),
        "\"style\" must be one of: \"name\" or \"relative\" or \"absolute\"."
    );
    assert_eq!(ArgumentsError::Hidden.message(), "\"hidden\" must be \"true\" or \"false\".");
    assert_eq!(
        ArgumentsError::Development.message(),
        "\"development\" must be \"true\" or \"false\"."
    );
    assert_eq!(
        ArgumentsError::Tab.message(),
        "\"tab\" must be a positive integer number (u32)."
    );
}

#[test]
fn the_usage_text_is_due_where_nothing_can_be_read() {
    assert_eq!(ArgumentsError::Help.message(), USAGE);
    assert_eq!(ArgumentsError::Usage.message(), USAGE);
    assert!(USAGE.starts_with("Usage:\n    rt <path> [...options]\n"));
    assert!(USAGE.ends_with("have to match the 'include' pattern\n"));
    for tag in [
        "levels=", "l=", "style=", "s=", "hidden=", "h=", "development=", "d=", "tab=", "t=",
        "exclude=", "e=", "include=", "i=",
    ] {
        assert!(USAGE.contains(tag), "{}", tag);
    }
}

#[test]
fn a_pattern_that_does_not_compile_is_reported_with_the_reason() {
    let reason = regex::Regex::new("(").unwrap_err().to_string();
    assert!(!reason.is_empty());
    let error = Arguments::new(&words(&["root", "exclude=("])).unwrap_err();
    assert_eq!(
        error.message(),
        format!("\"exclude\" must be a valid regular expression: {}", reason)
    );
    let error = Arguments::new(&words(&["root", "i=("])).unwrap_err();
    assert_eq!(
        error.message(),
        format!("\"include\" must be a valid regular expression: {}", reason)
    );
}
