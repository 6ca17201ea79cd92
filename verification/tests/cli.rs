use dirtree::arguments::ArgumentsError;
use dirtree::cli::Cli;
use dirtree::explorer::{Core, Item};
use dirtree::style::Style;

fn typed(path: &str) -> Cli {
    Cli {
        hidden: false,
        hide_dev: false,
        levels: 0,
        tab: 2,
        exclude: String::new(),
        include_pattern: String::new(),
        format: String::from("name"),
        path: path.to_string(),
    }
}

#[test]
fn plain_values_give_plain_settings() {
    let settings = typed("some/dir").arguments().unwrap();
    assert_eq!(settings.path, "some/dir");
    assert_eq!(settings.levels, 0);
    assert_eq!(settings.tab, 2);
    assert_eq!(settings.style, Style::NAME);
    assert!(!settings.hidden);
    assert!(!settings.development);
    assert!(settings.exclude.is_none());
    assert!(settings.include_pattern.is_none());
}

#[test]
fn each_value_goes_to_its_setting() {
    let settings = Cli {
        hidden: true,
        hide_dev: true,
        levels: 255,
        tab: 7,
        exclude: String::from("^a"),
        include_pattern: String::from("b$"),
        format: String::from("absolute"),
        path: String::from("."),
    }
    .arguments()
    .unwrap();
    assert_eq!(settings.path, ".");
    assert_eq!(settings.levels, 255);
    assert_eq!(settings.tab, 7);
    assert_eq!(settings.style, Style::ABSOLUTE);
    assert!(settings.hidden);
    assert!(settings.development);
    assert_eq!(settings.exclude.as_ref().unwrap().as_str(), "^a");
    assert_eq!(settings.include_pattern.as_ref().unwrap().as_str(), "b$");
    let core = Core::new(&settings);
    assert!(core.leaves_out("ab"));
    assert!(!core.leaves_out("ba"));
    let at = |absolute: &str| Item {
        path: String::new(),
        name: String::new(),
        absolute: absolute.to_string(),
        is_dir: false,
        level: 0,
    };
    assert!(core.shows(&at("/x/b")));
    assert!(!core.shows(&at("/x/ba")));
}

#[test]
fn the_relative_style_is_read_too() {
    let settings = Cli { format: String::from("relative"), ..typed(".") }.arguments().unwrap();
    assert_eq!(settings.style, Style::RELATIVE);
}

#[test]
fn an_unknown_style_is_refused() {
    let outcome = Cli { format: String::from("tree"), ..typed(".") }.arguments();
    assert!(matches!(outcome, Err(ArgumentsError::Style)));
    let outcome = Cli { format: String::new(), ..typed(".") }.arguments();
    assert!(matches!(outcome, Err(ArgumentsError::Style)));
}

#[test]
fn a_pattern_that_does_not_compile_is_refused() {
    let outcome = Cli { exclude: String::from("(") , ..typed(".") }.arguments();
    assert!(matches!(outcome, Err(ArgumentsError::Exclude(_))));
    let outcome = Cli { include_pattern: String::from("[") , ..typed(".") }.arguments();
    assert!(matches!(outcome, Err(ArgumentsError::Include(_))));
}

#[test]
fn the_first_fault_in_order_is_the_one_reported() {
    let outcome = Cli {
        format: String::from("x"),
        exclude: String::from("("),
        include_pattern: String::from("("),
        ..typed(".")
    }
    .arguments();
    assert!(matches!(outcome, Err(ArgumentsError::Style)));
    let outcome = Cli {
        exclude: String::from("("),
        include_pattern: String::from("("),
        ..typed(".")
    }
    .arguments();
    assert!(matches!(outcome, Err(ArgumentsError::Exclude(_))));
}
