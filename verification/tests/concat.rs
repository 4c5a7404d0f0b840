use classnames::fragments::compose;
use classnames::fragments::Fragment;
use classnames::normalize::normalize_classname;

const BASE_STYLE: &str = "btn";
const SIZE_LG: &str = "lg";
const THEME_PRIMARY: &str = "primary";

#[test]
fn test_const_classnames() {
    let button = compose(vec![
        Fragment::Literal(BASE_STYLE.to_string()),
        Fragment::Literal(SIZE_LG.to_string()),
    ]);
    assert_eq!(button, "btn lg");

    let full_style = compose(vec![
        Fragment::Literal(BASE_STYLE.to_string()),
        Fragment::Literal(SIZE_LG.to_string()),
        Fragment::Literal(THEME_PRIMARY.to_string()),
    ]);
    assert_eq!(full_style, "btn lg primary");
}

#[test]
fn test_const_multiline() {
    let complex_style = compose(vec![
        Fragment::Literal(
            "flex
         items-center"
                .to_string(),
        ),
        Fragment::Literal(
            "p-4
         m-2"
            .to_string(),
        ),
        Fragment::Literal("text-center".to_string()),
    ]);
    assert_eq!(complex_style, "flex items-center p-4 m-2 text-center");
}

#[test]
fn test_compile_time_evaluation() {
    const BASE: &str = "btn";
    const SIZE: &str = "lg";

    let style = compose(vec![
        Fragment::Literal(BASE.to_string()),
        Fragment::Literal(SIZE.to_string()),
    ]);

    assert_eq!(style, "btn lg");
}

#[test]
fn test_const_compilation() {
    let style = compose(vec![
        Fragment::Literal("static-class".to_string()),
        Fragment::Literal(BASE_STYLE.to_string()),
        Fragment::Literal(SIZE_LG.to_string()),
    ]);

    assert_eq!(style, "static-class btn lg");
}

#[test]
fn tests_test_readme_basic_usage() {
    let button_class = compose(vec![
        Fragment::Literal("btn".to_string()),
        Fragment::Literal("btn-primary".to_string()),
    ]);
    assert_eq!(button_class, "btn btn-primary");
}

#[test]
fn test_readme_messy_whitespace() {
    let complex_class = compose(vec![
        Fragment::Literal("header  ".to_string()),
        Fragment::Literal("  main  ".to_string()),
        Fragment::Literal("footer".to_string()),
    ]);
    assert_eq!(complex_class, "header main footer");
}

#[test]
fn test_readme_empty_strings() {
    let sparse_class = compose(vec![
        Fragment::Literal("".to_string()),
        Fragment::Literal("active".to_string()),
        Fragment::Literal("".to_string()),
        Fragment::Literal("highlight".to_string()),
    ]);
    assert_eq!(sparse_class, "active highlight");
}

#[test]
fn test_readme_messy_classes() {
    let messy_classes = compose(vec![
        Fragment::Literal("  header ".to_string()),
        Fragment::Literal(" main  ".to_string()),
        Fragment::Literal("footer  ".to_string()),
    ]);
    assert_eq!(messy_classes, "header main footer");
}

#[test]
fn tests_test_readme_complex_example() {
    const BASE_CLASSES: &str = "container mx-auto";
    const RESPONSIVE_CLASSES: &str = "md:w-1/2 lg:w-1/3";
    const STATE_CLASSES: &str = "hover:bg-blue-500 focus:outline-none";

    let component_classes = compose(vec![
        Fragment::Literal(BASE_CLASSES.to_string()),
        Fragment::Literal(RESPONSIVE_CLASSES.to_string()),
        Fragment::Literal(STATE_CLASSES.to_string()),
        Fragment::Literal("p-4 rounded-lg".to_string()),
    ]);

    assert_eq!(
        component_classes,
        "container mx-auto md:w-1/2 lg:w-1/3 hover:bg-blue-500 focus:outline-none p-4 rounded-lg"
    );
}

#[test]
fn test_readme_classnames_concat_example() {
    let classes = compose(vec![
        Fragment::Literal("btn".to_string()),
        Fragment::Literal("btn-large".to_string()),
        Fragment::Literal("btn-primary".to_string()),
    ]);
    assert_eq!(classes, "btn btn-large btn-primary");

    let messy_classes = compose(vec![
        Fragment::Literal("  header ".to_string()),
        Fragment::Literal(" main  ".to_string()),
        Fragment::Literal("footer  ".to_string()),
    ]);
    assert_eq!(messy_classes, "header main footer");
}

#[test]
fn test_readme_trim_format_example() {
    let normalized = normalize_classname("  hello    world  ");
    assert_eq!(normalized, "hello world");
}

#[test]
fn test_trim_format_with_various_whitespace() {
    let classes = normalize_classname("  btn   primary \n active \tdark");
    assert_eq!(classes, "btn primary active dark");
}

#[test]
fn tests_test_edge_cases() {
    // Only spaces
    let only_spaces = normalize_classname("   ");
    assert_eq!(only_spaces, "");

    // Empty string
    let empty = normalize_classname("");
    assert_eq!(empty, "");

    // Single word
    let single = normalize_classname("  word  ");
    assert_eq!(single, "word");

    // Mixed whitespace characters
    let mixed_ws = normalize_classname("\t\n  hello  \r\n  world  \t");
    assert_eq!(mixed_ws, "hello world");
}

#[test]
fn test_classnames_concat_edge_cases() {
    // Empty strings only
    let empty_strings = compose(vec![
        Fragment::Literal("".to_string()),
        Fragment::Literal("".to_string()),
        Fragment::Literal("".to_string()),
    ]);
    assert_eq!(empty_strings, "");

    // Mixed empty and non-empty
    let mixed = compose(vec![
        Fragment::Literal("".to_string()),
        Fragment::Literal("test".to_string()),
        Fragment::Literal("".to_string()),
        Fragment::Literal("class".to_string()),
        Fragment::Literal("".to_string()),
    ]);
    assert_eq!(mixed, "test class");

    // Single fragment
    let single = compose(vec![Fragment::Literal("single".to_string())]);
    assert_eq!(single, "single");
}
