use log_file_analyser::{match_lines, Error, Line, LineItem};

#[test]
fn line_item_accessors() {
    let l = LineItem::new(3, "three".to_string());
    assert_eq!(l.line_number(), 3);
    assert_eq!(l.line_contents(), "three");
    assert_eq!(l.into_contents(), "three".to_string());
}

#[test]
fn line_item_equality() {
    let a: Line = LineItem::new(1, "x".to_string());
    let b: Line = LineItem::new(1, "x".to_string());
    let c: Line = LineItem::new(2, "x".to_string());
    assert_eq!(a, b);
    assert_ne!(a, c);
}

#[test]
fn line_renders_number_and_content() {
    assert_eq!(LineItem::new(5, "five".to_string()).to_string(), "5: five");
    assert_eq!(LineItem::new(1024, "big".to_string()).to_string(), "1024: big");
    assert_eq!(LineItem::new(0, String::new()).to_string(), "0: ");
}

#[test]
fn match_lines_reports_matches_in_file_order() {
    let patterns = vec!["line number 2".to_string(), "this is something else".to_string()];
    let lines = vec![
        "this is line number 1".to_string(),
        "this is line number 2".to_string(),
        "this is something else entirely".to_string(),
    ];
    let r = match_lines(&patterns, &lines);
    assert_eq!(r.matched_lines().len(), 2);
    assert_eq!(r.matched_lines()[0].line_number(), 2);
    assert_eq!(r.matched_lines()[1].line(), "this is something else entirely");
    assert_eq!(
        r.to_string(),
        "2: this is line number 2\n3: this is something else entirely\n"
    );
}

#[test]
fn match_lines_lists_a_line_once_per_pattern() {
    let patterns = vec!["ab".to_string(), "b".to_string(), "zz".to_string()];
    let lines = vec!["cab".to_string(), "q".to_string()];
    let r = match_lines(&patterns, &lines);
    assert_eq!(r.to_string(), "1: cab\n1: cab\n");
}

#[test]
fn match_lines_with_no_match_is_empty() {
    let r = match_lines(&vec!["nothing".to_string()], &vec!["a".to_string()]);
    assert!(r.matched_lines().is_empty());
    assert_eq!(r.to_string(), "");
}

#[test]
fn error_keeps_its_description() {
    let e = Error::new("file not found".to_string());
    assert_eq!(e.message(), "file not found");
}
