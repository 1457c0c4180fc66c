use pheres::diagnostics::{eof_report, lexical_reports, syntax_reports, Report};
use pheres::parser::parse;
use pheres::syntax::LexedStr;

fn report(message: &str, start: usize, end: usize) -> Report {
    Report { message: message.to_string(), start, end }
}

#[test]
fn lexical_reports_point_at_the_bytes_of_the_token() {
    let lexed = LexedStr::new("é $ \"x");
    assert_eq!(
        lexical_reports(&lexed),
        vec![report("unexpected token", 0, 2), report("unexpected token", 3, 4), report("unterminated string", 5, 7)]
    );
    let lexed = LexedStr::new("a /* b");
    assert_eq!(lexical_reports(&lexed), vec![report("unterminated block comment", 2, 6)]);
    assert!(lexical_reports(&LexedStr::new("a.")).is_empty());
}

#[test]
fn syntax_reports_point_at_the_bytes_of_the_token() {
    let lexed = LexedStr::new("é) foo.");
    let parsed = parse(&lexed);
    assert_eq!(syntax_reports(&lexed, &parsed), vec![report("unexpected token Error", 0, 2)]);
}

#[test]
fn syntax_report_at_the_end_of_the_text_is_empty() {
    let lexed = LexedStr::new("foo");
    let parsed = parse(&lexed);
    assert_eq!(
        syntax_reports(&lexed, &parsed),
        vec![report("expected '.' after rule or belief", 3, 3)]
    );
    assert_eq!(eof_report(&lexed, &parsed), None);
}

#[test]
fn eof_report_points_at_the_last_byte() {
    let lexed = LexedStr::new("!go");
    let parsed = parse(&lexed);
    assert!(parsed.unexpected_eof);
    assert_eq!(eof_report(&lexed, &parsed), Some(report("unexpected end of file", 2, 2)));
}

#[test]
fn eof_report_is_absent_for_a_complete_text() {
    let lexed = LexedStr::new("");
    let parsed = parse(&lexed);
    assert!(!parsed.unexpected_eof);
    assert_eq!(eof_report(&lexed, &parsed), None);
    let lexed = LexedStr::new("!go.");
    let parsed = parse(&lexed);
    assert_eq!(eof_report(&lexed, &parsed), None);
}
