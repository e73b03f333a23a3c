use mizzle::driver::{run, Output};
use mizzle::error_fmt::{points_at, reports_parse_err, reports_type_issue};
use mizzle::source::split_lines;
use mizzle::ast::{Span, Type};
use mizzle::syntax::{Expected, ParseError, Token, UserError};
use mizzle::type_check::{TypeError, TypeIssue, TypeWarning};

fn std_lines(text: &str) -> Vec<String> {
    text.split('\n').map(|s| s.into()).collect::<Vec<String>>()
}

#[test]
fn split_lines_is_split_at_line_feeds() {
    for text in [
        "",
        "\n",
        "abc",
        "abc\n",
        "\nabc",
        "abc\ndf",
        "a\n\nb\n\n",
        "if true then\n\t1\nelse\n\t0\nend",
        "é\nüß\n\u{1F600}x\n",
        "carriage\r\nreturn stays\r",
    ] {
        assert_eq!(split_lines(text), std_lines(text));
    }
}

#[test]
fn split_lines_has_one_line_at_least() {
    assert_eq!(split_lines(""), vec![String::new()]);
    assert_eq!(split_lines("\n\n"), vec![String::new(), String::new(), String::new()]);
}

#[test]
fn stretch_on_one_line_can_be_pointed_at() {
    let source = std_lines("abc\ndf");
    assert!(points_at(&source, 0, None));
    assert!(points_at(&source, 0, Some(3)));
    assert!(points_at(&source, 1, Some(1)));
    assert!(points_at(&source, 4, Some(6)));
    // from the end of the first line to the start of the second
    assert!(!points_at(&source, 3, Some(4)));
    assert!(!points_at(&source, 2, Some(5)));
    // the other way round the end is further right, though on another line
    assert!(points_at(&source, 4, Some(2)));
}

#[test]
fn nothing_can_be_pointed_at_without_a_line() {
    assert!(!points_at(&vec![], 0, None));
    assert!(!points_at(&vec![], 0, Some(0)));
    assert!(!reports_parse_err(ParseError::InvalidToken { location: 0 }, &vec![]));
    // an error without a place needs no line
    assert!(reports_parse_err(ParseError::User { error: UserError::NumberTooBig }, &vec![]));
}

#[test]
fn type_issues_that_can_be_reported() {
    let source = std_lines("if 1 then\n1 else 0 end");
    let cond = |end| TypeIssue::Error(TypeError::IfCondMustBeBool { end, got: Type::Int(()) });
    assert!(reports_type_issue(cond(4), &source));
    // a condition cannot end before the text starts
    assert!(!reports_type_issue(cond(0), &source));
    let branches = TypeIssue::Error(TypeError::IfBranchesMustBeSame {
        start: 7,
        first: Type::Int(()),
        second: Type::Bool(()),
    });
    assert!(reports_type_issue(branches, &source));
    let anno = |span| {
        TypeIssue::Error(TypeError::AnnotationIncorrect {
            span,
            got: Type::Int(()),
            annotation: Type::Bool(()),
        })
    };
    assert!(reports_type_issue(anno(Span(5, 9)), &source));
    assert!(!reports_type_issue(anno(Span(5, 11)), &source));
    let warn = |span| TypeIssue::Warning(TypeWarning::CondAlways { span, value: true });
    assert!(reports_type_issue(warn(Span(3, 4)), &source));
    assert!(!reports_type_issue(warn(Span(8, 10)), &source));
}

#[test]
fn parse_errors_that_can_be_reported() {
    let source = std_lines("1 $\n2");
    assert!(reports_parse_err(ParseError::InvalidToken { location: 2 }, &source));
    let eof = ParseError::UnrecognizedEOF { location: 5, expected: Expected::Colon };
    assert!(reports_parse_err(eof, &source));
    let token = |token| ParseError::UnrecognizedToken { token, expected: Expected::Colon };
    assert!(reports_parse_err(token((4, Token::Number(2), 5)), &source));
    assert!(!reports_parse_err(token((2, Token::Number(2), 4)), &source));
}

#[test]
fn run_prints_the_value_of_a_program() {
    colored::control::set_override(false);
    match run("if (1: int): bool then 1 else 0 end") {
        Output::NoParse(report) => assert!(report.starts_with("Parse error: ")),
        _ => panic!("parentheses are no words of the language"),
    }
    match run("1: int") {
        Output::Ran(reports, value) => {
            assert!(reports.is_empty());
            assert_eq!(value, Ok(String::from("1")));
        }
        other => panic!("{:?}", other),
    }
    match run("if false then true else false end") {
        Output::Ran(reports, value) => {
            assert_eq!(reports.len(), 1);
            assert_eq!(value, Ok(String::from("false")));
        }
        other => panic!("{:?}", other),
    }
}

#[test]
fn run_end_to_end_constant_condition() {
    colored::control::set_override(false);
    match run("if true then 1 else 0 end") {
        Output::Ran(reports, value) => {
            assert_eq!(
                reports,
                vec![
                    "Warning: condition of `if` is always `true`.\n0 |if true then 1 else 0 end\n      ^^^^here"
                ]
            );
            assert_eq!(value, Ok(String::from("1")));
        }
        other => panic!("{:?}", other),
    }
}

#[test]
fn run_end_to_end_wrong_annotation() {
    colored::control::set_override(false);
    match run("1: bool") {
        Output::IllTyped(reports) => assert_eq!(
            reports,
            vec!["Type error: type is `int`, but annotation is `bool`.\n0 |1: bool\n      ^^^^here"]
        ),
        other => panic!("{:?}", other),
    }
}

#[test]
fn run_reports_every_issue_in_reading_order() {
    colored::control::set_override(false);
    let text = "if 1 then\n\tif true then 1: bool else 2 end\nelse\n\ttrue: int\nend";
    match run(text) {
        Output::IllTyped(reports) => assert_eq!(
            reports,
            vec![
                "Type error: the condition of `if` should be `bool`, but is `int`.\n0 |if 1 then\n      ^here",
                "Type error: branches of `if` have to return the same type, `bool` is not equal to `int`.\n1 |\tif true then 1: bool else 2 end\n    ^here",
                "Warning: condition of `if` is always `true`.\n1 |\tif true then 1: bool else 2 end\n       ^^^^here",
                "Type error: type is `int`, but annotation is `bool`.\n1 |\tif true then 1: bool else 2 end\n                    ^^^^here",
                "Type error: type is `bool`, but annotation is `int`.\n3 |\ttrue: int\n          ^^^here",
            ]
        ),
        other => panic!("{:?}", other),
    }
}

#[test]
fn run_reports_a_text_that_is_no_program() {
    colored::control::set_override(false);
    match run("if true then 1\nelse") {
        Output::NoParse(report) => assert_eq!(
            report,
            "Parse error: file ended, but expected one of `number`, `true`, `false`, `if`.\n1 |else\n       ^here"
        ),
        other => panic!("{:?}", other),
    }
    match run("") {
        Output::NoParse(report) => assert_eq!(
            report,
            "Parse error: file ended, but expected one of `number`, `true`, `false`, `if`.\n0 |\n   ^here"
        ),
        other => panic!("{:?}", other),
    }
    match run("1\n99999999999999999999") {
        Output::NoParse(report) => assert_eq!(report, "Parse error: number is too big."),
        other => panic!("{:?}", other),
    }
}
