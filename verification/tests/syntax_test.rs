use mizzle::syntax;

#[test]
fn bool_lit() {
    assert!(syntax::TermParser::new().parse("true").is_ok());
    assert!(syntax::TermParser::new().parse("false").is_ok());
}

#[test]
fn nat_lit() {
    assert!(syntax::TermParser::new().parse("0").is_ok());

    let max = &i64::MAX.to_string();
    let min = &i64::MIN.to_string();
    assert!(syntax::TermParser::new().parse(max).is_ok());
    assert!(syntax::TermParser::new().parse(min).is_ok());

    assert!(syntax::TermParser::new()
        .parse(&((i64::MAX as i128) + 1).to_string())
        .is_err());
    assert!(syntax::TermParser::new()
        .parse(&((i64::MIN as i128) - 1).to_string())
        .is_err());
}

#[test]
fn anno() {
    assert!(syntax::TermParser::new().parse("1: int").is_ok());
    assert!(syntax::TermParser::new().parse("int: 1").is_err());
}

#[test]
fn if_flow() {
    assert!(syntax::TermParser::new()
        .parse("if true then 1 else 0 end")
        .is_ok());
}

#[test]
fn types() {
    assert!(syntax::TermParser::new().parse("true").is_ok());
    assert!(syntax::TermParser::new().parse("1").is_ok());
}

fn shown(input: &str) -> String {
    format!("{:?}", syntax::TermParser::new().parse(input))
}

#[test]
fn literals_carry_their_spans() {
    assert_eq!(shown("1"), "Ok(IntLit(Span(0, 1), 1))");
    assert_eq!(shown("true"), "Ok(BoolLit(Span(0, 4), true))");
    assert_eq!(shown("false"), "Ok(BoolLit(Span(0, 5), false))");
    assert_eq!(shown("  42\n"), "Ok(IntLit(Span(2, 4), 42))");
    assert_eq!(shown("\t\r\n7"), "Ok(IntLit(Span(3, 4), 7))");
}

#[test]
fn numbers_have_their_values() {
    assert_eq!(shown("-5"), "Ok(IntLit(Span(0, 2), -5))");
    assert_eq!(shown("007"), "Ok(IntLit(Span(0, 3), 7))");
    assert_eq!(shown("-0"), "Ok(IntLit(Span(0, 2), 0))");
    assert_eq!(
        shown("9223372036854775807"),
        "Ok(IntLit(Span(0, 19), 9223372036854775807))"
    );
    assert_eq!(
        shown("-9223372036854775808"),
        "Ok(IntLit(Span(0, 20), -9223372036854775808))"
    );
}

#[test]
fn numbers_out_of_range_are_too_big() {
    let too_big = Err(syntax::ParseError::User { error: syntax::UserError::NumberTooBig });
    let parse = |s: &str| syntax::TermParser::new().parse(s).map(|_| ());
    assert_eq!(parse("9223372036854775808"), too_big);
    assert_eq!(parse("-9223372036854775809"), too_big);
    assert_eq!(parse("99999999999999999999999999999999999999999999"), too_big);
}

#[test]
fn annotation_spans_reach_from_term_to_type() {
    assert_eq!(
        shown("1: int"),
        "Ok(TypeAnno { extra: Span(0, 6), term: IntLit(Span(0, 1), 1), ty: Int(Span(3, 6)) })"
    );
    assert_eq!(
        shown("true :bool"),
        "Ok(TypeAnno { extra: Span(0, 10), term: BoolLit(Span(0, 4), true), ty: Bool(Span(6, 10)) })"
    );
}

#[test]
fn annotations_chain_to_the_left() {
    assert_eq!(
        shown("1: int: bool"),
        "Ok(TypeAnno { extra: Span(0, 12), term: TypeAnno { extra: Span(0, 6), term: IntLit(Span(0, 1), 1), ty: Int(Span(3, 6)) }, ty: Bool(Span(8, 12)) })"
    );
}

#[test]
fn if_spans_reach_from_if_to_end() {
    assert_eq!(
        shown("if true then 1 else 0 end"),
        "Ok(IfFlow { extra: Span(0, 25), cond: BoolLit(Span(3, 7), true), on_true: IntLit(Span(13, 14), 1), on_false: IntLit(Span(20, 21), 0) })"
    );
}

#[test]
fn if_nests_and_takes_annotations() {
    let e = syntax::TermParser::new()
        .parse("if if true then false else true end then 1: int else 2 end: int")
        .unwrap();
    assert_eq!(
        e.to_string(),
        "if if true then\n\tfalse\nelse\n\ttrue\nend then\n\t1: int\nelse\n\t2\nend: int"
    );
}

#[test]
fn words_need_no_space_between_them() {
    assert_eq!(
        shown("if true then1else0end"),
        "Ok(IfFlow { extra: Span(0, 21), cond: BoolLit(Span(3, 7), true), on_true: IntLit(Span(12, 13), 1), on_false: IntLit(Span(17, 18), 0) })"
    );
    assert_eq!(
        shown("1:int"),
        "Ok(TypeAnno { extra: Span(0, 5), term: IntLit(Span(0, 1), 1), ty: Int(Span(2, 5)) })"
    );
}

#[test]
fn empty_text_ends_too_early() {
    let eof = syntax::ParseError::UnrecognizedEOF { location: 0, expected: syntax::Expected::Term };
    assert_eq!(syntax::TermParser::new().parse("").map(|_| ()), Err(eof));
    assert_eq!(syntax::TermParser::new().parse("  \n ").map(|_| ()), Err(eof));
}

#[test]
fn text_that_ends_inside_an_if() {
    let parse = |s: &str| syntax::TermParser::new().parse(s).map(|_| ());
    assert_eq!(
        parse("if"),
        Err(syntax::ParseError::UnrecognizedEOF { location: 2, expected: syntax::Expected::Term })
    );
    assert_eq!(
        parse("if true "),
        Err(syntax::ParseError::UnrecognizedEOF {
            location: 7,
            expected: syntax::Expected::ColonOrThen
        })
    );
    assert_eq!(
        parse("if true then 1"),
        Err(syntax::ParseError::UnrecognizedEOF {
            location: 14,
            expected: syntax::Expected::ColonOrElse
        })
    );
    assert_eq!(
        parse("if true then 1 else 0"),
        Err(syntax::ParseError::UnrecognizedEOF {
            location: 21,
            expected: syntax::Expected::ColonOrEnd
        })
    );
    assert_eq!(
        parse("1:"),
        Err(syntax::ParseError::UnrecognizedEOF { location: 2, expected: syntax::Expected::Type })
    );
}

#[test]
fn words_out_of_place() {
    let parse = |s: &str| syntax::TermParser::new().parse(s).map(|_| ());
    assert_eq!(
        parse("int: 1"),
        Err(syntax::ParseError::UnrecognizedToken {
            token: (0, syntax::Token::Int, 3),
            expected: syntax::Expected::Term
        })
    );
    assert_eq!(
        parse("1: 2"),
        Err(syntax::ParseError::UnrecognizedToken {
            token: (3, syntax::Token::Number(2), 4),
            expected: syntax::Expected::Type
        })
    );
    assert_eq!(
        parse("1 2"),
        Err(syntax::ParseError::UnrecognizedToken {
            token: (2, syntax::Token::Number(2), 3),
            expected: syntax::Expected::Colon
        })
    );
    assert_eq!(
        parse("1-2"),
        Err(syntax::ParseError::UnrecognizedToken {
            token: (1, syntax::Token::Number(-2), 3),
            expected: syntax::Expected::Colon
        })
    );
    assert_eq!(
        parse("if 1 2"),
        Err(syntax::ParseError::UnrecognizedToken {
            token: (5, syntax::Token::Number(2), 6),
            expected: syntax::Expected::ColonOrThen
        })
    );
    assert_eq!(
        parse("if 1 then 2 end"),
        Err(syntax::ParseError::UnrecognizedToken {
            token: (12, syntax::Token::End, 15),
            expected: syntax::Expected::ColonOrElse
        })
    );
    assert_eq!(
        parse("if 1 then 2 else 3 else"),
        Err(syntax::ParseError::UnrecognizedToken {
            token: (19, syntax::Token::Else, 23),
            expected: syntax::Expected::ColonOrEnd
        })
    );
    assert_eq!(
        parse("then"),
        Err(syntax::ParseError::UnrecognizedToken {
            token: (0, syntax::Token::Then, 4),
            expected: syntax::Expected::Term
        })
    );
}

#[test]
fn bytes_that_start_no_word() {
    let parse = |s: &str| syntax::TermParser::new().parse(s).map(|_| ());
    assert_eq!(parse("$"), Err(syntax::ParseError::InvalidToken { location: 0 }));
    assert_eq!(parse("1 $"), Err(syntax::ParseError::InvalidToken { location: 2 }));
    assert_eq!(parse("- 5"), Err(syntax::ParseError::InvalidToken { location: 0 }));
    assert_eq!(parse("iffy"), Err(syntax::ParseError::InvalidToken { location: 2 }));
    assert_eq!(parse("tru"), Err(syntax::ParseError::InvalidToken { location: 0 }));
    assert_eq!(parse("1: int é"), Err(syntax::ParseError::InvalidToken { location: 7 }));
}

#[test]
fn the_leftmost_error_is_reported() {
    let parse = |s: &str| syntax::TermParser::new().parse(s).map(|_| ());
    assert_eq!(
        parse("int 99999999999999999999"),
        Err(syntax::ParseError::UnrecognizedToken {
            token: (0, syntax::Token::Int, 3),
            expected: syntax::Expected::Term
        })
    );
    assert_eq!(
        parse("1 2 $"),
        Err(syntax::ParseError::UnrecognizedToken {
            token: (2, syntax::Token::Number(2), 3),
            expected: syntax::Expected::Colon
        })
    );
    assert_eq!(
        parse("1: 99999999999999999999"),
        Err(syntax::ParseError::User { error: syntax::UserError::NumberTooBig })
    );
}

#[test]
fn lexer_splits_into_words() {
    let (tokens, stop) = syntax::lex(b"if true then -12 else 0 end: bool int false");
    assert_eq!(stop, None);
    assert_eq!(
        tokens,
        vec![
            (0, syntax::Token::If, 2),
            (3, syntax::Token::True, 7),
            (8, syntax::Token::Then, 12),
            (13, syntax::Token::Number(-12), 16),
            (17, syntax::Token::Else, 21),
            (22, syntax::Token::Number(0), 23),
            (24, syntax::Token::End, 27),
            (27, syntax::Token::Colon, 28),
            (29, syntax::Token::Bool, 33),
            (34, syntax::Token::Int, 37),
            (38, syntax::Token::False, 43),
        ]
    );
}

#[test]
fn lexer_stops_at_the_first_bad_place() {
    let (tokens, stop) = syntax::lex(b"1 ? 2");
    assert_eq!(tokens, vec![(0, syntax::Token::Number(1), 1)]);
    assert_eq!(stop, Some(syntax::ParseError::InvalidToken { location: 2 }));
    let (tokens, stop) = syntax::lex(b"true 123456789012345678901234567890 false");
    assert_eq!(tokens, vec![(0, syntax::Token::True, 4)]);
    assert_eq!(stop, Some(syntax::ParseError::User { error: syntax::UserError::NumberTooBig }));
    let (tokens, stop) = syntax::lex(b"");
    assert!(tokens.is_empty());
    assert_eq!(stop, None);
}
