use mizzle::ast::{Expr, Span, SpanExpr, Type};
use std::cmp::Ordering;
use mizzle::syntax::TermParser;
use mizzle::type_check::{
    check, infer, sort_issues, Outcome, TypeError, TypeIssue, TypeWarning,
};

fn int_lit(start: usize, end: usize, n: i64) -> SpanExpr {
    Expr::IntLit(Span(start, end), n)
}

fn bool_lit_at(start: usize, end: usize, b: bool) -> SpanExpr {
    Expr::BoolLit(Span(start, end), b)
}

fn annotated(term: SpanExpr, ty: Type<Span>) -> SpanExpr {
    let start = term.extra().0;
    let end = ty.extra().1;
    Expr::TypeAnno { extra: Span(start, end), term: Box::new(term), ty }
}

fn if_expr(span: Span, cond: SpanExpr, on_true: SpanExpr, on_false: SpanExpr) -> SpanExpr {
    Expr::IfFlow {
        extra: span,
        cond: Box::new(cond),
        on_true: Box::new(on_true),
        on_false: Box::new(on_false),
    }
}

#[test]
fn literals_have_their_types() {
    let r = check(&int_lit(0, 1, 7));
    assert_eq!(r.result, Ok(Type::Int(())));
    assert!(r.warnings.is_empty());
    let r = check(&bool_lit_at(0, 4, true));
    assert_eq!(r.result, Ok(Type::Bool(())));
    assert!(r.warnings.is_empty());
}

#[test]
fn flawless_term_checks_without_diagnostics() {
    // if (true: bool) then 1 else (2: int) end
    let cond = annotated(bool_lit_at(3, 7, true), Type::Bool(Span(9, 13)));
    let e = if_expr(
        Span(0, 37),
        cond,
        int_lit(19, 20, 1),
        annotated(int_lit(26, 27, 2), Type::Int(Span(29, 32))),
    );
    let r = check(&e);
    assert_eq!(r.result, Ok(Type::Int(())));
    assert!(r.warnings.is_empty());
    assert!(r.issues().is_empty());
}

#[test]
fn annotation_that_agrees_gives_its_type() {
    let e = annotated(int_lit(0, 1, 1), Type::Int(Span(3, 6)));
    let r = check(&e);
    assert_eq!(r.result, Ok(Type::Int(())));
    assert!(r.warnings.is_empty());
}

#[test]
fn annotation_wins_over_the_term() {
    let e = annotated(int_lit(0, 1, 1), Type::Bool(Span(3, 7)));
    let o = infer(&e);
    assert_eq!(o.result, Some(Type::Bool(())));
    assert_eq!(
        o.errors,
        vec![TypeError::AnnotationIncorrect {
            span: Span(3, 7),
            got: Type::Int(()),
            annotation: Type::Bool(()),
        }]
    );
    assert!(o.warnings.is_empty());
}

#[test]
fn annotation_on_a_failed_term_adds_no_error() {
    // (if true then 1 else true end): int
    let inner = if_expr(Span(0, 29), bool_lit_at(3, 7, true), int_lit(13, 14, 1), bool_lit_at(20, 24, true));
    let e = annotated(inner, Type::Int(Span(31, 34)));
    let o = infer(&e);
    assert_eq!(o.result, Some(Type::Int(())));
    assert_eq!(
        o.errors,
        vec![TypeError::IfBranchesMustBeSame {
            start: 0,
            first: Type::Int(()),
            second: Type::Bool(()),
        }]
    );
}

#[test]
fn literal_condition_always_warns() {
    for value in [true, false] {
        // the branches disagree: the warning is there all the same
        let e = if_expr(Span(0, 30), bool_lit_at(3, 8, value), int_lit(14, 15, 1), bool_lit_at(21, 25, true));
        let r = check(&e);
        assert_eq!(r.warnings, vec![TypeWarning::CondAlways { span: Span(3, 8), value }]);
    }
}

#[test]
fn literal_condition_warning_comes_before_those_of_the_branches() {
    // if true then (if false then 1 else 2 end) else 3 end
    let inner = if_expr(Span(13, 39), bool_lit_at(16, 21, false), int_lit(27, 28, 1), int_lit(34, 35, 2));
    let e = if_expr(Span(0, 50), bool_lit_at(3, 7, true), inner, int_lit(45, 46, 3));
    let r = check(&e);
    assert_eq!(r.result, Ok(Type::Int(())));
    assert_eq!(
        r.warnings,
        vec![
            TypeWarning::CondAlways { span: Span(3, 7), value: true },
            TypeWarning::CondAlways { span: Span(16, 21), value: false },
        ]
    );
}

#[test]
fn branches_must_match() {
    // if true then 1 else true end
    let e = if_expr(Span(0, 28), bool_lit_at(3, 7, true), int_lit(13, 14, 1), bool_lit_at(20, 24, true));
    let r = check(&e);
    assert_eq!(
        r.result,
        Err(vec![TypeError::IfBranchesMustBeSame {
            start: 0,
            first: Type::Int(()),
            second: Type::Bool(()),
        }])
    );
    let o = infer(&e);
    assert_eq!(o.result, None);
    assert_eq!(o.errors.len(), 1);
}

#[test]
fn condition_must_be_boolean() {
    // if 1 then 1 else 0 end
    let e = if_expr(Span(0, 22), int_lit(3, 4, 1), int_lit(10, 11, 1), int_lit(17, 18, 0));
    let r = check(&e);
    assert_eq!(
        r.result,
        Err(vec![TypeError::IfCondMustBeBool { end: 4, got: Type::Int(()) }])
    );
    assert!(r.warnings.is_empty());
    // the condition counts as a boolean afterwards: the branches gave a type
    assert_eq!(infer(&e).result, Some(Type::Int(())));
}

#[test]
fn every_error_of_a_pass_is_collected() {
    // if 1 then (1: bool) else (true: int) end
    let e = if_expr(
        Span(0, 40),
        int_lit(3, 4, 1),
        annotated(int_lit(11, 12, 1), Type::Bool(Span(14, 18))),
        annotated(bool_lit_at(26, 30, true), Type::Int(Span(32, 35))),
    );
    let r = check(&e);
    assert_eq!(
        r.result,
        Err(vec![
            TypeError::IfCondMustBeBool { end: 4, got: Type::Int(()) },
            TypeError::AnnotationIncorrect {
                span: Span(14, 18),
                got: Type::Int(()),
                annotation: Type::Bool(()),
            },
            TypeError::AnnotationIncorrect {
                span: Span(32, 35),
                got: Type::Bool(()),
                annotation: Type::Int(()),
            },
            TypeError::IfBranchesMustBeSame {
                start: 0,
                first: Type::Bool(()),
                second: Type::Int(()),
            },
        ])
    );
}

#[test]
fn end_to_end_constant_condition() {
    let e = TermParser::new().parse("if true then 1 else 0 end").unwrap();
    let r = check(&e);
    assert_eq!(r.result, Ok(Type::Int(())));
    assert_eq!(r.warnings, vec![TypeWarning::CondAlways { span: Span(3, 7), value: true }]);
}

#[test]
fn end_to_end_wrong_annotation() {
    let e = TermParser::new().parse("1: bool").unwrap();
    let r = check(&e);
    assert_eq!(
        r.result,
        Err(vec![TypeError::AnnotationIncorrect {
            span: Span(3, 7),
            got: Type::Int(()),
            annotation: Type::Bool(()),
        }])
    );
    assert!(r.warnings.is_empty());
}

#[test]
fn first_locations() {
    let e = TypeError::AnnotationIncorrect {
        span: Span(3, 7),
        got: Type::Int(()),
        annotation: Type::Bool(()),
    };
    assert_eq!(e.first_location(), 3);
    assert_eq!(TypeError::IfCondMustBeBool { end: 4, got: Type::Int(()) }.first_location(), 4);
    let b = TypeError::IfBranchesMustBeSame {
        start: 9,
        first: Type::Int(()),
        second: Type::Bool(()),
    };
    assert_eq!(b.first_location(), 9);
    let w = TypeWarning::CondAlways { span: Span(5, 9), value: true };
    assert_eq!(w.first_location(), 5);
    assert_eq!(TypeIssue::Error(e).first_location(), 3);
    assert_eq!(TypeIssue::Warning(w).first_location(), 5);
}

#[test]
fn outcome_constructors() {
    let o: Outcome<i32> = Outcome::new_empty();
    assert_eq!(o.result, None);
    assert!(o.errors.is_empty() && o.warnings.is_empty());

    let o = Outcome::new(5);
    assert_eq!(o.result, Some(5));
    assert!(o.errors.is_empty() && o.warnings.is_empty());

    let e = TypeError::IfCondMustBeBool { end: 4, got: Type::Int(()) };
    let o: Outcome<i32> = Outcome::new_err(e);
    assert_eq!(o.result, None);
    assert_eq!(o.errors, vec![e]);
    assert!(o.warnings.is_empty());

    let w = TypeWarning::CondAlways { span: Span(5, 9), value: true };
    let o: Outcome<i32> = Outcome::new_warn(w);
    assert_eq!(o.result, None);
    assert!(o.errors.is_empty());
    assert_eq!(o.warnings, vec![w]);
}

#[test]
fn outcome_recover_to_keeps_diagnostics() {
    let e = TypeError::IfCondMustBeBool { end: 4, got: Type::Int(()) };
    let o: Outcome<i32> = Outcome::new_err(e);
    let o = o.recover_to(3);
    assert_eq!(o.result, Some(3));
    assert_eq!(o.errors, vec![e]);
}

#[test]
fn outcome_map() {
    let o = Outcome::new(5).map(|n: i32| n + 1);
    assert_eq!(o.result, Some(6));
    let w = TypeWarning::CondAlways { span: Span(5, 9), value: true };
    let o: Outcome<i32> = Outcome::new_warn(w);
    let o = o.map(|n: i32| n + 1);
    assert_eq!(o.result, None);
    assert_eq!(o.warnings, vec![w]);
}

#[test]
fn outcome_and_then_merges_in_call_order() {
    let e1 = TypeError::IfCondMustBeBool { end: 1, got: Type::Int(()) };
    let e2 = TypeError::IfCondMustBeBool { end: 2, got: Type::Int(()) };
    let w1 = TypeWarning::CondAlways { span: Span(1, 2), value: true };
    let w2 = TypeWarning::CondAlways { span: Span(3, 4), value: false };

    let mut first = Outcome::new(1);
    first.errors.push(e1);
    first.warnings.push(w1);
    let o = first.and_then(|n: i32| {
        let mut next: Outcome<i32> = Outcome::new_err(e2);
        next.warnings.push(w2);
        assert_eq!(n, 1);
        next
    });
    // the value of the function is taken over, here its failure
    assert_eq!(o.result, None);
    assert_eq!(o.errors, vec![e1, e2]);
    assert_eq!(o.warnings, vec![w1, w2]);

    let mut first = Outcome::new(1);
    first.errors.push(e1);
    let o = first.and_then(|n: i32| Outcome::new(n + 1));
    assert_eq!(o.result, Some(2));
    assert_eq!(o.errors, vec![e1]);
}

#[test]
fn outcome_and_then_without_result_does_not_call() {
    let e1 = TypeError::IfCondMustBeBool { end: 1, got: Type::Int(()) };
    let first: Outcome<i32> = Outcome::new_err(e1);
    let o: Outcome<i32> = first.and_then(|_n: i32| panic!("called"));
    assert_eq!(o.result, None);
    assert_eq!(o.errors, vec![e1]);
    assert!(o.warnings.is_empty());
}

#[test]
fn outcome_and_zip_always_merges() {
    let e1 = TypeError::IfCondMustBeBool { end: 1, got: Type::Int(()) };
    let e2 = TypeError::IfCondMustBeBool { end: 2, got: Type::Int(()) };
    let w2 = TypeWarning::CondAlways { span: Span(3, 4), value: false };

    let o = Outcome::new(1).and_zip(Outcome::new(true));
    assert_eq!(o.result, Some((1, true)));
    assert!(o.errors.is_empty() && o.warnings.is_empty());

    let left: Outcome<i32> = Outcome::new_err(e1);
    let mut right: Outcome<bool> = Outcome::new_err(e2);
    right.warnings.push(w2);
    let o = left.and_zip(right);
    assert_eq!(o.result, None);
    assert_eq!(o.errors, vec![e1, e2]);
    assert_eq!(o.warnings, vec![w2]);

    let left: Outcome<i32> = Outcome::new_err(e1);
    let o = left.and_zip(Outcome::new(true));
    assert_eq!(o.result, None);
    assert_eq!(o.errors, vec![e1]);

    let right: Outcome<bool> = Outcome::new_err(e2);
    let o = Outcome::new(1).and_zip(right);
    assert_eq!(o.result, None);
    assert_eq!(o.errors, vec![e2]);
}

#[test]
fn issues_are_sorted_by_offset() {
    let at = |start: usize| {
        TypeIssue::Error(TypeError::IfBranchesMustBeSame {
            start,
            first: Type::Int(()),
            second: Type::Bool(()),
        })
    };
    let sorted = sort_issues(vec![at(9), at(2), at(5), at(0)]);
    let offsets: Vec<usize> = sorted.iter().map(|i| i.first_location()).collect();
    assert_eq!(offsets, vec![0, 2, 5, 9]);
}

#[test]
fn issues_at_one_offset_keep_their_order() {
    let warning = |end: usize| {
        TypeIssue::Warning(TypeWarning::CondAlways { span: Span(4, end), value: true })
    };
    let error = |got| TypeIssue::Error(TypeError::IfCondMustBeBool { end: 4, got });
    let first = TypeIssue::Error(TypeError::IfCondMustBeBool { end: 1, got: Type::Int(()) });
    let found = vec![
        warning(10),
        error(Type::Int(())),
        warning(11),
        first,
        error(Type::Bool(())),
        warning(12),
    ];
    let sorted = sort_issues(found.clone());
    let shown: Vec<String> = sorted.iter().map(|i| format!("{:?}", i)).collect();
    let expected: Vec<String> = [found[3], found[0], found[1], found[2], found[4], found[5]]
        .iter()
        .map(|i| format!("{:?}", i))
        .collect();
    assert_eq!(shown, expected);
}

#[test]
fn issues_of_a_pass_interleave_errors_and_warnings() {
    // if true then (1: bool) else (if false then 1 else true end) end
    let inner = if_expr(Span(29, 58), bool_lit_at(32, 37, false), int_lit(43, 44, 1), bool_lit_at(50, 54, true));
    let e = if_expr(
        Span(0, 63),
        bool_lit_at(3, 7, true),
        annotated(int_lit(14, 15, 1), Type::Bool(Span(17, 21))),
        inner,
    );
    let r = check(&e);
    let offsets: Vec<usize> = r.issues().iter().map(|i| i.first_location()).collect();
    assert_eq!(offsets, vec![3, 17, 29, 32]);
    let kinds: Vec<bool> = r.issues().iter().map(|i| matches!(i, TypeIssue::Error(_))).collect();
    assert_eq!(kinds, vec![false, true, true, false]);
}

#[test]
fn issues_of_a_successful_pass_are_its_warnings() {
    let e = if_expr(Span(0, 25), bool_lit_at(3, 7, true), int_lit(13, 14, 1), int_lit(20, 21, 0));
    let r = check(&e);
    assert!(r.result.is_ok());
    let issues = r.issues();
    assert_eq!(issues.len(), 1);
    assert!(matches!(
        issues[0],
        TypeIssue::Warning(TypeWarning::CondAlways { span: Span(3, 7), value: true })
    ));
}

#[test]
fn check_result_clone_is_equal() {
    let e = if_expr(Span(0, 28), bool_lit_at(3, 7, true), int_lit(13, 14, 1), bool_lit_at(20, 24, true));
    let r = check(&e);
    let c = r.clone();
    assert_eq!(c.result, r.result);
    assert_eq!(c.warnings, r.warnings);
}

#[test]
fn issues_compare_by_their_offsets() {
    let early = TypeIssue::Error(TypeError::IfCondMustBeBool { end: 1, got: Type::Int(()) });
    let late = TypeIssue::Warning(TypeWarning::CondAlways { span: Span(4, 9), value: true });
    let also_late = TypeIssue::Error(TypeError::IfBranchesMustBeSame {
        start: 4,
        first: Type::Int(()),
        second: Type::Bool(()),
    });
    assert!(late == also_late);
    assert!(early != late);
    assert!(early < late);
    assert!(late >= also_late);
    assert_eq!(early.partial_cmp(&late), Some(Ordering::Less));
    assert_eq!(late.partial_cmp(&also_late), Some(Ordering::Equal));
    assert_eq!(late.partial_cmp(&early), Some(Ordering::Greater));
}
