use mizzle::ast::{pretty_expr, Expr, JustExpr, JustType, Span, SpanExpr, Type};

fn sample() -> SpanExpr {
    // if true then 1: int else 0 end
    Expr::IfFlow {
        extra: Span(0, 30),
        cond: Box::new(Expr::BoolLit(Span(3, 7), true)),
        on_true: Box::new(Expr::TypeAnno {
            extra: Span(13, 19),
            term: Box::new(Expr::IntLit(Span(13, 14), 1)),
            ty: Type::Int(Span(16, 19)),
        }),
        on_false: Box::new(Expr::IntLit(Span(25, 26), 0)),
    }
}

#[test]
fn type_equality_ignores_the_annotation() {
    assert_eq!(Type::Int(Span(0, 1)), Type::Int(Span(5, 9)));
    assert_eq!(Type::Bool(1), Type::Bool(2));
    assert_ne!(Type::Int(0), Type::Bool(0));
    assert_ne!(Type::Bool(Span(0, 1)), Type::Int(Span(0, 1)));
}

#[test]
fn strip_keeps_the_kind() {
    let stripped: JustType = Type::Int(Span(3, 6)).strip();
    assert!(matches!(stripped, Type::Int(())));
    let stripped: JustType = Type::Bool("x").strip();
    assert!(matches!(stripped, Type::Bool(())));
}

#[test]
fn type_extra_and_map_extra() {
    let ty = Type::Bool(Span(3, 7));
    assert_eq!(*ty.extra(), Span(3, 7));
    let mapped = ty.map_extra(&|s: &Span| s.1 - s.0);
    assert!(matches!(mapped, Type::Bool(4)));
    let mapped = Type::Int(2).map_extra(&|n: &i32| n * 10);
    assert!(matches!(mapped, Type::Int(20)));
}

#[test]
fn type_clone_keeps_kind_and_annotation() {
    let ty = Type::Bool(String::from("here"));
    let copy = ty.clone();
    assert!(matches!(&copy, Type::Bool(s) if s == "here"));
}

#[test]
fn expr_extra_is_the_top_annotation() {
    assert_eq!(*sample().extra(), Span(0, 30));
    assert_eq!(*Expr::IntLit(Span(1, 2), 5).extra(), Span(1, 2));
    assert_eq!(*Expr::BoolLit(Span(2, 6), true).extra(), Span(2, 6));
    let anno = Expr::TypeAnno {
        extra: Span(0, 6),
        term: Box::new(Expr::IntLit(Span(0, 1), 1)),
        ty: Type::Int(Span(3, 6)),
    };
    assert_eq!(*anno.extra(), Span(0, 6));
}

#[test]
fn map_extra_keeps_the_shape() {
    let lengths = sample().map_extra(&|s: &Span| s.1 - s.0);
    assert_eq!(
        format!("{:?}", lengths),
        "IfFlow { extra: 30, cond: BoolLit(4, true), on_true: TypeAnno { extra: 6, term: IntLit(1, 1), ty: Int(3) }, on_false: IntLit(1, 0) }"
    );
}

#[test]
fn map_extra_to_unit_erases() {
    let erased: JustExpr = sample().map_extra(&|_: &Span| ());
    assert_eq!(
        format!("{:?}", erased),
        "IfFlow { extra: (), cond: BoolLit((), true), on_true: TypeAnno { extra: (), term: IntLit((), 1), ty: Int(()) }, on_false: IntLit((), 0) }"
    );
}

#[test]
fn clone_is_the_same_term() {
    let e = sample();
    assert_eq!(format!("{:?}", e.clone()), format!("{:?}", e));
}

#[test]
fn type_names() {
    assert_eq!(Type::Int(()).to_string(), "int");
    assert_eq!(Type::Bool(Span(0, 4)).to_string(), "bool");
}

#[test]
fn pretty_literals() {
    assert_eq!(Expr::IntLit((), 0).to_string(), "0");
    assert_eq!(Expr::IntLit((), 42).to_string(), "42");
    assert_eq!(Expr::IntLit((), -7).to_string(), "-7");
    assert_eq!(Expr::IntLit((), i64::MAX).to_string(), "9223372036854775807");
    assert_eq!(Expr::IntLit((), i64::MIN).to_string(), "-9223372036854775808");
    assert_eq!(Expr::BoolLit((), true).to_string(), "true");
    assert_eq!(Expr::BoolLit((), false).to_string(), "false");
}

#[test]
fn pretty_annotation() {
    let e: JustExpr = Expr::TypeAnno {
        extra: (),
        term: Box::new(Expr::IntLit((), 1)),
        ty: Type::Bool(()),
    };
    assert_eq!(e.to_string(), "1: bool");
}

#[test]
fn pretty_if_takes_five_lines() {
    assert_eq!(sample().to_string(), "if true then\n\t1: int\nelse\n\t0\nend");
}

#[test]
fn pretty_nested_if_is_indented() {
    let inner: JustExpr = Expr::IfFlow {
        extra: (),
        cond: Box::new(Expr::BoolLit((), false)),
        on_true: Box::new(Expr::IntLit((), 1)),
        on_false: Box::new(Expr::IntLit((), 2)),
    };
    let outer: JustExpr = Expr::IfFlow {
        extra: (),
        cond: Box::new(Expr::BoolLit((), true)),
        on_true: Box::new(inner),
        on_false: Box::new(Expr::IntLit((), 3)),
    };
    assert_eq!(
        outer.to_string(),
        "if true then\n\tif false then\n\t\t1\n\telse\n\t\t2\n\tend\nelse\n\t3\nend"
    );
}

#[test]
fn pretty_expr_at_a_deeper_level() {
    let e: JustExpr = Expr::IfFlow {
        extra: (),
        cond: Box::new(Expr::BoolLit((), true)),
        on_true: Box::new(Expr::IntLit((), 1)),
        on_false: Box::new(Expr::IntLit((), 0)),
    };
    assert_eq!(pretty_expr(&e, 2), "if true then\n\t\t\t1\n\t\telse\n\t\t\t0\n\t\tend");
}
