use mizzle::ast::{pretty_expr, Expr, JustExpr, Type};
use mizzle::syntax::TermParser;

fn if_expr(cond: JustExpr, on_true: JustExpr, on_false: JustExpr) -> JustExpr {
    Expr::IfFlow {
        extra: (),
        cond: Box::new(cond),
        on_true: Box::new(on_true),
        on_false: Box::new(on_false),
    }
}

fn annotated(term: JustExpr, ty: Type<()>) -> JustExpr {
    Expr::TypeAnno { extra: (), term: Box::new(term), ty }
}

fn samples() -> Vec<JustExpr> {
    vec![
        Expr::IntLit((), 0),
        Expr::IntLit((), -1),
        Expr::IntLit((), i64::MAX),
        Expr::IntLit((), i64::MIN),
        Expr::BoolLit((), true),
        Expr::BoolLit((), false),
        annotated(Expr::IntLit((), 12), Type::Int(())),
        annotated(annotated(Expr::BoolLit((), true), Type::Bool(())), Type::Int(())),
        if_expr(Expr::BoolLit((), true), Expr::IntLit((), 1), Expr::IntLit((), 0)),
        if_expr(
            annotated(Expr::IntLit((), -7), Type::Bool(())),
            if_expr(
                Expr::BoolLit((), false),
                annotated(Expr::IntLit((), 3), Type::Int(())),
                if_expr(Expr::IntLit((), 1), Expr::IntLit((), 2), Expr::IntLit((), 3)),
            ),
            annotated(
                if_expr(Expr::BoolLit((), true), Expr::BoolLit((), true), Expr::IntLit((), -9)),
                Type::Bool(()),
            ),
        ),
    ]
}

#[test]
fn what_is_printed_is_read() {
    for e in samples() {
        let read = TermParser::new().parse(&e.to_string()).unwrap();
        assert_eq!(format!("{:?}", read.map_extra(&|_| ())), format!("{:?}", e));
    }
}

#[test]
fn what_is_printed_deeper_is_read_too() {
    for e in samples() {
        for indent in [1, 2, 5] {
            let read = TermParser::new().parse(&pretty_expr(&e, indent)).unwrap();
            assert_eq!(format!("{:?}", read.map_extra(&|_| ())), format!("{:?}", e));
        }
    }
}

#[test]
fn what_is_read_prints_as_it_was_written() {
    for e in samples() {
        let text = e.to_string();
        let read = TermParser::new().parse(&text).unwrap();
        assert_eq!(read.to_string(), text);
    }
}
