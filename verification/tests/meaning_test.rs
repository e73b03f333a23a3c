use mizzle::ast::{Expr, JustExpr, Type};
use mizzle::meaning::evaluate;
use mizzle::syntax::TermParser;
use mizzle::type_check::check;
use mizzle::wasm::{ast_to_wasm, eval, show_value};

fn if_expr(cond: JustExpr, on_true: JustExpr, on_false: JustExpr) -> JustExpr {
    Expr::IfFlow {
        extra: (),
        cond: Box::new(cond),
        on_true: Box::new(on_true),
        on_false: Box::new(on_false),
    }
}

#[test]
fn literals_have_their_values() {
    assert_eq!(evaluate(&Expr::IntLit((), 42)), 42);
    assert_eq!(evaluate(&Expr::IntLit((), i64::MIN)), i64::MIN);
    assert_eq!(evaluate(&Expr::BoolLit((), true)), 1);
    assert_eq!(evaluate(&Expr::BoolLit((), false)), 0);
}

#[test]
fn annotation_has_the_value_of_its_term() {
    let e: JustExpr = Expr::TypeAnno {
        extra: (),
        term: Box::new(Expr::IntLit((), 7)),
        ty: Type::Bool(()),
    };
    assert_eq!(evaluate(&e), 7);
}

#[test]
fn conditional_has_the_value_of_the_branch_taken() {
    let e = if_expr(Expr::BoolLit((), true), Expr::IntLit((), 1), Expr::IntLit((), 2));
    assert_eq!(evaluate(&e), 1);
    let e = if_expr(Expr::BoolLit((), false), Expr::IntLit((), 1), Expr::IntLit((), 2));
    assert_eq!(evaluate(&e), 2);
}

#[test]
fn condition_counts_by_its_low_word() {
    let pick = |c: i64| evaluate(&if_expr(Expr::IntLit((), c), Expr::IntLit((), 1), Expr::IntLit((), 2)));
    assert_eq!(pick(0), 2);
    assert_eq!(pick(1), 1);
    assert_eq!(pick(-1), 1);
    assert_eq!(pick(1 << 32), 2);
    assert_eq!(pick((1 << 32) + 5), 1);
    assert_eq!(pick(i64::MIN), 2);
    assert_eq!(pick(i64::MAX), 1);
    assert_eq!(pick(-(1 << 32)), 2);
}

#[test]
fn the_machine_returns_the_value() {
    let conditions = [0, 1, -1, 2, 1 << 31, 1 << 32, (1 << 32) + 1, i64::MIN, i64::MAX];
    for c in conditions {
        let e = if_expr(
            Expr::IntLit((), c),
            if_expr(Expr::BoolLit((), false), Expr::IntLit((), 10), Expr::IntLit((), -20)),
            Expr::IntLit((), 30),
        );
        let ty = Type::Int(());
        assert_eq!(eval(&ast_to_wasm(&e), &ty), Ok(show_value(evaluate(&e), &ty)));
    }
}

#[test]
fn checked_programs_run_to_their_values() {
    let programs = [
        ("1", "1"),
        ("-12: int", "-12"),
        ("true", "true"),
        ("false: bool", "false"),
        ("if true then 1 else 0 end", "1"),
        ("if false then 1 else 0 end", "0"),
        ("if if true then false else true end then 10 else 20 end", "20"),
        ("if true: bool then true else false end", "true"),
        ("if false then true else if true then false else true end end: bool", "false"),
    ];
    for (text, shown) in programs {
        let parsed = TermParser::new().parse(text).unwrap();
        let ty = check(&parsed).result.unwrap();
        let erased = parsed.map_extra(&|_| ());
        assert_eq!(show_value(evaluate(&erased), &ty), shown);
        assert_eq!(eval(&ast_to_wasm(&erased), &ty), Ok(String::from(shown)));
    }
}
