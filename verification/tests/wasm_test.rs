use mizzle::ast::{Expr, JustExpr, Type};
use mizzle::syntax::TermParser;
use mizzle::type_check::check;
use mizzle::wasm::{
    ast_to_wasm, eval, expr_to_ins, show_value, EncodeError, EvalError, Instruction, Module,
    RunError, ValueType,
};
use parity_wasm::elements;

fn if_expr(cond: JustExpr, on_true: JustExpr, on_false: JustExpr) -> JustExpr {
    Expr::IfFlow {
        extra: (),
        cond: Box::new(cond),
        on_true: Box::new(on_true),
        on_false: Box::new(on_false),
    }
}

#[test]
fn integer_literal_is_a_constant() {
    assert_eq!(expr_to_ins(&Expr::IntLit((), 42)), vec![Instruction::I64Const(42)]);
    assert_eq!(expr_to_ins(&Expr::IntLit((), -1)), vec![Instruction::I64Const(-1)]);
    assert_eq!(expr_to_ins(&Expr::IntLit((), i64::MIN)), vec![Instruction::I64Const(i64::MIN)]);
}

#[test]
fn boolean_literal_is_one_or_zero() {
    assert_eq!(expr_to_ins(&Expr::BoolLit((), true)), vec![Instruction::I64Const(1)]);
    assert_eq!(expr_to_ins(&Expr::BoolLit((), false)), vec![Instruction::I64Const(0)]);
}

#[test]
fn annotation_leaves_no_trace() {
    let term: JustExpr = if_expr(Expr::BoolLit((), true), Expr::IntLit((), 1), Expr::IntLit((), 0));
    let annotated: JustExpr = Expr::TypeAnno {
        extra: (),
        term: Box::new(term.clone()),
        ty: Type::Int(()),
    };
    assert_eq!(expr_to_ins(&annotated), expr_to_ins(&term));
    let wrong: JustExpr = Expr::TypeAnno {
        extra: (),
        term: Box::new(Expr::IntLit((), 5)),
        ty: Type::Bool(()),
    };
    assert_eq!(expr_to_ins(&wrong), vec![Instruction::I64Const(5)]);
}

#[test]
fn conditional_branches_on_the_narrowed_condition() {
    let e = if_expr(Expr::BoolLit((), true), Expr::IntLit((), 1), Expr::IntLit((), 0));
    assert_eq!(
        expr_to_ins(&e),
        vec![
            Instruction::I64Const(1),
            Instruction::I32WrapI64,
            Instruction::If(ValueType::I64),
            Instruction::I64Const(1),
            Instruction::Else,
            Instruction::I64Const(0),
            Instruction::End,
        ]
    );
}

#[test]
fn nested_conditionals() {
    let inner = if_expr(Expr::BoolLit((), false), Expr::IntLit((), 2), Expr::IntLit((), 3));
    let e = if_expr(inner, Expr::IntLit((), 10), Expr::BoolLit((), true));
    assert_eq!(
        expr_to_ins(&e),
        vec![
            Instruction::I64Const(0),
            Instruction::I32WrapI64,
            Instruction::If(ValueType::I64),
            Instruction::I64Const(2),
            Instruction::Else,
            Instruction::I64Const(3),
            Instruction::End,
            Instruction::I32WrapI64,
            Instruction::If(ValueType::I64),
            Instruction::I64Const(10),
            Instruction::Else,
            Instruction::I64Const(1),
            Instruction::End,
        ]
    );
}

#[test]
fn lowering_is_deterministic() {
    let build = || if_expr(Expr::BoolLit((), true), Expr::IntLit((), 7), Expr::IntLit((), 8));
    assert_eq!(expr_to_ins(&build()), expr_to_ins(&build()));
    assert_eq!(ast_to_wasm(&build()).to_bytes(), ast_to_wasm(&build()).to_bytes());
}

#[test]
fn module_has_one_function_exported_as_main() {
    let module = ast_to_wasm(&Expr::IntLit((), 5));
    assert_eq!(module.export, "main");
    assert_eq!(module.result, ValueType::I64);
    assert_eq!(module.body, vec![Instruction::I64Const(5), Instruction::End]);
}

#[test]
fn binary_form_holds_the_module() {
    let e = if_expr(Expr::BoolLit((), true), Expr::IntLit((), 1), Expr::IntLit((), 0));
    let bytes = ast_to_wasm(&e).to_bytes().unwrap();
    assert_eq!(&bytes[0..8], &[0x00, 0x61, 0x73, 0x6d, 0x01, 0x00, 0x00, 0x00]);

    let read = elements::Module::from_bytes(&bytes).unwrap();
    let types = read.type_section().unwrap().types();
    assert_eq!(types.len(), 1);
    let elements::Type::Function(signature) = &types[0];
    assert!(signature.params().is_empty());
    assert_eq!(signature.results(), &[elements::ValueType::I64]);

    let exports = read.export_section().unwrap().entries();
    assert_eq!(exports.len(), 1);
    assert_eq!(exports[0].field(), "main");
    assert_eq!(exports[0].internal(), &elements::Internal::Function(0));

    let bodies = read.code_section().unwrap().bodies();
    assert_eq!(bodies.len(), 1);
    assert_eq!(
        bodies[0].code().elements(),
        &[
            elements::Instruction::I64Const(1),
            elements::Instruction::I32WrapI64,
            elements::Instruction::If(elements::BlockType::Value(elements::ValueType::I64)),
            elements::Instruction::I64Const(1),
            elements::Instruction::Else,
            elements::Instruction::I64Const(0),
            elements::Instruction::End,
            elements::Instruction::End,
        ]
    );
}

#[test]
fn binary_form_follows_name_and_types() {
    let module = Module {
        export: String::from("start"),
        result: ValueType::I32,
        body: vec![
            Instruction::I64Const(3),
            Instruction::I32WrapI64,
            Instruction::If(ValueType::I32),
            Instruction::I64Const(1),
            Instruction::I32WrapI64,
            Instruction::Else,
            Instruction::I64Const(2),
            Instruction::I32WrapI64,
            Instruction::End,
            Instruction::End,
        ],
    };
    let read = elements::Module::from_bytes(&module.to_bytes().unwrap()).unwrap();
    let elements::Type::Function(signature) = &read.type_section().unwrap().types()[0];
    assert_eq!(signature.results(), &[elements::ValueType::I32]);
    assert_eq!(read.export_section().unwrap().entries()[0].field(), "start");
    let code = read.code_section().unwrap().bodies()[0].code().elements().to_vec();
    assert_eq!(
        code[2],
        elements::Instruction::If(elements::BlockType::Value(elements::ValueType::I32))
    );
    assert_eq!(code.len(), 10);
}

#[test]
fn float_types_are_encoded_too() {
    for (ours, theirs) in [
        (ValueType::F32, elements::ValueType::F32),
        (ValueType::F64, elements::ValueType::F64),
    ] {
        let module = Module {
            export: String::from("f"),
            result: ours,
            body: vec![Instruction::If(ours), Instruction::Else, Instruction::End, Instruction::End],
        };
        let read = elements::Module::from_bytes(&module.to_bytes().unwrap()).unwrap();
        let elements::Type::Function(signature) = &read.type_section().unwrap().types()[0];
        assert_eq!(signature.results(), &[theirs]);
        assert_eq!(
            read.code_section().unwrap().bodies()[0].code().elements()[0],
            elements::Instruction::If(elements::BlockType::Value(theirs))
        );
    }
}

#[test]
fn show_value_by_type() {
    assert_eq!(show_value(1, &Type::Int(())), "1");
    assert_eq!(show_value(-12, &Type::Int(())), "-12");
    assert_eq!(show_value(i64::MIN, &Type::Int(())), "-9223372036854775808");
    assert_eq!(show_value(1, &Type::Bool(())), "true");
    assert_eq!(show_value(0, &Type::Bool(())), "false");
    assert_eq!(show_value(2, &Type::Bool(())), "false");
}

#[test]
fn eval_runs_the_program() {
    let e = if_expr(Expr::BoolLit((), true), Expr::IntLit((), 1), Expr::IntLit((), 0));
    assert_eq!(eval(&ast_to_wasm(&e), &Type::Int(())), Ok(String::from("1")));
    let e = if_expr(Expr::BoolLit((), false), Expr::IntLit((), 1), Expr::IntLit((), -5));
    assert_eq!(eval(&ast_to_wasm(&e), &Type::Int(())), Ok(String::from("-5")));
}

#[test]
fn eval_shows_booleans() {
    let e = if_expr(Expr::BoolLit((), false), Expr::BoolLit((), false), Expr::BoolLit((), true));
    assert_eq!(eval(&ast_to_wasm(&e), &Type::Bool(())), Ok(String::from("true")));
    assert_eq!(
        eval(&ast_to_wasm(&Expr::BoolLit((), false)), &Type::Bool(())),
        Ok(String::from("false"))
    );
}

#[test]
fn eval_takes_the_nonzero_branch_on_the_low_word() {
    // 2^32 has a low word of zero: as a condition it is false
    let e = if_expr(Expr::IntLit((), 1 << 32), Expr::IntLit((), 1), Expr::IntLit((), 2));
    assert_eq!(eval(&ast_to_wasm(&e), &Type::Int(())), Ok(String::from("2")));
    let e = if_expr(Expr::IntLit((), 7), Expr::IntLit((), 1), Expr::IntLit((), 2));
    assert_eq!(eval(&ast_to_wasm(&e), &Type::Int(())), Ok(String::from("1")));
}

#[test]
fn end_to_end_prints_one() {
    let parsed = TermParser::new().parse("if true then 1 else 0 end").unwrap();
    let checked = check(&parsed);
    let ty = checked.result.unwrap();
    assert_eq!(ty, Type::Int(()));
    let module = ast_to_wasm(&parsed.map_extra(&|_| ()));
    assert_eq!(eval(&module, &ty), Ok(String::from("1")));
}

#[test]
fn eval_reports_a_module_that_does_not_compile() {
    // the branch is never closed
    let module = Module {
        export: String::from("main"),
        result: ValueType::I64,
        body: vec![Instruction::I64Const(1), Instruction::I32WrapI64, Instruction::If(ValueType::I64)],
    };
    assert_eq!(eval(&module, &Type::Int(())), Err(EvalError::Run(RunError::Compile)));
}

#[test]
fn eval_reports_a_value_of_another_type() {
    let module = Module {
        export: String::from("main"),
        result: ValueType::I32,
        body: vec![Instruction::I64Const(1), Instruction::I32WrapI64, Instruction::End],
    };
    assert_eq!(eval(&module, &Type::Int(())), Err(EvalError::Run(RunError::NoValue)));
}

#[test]
fn errors_are_plain_values() {
    assert_eq!(EvalError::Encode(EncodeError::Refused), EvalError::Encode(EncodeError::Refused));
    assert_ne!(EvalError::Run(RunError::Trap), EvalError::Run(RunError::MissingExport));
    assert_ne!(RunError::Instantiate, RunError::Compile);
}

#[test]
fn module_clone_is_equal() {
    let module = ast_to_wasm(&Expr::IntLit((), 5));
    let copy = module.clone();
    assert_eq!(copy.export, module.export);
    assert_eq!(copy.result, module.result);
    assert_eq!(copy.body, module.body);
}
