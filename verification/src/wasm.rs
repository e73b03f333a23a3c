//! Lowering: from a term to the instructions of a stack machine, to a module
//! with one function, to its binary form, and to the value that running it
//! gives.

use crate::ast::{Expr, JustExpr, JustType, Type};
use crate::text::{bool_text, decimal, push_decimal};
use parity_wasm::builder;
use parity_wasm::elements;
use vstd::prelude::*;
use vstd::string::StringExecFns;
use wasmer::{Imports, Instance, Store, Value};
use wasmer_compiler_cranelift::Cranelift;

verus! {

/// The type of a value on the stack machine.
#[derive(Clone, Copy, Debug, PartialEq, Eq, Structural)]
pub enum ValueType {
    /// An integer of 32 bits.
    I32,
    /// An integer of 64 bits.
    I64,
    /// A floating point number of 32 bits.
    F32,
    /// A floating point number of 64 bits.
    F64,
}

/// The instructions of the stack machine that a term is lowered to.
#[derive(Clone, Copy, Debug, PartialEq, Eq, Structural)]
pub enum Instruction {
    /// Pushes a signed constant of 64 bits.
    I64Const(i64),
    /// Replaces the 64 bit value on top of the stack by its low 32 bits.
    I32WrapI64,
    /// Takes a 32 bit condition off the stack and begins a branch of two
    /// arms. The arm that runs leaves one value of the given type.
    If(ValueType),
    /// Ends the first arm of a branch and begins the second.
    Else,
    /// Ends a branch, or the body of a function.
    End,
}

/// The number that a boolean is at run time: 1 for true, 0 for false.
pub open spec fn truth_value(b: bool) -> i64 {
    if b {
        1
    } else {
        0
    }
}

/// The instructions that compute a term and leave its value, as an integer
/// of 64 bits, on top of the stack.
///
/// An annotation leaves no trace. An `if` computes its condition, narrows
/// it to a 32 bit condition word and branches on it; each arm computes one
/// branch.
pub open spec fn lower(a: JustExpr) -> Seq<Instruction>
    decreases a,
{
    match a {
        Expr::IntLit(_, n) => seq![Instruction::I64Const(n)],
        Expr::BoolLit(_, b) => seq![Instruction::I64Const(truth_value(b))],
        Expr::TypeAnno { term, .. } => lower(*term),
        Expr::IfFlow { cond, on_true, on_false, .. } => lower(*cond) + seq![
            Instruction::I32WrapI64,
            Instruction::If(ValueType::I64),
        ] + lower(*on_true) + seq![Instruction::Else] + lower(*on_false) + seq![Instruction::End],
    }
}

/// Lowers a term to the instructions that compute it.
pub fn expr_to_ins(a: &JustExpr) -> (ins: Vec<Instruction>)
    ensures
        ins@ == lower(*a),
    decreases a,
{
    match a {
        Expr::IntLit(_, n) => {
            let mut ins = Vec::new();
            ins.push(Instruction::I64Const(*n));
            ins
        },
        Expr::BoolLit(_, b) => {
            let mut ins = Vec::new();
            ins.push(Instruction::I64Const(if *b { 1 } else { 0 }));
            ins
        },
        Expr::TypeAnno { term, .. } => expr_to_ins(term),
        Expr::IfFlow { cond, on_true, on_false, .. } => {
            let mut if_ins = Vec::new();
            let mut cond_ins = expr_to_ins(cond);
            let mut true_ins = expr_to_ins(on_true);
            let mut false_ins = expr_to_ins(on_false);

            if_ins.append(&mut cond_ins);
            if_ins.push(Instruction::I32WrapI64);

            if_ins.push(Instruction::If(ValueType::I64));
            if_ins.append(&mut true_ins);
            if_ins.push(Instruction::Else);
            if_ins.append(&mut false_ins);
            if_ins.push(Instruction::End);

            if_ins
        },
    }
}

/// Lowering is a function of the term alone: the same term always gives the
/// same instructions.
pub proof fn lemma_lower_deterministic(a: JustExpr, b: JustExpr)
    requires
        a == b,
    ensures
        lower(a) == lower(b),
{
}

/// An annotation has no representation at run time: an annotated term lowers
/// to what the term lowers to.
pub proof fn lemma_lower_ignores_annotation(term: JustExpr, ty: JustType)
    ensures
        lower(Expr::TypeAnno { extra: (), term: Box::new(term), ty }) == lower(term),
{
}

/// A module of the stack machine with one function, which takes nothing and
/// returns one value.
#[derive(Debug)]
pub struct Module {
    /// The name under which the function is exported.
    pub export: String,
    /// The type of the value that the function returns.
    pub result: ValueType,
    /// The body of the function.
    pub body: Vec<Instruction>,
}

/// A module as a value of mathematics.
pub struct ModuleView {
    pub export: Seq<char>,
    pub result: ValueType,
    pub body: Seq<Instruction>,
}

impl View for Module {
    type V = ModuleView;

    open spec fn view(&self) -> ModuleView {
        ModuleView { export: self.export@, result: self.result, body: self.body@ }
    }
}

impl Clone for Module {
    fn clone(&self) -> (r: Self)
        ensures
            r@ == self@,
    {
        let body = self.body.clone();
        Module { export: self.export.clone(), result: self.result, body }
    }
}

/// The name under which the function of a lowered program is exported.
pub open spec fn entry_point() -> Seq<char> {
    "main"@
}

/// Lowers a term to a module. Its one function computes the term and returns
/// its value as an integer of 64 bits; it is exported as `main`.
pub fn ast_to_wasm(a: &JustExpr) -> (module: Module)
    ensures
        module@ == (ModuleView {
            export: entry_point(),
            result: ValueType::I64,
            body: lower(*a).push(Instruction::End),
        }),
{
    let mut ins = expr_to_ins(a);

    // Functions have to finish with an `End` instruction
    ins.push(Instruction::End);

    Module { export: String::from_str("main"), result: ValueType::I64, body: ins }
}

/// `parity_wasm::elements::Instructions`, a list of instructions of
/// `parity_wasm`. Nothing of its inside is known here.
#[verifier::external_type_specification]
#[verifier::external_body]
pub struct ExInstructions(elements::Instructions);

/// `parity_wasm::elements::Error`, what `parity_wasm` says when it cannot
/// encode. Nothing of its inside is known here.
#[verifier::external_type_specification]
#[verifier::external_body]
pub struct ExError(elements::Error);

/// The instructions that a list of `parity_wasm` holds, in order.
pub uninterp spec fn code_view(code: elements::Instructions) -> Seq<Instruction>;

/// The binary form that `parity_wasm` gives to a module; `None` where it
/// gives none.
pub uninterp spec fn wasm_encoding(module: ModuleView) -> Option<Seq<u8>>;

/// Makes the list of instructions of `parity_wasm` out of ours, with
/// `parity_wasm::elements::Instructions::new`. Each instruction becomes the
/// one of the same name, in the same place.
#[verifier::external_body]
fn to_instructions(body: &Vec<Instruction>) -> (code: elements::Instructions)
    ensures
        code_view(code) == body@,
{
    elements::Instructions::new(body.iter().map(|i| match i {
        Instruction::I64Const(n) => elements::Instruction::I64Const(*n),
        Instruction::I32WrapI64 => elements::Instruction::I32WrapI64,
        Instruction::If(t) => elements::Instruction::If(elements::BlockType::Value(match t {
            ValueType::I32 => elements::ValueType::I32,
            ValueType::I64 => elements::ValueType::I64,
            ValueType::F32 => elements::ValueType::F32,
            ValueType::F64 => elements::ValueType::F64,
        })),
        Instruction::Else => elements::Instruction::Else,
        Instruction::End => elements::Instruction::End,
    }).collect())
}

/// Builds, with `parity_wasm::builder::module`, the module that has one
/// function without parameters, with the given result type and body, exported
/// under the given name, and encodes it with
/// `parity_wasm::elements::Module::to_bytes`. The bytes are a function of
/// what the module is made of.
#[verifier::external_body]
fn encode(export: &str, result: ValueType, code: elements::Instructions) -> (r: Result<
    Vec<u8>,
    elements::Error,
>)
    ensures
        match r {
            Ok(bytes) => wasm_encoding(
                (ModuleView { export: export@, result, body: code_view(code) }),
            ) == Some(bytes@),
            Err(_) => wasm_encoding(
                (ModuleView { export: export@, result, body: code_view(code) }),
            ) is None,
        },
{
    let result = match result {
        ValueType::I32 => elements::ValueType::I32,
        ValueType::I64 => elements::ValueType::I64,
        ValueType::F32 => elements::ValueType::F32,
        ValueType::F64 => elements::ValueType::F64,
    };
    builder::module()
        .function().signature().with_result(result).build()
        .body().with_instructions(code).build().build()
        .export().field(export).internal().func(0).build()
        .build()
        .to_bytes()
}

/// Why a module has no binary form.
#[derive(Clone, Copy, Debug, PartialEq, Eq, Structural)]
pub enum EncodeError {
    /// The encoder refused the module.
    Refused,
}

/// What is handed on for what the encoder gave back: its bytes, or that it
/// refused.
pub fn encoded(r: Result<Vec<u8>, elements::Error>) -> (out: Result<Vec<u8>, EncodeError>)
    ensures
        match r {
            Ok(bytes) => out == Ok::<Vec<u8>, EncodeError>(bytes),
            Err(_) => out == Err::<Vec<u8>, EncodeError>(EncodeError::Refused),
        },
{
    match r {
        Ok(bytes) => Ok(bytes),
        Err(_) => Err(EncodeError::Refused),
    }
}

impl Module {
    /// The binary form of the module, for a machine to load.
    pub fn to_bytes(&self) -> (r: Result<Vec<u8>, EncodeError>)
        ensures
            match r {
                Ok(bytes) => wasm_encoding(self@) == Some(bytes@),
                Err(e) => e == EncodeError::Refused && wasm_encoding(self@) is None,
            },
    {
        let code = to_instructions(&self.body);
        encoded(encode(self.export.as_str(), self.result, code))
    }
}

/// Why running a module gave no value.
#[derive(Clone, Copy, Debug, PartialEq, Eq, Structural)]
pub enum RunError {
    /// The machine did not accept the binary form as a module.
    Compile,
    /// The module could not be set up to run.
    Instantiate,
    /// The module exports no function under the name asked for.
    MissingExport,
    /// The function stopped without returning.
    Trap,
    /// The function returned, but not one integer of 64 bits.
    NoValue,
}

/// Runs, with `wasmer` and its Cranelift compiler, the function that a module
/// in binary form exports under the name `export`, without arguments: by
/// `Store::new`, `Module::from_binary`, `Instance::new` without imports,
/// `Exports::get_function` and `Function::call`, each failure becoming the
/// error of its step. Nothing is promised of the outcome. The binary form has
/// to be that of a module of ours, which has no loops and calls nothing, so
/// that the call comes back.
#[verifier::external_body]
fn execute(binary: &Vec<u8>, export: &str) -> (r: Result<i64, RunError>)
    requires
        exists|module: ModuleView|
            module.export == export@ && #[trigger] wasm_encoding(module) == Some(binary@),
{
    let mut store = Store::new(Cranelift::new());
    let module = wasmer::Module::from_binary(&store, binary).map_err(|_| RunError::Compile)?;
    let instance = Instance::new(&mut store, &module, &Imports::new()).map_err(
        |_| RunError::Instantiate,
    )?;
    let main = instance.exports.get_function(export).map_err(|_| RunError::MissingExport)?;
    let output = main.call(&mut store, &[]).map_err(|_| RunError::Trap)?;
    match output.first() {
        Some(Value::I64(n)) => Ok(*n),
        _ => Err(RunError::NoValue),
    }
}

/// Why evaluating a module gave no value.
#[derive(Clone, Copy, Debug, PartialEq, Eq, Structural)]
pub enum EvalError {
    /// The module has no binary form.
    Encode(EncodeError),
    /// The module did not run to a value.
    Run(RunError),
}

/// How the value that a program returned is shown, given the type of the
/// program: an integer in decimal; a boolean as `true` where the value is 1,
/// as `false` where it is anything else.
pub open spec fn shown_value(word: i64, ty: JustType) -> Seq<char> {
    match ty {
        Type::Int(_) => decimal(word as int),
        Type::Bool(_) => bool_text(word == 1),
    }
}

/// Shows the value that a program of the type `ty` returned.
pub fn show_value(word: i64, ty: &JustType) -> (r: String)
    ensures
        r@ == shown_value(word, *ty),
{
    match ty {
        Type::Int(_) => {
            let mut out = String::new();
            push_decimal(&mut out, word);
            out
        },
        Type::Bool(_) => String::from_str(if word == 1 { "true" } else { "false" }),
    }
}

/// What is handed on for what the machine gave back: the value shown, or the
/// error.
pub fn evaluated(ran: Result<i64, RunError>, final_ty: &JustType) -> (r: Result<String, EvalError>)
    ensures
        match ran {
            Ok(word) => r matches Ok(text) && text@ == shown_value(word, *final_ty),
            Err(e) => r == Err::<String, EvalError>(EvalError::Run(e)),
        },
{
    match ran {
        Ok(word) => Ok(show_value(word, final_ty)),
        Err(e) => Err(EvalError::Run(e)),
    }
}

/// Whether `r` may be what evaluating a module comes to. A module without a
/// binary form is not run. Whether one with a binary form runs to a value is
/// for the machine to say; where it does, the text is that value shown as a
/// value of the type `ty`.
pub open spec fn is_evaluation(
    module: ModuleView,
    ty: JustType,
    r: Result<String, EvalError>,
) -> bool {
    let binary = wasm_encoding(module);
    match r {
        Ok(text) => binary is Some && exists|word: i64| text@ == #[trigger] shown_value(word, ty),
        Err(EvalError::Encode(e)) => e == EncodeError::Refused && binary is None,
        Err(EvalError::Run(_)) => binary is Some,
    }
}

/// Runs the function of a module and shows the value that it returns, as a
/// value of the type `final_ty`.
pub fn eval(module: &Module, final_ty: &JustType) -> (r: Result<String, EvalError>)
    ensures
        is_evaluation(module@, *final_ty, r),
{
    match module.to_bytes() {
        Ok(binary) => {
            let ran = execute(&binary, module.export.as_str());
            evaluated(ran, final_ty)
        },
        Err(e) => Err(EvalError::Encode(e)),
    }
}

} // verus!
