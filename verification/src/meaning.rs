//! What a term means and what its instructions do: the value of a term, a
//! model of the stack machine as far as lowered terms use it, and the law
//! that lowering keeps the meaning.

use crate::ast::{Expr, JustExpr, SpanExpr};
use crate::type_check::{
    infer_spec, lemma_no_error_has_type, lemma_no_error_nominal_type, nominal_type,
};
use crate::wasm::{lower, truth_value, Instruction, ValueType};
use vstd::prelude::*;

verus! {

/// The low 32 bits of a value of 64 bits, as a number from 0 on: what is
/// left of the value when it is narrowed to a condition.
pub open spec fn low_word(x: i64) -> int {
    x as int % 0x1_0000_0000
}

/// The value of a term: a number for an integer, 1 or 0 for a boolean. An
/// `if` has the value of its first branch where the low word of its condition
/// is not zero, else that of its second.
pub open spec fn value(e: JustExpr) -> i64
    decreases e,
{
    match e {
        Expr::IntLit(_, n) => n,
        Expr::BoolLit(_, b) => truth_value(b),
        Expr::TypeAnno { term, .. } => value(*term),
        Expr::IfFlow { cond, on_true, on_false, .. } => if low_word(value(*cond)) != 0 {
            value(*on_true)
        } else {
            value(*on_false)
        },
    }
}

/// Computes the value of a term.
pub fn evaluate(e: &JustExpr) -> (v: i64)
    ensures
        v == value(*e),
    decreases e,
{
    match e {
        Expr::IntLit(_, n) => *n,
        Expr::BoolLit(_, b) => if *b {
            1
        } else {
            0
        },
        Expr::TypeAnno { term, .. } => evaluate(term),
        Expr::IfFlow { cond, on_true, on_false, .. } => {
            let c = evaluate(cond);
            // Only the low 32 bits of the condition count
            let low: u32 = #[verifier::truncate]
            (c as u32);
            proof {
                lemma_truncation_is_low_word(c);
            }
            if low != 0 {
                evaluate(on_true)
            } else {
                evaluate(on_false)
            }
        },
    }
}

/// Narrowing a value to 32 bits leaves its low word.
proof fn lemma_truncation_is_low_word(x: i64)
    ensures
        (x as u32) as int == low_word(x),
{
    assert((x as u32) as int == x as int % 0x1_0000_0000) by (bit_vector);
}

/// A value on the stack of the machine: a word of 32 bits, as a number from
/// 0 on, or an integer of 64 bits.
pub enum Slot {
    Word(int),
    Long(i64),
}

/// Where the arm of a branch that is entered at `pc`, `depth` branches deep,
/// ends: at the first `Else` or `End` that belongs to no branch begun inside
/// the arm.
pub open spec fn arm_end(code: Seq<Instruction>, pc: int, depth: nat) -> int
    decreases code.len() - pc,
{
    if 0 <= pc < code.len() {
        match code[pc] {
            Instruction::If(_) => arm_end(code, pc + 1, depth + 1),
            Instruction::End => if depth == 0 {
                pc
            } else {
                arm_end(code, pc + 1, (depth - 1) as nat)
            },
            Instruction::Else => if depth == 0 {
                pc
            } else {
                arm_end(code, pc + 1, depth)
            },
            _ => arm_end(code, pc + 1, depth),
        }
    } else {
        pc
    }
}

/// What the machine does from `pc` on with `stack`, up to the `Else` or
/// `End` at which the arm that it is in ends: where it arrives, and the stack
/// that it arrives with; or nothing where the code asks for what the stack
/// does not hold, or is not well formed.
///
/// A constant is pushed. Narrowing replaces the integer on top by its low
/// word. A branch takes the word on top: where it is not zero the first arm
/// runs and the second is passed over, else the first is passed over and
/// the second runs; either way the machine goes on behind the `End` of the
/// branch.
///
/// (That an arm ends behind its start is asked for here so that the
/// definition is well founded.)
pub open spec fn machine_run(code: Seq<Instruction>, pc: int, stack: Seq<Slot>) -> Option<
    (int, Seq<Slot>),
>
    decreases code.len() - pc,
{
    if 0 <= pc < code.len() {
        match code[pc] {
            Instruction::I64Const(n) => machine_run(code, pc + 1, stack.push(Slot::Long(n))),
            Instruction::I32WrapI64 => if stack.len() > 0 && stack.last() is Long {
                machine_run(
                    code,
                    pc + 1,
                    stack.drop_last().push(Slot::Word(low_word(stack.last()->Long_0))),
                )
            } else {
                None
            },
            Instruction::If(_) => if stack.len() > 0 && stack.last() is Word {
                if stack.last()->Word_0 != 0 {
                    match machine_run(code, pc + 1, stack.drop_last()) {
                        Some((at_else, after)) => {
                            let at_end = arm_end(code, at_else + 1, 0);
                            if pc < at_else < at_end < code.len() && code[at_else]
                                == Instruction::Else && code[at_end] == Instruction::End {
                                machine_run(code, at_end + 1, after)
                            } else {
                                None
                            }
                        },
                        None => None,
                    }
                } else {
                    let at_else = arm_end(code, pc + 1, 0);
                    if pc < at_else < code.len() && code[at_else] == Instruction::Else {
                        match machine_run(code, at_else + 1, stack.drop_last()) {
                            Some((at_end, after)) => if at_else < at_end < code.len()
                                && code[at_end] == Instruction::End {
                                machine_run(code, at_end + 1, after)
                            } else {
                                None
                            },
                            None => None,
                        }
                    } else {
                        None
                    }
                }
            } else {
                None
            },
            Instruction::Else => Some((pc, stack)),
            Instruction::End => Some((pc, stack)),
        }
    } else {
        None
    }
}

/// What a function with the body `body` returns: the integer that is alone
/// on the stack when the machine arrives at the `End` that ends the body.
pub open spec fn returned(body: Seq<Instruction>) -> Option<i64> {
    match machine_run(body, 0, seq![]) {
        Some((at, stack)) => if at == body.len() - 1 && body[at] == Instruction::End && stack.len()
            == 1 && stack[0] is Long {
            Some(stack[0]->Long_0)
        } else {
            None
        },
        None => None,
    }
}

/// Whether the instructions `piece` stand in `code` from `pc` on.
pub open spec fn stands_at(piece: Seq<Instruction>, code: Seq<Instruction>, pc: int) -> bool {
    &&& 0 <= pc
    &&& pc + piece.len() <= code.len()
    &&& forall|i: int| 0 <= i < piece.len() ==> #[trigger] code[pc + i] == piece[i]
}

/// Pieces that stand one after the other stand there as a whole, and the
/// other way round.
proof fn lemma_stands_split(
    a: Seq<Instruction>,
    b: Seq<Instruction>,
    code: Seq<Instruction>,
    pc: int,
)
    ensures
        stands_at(a + b, code, pc) <==> stands_at(a, code, pc) && stands_at(
            b,
            code,
            pc + a.len(),
        ),
{
    if stands_at(a + b, code, pc) {
        assert forall|i: int| 0 <= i < a.len() implies #[trigger] code[pc + i] == a[i] by {
            assert((a + b)[i] == a[i]);
        }
        assert forall|i: int| 0 <= i < b.len() implies #[trigger] code[pc + a.len() + i]
            == b[i] by {
            assert((a + b)[a.len() + i] == b[i]);
            assert(code[pc + (a.len() + i)] == (a + b)[a.len() + i]);
        }
    }
    if stands_at(a, code, pc) && stands_at(b, code, pc + a.len()) {
        assert forall|i: int| 0 <= i < (a + b).len() implies #[trigger] code[pc + i] == (a
            + b)[i] by {
            if i >= a.len() {
                assert(code[pc + a.len() + (i - a.len())] == b[i - a.len()]);
            }
        }
    }
}

/// The pieces of a lowered `if`, where the whole stands: the condition, the
/// two instructions that branch on it, the first branch, `Else`, the second
/// branch and `End`, each in its place.
proof fn lemma_if_stands(
    cond: JustExpr,
    on_true: JustExpr,
    on_false: JustExpr,
    code: Seq<Instruction>,
    pc: int,
)
    requires
        stands_at(
            lower(
                Expr::IfFlow {
                    extra: (),
                    cond: Box::new(cond),
                    on_true: Box::new(on_true),
                    on_false: Box::new(on_false),
                },
            ),
            code,
            pc,
        ),
    ensures
        ({
            let at_wrap = pc + lower(cond).len();
            let at_true = at_wrap + 2;
            let at_else = at_true + lower(on_true).len();
            let at_false = at_else + 1;
            let at_end = at_false + lower(on_false).len();
            &&& stands_at(lower(cond), code, pc)
            &&& stands_at(lower(on_true), code, at_true)
            &&& stands_at(lower(on_false), code, at_false)
            &&& at_end < code.len()
            &&& code[at_wrap] == Instruction::I32WrapI64
            &&& code[at_wrap + 1] is If
            &&& code[at_else] == Instruction::Else
            &&& code[at_end] == Instruction::End
        }),
{
    let c = lower(cond);
    let t = lower(on_true);
    let f = lower(on_false);
    let branch = seq![Instruction::I32WrapI64, Instruction::If(ValueType::I64)];
    lemma_stands_split(
        c + branch + t + seq![Instruction::Else] + f,
        seq![Instruction::End],
        code,
        pc,
    );
    lemma_stands_split(c + branch + t + seq![Instruction::Else], f, code, pc);
    lemma_stands_split(c + branch + t, seq![Instruction::Else], code, pc);
    lemma_stands_split(c + branch, t, code, pc);
    lemma_stands_split(c, branch, code, pc);
    let at_wrap = pc + c.len();
    let at_else = at_wrap + 2 + t.len();
    let at_end = at_else + 1 + f.len();
    assert(code[at_wrap + 0] == branch[0]);
    assert(code[at_wrap + 1] == branch[1]);
    assert(code[at_else + 0] == seq![Instruction::Else][0]);
    assert(code[at_end + 0] == seq![Instruction::End][0]);
}

/// The instructions of a term are passed over as a whole: every branch begun
/// in them ends in them.
pub proof fn lemma_lowered_is_passed_over(
    e: JustExpr,
    code: Seq<Instruction>,
    pc: int,
    depth: nat,
)
    requires
        stands_at(lower(e), code, pc),
    ensures
        arm_end(code, pc, depth) == arm_end(code, pc + lower(e).len(), depth),
    decreases e,
{
    match e {
        Expr::IntLit(_, n) => {
            assert(code[pc + 0] == lower(e)[0]);
        },
        Expr::BoolLit(_, b) => {
            assert(code[pc + 0] == lower(e)[0]);
        },
        Expr::TypeAnno { term, .. } => {
            lemma_lowered_is_passed_over(*term, code, pc, depth);
        },
        Expr::IfFlow { extra, cond, on_true, on_false } => {
            assert(extra == ());
            lemma_if_stands(*cond, *on_true, *on_false, code, pc);
            let at_wrap = pc + lower(*cond).len();
            let at_true = at_wrap + 2;
            let at_else = at_true + lower(*on_true).len();
            let at_false = at_else + 1;
            let at_end = at_false + lower(*on_false).len();
            lemma_lowered_is_passed_over(*cond, code, pc, depth);
            assert(arm_end(code, at_wrap, depth) == arm_end(code, at_wrap + 1, depth));
            assert(arm_end(code, at_wrap + 1, depth) == arm_end(code, at_true, depth + 1));
            lemma_lowered_is_passed_over(*on_true, code, at_true, depth + 1);
            assert(arm_end(code, at_else, depth + 1) == arm_end(code, at_false, depth + 1));
            lemma_lowered_is_passed_over(*on_false, code, at_false, depth + 1);
            assert(arm_end(code, at_end, depth + 1) == arm_end(code, at_end + 1, depth));
        },
    }
}

/// Lowering keeps the meaning, wherever the instructions stand: the machine
/// runs through the instructions of a term, and leaves the value of the term
/// on top of the stack.
pub proof fn lemma_lowered_computes_value(
    e: JustExpr,
    code: Seq<Instruction>,
    pc: int,
    stack: Seq<Slot>,
)
    requires
        stands_at(lower(e), code, pc),
    ensures
        machine_run(code, pc, stack) == machine_run(
            code,
            pc + lower(e).len(),
            stack.push(Slot::Long(value(e))),
        ),
    decreases e,
{
    match e {
        Expr::IntLit(_, n) => {
            assert(code[pc + 0] == lower(e)[0]);
        },
        Expr::BoolLit(_, b) => {
            assert(code[pc + 0] == lower(e)[0]);
        },
        Expr::TypeAnno { term, .. } => {
            lemma_lowered_computes_value(*term, code, pc, stack);
        },
        Expr::IfFlow { extra, cond, on_true, on_false } => {
            assert(extra == ());
            lemma_if_stands(*cond, *on_true, *on_false, code, pc);
            let at_wrap = pc + lower(*cond).len();
            let at_true = at_wrap + 2;
            let at_else = at_true + lower(*on_true).len();
            let at_false = at_else + 1;
            let at_end = at_false + lower(*on_false).len();
            let c = value(*cond);
            lemma_lowered_computes_value(*cond, code, pc, stack);
            let with_cond = stack.push(Slot::Long(c));
            let with_word = with_cond.drop_last().push(Slot::Word(low_word(c)));
            assert(with_cond.drop_last() =~= stack);
            assert(with_word.drop_last() =~= stack);
            assert(machine_run(code, at_wrap, with_cond) == machine_run(
                code,
                at_wrap + 1,
                with_word,
            ));
            if low_word(c) != 0 {
                lemma_lowered_computes_value(*on_true, code, at_true, stack);
                lemma_lowered_is_passed_over(*on_false, code, at_false, 0);
                assert(machine_run(code, at_else, stack.push(Slot::Long(value(*on_true)))) == Some(
                    (at_else, stack.push(Slot::Long(value(*on_true)))),
                ));
                assert(arm_end(code, at_end, 0) == at_end);
            } else {
                lemma_lowered_is_passed_over(*on_true, code, at_true, 0);
                assert(arm_end(code, at_else, 0) == at_else);
                lemma_lowered_computes_value(*on_false, code, at_false, stack);
                assert(machine_run(code, at_end, stack.push(Slot::Long(value(*on_false)))) == Some(
                    (at_end, stack.push(Slot::Long(value(*on_false)))),
                ));
            }
        },
    }
}

/// Lowering keeps the meaning: the function that a term is lowered to returns
/// the value of the term.
pub proof fn lemma_lowering_keeps_meaning(e: JustExpr)
    ensures
        returned(lower(e).push(Instruction::End)) == Some(value(e)),
{
    let body = lower(e).push(Instruction::End);
    assert(stands_at(lower(e), body, 0)) by {
        assert forall|i: int| 0 <= i < lower(e).len() implies #[trigger] body[0 + i] == lower(
            e,
        )[i] by {}
    }
    lemma_lowered_computes_value(e, body, 0, seq![]);
    let at = lower(e).len() as int;
    let stack = Seq::<Slot>::empty().push(Slot::Long(value(e)));
    assert(body[at] == Instruction::End);
    assert(machine_run(body, at, stack) == Some((at, stack)));
}

/// The types are sound: in a term whose pass met no error, a boolean has the
/// value 1 or 0.
pub proof fn lemma_checked_boolean_is_one_or_zero(e: SpanExpr)
    requires
        infer_spec(e).errors.len() == 0,
        nominal_type(e) is Bool,
    ensures
        value(e.erased()) == 1 || value(e.erased()) == 0,
    decreases e,
{
    match e {
        Expr::TypeAnno { term, .. } => {
            lemma_no_error_nominal_type(*term);
            lemma_checked_boolean_is_one_or_zero(*term);
        },
        Expr::IfFlow { on_true, on_false, .. } => {
            lemma_no_error_has_type(*on_true);
            lemma_no_error_has_type(*on_false);
            lemma_no_error_nominal_type(*on_true);
            lemma_no_error_nominal_type(*on_false);
            lemma_checked_boolean_is_one_or_zero(*on_true);
            lemma_checked_boolean_is_one_or_zero(*on_false);
        },
        _ => {},
    }
}

/// A program that checks runs to its value: the function that it is lowered
/// to returns the value of the program, which for a boolean is 1 or 0.
pub proof fn lemma_checked_program_runs_to_its_value(e: SpanExpr)
    requires
        infer_spec(e).errors.len() == 0,
    ensures
        returned(lower(e.erased()).push(Instruction::End)) == Some(value(e.erased())),
        infer_spec(e).result == Some(nominal_type(e)),
        nominal_type(e) is Bool ==> value(e.erased()) == 1 || value(e.erased()) == 0,
{
    lemma_lowering_keeps_meaning(e.erased());
    lemma_no_error_nominal_type(e);
    if nominal_type(e) is Bool {
        lemma_checked_boolean_is_one_or_zero(e);
    }
}

} // verus!
