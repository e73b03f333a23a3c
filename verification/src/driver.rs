//! From a source text to what is shown for it: the text is read, its types
//! are inferred, what was found is reported in reading order, and a program
//! without type errors is run.

use crate::ast::{
    lemma_map_to_unit_erases, lemma_total_function_is_accepted, Expr, JustType, Span, SpanExpr,
    Type,
};
use crate::error_fmt::{
    can_point_at, can_report_parse_err, can_report_type_error, can_report_type_issue,
    format_parse_err, format_type_issue, is_issue_report, is_report_of, parse_error_message,
    parse_error_place, type_warning_place,
};
use crate::grammar::lemma_read_was_written;
use crate::source::{
    is_split_of, lemma_line_stretch_can_be_pointed_at, lemma_lines_exist, split_lines,
};
use crate::syntax::{
    annotated_at, atom_at, is_at, is_word_place, lemma_words_have_places, lemma_words_stop,
    parse_spec, program, term_at, unexpected, words_from, Expected, TermParser, Token, Words,
};
use crate::type_check::{
    all_issues, annotation_outcome, branches_outcome, check, check_spec, condition_outcome,
    in_reading_order, infer_spec, lemma_reading_order_keeps_issues, OutcomeView, TypeIssue,
};
use crate::wasm::{
    ast_to_wasm, entry_point, eval, is_evaluation, lower, EvalError, Instruction, ModuleView,
    ValueType,
};
use vstd::prelude::*;
use vstd::string::StringSliceAdditionalSpecFns;

verus! {

/// Whether every place of a term that a diagnostic may point at can be
/// pointed at in the source: every boolean literal, every name of a type, and
/// the last byte of every condition.
pub open spec fn presentable(e: SpanExpr, lines: Seq<String>) -> bool
    decreases e,
{
    match e {
        Expr::IntLit(_, _) => true,
        Expr::BoolLit(span, _) => can_point_at(lines, span.0, Some(span.1)),
        Expr::TypeAnno { term, ty, .. } => {
            &&& presentable(*term, lines)
            &&& can_point_at(lines, ty.spec_extra().0, Some(ty.spec_extra().1))
        },
        Expr::IfFlow { cond, on_true, on_false, .. } => {
            &&& presentable(*cond, lines)
            &&& presentable(*on_true, lines)
            &&& presentable(*on_false, lines)
            &&& cond.spec_extra().1 > 0
        },
    }
}

/// Whether every diagnostic that was found can be reported on the source.
pub open spec fn reportable<A>(found: OutcomeView<A>, lines: Seq<String>) -> bool {
    &&& forall|i: int|
        0 <= i < found.errors.len() ==> can_report_type_error(#[trigger] found.errors[i], lines)
    &&& forall|i: int|
        0 <= i < found.warnings.len() ==> can_point_at(
            lines,
            type_warning_place(#[trigger] found.warnings[i]).0,
            type_warning_place(found.warnings[i]).1,
        )
}

/// What two parts of a pass found can be reported if what each found can.
proof fn lemma_reportable_together<A, B>(
    first: OutcomeView<A>,
    second: OutcomeView<B>,
    lines: Seq<String>,
)
    requires
        reportable(first, lines),
        reportable(second, lines),
    ensures
        reportable(first.followed_by(second), lines),
        reportable(first.zip(second), lines),
{
    let errors = first.errors + second.errors;
    let warnings = first.warnings + second.warnings;
    assert forall|i: int| 0 <= i < errors.len() implies can_report_type_error(
        #[trigger] errors[i],
        lines,
    ) by {
        if i >= first.errors.len() {
            assert(errors[i] == second.errors[i - first.errors.len()]);
        }
    }
    assert forall|i: int| 0 <= i < warnings.len() implies can_point_at(
        lines,
        type_warning_place(#[trigger] warnings[i]).0,
        type_warning_place(warnings[i]).1,
    ) by {
        if i >= first.warnings.len() {
            assert(warnings[i] == second.warnings[i - first.warnings.len()]);
        }
    }
}

/// Every diagnostic of a pass over a presentable term can be reported.
pub proof fn lemma_diagnostics_are_reportable(e: SpanExpr, lines: Seq<String>)
    requires
        presentable(e, lines),
        lines.len() > 0,
    ensures
        reportable(infer_spec(e), lines),
    decreases e,
{
    match e {
        Expr::TypeAnno { term, ty, .. } => {
            lemma_diagnostics_are_reportable(*term, lines);
            let inner = infer_spec(*term);
            if let Some(got) = inner.result {
                lemma_reportable_together(inner, annotation_outcome(got, ty), lines);
            }
        },
        Expr::IfFlow { extra, cond, on_true, on_false } => {
            lemma_diagnostics_are_reportable(*cond, lines);
            lemma_diagnostics_are_reportable(*on_true, lines);
            lemma_diagnostics_are_reportable(*on_false, lines);
            let first = infer_spec(*cond);
            let branches = infer_spec(*on_true).zip(infer_spec(*on_false));
            lemma_reportable_together(infer_spec(*on_true), infer_spec(*on_false), lines);
            let decided = first.bind(|got: JustType| condition_outcome(*cond, got)).recover_to(
                Type::Bool(()),
            );
            if let Some(got) = first.result {
                let output = condition_outcome(*cond, got);
                assert(reportable(output, lines)) by {
                    // A literal can be pointed at as a whole, every other
                    // condition at its last byte
                    reveal_with_fuel(presentable, 2);
                }
                lemma_reportable_together(first, output, lines);
            }
            lemma_reportable_together(decided, branches, lines);
            let both = decided.followed_by(branches);
            if let Some(pair) = both.result {
                lemma_reportable_together(both, branches_outcome(extra, pair.0, pair.1), lines);
            }
        },
        _ => {},
    }
}

/// Whether the words of a text can be pointed at in the source: each word
/// as a whole, and the place at which the words stop.
pub open spec fn on_lines(words: Words, lines: Seq<String>) -> bool {
    &&& lines.len() > 0
    &&& words.stop matches Some(e) ==> can_report_parse_err(e, lines)
    &&& forall|k: int|
        0 <= k < words.tokens.len() ==> {
            &&& can_point_at(lines, (#[trigger] words.tokens[k]).0, Some(words.tokens[k].2))
            &&& words.tokens[k].2 > 0
        }
}

/// The words of a source, split into lines, can be pointed at in it.
pub proof fn lemma_words_on_lines(src: Seq<u8>, lines: Seq<String>)
    requires
        is_split_of(lines, src),
        src.len() <= usize::MAX,
    ensures
        on_lines(words_from(src, 0), lines),
{
    let words = words_from(src, 0);
    lemma_lines_exist(src);
    lemma_words_stop(src, 0);
    lemma_words_have_places(src, 0);
    assert forall|k: int| 0 <= k < words.tokens.len() implies {
        &&& can_point_at(lines, (#[trigger] words.tokens[k]).0, Some(words.tokens[k].2))
        &&& words.tokens[k].2 > 0
    } by {
        let (start, _, end) = words.tokens[k];
        assert(is_word_place(src, start as int, end as int));
        lemma_line_stretch_can_be_pointed_at(lines, src, start, end);
    }
}

/// Whatever stands where something else was needed, it can be reported.
proof fn lemma_unexpected_is_reportable(
    words: Words,
    pos: int,
    expected: Expected,
    lines: Seq<String>,
)
    requires
        on_lines(words, lines),
    ensures
        can_report_parse_err(unexpected(words, pos, expected), lines),
{
    if 0 <= pos < words.tokens.len() {
        let token = words.tokens[pos];
        assert(can_point_at(lines, token.0, Some(token.2)));
    }
}

/// The annotations that follow a presentable term leave it presentable; and
/// what is wrong with them can be reported.
proof fn lemma_annotated_is_presentable(words: Words, pos: int, term: SpanExpr, lines: Seq<String>)
    requires
        on_lines(words, lines),
        presentable(term, lines),
        0 <= pos,
    ensures
        match annotated_at(words, pos, term) {
            Ok((e, _)) => presentable(e, lines),
            Err(err) => can_report_parse_err(err, lines),
        },
    decreases words.tokens.len() - pos,
{
    if is_at(words, pos, Token::Colon) {
        if is_at(words, pos + 1, Token::Int) || is_at(words, pos + 1, Token::Bool) {
            let name = words.tokens[pos + 1];
            let span = Span(name.0, name.2);
            let whole = Expr::TypeAnno {
                extra: Span(term.spec_extra().0, name.2),
                term: Box::new(term),
                ty: if name.1 == Token::Int {
                    Type::Int(span)
                } else {
                    Type::Bool(span)
                },
            };
            assert(can_point_at(lines, name.0, Some(name.2)));
            lemma_annotated_is_presentable(words, pos + 2, whole, lines);
        } else {
            lemma_unexpected_is_reportable(words, pos + 1, Expected::Type, lines);
        }
    }
}

/// A term that the parser reads is presentable; and where it reads none,
/// what is wrong can be reported.
pub proof fn lemma_read_is_presentable(words: Words, pos: int, lines: Seq<String>)
    requires
        on_lines(words, lines),
        0 <= pos,
    ensures
        match term_at(words, pos) {
            Ok((e, _)) => presentable(e, lines),
            Err(err) => can_report_parse_err(err, lines),
        },
        match atom_at(words, pos) {
            Ok((e, _)) => presentable(e, lines),
            Err(err) => can_report_parse_err(err, lines),
        },
    decreases words.tokens.len() - pos,
{
    let tokens = words.tokens;
    lemma_unexpected_is_reportable(words, pos, Expected::Term, lines);
    if pos < tokens.len() {
        let (start, token, end) = tokens[pos];
        assert(can_point_at(lines, start, Some(end)));
        if token == Token::If {
            lemma_read_is_presentable(words, pos + 1, lines);
            lemma_read_was_written(words, pos + 1);
            if let Ok((cond, then_pos)) = term_at(words, pos + 1) {
                lemma_unexpected_is_reportable(words, then_pos, Expected::ColonOrThen, lines);
                // The condition ends where its last word does
                assert(tokens[then_pos - 1].2 > 0);
                if is_at(words, then_pos, Token::Then) {
                    lemma_read_is_presentable(words, then_pos + 1, lines);
                    lemma_read_was_written(words, then_pos + 1);
                    if let Ok((on_true, else_pos)) = term_at(words, then_pos + 1) {
                        lemma_unexpected_is_reportable(
                            words,
                            else_pos,
                            Expected::ColonOrElse,
                            lines,
                        );
                        if is_at(words, else_pos, Token::Else) {
                            lemma_read_is_presentable(words, else_pos + 1, lines);
                            lemma_read_was_written(words, else_pos + 1);
                            if let Ok((on_false, end_pos)) = term_at(words, else_pos + 1) {
                                lemma_unexpected_is_reportable(
                                    words,
                                    end_pos,
                                    Expected::ColonOrEnd,
                                    lines,
                                );
                            }
                        }
                    }
                }
            }
        }
    }
    if let Ok((atom, next)) = atom_at(words, pos) {
        lemma_read_was_written(words, pos);
        lemma_annotated_is_presentable(words, next, atom, lines);
    }
}

/// A program that the parser reads is presentable; and where it reads none,
/// what is wrong can be reported.
pub proof fn lemma_program_is_presentable(words: Words, lines: Seq<String>)
    requires
        on_lines(words, lines),
    ensures
        match program(words) {
            Ok(e) => presentable(e, lines),
            Err(err) => can_report_parse_err(err, lines),
        },
{
    lemma_read_is_presentable(words, 0, lines);
    if let Ok((_, end)) = term_at(words, 0) {
        lemma_unexpected_is_reportable(words, end, Expected::Colon, lines);
    }
}

/// What is shown for a source text.
#[derive(Debug)]
pub enum Output {
    /// The text is no program: the report of what is wrong with it.
    NoParse(String),
    /// The program has type errors: the reports of every error and warning, in
    /// reading order.
    IllTyped(Vec<String>),
    /// The program has no type error: the reports of every warning, in reading
    /// order, and what running the program came to.
    Ran(Vec<String>, Result<String, EvalError>),
}

/// Whether `reports` are the reports of `issues`, one for one.
pub open spec fn are_reports_of(
    reports: Seq<String>,
    issues: Seq<TypeIssue>,
    lines: Seq<String>,
) -> bool {
    &&& reports.len() == issues.len()
    &&& forall|i: int|
        0 <= i < reports.len() ==> is_issue_report(issues[i], lines, #[trigger] reports[i]@)
}

/// The module that a program, once its types are found to be in order, is
/// lowered to: the places in the source play no part in it.
pub open spec fn program_module(tree: SpanExpr) -> ModuleView {
    ModuleView {
        export: entry_point(),
        result: ValueType::I64,
        body: lower(tree.erased()).push(Instruction::End),
    }
}

/// Every diagnostic of a pass over a term, as one list: the warnings, then,
/// where the pass failed, the errors.
pub open spec fn found_issues(tree: SpanExpr) -> Seq<TypeIssue> {
    all_issues(
        match check_spec(tree).result {
            Ok(_) => seq![],
            Err(errors) => errors,
        },
        check_spec(tree).warnings,
    )
}

/// Whether `reports` are the reports of the diagnostics of a pass over
/// `tree`, in reading order.
pub open spec fn are_reports_of_pass(
    reports: Seq<String>,
    tree: SpanExpr,
    lines: Seq<String>,
) -> bool {
    exists|issues: Seq<TypeIssue>|
        #![trigger in_reading_order(issues, found_issues(tree))]
        in_reading_order(issues, found_issues(tree)) && are_reports_of(reports, issues, lines)
}

/// Whether `output` is what is shown for the source text `src`, whose lines
/// are `lines`.
///
/// For a text that is no program, the parse error is reported and nothing
/// else is done. For a program, every diagnostic of the pass over it is
/// reported, in reading order. A program with a type error is not run; one
/// without is lowered and evaluated, and the value is shown as a value of the
/// program's type.
pub open spec fn is_output_of(src: Seq<u8>, lines: Seq<String>, output: Output) -> bool {
    match parse_spec(src) {
        Err(err) => {
            &&& output matches Output::NoParse(text)
            &&& is_report_of(
                "Parse error"@,
                parse_error_message(err),
                parse_error_place(err),
                lines,
                text@,
            )
        },
        Ok(tree) => match check_spec(tree).result {
            Err(_) => {
                &&& output matches Output::IllTyped(reports)
                &&& are_reports_of_pass(reports@, tree, lines)
            },
            Ok(ty) => {
                &&& output matches Output::Ran(reports, value)
                &&& are_reports_of_pass(reports@, tree, lines)
                &&& is_evaluation(program_module(tree), ty, value)
            },
        },
    }
}

/// Reports each of the issues.
fn report_all(issues: &Vec<TypeIssue>, lines: &Vec<String>) -> (reports: Vec<String>)
    requires
        forall|i: int|
            0 <= i < issues.len() ==> can_report_type_issue(#[trigger] issues[i], lines@),
    ensures
        are_reports_of(reports@, issues@, lines@),
{
    let mut reports: Vec<String> = Vec::new();
    let mut i: usize = 0;
    while i < issues.len()
        invariant
            i <= issues.len(),
            forall|k: int|
                0 <= k < issues.len() ==> can_report_type_issue(#[trigger] issues[k], lines@),
            are_reports_of(reports@, issues@.take(i as int), lines@),
        decreases issues.len() - i,
    {
        reports.push(format_type_issue(issues[i], lines));
        i += 1;
    }
    proof {
        assert(issues@.take(i as int) =~= issues@);
    }
    reports
}

/// Reads a source text, infers its types, reports what was found and, where
/// the types are in order, runs the program.
pub fn run(source: &str) -> (output: Output)
    ensures
        exists|lines: Seq<String>|
            #![trigger is_split_of(lines, source.spec_bytes())]
            is_split_of(lines, source.spec_bytes()) && is_output_of(
                source.spec_bytes(),
                lines,
                output,
            ),
{
    let lines = split_lines(source);
    // A text in memory has a length that fits in `usize`
    let _length = source.as_bytes().len();
    let ghost src = source.spec_bytes();
    proof {
        lemma_words_on_lines(src, lines@);
        lemma_program_is_presentable(words_from(src, 0), lines@);
    }
    let output = match TermParser::new().parse(source) {
        Err(e) => Output::NoParse(format_parse_err(e, &lines)),
        Ok(a) => {
            let check_result = check(&a);
            let issues = check_result.issues();
            let ghost found = found_issues(a);
            proof {
                lemma_diagnostics_are_reportable(a, lines@);
                assert forall|i: int| 0 <= i < issues.len() implies can_report_type_issue(
                    #[trigger] issues[i],
                    lines@,
                ) by {
                    // Each issue is one that the pass found
                    lemma_reading_order_keeps_issues(issues@, found, i);
                    let k = choose|k: int| 0 <= k < found.len() && found[k] == issues[i];
                    let warned = infer_spec(a).warnings.len();
                    if k >= warned {
                        assert(found[k] == TypeIssue::Error(infer_spec(a).errors[k - warned]));
                    } else {
                        assert(found[k] == TypeIssue::Warning(infer_spec(a).warnings[k]));
                    }
                }
            }
            let reports = report_all(&issues, &lines);
            proof {
                assert(in_reading_order(issues@, found));
                assert(are_reports_of_pass(reports@, a, lines@));
            }
            match check_result.result {
                Ok(final_ty) => {
                    let erase = |_s: &Span| -> (u: ()) { () };
                    proof {
                        lemma_total_function_is_accepted(a, erase);
                    }
                    let erased = a.map_extra(&erase);
                    proof {
                        lemma_map_to_unit_erases(a, erase, erased);
                    }
                    let module = ast_to_wasm(&erased);
                    Output::Ran(reports, eval(&module, &final_ty))
                },
                Err(_) => Output::IllTyped(reports),
            }
        },
    };
    proof {
        assert(is_split_of(lines@, src));
        assert(is_output_of(src, lines@, output));
    }
    output
}

} // verus!
