//! Type inference that goes on after an error: the diagnostics, the value
//! that collects them, the pass itself, and the order in which what it found
//! is shown.

use crate::ast::{Expr, JustType, Span, SpanExpr, Type};
use std::cmp::Ordering;
use vstd::prelude::*;
use vstd::std_specs::cmp::{PartialEqSpecImpl, PartialOrdSpecImpl};

verus! {

/// What can be wrong with the types of a term.
#[derive(Clone, Copy, Debug, PartialEq, Eq)]
pub enum TypeError {
    /// A term was annotated with a type other than its own. `span` is where
    /// the annotation was written.
    AnnotationIncorrect { span: Span, got: JustType, annotation: JustType },
    /// The condition of an `if` is not a boolean. `end` is where the
    /// condition ends.
    IfCondMustBeBool { end: usize, got: JustType },
    /// The two branches of an `if` have different types. `start` is where
    /// the `if` starts.
    IfBranchesMustBeSame { start: usize, first: JustType, second: JustType },
}

impl TypeError {
    /// The first offset of the source that the error is about.
    pub open spec fn spec_first_location(&self) -> usize {
        match *self {
            TypeError::AnnotationIncorrect { span, .. } => span.0,
            TypeError::IfCondMustBeBool { end, .. } => end,
            TypeError::IfBranchesMustBeSame { start, .. } => start,
        }
    }

    /// The first offset of the source that the error is about.
    #[verifier::when_used_as_spec(spec_first_location)]
    pub fn first_location(&self) -> (r: usize)
        ensures
            r == self.spec_first_location(),
    {
        match self {
            TypeError::AnnotationIncorrect { span, .. } => span.0,
            TypeError::IfCondMustBeBool { end, .. } => *end,
            TypeError::IfBranchesMustBeSame { start, .. } => *start,
        }
    }
}

/// What is suspicious, though not wrong, about a term.
#[derive(Clone, Copy, Debug, PartialEq, Eq, Structural)]
pub enum TypeWarning {
    /// The condition of an `if` is a literal, so the same branch is always
    /// taken. `span` is where the literal was written.
    CondAlways { span: Span, value: bool },
}

impl TypeWarning {
    /// The first offset of the source that the warning is about.
    pub open spec fn spec_first_location(&self) -> usize {
        match *self {
            TypeWarning::CondAlways { span, .. } => span.0,
        }
    }

    /// The first offset of the source that the warning is about.
    #[verifier::when_used_as_spec(spec_first_location)]
    pub fn first_location(&self) -> (r: usize)
        ensures
            r == self.spec_first_location(),
    {
        match self {
            TypeWarning::CondAlways { span, .. } => span.0,
        }
    }
}

/// An error or a warning, for reporting the two together.
#[derive(Clone, Copy, Debug)]
pub enum TypeIssue {
    Error(TypeError),
    Warning(TypeWarning),
}

impl TypeIssue {
    /// The first offset of the source that the issue is about.
    pub open spec fn spec_first_location(&self) -> usize {
        match *self {
            TypeIssue::Error(e) => e.spec_first_location(),
            TypeIssue::Warning(w) => w.spec_first_location(),
        }
    }

    /// The first offset of the source that the issue is about.
    #[verifier::when_used_as_spec(spec_first_location)]
    pub fn first_location(&self) -> (r: usize)
        ensures
            r == self.spec_first_location(),
    {
        match self {
            TypeIssue::Error(e) => e.first_location(),
            TypeIssue::Warning(w) => w.first_location(),
        }
    }
}

/// Issues are compared by the offsets that they are about, and by nothing
/// else: two issues about one offset count as equal.
impl PartialEq for TypeIssue {
    fn eq(&self, other: &Self) -> (r: bool) {
        self.first_location() == other.first_location()
    }
}

impl PartialEqSpecImpl for TypeIssue {
    open spec fn obeys_eq_spec() -> bool {
        true
    }

    open spec fn eq_spec(&self, other: &Self) -> bool {
        self.spec_first_location() == other.spec_first_location()
    }
}

impl Eq for TypeIssue {}

impl PartialOrd for TypeIssue {
    fn partial_cmp(&self, other: &Self) -> (r: Option<Ordering>) {
        let here = self.first_location();
        let there = other.first_location();
        if here < there {
            Some(Ordering::Less)
        } else if here == there {
            Some(Ordering::Equal)
        } else {
            Some(Ordering::Greater)
        }
    }
}

impl PartialOrdSpecImpl for TypeIssue {
    open spec fn obeys_partial_cmp_spec() -> bool {
        true
    }

    open spec fn partial_cmp_spec(&self, other: &Self) -> Option<Ordering> {
        if self.spec_first_location() < other.spec_first_location() {
            Some(Ordering::Less)
        } else if self.spec_first_location() == other.spec_first_location() {
            Some(Ordering::Equal)
        } else {
            Some(Ordering::Greater)
        }
    }
}

/// What a part of a pass has found so far, as a value of
/// mathematics: maybe a result, and the diagnostics in the order in which they
/// were met.
pub struct OutcomeView<A> {
    pub result: Option<A>,
    pub errors: Seq<TypeError>,
    pub warnings: Seq<TypeWarning>,
}

impl<A> OutcomeView<A> {
    /// No result and no diagnostics.
    pub open spec fn empty() -> Self {
        OutcomeView { result: None, errors: seq![], warnings: seq![] }
    }

    /// The result `a` and no diagnostics.
    pub open spec fn succeed(a: A) -> Self {
        OutcomeView { result: Some(a), errors: seq![], warnings: seq![] }
    }

    /// No result, and the error `e` alone.
    pub open spec fn fail_with(e: TypeError) -> Self {
        OutcomeView { result: None, errors: seq![e], warnings: seq![] }
    }

    /// No result, and the warning `w` alone.
    pub open spec fn warn_with(w: TypeWarning) -> Self {
        OutcomeView { result: None, errors: seq![], warnings: seq![w] }
    }

    /// The result `a`, whatever the result was, and the same diagnostics.
    pub open spec fn recover_to(self, a: A) -> Self {
        OutcomeView { result: Some(a), errors: self.errors, warnings: self.warnings }
    }

    /// The same diagnostics, and no result, of whatever type.
    pub open spec fn without_result<B>(self) -> OutcomeView<B> {
        OutcomeView { result: None, errors: self.errors, warnings: self.warnings }
    }

    /// The result of `next`, after the diagnostics of `self` followed by
    /// those of `next`.
    pub open spec fn followed_by<B>(self, next: OutcomeView<B>) -> OutcomeView<B> {
        OutcomeView {
            result: next.result,
            errors: self.errors + next.errors,
            warnings: self.warnings + next.warnings,
        }
    }

    /// Sequencing. Without a result, `f` is not consulted and the diagnostics
    /// are handed on with no result. With a result, what `f` makes of it
    /// follows: its diagnostics are added and its result, or lack of one, is
    /// taken over.
    pub open spec fn bind<B>(self, f: spec_fn(A) -> OutcomeView<B>) -> OutcomeView<B> {
        match self.result {
            Some(a) => self.followed_by(f(a)),
            None => self.without_result(),
        }
    }

    /// Both at once. The diagnostics of both sides are kept, whether or not
    /// either side has a result; the pair of results exists only where both
    /// do.
    pub open spec fn zip<B>(self, other: OutcomeView<B>) -> OutcomeView<(A, B)> {
        OutcomeView {
            result: match (self.result, other.result) {
                (Some(l), Some(r)) => Some((l, r)),
                _ => None,
            },
            errors: self.errors + other.errors,
            warnings: self.warnings + other.warnings,
        }
    }
}

/// No operation drops a diagnostic: what was found before an operation
/// stands, in the same order, at the start of what is found after it; and
/// what the other side of an operation found follows without a gap.
pub proof fn lemma_diagnostics_are_kept<A, B>(
    found: OutcomeView<A>,
    a: A,
    next: OutcomeView<B>,
    f: spec_fn(A) -> OutcomeView<B>,
)
    ensures
        found.recover_to(a).errors == found.errors,
        found.recover_to(a).warnings == found.warnings,
        found.without_result::<B>().errors == found.errors,
        found.without_result::<B>().warnings == found.warnings,
        found.followed_by(next).errors == found.errors + next.errors,
        found.followed_by(next).warnings == found.warnings + next.warnings,
        found.zip(next).errors == found.errors + next.errors,
        found.zip(next).warnings == found.warnings + next.warnings,
        found.errors.is_prefix_of(found.bind(f).errors),
        found.warnings.is_prefix_of(found.bind(f).warnings),
{
}

/// What a part of a pass over a term has found so far: maybe a result,
/// and every error and warning met on the way, in the order in which they
/// were met. It lets a pass go on after an error and report them all.
#[must_use]
#[derive(Debug)]
pub struct Outcome<A> {
    pub result: Option<A>,
    pub errors: Vec<TypeError>,
    pub warnings: Vec<TypeWarning>,
}

impl<A> View for Outcome<A> {
    type V = OutcomeView<A>;

    open spec fn view(&self) -> OutcomeView<A> {
        OutcomeView { result: self.result, errors: self.errors@, warnings: self.warnings@ }
    }
}

impl<A: Clone> Clone for Outcome<A> {
    fn clone(&self) -> (r: Self)
        ensures
            r.errors@ == self.errors@,
            r.warnings@ == self.warnings@,
            match self.result {
                Some(a) => r.result matches Some(b) && cloned(a, b),
                None => r.result is None,
            },
    {
        Outcome {
            result: self.result.clone(),
            errors: self.errors.clone(),
            warnings: self.warnings.clone(),
        }
    }
}

impl<A> Outcome<A> {
    /// No result and nothing to report: for the branch of a test that finds
    /// nothing wrong but has no value to give.
    pub fn new_empty() -> (r: Outcome<A>)
        ensures
            r@ == OutcomeView::<A>::empty(),
    {
        Outcome { result: None, errors: Vec::new(), warnings: Vec::new() }
    }

    /// The result `a` and nothing to report.
    pub fn new(a: A) -> (r: Outcome<A>)
        ensures
            r@ == OutcomeView::succeed(a),
    {
        Outcome { result: Some(a), errors: Vec::new(), warnings: Vec::new() }
    }

    /// No result, and the error `e` to report.
    pub fn new_err(e: TypeError) -> (r: Outcome<A>)
        ensures
            r@ == OutcomeView::<A>::fail_with(e),
    {
        let mut errors = Vec::new();
        errors.push(e);
        Outcome { result: None, errors, warnings: Vec::new() }
    }

    /// No result, and the warning `w` to report.
    pub fn new_warn(w: TypeWarning) -> (r: Outcome<A>)
        ensures
            r@ == OutcomeView::<A>::warn_with(w),
    {
        let mut warnings = Vec::new();
        warnings.push(w);
        Outcome { result: None, errors: Vec::new(), warnings }
    }

    /// Goes on with the result `a`, keeping what was found so far.
    pub fn recover_to(self, a: A) -> (r: Outcome<A>)
        ensures
            r@ == self@.recover_to(a),
    {
        Outcome { result: Some(a), errors: self.errors, warnings: self.warnings }
    }

    /// Changes the result by `f`, where there is one.
    pub fn map<B, F: FnOnce(A) -> B>(self, f: F) -> (r: Outcome<B>)
        requires
            self.result matches Some(a) ==> call_requires(f, (a,)),
        ensures
            match self.result {
                Some(a) => {
                    &&& r.result matches Some(b)
                    &&& call_ensures(f, (a,), b)
                    &&& r.errors@ == self.errors@
                    &&& r.warnings@ == self.warnings@
                },
                None => r@ == self@.without_result::<B>(),
            },
    {
        match self.result {
            Some(t) => Outcome { result: Some(f(t)), errors: self.errors, warnings: self.warnings },
            None => Outcome { result: None, errors: self.errors, warnings: self.warnings },
        }
    }

    /// Sequencing: hands the result, where there is one, to `f`, and adds
    /// what `f` found to what was found so far. Without a result `f` is not
    /// called.
    pub fn and_then<B, F: FnOnce(A) -> Outcome<B>>(self, f: F) -> (r: Outcome<B>)
        requires
            self.result matches Some(a) ==> call_requires(f, (a,)),
        ensures
            match self.result {
                Some(a) => exists|next: Outcome<B>| #[trigger]
                    call_ensures(f, (a,), next) && r@ == self@.followed_by(next@),
                None => r@ == self@.without_result::<B>(),
            },
    {
        let mut errors = self.errors;
        let mut warnings = self.warnings;
        match self.result {
            Some(o) => {
                let mut outcome = f(o);
                errors.append(&mut outcome.errors);
                warnings.append(&mut outcome.warnings);
                Outcome { result: outcome.result, errors, warnings }
            },
            None => Outcome { result: None, errors, warnings },
        }
    }

    /// Both at once: keeps what both sides found, and pairs the results
    /// where both sides have one.
    pub fn and_zip<B>(self, other: Outcome<B>) -> (r: Outcome<(A, B)>)
        ensures
            r@ == self@.zip(other@),
    {
        let mut errors = self.errors;
        let mut warnings = self.warnings;
        let mut other_errors = other.errors;
        let mut other_warnings = other.warnings;
        errors.append(&mut other_errors);
        warnings.append(&mut other_warnings);
        match (self.result, other.result) {
            (Some(l), Some(r)) => Outcome { result: Some((l, r)), errors, warnings },
            (_, _) => Outcome { result: None, errors, warnings },
        }
    }
}

/// What a pass makes of an annotation, once the annotated term has the
/// type `got`: nothing where the two agree, one error where they do not.
pub open spec fn annotation_outcome(got: JustType, ty: Type<Span>) -> OutcomeView<JustType> {
    if got.same_kind(ty) {
        OutcomeView::empty()
    } else {
        OutcomeView::fail_with(
            TypeError::AnnotationIncorrect {
                span: ty.spec_extra(),
                got,
                annotation: ty.spec_strip(),
            },
        )
    }
}

/// What a pass makes of the condition `cond` of an `if`, once it has
/// the type `got`: an error where it is no boolean, a warning where it is a
/// literal, else nothing.
pub open spec fn condition_outcome(cond: SpanExpr, got: JustType) -> OutcomeView<JustType> {
    if got is Bool {
        match cond {
            Expr::BoolLit(span, value) => OutcomeView::warn_with(
                TypeWarning::CondAlways { span, value },
            ),
            _ => OutcomeView::empty(),
        }
    } else {
        OutcomeView::fail_with(TypeError::IfCondMustBeBool { end: cond.spec_extra().1, got })
    }
}

/// What a pass makes of the branches of the `if` written at `extra`,
/// once they have the types `first` and `second`: their type where they
/// agree, one error and no type where they do not.
pub open spec fn branches_outcome(extra: Span, first: JustType, second: JustType) -> OutcomeView<
    JustType,
> {
    if first.same_kind(second) {
        OutcomeView::succeed(first)
    } else {
        OutcomeView::fail_with(TypeError::IfBranchesMustBeSame { start: extra.0, first, second })
    }
}

/// The type of a term and the diagnostics of the pass over it.
///
/// A literal has its type. An annotated term has the annotated type, whatever
/// the term's own type is; a disagreement is one error. The condition of an
/// `if` is taken for a boolean whatever it is, so that both branches are
/// always looked at and what is found in them is always kept; branches of
/// different types leave the `if` without a type.
pub open spec fn infer_spec(e: SpanExpr) -> OutcomeView<JustType>
    decreases e,
{
    match e {
        Expr::IntLit(_, _) => OutcomeView::succeed(Type::Int(())),
        Expr::BoolLit(_, _) => OutcomeView::succeed(Type::Bool(())),
        Expr::TypeAnno { term, ty, .. } => infer_spec(*term).bind(
            |got: JustType| annotation_outcome(got, ty),
        ).recover_to(ty.spec_strip()),
        Expr::IfFlow { extra, cond, on_true, on_false } => {
            let branches = infer_spec(*on_true).zip(infer_spec(*on_false));
            infer_spec(*cond).bind(|got: JustType| condition_outcome(*cond, got)).recover_to(
                Type::Bool(()),
            ).bind(|cond_ty: JustType| branches).bind(
                |both: (JustType, JustType)| branches_outcome(extra, both.0, both.1),
            )
        },
    }
}

/// Infers the type of `e`, collecting every error and warning on the way.
pub fn infer(e: &SpanExpr) -> (r: Outcome<JustType>)
    ensures
        r@ == infer_spec(*e),
    decreases e,
{
    match e {
        Expr::IntLit(_, _) => Outcome::new(Type::Int(())),
        Expr::BoolLit(_, _) => Outcome::new(Type::Bool(())),
        Expr::TypeAnno { term, ty, .. } => {
            let check_annotation = |term_ty: JustType| -> (o: Outcome<JustType>)
                ensures
                    o@ == annotation_outcome(term_ty, *ty),
                {
                    // Does the annotation match the inferred type?
                    if term_ty == ty.strip() {
                        Outcome::new_empty()
                    } else {
                        Outcome::new_err(
                            TypeError::AnnotationIncorrect {
                                span: *ty.extra(),
                                got: term_ty,
                                annotation: ty.strip(),
                            },
                        )
                    }
                };
            // Recover to the annotated type no matter what
            infer(term).and_then(check_annotation).recover_to(ty.strip())
        },
        Expr::IfFlow { cond, on_true, on_false, extra } => {
            let check_condition = |ty: JustType| -> (o: Outcome<JustType>)
                ensures
                    o@ == condition_outcome(**cond, ty),
                {
                    // The condition has to be of the type `bool`
                    if ty == Type::Bool(()) {
                        match **cond {
                            Expr::BoolLit(span, b) => Outcome::new_warn(
                                TypeWarning::CondAlways { span, value: b },
                            ),
                            _ => Outcome::new_empty(),
                        }
                    } else {
                        Outcome::new_err(
                            TypeError::IfCondMustBeBool { end: cond.extra().1, got: ty },
                        )
                    }
                };
            let branches = infer(on_true).and_zip(infer(on_false));
            let ghost found = branches@;
            let check_branches = |both: (JustType, JustType)| -> (o: Outcome<JustType>)
                ensures
                    o@ == branches_outcome(*extra, both.0, both.1),
                {
                    let (first, second) = both;
                    if first == second {
                        Outcome::new(first)
                    } else {
                        Outcome::new_err(
                            TypeError::IfBranchesMustBeSame { start: extra.0, first, second },
                        )
                    }
                };
            infer(cond).and_then(check_condition).recover_to(Type::Bool(()))
                // Both branches are looked at whatever the condition was
                .and_then(move |cond_ty: JustType| -> (o: Outcome<(JustType, JustType)>)
                    ensures
                        o@ == found,
                    { branches })
                // Branches of different types: no telling which one is meant
                .and_then(check_branches)
        },
    }
}

/// What a pass over a term came to, as a value of mathematics.
pub struct CheckResultView {
    pub result: Result<JustType, Seq<TypeError>>,
    pub warnings: Seq<TypeWarning>,
}

/// What a pass over a term came to: its type, or else every error found; and
/// in both cases every warning found.
#[derive(Debug)]
pub struct CheckResult {
    pub result: Result<JustType, Vec<TypeError>>,
    pub warnings: Vec<TypeWarning>,
}

impl View for CheckResult {
    type V = CheckResultView;

    open spec fn view(&self) -> CheckResultView {
        CheckResultView {
            result: match self.result {
                Ok(ty) => Ok(ty),
                Err(errors) => Err(errors@),
            },
            warnings: self.warnings@,
        }
    }
}

impl Clone for CheckResult {
    fn clone(&self) -> (r: Self)
        ensures
            r@ == self@,
    {
        let warnings = self.warnings.clone();
        match &self.result {
            Ok(ty) => CheckResult { result: Ok(*ty), warnings },
            Err(errors) => {
                let errors = errors.clone();
                CheckResult { result: Err(errors), warnings }
            },
        }
    }
}

/// What a pass over `e` comes to. One error or more and the pass fails with
/// all of them, whether or not a type was arrived at; with none it succeeds
/// with the inferred type. The warnings are reported either way.
pub open spec fn check_spec(e: SpanExpr) -> CheckResultView {
    let inferred = infer_spec(e);
    CheckResultView {
        result: if inferred.errors.len() > 0 {
            Err(inferred.errors)
        } else {
            Ok(inferred.result->0)
        },
        warnings: inferred.warnings,
    }
}

/// A pass that met no error has arrived at a type.
pub proof fn lemma_no_error_has_type(e: SpanExpr)
    ensures
        infer_spec(e).errors.len() == 0 ==> infer_spec(e).result is Some,
    decreases e,
{
    match e {
        Expr::IfFlow { on_true, on_false, .. } => {
            lemma_no_error_has_type(*on_true);
            lemma_no_error_has_type(*on_false);
        },
        _ => {},
    }
}

/// Checks the types of `e`, and reports the type, or else the errors, with
/// the warnings.
pub fn check(e: &SpanExpr) -> (r: CheckResult)
    ensures
        r@ == check_spec(*e),
{
    let inferred = infer(e);
    // If there are any errors, then return only the errors
    if inferred.errors.len() > 0 {
        CheckResult { result: Err(inferred.errors), warnings: inferred.warnings }
    } else {
        proof {
            lemma_no_error_has_type(*e);
        }
        // A pass without errors always has a type
        CheckResult { result: Ok(inferred.result.unwrap()), warnings: inferred.warnings }
    }
}

/// The type that the shape of a term gives it: a literal's own, the
/// annotated one, the first branch's.
pub open spec fn nominal_type(e: SpanExpr) -> JustType
    decreases e,
{
    match e {
        Expr::IntLit(_, _) => Type::Int(()),
        Expr::BoolLit(_, _) => Type::Bool(()),
        Expr::TypeAnno { ty, .. } => ty.spec_strip(),
        Expr::IfFlow { on_true, .. } => nominal_type(*on_true),
    }
}

/// Whether nothing in a term gives rise to a diagnostic: every annotation
/// agrees with the term it is on, every condition is a boolean and no
/// literal, and the two branches of every `if` have the same type.
pub open spec fn flawless(e: SpanExpr) -> bool
    decreases e,
{
    match e {
        Expr::IntLit(_, _) => true,
        Expr::BoolLit(_, _) => true,
        Expr::TypeAnno { term, ty, .. } => {
            &&& flawless(*term)
            &&& nominal_type(*term).same_kind(ty)
        },
        Expr::IfFlow { cond, on_true, on_false, .. } => {
            &&& flawless(*cond)
            &&& nominal_type(*cond) is Bool
            &&& !(*cond is BoolLit)
            &&& flawless(*on_true)
            &&& flawless(*on_false)
            &&& nominal_type(*on_true).same_kind(nominal_type(*on_false))
        },
    }
}

/// Two types without annotations are equal exactly when they are the same
/// variant.
pub proof fn lemma_just_type_eq(a: JustType, b: JustType)
    ensures
        a.same_kind(b) <==> a == b,
{
    // There is one value of the unit type
    assert(a.spec_extra() == b.spec_extra());
}

/// A flawless term checks: the pass succeeds with the term's type, and has
/// neither an error nor a warning to report.
pub proof fn lemma_flawless_checks(e: SpanExpr)
    requires
        flawless(e),
    ensures
        infer_spec(e) == OutcomeView::succeed(nominal_type(e)),
        check_spec(e) == (CheckResultView { result: Ok(nominal_type(e)), warnings: seq![] }),
    decreases e,
{
    match e {
        Expr::IntLit(_, _) => {},
        Expr::BoolLit(_, _) => {},
        Expr::TypeAnno { term, .. } => {
            lemma_flawless_checks(*term);
        },
        Expr::IfFlow { cond, on_true, on_false, .. } => {
            lemma_flawless_checks(*cond);
            lemma_flawless_checks(*on_true);
            lemma_flawless_checks(*on_false);
        },
    }
}

/// A pass that met no error has arrived at the type that the shape of the
/// term gives it.
pub proof fn lemma_no_error_nominal_type(e: SpanExpr)
    requires
        infer_spec(e).errors.len() == 0,
    ensures
        infer_spec(e).result == Some(nominal_type(e)),
    decreases e,
{
    match e {
        Expr::IfFlow { on_true, on_false, .. } => {
            // Both branches have a type, and that of the `if` is the first's
            lemma_no_error_has_type(*on_false);
            lemma_no_error_nominal_type(*on_true);
        },
        _ => {},
    }
}

/// A term whose pass has neither an error nor a warning to report is
/// flawless: with the law before, the flawless terms are exactly those that
/// check without a diagnostic.
pub proof fn lemma_silent_pass_is_flawless(e: SpanExpr)
    requires
        infer_spec(e).errors.len() == 0,
        infer_spec(e).warnings.len() == 0,
    ensures
        flawless(e),
    decreases e,
{
    match e {
        Expr::IntLit(_, _) => {},
        Expr::BoolLit(_, _) => {},
        Expr::TypeAnno { term, .. } => {
            lemma_no_error_nominal_type(*term);
            lemma_silent_pass_is_flawless(*term);
        },
        Expr::IfFlow { cond, on_true, on_false, .. } => {
            lemma_no_error_nominal_type(*cond);
            lemma_no_error_nominal_type(*on_true);
            lemma_no_error_nominal_type(*on_false);
            lemma_silent_pass_is_flawless(*cond);
            lemma_silent_pass_is_flawless(*on_true);
            lemma_silent_pass_is_flawless(*on_false);
        },
    }
}

/// The error that an annotation adds to those of the term it is on: one,
/// where the term has a type and it is another than the annotated one; else
/// none.
pub open spec fn annotation_errors(inner: OutcomeView<JustType>, ty: Type<Span>) -> Seq<
    TypeError,
> {
    match inner.result {
        Some(got) if !got.same_kind(ty) => seq![
            TypeError::AnnotationIncorrect {
                span: ty.spec_extra(),
                got,
                annotation: ty.spec_strip(),
            },
        ],
        _ => seq![],
    }
}

/// An annotated term always has the annotated type. To the diagnostics of the
/// term the annotation adds one error where the term's type is another than
/// the annotated one, and nothing else. So where the term itself is free of
/// errors, the pass succeeds with the annotated type if the two agree, and
/// fails with that one error if they do not.
pub proof fn lemma_annotation_wins(extra: Span, term: SpanExpr, ty: Type<Span>)
    ensures
        ({
            let inner = infer_spec(term);
            let outer = infer_spec(Expr::TypeAnno { extra, term: Box::new(term), ty });
            &&& outer.result == Some(ty.spec_strip())
            &&& outer.errors == inner.errors + annotation_errors(inner, ty)
            &&& outer.warnings == inner.warnings
        }),
        infer_spec(term).errors.len() == 0 ==> ({
            let inner = infer_spec(term);
            let checked = check_spec(Expr::TypeAnno { extra, term: Box::new(term), ty });
            &&& inner.result is Some
            &&& inner.result->0.same_kind(ty) ==> checked.result == Ok::<
                JustType,
                Seq<TypeError>,
            >(ty.spec_strip())
            &&& !inner.result->0.same_kind(ty) ==> checked.result == Err::<
                JustType,
                Seq<TypeError>,
            >(
                seq![
                    TypeError::AnnotationIncorrect {
                        span: ty.spec_extra(),
                        got: inner.result->0,
                        annotation: ty.spec_strip(),
                    },
                ],
            )
        }),
{
    lemma_no_error_has_type(term);
}

/// An `if` whose condition is a boolean literal always gives the warning that
/// names the literal: it is the first warning of the `if`, and the others are
/// those of the two branches, whatever the types of the branches are.
pub proof fn lemma_literal_condition_warns(
    extra: Span,
    span: Span,
    value: bool,
    on_true: SpanExpr,
    on_false: SpanExpr,
)
    ensures
        ({
            let e = Expr::IfFlow {
                extra,
                cond: Box::new(Expr::BoolLit(span, value)),
                on_true: Box::new(on_true),
                on_false: Box::new(on_false),
            };
            let expected = seq![TypeWarning::CondAlways { span, value }] + infer_spec(
                on_true,
            ).warnings + infer_spec(on_false).warnings;
            &&& infer_spec(e).warnings == expected
            &&& check_spec(e).warnings == expected
        }),
{
    // The condition, a literal, is a boolean without diagnostics of its own
    assert(infer_spec(Expr::BoolLit(span, value)) == OutcomeView::succeed(Type::Bool(())));
}

/// The issues of `s` that are about the offset `at`, in the order in which
/// they stand in `s`.
pub open spec fn issues_at(s: Seq<TypeIssue>, at: usize) -> Seq<TypeIssue> {
    s.filter(|i: TypeIssue| i.spec_first_location() == at)
}

/// Whether the issues of `s` stand in ascending order of their offsets.
pub open spec fn ascending(s: Seq<TypeIssue>) -> bool {
    forall|i: int, j: int|
        0 <= i <= j < s.len() ==> s[i].spec_first_location() <= s[j].spec_first_location()
}

/// Whether `out` is `found` put in order for a reader: ascending by offset,
/// and, offset by offset, the same issues in the same order as in `found`.
pub open spec fn in_reading_order(out: Seq<TypeIssue>, found: Seq<TypeIssue>) -> bool {
    &&& ascending(out)
    &&& forall|at: usize| #[trigger] issues_at(out, at) == issues_at(found, at)
}

/// The diagnostics of one pass as one list: the warnings in the order in
/// which they were found, then the errors in the order in which they were
/// found.
pub open spec fn all_issues(errors: Seq<TypeError>, warnings: Seq<TypeWarning>) -> Seq<TypeIssue> {
    warnings.map_values(|w: TypeWarning| TypeIssue::Warning(w)) + errors.map_values(
        |e: TypeError| TypeIssue::Error(e),
    )
}

/// Where, in the ascending `s`, an issue about the offset `at` goes: behind
/// every issue that is about `at` or about an earlier offset.
fn insertion_point(s: &Vec<TypeIssue>, at: usize) -> (p: usize)
    requires
        ascending(s@),
    ensures
        p <= s.len(),
        forall|i: int| 0 <= i < p ==> s[i].spec_first_location() <= at,
        forall|i: int| p <= i < s.len() ==> s[i].spec_first_location() > at,
{
    let mut p: usize = 0;
    while p < s.len() && s[p].first_location() <= at
        invariant
            p <= s.len(),
            ascending(s@),
            forall|i: int| 0 <= i < p ==> s[i].spec_first_location() <= at,
        decreases s.len() - p,
    {
        p += 1;
    }
    p
}

/// Putting `x` into `s` at `p` puts it behind the issues of `s` that are
/// about the same offset, where those behind `p` are all about later ones; and
/// it leaves the issues about every other offset as they were.
proof fn lemma_insert_issues_at(s: Seq<TypeIssue>, p: int, x: TypeIssue, at: usize)
    requires
        0 <= p <= s.len(),
        forall|i: int| p <= i < s.len() ==> s[i].spec_first_location() > x.spec_first_location(),
    ensures
        issues_at(s.insert(p, x), at) == if x.spec_first_location() == at {
            issues_at(s, at).push(x)
        } else {
            issues_at(s, at)
        },
{
    let pred = |i: TypeIssue| i.spec_first_location() == at;
    let head = s.subrange(0, p);
    let tail = s.subrange(p, s.len() as int);
    assert(s =~= head + tail);
    assert(s.insert(p, x) =~= head + seq![x] + tail);
    assert(seq![x].filter(pred) =~= if pred(x) {
        seq![x]
    } else {
        seq![]
    }) by {
        Seq::<TypeIssue>::empty().lemma_filter_push(x, pred);
    }
    if x.spec_first_location() == at {
        tail.lemma_all_neg_filter_empty(pred);
    }
}

/// An ascending list with an issue about the offset `at` starts with an
/// issue about `at` or about an earlier offset.
proof fn lemma_first_is_least(s: Seq<TypeIssue>, at: usize)
    requires
        ascending(s),
        issues_at(s, at).len() > 0,
    ensures
        s.len() > 0,
        s[0].spec_first_location() <= at,
{
    let pred = |i: TypeIssue| i.spec_first_location() == at;
    let x = issues_at(s, at)[0];
    s.lemma_filter_contains_rev(pred, x);
}

/// There is one reading order: two ascending lists that hold, offset by
/// offset, the same issues in the same order are the same list.
pub proof fn lemma_reading_order_unique(a: Seq<TypeIssue>, b: Seq<TypeIssue>)
    requires
        ascending(a),
        ascending(b),
        forall|at: usize| #[trigger] issues_at(a, at) == issues_at(b, at),
    ensures
        a == b,
    decreases a.len(),
{
    if a.len() == 0 {
        if b.len() > 0 {
            let at = b[0].spec_first_location();
            b.lemma_filter_contains(|i: TypeIssue| i.spec_first_location() == at, 0);
            assert(issues_at(a, at) == issues_at(b, at));
        }
    } else {
        let ka = a[0].spec_first_location();
        a.lemma_filter_contains(|i: TypeIssue| i.spec_first_location() == ka, 0);
        assert(issues_at(a, ka) == issues_at(b, ka));
        lemma_first_is_least(b, ka);
        let kb = b[0].spec_first_location();
        b.lemma_filter_contains(|i: TypeIssue| i.spec_first_location() == kb, 0);
        lemma_first_is_least(a, kb);
        let rest_a = a.drop_first();
        let rest_b = b.drop_first();
        assert(a =~= seq![a[0]] + rest_a);
        assert(b =~= seq![b[0]] + rest_b);
        assert forall|at: usize| #[trigger] issues_at(rest_a, at) == issues_at(rest_b, at) by {
            let pred = |i: TypeIssue| i.spec_first_location() == at;
            rest_a.lemma_filter_prepend(a[0], pred);
            rest_b.lemma_filter_prepend(b[0], pred);
            assert(issues_at(a, at) == issues_at(b, at));
            if at == ka {
                // Both lists start with an issue about `ka`: without it the
                // issues about `ka` are still the same
                let fa = seq![a[0]] + rest_a.filter(pred);
                let fb = seq![b[0]] + rest_b.filter(pred);
                assert(rest_a.filter(pred) =~= fa.drop_first());
                assert(rest_b.filter(pred) =~= fb.drop_first());
            }
        }
        assert(a[0] == b[0]) by {
            let pred = |i: TypeIssue| i.spec_first_location() == ka;
            rest_a.lemma_filter_prepend(a[0], pred);
            rest_b.lemma_filter_prepend(b[0], pred);
            let fa = seq![a[0]] + rest_a.filter(pred);
            let fb = seq![b[0]] + rest_b.filter(pred);
            assert(fa[0] == a[0]);
            assert(fb[0] == b[0]);
        }
        lemma_reading_order_unique(rest_a, rest_b);
    }
}

/// Putting issues in order adds none and drops none: each issue of the one
/// list is an issue of the other.
pub proof fn lemma_reading_order_keeps_issues(out: Seq<TypeIssue>, found: Seq<TypeIssue>, i: int)
    requires
        in_reading_order(out, found),
    ensures
        0 <= i < out.len() ==> found.contains(out[i]),
        0 <= i < found.len() ==> out.contains(found[i]),
{
    if 0 <= i < out.len() {
        let at = out[i].spec_first_location();
        let pred = |x: TypeIssue| x.spec_first_location() == at;
        out.lemma_filter_contains(pred, i);
        assert(issues_at(out, at) == issues_at(found, at));
        found.lemma_filter_contains_rev(pred, out[i]);
    }
    if 0 <= i < found.len() {
        let at = found[i].spec_first_location();
        let pred = |x: TypeIssue| x.spec_first_location() == at;
        found.lemma_filter_contains(pred, i);
        assert(issues_at(out, at) == issues_at(found, at));
        out.lemma_filter_contains_rev(pred, found[i]);
    }
}

/// Puts the issues in order for a reader: ascending by the offset that each
/// is about, those about one offset in the order in which they came.
pub fn sort_issues(issues: Vec<TypeIssue>) -> (r: Vec<TypeIssue>)
    ensures
        in_reading_order(r@, issues@),
{
    let mut out: Vec<TypeIssue> = Vec::new();
    let mut n: usize = 0;
    proof {
        assert(issues@.take(0) =~= out@);
    }
    while n < issues.len()
        invariant
            n <= issues.len(),
            in_reading_order(out@, issues@.take(n as int)),
        decreases issues.len() - n,
    {
        let x = issues[n];
        let p = insertion_point(&out, x.first_location());
        proof {
            let before = out@;
            let found = issues@.take(n as int);
            assert(issues@.take(n + 1) =~= found.push(x));
            assert forall|at: usize| #[trigger]
                issues_at(before.insert(p as int, x), at) == issues_at(found.push(x), at) by {
                lemma_insert_issues_at(before, p as int, x, at);
                found.lemma_filter_push(x, |i: TypeIssue| i.spec_first_location() == at);
            }
        }
        out.insert(p, x);
        n += 1;
    }
    proof {
        assert(issues@.take(n as int) =~= issues@);
    }
    out
}

impl CheckResult {
    /// Every diagnostic of the pass, in order for a reader: ascending by the
    /// offset that each is about; of those about one offset the warnings
    /// first, then the errors, each kind in the order in which it was found.
    pub fn issues(&self) -> (r: Vec<TypeIssue>)
        ensures
            in_reading_order(
                r@,
                all_issues(
                    match self@.result {
                        Ok(_) => seq![],
                        Err(errors) => errors,
                    },
                    self@.warnings,
                ),
            ),
    {
        let mut found: Vec<TypeIssue> = Vec::new();
        let mut n: usize = 0;
        while n < self.warnings.len()
            invariant
                n <= self.warnings.len(),
                found@ == self.warnings@.take(n as int).map_values(
                    |w: TypeWarning| TypeIssue::Warning(w),
                ),
            decreases self.warnings.len() - n,
        {
            found.push(TypeIssue::Warning(self.warnings[n]));
            n += 1;
        }
        proof {
            assert(self.warnings@.take(n as int) =~= self.warnings@);
        }
        if let Err(errors) = &self.result {
            let ghost first = found@;
            let mut m: usize = 0;
            while m < errors.len()
                invariant
                    m <= errors.len(),
                    found@ == first + errors@.take(m as int).map_values(
                        |e: TypeError| TypeIssue::Error(e),
                    ),
                decreases errors.len() - m,
            {
                found.push(TypeIssue::Error(errors[m]));
                m += 1;
            }
            proof {
                assert(errors@.take(m as int) =~= errors@);
            }
        }
        sort_issues(found)
    }
}

} // verus!
