//! The terms and types of the language, with annotations of any kind on
//! their nodes; and how a term is written.

use crate::text::{bool_text, decimal, push_decimal, push_repeated, repeated};
use vstd::prelude::*;
use vstd::std_specs::cmp::PartialEqSpecImpl;
use vstd::string::StringExecFns;

verus! {

/// A region of the source text, as a pair of byte offsets: where it starts
/// and where it ends.
#[derive(Clone, Copy, Debug, PartialEq, Eq, Structural)]
pub struct Span(pub usize, pub usize);

/// A type of the language, carrying an annotation of any kind.
///
/// Two types are equal when they are the same variant; the annotation takes
/// no part in the comparison.
#[derive(Debug)]
pub enum Type<T> {
    Int(T),
    Bool(T),
}

/// A type with nothing attached to it.
pub type JustType = Type<()>;

impl<T> Type<T> {
    /// Whether the two types are the same variant, whatever they carry.
    pub open spec fn same_kind<U>(self, other: Type<U>) -> bool {
        (self is Int) == (other is Int)
    }

    /// The type without its annotation.
    pub open spec fn spec_strip(&self) -> JustType {
        match self {
            Type::Int(_) => Type::Int(()),
            Type::Bool(_) => Type::Bool(()),
        }
    }

    /// The annotation.
    pub open spec fn spec_extra(self) -> T {
        match self {
            Type::Int(e) => e,
            Type::Bool(e) => e,
        }
    }

    /// The type without its annotation.
    #[verifier::when_used_as_spec(spec_strip)]
    pub fn strip(&self) -> (r: JustType)
        ensures
            r == self.spec_strip(),
    {
        match self {
            Type::Int(_) => Type::Int(()),
            Type::Bool(_) => Type::Bool(()),
        }
    }

    /// The annotation.
    pub fn extra(&self) -> (r: &T)
        ensures
            *r == self.spec_extra(),
    {
        match self {
            Type::Int(e) => e,
            Type::Bool(e) => e,
        }
    }

    /// How the type is written in the language.
    pub open spec fn name(self) -> Seq<char> {
        match self {
            Type::Int(_) => "int"@,
            Type::Bool(_) => "bool"@,
        }
    }

    /// The type as it is written in the language.
    pub fn to_string(&self) -> (r: String)
        ensures
            r@ == self.name(),
    {
        match self {
            Type::Int(_) => String::from_str("int"),
            Type::Bool(_) => String::from_str("bool"),
        }
    }

    /// The same type with the annotation that `f` makes of its annotation.
    pub fn map_extra<U, F: Fn(&T) -> U>(&self, f: &F) -> (r: Type<U>)
        requires
            call_requires(*f, (&self.spec_extra(),)),
        ensures
            r.same_kind(*self),
            call_ensures(*f, (&self.spec_extra(),), r.spec_extra()),
    {
        match self {
            Type::Int(extra) => Type::Int(f(extra)),
            Type::Bool(extra) => Type::Bool(f(extra)),
        }
    }
}

impl<T: Clone> Clone for Type<T> {
    fn clone(&self) -> (r: Self)
        ensures
            r.same_kind(*self),
            cloned(self.spec_extra(), r.spec_extra()),
    {
        match self {
            Type::Int(e) => Type::Int(e.clone()),
            Type::Bool(e) => Type::Bool(e.clone()),
        }
    }
}

impl<T: Copy> Copy for Type<T> {}

impl<T> PartialEq for Type<T> {
    fn eq(&self, other: &Self) -> (r: bool) {
        match (self, other) {
            (Self::Int(_), Self::Int(_)) => true,
            (Self::Bool(_), Self::Bool(_)) => true,
            _ => false,
        }
    }
}

impl<T> PartialEqSpecImpl for Type<T> {
    open spec fn obeys_eq_spec() -> bool {
        true
    }

    open spec fn eq_spec(&self, other: &Self) -> bool {
        self.same_kind(*other)
    }
}

impl<T> Eq for Type<T> {}

/// A term of the language, each node carrying an annotation of any kind.
#[derive(Debug)]
pub enum Expr<T> {
    IntLit(T, i64),
    BoolLit(T, bool),
    TypeAnno { extra: T, term: Box<Expr<T>>, ty: Type<T> },
    IfFlow { extra: T, cond: Box<Expr<T>>, on_true: Box<Expr<T>>, on_false: Box<Expr<T>> },
}

/// A term with nothing attached to its nodes.
pub type JustExpr = Expr<()>;

/// A type that remembers where in the source it was written.
pub type SpanType = Type<Span>;

/// A term that remembers where in the source each node was written.
pub type SpanExpr = Expr<Span>;

impl<T> Expr<T> {
    /// The annotation of the topmost node.
    pub open spec fn spec_extra(self) -> T {
        match self {
            Expr::IntLit(extra, _) => extra,
            Expr::BoolLit(extra, _) => extra,
            Expr::TypeAnno { extra, .. } => extra,
            Expr::IfFlow { extra, .. } => extra,
        }
    }

    /// Whether `f` may be called on the annotation of every node and of every
    /// type written in the term.
    pub open spec fn accepted_by<U, F: Fn(&T) -> U>(self, f: F) -> bool
        decreases self,
    {
        match self {
            Expr::IntLit(extra, _) => call_requires(f, (&extra,)),
            Expr::BoolLit(extra, _) => call_requires(f, (&extra,)),
            Expr::TypeAnno { extra, term, ty } => {
                &&& call_requires(f, (&extra,))
                &&& term.accepted_by(f)
                &&& call_requires(f, (&ty.spec_extra(),))
            },
            Expr::IfFlow { extra, cond, on_true, on_false } => {
                &&& call_requires(f, (&extra,))
                &&& cond.accepted_by(f)
                &&& on_true.accepted_by(f)
                &&& on_false.accepted_by(f)
            },
        }
    }

    /// Whether `out` is this term with each annotation replaced by something
    /// that `f` may return for it: the same nodes, the same literals, the same
    /// kinds of types.
    pub open spec fn mapped_by<U, F: Fn(&T) -> U>(self, f: F, out: Expr<U>) -> bool
        decreases self,
    {
        match self {
            Expr::IntLit(extra, n) => {
                &&& out matches Expr::IntLit(e, m)
                &&& m == n
                &&& call_ensures(f, (&extra,), e)
            },
            Expr::BoolLit(extra, b) => {
                &&& out matches Expr::BoolLit(e, c)
                &&& c == b
                &&& call_ensures(f, (&extra,), e)
            },
            Expr::TypeAnno { extra, term, ty } => {
                &&& out matches Expr::TypeAnno { extra: e, term: t, ty: y }
                &&& call_ensures(f, (&extra,), e)
                &&& term.mapped_by(f, *t)
                &&& y.same_kind(ty)
                &&& call_ensures(f, (&ty.spec_extra(),), y.spec_extra())
            },
            Expr::IfFlow { extra, cond, on_true, on_false } => {
                &&& out matches Expr::IfFlow { extra: e, cond: c, on_true: t, on_false: g }
                &&& call_ensures(f, (&extra,), e)
                &&& cond.mapped_by(f, *c)
                &&& on_true.mapped_by(f, *t)
                &&& on_false.mapped_by(f, *g)
            },
        }
    }

    /// The term without its annotations.
    pub open spec fn erased(self) -> JustExpr
        decreases self,
    {
        match self {
            Expr::IntLit(_, n) => Expr::IntLit((), n),
            Expr::BoolLit(_, b) => Expr::BoolLit((), b),
            Expr::TypeAnno { term, ty, .. } => Expr::TypeAnno {
                extra: (),
                term: Box::new(term.erased()),
                ty: ty.spec_strip(),
            },
            Expr::IfFlow { cond, on_true, on_false, .. } => Expr::IfFlow {
                extra: (),
                cond: Box::new(cond.erased()),
                on_true: Box::new(on_true.erased()),
                on_false: Box::new(on_false.erased()),
            },
        }
    }

    /// The annotation of the topmost node.
    pub fn extra(&self) -> (r: &T)
        ensures
            *r == self.spec_extra(),
    {
        match self {
            Expr::IntLit(extra, _) => extra,
            Expr::BoolLit(extra, _) => extra,
            Expr::TypeAnno { extra, .. } => extra,
            Expr::IfFlow { extra, .. } => extra,
        }
    }

    /// The same term with, on every node and every type written in it, the
    /// annotation that `f` makes of the one that was there.
    pub fn map_extra<U, F: Fn(&T) -> U>(&self, f: &F) -> (r: Expr<U>)
        requires
            self.accepted_by(*f),
        ensures
            self.mapped_by(*f, r),
        decreases self,
    {
        match self {
            Expr::IntLit(extra, n) => Expr::IntLit(f(extra), *n),
            Expr::BoolLit(extra, b) => Expr::BoolLit(f(extra), *b),
            Expr::TypeAnno { extra, term, ty } => Expr::TypeAnno {
                extra: f(extra),
                term: Box::new(term.map_extra(f)),
                ty: ty.map_extra(f),
            },
            Expr::IfFlow { extra, cond, on_true, on_false } => Expr::IfFlow {
                extra: f(extra),
                cond: Box::new(cond.map_extra(f)),
                on_true: Box::new(on_true.map_extra(f)),
                on_false: Box::new(on_false.map_extra(f)),
            },
        }
    }
}

/// A function that may be called on every annotation may be called on those
/// of any term.
pub proof fn lemma_total_function_is_accepted<T, U, F: Fn(&T) -> U>(e: Expr<T>, f: F)
    requires
        forall|x: T| call_requires(f, (&x,)),
    ensures
        e.accepted_by(f),
    decreases e,
{
    match e {
        Expr::TypeAnno { term, .. } => {
            lemma_total_function_is_accepted(*term, f);
        },
        Expr::IfFlow { cond, on_true, on_false, .. } => {
            lemma_total_function_is_accepted(*cond, f);
            lemma_total_function_is_accepted(*on_true, f);
            lemma_total_function_is_accepted(*on_false, f);
        },
        _ => {},
    }
}

/// Replacing every annotation by nothing erases them, whatever function does
/// it: there is one value to replace them by.
pub proof fn lemma_map_to_unit_erases<T, F: Fn(&T) -> ()>(e: Expr<T>, f: F, out: JustExpr)
    requires
        e.mapped_by(f, out),
    ensures
        out == e.erased(),
    decreases e,
{
    match (e, out) {
        (Expr::TypeAnno { term, .. }, Expr::TypeAnno { term: t, .. }) => {
            lemma_map_to_unit_erases(*term, f, *t);
        },
        (
            Expr::IfFlow { cond, on_true, on_false, .. },
            Expr::IfFlow { cond: c, on_true: t, on_false: g, .. },
        ) => {
            lemma_map_to_unit_erases(*cond, f, *c);
            lemma_map_to_unit_erases(*on_true, f, *t);
            lemma_map_to_unit_erases(*on_false, f, *g);
        },
        _ => {},
    }
}

impl<T: Clone> Expr<T> {
    /// Whether `other` is a copy of this term: the same nodes, the same
    /// literals, the same kinds of types, and each annotation a clone of the
    /// one in its place.
    pub open spec fn cloned_as(self, other: Expr<T>) -> bool
        decreases self,
    {
        match self {
            Expr::IntLit(extra, n) => {
                &&& other matches Expr::IntLit(e, m)
                &&& m == n
                &&& cloned(extra, e)
            },
            Expr::BoolLit(extra, b) => {
                &&& other matches Expr::BoolLit(e, c)
                &&& c == b
                &&& cloned(extra, e)
            },
            Expr::TypeAnno { extra, term, ty } => {
                &&& other matches Expr::TypeAnno { extra: e, term: t, ty: y }
                &&& cloned(extra, e)
                &&& term.cloned_as(*t)
                &&& y.same_kind(ty)
                &&& cloned(ty.spec_extra(), y.spec_extra())
            },
            Expr::IfFlow { extra, cond, on_true, on_false } => {
                &&& other matches Expr::IfFlow { extra: e, cond: c, on_true: t, on_false: g }
                &&& cloned(extra, e)
                &&& cond.cloned_as(*c)
                &&& on_true.cloned_as(*t)
                &&& on_false.cloned_as(*g)
            },
        }
    }
}

impl<T: Clone> Clone for Expr<T> {
    fn clone(&self) -> (r: Self)
        ensures
            self.cloned_as(r),
        decreases self,
    {
        match self {
            Expr::IntLit(extra, n) => Expr::IntLit(extra.clone(), *n),
            Expr::BoolLit(extra, b) => Expr::BoolLit(extra.clone(), *b),
            Expr::TypeAnno { extra, term, ty } => Expr::TypeAnno {
                extra: extra.clone(),
                term: Box::new((**term).clone()),
                ty: ty.clone(),
            },
            Expr::IfFlow { extra, cond, on_true, on_false } => Expr::IfFlow {
                extra: extra.clone(),
                cond: Box::new((**cond).clone()),
                on_true: Box::new((**on_true).clone()),
                on_false: Box::new((**on_false).clone()),
            },
        }
    }
}

/// A copy of a term that remembers its places in the source is the term
/// itself.
pub proof fn lemma_span_expr_clone(e: SpanExpr, copy: SpanExpr)
    requires
        e.cloned_as(copy),
    ensures
        copy == e,
    decreases e,
{
    match (e, copy) {
        (Expr::TypeAnno { term, .. }, Expr::TypeAnno { term: t, .. }) => {
            lemma_span_expr_clone(*term, *t);
        },
        (
            Expr::IfFlow { cond, on_true, on_false, .. },
            Expr::IfFlow { cond: c, on_true: t, on_false: g, .. },
        ) => {
            lemma_span_expr_clone(*cond, *c);
            lemma_span_expr_clone(*on_true, *t);
            lemma_span_expr_clone(*on_false, *g);
        },
        _ => {},
    }
}

/// A term as it is written in the language, where it stands `indent` levels
/// deep. An `if` takes five lines; its branches stand one level deeper, and
/// each level is one tab.
pub open spec fn pretty<T>(e: Expr<T>, indent: nat) -> Seq<char>
    decreases e,
{
    match e {
        Expr::IntLit(_, n) => decimal(n as int),
        Expr::BoolLit(_, b) => bool_text(b),
        Expr::TypeAnno { term, ty, .. } => pretty(*term, indent) + ": "@ + ty.name(),
        Expr::IfFlow { cond, on_true, on_false, .. } => {
            let indents = repeated("\t"@, indent);
            "if "@ + pretty(*cond, indent) + " then\n"@ + indents + "\t"@ + pretty(
                *on_true,
                indent + 1,
            ) + "\n"@ + indents + "else\n"@ + indents + "\t"@ + pretty(*on_false, indent + 1)
                + "\n"@ + indents + "end"@
        },
    }
}

/// Appends to `out` the term `e` as it is written `indent` levels deep;
/// `indents` is the indentation of that level.
fn pretty_into<T>(e: &Expr<T>, indents: &String, Ghost(indent): Ghost<nat>, out: &mut String)
    requires
        indents@ == repeated("\t"@, indent),
    ensures
        final(out)@ == old(out)@ + pretty(*e, indent),
    decreases e,
{
    match e {
        Expr::IntLit(_, n) => {
            push_decimal(out, *n);
        },
        Expr::BoolLit(_, b) => {
            if *b {
                out.append("true");
            } else {
                out.append("false");
            }
        },
        Expr::TypeAnno { term, ty, .. } => {
            pretty_into(term, indents, Ghost(indent), out);
            out.append(": ");
            match ty {
                Type::Int(_) => out.append("int"),
                Type::Bool(_) => out.append("bool"),
            }
            proof {
                assert(final(out)@ =~= old(out)@ + pretty(*e, indent));
            }
        },
        Expr::IfFlow { cond, on_true, on_false, .. } => {
            let mut deeper = indents.clone();
            deeper.append("\t");
            out.append("if ");
            pretty_into(cond, indents, Ghost(indent), out);
            out.append(" then\n");
            out.append(indents.as_str());
            out.append("\t");
            pretty_into(on_true, &deeper, Ghost(indent + 1), out);
            out.append("\n");
            out.append(indents.as_str());
            out.append("else\n");
            out.append(indents.as_str());
            out.append("\t");
            pretty_into(on_false, &deeper, Ghost(indent + 1), out);
            out.append("\n");
            out.append(indents.as_str());
            out.append("end");
        },
    }
}

/// The term `e` as it is written in the language, `indent` levels deep.
pub fn pretty_expr<T>(e: &Expr<T>, indent: usize) -> (r: String)
    ensures
        r@ == pretty(*e, indent as nat),
{
    let mut indents = String::new();
    push_repeated(&mut indents, "\t", indent);
    let mut out = String::new();
    pretty_into(e, &indents, Ghost(indent as nat), &mut out);
    out
}

impl<T> Expr<T> {
    /// The term as it is written in the language.
    pub fn to_string(&self) -> (r: String)
        ensures
            r@ == pretty(*self, 0),
    {
        pretty_expr(self, 0)
    }
}

} // verus!
