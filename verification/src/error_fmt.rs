//! Reports for a reader: what is wrong, and the line of the source with a
//! pointer at the place. Titles and pointers are coloured where the terminal
//! takes colours.

use crate::ast::JustType;
use crate::syntax::{Expected, ParseError, Token, UserError};
use crate::text::{bool_text, decimal, digits, push_decimal, push_digits, push_repeated, repeated};
use crate::type_check::{TypeError, TypeIssue, TypeWarning};
use colored::Colorize;
use vstd::prelude::*;
use vstd::string::{StrSliceExecFns, StringExecFns, StringSliceAdditionalSpecFns};
use vstd::utf8::encode_utf8;

verus! {

/// How many bytes each line of a text takes, the line break not counted.
pub open spec fn line_lengths(source: Seq<String>) -> Seq<nat> {
    Seq::new(source.len(), |i: int| encode_utf8(source[i]@).len())
}

/// The offset at which line `i` starts, in a text whose lines have the
/// lengths `lens` and are parted by one byte each.
pub open spec fn line_start(lens: Seq<nat>, i: int) -> int
    decreases i,
{
    if i <= 0 {
        0
    } else {
        line_start(lens, i - 1) + lens[i - 1] + 1
    }
}

/// Whether `point` is where the offset `l` lies: a line and a place in it,
/// both counted from 0. The end of a line, where its line break stands,
/// belongs to the line. An offset behind the text lies at the end of the last
/// line.
pub open spec fn is_point_of(lens: Seq<nat>, l: int, point: (int, int)) -> bool {
    let (line, column) = point;
    &&& 0 <= line < lens.len()
    &&& 0 <= column <= lens[line]
    &&& if l < line_start(lens, lens.len() as int) {
        line_start(lens, line) + column == l
    } else {
        line == lens.len() - 1 && column == lens[line]
    }
}

/// Later lines start later: each starts behind the end of the one before.
pub proof fn lemma_line_start_grows(lens: Seq<nat>, i: int, j: int)
    requires
        0 <= i < j <= lens.len(),
    ensures
        line_start(lens, i) + lens[i] < line_start(lens, j),
    decreases j - i,
{
    if i + 1 < j {
        lemma_line_start_grows(lens, i, j - 1);
    }
}

/// An offset lies at one point only.
pub proof fn lemma_point_unique(lens: Seq<nat>, l: int, p: (int, int), q: (int, int))
    requires
        is_point_of(lens, l, p),
        is_point_of(lens, l, q),
    ensures
        p == q,
{
    if p.0 < q.0 {
        lemma_line_start_grows(lens, p.0, q.0);
    } else if q.0 < p.0 {
        lemma_line_start_grows(lens, q.0, p.0);
    }
}

/// The point at which the offset `l` lies.
pub open spec fn point_of(lens: Seq<nat>, l: int) -> (int, int) {
    choose|point: (int, int)| is_point_of(lens, l, point)
}

/// Finds the line and the place in it at which the offset `l` lies, in a
/// text given line by line.
pub fn loc_to_pnt(source: &Vec<String>, l: usize) -> (point: (usize, usize))
    requires
        source.len() > 0,
    ensures
        is_point_of(line_lengths(source@), l as int, (point.0 as int, point.1 as int)),
        point_of(line_lengths(source@), l as int) == (point.0 as int, point.1 as int),
{
    let point = locate(source, l);
    proof {
        let lens = line_lengths(source@);
        lemma_point_unique(
            lens,
            l as int,
            (point.0 as int, point.1 as int),
            point_of(lens, l as int),
        );
    }
    point
}

/// Goes through the lines until the one on which the offset `l` lies.
fn locate(source: &Vec<String>, l: usize) -> (point: (usize, usize))
    requires
        source.len() > 0,
    ensures
        is_point_of(line_lengths(source@), l as int, (point.0 as int, point.1 as int)),
{
    let ghost lens = line_lengths(source@);
    let mut i: usize = 0;
    let mut rest: usize = l;
    loop
        invariant
            i < source.len(),
            lens == line_lengths(source@),
            line_start(lens, i as int) + rest == l,
        decreases source.len() - i,
    {
        let len = source[i].as_str().as_bytes().len();
        if rest <= len {
            proof {
                lemma_line_start_grows(lens, i as int, lens.len() as int);
            }
            return (i, rest);
        }
        // Behind the end of the text: the end of the last line
        if i + 1 == source.len() {
            return (i, len);
        }
        // `+ 1` for the line break, which the lines do not hold
        rest -= len + 1;
        i += 1;
    }
}

/// The texts of a list of strings.
pub open spec fn texts(names: Seq<String>) -> Seq<Seq<char>> {
    Seq::new(names.len(), |i: int| names[i]@)
}

/// A name without its first and last character, which are the quotes that
/// names of words are handed over in.
pub open spec fn unquoted(name: Seq<char>) -> Seq<char> {
    if name.len() >= 2 {
        name.subrange(1, name.len() - 1)
    } else {
        seq![]
    }
}

/// The names, each without its quotes and between backticks, with a comma and
/// a blank between one and the next.
pub open spec fn listed(names: Seq<Seq<char>>) -> Seq<char>
    decreases names.len(),
{
    if names.len() == 0 {
        seq![]
    } else if names.len() == 1 {
        "`"@ + unquoted(names[0]) + "`"@
    } else {
        listed(names.drop_last()) + ", "@ + "`"@ + unquoted(names.last()) + "`"@
    }
}

/// The words that would have been taken, as they are named in a report:
/// listed, and behind `one of ` where there are several.
pub open spec fn expected_text(names: Seq<Seq<char>>) -> Seq<char> {
    (if names.len() <= 1 {
        ""@
    } else {
        "one of "@
    }) + listed(names)
}

/// Names the words that would have been taken.
pub fn format_expected(expected: Vec<String>) -> (r: String)
    ensures
        r@ == expected_text(texts(expected@)),
{
    let mut out = String::new();
    if expected.len() > 1 {
        out.append("one of ");
    }
    let ghost lead = out@;
    let ghost names = texts(expected@);
    let mut i: usize = 0;
    while i < expected.len()
        invariant
            i <= expected.len(),
            names == texts(expected@),
            out@ == lead + listed(names.take(i as int)),
        decreases expected.len() - i,
    {
        if i > 0 {
            out.append(", ");
        }
        out.append("`");
        // Remove first and last character because names are wrapped in quotes
        let name = expected[i].as_str();
        let n = name.unicode_len();
        if n >= 2 {
            out.append(name.substring_char(1, n - 1));
        }
        out.append("`");
        i += 1;
        proof {
            assert(names.take(i as int).drop_last() =~= names.take(i - 1));
        }
    }
    proof {
        assert(names.take(i as int) =~= names);
        reveal_strlit("");
    }
    out
}

/// Whether a text is free of the escape character, with which the colour
/// codes of a terminal start.
pub open spec fn plain(text: Seq<char>) -> bool {
    forall|i: int| 0 <= i < text.len() ==> text[i] != '\u{1b}'
}

/// Whether `out` is `text` as it comes back from colouring: unchanged, where
/// colours are switched off; else between a colour code and the code that
/// ends all colours.
pub open spec fn painted(text: Seq<char>, out: Seq<char>) -> bool {
    out == text || exists|style: Seq<char>| out == #[trigger] (style + text) + "\u{1b}[0m"@
}

/// `colored::Colorize::bright_red`, and the coloured string written out.
/// Whether colours are on is for the environment to say, so the contract
/// covers both cases: the text comes back as it is, or between a colour code
/// and the code that resets. (A text that itself holds reset codes would be
/// changed inside; the escape character is therefore ruled out.)
#[verifier::external_body]
fn bright_red(text: &str) -> (out: String)
    requires
        plain(text@),
    ensures
        painted(text@, out@),
{
    text.bright_red().to_string()
}

/// `colored::Colorize::bright_blue`, and the coloured string written out;
/// with the same contract as for bright red.
#[verifier::external_body]
fn bright_blue(text: &str) -> (out: String)
    requires
        plain(text@),
    ensures
        painted(text@, out@),
{
    text.bright_blue().to_string()
}

/// `colored::Colorize::truecolor`, and the coloured string written out; with
/// the same contract as for bright red. Which code stands for the colour is
/// again for the environment to say.
#[verifier::external_body]
fn truecolor(text: &str, r: u8, g: u8, b: u8) -> (out: String)
    requires
        plain(text@),
    ensures
        painted(text@, out@),
{
    text.truecolor(r, g, b).to_string()
}

/// The colour of a report: of its title and of the pointer at the source.
#[derive(Clone, Copy, Debug, PartialEq, Eq, Structural)]
pub enum AccentColor {
    Error,
    Warning,
}

/// Colours a text as the accent asks: bright red for an error, orange for a
/// warning.
fn accent(color: AccentColor, text: &str) -> (out: String)
    requires
        plain(text@),
    ensures
        painted(text@, out@),
{
    match color {
        AccentColor::Error => bright_red(text),
        AccentColor::Warning => truecolor(text, 255, 165, 0),
    }
}

/// What stands in front of a line of the source that is shown: the number of
/// the line, counted from 0, a blank and a bar.
pub open spec fn gutter(line: int) -> Seq<char> {
    decimal(line) + " |"@
}

/// The carets that follow the first one, under a stretch that starts at the
/// column `from` and ends before the column `to`: one caret for each place
/// of the stretch but the first.
pub open spec fn more_carets(from: int, to: int) -> Seq<char> {
    repeated("^"@, if to - from <= 0 {
        0
    } else {
        (to - from - 1) as nat
    })
}

/// A line of the source with a pointer under it, put together from its
/// parts: what stands in front of the line, the line, and under it, `indent`
/// places in, the pointer in three parts.
pub open spec fn excerpt(
    front: Seq<char>,
    line: Seq<char>,
    indent: nat,
    head: Seq<char>,
    tail: Seq<char>,
    here: Seq<char>,
) -> Seq<char> {
    front + line + "\n"@ + repeated(" "@, indent) + head + tail + here
}

/// Whether `out` shows the place of the source that starts at the offset
/// `l1` and, where `l2` is given, ends before `l2`: the line, with its number
/// in front, and under it carets below the place and the word `here`. The
/// number, the carets and the word may each be coloured.
pub open spec fn is_excerpt_of(
    source: Seq<String>,
    l1: usize,
    l2: Option<usize>,
    out: Seq<char>,
) -> bool {
    let lens = line_lengths(source);
    let p1 = point_of(lens, l1 as int);
    let p2 = match l2 {
        Some(l) => point_of(lens, l as int),
        None => p1,
    };
    exists|front: Seq<char>, head: Seq<char>, tail: Seq<char>, here: Seq<char>|
        {
            &&& painted(gutter(p1.0), front)
            &&& painted("^"@, head)
            &&& painted(more_carets(p1.1, p2.1), tail)
            &&& painted("here"@, here)
            &&& out == #[trigger] excerpt(
                front,
                source[p1.0]@,
                gutter(p1.0).len() + p1.1 as nat,
                head,
                tail,
                here,
            )
        }
}

/// Whether the place from `l1` to `l2` can be pointed at: it has to end on
/// the line on which it starts, or at least not further to the left.
pub open spec fn can_point_at(source: Seq<String>, l1: usize, l2: Option<usize>) -> bool {
    &&& source.len() > 0
    &&& l2 matches Some(l) ==> point_of(line_lengths(source), l1 as int).1 <= point_of(
        line_lengths(source),
        l as int,
    ).1
}

/// Tests whether the place from `l1` to `l2` can be pointed at.
pub fn points_at(source: &Vec<String>, l1: usize, l2: Option<usize>) -> (ok: bool)
    ensures
        ok == can_point_at(source@, l1, l2),
{
    if source.len() == 0 {
        return false;
    }
    match l2 {
        Some(l) => loc_to_pnt(source, l1).1 <= loc_to_pnt(source, l).1,
        None => true,
    }
}

/// Puts a line of the source and the pointer under it together. The pointer
/// stands `width + column` places in.
pub fn assemble_source(
    front: &str,
    line: &str,
    width: usize,
    column: usize,
    head: &str,
    tail: &str,
    here: &str,
) -> (r: String)
    ensures
        r@ == excerpt(front@, line@, width as nat + column as nat, head@, tail@, here@),
{
    let mut out = String::from_str(front);
    out.append(line);
    out.append("\n");
    push_repeated(&mut out, " ", width);
    push_repeated(&mut out, " ", column);
    out.append(head);
    out.append(tail);
    out.append(here);
    proof {
        lemma_repeated_sum(" "@, width as nat, column as nat);
    }
    out
}

/// Repeating a text `m` times and then `n` times repeats it `m + n` times.
pub proof fn lemma_repeated_sum(unit: Seq<char>, m: nat, n: nat)
    ensures
        repeated(unit, m) + repeated(unit, n) == repeated(unit, m + n),
    decreases n,
{
    if n > 0 {
        lemma_repeated_sum(unit, m, (n - 1) as nat);
    }
}

/// A text of which every character is among those of `unit`, repeated, holds
/// no escape character if `unit` holds none.
proof fn lemma_repeated_plain(unit: Seq<char>, n: nat)
    requires
        plain(unit),
    ensures
        plain(repeated(unit, n)),
    decreases n,
{
    if n > 0 {
        lemma_repeated_plain(unit, (n - 1) as nat);
    }
}

/// A number in decimal holds no escape character.
proof fn lemma_digits_plain(n: nat)
    ensures
        plain(digits(n)),
    decreases n,
{
    if n >= 10 {
        lemma_digits_plain(n / 10);
    }
}

/// Shows the place of the source that starts at the offset `l1` and, where
/// `l2` is given, ends before `l2`.
pub fn format_source(source: &Vec<String>, l1: usize, l2: Option<usize>, color: AccentColor) -> (r:
    String)
    requires
        can_point_at(source@, l1, l2),
    ensures
        is_excerpt_of(source@, l1, l2, r@),
{
    let p1 = loc_to_pnt(source, l1);
    let p2 = match l2 {
        Some(l) => loc_to_pnt(source, l),
        None => p1,
    };

    let mut number = String::new();
    push_digits(&mut number, p1.0 as u64);
    number.append(" |");
    proof {
        reveal_strlit(" |");
        reveal_strlit("^");
        reveal_strlit("here");
        lemma_digits_plain(p1.0 as nat);
        lemma_repeated_plain("^"@, (p2.1 - p1.1 - 1) as nat);
    }
    let line_number = bright_blue(number.as_str());
    let width = number.as_str().unicode_len();

    let mut more = String::new();
    push_repeated(&mut more, "^", if p2.1 - p1.1 == 0 { 0 } else { p2.1 - p1.1 - 1 });
    let head = accent(color, "^");
    let tail = accent(color, more.as_str());
    let here = accent(color, "here");

    let r = assemble_source(
        line_number.as_str(),
        source[p1.0].as_str(),
        width,
        p1.1,
        head.as_str(),
        tail.as_str(),
        here.as_str(),
    );
    proof {
        // The four coloured parts are what the excerpt is said to be made of
        let at = point_of(line_lengths(source@), l1 as int);
        assert(r@ == excerpt(
            line_number@,
            source@[at.0]@,
            gutter(at.0).len() + at.1 as nat,
            head@,
            tail@,
            here@,
        ));
    }
    r
}

/// A report, put together from its parts: the label, the message, and,
/// where the report is about a place of the source, that place shown below.
pub open spec fn report(label: Seq<char>, message: Seq<char>, shown: Option<Seq<char>>) -> Seq<
    char,
> {
    label + ": "@ + message + match shown {
        Some(place) => ".\n"@ + place,
        None => "."@,
    }
}

/// Whether `out` is the report with the title `title` and the message
/// `message` about the place `place` of the source, if any. The title may be
/// coloured, and so may parts of the place shown.
pub open spec fn is_report_of(
    title: Seq<char>,
    message: Seq<char>,
    place: Option<(usize, Option<usize>)>,
    source: Seq<String>,
    out: Seq<char>,
) -> bool {
    match place {
        Some((l1, l2)) => exists|label: Seq<char>, shown: Seq<char>|
            {
                &&& painted(title, label)
                &&& is_excerpt_of(source, l1, l2, shown)
                &&& out == #[trigger] report(label, message, Some(shown))
            },
        None => exists|label: Seq<char>|
            painted(title, label) && out == #[trigger] report(label, message, None),
    }
}

/// Puts a report together from its parts.
pub fn assemble_report(label: &str, message: &str, shown: Option<&str>) -> (r: String)
    ensures
        r@ == report(
            label@,
            message@,
            match shown {
                Some(place) => Some(place@),
                None => None,
            },
        ),
{
    let mut out = String::from_str(label);
    out.append(": ");
    out.append(message);
    match shown {
        Some(place) => {
            out.append(".\n");
            out.append(place);
        },
        None => {
            out.append(".");
        },
    }
    out
}

/// Writes the report with the label `label`, which is the title `title`
/// coloured, and the message `message`, about the place `place`.
fn report_on(
    label: String,
    Ghost(title): Ghost<Seq<char>>,
    message: String,
    place: Option<(usize, Option<usize>)>,
    source: &Vec<String>,
    color: AccentColor,
) -> (r: String)
    requires
        painted(title, label@),
        place matches Some((l1, l2)) ==> can_point_at(source@, l1, l2),
    ensures
        is_report_of(title, message@, place, source@, r@),
{
    match place {
        Some((l1, l2)) => {
            let shown = format_source(source, l1, l2, color);
            assemble_report(label.as_str(), message.as_str(), Some(shown.as_str()))
        },
        None => assemble_report(label.as_str(), message.as_str(), None),
    }
}

/// What a type error says.
pub open spec fn type_error_message(e: TypeError) -> Seq<char> {
    match e {
        TypeError::AnnotationIncorrect { got, annotation, .. } => "type is `"@ + got.name()
            + "`, but annotation is `"@ + annotation.name() + "`"@,
        TypeError::IfCondMustBeBool { got, .. } =>
            "the condition of `if` should be `bool`, but is `"@ + got.name() + "`"@,
        TypeError::IfBranchesMustBeSame { first, second, .. } =>
            "branches of `if` have to return the same type, `"@ + first.name()
            + "` is not equal to `"@ + second.name() + "`"@,
    }
}

/// The place of the source that a type error points at: the annotation; the
/// last byte of the condition; the start of the `if`.
pub open spec fn type_error_place(e: TypeError) -> (usize, Option<usize>) {
    match e {
        TypeError::AnnotationIncorrect { span, .. } => (span.0, Some(span.1)),
        TypeError::IfCondMustBeBool { end, .. } => ((end - 1) as usize, None),
        TypeError::IfBranchesMustBeSame { start, .. } => (start, None),
    }
}

/// Whether a type error can be reported on a source: the place it points at
/// can be pointed at, and a condition does not end at offset 0, where none
/// can.
pub open spec fn can_report_type_error(e: TypeError, source: Seq<String>) -> bool {
    &&& e matches TypeError::IfCondMustBeBool { end, .. } ==> end > 0
    &&& can_point_at(source, type_error_place(e).0, type_error_place(e).1)
}

/// Appends the name of a type to `out`.
fn push_type_name(out: &mut String, ty: &JustType)
    ensures
        final(out)@ == old(out)@ + ty.name(),
{
    let name = ty.to_string();
    out.append(name.as_str());
}

/// Reports a type error, with the place of the source that it is about.
pub fn format_type_err(e: TypeError, source: &Vec<String>) -> (r: String)
    requires
        can_report_type_error(e, source@),
    ensures
        is_report_of(
            "Type error"@,
            type_error_message(e),
            Some(type_error_place(e)),
            source@,
            r@,
        ),
{
    proof {
        reveal_strlit("Type error");
    }
    let label = accent(AccentColor::Error, "Type error");
    let mut message = String::new();
    let place = match e {
        TypeError::AnnotationIncorrect { span, got, annotation } => {
            message.append("type is `");
            push_type_name(&mut message, &got);
            message.append("`, but annotation is `");
            push_type_name(&mut message, &annotation);
            message.append("`");
            (span.0, Some(span.1))
        },
        TypeError::IfCondMustBeBool { end, got } => {
            message.append("the condition of `if` should be `bool`, but is `");
            push_type_name(&mut message, &got);
            message.append("`");
            (end - 1, None)
        },
        TypeError::IfBranchesMustBeSame { start, first, second } => {
            message.append("branches of `if` have to return the same type, `");
            push_type_name(&mut message, &first);
            message.append("` is not equal to `");
            push_type_name(&mut message, &second);
            message.append("`");
            (start, None)
        },
    };
    report_on(label, Ghost("Type error"@), message, Some(place), source, AccentColor::Error)
}

/// What a warning says.
pub open spec fn type_warning_message(w: TypeWarning) -> Seq<char> {
    match w {
        TypeWarning::CondAlways { value, .. } => "condition of `if` is always `"@ + bool_text(value)
            + "`"@,
    }
}

/// The place of the source that a warning points at: the literal.
pub open spec fn type_warning_place(w: TypeWarning) -> (usize, Option<usize>) {
    match w {
        TypeWarning::CondAlways { span, .. } => (span.0, Some(span.1)),
    }
}

/// Reports a warning, with the place of the source that it is about.
pub fn format_type_warn(w: TypeWarning, source: &Vec<String>) -> (r: String)
    requires
        can_point_at(source@, type_warning_place(w).0, type_warning_place(w).1),
    ensures
        is_report_of(
            "Warning"@,
            type_warning_message(w),
            Some(type_warning_place(w)),
            source@,
            r@,
        ),
{
    proof {
        reveal_strlit("Warning");
    }
    let label = accent(AccentColor::Warning, "Warning");
    let mut message = String::new();
    let place = match w {
        TypeWarning::CondAlways { span, value } => {
            message.append("condition of `if` is always `");
            if value {
                message.append("true");
            } else {
                message.append("false");
            }
            message.append("`");
            (span.0, Some(span.1))
        },
    };
    report_on(label, Ghost("Warning"@), message, Some(place), source, AccentColor::Warning)
}

/// Whether an error or a warning can be reported on a source.
pub open spec fn can_report_type_issue(issue: TypeIssue, source: Seq<String>) -> bool {
    match issue {
        TypeIssue::Error(e) => can_report_type_error(e, source),
        TypeIssue::Warning(w) => can_point_at(
            source,
            type_warning_place(w).0,
            type_warning_place(w).1,
        ),
    }
}

/// Tests whether an error or a warning can be reported on a source.
pub fn reports_type_issue(issue: TypeIssue, source: &Vec<String>) -> (ok: bool)
    ensures
        ok == can_report_type_issue(issue, source@),
{
    match issue {
        TypeIssue::Error(TypeError::AnnotationIncorrect { span, .. }) => points_at(
            source,
            span.0,
            Some(span.1),
        ),
        TypeIssue::Error(TypeError::IfCondMustBeBool { end, .. }) => end > 0 && points_at(
            source,
            end - 1,
            None,
        ),
        TypeIssue::Error(TypeError::IfBranchesMustBeSame { start, .. }) => points_at(
            source,
            start,
            None,
        ),
        TypeIssue::Warning(TypeWarning::CondAlways { span, .. }) => points_at(
            source,
            span.0,
            Some(span.1),
        ),
    }
}

/// Whether `out` is the report of an error or a warning, each made in its
/// own way.
pub open spec fn is_issue_report(issue: TypeIssue, source: Seq<String>, out: Seq<char>) -> bool {
    match issue {
        TypeIssue::Error(e) => is_report_of(
            "Type error"@,
            type_error_message(e),
            Some(type_error_place(e)),
            source,
            out,
        ),
        TypeIssue::Warning(w) => is_report_of(
            "Warning"@,
            type_warning_message(w),
            Some(type_warning_place(w)),
            source,
            out,
        ),
    }
}

/// Reports an error or a warning, each in its own way.
pub fn format_type_issue(issue: TypeIssue, source: &Vec<String>) -> (r: String)
    requires
        can_report_type_issue(issue, source@),
    ensures
        is_issue_report(issue, source@, r@),
{
    match issue {
        TypeIssue::Error(e) => format_type_err(e, source),
        TypeIssue::Warning(w) => format_type_warn(w, source),
    }
}

/// How a word is written in a report: a number in decimal, every other word
/// as in the language.
pub open spec fn token_text(token: Token) -> Seq<char> {
    match token {
        Token::Number(n) => decimal(n as int),
        Token::True => "true"@,
        Token::False => "false"@,
        Token::If => "if"@,
        Token::Then => "then"@,
        Token::Else => "else"@,
        Token::End => "end"@,
        Token::Colon => ":"@,
        Token::Int => "int"@,
        Token::Bool => "bool"@,
    }
}

/// Appends a word, as it is written in a report, to `out`.
fn push_token(out: &mut String, token: Token)
    ensures
        final(out)@ == old(out)@ + token_text(token),
{
    match token {
        Token::Number(n) => push_decimal(out, n),
        Token::True => out.append("true"),
        Token::False => out.append("false"),
        Token::If => out.append("if"),
        Token::Then => out.append("then"),
        Token::Else => out.append("else"),
        Token::End => out.append("end"),
        Token::Colon => out.append(":"),
        Token::Int => out.append("int"),
        Token::Bool => out.append("bool"),
    }
}

/// The names, in quotes, of the words that would have been taken.
pub open spec fn expected_names(expected: Expected) -> Seq<Seq<char>> {
    match expected {
        Expected::Term => seq!["\"number\""@, "\"true\""@, "\"false\""@, "\"if\""@],
        Expected::Type => seq!["\"int\""@, "\"bool\""@],
        Expected::Colon => seq!["\":\""@],
        Expected::ColonOrThen => seq!["\":\""@, "\"then\""@],
        Expected::ColonOrElse => seq!["\":\""@, "\"else\""@],
        Expected::ColonOrEnd => seq!["\":\""@, "\"end\""@],
    }
}

/// The names, in quotes, of the words that would have been taken.
pub fn names_of(expected: Expected) -> (names: Vec<String>)
    ensures
        texts(names@) == expected_names(expected),
{
    let mut names: Vec<String> = Vec::new();
    match expected {
        Expected::Term => {
            names.push(String::from_str("\"number\""));
            names.push(String::from_str("\"true\""));
            names.push(String::from_str("\"false\""));
            names.push(String::from_str("\"if\""));
        },
        Expected::Type => {
            names.push(String::from_str("\"int\""));
            names.push(String::from_str("\"bool\""));
        },
        Expected::Colon => {
            names.push(String::from_str("\":\""));
        },
        Expected::ColonOrThen => {
            names.push(String::from_str("\":\""));
            names.push(String::from_str("\"then\""));
        },
        Expected::ColonOrElse => {
            names.push(String::from_str("\":\""));
            names.push(String::from_str("\"else\""));
        },
        Expected::ColonOrEnd => {
            names.push(String::from_str("\":\""));
            names.push(String::from_str("\"end\""));
        },
    }
    names
}

/// What is said of a word that is wrong in itself.
pub open spec fn user_error_message(error: UserError) -> Seq<char> {
    match error {
        UserError::NumberTooBig => "number is too big"@,
    }
}

/// What a parse error says.
pub open spec fn parse_error_message(err: ParseError) -> Seq<char> {
    match err {
        ParseError::InvalidToken { .. } => "illegal character(s)"@,
        ParseError::UnrecognizedEOF { expected, .. } => "file ended, but expected "@
            + expected_text(expected_names(expected)),
        ParseError::UnrecognizedToken { token, expected } => "`"@ + token_text(token.1)
            + "` is unexpected, expected "@ + expected_text(expected_names(expected)),
        ParseError::User { error } => user_error_message(error),
    }
}

/// The place of the source that a parse error points at: where no word
/// starts; where the text ends; the word that is out of place. An error in a
/// word itself points nowhere.
pub open spec fn parse_error_place(err: ParseError) -> Option<(usize, Option<usize>)> {
    match err {
        ParseError::InvalidToken { location } => Some((location, None)),
        ParseError::UnrecognizedEOF { location, .. } => Some((location, None)),
        ParseError::UnrecognizedToken { token, .. } => Some((token.0, Some(token.2))),
        ParseError::User { .. } => None,
    }
}

/// Whether a parse error can be reported on a source: the place it points
/// at, if any, can be pointed at.
pub open spec fn can_report_parse_err(err: ParseError, source: Seq<String>) -> bool {
    parse_error_place(err) matches Some((l1, l2)) ==> can_point_at(source, l1, l2)
}

/// Tests whether a parse error can be reported on a source.
pub fn reports_parse_err(err: ParseError, source: &Vec<String>) -> (ok: bool)
    ensures
        ok == can_report_parse_err(err, source@),
{
    match err {
        ParseError::InvalidToken { location } => points_at(source, location, None),
        ParseError::UnrecognizedEOF { location, .. } => points_at(source, location, None),
        ParseError::UnrecognizedToken { token, .. } => points_at(source, token.0, Some(token.2)),
        ParseError::User { .. } => true,
    }
}

/// Reports a parse error, with the place of the source that it is about.
pub fn format_parse_err(err: ParseError, source: &Vec<String>) -> (r: String)
    requires
        can_report_parse_err(err, source@),
    ensures
        is_report_of(
            "Parse error"@,
            parse_error_message(err),
            parse_error_place(err),
            source@,
            r@,
        ),
{
    proof {
        reveal_strlit("Parse error");
    }
    let label = accent(AccentColor::Error, "Parse error");
    let mut message = String::new();
    let place = match err {
        ParseError::InvalidToken { location } => {
            message.append("illegal character(s)");
            Some((location, None))
        },
        ParseError::UnrecognizedEOF { location, expected } => {
            message.append("file ended, but expected ");
            let names = format_expected(names_of(expected));
            message.append(names.as_str());
            Some((location, None))
        },
        ParseError::UnrecognizedToken { token, expected } => {
            let (l_start, word, l_end) = token;
            message.append("`");
            push_token(&mut message, word);
            message.append("` is unexpected, expected ");
            let names = format_expected(names_of(expected));
            message.append(names.as_str());
            Some((l_start, Some(l_end)))
        },
        ParseError::User { error } => {
            match error {
                UserError::NumberTooBig => message.append("number is too big"),
            }
            None
        },
    };
    report_on(label, Ghost("Parse error"@), message, place, source, AccentColor::Error)
}

} // verus!
