//! The grammar engine: a course-code recognizer, a parenthesized-group
//! recognizer and an expression recognizer that joins terms with `AND` and
//! `OR` into a requirement tree.
//!
//! The grammar is defined by spec functions over a sequence of characters
//! and a place in it ([`code_at`], [`group_at`], [`term_at`], [`expr_at`]).
//! The public recognizers take a string, recognize at its start, and return
//! what the grammar says together with the unread rest of the string.
use crate::requisite::{is_canonical_code, GrammarError, Operator, RequisiteGroup, RequisiteTree};
use crate::text::{
    has_three, lemma_run_end, lemma_run_end_is, run_end, skip_run, three_of, to_chars, CharClass,
};
use vstd::prelude::*;
use vstd::string::StrSliceExecFns;

verus! {

/// What recognizing at one place of a sequence gives: a value and the place
/// where the match ends, or the place where the recognizer gave up.
pub enum Parsed<T> {
    Match { end: int, value: T },
    Failure { at: int },
}

/// The place where the variant suffix that starts at `from` ends. The
/// suffix is a run of ASCII letters, or two such runs joined by `/`; where
/// no letter stands at `from` it is empty.
pub open spec fn suffix_end(s: Seq<char>, from: int) -> int {
    let letters = run_end(s, from, CharClass::Alpha);
    let second = run_end(s, letters + 1, CharClass::Alpha);
    if from < letters < s.len() && s[letters] == '/' && letters + 1 < second {
        second
    } else {
        letters
    }
}

/// Whether exactly three digits stand at `from`: three digits, and no
/// fourth one behind them.
pub open spec fn number_at(s: Seq<char>, from: int) -> bool {
    &&& three_of(s, from, CharClass::Digit)
    &&& !(from + 3 < s.len() && CharClass::Digit.contains(s[from + 3]))
}

/// The course code that stands at `pos`: three upper-case letters, any run
/// of blanks, exactly three digits, and a variant suffix. The value is the
/// letters and the digits joined by one space; the suffix is dropped.
/// Without three letters the recognizer gives up at `pos`; where fewer or
/// more than three digits follow, at the place where the digits should
/// start.
pub open spec fn code_at(s: Seq<char>, pos: int) -> Parsed<Seq<char>> {
    if !three_of(s, pos, CharClass::Upper) {
        Parsed::Failure { at: pos }
    } else {
        let number = run_end(s, pos + 3, CharClass::Blank);
        if !number_at(s, number) {
            Parsed::Failure { at: number }
        } else {
            Parsed::Match {
                end: suffix_end(s, number + 3),
                value: s.subrange(pos, pos + 3) + seq![' '] + s.subrange(number, number + 3),
            }
        }
    }
}

/// The operator that stands at `at`, with the place behind it.
pub open spec fn operator_at(s: Seq<char>, at: int) -> Option<(Operator, int)> {
    if 0 <= at && at + 3 <= s.len() && s[at] == 'A' && s[at + 1] == 'N' && s[at + 2] == 'D' {
        Some((Operator::And, at + 3))
    } else if 0 <= at && at + 2 <= s.len() && s[at] == 'O' && s[at + 1] == 'R' {
        Some((Operator::Or, at + 2))
    } else {
        None
    }
}

/// The parenthesized group that stands at `pos`: `(`, blanks, an
/// expression, blanks, `)`. Its value is that of the expression. Without
/// `(` the recognizer gives up at `pos`; where the expression fails, where
/// it failed; without `)`, at the place where it should stand.
pub open spec fn group_at(s: Seq<char>, pos: int) -> Parsed<RequisiteTree>
    decreases s.len() - pos, 0int,
{
    if !(0 <= pos < s.len() && s[pos] == '(') {
        Parsed::Failure { at: pos }
    } else {
        let inner = run_end(s, pos + 1, CharClass::Blank);
        proof {
            lemma_run_end(s, pos + 1, CharClass::Blank);
        }
        match expr_at(s, inner) {
            Parsed::Failure { at } => Parsed::Failure { at },
            Parsed::Match { end, value } => {
                let close = run_end(s, end, CharClass::Blank);
                if 0 <= close < s.len() && s[close] == ')' {
                    Parsed::Match { end: close + 1, value }
                } else {
                    Parsed::Failure { at: close }
                }
            },
        }
    }
}

/// The term that stands at `pos`: a course code, or else a parenthesized
/// group. Where neither stands there, the failure is that of the group.
pub open spec fn term_at(s: Seq<char>, pos: int) -> Parsed<RequisiteTree>
    decreases s.len() - pos, 1int,
{
    match code_at(s, pos) {
        Parsed::Match { end, value } => Parsed::Match { end, value: RequisiteTree::Course(value) },
        Parsed::Failure { .. } => group_at(s, pos),
    }
}

/// The expression that stands at `pos`: a term alone where no operator
/// follows it; else the node that joins the term and the whole expression
/// to the right of the operator. Blanks may stand on both sides of the
/// operator. Where no term stands at `pos` the recognizer gives up as the
/// term does. Where an operator follows the term and no expression stands
/// to its right, the recognizer gives up where that expression does: it
/// never falls back to the term alone.
///
/// The right-hand expression always starts behind `pos` and inside `s`
/// ([`lemma_right_side_starts_inside`]); the test for it is what makes the
/// definition well-founded.
pub open spec fn expr_at(s: Seq<char>, pos: int) -> Parsed<RequisiteTree>
    decreases s.len() - pos, 2int,
{
    match term_at(s, pos) {
        Parsed::Failure { at } => Parsed::Failure { at },
        Parsed::Match { end, value: first } => {
            match operator_at(s, run_end(s, end, CharClass::Blank)) {
                None => Parsed::Match { end, value: first },
                Some((operator, after)) => {
                    let right = run_end(s, after, CharClass::Blank);
                    if pos < right <= s.len() {
                        match expr_at(s, right) {
                            Parsed::Failure { at } => Parsed::Failure { at },
                            Parsed::Match { end: right_end, value: second } => Parsed::Match {
                                end: right_end,
                                value: RequisiteTree::join(operator, first, second),
                            },
                        }
                    } else {
                        Parsed::Failure { at: right }
                    }
                },
            }
        },
    }
}

/// Whether an outcome of recognizing at `pos` lies where it must: a match
/// is not empty and ends inside `s`; a failure lies at or behind `pos`,
/// inside `s`.
pub open spec fn in_bounds<T>(outcome: Parsed<T>, s: Seq<char>, pos: int) -> bool {
    match outcome {
        Parsed::Match { end, .. } => pos < end <= s.len(),
        Parsed::Failure { at } => pos <= at <= s.len(),
    }
}

/// A variant suffix ends at or behind its start, inside the sequence.
pub proof fn lemma_suffix_end(s: Seq<char>, from: int)
    requires
        0 <= from <= s.len(),
    ensures
        from <= suffix_end(s, from) <= s.len(),
{
    lemma_run_end(s, from, CharClass::Alpha);
    let letters = run_end(s, from, CharClass::Alpha);
    if letters < s.len() {
        lemma_run_end(s, letters + 1, CharClass::Alpha);
    }
}

/// A course code that was recognized is canonical, and its match is not
/// empty.
pub proof fn lemma_code_at(s: Seq<char>, pos: int)
    requires
        0 <= pos <= s.len(),
    ensures
        in_bounds(code_at(s, pos), s, pos),
        code_at(s, pos) matches Parsed::Match { value, .. } ==> is_canonical_code(value),
{
    if three_of(s, pos, CharClass::Upper) {
        lemma_run_end(s, pos + 3, CharClass::Blank);
        let number = run_end(s, pos + 3, CharClass::Blank);
        if number_at(s, number) {
            lemma_suffix_end(s, number + 3);
        }
    }
}

/// A group that was recognized denotes a well-formed tree, and its match
/// is not empty.
pub proof fn lemma_group_at(s: Seq<char>, pos: int)
    requires
        0 <= pos <= s.len(),
    ensures
        in_bounds(group_at(s, pos), s, pos),
        group_at(s, pos) matches Parsed::Match { value, .. } ==> value.well_formed(),
    decreases s.len() - pos, 0int,
{
    if pos < s.len() && s[pos] == '(' {
        lemma_run_end(s, pos + 1, CharClass::Blank);
        let inner = run_end(s, pos + 1, CharClass::Blank);
        lemma_expr_at(s, inner);
        if let Parsed::Match { end, .. } = expr_at(s, inner) {
            lemma_run_end(s, end, CharClass::Blank);
        }
    }
}

/// A term that was recognized denotes a well-formed tree, and its match is
/// not empty.
pub proof fn lemma_term_at(s: Seq<char>, pos: int)
    requires
        0 <= pos <= s.len(),
    ensures
        in_bounds(term_at(s, pos), s, pos),
        term_at(s, pos) matches Parsed::Match { value, .. } ==> value.well_formed(),
    decreases s.len() - pos, 1int,
{
    lemma_code_at(s, pos);
    if code_at(s, pos) is Failure {
        lemma_group_at(s, pos);
    }
}

/// An expression that was recognized denotes a well-formed tree: each leaf
/// holds a canonical course code and each inner node has two children. Its
/// match is not empty and ends inside the sequence; a failure lies inside
/// the sequence, at or behind the start.
pub proof fn lemma_expr_at(s: Seq<char>, pos: int)
    requires
        0 <= pos <= s.len(),
    ensures
        in_bounds(expr_at(s, pos), s, pos),
        expr_at(s, pos) matches Parsed::Match { value, .. } ==> value.well_formed(),
    decreases s.len() - pos, 2int,
{
    lemma_term_at(s, pos);
    if let Parsed::Match { end, .. } = term_at(s, pos) {
        lemma_run_end(s, end, CharClass::Blank);
        if let Some((_, after)) = operator_at(s, run_end(s, end, CharClass::Blank)) {
            lemma_run_end(s, after, CharClass::Blank);
            lemma_expr_at(s, run_end(s, after, CharClass::Blank));
        }
    }
}

/// Where an operator follows a term, the expression to its right starts
/// behind the start of the term and inside the sequence: the test for it
/// in [`expr_at`] never fails.
pub proof fn lemma_right_side_starts_inside(s: Seq<char>, pos: int)
    ensures
        term_at(s, pos) matches Parsed::Match { end, .. } ==> (operator_at(
            s,
            run_end(s, end, CharClass::Blank),
        ) matches Some((_, after)) ==> pos < run_end(s, after, CharClass::Blank) <= s.len()),
{
    if let Parsed::Match { end, .. } = term_at(s, pos) {
        assert(0 <= pos <= s.len());
        lemma_term_at(s, pos);
        lemma_run_end(s, end, CharClass::Blank);
        if let Some((_, after)) = operator_at(s, run_end(s, end, CharClass::Blank)) {
            lemma_run_end(s, after, CharClass::Blank);
        }
    }
}

/// No operator follows an expression that was recognized: an operator
/// behind a term is either joined with the expression to its right or
/// makes the whole expression fail. No part of a chain is ever returned as
/// if it were the whole.
pub proof fn lemma_no_operator_follows(s: Seq<char>, pos: int)
    requires
        0 <= pos <= s.len(),
    ensures
        expr_at(s, pos) matches Parsed::Match { end, .. } ==> operator_at(
            s,
            run_end(s, end, CharClass::Blank),
        ) is None,
    decreases s.len() - pos,
{
    if let Parsed::Match { end, .. } = term_at(s, pos) {
        lemma_right_side_starts_inside(s, pos);
        if let Some((_, after)) = operator_at(s, run_end(s, end, CharClass::Blank)) {
            lemma_no_operator_follows(s, run_end(s, after, CharClass::Blank));
        }
    }
}

/// An expression fails with its first term, or, where an operator follows
/// that term, with the expression to the right of the operator.
pub proof fn lemma_expr_fails(s: Seq<char>, pos: int)
    requires
        0 <= pos <= s.len(),
    ensures
        expr_at(s, pos) is Failure <==> (match term_at(s, pos) {
            Parsed::Failure { .. } => true,
            Parsed::Match { end, .. } => match operator_at(
                s,
                run_end(s, end, CharClass::Blank),
            ) {
                None => false,
                Some((_, after)) => expr_at(s, run_end(s, after, CharClass::Blank)) is Failure,
            },
        }),
{
    lemma_right_side_starts_inside(s, pos);
}

/// Whether every character of `s` is of class `k`.
pub open spec fn all_of_class(s: Seq<char>, k: CharClass) -> bool {
    forall|i: int| 0 <= i < s.len() ==> k.contains(#[trigger] s[i])
}

/// The text of a variant suffix made of the runs of letters `first` and
/// `second`: `first` alone where `second` is empty, else the two joined by
/// `/`.
pub open spec fn variant_suffix(first: Seq<char>, second: Seq<char>) -> Seq<char> {
    if second.len() == 0 {
        first
    } else {
        first + seq!['/'] + second
    }
}

/// A variant suffix is dropped and does not change the canonical code.
///
/// Take three upper-case letters `subject`, any run of blanks, three
/// digits `number`, and a variant suffix: a run of letters `first`, or
/// `first`, a `/` and another run of letters `second`. Let `rest` follow,
/// which goes on with neither the number nor the suffix: it starts with no
/// letter, without a suffix it starts with no digit, and after a suffix of
/// one run it does not start with `/` and a letter. Then
/// the recognizer matches up to `rest`, and the code is `subject`, one
/// space and `number`, whatever the suffix holds.
pub proof fn lemma_suffix_is_dropped(
    subject: Seq<char>,
    blanks: Seq<char>,
    number: Seq<char>,
    first: Seq<char>,
    second: Seq<char>,
    rest: Seq<char>,
)
    requires
        subject.len() == 3 && all_of_class(subject, CharClass::Upper),
        all_of_class(blanks, CharClass::Blank),
        number.len() == 3 && all_of_class(number, CharClass::Digit),
        all_of_class(first, CharClass::Alpha),
        all_of_class(second, CharClass::Alpha),
        second.len() > 0 ==> first.len() > 0,
        rest.len() > 0 ==> !CharClass::Alpha.contains(rest[0]),
        first.len() == 0 && rest.len() > 0 ==> !CharClass::Digit.contains(rest[0]),
        first.len() > 0 && second.len() == 0 && rest.len() > 1 && rest[0] == '/'
            ==> !CharClass::Alpha.contains(rest[1]),
    ensures
        code_at(subject + blanks + number + variant_suffix(first, second) + rest, 0)
            == (Parsed::Match {
            end: 6 + blanks.len() + variant_suffix(first, second).len() as int,
            value: subject + seq![' '] + number,
        }),
{
    let suffix = variant_suffix(first, second);
    let s = subject + blanks + number + suffix + rest;
    let b = blanks.len() as int;
    let f = first.len() as int;
    assert forall|i: int| 0 <= i < 3 implies s[i] == subject[i] by {}
    assert forall|i: int| 3 <= i < 3 + b implies CharClass::Blank.contains(#[trigger] s[i]) by {
        assert(s[i] == blanks[i - 3]);
    }
    assert forall|i: int| 0 <= i < 3 implies s[3 + b + i] == number[i] by {}
    assert(s[3 + b] == number[0]);
    assert(s[4 + b] == number[1]);
    assert(s[5 + b] == number[2]);
    lemma_run_end_is(s, 3, CharClass::Blank, 3 + b);
    assert(three_of(s, 0, CharClass::Upper));
    assert(three_of(s, 3 + b, CharClass::Digit));
    assert forall|i: int| 6 + b <= i < 6 + b + f implies CharClass::Alpha.contains(
        #[trigger] s[i],
    ) by {
        assert(s[i] == suffix[i - 6 - b]);
        assert(suffix[i - 6 - b] == first[i - 6 - b]);
    }
    if second.len() > 0 {
        let n = second.len() as int;
        assert(s[6 + b + f] == suffix[f]);
        assert(suffix[f] == '/');
        assert forall|i: int| 7 + b + f <= i < 7 + b + f + n implies CharClass::Alpha.contains(
            #[trigger] s[i],
        ) by {
            assert(s[i] == suffix[i - 6 - b]);
            assert(suffix[i - 6 - b] == second[i - 7 - b - f]);
        }
        if rest.len() > 0 {
            assert(s[7 + b + f + n] == rest[0]);
        }
        lemma_run_end_is(s, 6 + b, CharClass::Alpha, 6 + b + f);
        lemma_run_end_is(s, 7 + b + f, CharClass::Alpha, 7 + b + f + n);
    } else {
        if rest.len() > 0 {
            assert(s[6 + b + f] == rest[0]);
        }
        lemma_run_end_is(s, 6 + b, CharClass::Alpha, 6 + b + f);
        if rest.len() > 1 {
            assert(s[7 + b + f] == rest[1]);
        }
        if f > 0 && 6 + b + f < s.len() && s[6 + b + f] == '/' {
            lemma_run_end_is(s, 7 + b + f, CharClass::Alpha, 7 + b + f);
        }
    }
    assert(s.subrange(0, 3) =~= subject);
    assert(s.subrange(3 + b, 6 + b) =~= number);
}

/// A well-formed code is recognized and comes back in canonical form.
///
/// Take three upper-case letters `subject`, any run of blanks (none and
/// one space among them) and three digits `number`, followed by `rest`,
/// which starts with no letter and no digit. Then the recognizer matches
/// exactly the letters, the blanks and the digits, and the code is
/// `subject`, one space and `number`.
pub proof fn lemma_code_is_canonical(
    subject: Seq<char>,
    blanks: Seq<char>,
    number: Seq<char>,
    rest: Seq<char>,
)
    requires
        subject.len() == 3 && all_of_class(subject, CharClass::Upper),
        all_of_class(blanks, CharClass::Blank),
        number.len() == 3 && all_of_class(number, CharClass::Digit),
        rest.len() > 0 ==> !CharClass::Alpha.contains(rest[0]),
        rest.len() > 0 ==> !CharClass::Digit.contains(rest[0]),
    ensures
        code_at(subject + blanks + number + rest, 0) == (Parsed::Match {
            end: 6 + blanks.len() as int,
            value: subject + seq![' '] + number,
        }),
        is_canonical_code(subject + seq![' '] + number),
{
    let none = Seq::<char>::empty();
    lemma_suffix_is_dropped(subject, blanks, number, none, none, rest);
    assert(subject + blanks + number + variant_suffix(none, none) + rest =~= subject + blanks
        + number + rest);
}

fn scan_suffix(s: &Vec<char>, from: usize) -> (end: usize)
    requires
        from <= s.len(),
    ensures
        end == suffix_end(s@, from as int),
        from <= end <= s.len(),
{
    let letters = skip_run(s, from, CharClass::Alpha);
    if from < letters && letters < s.len() && s[letters] == '/' {
        let second = skip_run(s, letters + 1, CharClass::Alpha);
        if letters + 1 < second {
            return second;
        }
    }
    letters
}

fn scan_code(s: &Vec<char>, pos: usize) -> (r: Result<(usize, String), usize>)
    requires
        pos <= s.len(),
    ensures
        match code_at(s@, pos as int) {
            Parsed::Match { end, value } => r matches Ok((e, code)) && e == end && code@ == value,
            Parsed::Failure { at } => r matches Err(a) && a == at,
        },
        in_bounds(code_at(s@, pos as int), s@, pos as int),
{
    proof {
        lemma_code_at(s@, pos as int);
    }
    if !has_three(s, pos, CharClass::Upper) {
        return Err(pos);
    }
    let number = skip_run(s, pos + 3, CharClass::Blank);
    if !has_three(s, number, CharClass::Digit) {
        return Err(number);
    }
    if number + 3 < s.len() && CharClass::Digit.holds(s[number + 3]) {
        return Err(number);
    }
    let end = scan_suffix(s, number + 3);
    let mut code = String::new();
    code.push(s[pos]);
    code.push(s[pos + 1]);
    code.push(s[pos + 2]);
    code.push(' ');
    code.push(s[number]);
    code.push(s[number + 1]);
    code.push(s[number + 2]);
    assert(code@ =~= s@.subrange(pos as int, pos + 3) + seq![' '] + s@.subrange(
        number as int,
        number + 3,
    ));
    Ok((end, code))
}

fn scan_operator(s: &Vec<char>, at: usize) -> (r: Option<(Operator, usize)>)
    requires
        at <= s.len(),
    ensures
        match operator_at(s@, at as int) {
            Some((operator, after)) => r == Some((operator, after as usize)) && at < after
                <= s.len(),
            None => r is None,
        },
{
    let left = s.len() - at;
    if left >= 3 && s[at] == 'A' && s[at + 1] == 'N' && s[at + 2] == 'D' {
        Some((Operator::And, at + 3))
    } else if left >= 2 && s[at] == 'O' && s[at + 1] == 'R' {
        Some((Operator::Or, at + 2))
    } else {
        None
    }
}

/// Whether `r` reports the outcome `outcome` of recognizing a tree.
spec fn reports(r: Result<(usize, RequisiteGroup), usize>, outcome: Parsed<RequisiteTree>) -> bool {
    match outcome {
        Parsed::Match { end, value } => r matches Ok((e, group)) && e == end && group@ == value,
        Parsed::Failure { at } => r matches Err(a) && a == at,
    }
}

fn scan_group(s: &Vec<char>, pos: usize) -> (r: Result<(usize, RequisiteGroup), usize>)
    requires
        pos <= s.len(),
    ensures
        reports(r, group_at(s@, pos as int)),
        in_bounds(group_at(s@, pos as int), s@, pos as int),
    decreases s.len() - pos, 0int,
{
    proof {
        lemma_group_at(s@, pos as int);
    }
    if !(pos < s.len() && s[pos] == '(') {
        return Err(pos);
    }
    let inner = skip_run(s, pos + 1, CharClass::Blank);
    match scan_expr(s, inner) {
        Err(at) => Err(at),
        Ok((end, group)) => {
            let close = skip_run(s, end, CharClass::Blank);
            if close < s.len() && s[close] == ')' {
                Ok((close + 1, group))
            } else {
                Err(close)
            }
        },
    }
}

fn scan_term(s: &Vec<char>, pos: usize) -> (r: Result<(usize, RequisiteGroup), usize>)
    requires
        pos <= s.len(),
    ensures
        reports(r, term_at(s@, pos as int)),
        in_bounds(term_at(s@, pos as int), s@, pos as int),
    decreases s.len() - pos, 1int,
{
    proof {
        lemma_term_at(s@, pos as int);
    }
    match scan_code(s, pos) {
        Ok((end, code)) => Ok((end, RequisiteGroup::Course(code))),
        Err(_) => scan_group(s, pos),
    }
}

fn scan_expr(s: &Vec<char>, pos: usize) -> (r: Result<(usize, RequisiteGroup), usize>)
    requires
        pos <= s.len(),
    ensures
        reports(r, expr_at(s@, pos as int)),
        in_bounds(expr_at(s@, pos as int), s@, pos as int),
    decreases s.len() - pos, 2int,
{
    proof {
        lemma_expr_at(s@, pos as int);
    }
    match scan_term(s, pos) {
        Err(at) => Err(at),
        Ok((end, first)) => {
            let at = skip_run(s, end, CharClass::Blank);
            match scan_operator(s, at) {
                None => Ok((end, first)),
                Some((operator, after)) => {
                    let right = skip_run(s, after, CharClass::Blank);
                    match scan_expr(s, right) {
                        Err(at) => Err(at),
                        Ok((right_end, second)) => Ok(
                            (right_end, RequisiteGroup::join(operator, first, second)),
                        ),
                    }
                },
            }
        },
    }
}

/// Recognizes a course code at the start of `input`.
///
/// Returns the unread rest of `input` and the canonical code, or the
/// failure with the input from the place where the recognizer gave up, as
/// [`code_at`] defines both.
pub fn course_code<'a>(input: &'a str) -> (r: Result<(&'a str, String), GrammarError<'a>>)
    ensures
        match code_at(input@, 0) {
            Parsed::Match { end, value } => r matches Ok((rest, code)) && rest@ == input@.skip(end)
                && code@ == value,
            Parsed::Failure { at } => r matches Err(e) && e.remaining@ == input@.skip(at),
        },
        r matches Ok((_, code)) ==> is_canonical_code(code@),
{
    let s = to_chars(input);
    proof {
        lemma_code_at(s@, 0);
    }
    match scan_code(&s, 0) {
        Ok((end, code)) => Ok((input.substring_char(end, s.len()), code)),
        Err(at) => Err(GrammarError { remaining: input.substring_char(at, s.len()) }),
    }
}

/// Recognizes a parenthesized group at the start of `input`.
///
/// Returns the unread rest of `input` and the tree of the expression
/// between the parentheses, or the failure with the input from the place
/// where the recognizer gave up, as [`group_at`] defines both.
pub fn paren_delimited<'a>(input: &'a str) -> (r: Result<
    (&'a str, RequisiteGroup),
    GrammarError<'a>,
>)
    ensures
        match group_at(input@, 0) {
            Parsed::Match { end, value } => r matches Ok((rest, group)) && rest@ == input@.skip(
                end,
            ) && group@ == value,
            Parsed::Failure { at } => r matches Err(e) && e.remaining@ == input@.skip(at),
        },
        r matches Ok((_, group)) ==> group@.well_formed(),
{
    let s = to_chars(input);
    proof {
        lemma_group_at(s@, 0);
    }
    match scan_group(&s, 0) {
        Ok((end, group)) => Ok((input.substring_char(end, s.len()), group)),
        Err(at) => Err(GrammarError { remaining: input.substring_char(at, s.len()) }),
    }
}

/// Recognizes a term at the start of `input`: a course code or a
/// parenthesized group.
///
/// Returns the unread rest of `input` and the tree of the term, or the
/// failure with the input from the place where the recognizer gave up, as
/// [`term_at`] defines both.
pub fn term<'a>(input: &'a str) -> (r: Result<(&'a str, RequisiteGroup), GrammarError<'a>>)
    ensures
        match term_at(input@, 0) {
            Parsed::Match { end, value } => r matches Ok((rest, group)) && rest@ == input@.skip(
                end,
            ) && group@ == value,
            Parsed::Failure { at } => r matches Err(e) && e.remaining@ == input@.skip(at),
        },
        r matches Ok((_, group)) ==> group@.well_formed(),
{
    let s = to_chars(input);
    proof {
        lemma_term_at(s@, 0);
    }
    match scan_term(&s, 0) {
        Ok((end, group)) => Ok((input.substring_char(end, s.len()), group)),
        Err(at) => Err(GrammarError { remaining: input.substring_char(at, s.len()) }),
    }
}

/// Recognizes an expression at the start of `input`.
///
/// Returns the unread rest of `input` and the requirement tree, or the
/// failure with the input from the place where the recognizer gave up, as
/// [`expr_at`] defines both. The recognizer fails where no term stands at
/// the start of `input`, and where an operator follows a term and no
/// expression stands to its right; it never returns a part of a chain as
/// the whole.
pub fn expr<'a>(input: &'a str) -> (r: Result<(&'a str, RequisiteGroup), GrammarError<'a>>)
    ensures
        match expr_at(input@, 0) {
            Parsed::Match { end, value } => r matches Ok((rest, group)) && rest@ == input@.skip(
                end,
            ) && group@ == value,
            Parsed::Failure { at } => r matches Err(e) && e.remaining@ == input@.skip(at),
        },
        r matches Ok((_, group)) ==> group@.well_formed(),
{
    let s = to_chars(input);
    proof {
        lemma_expr_at(s@, 0);
    }
    match scan_expr(&s, 0) {
        Ok((end, group)) => Ok((input.substring_char(end, s.len()), group)),
        Err(at) => Err(GrammarError { remaining: input.substring_char(at, s.len()) }),
    }
}

} // verus!
