//! The canonical text of a requirement tree, and the proof that the grammar
//! reads it back as the same tree.
use crate::grammar::{code_at, expr_at, group_at, operator_at, term_at, Parsed};
use crate::requisite::{
    is_canonical_code, lemma_view_children, Operator, RequisiteGroup, RequisiteTree,
};
use crate::text::{
    from_chars, has_three, lemma_run_end_is, occurs_at, run_end, to_chars, CharClass,
};
use vstd::prelude::*;

verus! {

/// The canonical text of `tree`: a leaf is its code; an inner node is its
/// two operands with the operator's word between them. A tree with an inner
/// node that does not have exactly two children has no canonical text; the
/// function gives the empty text for such a node.
pub open spec fn text_of(tree: RequisiteTree) -> Seq<char>
    decreases tree, 0int,
{
    match tree {
        RequisiteTree::Course(code) => code,
        RequisiteTree::AllOf(children) => if children.len() == 2 {
            operand_text(children[0]) + Operator::And.word() + operand_text(children[1])
        } else {
            Seq::empty()
        },
        RequisiteTree::AnyOf(children) => if children.len() == 2 {
            operand_text(children[0]) + Operator::Or.word() + operand_text(children[1])
        } else {
            Seq::empty()
        },
    }
}

/// The text of `tree` as an operand: a leaf is its code, an inner node is
/// its canonical text between parentheses.
pub open spec fn operand_text(tree: RequisiteTree) -> Seq<char>
    decreases tree, 1int,
{
    match tree {
        RequisiteTree::Course(code) => code,
        _ => seq!['('] + text_of(tree) + seq![')'],
    }
}

/// Whether a term can start with `c`.
pub open spec fn opens_term(c: char) -> bool {
    CharClass::Upper.contains(c) || c == '('
}

/// Whether the input ends at `at` or a closing parenthesis stands there.
pub open spec fn closes(s: Seq<char>, at: int) -> bool {
    at == s.len() || (0 <= at < s.len() && s[at] == ')')
}

proof fn lemma_at(s: Seq<char>, pos: int, text: Seq<char>, i: int)
    requires
        occurs_at(s, pos, text),
        0 <= i < text.len(),
    ensures
        s[pos + i] == text[i],
{
    assert(s.subrange(pos, pos + text.len())[i] == text[i]);
}

proof fn lemma_split(s: Seq<char>, pos: int, x: Seq<char>, y: Seq<char>)
    requires
        occurs_at(s, pos, x + y),
    ensures
        occurs_at(s, pos, x),
        occurs_at(s, pos + x.len(), y),
{
    let whole = s.subrange(pos, pos + (x + y).len());
    assert forall|i: int| 0 <= i < x.len() implies s.subrange(pos, pos + x.len())[i] == x[i] by {
        assert(whole[i] == (x + y)[i]);
    }
    assert(s.subrange(pos, pos + x.len()) =~= x);
    assert forall|i: int| 0 <= i < y.len() implies s.subrange(
        pos + x.len(),
        pos + x.len() + y.len(),
    )[i] == y[i] by {
        assert(whole[x.len() + i] == (x + y)[x.len() + i]);
    }
    assert(s.subrange(pos + x.len(), pos + x.len() + y.len()) =~= y);
}

/// The canonical text of a well-formed tree is not empty and starts as a
/// term does; so does its text as an operand.
pub proof fn lemma_text_starts(tree: RequisiteTree)
    requires
        tree.well_formed(),
    ensures
        text_of(tree).len() > 0,
        opens_term(text_of(tree)[0]),
        operand_text(tree).len() > 0,
        opens_term(operand_text(tree)[0]),
    decreases tree,
{
    match tree {
        RequisiteTree::Course(_) => {},
        RequisiteTree::AllOf(children) => {
            lemma_text_starts(children[0]);
        },
        RequisiteTree::AnyOf(children) => {
            lemma_text_starts(children[0]);
        },
    }
}

proof fn lemma_code_parses(s: Seq<char>, pos: int, code: Seq<char>)
    requires
        is_canonical_code(code),
        occurs_at(s, pos, code),
        pos + 7 < s.len() ==> !CharClass::Alpha.contains(s[pos + 7]) && !CharClass::Digit.contains(
            s[pos + 7],
        ),
    ensures
        code_at(s, pos) == (Parsed::Match { end: pos + 7, value: code }),
{
    lemma_at(s, pos, code, 0);
    lemma_at(s, pos, code, 1);
    lemma_at(s, pos, code, 2);
    lemma_at(s, pos, code, 3);
    lemma_at(s, pos, code, 4);
    lemma_at(s, pos, code, 5);
    lemma_at(s, pos, code, 6);
    lemma_run_end_is(s, pos + 3, CharClass::Blank, pos + 4);
    lemma_run_end_is(s, pos + 7, CharClass::Alpha, pos + 7);
    assert(s.subrange(pos, pos + 3) + seq![' '] + s.subrange(pos + 4, pos + 7) =~= code);
}

proof fn lemma_operator_parses(s: Seq<char>, at: int, operator: Operator)
    requires
        occurs_at(s, at, operator.word()),
        at + operator.word().len() < s.len(),
        opens_term(s[at + operator.word().len()]),
    ensures
        operator_at(s, run_end(s, at, CharClass::Blank)) == Some(
            (operator, at + operator.word().len() - 1),
        ),
        run_end(s, at + operator.word().len() - 1, CharClass::Blank) == at
            + operator.word().len(),
{
    let word = operator.word();
    lemma_at(s, at, word, 0);
    lemma_at(s, at, word, 1);
    lemma_at(s, at, word, 2);
    lemma_at(s, at, word, 3);
    if operator == Operator::And {
        lemma_at(s, at, word, 4);
    }
    lemma_run_end_is(s, at, CharClass::Blank, at + 1);
    lemma_run_end_is(s, at + word.len() - 1, CharClass::Blank, at + word.len());
}

proof fn lemma_term_alone(s: Seq<char>, pos: int, end: int, tree: RequisiteTree)
    requires
        term_at(s, pos) == (Parsed::Match { end, value: tree }),
        0 <= end <= s.len(),
        closes(s, end),
    ensures
        expr_at(s, pos) == (Parsed::Match { end, value: tree }),
{
    lemma_run_end_is(s, end, CharClass::Blank, end);
}

/// The grammar reads the text of a well-formed tree as an operand back as
/// a term that denotes the tree, wherever the text stands, unless a letter
/// or a digit follows it.
pub proof fn lemma_operand_parses(s: Seq<char>, pos: int, tree: RequisiteTree)
    requires
        tree.well_formed(),
        occurs_at(s, pos, operand_text(tree)),
        pos + operand_text(tree).len() < s.len() ==> !CharClass::Alpha.contains(
            s[pos + operand_text(tree).len()],
        ) && !CharClass::Digit.contains(s[pos + operand_text(tree).len()]),
    ensures
        term_at(s, pos) == (Parsed::Match { end: pos + operand_text(tree).len(), value: tree }),
    decreases tree, 2int,
{
    match tree {
        RequisiteTree::Course(code) => {
            lemma_code_parses(s, pos, code);
        },
        _ => {
            let text = text_of(tree);
            lemma_text_starts(tree);
            lemma_split(s, pos, seq!['('] + text, seq![')']);
            lemma_split(s, pos, seq!['('], text);
            lemma_at(s, pos, seq!['('], 0);
            lemma_at(s, pos + 1, text, 0);
            lemma_at(s, pos + 1 + text.len(), seq![')'], 0);
            lemma_run_end_is(s, pos + 1, CharClass::Blank, pos + 1);
            lemma_text_parses(s, pos + 1, tree);
            lemma_run_end_is(s, pos + 1 + text.len(), CharClass::Blank, pos + 1 + text.len());
            assert(code_at(s, pos) is Failure);
            assert(group_at(s, pos) == (Parsed::Match {
                end: pos + operand_text(tree).len(),
                value: tree,
            }));
        },
    }
}

/// The grammar reads the canonical text of a well-formed tree back as an
/// expression that denotes the tree, wherever the text stands, if the
/// input ends behind it or a closing parenthesis follows.
pub proof fn lemma_text_parses(s: Seq<char>, pos: int, tree: RequisiteTree)
    requires
        tree.well_formed(),
        occurs_at(s, pos, text_of(tree)),
        closes(s, pos + text_of(tree).len()),
    ensures
        expr_at(s, pos) == (Parsed::Match { end: pos + text_of(tree).len(), value: tree }),
    decreases tree, 1int,
{
    match tree {
        RequisiteTree::Course(code) => {
            lemma_code_parses(s, pos, code);
            lemma_term_alone(s, pos, pos + 7, tree);
        },
        RequisiteTree::AllOf(children) => {
            lemma_node_parses(s, pos, tree, Operator::And, children);
        },
        RequisiteTree::AnyOf(children) => {
            lemma_node_parses(s, pos, tree, Operator::Or, children);
        },
    }
}

proof fn lemma_node_parses(
    s: Seq<char>,
    pos: int,
    tree: RequisiteTree,
    operator: Operator,
    children: Seq<RequisiteTree>,
)
    requires
        tree.well_formed(),
        (operator == Operator::And && tree == RequisiteTree::AllOf(children)) || (operator
            == Operator::Or && tree == RequisiteTree::AnyOf(children)),
        occurs_at(s, pos, text_of(tree)),
        closes(s, pos + text_of(tree).len()),
    ensures
        expr_at(s, pos) == (Parsed::Match { end: pos + text_of(tree).len(), value: tree }),
    decreases tree, 0int,
{
    let first = children[0];
    let second = children[1];
    let left = operand_text(first);
    let word = operator.word();
    let right = operand_text(second);
    let at = pos + left.len();
    let start = at + word.len();
    assert(text_of(tree) == left + word + right);
    lemma_text_starts(first);
    lemma_text_starts(second);
    lemma_split(s, pos, left + word, right);
    lemma_split(s, pos, left, word);
    lemma_at(s, at, word, 0);
    lemma_at(s, start, right, 0);
    lemma_operand_parses(s, pos, first);
    lemma_operator_parses(s, at, operator);
    lemma_operand_parses(s, start, second);
    lemma_term_alone(s, start, start + right.len(), second);
    assert(children =~= seq![first, second]);
}

/// Reading the canonical text of a well-formed tree gives the tree back:
/// the grammar matches the whole text, and the expression it recognizes
/// denotes exactly that tree.
pub proof fn lemma_round_trip(tree: RequisiteTree)
    requires
        tree.well_formed(),
    ensures
        expr_at(text_of(tree), 0) == (Parsed::Match {
            end: text_of(tree).len() as int,
            value: tree,
        }),
{
    let text = text_of(tree);
    assert(text.subrange(0, text.len() as int) =~= text);
    lemma_text_parses(text, 0, tree);
}

fn push_all(out: &mut Vec<char>, text: &Vec<char>)
    ensures
        final(out)@ == old(out)@ + text@,
{
    let mut i: usize = 0;
    while i < text.len()
        invariant
            i <= text.len(),
            out@ == old(out)@ + text@.take(i as int),
        decreases text.len() - i,
    {
        out.push(text[i]);
        assert(text@.take(i as int).push(text@[i as int]) =~= text@.take(i + 1));
        i += 1;
    }
    assert(text@.take(text.len() as int) =~= text@);
}

fn word_of(operator: Operator) -> (word: Vec<char>)
    ensures
        word@ == operator.word(),
{
    let word = match operator {
        Operator::And => vec![' ', 'A', 'N', 'D', ' '],
        Operator::Or => vec![' ', 'O', 'R', ' '],
    };
    assert(word@ =~= operator.word());
    word
}

fn write_node(children: &Vec<RequisiteGroup>, operator: Operator, out: &mut Vec<char>) -> (ok:
    bool)
    ensures
        ok == (children@.len() == 2 && children@[0]@.well_formed()
            && children@[1]@.well_formed()),
        ok ==> final(out)@ == old(out)@ + operand_text(children@[0]@) + operator.word()
            + operand_text(children@[1]@),
    decreases children, 0int,
{
    if children.len() != 2 {
        return false;
    }
    if !write_operand(&children[0], out) {
        return false;
    }
    push_all(out, &word_of(operator));
    write_operand(&children[1], out)
}

fn write_text(group: &RequisiteGroup, out: &mut Vec<char>) -> (ok: bool)
    ensures
        ok == group@.well_formed(),
        ok ==> final(out)@ == old(out)@ + text_of(group@),
    decreases group, 1int,
{
    proof {
        lemma_view_children(*group);
    }
    match group {
        RequisiteGroup::Course(code) => {
            let code = to_chars(code.as_str());
            if code.len() == 7 && has_three(&code, 0, CharClass::Upper) && code[3] == ' '
                && has_three(&code, 4, CharClass::Digit) {
                push_all(out, &code);
                true
            } else {
                false
            }
        },
        RequisiteGroup::AllOf(children) => write_node(children, Operator::And, out),
        RequisiteGroup::AnyOf(children) => write_node(children, Operator::Or, out),
    }
}

fn write_operand(group: &RequisiteGroup, out: &mut Vec<char>) -> (ok: bool)
    ensures
        ok == group@.well_formed(),
        ok ==> final(out)@ == old(out)@ + operand_text(group@),
    decreases group, 2int,
{
    match group {
        RequisiteGroup::Course(_) => write_text(group, out),
        _ => {
            out.push('(');
            if !write_text(group, out) {
                return false;
            }
            out.push(')');
            assert(out@ =~= old(out)@ + (seq!['('] + text_of(group@) + seq![')']));
            true
        },
    }
}

impl RequisiteGroup {
    /// Writes the tree as canonical text, which [`crate::grammar::expr`]
    /// reads back as the same tree.
    ///
    /// Returns the text where the tree is well-formed, and `None` where it
    /// is not: where a leaf holds no canonical course code, or an inner
    /// node does not have exactly two children.
    pub fn to_text(&self) -> (text: Option<String>)
        ensures
            match text {
                Some(text) => self@.well_formed() && text@ == text_of(self@),
                None => !self@.well_formed(),
            },
            text matches Some(text) ==> expr_at(text@, 0) == (Parsed::Match {
                end: text@.len() as int,
                value: self@,
            }),
    {
        let mut out: Vec<char> = Vec::new();
        if write_text(self, &mut out) {
            proof {
                assert(out@ =~= text_of(self@));
                lemma_round_trip(self@);
            }
            Some(from_chars(&out))
        } else {
            None
        }
    }
}

} // verus!
