//! The normalizer: rewrites raw catalog text into the form that the grammar
//! reads.
use crate::requisite::Operator;
use crate::text::{
    from_chars, replace_all, replaced, to_ascii_upper, to_chars, trim, trimmed, upper_cased,
};
use vstd::prelude::*;

verus! {

/// The operator that a comma stands for, between two spaces: `AND` in a
/// conjunctive field, `OR` in a disjunctive one.
pub open spec fn comma_word(conjunctive: bool) -> Seq<char> {
    if conjunctive {
        Operator::And.word()
    } else {
        Operator::Or.word()
    }
}

/// The canonical form of the raw text `raw`. In this order: square brackets
/// become round ones; each comma becomes [`comma_word`]; each pair of
/// spaces, found from left to right without overlap, becomes one space;
/// whitespace at both ends goes; ASCII letters become upper-case.
pub open spec fn normalized(raw: Seq<char>, conjunctive: bool) -> Seq<char> {
    let round_open = replaced(raw, seq!['['], seq!['(']);
    let round = replaced(round_open, seq![']'], seq![')']);
    let worded = replaced(round, seq![','], comma_word(conjunctive));
    let spaced = replaced(worded, seq![' ', ' '], seq![' ']);
    upper_cased(trimmed(spaced))
}

/// Normalizes a raw requisite string. `is_prereq` says that the field is
/// conjunctive (a prerequisite list); any other field is disjunctive.
pub fn preprocess(input: &str, is_prereq: bool) -> (out: String)
    ensures
        out@ == normalized(input@, is_prereq),
{
    let open = vec!['['];
    let round_open = vec!['('];
    let close = vec![']'];
    let round_close = vec![')'];
    let comma = vec![','];
    let word = if is_prereq {
        vec![' ', 'A', 'N', 'D', ' ']
    } else {
        vec![' ', 'O', 'R', ' ']
    };
    let pair = vec![' ', ' '];
    let space = vec![' '];
    proof {
        assert(open@ =~= seq!['[']);
        assert(round_open@ =~= seq!['(']);
        assert(close@ =~= seq![']']);
        assert(round_close@ =~= seq![')']);
        assert(comma@ =~= seq![',']);
        assert(word@ =~= comma_word(is_prereq));
        assert(pair@ =~= seq![' ', ' ']);
        assert(space@ =~= seq![' ']);
    }
    let raw = to_chars(input);
    let opened = replace_all(&raw, &open, &round_open);
    let round = replace_all(&opened, &close, &round_close);
    let worded = replace_all(&round, &comma, &word);
    let spaced = replace_all(&worded, &pair, &space);
    from_chars(&to_ascii_upper(&trim(&spaced)))
}

} // verus!
