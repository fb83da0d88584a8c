//! Plain text out of the HTML that catalog fields carry.
use crate::text::{from_chars, lemma_run_end, run_end, skip_run, to_chars, CharClass};
use vstd::prelude::*;

verus! {

/// The text that the HTML fragment `html` holds: the contents of the text
/// nodes of its tree, in document order, one after the other. The tree is
/// the one that an HTML parser builds for `html` read as the contents of a
/// `body` element.
pub uninterp spec fn fragment_text(html: Seq<char>) -> Seq<char>;

/// Calls `scraper::Html::parse_fragment` on `html` and collects what
/// `text()` yields for the root element of the tree into one string. The
/// contract gives that string the name [`fragment_text`] and claims nothing
/// else of it.
#[verifier::external_body]
fn text_of_fragment(html: &str) -> (text: String)
    ensures
        text@ == fragment_text(html@),
{
    scraper::Html::parse_fragment(html).root_element().text().collect()
}

/// The words of `s` from the place `from` on, joined by single spaces. A
/// word is a longest run of characters that are not whitespace.
pub open spec fn words_joined(s: Seq<char>, from: int) -> Seq<char>
    decreases s.len() - from,
{
    let start = run_end(s, from, CharClass::Whitespace);
    if 0 <= from && start < s.len() {
        let end = run_end(s, start, CharClass::Visible);
        proof {
            lemma_run_end(s, from, CharClass::Whitespace);
            lemma_run_end(s, start + 1, CharClass::Visible);
        }
        let rest = words_joined(s, end);
        if rest.len() == 0 {
            s.subrange(start, end)
        } else {
            s.subrange(start, end) + seq![' '] + rest
        }
    } else {
        Seq::empty()
    }
}

/// Joins the words of `text` by single spaces: whitespace at both ends
/// goes, and each run of whitespace between two words becomes one space.
pub fn collapse_whitespace(text: &str) -> (out: String)
    ensures
        out@ == words_joined(text@, 0),
{
    let s = to_chars(text);
    let mut out: Vec<char> = Vec::new();
    let mut i: usize = 0;
    loop
        invariant
            i <= s.len(),
            words_joined(s@, 0) == if out@.len() == 0 {
                words_joined(s@, i as int)
            } else if words_joined(s@, i as int).len() == 0 {
                out@
            } else {
                out@ + seq![' '] + words_joined(s@, i as int)
            },
        ensures
            out@ == words_joined(s@, 0),
        decreases s.len() - i,
    {
        let start = skip_run(&s, i, CharClass::Whitespace);
        if start >= s.len() {
            break ;
        }
        proof {
            lemma_run_end(s@, i as int, CharClass::Whitespace);
            lemma_run_end(s@, start + 1, CharClass::Visible);
        }
        let end = skip_run(&s, start, CharClass::Visible);
        let ghost before = out@;
        let ghost word = s@.subrange(start as int, end as int);
        let ghost rest = words_joined(s@, end as int);
        if out.len() > 0 {
            out.push(' ');
        }
        let ghost lead = out@;
        let mut j: usize = start;
        while j < end
            invariant
                start <= j <= end <= s.len(),
                out@ == lead + s@.subrange(start as int, j as int),
            decreases end - j,
        {
            out.push(s[j]);
            assert(s@.subrange(start as int, j as int).push(s@[j as int]) =~= s@.subrange(
                start as int,
                j + 1,
            ));
            j += 1;
        }
        proof {
            assert(word.len() > 0);
            if before.len() == 0 {
                assert(lead + word =~= word);
            } else {
                assert(before + seq![' '] + (word + seq![' '] + rest) =~= (before.push(' ')
                    + word) + seq![' '] + rest);
                assert(before + seq![' '] + word =~= before.push(' ') + word);
            }
        }
        i = end;
    }
    from_chars(&out)
}

/// Strips the HTML tags from `s` and joins the words that are left by
/// single spaces.
pub fn clean_html(s: &str) -> (out: String)
    ensures
        out@ == words_joined(fragment_text(s@), 0),
{
    let text = text_of_fragment(s);
    collapse_whitespace(text.as_str())
}

} // verus!
