//! Character classes and the small algorithms on character sequences that
//! the normalizer, the grammar and the catalog rules share.
//!
//! Every algorithm works on a `Vec<char>` and is specified over its view, a
//! `Seq<char>`. Places in a sequence are indices counted in characters.
use vstd::prelude::*;

verus! {

broadcast use vstd::string::group_string_axioms;

/// `String::push` appends the given character to the end of the string.
pub assume_specification[ String::push ](s: &mut String, c: char)
    ensures
        final(s)@ == old(s)@.push(c),
;

/// A set of characters that a scan can test for.
#[derive(Debug, Clone, Copy, PartialEq, Eq)]
pub enum CharClass {
    /// The ASCII letters `A` to `Z`.
    Upper,
    /// The ASCII digits `0` to `9`.
    Digit,
    /// The ASCII letters of either case.
    Alpha,
    /// Space, tab, carriage return and line feed.
    Blank,
    /// The characters with the Unicode property `White_Space`.
    Whitespace,
    /// Every character without the Unicode property `White_Space`.
    Visible,
}

/// Whether `c` has the Unicode property `White_Space`.
pub open spec fn is_whitespace(c: char) -> bool {
    ||| '\u{9}' <= c <= '\u{d}'
    ||| c == ' '
    ||| c == '\u{85}'
    ||| c == '\u{a0}'
    ||| c == '\u{1680}'
    ||| '\u{2000}' <= c <= '\u{200a}'
    ||| c == '\u{2028}'
    ||| c == '\u{2029}'
    ||| c == '\u{202f}'
    ||| c == '\u{205f}'
    ||| c == '\u{3000}'
}

impl CharClass {
    /// Whether `c` belongs to the class.
    pub open spec fn contains(self, c: char) -> bool {
        match self {
            CharClass::Upper => 'A' <= c <= 'Z',
            CharClass::Digit => '0' <= c <= '9',
            CharClass::Alpha => 'A' <= c <= 'Z' || 'a' <= c <= 'z',
            CharClass::Blank => c == ' ' || c == '\t' || c == '\r' || c == '\n',
            CharClass::Whitespace => is_whitespace(c),
            CharClass::Visible => !is_whitespace(c),
        }
    }

    /// Tests whether `c` belongs to the class.
    pub fn holds(self, c: char) -> (b: bool)
        ensures
            b == self.contains(c),
    {
        match self {
            CharClass::Upper => 'A' <= c && c <= 'Z',
            CharClass::Digit => '0' <= c && c <= '9',
            CharClass::Alpha => ('A' <= c && c <= 'Z') || ('a' <= c && c <= 'z'),
            CharClass::Blank => c == ' ' || c == '\t' || c == '\r' || c == '\n',
            CharClass::Whitespace => whitespace(c),
            CharClass::Visible => !whitespace(c),
        }
    }
}

/// Tests whether `c` has the Unicode property `White_Space`.
pub fn whitespace(c: char) -> (b: bool)
    ensures
        b == is_whitespace(c),
{
    ('\u{9}' <= c && c <= '\u{d}') || c == ' ' || c == '\u{85}' || c == '\u{a0}' || c
        == '\u{1680}' || ('\u{2000}' <= c && c <= '\u{200a}') || c == '\u{2028}' || c
        == '\u{2029}' || c == '\u{202f}' || c == '\u{205f}' || c == '\u{3000}'
}

/// The upper-case form of an ASCII lower-case letter; any other character
/// is its own upper-case form.
pub open spec fn upper_of(c: char) -> char {
    if 'a' <= c <= 'z' {
        ((c as u8) - 32) as char
    } else {
        c
    }
}

/// Computes [`upper_of`].
pub fn to_upper(c: char) -> (u: char)
    ensures
        u == upper_of(c),
{
    if 'a' <= c && c <= 'z' {
        ((c as u8) - 32) as char
    } else {
        c
    }
}

/// The characters of `s`, in order.
pub fn to_chars(s: &str) -> (v: Vec<char>)
    ensures
        v@ == s@,
{
    let mut v: Vec<char> = Vec::new();
    for c in it: s.chars()
        invariant
            it.seq() == s@,
            v@ == it.seq().take(it.index() as int),
    {
        v.push(c);
    }
    v
}

/// The string made of the characters of `v`, in order.
pub fn from_chars(v: &Vec<char>) -> (s: String)
    ensures
        s@ == v@,
{
    let mut s = String::new();
    let mut i: usize = 0;
    while i < v.len()
        invariant
            i <= v.len(),
            s@ == v@.take(i as int),
        decreases v.len() - i,
    {
        s.push(v[i]);
        i += 1;
    }
    s
}

/// The place where the longest run of characters of class `k` that starts
/// at `from` ends: the first place at or after `from` that holds a character
/// outside `k`, or the length of `s` where there is none.
pub open spec fn run_end(s: Seq<char>, from: int, k: CharClass) -> int
    decreases s.len() - from,
{
    if 0 <= from < s.len() && k.contains(s[from]) {
        run_end(s, from + 1, k)
    } else {
        from
    }
}

/// The place where the longest run of characters of class `k` that ends
/// just before `to` starts.
pub open spec fn run_start(s: Seq<char>, to: int, k: CharClass) -> int
    decreases to,
{
    if 0 < to <= s.len() && k.contains(s[to - 1]) {
        run_start(s, to - 1, k)
    } else {
        to
    }
}

/// Whether the three characters of `s` from `from` on exist and are all of
/// class `k`.
pub open spec fn three_of(s: Seq<char>, from: int, k: CharClass) -> bool {
    &&& 0 <= from
    &&& from + 3 <= s.len()
    &&& k.contains(s[from])
    &&& k.contains(s[from + 1])
    &&& k.contains(s[from + 2])
}

/// A run ends inside the sequence, everything before its end belongs to the
/// class, and what stands at its end does not.
pub proof fn lemma_run_end(s: Seq<char>, from: int, k: CharClass)
    requires
        0 <= from <= s.len(),
    ensures
        from <= run_end(s, from, k) <= s.len(),
        forall|i: int| from <= i < run_end(s, from, k) ==> k.contains(#[trigger] s[i]),
        run_end(s, from, k) < s.len() ==> !k.contains(s[run_end(s, from, k)]),
    decreases s.len() - from,
{
    if from < s.len() && k.contains(s[from]) {
        lemma_run_end(s, from + 1, k);
    }
}

/// The end of a run is the only place with the properties that
/// [`lemma_run_end`] states.
pub proof fn lemma_run_end_is(s: Seq<char>, from: int, k: CharClass, end: int)
    requires
        0 <= from <= end <= s.len(),
        forall|i: int| from <= i < end ==> k.contains(#[trigger] s[i]),
        end < s.len() ==> !k.contains(s[end]),
    ensures
        run_end(s, from, k) == end,
    decreases end - from,
{
    if from < end {
        assert(k.contains(s[from]));
        lemma_run_end_is(s, from + 1, k, end);
    }
}

/// A backward run starts inside the sequence, everything after its start
/// belongs to the class, and what stands just before its start does not.
pub proof fn lemma_run_start(s: Seq<char>, to: int, k: CharClass)
    requires
        0 <= to <= s.len(),
    ensures
        0 <= run_start(s, to, k) <= to,
        forall|i: int| run_start(s, to, k) <= i < to ==> k.contains(#[trigger] s[i]),
        run_start(s, to, k) > 0 ==> !k.contains(s[run_start(s, to, k) - 1]),
    decreases to,
{
    if 0 < to && k.contains(s[to - 1]) {
        lemma_run_start(s, to - 1, k);
    }
}

/// Finds the end of the run of class `k` that starts at `from`.
pub fn skip_run(s: &Vec<char>, from: usize, k: CharClass) -> (end: usize)
    ensures
        end == run_end(s@, from as int, k),
        from <= end,
        from <= s.len() ==> end <= s.len(),
{
    let mut i: usize = from;
    while i < s.len() && k.holds(s[i])
        invariant
            from <= i,
            from <= s.len() ==> i <= s.len(),
            run_end(s@, i as int, k) == run_end(s@, from as int, k),
        decreases s.len() - i,
    {
        i += 1;
    }
    i
}

/// Finds the start of the run of class `k` that ends just before `to`.
pub fn skip_run_back(s: &Vec<char>, to: usize, k: CharClass) -> (start: usize)
    ensures
        start == run_start(s@, to as int, k),
        start <= to,
{
    let mut i: usize = to;
    while 0 < i && i <= s.len() && k.holds(s[i - 1])
        invariant
            i <= to,
            run_start(s@, i as int, k) == run_start(s@, to as int, k),
        decreases i,
    {
        i -= 1;
    }
    i
}

/// Tests whether three characters of class `k` stand at `from`.
pub fn has_three(s: &Vec<char>, from: usize, k: CharClass) -> (b: bool)
    ensures
        b == three_of(s@, from as int, k),
{
    from <= s.len() && s.len() - from >= 3 && k.holds(s[from]) && k.holds(s[from + 1])
        && k.holds(s[from + 2])
}

/// Whether `pattern` stands in `s` at the place `at`.
pub open spec fn occurs_at(s: Seq<char>, at: int, pattern: Seq<char>) -> bool {
    &&& 0 <= at
    &&& at + pattern.len() <= s.len()
    &&& s.subrange(at, at + pattern.len()) == pattern
}

/// Tests whether `pattern` stands in `s` at the place `at`.
pub fn occurs(s: &Vec<char>, at: usize, pattern: &Vec<char>) -> (b: bool)
    ensures
        b == occurs_at(s@, at as int, pattern@),
{
    if at > s.len() || pattern.len() > s.len() - at {
        return false;
    }
    let ghost window = s@.subrange(at as int, at + pattern.len());
    let mut j: usize = 0;
    while j < pattern.len()
        invariant
            j <= pattern.len(),
            at + pattern.len() <= s.len(),
            window == s@.subrange(at as int, at + pattern.len()),
            forall|t: int| 0 <= t < j ==> window[t] == pattern@[t],
        decreases pattern.len() - j,
    {
        if s[at + j] != pattern[j] {
            assert(window[j as int] != pattern@[j as int]);
            return false;
        }
        j += 1;
    }
    assert(window =~= pattern@);
    true
}

/// What is left of `s` from the place `from` on once every occurrence of
/// `pattern` is replaced by `with`. Occurrences are found from left to
/// right and do not overlap: after one is replaced the search goes on
/// behind it. An empty pattern occurs nowhere.
pub open spec fn replaced_from(
    s: Seq<char>,
    from: int,
    pattern: Seq<char>,
    with: Seq<char>,
) -> Seq<char>
    decreases s.len() - from,
{
    if from < 0 || from >= s.len() {
        Seq::empty()
    } else if pattern.len() > 0 && occurs_at(s, from, pattern) {
        with + replaced_from(s, from + pattern.len(), pattern, with)
    } else {
        seq![s[from]] + replaced_from(s, from + 1, pattern, with)
    }
}

/// `s` with every occurrence of `pattern` replaced by `with`.
pub open spec fn replaced(s: Seq<char>, pattern: Seq<char>, with: Seq<char>) -> Seq<char> {
    replaced_from(s, 0, pattern, with)
}

/// Replaces every occurrence of `pattern` in `s` by `with`.
pub fn replace_all(s: &Vec<char>, pattern: &Vec<char>, with: &Vec<char>) -> (out: Vec<char>)
    ensures
        out@ == replaced(s@, pattern@, with@),
{
    let mut out: Vec<char> = Vec::new();
    let mut i: usize = 0;
    while i < s.len()
        invariant
            i <= s.len(),
            out@ + replaced_from(s@, i as int, pattern@, with@) == replaced(
                s@,
                pattern@,
                with@,
            ),
        decreases s.len() - i,
    {
        let ghost before = out@;
        if pattern.len() > 0 && occurs(s, i, pattern) {
            let mut j: usize = 0;
            while j < with.len()
                invariant
                    j <= with.len(),
                    out@ == before + with@.take(j as int),
                decreases with.len() - j,
            {
                out.push(with[j]);
                j += 1;
            }
            assert(with@.take(with.len() as int) =~= with@);
            assert((before + with@) + replaced_from(
                s@,
                i + pattern.len(),
                pattern@,
                with@,
            ) =~= before + (with@ + replaced_from(s@, i + pattern.len(), pattern@, with@)));
            i += pattern.len();
        } else {
            out.push(s[i]);
            assert(before.push(s@[i as int]) + replaced_from(s@, i + 1, pattern@, with@)
                =~= before + (seq![s@[i as int]] + replaced_from(s@, i + 1, pattern@, with@)));
            i += 1;
        }
    }
    assert(out@ + Seq::<char>::empty() =~= out@);
    out
}

/// `s` without the characters of class `Whitespace` at its start and at its
/// end.
pub open spec fn trimmed(s: Seq<char>) -> Seq<char> {
    let start = run_end(s, 0, CharClass::Whitespace);
    let end = run_start(s, s.len() as int, CharClass::Whitespace);
    if start < end {
        s.subrange(start, end)
    } else {
        Seq::empty()
    }
}

/// Copies the characters of `s` from `start` up to `end`.
pub(crate) fn copy_range(s: &Vec<char>, start: usize, end: usize) -> (out: Vec<char>)
    requires
        start <= end <= s.len(),
    ensures
        out@ == s@.subrange(start as int, end as int),
{
    let mut out: Vec<char> = Vec::new();
    let mut i: usize = start;
    while i < end
        invariant
            start <= i <= end <= s.len(),
            out@ == s@.subrange(start as int, i as int),
        decreases end - i,
    {
        out.push(s[i]);
        assert(s@.subrange(start as int, i as int).push(s@[i as int]) =~= s@.subrange(
            start as int,
            i + 1,
        ));
        i += 1;
    }
    out
}

/// Whether `pattern` stands somewhere in `s`.
pub open spec fn occurs_in(s: Seq<char>, pattern: Seq<char>) -> bool {
    exists|at: int| occurs_at(s, at, pattern)
}

/// Tests whether `pattern` stands somewhere in `s`.
pub fn contains(s: &Vec<char>, pattern: &Vec<char>) -> (b: bool)
    ensures
        b == occurs_in(s@, pattern@),
{
    if pattern.len() > s.len() {
        return false;
    }
    let last = s.len() - pattern.len();
    let mut i: usize = 0;
    loop
        invariant
            i <= last,
            last == s.len() - pattern.len(),
            forall|at: int| 0 <= at < i ==> !occurs_at(s@, at, pattern@),
        decreases last - i,
    {
        if occurs(s, i, pattern) {
            return true;
        }
        if i == last {
            return false;
        }
        i += 1;
    }
}

/// `s` without `suffix` at its end; `s` itself where it does not end with
/// `suffix`.
pub open spec fn without_suffix(s: Seq<char>, suffix: Seq<char>) -> Seq<char> {
    if occurs_at(s, s.len() - suffix.len(), suffix) {
        s.subrange(0, s.len() - suffix.len())
    } else {
        s
    }
}

/// Removes `suffix` from the end of `s` where `s` ends with it.
pub fn strip_suffix(s: &Vec<char>, suffix: &Vec<char>) -> (out: Vec<char>)
    ensures
        out@ == without_suffix(s@, suffix@),
{
    if suffix.len() <= s.len() && occurs(s, s.len() - suffix.len(), suffix) {
        copy_range(s, 0, s.len() - suffix.len())
    } else {
        let out = copy_range(s, 0, s.len());
        assert(s@.subrange(0, s.len() as int) =~= s@);
        out
    }
}

/// What is left after trimming neither starts nor ends with whitespace.
pub proof fn lemma_trimmed_ends(s: Seq<char>)
    ensures
        trimmed(s).len() > 0 ==> !is_whitespace(trimmed(s).first()) && !is_whitespace(
            trimmed(s).last(),
        ),
{
    lemma_run_end(s, 0, CharClass::Whitespace);
    lemma_run_start(s, s.len() as int, CharClass::Whitespace);
}

/// Removes the whitespace at both ends of `s`.
pub fn trim(s: &Vec<char>) -> (out: Vec<char>)
    ensures
        out@ == trimmed(s@),
{
    let start = skip_run(s, 0, CharClass::Whitespace);
    let end = skip_run_back(s, s.len(), CharClass::Whitespace);
    if start < end {
        copy_range(s, start, end)
    } else {
        Vec::new()
    }
}

/// `s` with each ASCII lower-case letter replaced by its upper-case form.
pub open spec fn upper_cased(s: Seq<char>) -> Seq<char> {
    Seq::new(s.len(), |i: int| upper_of(s[i]))
}

/// Upper-cases the ASCII letters of `s`.
pub fn to_ascii_upper(s: &Vec<char>) -> (out: Vec<char>)
    ensures
        out@ == upper_cased(s@),
{
    let mut out: Vec<char> = Vec::new();
    let mut i: usize = 0;
    while i < s.len()
        invariant
            i <= s.len(),
            out@.len() == i,
            forall|j: int| 0 <= j < i ==> out@[j] == upper_of(s@[j]),
        decreases s.len() - i,
    {
        out.push(to_upper(s[i]));
        i += 1;
    }
    assert(out@ =~= upper_cased(s@));
    out
}

} // verus!
