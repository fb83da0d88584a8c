use crucible::html::{clean_html, collapse_whitespace};

#[test]
fn collapse_whitespace_joins_words_by_single_spaces() {
    assert_eq!(collapse_whitespace(""), "");
    assert_eq!(collapse_whitespace("   "), "");
    assert_eq!(collapse_whitespace("word"), "word");
    assert_eq!(collapse_whitespace("  two   words  "), "two words");
    assert_eq!(collapse_whitespace("a\tb\r\nc\u{a0}d\u{3000}e"), "a b c d e");
    assert_eq!(collapse_whitespace("\n MTH 101  and\tPCS 125 \n"), "MTH 101 and PCS 125");
    assert_eq!(collapse_whitespace("a\u{200b}b"), "a\u{200b}b");
}

#[test]
fn collapse_whitespace_agrees_with_the_standard_split() {
    let pieces = ["a", "bc", " ", "  ", "\t", "\n", "\u{a0}", "\u{e9}", "\u{2003}", "."];
    let mut seed: u64 = 0x1234_5678_9abc_def1;
    for round in 0..4000 {
        let mut input = String::new();
        for _ in 0..(round % 10) {
            seed = seed.wrapping_mul(6364136223846793005).wrapping_add(1442695040888963407);
            input.push_str(pieces[((seed >> 33) as usize) % pieces.len()]);
        }
        let expected = input.split_whitespace().collect::<Vec<_>>().join(" ");
        assert_eq!(collapse_whitespace(&input), expected);
    }
}

#[test]
fn clean_html_strips_the_tags() {
    assert_eq!(clean_html("<a href=\"/courses/mth/101\">MTH 101</a>"), "MTH 101");
    assert_eq!(
        clean_html("<p>Hello   <b>World</b></p>\n<p> again </p>"),
        "Hello World again"
    );
    assert_eq!(
        clean_html("<a href=\"x\">MTH 101</a> and (<a href=\"y\">PCS 125</a> or CPS 109)"),
        "MTH 101 and (PCS 125 or CPS 109)"
    );
}

#[test]
fn clean_html_keeps_plain_text() {
    assert_eq!(clean_html(""), "");
    assert_eq!(clean_html("MTH 101, PCS 125"), "MTH 101, PCS 125");
    assert_eq!(clean_html("  MTH 101 \n"), "MTH 101");
    assert_eq!(clean_html("a &amp; b &lt; c"), "a & b < c");
}
