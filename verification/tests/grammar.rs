use crucible::grammar::{course_code, expr, paren_delimited, term};
use crucible::normalize::preprocess;
use crucible::requisite::{GrammarError, Operator, RequisiteGroup};

fn course(code: &str) -> RequisiteGroup {
    RequisiteGroup::Course(code.to_string())
}

fn all_of(first: RequisiteGroup, second: RequisiteGroup) -> RequisiteGroup {
    RequisiteGroup::AllOf(vec![first, second])
}

fn any_of(first: RequisiteGroup, second: RequisiteGroup) -> RequisiteGroup {
    RequisiteGroup::AnyOf(vec![first, second])
}

fn failure(remaining: &str) -> GrammarError<'_> {
    GrammarError { remaining }
}

#[test]
fn test_course_code() {
    assert!(course_code("ABC").is_err());
    assert!(course_code("ABC12").is_err());
    assert!(course_code("AB 123").is_err());
    assert!(course_code("123 ABC").is_err());
    assert!(course_code("abc 123").is_err());
    assert_eq!(course_code("MTH 101"), Ok(("", "MTH 101".to_string())));
    assert_eq!(course_code("PCS 102A"), Ok(("", "PCS 102".to_string())));
    assert_eq!(course_code("MTH 130A/B"), Ok(("", "MTH 130".to_string())));
}

#[test]
fn test_expr() {
    assert_eq!(
        expr("MTH 101 AND PCS 125").unwrap(),
        (
            "",
            RequisiteGroup::AllOf(vec![
                RequisiteGroup::Course("MTH 101".to_string()),
                RequisiteGroup::Course("PCS 125".to_string())
            ])
        )
    );

    assert_eq!(
        expr("(MTH 101) AND PCS 125").unwrap(),
        (
            "",
            RequisiteGroup::AllOf(vec![
                RequisiteGroup::Course("MTH 101".to_string()),
                RequisiteGroup::Course("PCS 125".to_string())
            ])
        )
    );
}

#[test]
fn test_paren_delimited() {
    assert_eq!(
        paren_delimited("(MTH 101)"),
        Ok(("", RequisiteGroup::Course("MTH 101".to_string())))
    );

    assert_eq!(
        paren_delimited("(MTH 101 AND PCS 125)"),
        Ok((
            "",
            RequisiteGroup::AllOf(vec![
                RequisiteGroup::Course("MTH 101".to_string()),
                RequisiteGroup::Course("PCS 125".to_string())
            ])
        ))
    );

    assert_eq!(
        paren_delimited("(MTH 101 AND (PCS 125 OR CPS 109))"),
        Ok((
            "",
            RequisiteGroup::AllOf(vec![
                RequisiteGroup::Course("MTH 101".to_string()),
                RequisiteGroup::AnyOf(vec![
                    RequisiteGroup::Course("PCS 125".to_string()),
                    RequisiteGroup::Course("CPS 109".to_string())
                ])
            ])
        ))
    );
}

#[test]
fn test_complete_parser() {
    let input = preprocess("[CPS 305 AND MTH 108 AND (MTH 380 OR MTH 304)]", true);
    assert_eq!(
        expr(&input),
        Ok((
            "",
            RequisiteGroup::AllOf(vec![
                RequisiteGroup::Course("CPS 305".to_string()),
                RequisiteGroup::AllOf(vec![
                    RequisiteGroup::Course("MTH 108".to_string()),
                    RequisiteGroup::AnyOf(vec![
                        RequisiteGroup::Course("MTH 380".to_string()),
                        RequisiteGroup::Course("MTH 304".to_string())
                    ])
                ])
            ])
        ))
    );
}

#[test]
fn course_code_joins_subject_and_number_by_one_space() {
    for subject in ["MTH", "PCS", "CPS", "AAA", "ZZZ", "AZB"] {
        for number in ["101", "000", "999", "507"] {
            let canonical = format!("{} {}", subject, number);
            for blanks in ["", " ", "  ", "\t", " \t\r\n"] {
                let input = format!("{}{}{}", subject, blanks, number);
                assert_eq!(course_code(&input), Ok(("", canonical.clone())));
            }
        }
    }
}

#[test]
fn course_code_leaves_what_follows_the_match() {
    assert_eq!(course_code("MTH 101 AND PCS 125"), Ok((" AND PCS 125", "MTH 101".to_string())));
    assert_eq!(course_code("MTH 101)"), Ok((")", "MTH 101".to_string())));
    assert_eq!(course_code("MTH 101-4"), Ok(("-4", "MTH 101".to_string())));
    assert_eq!(course_code("MTH101, PCS 125"), Ok((", PCS 125", "MTH 101".to_string())));
    assert_eq!(course_code("MTH 101\u{e9}"), Ok(("\u{e9}", "MTH 101".to_string())));
    assert_eq!(course_code("MTH\u{a0}101"), Err(failure("\u{a0}101")));
}

#[test]
fn course_code_drops_the_variant_suffix() {
    assert_eq!(course_code("PCS 102A"), Ok(("", "PCS 102".to_string())));
    assert_eq!(course_code("PCS 102a"), Ok(("", "PCS 102".to_string())));
    assert_eq!(course_code("PCS 102AB"), Ok(("", "PCS 102".to_string())));
    assert_eq!(course_code("MTH 130A/B"), Ok(("", "MTH 130".to_string())));
    assert_eq!(course_code("MTH 130AB/cd x"), Ok((" x", "MTH 130".to_string())));
    assert_eq!(course_code("MTH 130A/"), Ok(("/", "MTH 130".to_string())));
    assert_eq!(course_code("MTH 130A/1"), Ok(("/1", "MTH 130".to_string())));
    assert_eq!(course_code("MTH 130/B"), Ok(("/B", "MTH 130".to_string())));
    assert_eq!(course_code("MTH 130A/B/C"), Ok(("/C", "MTH 130".to_string())));
    assert_eq!(course_code("MTH 130A B"), Ok((" B", "MTH 130".to_string())));
    assert_eq!(course_code("MTH 130A1"), Ok(("1", "MTH 130".to_string())));
}

#[test]
fn course_code_fails_where_it_gave_up() {
    assert_eq!(course_code(""), Err(failure("")));
    assert_eq!(course_code("ABC"), Err(failure("")));
    assert_eq!(course_code("ABC12"), Err(failure("12")));
    assert_eq!(course_code("AB 123"), Err(failure("AB 123")));
    assert_eq!(course_code("123 ABC"), Err(failure("123 ABC")));
    assert_eq!(course_code("abc 123"), Err(failure("abc 123")));
    assert_eq!(course_code("ABCD 123"), Err(failure("D 123")));
    assert_eq!(course_code("ABC  12x"), Err(failure("12x")));
    assert_eq!(course_code(" ABC 123"), Err(failure(" ABC 123")));
    assert_eq!(course_code("AB\u{c9} 123"), Err(failure("AB\u{c9} 123")));
    assert_eq!(course_code("ABC \u{661}23"), Err(failure("\u{661}23")));
}

#[test]
fn course_code_fails_on_a_fourth_digit() {
    assert_eq!(course_code("MTH 1011"), Err(failure("1011")));
    assert_eq!(course_code("MTH 1014"), Err(failure("1014")));
    assert_eq!(course_code("MTH1011"), Err(failure("1011")));
    assert_eq!(course_code("MTH  10112 AND"), Err(failure("10112 AND")));
    assert_eq!(course_code("MTH 1011A"), Err(failure("1011A")));
    assert!(course_code("MTH 101A1").is_ok());
    assert!(course_code("MTH 101 1").is_ok());
    assert_eq!(expr("MTH 1011"), Err(failure("MTH 1011")));
    assert_eq!(expr("(MTH 1011)"), Err(failure("MTH 1011)")));
    assert_eq!(expr("PCS 125 OR MTH 1011"), Err(failure("MTH 1011")));
}

#[test]
fn term_is_a_code_or_a_group() {
    assert_eq!(term("MTH 101 AND PCS 125"), Ok((" AND PCS 125", course("MTH 101"))));
    assert_eq!(
        term("(MTH 101 OR PCS 125) AND CPS 109"),
        Ok((" AND CPS 109", any_of(course("MTH 101"), course("PCS 125"))))
    );
    assert_eq!(term("AND"), Err(failure("AND")));
    assert_eq!(term(""), Err(failure("")));
    assert_eq!(term("MTH 10"), Err(failure("MTH 10")));
    assert_eq!(term("(MTH 10)"), Err(failure("MTH 10)")));
}

#[test]
fn expr_without_an_operator_is_the_term() {
    assert_eq!(expr("MTH 101"), Ok(("", course("MTH 101"))));
    assert_eq!(expr("MTH 101 "), Ok((" ", course("MTH 101"))));
    assert_eq!(expr("MTH 101 PCS 125"), Ok((" PCS 125", course("MTH 101"))));
    assert_eq!(expr("MTH 101 and PCS 125"), Ok((" and PCS 125", course("MTH 101"))));
    assert_eq!(expr("(MTH 101)"), Ok(("", course("MTH 101"))));
}

#[test]
fn expr_nests_to_the_right() {
    assert_eq!(
        expr("ABC 100 AND ABC 200 AND ABC 300"),
        Ok(("", all_of(course("ABC 100"), all_of(course("ABC 200"), course("ABC 300")))))
    );
    assert_eq!(
        expr("ABC 100 OR ABC 200 OR ABC 300 OR ABC 400"),
        Ok((
            "",
            any_of(
                course("ABC 100"),
                any_of(course("ABC 200"), any_of(course("ABC 300"), course("ABC 400")))
            )
        ))
    );
}

#[test]
fn expr_gives_the_operators_no_precedence() {
    assert_eq!(
        expr("ABC 100 AND ABC 200 OR ABC 300"),
        Ok(("", all_of(course("ABC 100"), any_of(course("ABC 200"), course("ABC 300")))))
    );
    assert_eq!(
        expr("ABC 100 OR ABC 200 AND ABC 300"),
        Ok(("", any_of(course("ABC 100"), all_of(course("ABC 200"), course("ABC 300")))))
    );
    assert_eq!(
        expr("(ABC 100 OR ABC 200) AND ABC 300"),
        Ok(("", all_of(any_of(course("ABC 100"), course("ABC 200")), course("ABC 300"))))
    );
}

#[test]
fn expr_takes_blanks_round_an_operator_or_none() {
    let tree = any_of(course("MTH 101"), course("PCS 125"));
    assert_eq!(expr("MTH 101 OR PCS 125"), Ok(("", tree.clone())));
    assert_eq!(expr("MTH 101  \t OR \r\n PCS 125"), Ok(("", tree.clone())));
    assert_eq!(expr("MTH 101 ORPCS 125"), Ok(("", tree.clone())));
    assert_eq!(expr("(MTH 101)OR(PCS 125)"), Ok(("", tree)));
    assert_eq!(expr("MTH 101OR PCS 125"), Ok((" PCS 125", course("MTH 101"))));
    assert_eq!(expr("MTH 101\u{a0}OR PCS 125"), Ok(("\u{a0}OR PCS 125", course("MTH 101"))));
}

#[test]
fn expr_fails_on_an_operator_without_a_right_hand_side() {
    assert_eq!(expr("MTH 101 AND"), Err(failure("")));
    assert_eq!(expr("MTH 101 AND "), Err(failure("")));
    assert_eq!(expr("MTH 101 OR"), Err(failure("")));
    assert_eq!(expr("MTH 101 OR PCS"), Err(failure("PCS")));
    assert_eq!(expr("MTH 101 AND xyz"), Err(failure("xyz")));
    assert_eq!(expr("MTH 101 AND (PCS 125"), Err(failure("")));
    assert_eq!(expr("MTH 101 AND PCS 125 OR"), Err(failure("")));
    assert_eq!(expr("MTH 101 AND PCS 125 OR )"), Err(failure(")")));
    assert_eq!(expr("MTH 101 AND AND PCS 125"), Err(failure("AND PCS 125")));
    assert_eq!(expr("MTH 101 ORANGE"), Err(failure("ANGE")));
    assert_eq!(term("MTH 101 AND"), Ok((" AND", course("MTH 101"))));
}

#[test]
fn no_operator_follows_an_expression_that_was_read() {
    for input in [
        "MTH 101",
        "MTH 101 AND PCS 125",
        "MTH 101 AND PCS 125) OR CPS 109",
        "(MTH 101 OR PCS 125) x AND",
        "MTH 101 PCS 125 AND",
        "MTH 101, PCS 125",
    ] {
        let (rest, _) = expr(input).unwrap();
        let rest = rest.trim_start_matches([' ', '\t', '\r', '\n']);
        assert!(!rest.starts_with("AND") && !rest.starts_with("OR"), "{:?}", input);
    }
}

#[test]
fn expr_fails_where_no_term_stands() {
    assert_eq!(expr(""), Err(failure("")));
    assert_eq!(expr("xyz"), Err(failure("xyz")));
    assert_eq!(expr(" MTH 101"), Err(failure(" MTH 101")));
    assert_eq!(expr("AND MTH 101"), Err(failure("AND MTH 101")));
    assert_eq!(expr(")"), Err(failure(")")));
    assert_eq!(expr("MTH 10"), Err(failure("MTH 10")));
}

#[test]
fn paren_delimited_takes_blanks_inside() {
    assert_eq!(paren_delimited("(  MTH 101\t) x"), Ok((" x", course("MTH 101"))));
    assert_eq!(paren_delimited("((MTH 101))"), Ok(("", course("MTH 101"))));
    assert_eq!(
        paren_delimited("( (MTH 101) AND ( PCS 125 ) )"),
        Ok(("", all_of(course("MTH 101"), course("PCS 125"))))
    );
}

#[test]
fn paren_delimited_fails_where_it_gave_up() {
    assert_eq!(paren_delimited("MTH 101"), Err(failure("MTH 101")));
    assert_eq!(paren_delimited(""), Err(failure("")));
    assert_eq!(paren_delimited("(MTH 101"), Err(failure("")));
    assert_eq!(paren_delimited("(MTH 101 "), Err(failure("")));
    assert_eq!(paren_delimited("(MTH 101 AND )"), Err(failure(")")));
    assert_eq!(paren_delimited("(MTH 101 PCS 125)"), Err(failure("PCS 125)")));
    assert_eq!(paren_delimited("()"), Err(failure(")")));
    assert_eq!(paren_delimited("( xyz)"), Err(failure("xyz)")));
    assert_eq!(paren_delimited("((MTH 101)"), Err(failure("")));
    assert_eq!(paren_delimited("((MTH 10))"), Err(failure("MTH 10))")));
}

#[test]
fn nested_group_is_the_tree_of_its_expression() {
    assert_eq!(
        expr("(MTH 101 AND (PCS 125 OR CPS 109))"),
        Ok(("", all_of(course("MTH 101"), any_of(course("PCS 125"), course("CPS 109")))))
    );
}

#[test]
fn normalized_list_parses_as_a_chain() {
    let input = preprocess("mth101, pcs 125a, [cps 109 or cps 209]", true);
    assert_eq!(input, "MTH101 AND PCS 125A AND (CPS 109 OR CPS 209)");
    assert_eq!(
        expr(&input),
        Ok((
            "",
            all_of(
                course("MTH 101"),
                all_of(course("PCS 125"), any_of(course("CPS 109"), course("CPS 209")))
            )
        ))
    );
    let input = preprocess("MTH 101, PCS 125", false);
    assert_eq!(expr(&input), Ok(("", any_of(course("MTH 101"), course("PCS 125")))));
}

#[test]
fn join_builds_a_node_of_two_children() {
    assert_eq!(
        RequisiteGroup::join(Operator::And, course("MTH 101"), course("PCS 125")),
        all_of(course("MTH 101"), course("PCS 125"))
    );
    assert_eq!(
        RequisiteGroup::join(Operator::Or, course("MTH 101"), course("PCS 125")),
        any_of(course("MTH 101"), course("PCS 125"))
    );
}

#[test]
fn clone_copies_the_whole_tree() {
    let tree = all_of(
        course("MTH 101"),
        any_of(course("PCS 125"), RequisiteGroup::AllOf(vec![course("CPS 109")])),
    );
    let copy = tree.clone();
    assert_eq!(copy, tree);
    assert_ne!(copy, all_of(course("MTH 101"), course("PCS 125")));
}

#[test]
fn parsing_twice_gives_the_same_tree() {
    let input = "(MTH 101 AND (PCS 125 OR CPS 109)) OR MTH 207A/B";
    assert_eq!(expr(input), expr(input));
    assert_eq!(
        expr(input),
        Ok((
            "",
            any_of(
                all_of(course("MTH 101"), any_of(course("PCS 125"), course("CPS 109"))),
                course("MTH 207")
            )
        ))
    );
}
