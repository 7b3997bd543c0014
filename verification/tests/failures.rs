use newick::{
    branch, branch_set, from_newick, internal, leaf, length, quoted_string, string, sub_tree, tree,
    SimpleTree, SyntaxError, SyntaxErrorKind,
};

fn failure(text: &str) -> SyntaxError {
    from_newick::<SimpleTree>(text).unwrap_err()
}

fn missed(kind: SyntaxErrorKind, position: usize) -> SyntaxError {
    SyntaxError { kind, position }
}

#[test]
fn a_missing_semicolon() {
    assert_eq!(failure(""), missed(SyntaxErrorKind::ExpectedSemicolon, 0));
    assert_eq!(failure("A"), missed(SyntaxErrorKind::ExpectedSemicolon, 1));
    assert_eq!(failure("(A,B)C:1"), missed(SyntaxErrorKind::ExpectedSemicolon, 8));
    assert_eq!(failure("A B;"), missed(SyntaxErrorKind::ExpectedSemicolon, 1));
    assert_eq!(failure("A:1:2;"), missed(SyntaxErrorKind::ExpectedSemicolon, 3));
}

#[test]
fn an_open_parenthesis_that_is_not_closed() {
    assert_eq!(failure("(A,B;"), missed(SyntaxErrorKind::ExpectedClose, 4));
    assert_eq!(failure("(A,B"), missed(SyntaxErrorKind::ExpectedClose, 4));
    assert_eq!(failure("(A A,B,(C,D));"), missed(SyntaxErrorKind::ExpectedClose, 2));
    assert_eq!(failure("(A,(B C));"), missed(SyntaxErrorKind::ExpectedClose, 3));
    assert_eq!(failure("(A[x],B);"), missed(SyntaxErrorKind::ExpectedClose, 2));
}

#[test]
fn a_closing_parenthesis_too_many() {
    assert_eq!(failure("(A,B));"), missed(SyntaxErrorKind::ExpectedSemicolon, 5));
    assert_eq!(failure(");"), missed(SyntaxErrorKind::ExpectedSemicolon, 0));
}

#[test]
fn a_colon_without_a_number() {
    assert_eq!(failure("A:x;"), missed(SyntaxErrorKind::ExpectedNumber, 2));
    assert_eq!(failure("A:;"), missed(SyntaxErrorKind::ExpectedNumber, 2));
    assert_eq!(failure("A : -;"), missed(SyntaxErrorKind::ExpectedNumber, 4));
    assert_eq!(failure("(A:,B);"), missed(SyntaxErrorKind::ExpectedNumber, 3));
    assert_eq!(failure("(A,B):.;"), missed(SyntaxErrorKind::ExpectedNumber, 6));
}

#[test]
fn a_number_that_breaks_off() {
    assert_eq!(failure("A:1e;"), missed(SyntaxErrorKind::ExpectedSemicolon, 3));
    assert_eq!(failure("(A:1.5.2,B);"), missed(SyntaxErrorKind::ExpectedClose, 6));
}

#[test]
fn a_quote_that_is_not_closed() {
    assert_eq!(failure("'A;"), missed(SyntaxErrorKind::ExpectedQuote, 3));
    assert_eq!(failure("(A,'B C);"), missed(SyntaxErrorKind::ExpectedQuote, 9));
    assert_eq!(failure("(A,B)'C;"), missed(SyntaxErrorKind::ExpectedQuote, 8));
}

#[test]
fn something_behind_the_semicolon() {
    assert_eq!(failure("A;B"), missed(SyntaxErrorKind::TrailingInput, 2));
    assert_eq!(failure("(A,B);  (C,D);"), missed(SyntaxErrorKind::TrailingInput, 8));
    assert_eq!(failure("A;;"), missed(SyntaxErrorKind::TrailingInput, 2));
    assert!(from_newick::<SimpleTree>("A; \t ").is_ok());
}

#[test]
fn positions_count_characters() {
    assert_eq!(failure("\u{e9}\u{e9} x;"), missed(SyntaxErrorKind::ExpectedSemicolon, 2));
    assert_eq!(failure("(\u{3b1},\u{3b2};"), missed(SyntaxErrorKind::ExpectedClose, 4));
}

#[test]
fn the_rule_for_an_internal_node_alone() {
    assert_eq!(
        internal::<SimpleTree>("A"),
        Err(missed(SyntaxErrorKind::ExpectedOpen, 0))
    );
    assert_eq!(
        internal::<SimpleTree>("  A"),
        Err(missed(SyntaxErrorKind::ExpectedOpen, 2))
    );
    assert_eq!(
        internal::<SimpleTree>(""),
        Err(missed(SyntaxErrorKind::ExpectedOpen, 0))
    );
    assert_eq!(
        internal::<SimpleTree>("(A,B"),
        Err(missed(SyntaxErrorKind::ExpectedClose, 4))
    );
    assert_eq!(
        internal::<SimpleTree>("(A:x)"),
        Err(missed(SyntaxErrorKind::ExpectedNumber, 3))
    );
}

#[test]
fn the_rules_for_names_alone() {
    assert_eq!(string("abc,def"), Ok((",def", "abc")));
    assert_eq!(string(" abc"), Ok((" abc", "")));
    assert_eq!(string(""), Ok(("", "")));
    assert_eq!(quoted_string("'a b'c"), Ok(("c", "a b")));
    assert_eq!(quoted_string("''"), Ok(("", "")));
    assert_eq!(
        quoted_string("abc"),
        Err(missed(SyntaxErrorKind::ExpectedQuote, 0))
    );
    assert_eq!(
        quoted_string("'abc"),
        Err(missed(SyntaxErrorKind::ExpectedQuote, 4))
    );
    assert_eq!(
        quoted_string(""),
        Err(missed(SyntaxErrorKind::ExpectedQuote, 0))
    );
}

#[test]
fn a_sub_tree_falls_back_to_a_leaf() {
    let unnamed = SimpleTree::new("".to_owned(), None, Vec::new());
    assert_eq!(sub_tree("(A"), Ok(("(A", unnamed.clone())));
    assert_eq!(branch("  (A"), Ok(("(A", unnamed.clone())));
    assert_eq!(leaf("(A)"), Ok(("(A)", unnamed.clone())));
    assert_eq!(branch_set("(A,B"), Ok(("(A,B", vec![unnamed])));
    assert_eq!(
        sub_tree("(A)B:1"),
        Ok((
            ":1",
            SimpleTree::new(
                "B".to_owned(),
                None,
                vec![SimpleTree::new("A".to_owned(), None, Vec::new())]
            )
        ))
    );
}

#[test]
fn the_rule_for_a_tree_leaves_the_rest() {
    assert_eq!(
        tree("A:1;rest"),
        Ok((
            "rest",
            SimpleTree::new("A".to_owned(), Some("1".to_owned()), Vec::new())
        ))
    );
    assert_eq!(
        tree::<SimpleTree>("A:1"),
        Err(missed(SyntaxErrorKind::ExpectedSemicolon, 3))
    );
    assert_eq!(
        tree::<SimpleTree>("(A"),
        Err(missed(SyntaxErrorKind::ExpectedClose, 2))
    );
}

#[test]
fn a_length_takes_nothing_where_it_fails() {
    assert_eq!(length(" : x"), Ok((" : x", None)));
    assert_eq!(length("  ,"), Ok(("  ,", None)));
    assert_eq!(length(":1e,"), Ok(("e,", Some("1".to_owned()))));
}
