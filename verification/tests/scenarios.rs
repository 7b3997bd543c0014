use newick::{from_newick, name, to_newick, SimpleTree};

fn tip(name: &str) -> SimpleTree {
    SimpleTree::new(name.to_owned(), None, Vec::new())
}

fn tip_with(name: &str, length: &str) -> SimpleTree {
    SimpleTree::new(name.to_owned(), Some(length.to_owned()), Vec::new())
}

#[test]
fn unnamed_nodes_everywhere() {
    let tree: SimpleTree = from_newick("(,,(,));").unwrap();
    let expected = SimpleTree::new(
        "".to_owned(),
        None,
        vec![
            tip(""),
            tip(""),
            SimpleTree::new("".to_owned(), None, vec![tip(""), tip("")]),
        ],
    );
    assert_eq!(tree, expected);
}

#[test]
fn named_internal_nodes() {
    let tree: SimpleTree = from_newick("(A,B,(C,D)E)F;").unwrap();
    let expected = SimpleTree::new(
        "F".to_owned(),
        None,
        vec![
            tip("A"),
            tip("B"),
            SimpleTree::new("E".to_owned(), None, vec![tip("C"), tip("D")]),
        ],
    );
    assert_eq!(tree, expected);
}

#[test]
fn lengths_are_kept_as_written() {
    let text = "(A:0.1,B:0.2,(C:0.3,D:0.4):0.5);";
    let tree: SimpleTree = from_newick(text).unwrap();
    let expected = SimpleTree::new(
        "".to_owned(),
        None,
        vec![
            tip_with("A", "0.1"),
            tip_with("B", "0.2"),
            SimpleTree::new(
                "".to_owned(),
                Some("0.5".to_owned()),
                vec![tip_with("C", "0.3"), tip_with("D", "0.4")],
            ),
        ],
    );
    assert_eq!(tree, expected);
    assert_eq!(to_newick(&tree), text.to_owned());
}

#[test]
fn a_quoted_name_keeps_its_space() {
    assert_eq!(name("'A B'"), Ok(("", "A B".to_owned())));
    let tree: SimpleTree = from_newick("('A B',C)'(root)';").unwrap();
    assert_eq!(tree.name, "(root)".to_owned());
    assert_eq!(tree.children[0].name, "A B".to_owned());
    assert_eq!(tree.children[1].name, "C".to_owned());
}

#[test]
fn an_unquoted_name_with_a_space_is_refused() {
    assert!(from_newick::<SimpleTree>("(A A,B,(C,D));").is_err());
}

#[test]
fn unnamed_nodes_with_lengths_are_written_back() {
    let tree = SimpleTree::new(
        "".to_owned(),
        Some("0.6".to_owned()),
        vec![
            tip_with("", "0.1"),
            tip_with("", "0.2"),
            SimpleTree::new(
                "".to_owned(),
                Some("0.5".to_owned()),
                vec![tip_with("", "0.3"), tip_with("", "0.4")],
            ),
        ],
    );
    assert_eq!(
        to_newick(&tree),
        "(:0.1,:0.2,(:0.3,:0.4):0.5):0.6;".to_owned()
    );
}

#[test]
fn the_smallest_tree() {
    let tree = SimpleTree::new("".to_owned(), None, Vec::new());
    assert_eq!(to_newick(&tree), ";".to_owned());
    assert_eq!(from_newick::<SimpleTree>(";"), Ok(tree));
}

#[test]
fn the_root_may_have_a_length() {
    let tree: SimpleTree = from_newick("(A,B)R:12;").unwrap();
    assert_eq!(tree.name, "R".to_owned());
    assert_eq!(tree.length, Some("12".to_owned()));
}

#[test]
fn blanks_where_the_grammar_takes_them() {
    let plain: SimpleTree = from_newick("(A:0.1,B:0.2)R:0.3;").unwrap();
    assert_eq!(from_newick(" ( A : 0.1 , B : 0.2) R : 0.3;"), Ok(plain.clone()));
    assert_eq!(from_newick("(\tA:0.1 ,\tB:0.2)\tR:\t0.3;\t "), Ok(plain));
}

#[test]
fn a_tab_inside_a_name_belongs_to_it() {
    let tree: SimpleTree = from_newick("(A,B)R\t:0.3;").unwrap();
    assert_eq!(tree.name, "R\t".to_owned());
    assert_eq!(tree.length, Some("0.3".to_owned()));
}

#[test]
fn blanks_where_the_grammar_takes_none() {
    assert!(from_newick::<SimpleTree>("(A )R;").is_err());
    assert!(from_newick::<SimpleTree>("(A:0.1 )R;").is_err());
    assert!(from_newick::<SimpleTree>("A:0.1 ;").is_err());
    assert!(from_newick::<SimpleTree>("(A,B)R ;").is_err());
    assert!(from_newick::<SimpleTree>("(A,B) ;").is_ok());
}

#[test]
fn names_may_hold_any_other_character() {
    let tree: SimpleTree = from_newick("(Homo_sapiens,Canis-lupus.1,\u{e9}t\u{e9}\tx)\u{3b1}\u{3b2};").unwrap();
    assert_eq!(tree.name, "\u{3b1}\u{3b2}".to_owned());
    assert_eq!(tree.children[0].name, "Homo_sapiens".to_owned());
    assert_eq!(tree.children[1].name, "Canis-lupus.1".to_owned());
    assert_eq!(tree.children[2].name, "\u{e9}t\u{e9}\tx".to_owned());
    assert_eq!(
        to_newick(&tree),
        "(Homo_sapiens,Canis-lupus.1,\u{e9}t\u{e9}\tx)\u{3b1}\u{3b2};".to_owned()
    );
}

#[test]
fn a_clone_is_equal() {
    let tree: SimpleTree = from_newick("(A:1,(B,C)D:2)E;").unwrap();
    assert_eq!(tree.clone(), tree);
}
