use newick::{from_newick, length, name, to_newick, SimpleTree};

const TEXTS: [&str; 9] = [
    ";",
    "A;",
    "(,,(,));",
    "(A,B,(C,D)E)F;",
    "(A:0.1,B:0.2,(C:0.3,D:0.4)E:0.5)F;",
    " ( A : 0.10 , 'B' : +2e3 ,( C,D)  E : -.5) F : 1.;  ",
    "((((deep:1):2):3):4):5;",
    "(A,'',B)'';",
    "(a\tb,c)d;",
];

#[test]
fn reading_what_was_written_gives_the_same_tree() {
    for text in TEXTS {
        let first: SimpleTree = from_newick(text).unwrap();
        let second: SimpleTree = from_newick(&to_newick(&first)).unwrap();
        assert_eq!(second, first);
    }
}

#[test]
fn the_written_text_is_stable() {
    for text in TEXTS {
        let first: SimpleTree = from_newick(text).unwrap();
        let written = to_newick(&first);
        let second: SimpleTree = from_newick(&written).unwrap();
        assert_eq!(to_newick(&second), written);
    }
}

#[test]
fn blanks_and_quotes_are_not_written() {
    let tree: SimpleTree =
        from_newick(" ( A : 0.10 , 'B' : +2e3 ,( C,D)  E : -.5) F : 1.;  ").unwrap();
    assert_eq!(
        to_newick(&tree),
        "(A:0.10,B:+2e3,(C,D)E:-.5)F:1.;".to_owned()
    );
}

#[test]
fn a_name_that_needs_quotes_is_not_read_back() {
    let tree: SimpleTree = from_newick("'A B';").unwrap();
    assert_eq!(to_newick(&tree), "A B;".to_owned());
    assert!(from_newick::<SimpleTree>("A B;").is_err());

    let tree: SimpleTree = from_newick("(' A',B);").unwrap();
    let again: SimpleTree = from_newick(&to_newick(&tree)).unwrap();
    assert_eq!(again.children[0].name, "A".to_owned());
    assert_eq!(tree.children[0].name, " A".to_owned());

    let tree: SimpleTree = from_newick("('\tA',B);").unwrap();
    let again: SimpleTree = from_newick(&to_newick(&tree)).unwrap();
    assert_eq!(tree.children[0].name, "\tA".to_owned());
    assert_eq!(again.children[0].name, "A".to_owned());
}

#[test]
fn children_are_written_in_their_order() {
    let names = ["first", "second", "third", "fourth"];
    let children: Vec<SimpleTree> = names
        .iter()
        .map(|name| SimpleTree::new((*name).to_owned(), None, Vec::new()))
        .collect();
    let tree = SimpleTree::new("".to_owned(), None, children);
    let text = to_newick(&tree);
    assert_eq!(text, "(first,second,third,fourth);".to_owned());
    let starts: Vec<usize> = names.iter().map(|name| text.find(name).unwrap()).collect();
    assert_eq!(starts, vec![1, 7, 14, 20]);

    let read: SimpleTree = from_newick("(z,y,x,(w,v)u);").unwrap();
    let read_names: Vec<&str> = read.children.iter().map(|c| c.name.as_str()).collect();
    assert_eq!(read_names, vec!["z", "y", "x", "u"]);
    let inner: Vec<&str> = read.children[3]
        .children
        .iter()
        .map(|c| c.name.as_str())
        .collect();
    assert_eq!(inner, vec!["w", "v"]);
}

#[test]
fn no_name_is_the_empty_name() {
    assert_eq!(name(""), Ok(("", "".to_owned())));
    assert_eq!(name(",x"), Ok((",x", "".to_owned())));
    assert_eq!(name("  )"), Ok((")", "".to_owned())));
    assert_eq!(name("''"), Ok(("", "".to_owned())));
    assert_eq!(name(" '',x"), Ok((",x", "".to_owned())));
    assert_eq!(
        from_newick::<SimpleTree>("(,);"),
        from_newick::<SimpleTree>("('','')'';")
    );
}

#[test]
fn no_colon_is_no_length() {
    assert_eq!(length(""), Ok(("", None)));
    assert_eq!(length("A"), Ok(("A", None)));
    assert_eq!(length(" ;"), Ok((" ;", None)));
    let tree: SimpleTree = from_newick("(A,B)C;").unwrap();
    assert_eq!(tree.length, None);
    assert_eq!(tree.children[0].length, None);
}

#[test]
fn a_colon_and_a_number_is_a_length() {
    assert_eq!(length(":0"), Ok(("", Some("0".to_owned()))));
    assert_eq!(length(":-1.5"), Ok(("", Some("-1.5".to_owned()))));
    assert_eq!(length(":0.0;"), Ok((";", Some("0.0".to_owned()))));
    assert_eq!(length(" : -0"), Ok(("", Some("-0".to_owned()))));
    let tree: SimpleTree = from_newick("(A:0,B:-2.5e-3):-0.0;").unwrap();
    assert_eq!(tree.length, Some("-0.0".to_owned()));
    assert_eq!(tree.children[0].length, Some("0".to_owned()));
    assert_eq!(tree.children[1].length, Some("-2.5e-3".to_owned()));
}

#[test]
fn the_second_text_is_stable_whatever_the_names() {
    for text in ["'a\tb:1';", "('A,B','(C)D');", "((' A',B)' C');", "'A:1';"] {
        let tree: SimpleTree = from_newick(text).unwrap();
        let first = to_newick(&tree);
        let read: SimpleTree = from_newick(&first).unwrap();
        let second = to_newick(&read);
        let again: SimpleTree = from_newick(&second).unwrap();
        assert_eq!(to_newick(&again), second);
    }
    let tree: SimpleTree = from_newick("'a\tb:1';").unwrap();
    assert_eq!(tree.name, "a\tb:1".to_owned());
    assert_eq!(to_newick(&tree), "a\tb:1;".to_owned());
    let read: SimpleTree = from_newick("a\tb:1;").unwrap();
    assert_eq!(read.name, "a\tb".to_owned());
    assert_eq!(read.length, Some("1".to_owned()));
}

#[test]
fn a_text_without_blanks_and_quotes_is_written_back() {
    for text in [
        ";",
        "A;",
        "(,,(,));",
        "(A:0.10,B:+2e3,(C,D)E:-.5)F:1.;",
        "((((deep:1):2):3):4):5;",
        "(:0.1,:0.2,(:0.3,:0.4):0.5):0.6;",
    ] {
        let tree: SimpleTree = from_newick(text).unwrap();
        assert_eq!(to_newick(&tree), text.to_owned());
    }
}
