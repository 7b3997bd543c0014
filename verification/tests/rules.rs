use newick::{branch, branch_set, from_newick, internal, leaf, length, name, to_newick, SimpleTree};

#[test]
fn test_from_newick() {
    type T = SimpleTree;
    assert!(from_newick::<T>("(,,(,));").is_ok());
    assert!(from_newick::<T>("(A,B,(C,D));").is_ok());
    assert!(from_newick::<T>("(A,B,(C,D)E)F;").is_ok());
    assert!(from_newick::<T>("(:0.1,:0.2,(:0.3,:0.4):0.5);").is_ok());
    assert!(from_newick::<T>("(:0.1,:0.2,(:0.3,:0.4):0.5):0.0;").is_ok());
    assert!(from_newick::<T>("(A:0.1,B:0.2,(C:0.3,D:0.4):0.5);").is_ok());
    assert!(from_newick::<T>("(A:0.1,B:0.2,(C:0.3,D:0.4)E:0.5)F;").is_ok());
    assert!(from_newick::<T>("((B:0.2,(C:0.3,D:0.4)E:0.5)A:0.1)F;  ").is_ok());
    assert!(from_newick::<T>("(A A,B,(C,D));").is_err());
    assert!(from_newick::<T>("(,,(,)) ;").is_ok());
}

#[test]
fn test_leaf() {
    assert_eq!(
        leaf("A:0.3"),
        Ok((":0.3", SimpleTree::new("A".to_owned(), None, Vec::new())))
    );
}

#[test]
fn test_internal() {
    assert_eq!(
        internal("(A:0.1,B:0.5)1000:0.3"),
        Ok((
            ":0.3",
            SimpleTree::new(
                "1000".to_owned(),
                None,
                vec![
                    SimpleTree::new("A".to_owned(), Some("0.1".to_owned()), Vec::new()),
                    SimpleTree::new("B".to_owned(), Some("0.5".to_owned()), Vec::new()),
                ]
            )
        ))
    );
    assert_eq!(
        internal("( A : 0.1 , B : 0.5) 1000 :0.3"),
        Ok((
            " :0.3",
            SimpleTree::new(
                "1000".to_owned(),
                None,
                vec![
                    SimpleTree::new("A".to_owned(), Some("0.1".to_owned()), Vec::new()),
                    SimpleTree::new("B".to_owned(), Some("0.5".to_owned()), Vec::new()),
                ]
            )
        ))
    );
}

#[test]
fn test_branch_set() {
    assert_eq!(
        branch_set(",,"),
        Ok((
            "",
            vec![
                SimpleTree::new("".to_owned(), None, Vec::new()),
                SimpleTree::new("".to_owned(), None, Vec::new()),
                SimpleTree::new("".to_owned(), None, Vec::new())
            ]
        ))
    );
    assert_eq!(
        branch_set(", ,"),
        Ok((
            "",
            vec![
                SimpleTree::new("".to_owned(), None, Vec::new()),
                SimpleTree::new("".to_owned(), None, Vec::new()),
                SimpleTree::new("".to_owned(), None, Vec::new())
            ]
        ))
    );
}

#[test]
fn test_branch() {
    assert_eq!(
        branch("A:0.1"),
        Ok(("", SimpleTree::new("A".to_owned(), Some("0.1".to_owned()), Vec::new())))
    );

    assert_eq!(
        branch(" A : 0.1"),
        Ok(("", SimpleTree::new("A".to_owned(), Some("0.1".to_owned()), Vec::new())))
    );
}

#[test]
fn test_name() {
    assert_eq!(name(""), Ok(("", "".to_owned())));
    assert_eq!(name(":50"), Ok((":50", "".to_owned())));
    assert_eq!(name("A:50"), Ok((":50", "A".to_owned())));
    assert_eq!(name("A B"), Ok((" B", "A".to_owned())));
    assert_eq!(name("'A B'"), Ok(("", "A B".to_owned())));
}

#[test]
fn test_length() {
    assert_eq!(length(""), Ok(("", None)));
    assert_eq!(length(",D"), Ok((",D", None)));
    assert_eq!(length(":0.1,D"), Ok((",D", Some("0.1".to_owned()))));
    assert_eq!(length(" :0.1"), Ok(("", Some("0.1".to_owned()))));
    assert_eq!(length(": 0.1"), Ok(("", Some("0.1".to_owned()))));
}

#[test]
fn test_to_newick() {
    type T = SimpleTree;
    vec![
        "(,,(,));",
        "(A,B,(C,D));",
        "(A,B,(C,D)E)F;",
        "(:0.1,:0.2,(:0.3,:0.4):0.5);",
        "(:0.1,:0.2,(:0.3,:0.4):0.5):0.6;",
        "(A:0.1,B:0.2,(C:0.3,D:0.4):0.5);",
        "(A:0.1,B:0.2,(C:0.3,D:0.4)E:0.5)F;",
    ]
    .into_iter()
    .for_each(|newick| {
        assert_eq!(
            to_newick(&from_newick::<T>(newick).unwrap()),
            newick.to_owned()
        );
    });
}
