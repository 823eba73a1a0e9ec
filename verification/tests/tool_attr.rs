use mutest::tool_attr::{ignore, register, skip, AttrStyle, Attribute};

fn word(tool: &str, name: &str) -> Attribute {
    Attribute { style: AttrStyle::Outer, path: vec![tool.to_owned(), name.to_owned()], args: None }
}

#[test]
fn an_item_marked_with_the_tool_word_is_ignored_or_skipped() {
    let attrs = [word("mutest", "ignore")];
    assert!(ignore(&attrs));
    assert!(!skip(&attrs));

    let attrs = [word("allow", "x"), word("mutest", "skip")];
    assert!(skip(&attrs));
    assert!(!ignore(&attrs));
}

#[test]
fn other_tools_and_attributes_with_arguments_do_not_count() {
    let attrs = [
        word("clippy", "ignore"),
        Attribute { style: AttrStyle::Outer, path: vec!["mutest".to_owned(), "skip".to_owned()], args: Some(vec!["x".to_owned()]) },
        Attribute { style: AttrStyle::Outer, path: vec!["ignore".to_owned()], args: None },
        Attribute { style: AttrStyle::Outer, path: vec!["mutest".to_owned(), "ignore".to_owned(), "x".to_owned()], args: None },
    ];
    assert!(!ignore(&attrs));
    assert!(!skip(&attrs));
    assert!(!ignore(&[]));
}

#[test]
fn registering_adds_the_tool_and_the_features_it_needs() {
    let mut attrs = vec![word("a", "b")];
    register(&mut attrs);

    assert_eq!(attrs.len(), 4);
    assert_eq!(attrs[0].path, ["a", "b"]);
    assert_eq!(attrs[0].style, AttrStyle::Outer);
    assert!(attrs[1..].iter().all(|a| a.style == AttrStyle::Inner));
    let named: Vec<(Vec<String>, Option<Vec<String>>)> = attrs[1..].iter().map(|a| (a.path.clone(), a.args.clone())).collect();
    assert_eq!(named, [
        (vec!["feature".to_owned()], Some(vec!["register_tool".to_owned()])),
        (vec!["register_tool".to_owned()], Some(vec!["mutest".to_owned()])),
        (vec!["feature".to_owned()], Some(vec!["super_let".to_owned()])),
    ]);
}
