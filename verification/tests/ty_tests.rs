use tl_parser::errors::ParamParseError;
use tl_parser::ty::Type;

#[test]
fn check_empty_simple() {
    assert_eq!(Type::from_str(""), Err(ParamParseError::Empty));
}

#[test]
fn check_simple() {
    assert_eq!(
        Type::from_str("foo"),
        Ok(Type {
            namespace: vec![],
            name: "foo".into(),
            bare: true,
            generic_ref: false,
            generic_arg: None,
        })
    );
}

#[test]
fn check_empty_namespaced() {
    assert_eq!(Type::from_str("."), Err(ParamParseError::Empty));
    assert_eq!(Type::from_str(".."), Err(ParamParseError::Empty));
    assert_eq!(Type::from_str(".foo"), Err(ParamParseError::Empty));
    assert_eq!(Type::from_str("foo."), Err(ParamParseError::Empty));
    assert_eq!(Type::from_str("foo..foo"), Err(ParamParseError::Empty));
    assert_eq!(Type::from_str(".foo."), Err(ParamParseError::Empty));
}

#[test]
fn check_namespaced() {
    assert_eq!(
        Type::from_str("foo.bar.baz"),
        Ok(Type {
            namespace: vec!["foo".into(), "bar".into()],
            name: "baz".into(),
            bare: true,
            generic_ref: false,
            generic_arg: None,
        })
    );
}

#[test]
fn check_bare() {
    assert!(match Type::from_str("foo") {
        Ok(Type { bare: true, .. }) => true,
        _ => false,
    });
    assert!(match Type::from_str("Foo") {
        Ok(Type { bare: false, .. }) => true,
        _ => false,
    });
    assert!(match Type::from_str("Foo.bar") {
        Ok(Type { bare: true, .. }) => true,
        _ => false,
    });
    assert!(match Type::from_str("Foo.Bar") {
        Ok(Type { bare: false, .. }) => true,
        _ => false,
    });
    assert!(match Type::from_str("foo.Bar") {
        Ok(Type { bare: false, .. }) => true,
        _ => false,
    });
    assert!(match Type::from_str("!bar") {
        Ok(Type { bare: true, .. }) => true,
        _ => false,
    });
    assert!(match Type::from_str("!foo.Bar") {
        Ok(Type { bare: false, .. }) => true,
        _ => false,
    });
}

#[test]
fn check_generic_ref() {
    assert!(match Type::from_str("f") {
        Ok(Type {
            generic_ref: false, ..
        }) => true,
        _ => false,
    });
    assert!(match Type::from_str("!f") {
        Ok(Type {
            generic_ref: true, ..
        }) => true,
        _ => false,
    });
    assert!(match Type::from_str("!Foo") {
        Ok(Type {
            generic_ref: true, ..
        }) => true,
        _ => false,
    });
    assert!(match Type::from_str("!X") {
        Ok(Type {
            generic_ref: true, ..
        }) => true,
        _ => false,
    });
}

#[test]
fn check_generic_arg() {
    assert!(match Type::from_str("foo.bar") {
        Ok(Type {
            generic_arg: None, ..
        }) => true,
        _ => false,
    });
    assert!(match Type::from_str("foo<bar>") {
        Ok(Type {
            generic_arg: Some(x),
            ..
        }) => *x == Type::from_str("bar").unwrap(),
        _ => false,
    });
    assert!(match Type::from_str("foo<bar.Baz>") {
        Ok(Type {
            generic_arg: Some(x),
            ..
        }) => *x == Type::from_str("bar.Baz").unwrap(),
        _ => false,
    });
    assert!(match Type::from_str("foo<!bar.baz>") {
        Ok(Type {
            generic_arg: Some(x),
            ..
        }) => *x == Type::from_str("!bar.baz").unwrap(),
        _ => false,
    });
    assert!(match Type::from_str("foo<bar<baz>>") {
        Ok(Type {
            generic_arg: Some(x),
            ..
        }) => *x == Type::from_str("bar<baz>").unwrap(),
        _ => false,
    });
}

#[test]
fn plain_signature_is_its_own_name() {
    let parsed = Type::from_str("Hello_9").unwrap();
    assert_eq!(parsed.namespace, Vec::<String>::new());
    assert_eq!(parsed.name, "Hello_9");
    assert!(!parsed.bare);
    assert!(!parsed.generic_ref);
    assert!(parsed.generic_arg.is_none());
}

#[test]
fn bareness_needs_ascii_lowercase_start() {
    assert!(!Type::from_str("9foo").unwrap().bare);
    assert!(!Type::from_str("_foo").unwrap().bare);
    assert!(Type::from_str("z").unwrap().bare);
    assert!(!Type::from_str("A").unwrap().bare);
}

#[test]
fn lone_marker_is_empty() {
    assert_eq!(Type::from_str("!"), Err(ParamParseError::Empty));
}

#[test]
fn bad_generic_brackets() {
    assert_eq!(Type::from_str("foo<bar"), Err(ParamParseError::BadGeneric));
    assert_eq!(Type::from_str("<"), Err(ParamParseError::BadGeneric));
    assert_eq!(Type::from_str("!a<b"), Err(ParamParseError::BadGeneric));
    assert_eq!(
        Type::from_str("foo<bar>baz"),
        Err(ParamParseError::BadGeneric)
    );
}

#[test]
fn empty_generic_argument_is_empty() {
    assert_eq!(Type::from_str("foo<>"), Err(ParamParseError::Empty));
}

#[test]
fn generic_argument_error_propagates_unchanged() {
    assert_eq!(
        Type::from_str("foo<bar<baz>"),
        Err(ParamParseError::BadGeneric)
    );
    assert_eq!(Type::from_str("foo<.>"), Err(ParamParseError::Empty));
}

#[test]
fn generic_reference_with_argument() {
    let parsed = Type::from_str("!X<int>").unwrap();
    assert!(parsed.generic_ref);
    assert_eq!(
        parsed.generic_arg,
        Some(Box::new(Type::from_str("int").unwrap()))
    );
}

#[test]
fn reparsing_yields_equal_results() {
    for s in ["foo", "Foo.Bar", "!X<vector<int.long>>", "storage.fileType"] {
        assert_eq!(Type::from_str(s), Type::from_str(s));
    }
}

#[test]
fn namespace_order_is_preserved() {
    let parsed = Type::from_str("a.b.c.d").unwrap();
    assert_eq!(
        parsed.namespace,
        vec!["a".to_string(), "b".to_string(), "c".to_string()]
    );
    assert_eq!(parsed.name, "d");
}

#[test]
fn nested_generic_argument_with_dots() {
    let parsed = Type::from_str("!foo<bar.Baz<qux>>").unwrap();
    assert!(parsed.generic_ref);
    assert_eq!(parsed.name, "foo");
    let arg = *parsed.generic_arg.unwrap();
    assert_eq!(arg.namespace, vec!["bar".to_string()]);
    assert_eq!(arg.name, "Baz");
    assert!(!arg.bare);
    assert!(!arg.generic_ref);
    let inner = *arg.generic_arg.unwrap();
    assert_eq!(inner.name, "qux");
    assert!(inner.bare);
    assert!(inner.generic_arg.is_none());
}
