use simplicityhl::expansion::{
    expand, expand_enum, expand_struct, positional_bindings, requires_attr, requires_needs_span,
    skip_attr, Argument, Attribute, Data, ExpandError, Fields, Name, NamedField, Pattern,
    Plan, TypeInput, UnnamedField, Variant,
};

fn name(text: &str, at: usize) -> Name {
    Name {
        text: text.to_string(),
        at,
    }
}

fn error(message: &str, at: usize) -> ExpandError {
    ExpandError {
        message: message.to_string(),
        at,
    }
}

/// `#[require_feature(skip)]`
fn skip() -> Attribute {
    Attribute {
        path: "require_feature".to_string(),
        arguments: vec![Argument {
            path: name("skip", 70),
            rest: None,
            feature: Err(error("expected parentheses", 71)),
        }],
        broken: None,
    }
}

/// `#[require_feature(requires(feature))]`
fn requiring(feature: &str, at: usize) -> Attribute {
    Attribute {
        path: "require_feature".to_string(),
        arguments: vec![Argument {
            path: name("requires", 80),
            rest: Some(error("expected `,`", 81)),
            feature: Ok(name(feature, at)),
        }],
        broken: None,
    }
}

/// `#[doc = ...]`
fn doc() -> Attribute {
    Attribute {
        path: "doc".to_string(),
        arguments: Vec::new(),
        broken: Some(error("expected attribute arguments in parentheses", 90)),
    }
}

fn field(text: &str, attrs: Vec<Attribute>) -> NamedField {
    NamedField {
        name: name(text, 0),
        attrs,
    }
}

fn unnamed(attrs: Vec<Attribute>) -> UnnamedField {
    UnnamedField { attrs }
}

fn variant(text: &str, attrs: Vec<Attribute>, fields: Fields) -> Variant {
    Variant {
        name: name(text, 0),
        attrs,
        fields,
    }
}

fn input(attrs: Vec<Attribute>, data: Data) -> TypeInput {
    TypeInput {
        name: name("Item", 5),
        attrs,
        data,
    }
}

fn bound(pattern: &Pattern) -> Vec<(String, bool)> {
    match pattern {
        Pattern::Named(fields) => fields.clone(),
        _ => panic!("named fields expected"),
    }
}

#[test]
fn structs_recurse_into_every_field() {
    let fields = Fields::Named(vec![
        field("items", vec![doc()]),
        field("span", vec![skip()]),
        field("name", vec![]),
    ]);
    let Ok(Plan::Struct(arm)) = expand(&input(vec![doc()], Data::Struct(fields))) else {
        panic!("struct expected");
    };
    assert_eq!(
        bound(&arm.pattern),
        [
            ("items".to_string(), true),
            ("span".to_string(), false),
            ("name".to_string(), true)
        ]
    );
    assert_eq!(arm.calls, ["items", "name"]);
    assert_eq!(arm.push, None);
}

#[test]
fn a_required_feature_is_pushed_with_the_span() {
    let fields = Fields::Named(vec![
        field("items", vec![]),
        field("span", vec![skip()]),
    ]);
    let Ok(Plan::Struct(arm)) =
        expand(&input(vec![requiring("Imports", 9)], Data::Struct(fields)))
    else {
        panic!("struct expected");
    };
    assert_eq!(arm.push, Some("Imports".to_string()));
    // The span stays bound for the requirement, but a skipped field is not recursed into.
    assert_eq!(
        bound(&arm.pattern),
        [("items".to_string(), true), ("span".to_string(), true)]
    );
    assert_eq!(arm.calls, ["items"]);

    let unskipped = Fields::Named(vec![field("span", vec![])]);
    let Ok(arm) = expand_struct(&unskipped, &Some(name("Imports", 9))) else {
        panic!("plan expected");
    };
    assert_eq!(arm.calls, ["span"]);
}

#[test]
fn a_required_feature_needs_a_span() {
    for fields in [
        Fields::Named(vec![field("items", vec![])]),
        Fields::Unnamed(vec![unnamed(vec![])]),
        Fields::Unit,
    ] {
        let e = expand(&input(vec![requiring("Imports", 9)], Data::Struct(fields))).unwrap_err();
        assert_eq!(
            e.message,
            "`requires(...)` needs a field named `span` to attach the requirement to"
        );
        assert_eq!(e.at, 9);
    }
    assert_eq!(requires_needs_span(&name("Imports", 3)).at, 3);
    let e = expand(&input(vec![requiring("Imports", 9)], Data::Enum(vec![]))).unwrap_err();
    assert_eq!(
        e.message,
        "`requires(...)` is only supported on structs with a `span` field"
    );
    assert_eq!(e.at, 9);
}

#[test]
fn unions_have_no_impl() {
    let e = expand(&input(vec![], Data::Union)).unwrap_err();
    assert_eq!(e.message, "RequireFeature cannot be derived for unions");
    assert_eq!(e.at, 5);
}

#[test]
fn unnamed_fields_are_bound_by_index() {
    let fields = vec![unnamed(vec![]), unnamed(vec![skip()]), unnamed(vec![])];
    let (pats, calls) = positional_bindings(&fields, false).unwrap();
    assert_eq!(
        pats,
        [
            Some("__field_0".to_string()),
            None,
            Some("__field_2".to_string())
        ]
    );
    assert_eq!(calls, ["__field_0", "__field_2"]);
    let (pats, calls) = positional_bindings(&fields, true).unwrap();
    assert_eq!(pats, [None, None, None]);
    assert!(calls.is_empty());
    let Ok(Plan::Struct(arm)) = expand(&input(vec![], Data::Struct(Fields::Unit))) else {
        panic!("struct expected");
    };
    assert!(matches!(arm.pattern, Pattern::Unit));
    assert!(arm.calls.is_empty());
}

#[test]
fn enums_have_an_arm_for_every_variant() {
    let variants = vec![
        variant("Use", vec![], Fields::Unnamed(vec![unnamed(vec![])])),
        variant(
            "Named",
            vec![],
            Fields::Named(vec![field("a", vec![skip()]), field("span", vec![])]),
        ),
        variant(
            "Skipped",
            vec![skip()],
            // Under a skipped variant, the attributes of the fields are not read.
            Fields::Named(vec![field("a", vec![requiring("X", 1)])]),
        ),
        variant("Ignored", vec![], Fields::Unit),
    ];
    let arms = expand_enum(&variants).unwrap();
    let names: Vec<&str> = arms.iter().map(|(name, _)| name.as_str()).collect();
    assert_eq!(names, ["Use", "Named", "Skipped", "Ignored"]);
    assert_eq!(arms[0].1.calls, ["__field_0"]);
    assert_eq!(arms[1].1.calls, ["span"]);
    assert_eq!(
        bound(&arms[1].1.pattern),
        [("a".to_string(), false), ("span".to_string(), true)]
    );
    assert!(arms[2].1.calls.is_empty());
    assert_eq!(bound(&arms[2].1.pattern), [("a".to_string(), false)]);
    assert!(matches!(arms[3].1.pattern, Pattern::Unit));
    assert!(arms.iter().all(|(_, arm)| arm.push.is_none()));
    assert!(matches!(
        expand(&input(vec![], Data::Enum(variants))),
        Ok(Plan::Enum(_))
    ));
}

#[test]
fn attributes_are_read_in_order() {
    assert!(!skip_attr(&vec![doc()]).unwrap());
    assert!(skip_attr(&vec![doc(), skip()]).unwrap());
    let e = skip_attr(&vec![skip(), requiring("X", 1)]).unwrap_err();
    assert_eq!((e.message.as_str(), e.at), ("expected `skip`", 80));

    assert!(requires_attr(&vec![doc()]).unwrap().is_none());
    // The last requirement counts.
    let last = requires_attr(&vec![requiring("X", 1), requiring("Y", 2)])
        .unwrap()
        .unwrap();
    assert_eq!((last.text.as_str(), last.at), ("Y", 2));
    let e = requires_attr(&vec![skip()]).unwrap_err();
    assert_eq!(
        (e.message.as_str(), e.at),
        ("expected `requires(FeatureName)`", 70)
    );

    let broken = |rest: Option<ExpandError>, text: &str| Attribute {
        path: "require_feature".to_string(),
        arguments: vec![Argument {
            path: name(text, 1),
            rest,
            feature: Err(error("expected parentheses", 2)),
        }],
        broken: None,
    };
    let e = skip_attr(&vec![broken(Some(error("expected `,`", 3)), "skip")]).unwrap_err();
    assert_eq!((e.message.as_str(), e.at), ("expected `,`", 3));
    let e = requires_attr(&vec![broken(None, "requires")]).unwrap_err();
    assert_eq!((e.message.as_str(), e.at), ("expected parentheses", 2));
    let no_list = Attribute {
        path: "require_feature".to_string(),
        arguments: Vec::new(),
        broken: Some(error("no list", 4)),
    };
    assert_eq!(skip_attr(&vec![no_list]).unwrap_err().message, "no list");
    // What can be read comes first.
    let mut cut = skip();
    cut.broken = Some(error("cut", 6));
    assert_eq!(skip_attr(&vec![cut]).unwrap_err().message, "cut");
    let mut cut = skip();
    cut.broken = Some(error("cut", 6));
    assert_eq!(
        requires_attr(&vec![cut]).unwrap_err().message,
        "expected `requires(FeatureName)`"
    );

    // The first wrong field is reported.
    let fields = Fields::Named(vec![
        field("a", vec![requiring("X", 1)]),
        field("b", vec![]),
    ]);
    let e = expand_struct(&fields, &None).unwrap_err();
    assert_eq!(e.message, "expected `skip`");
}
