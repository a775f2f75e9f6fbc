use terraformer::model::Type;
use terraformer::resolve::TypeError;

fn s(x: &str) -> String {
    x.to_string()
}

#[test]
fn primitives_resolve_to_fixed_names() {
    let cases = vec![
        (Type::Bool, "bool"),
        (Type::SInt32, "i32"),
        (Type::UInt32, "u32"),
        (Type::Double, "f64"),
        (Type::Float, "f32"),
        (Type::String, "String"),
    ];
    for (t, expect) in cases {
        let r = t.to_rust_type("Demo").unwrap();
        assert_eq!(r.name, expect);
        assert!(!r.is_class);
        assert!(r.deps.is_empty());
    }
}

#[test]
fn containers_wrap_their_children() {
    let t = Type::List { types: vec![Type::SInt32] };
    assert_eq!(t.to_rust_type("A").unwrap().name, "Vec<i32>");
    let t = Type::SetOf { types: vec![Type::String] };
    assert_eq!(
        t.to_rust_type("A").unwrap().name,
        "std::collections::HashSet<String>"
    );
    let t = Type::Dictionary {
        types: vec![Type::String, Type::Double],
    };
    assert_eq!(
        t.to_rust_type("A").unwrap().name,
        "std::collections::HashMap<String, f64>"
    );
}

#[test]
fn nested_containers_resolve_recursively() {
    let t = Type::List {
        types: vec![Type::Dictionary {
            types: vec![
                Type::String,
                Type::List {
                    types: vec![Type::Bool],
                },
            ],
        }],
    };
    assert_eq!(
        t.to_rust_type("A").unwrap().name,
        "Vec<std::collections::HashMap<String, Vec<bool>>>"
    );
}

#[test]
fn tuples_join_their_elements() {
    let t = Type::Tuple {
        types: vec![Type::Bool, Type::Float, Type::String],
    };
    assert_eq!(t.to_rust_type("A").unwrap().name, "(bool, f32, String)");
}

#[test]
fn empty_tuple_is_unit() {
    let t = Type::Tuple { types: vec![] };
    let r = t.to_rust_type("A").unwrap();
    assert_eq!(r.name, "()");
    assert!(r.deps.is_empty());
}

#[test]
fn list_arity_violations_fail() {
    let t = Type::List { types: vec![] };
    assert_eq!(
        t.to_rust_type("A"),
        Err(TypeError::ListArity { found: 0 })
    );
    let t = Type::List {
        types: vec![Type::Bool, Type::Bool],
    };
    assert_eq!(
        t.to_rust_type("A"),
        Err(TypeError::ListArity { found: 2 })
    );
}

#[test]
fn set_arity_violations_fail() {
    let t = Type::SetOf { types: vec![] };
    assert_eq!(t.to_rust_type("A"), Err(TypeError::SetArity { found: 0 }));
}

#[test]
fn dictionary_with_one_child_fails() {
    let t = Type::Dictionary {
        types: vec![Type::String],
    };
    assert_eq!(
        t.to_rust_type("A"),
        Err(TypeError::DictionaryArity { found: 1 })
    );
}

#[test]
fn arity_violations_are_found_at_depth() {
    let t = Type::Tuple {
        types: vec![
            Type::Bool,
            Type::List {
                types: vec![Type::Dictionary {
                    types: vec![Type::String],
                }],
            },
        ],
    };
    assert_eq!(
        t.to_rust_type("A"),
        Err(TypeError::DictionaryArity { found: 1 })
    );
}

#[test]
fn class_reference_in_own_service_is_bare() {
    let t = Type::Class {
        service: s("Demo"),
        name: s("Vessel"),
    };
    let r = t.to_rust_type("Demo").unwrap();
    assert_eq!(r.name, "Vessel");
    assert!(r.is_class);
    assert!(r.deps.is_empty());
}

#[test]
fn foreign_class_reference_is_qualified_and_reported() {
    let t = Type::Class {
        service: s("SpaceCenter"),
        name: s("Vessel"),
    };
    let r = t.to_rust_type("Demo").unwrap();
    assert_eq!(r.name, "space_center::Vessel");
    assert!(r.is_class);
    assert_eq!(r.deps, vec![s("space_center::Vessel")]);
}

#[test]
fn enumeration_reference_is_not_a_class() {
    let t = Type::Enumeration {
        service: s("Demo"),
        name: s("CameraMode"),
    };
    let r = t.to_rust_type("Demo").unwrap();
    assert_eq!(r.name, "CameraMode");
    assert!(!r.is_class);
}

fn part_of_b() -> Type {
    Type::Class {
        service: s("B"),
        name: s("Part"),
    }
}

#[test]
fn repeated_references_appear_once() {
    let t = Type::Tuple {
        types: vec![
            part_of_b(),
            Type::List {
                types: vec![part_of_b()],
            },
        ],
    };
    let r = t.to_rust_type("A").unwrap();
    assert_eq!(r.deps, vec![s("b::Part")]);
}

#[test]
fn dependency_names_come_out_sorted() {
    let t = Type::Tuple {
        types: vec![
            Type::Class {
                service: s("Beta"),
                name: s("Z"),
            },
            Type::Enumeration {
                service: s("Alpha"),
                name: s("Mode"),
            },
        ],
    };
    let r = t.to_rust_type("Gamma").unwrap();
    assert_eq!(r.deps, vec![s("alpha::Mode"), s("beta::Z")]);
}
