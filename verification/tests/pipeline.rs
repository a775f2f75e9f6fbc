use heck::ToSnakeCase;
use terraformer::context::build_service_context;
use terraformer::model::{
    Class, Enum, EnumValue, ProcParameter, Procedure, Service, ServiceFile, Type,
};

fn s(x: &str) -> String {
    x.to_string()
}

/// The document of the worked example: one service `Demo` with a class
/// `Vessel` and a procedure `Vessel_GetName` taking the receiver and
/// returning a string.
fn demo_service() -> Service {
    Service {
        id: 1,
        documentation: s(""),
        procedures: vec![(
            s("Vessel_GetName"),
            Procedure {
                id: 1,
                documentation: s(""),
                parameters: vec![ProcParameter {
                    name: s("this"),
                    ty: Type::Class {
                        service: s("Demo"),
                        name: s("Vessel"),
                    },
                }],
                return_type: Some(Type::String),
                return_is_nullable: false,
            },
        )],
        classes: vec![(s("Vessel"), Class { documentation: s("") })],
        enumerations: vec![],
    }
}

#[test]
fn demo_service_end_to_end() {
    let ctx = build_service_context(&s("Demo"), &demo_service()).unwrap();
    assert_eq!(ctx.service_name, "Demo");
    assert_eq!(ctx.module_name, "demo");
    assert!(ctx.dependencies.is_empty());
    assert!(ctx.procedures.is_empty());
    assert_eq!(ctx.classes.len(), 1);
    assert_eq!(ctx.classes[0].0, "Vessel");
    let methods = &ctx.classes[0].1.methods;
    assert_eq!(methods.len(), 1);
    assert_eq!(methods[0].0, "GetName");
    let m = &methods[0].1;
    assert_eq!(m.name, "get_name");
    assert!(m.parameters.is_empty());
    assert_eq!(m.return_type, "String");
    assert!(!m.return_is_class);
    assert!(!m.return_is_nullable);
}

fn service_a() -> Service {
    Service {
        id: 2,
        documentation: s(""),
        procedures: vec![(
            s("Go"),
            Procedure {
                id: 1,
                documentation: s(""),
                parameters: vec![ProcParameter {
                    name: s("part"),
                    ty: Type::Class {
                        service: s("B"),
                        name: s("Part"),
                    },
                }],
                return_type: None,
                return_is_nullable: false,
            },
        )],
        classes: vec![],
        enumerations: vec![],
    }
}

#[test]
fn cross_service_dependency_matches_module_name() {
    let ctx = build_service_context(&s("A"), &service_a()).unwrap();
    assert_eq!(ctx.dependencies, vec![s("b::Part")]);
    // the qualifier is exactly the module name service B would be given
    let b_module = "B".to_snake_case();
    assert_eq!(ctx.dependencies[0], format!("{}::Part", b_module));
    // the parameter's type expression uses the same qualified form
    assert_eq!(ctx.procedures[0].1.parameters[0].ty, "b::Part");
}

#[test]
fn deep_references_are_collected_once_and_sorted() {
    let deep = Type::List {
        types: vec![Type::Dictionary {
            types: vec![
                Type::String,
                Type::Class {
                    service: s("B"),
                    name: s("Part"),
                },
            ],
        }],
    };
    let service = Service {
        id: 3,
        documentation: s(""),
        procedures: vec![
            (
                s("First"),
                Procedure {
                    id: 1,
                    documentation: s(""),
                    parameters: vec![ProcParameter { name: s("x"), ty: deep }],
                    return_type: Some(Type::Class {
                        service: s("B"),
                        name: s("Part"),
                    }),
                    return_is_nullable: false,
                },
            ),
            (
                s("Second"),
                Procedure {
                    id: 2,
                    documentation: s(""),
                    parameters: vec![],
                    return_type: Some(Type::Enumeration {
                        service: s("Alpha"),
                        name: s("Mode"),
                    }),
                    return_is_nullable: false,
                },
            ),
        ],
        classes: vec![],
        enumerations: vec![],
    };
    let ctx = build_service_context(&s("A"), &service).unwrap();
    assert_eq!(ctx.dependencies, vec![s("alpha::Mode"), s("b::Part")]);
}

#[test]
fn repeated_builds_are_identical() {
    let c1 = build_service_context(&s("Demo"), &demo_service()).unwrap();
    let c2 = build_service_context(&s("Demo"), &demo_service()).unwrap();
    assert_eq!(c1.service_name, c2.service_name);
    assert_eq!(c1.module_name, c2.module_name);
    assert_eq!(c1.dependencies, c2.dependencies);
    assert_eq!(c1.classes, c2.classes);
    assert_eq!(c1.procedures, c2.procedures);
    assert_eq!(c1.enumerations, c2.enumerations);
}

#[test]
fn enumerations_pass_through_unchanged() {
    let service = Service {
        id: 4,
        documentation: s(""),
        procedures: vec![],
        classes: vec![],
        enumerations: vec![(
            s("CameraMode"),
            Enum {
                documentation: s("modes"),
                values: vec![
                    EnumValue { name: s("Free"), value: 0 },
                    EnumValue { name: s("Chase"), value: 2 },
                ],
            },
        )],
    };
    let ctx = build_service_context(&s("Demo"), &service).unwrap();
    assert_eq!(ctx.enumerations.len(), 1);
    assert_eq!(ctx.enumerations[0].0, "CameraMode");
    assert_eq!(ctx.enumerations[0].1.documentation, "modes");
    assert_eq!(
        ctx.enumerations[0].1.values,
        vec![
            EnumValue { name: s("Free"), value: 0 },
            EnumValue { name: s("Chase"), value: 2 },
        ]
    );
}

#[test]
fn module_index_is_case_converted() {
    let file = ServiceFile {
        services: vec![(s("Alpha"), demo_service()), (s("SpaceCenter"), service_a())],
    };
    let index = file.module_index();
    assert_eq!(index, vec![s("alpha"), s("space_center")]);
}
