use terraformer::model::{Class, ProcParameter, Procedure, Service, Type};
use terraformer::partition::separate_procedures_from_methods;
use terraformer::resolve::TypeError;

fn s(x: &str) -> String {
    x.to_string()
}

fn class_ref(service: &str, name: &str) -> Type {
    Type::Class {
        service: s(service),
        name: s(name),
    }
}

fn proc_with(params: Vec<(&str, Type)>, return_type: Option<Type>, nullable: bool) -> Procedure {
    Procedure {
        id: 1,
        documentation: s(""),
        parameters: params
            .into_iter()
            .map(|(n, t)| ProcParameter { name: s(n), ty: t })
            .collect(),
        return_type,
        return_is_nullable: nullable,
    }
}

fn service_with(
    procedures: Vec<(&str, Procedure)>,
    classes: Vec<&str>,
) -> Service {
    Service {
        id: 1,
        documentation: s(""),
        procedures: procedures.into_iter().map(|(n, p)| (s(n), p)).collect(),
        classes: classes
            .into_iter()
            .map(|n| (s(n), Class { documentation: s("") }))
            .collect(),
        enumerations: vec![],
    }
}

#[test]
fn method_extraction_moves_suffix_under_class() {
    let service = service_with(
        vec![(
            "Engine_Activate",
            proc_with(
                vec![("this", class_ref("S", "Engine")), ("level", Type::UInt32)],
                None,
                false,
            ),
        )],
        vec!["Engine"],
    );
    let (classes, procedures) = separate_procedures_from_methods(&service, "S").unwrap();
    assert!(procedures.is_empty());
    assert_eq!(classes.len(), 1);
    assert_eq!(classes[0].0, "Engine");
    let methods = &classes[0].1.methods;
    assert_eq!(methods.len(), 1);
    assert_eq!(methods[0].0, "Activate");
    let g = &methods[0].1;
    assert_eq!(g.rpc_name, "Engine_Activate");
    assert_eq!(g.name, "activate");
    // the receiver is gone; the remaining parameters keep their order
    assert_eq!(g.parameters.len(), 1);
    assert_eq!(g.parameters[0].name, "level");
    assert_eq!(g.parameters[0].ty, "u32");
}

#[test]
fn procedure_without_underscore_stays_free() {
    let service = service_with(
        vec![(
            "Activate",
            proc_with(vec![("this", class_ref("S", "Engine"))], None, false),
        )],
        vec!["Engine"],
    );
    let (classes, procedures) = separate_procedures_from_methods(&service, "S").unwrap();
    assert!(classes.is_empty());
    assert_eq!(procedures.len(), 1);
    assert_eq!(procedures[0].0, "Activate");
    let g = &procedures[0].1;
    assert_eq!(g.name, "activate");
    // the full parameter list is kept
    assert_eq!(g.parameters.len(), 1);
    assert_eq!(g.parameters[0].name, "this");
    assert_eq!(g.parameters[0].ty, "Engine");
}

#[test]
fn unmatched_prefix_stays_free() {
    let service = service_with(
        vec![(
            "Warp_Engage",
            proc_with(vec![("this", Type::Bool), ("x", Type::Double)], None, false),
        )],
        vec!["Engine"],
    );
    let (classes, procedures) = separate_procedures_from_methods(&service, "S").unwrap();
    assert!(classes.is_empty());
    assert_eq!(procedures.len(), 1);
    assert_eq!(procedures[0].0, "Warp_Engage");
    assert_eq!(procedures[0].1.name, "warp_engage");
    assert_eq!(procedures[0].1.parameters.len(), 2);
}

#[test]
fn receiver_is_dropped_unconditionally() {
    let service = service_with(
        vec![(
            "Engine_Shutdown",
            proc_with(vec![("this", class_ref("S", "Engine"))], None, false),
        )],
        vec!["Engine"],
    );
    let (classes, _) = separate_procedures_from_methods(&service, "S").unwrap();
    let g = &classes[0].1.methods[0].1;
    assert!(g.parameters.is_empty());
}

#[test]
fn return_type_description_is_recorded() {
    let service = service_with(
        vec![
            (
                "CurrentVessel",
                proc_with(vec![], Some(class_ref("S", "Vessel")), true),
            ),
            ("Ping", proc_with(vec![], None, false)),
        ],
        vec![],
    );
    let (_, procedures) = separate_procedures_from_methods(&service, "S").unwrap();
    assert_eq!(procedures.len(), 2);
    let current = &procedures[0].1;
    assert_eq!(current.return_type, "Vessel");
    assert!(current.return_is_class);
    assert!(current.return_is_nullable);
    let ping = &procedures[1].1;
    assert_eq!(ping.return_type, "()");
    assert!(!ping.return_is_class);
    assert!(!ping.return_is_nullable);
}

#[test]
fn groups_come_out_sorted() {
    let service = service_with(
        vec![
            (
                "Alpha_x",
                proc_with(vec![("this", Type::Bool)], None, false),
            ),
            (
                "Beta_a",
                proc_with(vec![("this", Type::Bool)], None, false),
            ),
            (
                "Beta_b",
                proc_with(vec![("this", Type::Bool)], None, false),
            ),
            ("Zeta", proc_with(vec![], None, false)),
        ],
        vec!["Alpha", "Beta"],
    );
    let (classes, procedures) = separate_procedures_from_methods(&service, "S").unwrap();
    let class_names: Vec<&str> = classes.iter().map(|c| c.0.as_str()).collect();
    assert_eq!(class_names, vec!["Alpha", "Beta"]);
    let beta_methods: Vec<&str> = classes[1].1.methods.iter().map(|m| m.0.as_str()).collect();
    assert_eq!(beta_methods, vec!["a", "b"]);
    assert_eq!(procedures.len(), 1);
    assert_eq!(procedures[0].0, "Zeta");
}

#[test]
fn documentation_is_carried_unchanged() {
    let mut p = proc_with(vec![], None, false);
    p.documentation = s("Line one\nline two");
    let service = service_with(vec![("Describe", p)], vec![]);
    let (_, procedures) = separate_procedures_from_methods(&service, "S").unwrap();
    assert_eq!(procedures[0].1.documentation, "Line one\nline two");
}

#[test]
fn receiver_type_is_discarded_before_resolution() {
    // The receiver is dropped before normalization, so even a malformed
    // receiver type cannot abort a method's signature.
    let service = service_with(
        vec![(
            "Engine_Tick",
            proc_with(
                vec![("this", Type::List { types: vec![] }), ("n", Type::UInt32)],
                None,
                false,
            ),
        )],
        vec!["Engine"],
    );
    let (classes, _) = separate_procedures_from_methods(&service, "S").unwrap();
    let g = &classes[0].1.methods[0].1;
    assert_eq!(g.parameters.len(), 1);
    assert_eq!(g.parameters[0].ty, "u32");
}

#[test]
fn parameter_arity_fault_aborts_the_service() {
    let service = service_with(
        vec![(
            "Go",
            proc_with(vec![("xs", Type::List { types: vec![] })], None, false),
        )],
        vec![],
    );
    assert_eq!(
        separate_procedures_from_methods(&service, "S"),
        Err(TypeError::ListArity { found: 0 })
    );
}

#[test]
fn return_arity_fault_aborts_the_service() {
    let service = service_with(
        vec![(
            "Go",
            proc_with(
                vec![],
                Some(Type::Dictionary { types: vec![Type::Bool] }),
                false,
            ),
        )],
        vec![],
    );
    assert_eq!(
        separate_procedures_from_methods(&service, "S"),
        Err(TypeError::DictionaryArity { found: 1 })
    );
}
