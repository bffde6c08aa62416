use ts_rpc::{function_name, Api, Declaration, ExportError, Registry, TsFn, TypeInfo};

fn info(name: &str, own: Option<(u64, &str)>, deps: &[(u64, &str)]) -> TypeInfo {
    TypeInfo {
        name: name.to_string(),
        declaration: own.map(|(id, text)| Declaration {
            id,
            text: text.to_string(),
        }),
        dependencies: deps
            .iter()
            .map(|(id, text)| Declaration {
                id: *id,
                text: text.to_string(),
            })
            .collect(),
    }
}

fn declarations(f: &TsFn) -> Vec<(u64, String)> {
    f.type_declarations()
        .iter()
        .map(|d| (d.id, d.text.clone()))
        .collect()
}

#[test]
fn a_new_api_binds_nothing() {
    let api = Api::new();
    assert!(api.registered_fn_names().is_empty());
    assert!(!api.is_registered("login"));
    assert!(Api::default().registered_fn_names().is_empty());
}

#[test]
fn names_are_bound_in_order() {
    let api = Api::new().register_axum("b").register_axum("a");
    assert_eq!(
        api.registered_fn_names(),
        &vec!["b".to_string(), "a".to_string()]
    );
    assert!(api.is_registered("a"));
    assert!(api.is_registered("b"));
    assert!(!api.is_registered("c"));
    assert!(!api.is_registered(""));
}

#[test]
fn a_name_is_bound_once() {
    let mut api = Api::new();
    assert_eq!(api.activate("login"), Ok(()));
    assert_eq!(
        api.activate("login"),
        Err(ExportError::DuplicateActivation("login".to_string()))
    );
    assert_eq!(api.registered_fn_names(), &vec!["login".to_string()]);
    assert_eq!(api.activate("logout"), Ok(()));
    assert_eq!(
        api.activate("login"),
        Err(ExportError::DuplicateActivation("login".to_string()))
    );
    assert_eq!(
        api.registered_fn_names(),
        &vec!["login".to_string(), "logout".to_string()]
    );
}

#[test]
fn a_new_descriptor_is_bare() {
    let f = TsFn::new("login");
    assert_eq!(f.name(), "login");
    assert_eq!(f.response_type(), "");
    assert!(f.request_types().is_empty());
    assert!(f.type_declarations().is_empty());
}

#[test]
fn parameters_keep_call_order() {
    let mut f = TsFn::new("f");
    f.add_request_type("b", &info("string", None, &[]));
    f.add_request_type("a", &info("Item", Some((7, "type Item = {}")), &[]));
    f.add_request_type("b", &info("number", None, &[]));
    assert_eq!(
        f.request_types(),
        &vec![
            ("b".to_string(), "string".to_string()),
            ("a".to_string(), "Item".to_string()),
            ("b".to_string(), "number".to_string()),
        ]
    );
    assert_eq!(declarations(&f), vec![(7, "type Item = {}".to_string())]);
}

#[test]
fn the_response_type_is_set() {
    let mut f = TsFn::new("f");
    f.set_response_type(&info("A", Some((1, "type A = {}")), &[]));
    f.set_response_type(&info("B", Some((2, "type B = {}")), &[]));
    assert_eq!(f.response_type(), "B");
    assert_eq!(
        declarations(&f),
        vec![(1, "type A = {}".to_string()), (2, "type B = {}".to_string())]
    );
    assert!(f.request_types().is_empty());
}

#[test]
fn a_declaration_is_held_once() {
    let mut f = TsFn::new("f");
    f.add_type_definitions(&info("A", Some((1, "type A = B")), &[(2, "type B = {}")]));
    f.add_type_definitions(&info("C", Some((3, "type C = B")), &[(2, "type B = {}")]));
    f.add_type_definitions(&info("A", Some((1, "type A = B")), &[(2, "type B = {}")]));
    assert_eq!(
        declarations(&f),
        vec![
            (1, "type A = B".to_string()),
            (2, "type B = {}".to_string()),
            (3, "type C = B".to_string()),
        ]
    );
}

#[test]
fn a_later_declaration_takes_the_place_of_an_earlier_one() {
    let mut f = TsFn::new("f");
    f.add_type_definitions(&info("A", Some((1, "old")), &[(2, "b"), (1, "newer")]));
    assert_eq!(
        declarations(&f),
        vec![(1, "newer".to_string()), (2, "b".to_string())]
    );
    f.add_type_definitions(&info("B", None, &[(2, "newest"), (2, "last")]));
    assert_eq!(
        declarations(&f),
        vec![(1, "newer".to_string()), (2, "last".to_string())]
    );
}

#[test]
fn a_type_without_a_declaration_adds_only_what_it_depends_on() {
    let mut f = TsFn::new("f");
    f.add_type_definitions(&info("string", None, &[]));
    assert!(f.type_declarations().is_empty());
    f.add_type_definitions(&info("Array<A>", None, &[(1, "type A = {}")]));
    assert_eq!(declarations(&f), vec![(1, "type A = {}".to_string())]);
}

#[test]
fn the_registry_only_grows() {
    let mut registry = Registry::new();
    assert_eq!(registry.len(), 0);
    assert!(registry.get(0).is_none());
    registry.register(TsFn::new("a"));
    registry.register(TsFn::new("b"));
    registry.register(TsFn::new("a"));
    assert_eq!(registry.len(), 3);
    assert_eq!(registry.get(0).unwrap().name(), "a");
    assert_eq!(registry.get(1).unwrap().name(), "b");
    assert_eq!(registry.get(2).unwrap().name(), "a");
    assert!(registry.get(3).is_none());
    assert_eq!(registry.descriptors().len(), 3);
}

#[test]
fn the_name_of_a_handler_is_the_last_segment() {
    assert_eq!(function_name("my_crate::handlers::login"), "login");
    assert_eq!(function_name("login"), "login");
    assert_eq!(function_name(""), "");
    assert_eq!(function_name("a::"), "");
    assert_eq!(function_name("::a"), "a");
    assert_eq!(function_name("a:b"), "a:b");
    assert_eq!(function_name("a:::b"), ":b");
    assert_eq!(function_name(":::"), ":");
    assert_eq!(function_name("::::"), "");
    assert_eq!(function_name("a::b::{{closure}}"), "{{closure}}");
}

#[test]
fn failures_say_what_failed() {
    assert_eq!(
        ExportError::DuplicateExportName("f".to_string()).message(),
        "Duplicate function name: f. Each exported function must have a unique name."
    );
    assert_eq!(
        ExportError::DuplicateActivation("f".to_string()).message(),
        "Function name already registered: `f`. Each function must have a unique name, \
since they are all exported from one file in typescript."
    );
    assert_eq!(
        ExportError::MalformedTypeExpression("a<".to_string()).message(),
        "Malformed type expression: `a<`."
    );
    assert_eq!(
        ExportError::UnexportedActivation(vec!["f".to_string(), "g".to_string()]).message(),
        "Function `f`, `g` is registered but not exported. If you want to allow registered \
functions to not be exported, use `Api::export_ts_client_choice` with \
`registered_must_be_exported` set to `false`."
    );
    assert_eq!(
        ExportError::UnexportedActivation(vec!["f".to_string()]).message(),
        "Function `f` is registered but not exported. If you want to allow registered \
functions to not be exported, use `Api::export_ts_client_choice` with \
`registered_must_be_exported` set to `false`."
    );
}
