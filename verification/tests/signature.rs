use ts_rpc::{plan_export, Parameter, Signature, SignatureError};

fn param(name: &str, ty: &str) -> Parameter {
    Parameter {
        name: name.to_string(),
        ty: ty.to_string(),
        is_receiver: false,
        names_axum: false,
    }
}

fn axum(name: &str, ty: &str) -> Parameter {
    Parameter {
        names_axum: true,
        ..param(name, ty)
    }
}

fn receiver() -> Parameter {
    Parameter {
        is_receiver: true,
        ..param("self", "Self")
    }
}

fn handler(parameters: Vec<Parameter>, output: Option<&str>) -> Signature {
    Signature {
        name: "login".to_string(),
        is_async: true,
        generics: 0,
        parameters,
        output: output.map(str::to_string),
    }
}

fn pairs(items: &[(&str, &str)]) -> Vec<(String, String)> {
    items
        .iter()
        .map(|(n, t)| (n.to_string(), t.to_string()))
        .collect()
}

#[test]
fn a_handler_is_exported_under_its_name() {
    let sig = handler(
        vec![param("email", "String"), param("password", "String")],
        Some("String"),
    );
    let export = plan_export(&sig).unwrap();
    assert_eq!(export.name, "login");
    assert_eq!(export.static_name, "__login");
    assert_eq!(
        export.parameters,
        pairs(&[("email", "String"), ("password", "String")])
    );
    assert_eq!(export.output, "String");
}

#[test]
fn a_last_parameter_that_the_server_fills_in_is_not_sent() {
    let sig = handler(
        vec![
            param("email", "String"),
            param("password", "String"),
            axum("axum", "ts_rc :: Axum < String >"),
        ],
        Some("String"),
    );
    let export = plan_export(&sig).unwrap();
    assert_eq!(
        export.parameters,
        pairs(&[("email", "String"), ("password", "String")])
    );
}

#[test]
fn only_the_last_parameter_is_left_out() {
    let sig = handler(
        vec![axum("a", "Axum<A>"), param("b", "B"), axum("c", "Axum<C>")],
        None,
    );
    let export = plan_export(&sig).unwrap();
    assert_eq!(export.parameters, pairs(&[("a", "Axum<A>"), ("b", "B")]));
    let sig = handler(vec![axum("a", "Axum<A>"), param("b", "B")], None);
    let export = plan_export(&sig).unwrap();
    assert_eq!(export.parameters, pairs(&[("a", "Axum<A>"), ("b", "B")]));
}

#[test]
fn no_return_type_is_the_unit_type() {
    let export = plan_export(&handler(Vec::new(), None)).unwrap();
    assert_eq!(export.output, "()");
    assert!(export.parameters.is_empty());
}

#[test]
fn a_handler_must_be_async() {
    let mut sig = handler(vec![receiver()], None);
    sig.is_async = false;
    sig.generics = 2;
    assert_eq!(plan_export(&sig).err(), Some(SignatureError::NotAsync));
    assert_eq!(SignatureError::NotAsync.message(), "Must be async");
}

#[test]
fn a_handler_has_no_generics() {
    let mut sig = handler(vec![receiver()], None);
    sig.generics = 1;
    assert_eq!(plan_export(&sig).err(), Some(SignatureError::Generics));
    assert_eq!(SignatureError::Generics.message(), "Generics not supported");
}

#[test]
fn a_handler_takes_no_self() {
    let sig = handler(vec![param("a", "A"), receiver()], None);
    assert_eq!(plan_export(&sig).err(), Some(SignatureError::Receiver));
    assert_eq!(
        SignatureError::Receiver.message(),
        "self argument not supported"
    );
}
