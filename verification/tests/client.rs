use ts_rpc::{Api, Declaration, ExportError, Registry, TsFn, TypeInfo};

const URL: &str = "http://localhost:3003";
const TRANSPORT: &str = "export function request() {}";

fn plain(name: &str) -> TypeInfo {
    TypeInfo {
        name: name.to_string(),
        declaration: None,
        dependencies: Vec::new(),
    }
}

fn declared(name: &str, id: u64, text: &str, dependencies: Vec<Declaration>) -> TypeInfo {
    TypeInfo {
        name: name.to_string(),
        declaration: Some(Declaration {
            id,
            text: text.to_string(),
        }),
        dependencies,
    }
}

fn password() -> TypeInfo {
    declared("Password", 1, "type Password = { password: string, }", Vec::new())
}

fn login() -> TsFn {
    let mut f = TsFn::new("login");
    f.add_request_type("email", &plain("string"));
    f.add_request_type("password", &password());
    f.set_response_type(&declared(
        "ReturnType<Password>",
        2,
        "type ReturnType<T> = { inner: T, }",
        vec![Declaration {
            id: 1,
            text: "type Password = { password: string, }".to_string(),
        }],
    ));
    f
}

fn endpoint(name: &str) -> TsFn {
    let mut f = TsFn::new(name);
    f.set_response_type(&plain("void"));
    f
}

fn registry_of(fns: Vec<TsFn>) -> Registry {
    let mut r = Registry::new();
    for f in fns {
        r.register(f);
    }
    r
}

fn block(name: &str) -> String {
    format!(
        "\nnamespace {name} {{\n    \n}}\nfunction {name}(): __request.CancelablePromise<void> {{\n    return __request.request(\n        {{ url: '{URL}' }},\n        {{\n            method: 'POST',\n            url: '/{name}',\n            body: [],\n            mediaType: 'application/json',\n        }}\n    )\n}}\n"
    )
}

fn tail() -> String {
    format!("\nnamespace __request {{\n{TRANSPORT}\n}}")
}

#[test]
fn login_end_to_end() {
    let api = Api::new().register_axum("login");
    let registry = registry_of(vec![login()]);
    let text = api.export_ts_client(&registry, URL, TRANSPORT).unwrap();
    let expected = "export {\n  login\n}\n\
\nnamespace login {\n    export type Password = { password: string, }\nexport type ReturnType<T> = { inner: T, }\n}\n\
function login(email: string, password: login.Password): __request.CancelablePromise<login.ReturnType<login.Password>> {\n    \
return __request.request(\n        { url: 'http://localhost:3003' },\n        {\n            method: 'POST',\n            url: '/login',\n            body: [email, password],\n            mediaType: 'application/json',\n        }\n    )\n}\n\
\nnamespace __request {\nexport function request() {}\n}";
    assert_eq!(text, expected);
    assert_eq!(text.matches("export {").count(), 1);
    assert!(text.starts_with("export {\n  login\n}"));
    assert_eq!(text.matches("namespace login {").count(), 1);
    assert!(text.contains("password: login.Password"));
    assert!(text.contains("CancelablePromise<login.ReturnType<login.Password>>"));
}

#[test]
fn the_same_input_gives_the_same_text() {
    let api = Api::new().register_axum("login").register_axum("logout");
    let registry = registry_of(vec![login(), endpoint("logout")]);
    let first = api.export_ts_client(&registry, URL, TRANSPORT);
    let second = api.export_ts_client(&registry, URL, TRANSPORT);
    assert!(first.is_ok());
    assert_eq!(first, second);
}

#[test]
fn endpoints_are_written_by_name() {
    let api = Api::new();
    let registry = registry_of(vec![endpoint("b"), endpoint("c"), endpoint("a"), endpoint("ab")]);
    let text = api
        .export_ts_client_choice(&registry, URL, TRANSPORT, false, true)
        .unwrap();
    let expected = format!(
        "export {{\n  a,\n  ab,\n  b,\n  c\n}}\n{}{}{}{}{}",
        block("a"),
        block("ab"),
        block("b"),
        block("c"),
        tail()
    );
    assert_eq!(text, expected);
}

#[test]
fn the_order_of_registration_has_no_meaning() {
    let api = Api::new().register_axum("a").register_axum("b").register_axum("login");
    let one = registry_of(vec![endpoint("a"), login(), endpoint("b")]);
    let other = registry_of(vec![endpoint("b"), endpoint("a"), login()]);
    assert_eq!(
        api.export_ts_client(&one, URL, TRANSPORT),
        api.export_ts_client(&other, URL, TRANSPORT)
    );
}

#[test]
fn nothing_to_write() {
    let api = Api::new();
    let registry = Registry::new();
    let text = api.export_ts_client(&registry, URL, TRANSPORT).unwrap();
    assert_eq!(text, format!("export {{\n  \n}}\n{}", tail()));
}

#[test]
fn only_bound_endpoints_are_written() {
    let api = Api::new().register_axum("b");
    let registry = registry_of(vec![endpoint("a"), endpoint("b"), endpoint("c")]);
    let text = api.export_ts_client(&registry, URL, TRANSPORT).unwrap();
    assert_eq!(text, format!("export {{\n  b\n}}\n{}{}", block("b"), tail()));
}

#[test]
fn all_declared_endpoints_are_written_on_request() {
    let api = Api::new().register_axum("b");
    let registry = registry_of(vec![endpoint("b"), endpoint("a")]);
    let text = api
        .export_ts_client_choice(&registry, URL, TRANSPORT, false, true)
        .unwrap();
    assert_eq!(
        text,
        format!("export {{\n  a,\n  b\n}}\n{}{}{}", block("a"), block("b"), tail())
    );
}

#[test]
fn two_written_endpoints_of_one_name() {
    let api = Api::new();
    let registry = registry_of(vec![endpoint("b"), endpoint("a"), endpoint("b")]);
    assert_eq!(
        api.export_ts_client_choice(&registry, URL, TRANSPORT, false, false),
        Err(ExportError::DuplicateExportName("b".to_string()))
    );
    let api = Api::new().register_axum("b");
    assert_eq!(
        api.export_ts_client(&registry, URL, TRANSPORT),
        Err(ExportError::DuplicateExportName("b".to_string()))
    );
}

#[test]
fn the_first_repeated_name_is_reported() {
    let api = Api::new();
    let registry = registry_of(vec![
        endpoint("z"),
        endpoint("m"),
        endpoint("z"),
        endpoint("m"),
        endpoint("a"),
    ]);
    assert_eq!(
        api.export_ts_client_choice(&registry, URL, TRANSPORT, false, false),
        Err(ExportError::DuplicateExportName("m".to_string()))
    );
}

#[test]
fn a_repeated_name_that_is_not_written_does_no_harm() {
    let api = Api::new().register_axum("a");
    let registry = registry_of(vec![endpoint("b"), endpoint("a"), endpoint("b")]);
    let text = api.export_ts_client(&registry, URL, TRANSPORT).unwrap();
    assert_eq!(text, format!("export {{\n  a\n}}\n{}{}", block("a"), tail()));
}

#[test]
fn every_missing_name_is_listed() {
    let api = Api::new()
        .register_axum("gone")
        .register_axum("a")
        .register_axum("also_gone");
    let registry = registry_of(vec![endpoint("a"), endpoint("b")]);
    assert_eq!(
        api.export_ts_client(&registry, URL, TRANSPORT),
        Err(ExportError::UnexportedActivation(vec![
            "gone".to_string(),
            "also_gone".to_string()
        ]))
    );
    assert_eq!(
        api.export_ts_client_choice(&registry, URL, TRANSPORT, false, true),
        Err(ExportError::UnexportedActivation(vec![
            "gone".to_string(),
            "also_gone".to_string()
        ]))
    );
}

#[test]
fn missing_names_are_let_pass_on_request() {
    let api = Api::new().register_axum("gone").register_axum("a");
    let registry = registry_of(vec![endpoint("a"), endpoint("b")]);
    let text = api
        .export_ts_client_choice(&registry, URL, TRANSPORT, true, false)
        .unwrap();
    assert_eq!(text, format!("export {{\n  a\n}}\n{}{}", block("a"), tail()));
}

#[test]
fn a_malformed_parameter_type_is_reported() {
    let mut f = TsFn::new("f");
    f.add_request_type("x", &plain("string"));
    f.add_request_type("y", &plain("Array<Item"));
    f.add_request_type("z", &plain("a | b"));
    f.set_response_type(&plain("<"));
    let api = Api::new().register_axum("f");
    assert_eq!(
        api.export_ts_client(&registry_of(vec![f]), URL, TRANSPORT),
        Err(ExportError::MalformedTypeExpression("Array<Item".to_string()))
    );
}

#[test]
fn a_malformed_response_type_is_reported() {
    let mut f = TsFn::new("f");
    f.add_request_type("x", &plain("string"));
    f.set_response_type(&plain("string | null"));
    let api = Api::new().register_axum("f");
    assert_eq!(
        api.export_ts_client(&registry_of(vec![endpoint("a"), f]), URL, TRANSPORT),
        Err(ExportError::MalformedTypeExpression("string | null".to_string()))
    );
}

#[test]
fn a_repeated_name_comes_before_a_malformed_type() {
    let mut f = TsFn::new("a");
    f.set_response_type(&plain("<"));
    let api = Api::new();
    let registry = registry_of(vec![f, endpoint("b"), endpoint("b")]);
    assert_eq!(
        api.export_ts_client_choice(&registry, URL, TRANSPORT, false, true),
        Err(ExportError::DuplicateExportName("b".to_string()))
    );
}

#[test]
fn a_malformed_type_comes_before_a_missing_name() {
    let mut f = TsFn::new("a");
    f.set_response_type(&plain("<"));
    let api = Api::new().register_axum("a").register_axum("gone");
    assert_eq!(
        api.export_ts_client(&registry_of(vec![f]), URL, TRANSPORT),
        Err(ExportError::MalformedTypeExpression("<".to_string()))
    );
}

#[test]
fn an_endpoint_that_is_not_written_may_be_malformed() {
    let mut f = TsFn::new("hidden");
    f.set_response_type(&plain("<"));
    let api = Api::new().register_axum("a");
    let text = api
        .export_ts_client(&registry_of(vec![f, endpoint("a")]), URL, TRANSPORT)
        .unwrap();
    assert_eq!(text, format!("export {{\n  a\n}}\n{}{}", block("a"), tail()));
}

#[test]
fn types_are_moved_into_the_namespace_of_their_endpoint() {
    let mut f = TsFn::new("list_products");
    f.add_request_type("filter", &plain("[Array<Tag>, number]"));
    f.set_response_type(&plain("Array<Product>"));
    let api = Api::new().register_axum("list_products");
    let text = api
        .export_ts_client(&registry_of(vec![f]), URL, TRANSPORT)
        .unwrap();
    assert!(text.contains(
        "function list_products(filter: [Array<list_products.Tag>, number]): \
__request.CancelablePromise<Array<list_products.Product>> {"
    ));
    assert!(text.contains("body: [filter],"));
    assert!(text.contains("url: '/list_products',"));
}
