use rusty_resty::container::{Construction, Container, Factory, InstanceRef, Lifetime};
use rusty_resty::controllers::echo_controller::{EchoController, EchoRequest};
use rusty_resty::controllers::health_controller::HealthController;
use rusty_resty::dispatch::{dispatch, extract, select, select_named, ArgValue, Invocation};
use rusty_resty::error::{ContainerError, DispatchError};
use rusty_resty::route::{DeclaredType, Method, Parameter, RouteDescriptor, Source};
use rusty_resty::table::RouteTable;

const SERVICE: u64 = 50;
const HELPER: u64 = 51;
const ECHO_REQUEST: u64 = 60;

fn declared(source: Source, name: &str, declared: DeclaredType) -> Parameter {
    Parameter { source, name: name.as_bytes().to_vec(), declared }
}

fn route(method: Method, text: &str, params: &[Parameter], handler: u64) -> RouteDescriptor {
    RouteDescriptor::new(method, text.as_bytes(), params, handler).unwrap()
}

fn table_of(routes: Vec<RouteDescriptor>) -> RouteTable {
    let mut table = RouteTable::new();
    for r in routes {
        table.route(r).unwrap();
    }
    table
}

fn services() -> Container {
    let mut c = Container::new();
    c.register(SERVICE, Lifetime::Singleton, Factory { id: 500, dependencies: vec![HELPER] }).unwrap();
    c.register(HELPER, Lifetime::Transient, Factory { id: 510, dependencies: vec![] }).unwrap();
    c
}

fn users() -> RouteTable {
    table_of(vec![
        route(Method::Get, "/users/{id}", &[], 1),
        route(Method::Get, "/users/active", &[], 2),
        route(Method::Post, "/users", &[], 3),
        route(Method::Get, "/", &[], 4),
    ])
}

#[test]
fn select_picks_the_only_match() {
    let table = users();
    assert_eq!(select(&table, Method::Get, b"/users/42"), Ok(0));
    assert_eq!(select(&table, Method::Post, b"/users"), Ok(2));
    assert_eq!(select(&table, Method::Get, b"/"), Ok(3));
}

#[test]
fn select_prefers_the_literal_route() {
    let table = users();
    assert_eq!(select(&table, Method::Get, b"/users/active"), Ok(1));
    let table = table_of(vec![
        route(Method::Get, "/users/active", &[], 2),
        route(Method::Get, "/users/{id}", &[], 1),
    ]);
    assert_eq!(select(&table, Method::Get, b"/users/active"), Ok(0));
    assert_eq!(select(&table, Method::Get, b"/users/other"), Ok(1));
}

#[test]
fn select_prefers_more_literals_then_the_earlier_literal() {
    let table = table_of(vec![
        route(Method::Get, "/{a}/{b}/{c}", &[], 0),
        route(Method::Get, "/a/{b}/{c}", &[], 1),
        route(Method::Get, "/{a}/b/c", &[], 2),
        route(Method::Get, "/{a}/b/{c}", &[], 3),
        route(Method::Get, "/a/{b}/c", &[], 4),
    ]);
    assert_eq!(select(&table, Method::Get, b"/a/b/c"), Ok(4));
    assert_eq!(select(&table, Method::Get, b"/x/b/c"), Ok(2));
    assert_eq!(select(&table, Method::Get, b"/a/b/x"), Ok(1));
    assert_eq!(select(&table, Method::Get, b"/x/b/x"), Ok(3));
    assert_eq!(select(&table, Method::Get, b"/x/y/z"), Ok(0));
    assert_eq!(select(&table, Method::Get, b"/a/x/c"), Ok(4));
}

#[test]
fn select_does_not_depend_on_registration_order() {
    let texts = ["/{a}/{b}", "/a/{b}", "/{a}/b", "/a/b"];
    let orders: [[usize; 4]; 4] = [[0, 1, 2, 3], [3, 2, 1, 0], [1, 3, 0, 2], [2, 0, 3, 1]];
    for order in orders {
        let table = table_of(
            order.iter().map(|&i| route(Method::Get, texts[i], &[], i as u64)).collect(),
        );
        let handler = |path: &[u8]| table.get(select(&table, Method::Get, path).unwrap()).handler();
        assert_eq!(handler(b"/a/b"), 3);
        assert_eq!(handler(b"/a/x"), 1);
        assert_eq!(handler(b"/x/b"), 2);
        assert_eq!(handler(b"/x/y"), 0);
    }
}

#[test]
fn unknown_path_is_not_found() {
    let table = users();
    assert_eq!(select(&table, Method::Get, b"/posts"), Err(DispatchError::NotFound));
    assert_eq!(select(&table, Method::Get, b"/users/42/posts"), Err(DispatchError::NotFound));
    assert_eq!(select(&table, Method::Get, b"/users/"), Err(DispatchError::NotFound));
    assert_eq!(select(&table, Method::Get, b"users/42"), Err(DispatchError::NotFound));
    assert_eq!(select(&table, Method::Get, b""), Err(DispatchError::NotFound));
    assert_eq!(select(&RouteTable::new(), Method::Get, b"/"), Err(DispatchError::NotFound));
}

#[test]
fn known_path_under_another_method_is_method_not_allowed() {
    let table = users();
    assert_eq!(select(&table, Method::Get, b"/users"), Err(DispatchError::MethodNotAllowed));
    assert_eq!(select(&table, Method::Post, b"/users/42"), Err(DispatchError::MethodNotAllowed));
    assert_eq!(select(&table, Method::Delete, b"/"), Err(DispatchError::MethodNotAllowed));
    assert_eq!(select(&table, Method::Delete, b"/nothing"), Err(DispatchError::NotFound));
}

#[test]
fn path_parameters_are_parsed_into_their_types() {
    let params = [
        declared(Source::Path, "id", DeclaredType::Integer),
        declared(Source::Path, "name", DeclaredType::Text),
    ];
    let table = table_of(vec![route(Method::Get, "/users/{id}/{name}", &params, 7)]);
    let mut c = Container::new();
    let inv = dispatch(&table, &mut c, Method::Get, b"/users/-42/ann", b"", true).unwrap();
    assert_eq!(
        inv,
        Invocation {
            route: 0,
            handler: 7,
            arguments: vec![ArgValue::Integer(-42), ArgValue::Text(b"ann".to_vec())],
            constructions: vec![],
        }
    );
}

#[test]
fn path_parameter_order_follows_the_declaration() {
    let params = [
        declared(Source::Path, "name", DeclaredType::Text),
        declared(Source::Path, "id", DeclaredType::Integer),
    ];
    let table = table_of(vec![route(Method::Get, "/users/{id}/{name}", &params, 7)]);
    let mut c = Container::new();
    let inv = dispatch(&table, &mut c, Method::Get, b"/users/5/bob", b"", true).unwrap();
    assert_eq!(inv.arguments, vec![ArgValue::Text(b"bob".to_vec()), ArgValue::Integer(5)]);
}

#[test]
fn invalid_path_parameter_stops_before_the_injected_service() {
    let params = [
        declared(Source::Path, "id", DeclaredType::Integer),
        declared(Source::Service, "", DeclaredType::Named(SERVICE)),
    ];
    let table = table_of(vec![route(Method::Get, "/users/{id}", &params, 7)]);
    let mut c = services();
    assert_eq!(
        dispatch(&table, &mut c, Method::Get, b"/users/abc", b"", true),
        Err(DispatchError::InvalidPathParameter)
    );
    assert!(!c.is_built(SERVICE));
    let inv = dispatch(&table, &mut c, Method::Get, b"/users/12", b"", true).unwrap();
    assert_eq!(
        inv.arguments,
        vec![ArgValue::Integer(12), ArgValue::Service(InstanceRef::Shared(SERVICE))]
    );
    assert_eq!(
        inv.constructions,
        vec![
            Construction {
                type_id: HELPER,
                lifetime: Lifetime::Transient,
                factory: 510,
                dependencies: vec![],
            },
            Construction {
                type_id: SERVICE,
                lifetime: Lifetime::Singleton,
                factory: 500,
                dependencies: vec![InstanceRef::Fresh(0)],
            },
        ]
    );
    assert!(c.is_built(SERVICE));
}

#[test]
fn later_failure_undoes_the_earlier_injection() {
    let params = [
        declared(Source::Service, "", DeclaredType::Named(SERVICE)),
        declared(Source::Path, "id", DeclaredType::Integer),
    ];
    let table = table_of(vec![route(Method::Get, "/users/{id}", &params, 7)]);
    let mut c = services();
    assert_eq!(
        dispatch(&table, &mut c, Method::Get, b"/users/abc", b"", true),
        Err(DispatchError::InvalidPathParameter)
    );
    assert!(!c.is_built(SERVICE));
    let inv = dispatch(&table, &mut c, Method::Get, b"/users/1", b"", true).unwrap();
    assert_eq!(inv.constructions.len(), 2);
    let inv = dispatch(&table, &mut c, Method::Get, b"/users/2", b"", true).unwrap();
    assert_eq!(inv.constructions, vec![]);
    assert_eq!(
        inv.arguments,
        vec![ArgValue::Service(InstanceRef::Shared(SERVICE)), ArgValue::Integer(2)]
    );
}

#[test]
fn the_first_failing_extractor_decides_the_error() {
    let params = [
        declared(Source::Query, "page", DeclaredType::Integer),
        declared(Source::Body, "", DeclaredType::Named(ECHO_REQUEST)),
        declared(Source::Service, "", DeclaredType::Named(99)),
    ];
    let table = table_of(vec![route(Method::Post, "/items", &params, 7)]);
    let mut c = services();
    let run = |c: &mut Container, query: &[u8], body_ok: bool| {
        dispatch(&table, c, Method::Post, b"/items", query, body_ok)
    };
    assert_eq!(run(&mut c, b"", false), Err(DispatchError::MissingQueryParameter));
    assert_eq!(run(&mut c, b"page=x", false), Err(DispatchError::InvalidQueryParameter));
    assert_eq!(run(&mut c, b"page=1", false), Err(DispatchError::InvalidBody));
    assert_eq!(
        run(&mut c, b"page=1", true),
        Err(DispatchError::Dependency(ContainerError::UnregisteredDependency(99)))
    );
}

#[test]
fn query_parameters_are_looked_up_by_name() {
    let params = [
        declared(Source::Query, "page", DeclaredType::Integer),
        declared(Source::OptionalQuery, "sort", DeclaredType::Text),
        declared(Source::OptionalQuery, "limit", DeclaredType::Integer),
    ];
    let table = table_of(vec![route(Method::Get, "/items", &params, 7)]);
    let mut c = Container::new();
    let mut run = |query: &[u8]| {
        dispatch(&table, &mut c, Method::Get, b"/items", query, true).map(|inv| inv.arguments)
    };
    assert_eq!(
        run(b"page=3&sort=name&limit=10"),
        Ok(vec![ArgValue::Integer(3), ArgValue::Text(b"name".to_vec()), ArgValue::Integer(10)])
    );
    assert_eq!(
        run(b"limit=10&page=3"),
        Ok(vec![ArgValue::Integer(3), ArgValue::Absent, ArgValue::Integer(10)])
    );
    assert_eq!(run(b"page=3"), Ok(vec![ArgValue::Integer(3), ArgValue::Absent, ArgValue::Absent]));
    assert_eq!(
        run(b"page=1&page=2&sort"),
        Ok(vec![ArgValue::Integer(1), ArgValue::Text(vec![]), ArgValue::Absent])
    );
    assert_eq!(
        run(b"page=7&sort=a=b"),
        Ok(vec![ArgValue::Integer(7), ArgValue::Text(b"a=b".to_vec()), ArgValue::Absent])
    );
    assert_eq!(run(b"sort=name"), Err(DispatchError::MissingQueryParameter));
    assert_eq!(run(b""), Err(DispatchError::MissingQueryParameter));
    assert_eq!(run(b"pages=3"), Err(DispatchError::MissingQueryParameter));
    assert_eq!(run(b"page="), Err(DispatchError::InvalidQueryParameter));
    assert_eq!(run(b"page"), Err(DispatchError::InvalidQueryParameter));
    assert_eq!(run(b"page=3&limit=many"), Err(DispatchError::InvalidQueryParameter));
}

#[test]
fn body_verdict_decides_invalid_body() {
    let params = [declared(Source::Body, "", DeclaredType::Named(ECHO_REQUEST))];
    let table = table_of(vec![route(Method::Post, "/echo", &params, 7)]);
    let mut c = Container::new();
    assert_eq!(
        dispatch(&table, &mut c, Method::Post, b"/echo", b"", false),
        Err(DispatchError::InvalidBody)
    );
    let inv = dispatch(&table, &mut c, Method::Post, b"/echo", b"", true).unwrap();
    assert_eq!(inv.arguments, vec![ArgValue::Body]);
    let plain = table_of(vec![route(Method::Post, "/echo", &[], 7)]);
    assert!(dispatch(&plain, &mut c, Method::Post, b"/echo", b"", false).is_ok());
}

#[test]
fn container_errors_are_server_errors() {
    let params = [declared(Source::Service, "", DeclaredType::Named(1))];
    let table = table_of(vec![route(Method::Get, "/a", &params, 7)]);
    let mut c = Container::new();
    let e = dispatch(&table, &mut c, Method::Get, b"/a", b"", true).unwrap_err();
    assert_eq!(e, DispatchError::Dependency(ContainerError::UnregisteredDependency(1)));
    assert_eq!(e.status(), 500);
    assert_eq!(e.kind(), "unregistered_dependency");
    c.register(1, Lifetime::Singleton, Factory { id: 1, dependencies: vec![2] }).unwrap();
    c.register(2, Lifetime::Singleton, Factory { id: 2, dependencies: vec![1] }).unwrap();
    let e = dispatch(&table, &mut c, Method::Get, b"/a", b"", true).unwrap_err();
    assert_eq!(e, DispatchError::Dependency(ContainerError::CircularDependency(1)));
    assert_eq!(e.status(), 500);
    assert_eq!(e.kind(), "circular_dependency");
}

#[test]
fn every_error_has_a_stable_status_and_kind() {
    let cases = [
        (DispatchError::NotFound, 404, "not_found"),
        (DispatchError::MethodNotAllowed, 405, "method_not_allowed"),
        (DispatchError::InvalidPathParameter, 400, "invalid_path_parameter"),
        (DispatchError::MissingQueryParameter, 400, "missing_query_parameter"),
        (DispatchError::InvalidQueryParameter, 400, "invalid_query_parameter"),
        (DispatchError::InvalidBody, 400, "invalid_body"),
        (
            DispatchError::Dependency(ContainerError::DuplicateRegistration(1)),
            500,
            "duplicate_registration",
        ),
    ];
    for (error, status, kind) in cases {
        assert_eq!(error.status(), status);
        assert_eq!(error.kind(), kind);
    }
}

#[test]
fn extract_runs_the_plan_of_the_route_it_is_given() {
    let params = [declared(Source::Path, "id", DeclaredType::Integer)];
    let table = table_of(vec![
        route(Method::Get, "/users/{id}", &params, 1),
        route(Method::Get, "/users/active", &[], 2),
    ]);
    let mut c = Container::new();
    let inv = extract(&table, 0, &mut c, b"/users/9", b"", true).unwrap();
    assert_eq!(inv.handler, 1);
    assert_eq!(inv.arguments, vec![ArgValue::Integer(9)]);
    assert_eq!(
        extract(&table, 0, &mut c, b"/users/active", b"", true),
        Err(DispatchError::InvalidPathParameter)
    );
    assert_eq!(extract(&table, 1, &mut c, b"/users/9", b"", true), Err(DispatchError::NotFound));
    assert_eq!(extract(&table, 2, &mut c, b"/users/9", b"", true), Err(DispatchError::NotFound));
    assert_eq!(extract(&table, 0, &mut c, b"users/9", b"", true), Err(DispatchError::NotFound));
}

#[test]
fn nested_route_is_dispatchable_under_its_prefix() {
    let inner = table_of(vec![route(Method::Get, "/echo", &[], 11)]);
    let mut outer = table_of(vec![route(Method::Get, "/", &[], 10)]);
    outer.nest(b"/api", &inner).unwrap();
    let mut c = Container::new();
    let inv = dispatch(&outer, &mut c, Method::Get, b"/api/echo", b"", true).unwrap();
    assert_eq!(inv.handler, 11);
    assert_eq!(inv.route, 1);
    assert_eq!(
        dispatch(&outer, &mut c, Method::Get, b"/echo", b"", true),
        Err(DispatchError::NotFound)
    );
    assert_eq!(dispatch(&inner, &mut c, Method::Get, b"/echo", b"", true).unwrap().handler, 11);
    assert_eq!(
        dispatch(&inner, &mut c, Method::Get, b"/api/echo", b"", true),
        Err(DispatchError::NotFound)
    );
    assert_eq!(inner.len(), 1);
}

#[test]
fn health_scenario_returns_the_fixed_payload() {
    let table = table_of(vec![route(Method::Get, "/health", &[], 1)]);
    let mut c = Container::new();
    let controller = HealthController::new();
    let inv = dispatch(&table, &mut c, Method::Get, b"/health", b"", true).unwrap();
    assert_eq!(
        inv,
        Invocation { route: 0, handler: 1, arguments: vec![], constructions: vec![] }
    );
    let (status, payload) = controller.health_check();
    assert_eq!(status, 200);
    assert_eq!(payload.status, "healthy");
}

#[test]
fn echo_scenario_embeds_the_message_and_counts_the_calls() {
    let params = [declared(Source::Body, "", DeclaredType::Named(ECHO_REQUEST))];
    let table = table_of(vec![route(Method::Post, "/echo", &params, 2)]);
    assert_eq!(table.get(0).body_type(), Some(ECHO_REQUEST));
    let mut c = Container::new();
    let mut controller = EchoController::new();
    let body: &[u8] = b"{\"message\":\"hi\"}";
    let mut last = 0;
    for _ in 0..3 {
        let decoded: Option<String> = serde_json::from_slice::<serde_json::Value>(body)
            .ok()
            .and_then(|v| v.get("message").and_then(|m| m.as_str()).map(|m| m.to_string()));
        let inv =
            dispatch(&table, &mut c, Method::Post, b"/echo", b"", decoded.is_some()).unwrap();
        assert_eq!(inv.handler, 2);
        assert_eq!(inv.arguments, vec![ArgValue::Body]);
        let (status, response) = controller.echo(&EchoRequest::new(decoded.unwrap()));
        assert_eq!(status, 200);
        assert!(response.data.contains("hi"));
        assert!(response.count > last);
        assert_eq!(response.count, last + 1);
        assert_eq!(response.data, format!("{}: hi", response.count));
        last = response.count;
    }
    let broken: &[u8] = b"{\"message\":";
    let decodes = serde_json::from_slice::<serde_json::Value>(broken).is_ok();
    assert_eq!(
        dispatch(&table, &mut c, Method::Post, b"/echo", b"", decodes),
        Err(DispatchError::InvalidBody)
    );
}

#[test]
fn select_named_reads_the_method_by_its_name() {
    let table = users();
    assert_eq!(select_named(&table, b"GET", b"/users/42"), Ok(0));
    assert_eq!(select_named(&table, b"GET", b"/users/active"), Ok(1));
    assert_eq!(select_named(&table, b"POST", b"/users"), Ok(2));
    assert_eq!(select_named(&table, b"POST", b"/users/42"), Err(DispatchError::MethodNotAllowed));
    assert_eq!(select_named(&table, b"HEAD", b"/users/42"), Err(DispatchError::MethodNotAllowed));
    assert_eq!(select_named(&table, b"get", b"/users/42"), Err(DispatchError::MethodNotAllowed));
    assert_eq!(select_named(&table, b"HEAD", b"/posts"), Err(DispatchError::NotFound));
    assert_eq!(select_named(&table, b"HEAD", b"users"), Err(DispatchError::NotFound));
    assert_eq!(select_named(&table, b"GET", b"/posts"), Err(DispatchError::NotFound));
}
