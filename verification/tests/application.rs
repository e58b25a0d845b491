use rusty_resty::application::{
    build_router, invoke, root, Payload, ECHO_HANDLER, ECHO_REQUEST_TYPE, HEALTH_HANDLER,
    ROOT_HANDLER,
};
use rusty_resty::controllers::echo_controller::{EchoController, EchoRequest};
use rusty_resty::controllers::health_controller::HealthController;
use rusty_resty::container::Container;
use rusty_resty::dispatch::{dispatch, select, ArgValue};
use rusty_resty::error::DispatchError;
use rusty_resty::route::{ExtractorSpec, Method};
use rusty_resty::template::Segment;

#[test]
fn root_welcomes() {
    assert_eq!(root(), "Welcome to rusty-resty!");
}

#[test]
fn router_holds_the_three_routes_in_order() {
    let table = build_router();
    assert_eq!(table.len(), 3);
    assert_eq!(table.get(0).method(), Method::Get);
    assert_eq!(table.get(0).template().len(), 0);
    assert_eq!(table.get(0).handler(), ROOT_HANDLER);
    assert_eq!(table.get(1).method(), Method::Get);
    assert_eq!(table.get(1).template().len(), 1);
    assert_eq!(table.get(1).template().segment(0), &Segment::Literal(b"health".to_vec()));
    assert_eq!(table.get(1).handler(), HEALTH_HANDLER);
    assert_eq!(table.get(2).method(), Method::Post);
    assert_eq!(table.get(2).template().segment(0), &Segment::Literal(b"echo".to_vec()));
    assert_eq!(table.get(2).plan(), &vec![ExtractorSpec::Body { type_id: ECHO_REQUEST_TYPE }]);
    assert_eq!(table.get(2).handler(), ECHO_HANDLER);
}

#[test]
fn router_dispatches_each_endpoint() {
    let table = build_router();
    let mut c = Container::new();
    assert_eq!(select(&table, Method::Get, b"/"), Ok(0));
    assert_eq!(select(&table, Method::Get, b"/health"), Ok(1));
    assert_eq!(select(&table, Method::Post, b"/echo"), Ok(2));
    let inv = dispatch(&table, &mut c, Method::Get, b"/health", b"", true).unwrap();
    assert_eq!(inv.handler, HEALTH_HANDLER);
    assert_eq!(inv.arguments, vec![]);
    let inv = dispatch(&table, &mut c, Method::Post, b"/echo", b"", true).unwrap();
    assert_eq!(inv.handler, ECHO_HANDLER);
    assert_eq!(inv.arguments, vec![ArgValue::Body]);
}

#[test]
fn router_turns_away_what_it_does_not_serve() {
    let table = build_router();
    assert_eq!(select(&table, Method::Post, b"/health"), Err(DispatchError::MethodNotAllowed));
    assert_eq!(select(&table, Method::Get, b"/echo"), Err(DispatchError::MethodNotAllowed));
    assert_eq!(select(&table, Method::Get, b"/missing"), Err(DispatchError::NotFound));
}

#[test]
fn method_names_are_upper_case() {
    assert_eq!(Method::from_name(b"GET"), Some(Method::Get));
    assert_eq!(Method::from_name(b"POST"), Some(Method::Post));
    assert_eq!(Method::from_name(b"PUT"), Some(Method::Put));
    assert_eq!(Method::from_name(b"DELETE"), Some(Method::Delete));
    assert_eq!(Method::from_name(b"PATCH"), Some(Method::Patch));
    assert_eq!(Method::from_name(b"get"), None);
    assert_eq!(Method::from_name(b"HEAD"), None);
    assert_eq!(Method::from_name(b""), None);
}

#[test]
fn invoke_calls_the_handler_it_is_given() {
    let health = HealthController::new();
    let mut echo = EchoController::new();
    let request = EchoRequest::new("hi".to_string());
    match invoke(&health, &mut echo, ROOT_HANDLER, None) {
        (200, Payload::Text(text)) => assert_eq!(text, "Welcome to rusty-resty!"),
        other => panic!("unexpected answer {:?}", other),
    }
    match invoke(&health, &mut echo, HEALTH_HANDLER, None) {
        (200, Payload::Health(response)) => assert_eq!(response.status, "healthy"),
        other => panic!("unexpected answer {:?}", other),
    }
    match invoke(&health, &mut echo, ECHO_HANDLER, Some(&request)) {
        (200, Payload::Echo(response)) => {
            assert_eq!(response.count, 1);
            assert_eq!(response.data, "1: hi");
        }
        other => panic!("unexpected answer {:?}", other),
    }
    match invoke(&health, &mut echo, ECHO_HANDLER, Some(&request)) {
        (200, Payload::Echo(response)) => assert_eq!(response.data, "2: hi"),
        other => panic!("unexpected answer {:?}", other),
    }
    assert!(matches!(invoke(&health, &mut echo, ECHO_HANDLER, None), (500, Payload::Nothing)));
    assert!(matches!(invoke(&health, &mut echo, 99, Some(&request)), (500, Payload::Nothing)));
    assert_eq!(echo.call_count(), 2);
}

#[test]
fn a_request_runs_from_dispatch_to_payload() {
    let table = build_router();
    let mut c = Container::new();
    let health = HealthController::new();
    let mut echo = EchoController::new();
    let inv = dispatch(&table, &mut c, Method::Get, b"/health", b"", true).unwrap();
    match invoke(&health, &mut echo, inv.handler, None) {
        (200, Payload::Health(response)) => assert_eq!(response.status, "healthy"),
        other => panic!("unexpected answer {:?}", other),
    }
    let body: &[u8] = b"{\"message\":\"hi\"}";
    for call in 1..=3u64 {
        let message = serde_json::from_slice::<serde_json::Value>(body)
            .ok()
            .and_then(|v| v.get("message").and_then(|m| m.as_str()).map(|m| m.to_string()));
        let inv = dispatch(&table, &mut c, Method::Post, b"/echo", b"", message.is_some()).unwrap();
        let request = EchoRequest::new(message.unwrap());
        match invoke(&health, &mut echo, inv.handler, Some(&request)) {
            (200, Payload::Echo(response)) => {
                assert_eq!(response.count, call);
                assert_eq!(response.data, format!("{}: hi", call));
            }
            other => panic!("unexpected answer {:?}", other),
        }
    }
}
