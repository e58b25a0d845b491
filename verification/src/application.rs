//! The example application: a welcome page, a health endpoint and an echo
//! endpoint, each registered as a route.

use vstd::prelude::*;
use vstd::string::StringSliceAdditionalSpecFns;
use crate::controllers::echo_controller::{EchoController, EchoRequest};
use crate::controllers::health_controller::HealthController;
use crate::dispatch::select_spec;
use crate::dispatch_laws::lemma_sole_candidate_selected;
use crate::error::DispatchError;
use crate::route::{
    extractor_for, parameter_views, plan_from, DeclaredType, ExtractorView, Method, Parameter,
    RouteDescriptor, RouteView, Source,
};
use crate::services::echo_service::{echo_text, next_count, EchoResponse};
use crate::services::health_service::HealthResponse;
use crate::table::{conflict_free, RouteTable};
use crate::template::{
    has_brace, is_param_text, names_distinct, path_segments, segments_of, template_of,
    valid_part, SegmentView,
};
use crate::text::{lemma_first_index, pieces};

verus! {

/// The handler of the welcome page.
pub const ROOT_HANDLER: u64 = 0;

/// The handler of the health endpoint.
pub const HEALTH_HANDLER: u64 = 1;

/// The handler of the echo endpoint.
pub const ECHO_HANDLER: u64 = 2;

/// The type identity of the body of an echo request.
pub const ECHO_REQUEST_TYPE: u64 = 1;

/// The welcome page.
pub fn root() -> (text: &'static str)
    ensures
        text@ == "Welcome to rusty-resty!"@,
{
    "Welcome to rusty-resty!"
}

/// What a handler of the application answers with.
#[derive(Debug)]
pub enum Payload {
    Text(&'static str),
    Health(HealthResponse),
    Echo(EchoResponse),
    /// No handler could be called.
    Nothing,
}

/// Calls the handler `handler` and returns its status and payload.
///
/// The welcome page and the health endpoint take no argument; the echo
/// endpoint takes the decoded body, and counts the call. A handler reference
/// that is not the application's, or an echo without its body, is answered
/// with status 500 and nothing. Only an echo that is answered is counted.
pub fn invoke(
    health: &HealthController,
    echo: &mut EchoController,
    handler: u64,
    body: Option<&EchoRequest>,
) -> (answer: (u16, Payload))
    ensures
        match answer.1 {
            Payload::Text(text) => handler == ROOT_HANDLER && answer.0 == 200 && text@
                == "Welcome to rusty-resty!"@ && final(echo).calls() == old(echo).calls(),
            Payload::Health(response) => handler == HEALTH_HANDLER && answer.0 == 200
                && response.status@ == "healthy"@ && final(echo).calls() == old(echo).calls(),
            Payload::Echo(response) => handler == ECHO_HANDLER && answer.0 == 200 && body is Some
                && final(echo).calls() == next_count(old(echo).calls()) && response.count
                == final(echo).calls() && response.data@ == echo_text(
                response.count,
                body->Some_0.message_view(),
            ),
            Payload::Nothing => answer.0 == 500 && handler != ROOT_HANDLER && handler
                != HEALTH_HANDLER && !(handler == ECHO_HANDLER && body is Some) && final(echo).calls() == old(echo).calls(),
        },
{
    if handler == ROOT_HANDLER {
        (200, Payload::Text(root()))
    } else if handler == HEALTH_HANDLER {
        let (status, response) = health.health_check();
        (status, Payload::Health(response))
    } else if handler == ECHO_HANDLER {
        match body {
            Some(request) => {
                let (status, response) = echo.echo(request);
                (status, Payload::Echo(response))
            },
            None => (500, Payload::Nothing),
        }
    } else {
        (500, Payload::Nothing)
    }
}

/// The routes of the application, in registration order: `GET /`,
/// `GET /health`, and `POST /echo` with the echo request as its body.
pub open spec fn application_routes() -> Seq<RouteView> {
    seq![
        RouteView {
            method: Method::Get,
            template: Seq::empty(),
            plan: Seq::empty(),
            handler: ROOT_HANDLER,
        },
        RouteView {
            method: Method::Get,
            template: seq![SegmentView::Literal("health".spec_bytes())],
            plan: Seq::empty(),
            handler: HEALTH_HANDLER,
        },
        RouteView {
            method: Method::Post,
            template: seq![SegmentView::Literal("echo".spec_bytes())],
            plan: seq![ExtractorView::Body { type_id: ECHO_REQUEST_TYPE }],
            handler: ECHO_HANDLER,
        },
    ]
}

/// The bytes of a text of ASCII characters are its characters.
pub proof fn lemma_ascii_bytes(s: &str)
    requires
        vstd::utf8::is_ascii_chars(s@),
    ensures
        s.spec_bytes().len() == s@.len(),
        forall|i: int| 0 <= i < s@.len() ==> s.spec_bytes()[i] == s@[i] as u8,
{
    vstd::utf8::is_ascii_chars_encode_utf8(s@);
}

/// A slash and a name without slash or brace make a template of one
/// literal.
pub proof fn lemma_plain_template(text: Seq<u8>, name: Seq<u8>)
    requires
        text == seq![47u8] + name,
        name.len() > 0,
        forall|k: int| 0 <= k < name.len() ==> name[k] != 47 && name[k] != 123 && name[k] != 125,
    ensures
        template_of(text) == Some(seq![SegmentView::Literal(name)]),
{
    assert(text.subrange(1, text.len() as int) =~= name);
    lemma_first_index(name, 47, name.len() as int);
    assert(pieces(name, 47) == seq![name]);
    let parts = seq![name];
    assert(path_segments(text) == Some(parts));
    assert(!is_param_text(name));
    assert(!has_brace(name));
    assert(valid_part(name));
    assert(segments_of(parts) =~= seq![SegmentView::Literal(name)]);
    assert(names_distinct(segments_of(parts)));
}

/// The lone slash is the template without segments.
pub proof fn lemma_root_template(text: Seq<u8>)
    requires
        text == seq![47u8],
    ensures
        template_of(text) == Some(Seq::<SegmentView>::empty()),
{
    let parts = Seq::<Seq<u8>>::empty();
    assert(path_segments(text) == Some(parts));
    assert(segments_of(parts) =~= Seq::<SegmentView>::empty());
}

/// Builds the route table of the application: the welcome page, then the
/// routes of the health router, then those of the echo router.
pub fn build_router() -> (table: RouteTable)
    ensures
        table.wf(),
        table@ == application_routes(),
{
    proof {
        reveal_strlit("/");
        reveal_strlit("/health");
        reveal_strlit("health");
        reveal_strlit("/echo");
        reveal_strlit("echo");
        lemma_ascii_bytes("/");
        lemma_ascii_bytes("/health");
        lemma_ascii_bytes("health");
        lemma_ascii_bytes("/echo");
        lemma_ascii_bytes("echo");
        assert("/".spec_bytes() =~= seq![47u8]);
        assert("/health".spec_bytes() =~= seq![47u8] + "health".spec_bytes());
        assert("/echo".spec_bytes() =~= seq![47u8] + "echo".spec_bytes());
        lemma_root_template("/".spec_bytes());
        lemma_plain_template("/health".spec_bytes(), "health".spec_bytes());
        lemma_plain_template("/echo".spec_bytes(), "echo".spec_bytes());
    }
    let none: Vec<Parameter> = Vec::new();
    assert(parameter_views(none@) =~= Seq::empty());
    let mut body: Vec<Parameter> = Vec::new();
    body.push(
        Parameter {
            source: Source::Body,
            name: Vec::new(),
            declared: DeclaredType::Named(ECHO_REQUEST_TYPE),
        },
    );
    proof {
        let declared = parameter_views(body@);
        let template = seq![SegmentView::Literal("echo".spec_bytes())];
        let first = ExtractorView::Body { type_id: ECHO_REQUEST_TYPE };
        assert(declared.len() == 1);
        assert(extractor_for(template, Seq::empty(), declared[0]) == Some(first));
        assert(plan_from(template, declared, 1, Seq::empty().push(first)) == Ok::<
            Seq<ExtractorView>,
            crate::error::RegistrationError,
        >(Seq::empty().push(first)));
        assert(Seq::<ExtractorView>::empty().push(first) =~= seq![first]);
    }
    let root = RouteDescriptor::new(Method::Get, "/".as_bytes(), none.as_slice(), ROOT_HANDLER);
    let health = RouteDescriptor::new(
        Method::Get,
        "/health".as_bytes(),
        none.as_slice(),
        HEALTH_HANDLER,
    );
    let echo = RouteDescriptor::new(
        Method::Post,
        "/echo".as_bytes(),
        body.as_slice(),
        ECHO_HANDLER,
    );
    let root = root.unwrap();
    let health = health.unwrap();
    let echo = echo.unwrap();

    let mut health_router = RouteTable::new();
    let added = health_router.route(health);
    assert(added is Ok);
    let mut echo_router = RouteTable::new();
    let added = echo_router.route(echo);
    assert(added is Ok);

    let mut table = RouteTable::new();
    let added = table.route(root);
    assert(added is Ok);
    assert(conflict_free(table@ + health_router@));
    let merged = table.merge(&health_router);
    assert(conflict_free(table@ + echo_router@));
    let merged = table.merge(&echo_router);
    assert(table@ =~= application_routes());
    table
}

/// In the application, a `GET` of `/health` is dispatched to the health
/// handler and a `POST` of `/echo` to the echo handler.
pub proof fn lemma_application_dispatch()
    ensures
        select_spec(application_routes(), Method::Get, seq!["health".spec_bytes()]) == Ok::<
            int,
            DispatchError,
        >(1),
        select_spec(application_routes(), Method::Post, seq!["echo".spec_bytes()]) == Ok::<
            int,
            DispatchError,
        >(2),
        select_spec(application_routes(), Method::Get, Seq::empty()) == Ok::<int, DispatchError>(
            0,
        ),
{
    reveal_strlit("health");
    reveal_strlit("echo");
    let routes = application_routes();
    let health = seq!["health".spec_bytes()];
    let echo = seq!["echo".spec_bytes()];
    lemma_ascii_bytes("health");
    lemma_ascii_bytes("echo");
    lemma_sole_candidate_selected(routes, Method::Get, health, 1);
    lemma_sole_candidate_selected(routes, Method::Post, echo, 2);
    lemma_sole_candidate_selected(routes, Method::Get, Seq::empty(), 0);
}

} // verus!
