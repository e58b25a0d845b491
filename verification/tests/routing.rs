use rusty_resty::error::RegistrationError;
use rusty_resty::route::{
    DeclaredType, ExtractorSpec, Method, Parameter, RouteDescriptor, ScalarType, Source,
};
use rusty_resty::table::RouteTable;
use rusty_resty::template::{split_path, PathTemplate, Rank, Segment};

fn literal(text: &str) -> Segment {
    Segment::Literal(text.as_bytes().to_vec())
}

fn param(name: &str) -> Segment {
    Segment::Param(name.as_bytes().to_vec())
}

fn segments(template: &PathTemplate) -> Vec<&Segment> {
    (0..template.len()).map(|i| template.segment(i)).collect()
}

fn template(text: &str) -> PathTemplate {
    PathTemplate::parse(text.as_bytes()).unwrap()
}

fn declared(source: Source, name: &str, declared: DeclaredType) -> Parameter {
    Parameter { source, name: name.as_bytes().to_vec(), declared }
}

fn plain(method: Method, text: &str, handler: u64) -> RouteDescriptor {
    RouteDescriptor::new(method, text.as_bytes(), &[], handler).unwrap()
}

fn paths(path: &str) -> Vec<Vec<u8>> {
    split_path(path.as_bytes()).unwrap()
}

#[test]
fn split_path_yields_the_segments() {
    assert_eq!(split_path(b"/"), Some(vec![]));
    assert_eq!(split_path(b"/users"), Some(vec![b"users".to_vec()]));
    assert_eq!(split_path(b"/users/42"), Some(vec![b"users".to_vec(), b"42".to_vec()]));
    assert_eq!(split_path(b"/users/"), Some(vec![b"users".to_vec(), vec![]]));
    assert_eq!(split_path(b"//"), Some(vec![vec![], vec![]]));
    assert_eq!(split_path(b""), None);
    assert_eq!(split_path(b"users"), None);
}

#[test]
fn template_parses_literals_and_parameters() {
    let t = template("/users/{id}");
    assert_eq!(segments(&t), vec![&literal("users"), &param("id")]);
    let t = template("/{a}/x/{b}");
    assert_eq!(segments(&t), vec![&param("a"), &literal("x"), &param("b")]);
    assert_eq!(template("/").len(), 0);
    assert_eq!(segments(&template("/health")), vec![&literal("health")]);
}

#[test]
fn template_with_repeated_parameter_is_invalid() {
    assert_eq!(
        PathTemplate::parse(b"/users/{id}/posts/{id}"),
        Err(RegistrationError::InvalidPathTemplate)
    );
    assert!(PathTemplate::parse(b"/users/{id}/posts/{post}").is_ok());
    assert!(PathTemplate::parse(b"/users/id/posts/id").is_ok());
    assert!(PathTemplate::parse(b"/id/{id}").is_ok());
}

#[test]
fn malformed_template_is_invalid() {
    let bad: [&[u8]; 12] = [
        b"", b"users", b"/users/", b"//", b"/a//b", b"/{}", b"/{", b"/}", b"/a{b", b"/{a}{b}",
        b"/{a{b}}", b"users/{id}",
    ];
    for text in bad {
        assert_eq!(PathTemplate::parse(text), Err(RegistrationError::InvalidPathTemplate));
    }
}

#[test]
fn template_matches_segment_by_segment() {
    let t = template("/users/{id}");
    assert!(t.matches(&paths("/users/42")));
    assert!(t.matches(&paths("/users/active")));
    assert!(!t.matches(&paths("/users")));
    assert!(!t.matches(&paths("/users/42/posts")));
    assert!(!t.matches(&paths("/posts/42")));
    assert!(!t.matches(&paths("/users/")));
    assert!(template("/").matches(&paths("/")));
    assert!(!template("/").matches(&paths("/x")));
}

#[test]
fn templates_of_one_shape_are_equivalent() {
    assert!(template("/users/{id}").equivalent_to(&template("/users/{name}")));
    assert!(template("/a/b").equivalent_to(&template("/a/b")));
    assert!(!template("/users/{id}").equivalent_to(&template("/users/active")));
    assert!(!template("/users").equivalent_to(&template("/posts")));
    assert!(!template("/users/{id}").equivalent_to(&template("/users/{id}/x")));
    assert!(template("/").equivalent_to(&template("/")));
}

#[test]
fn rank_counts_literals_first() {
    assert_eq!(template("/users/active").rank(&template("/users/{id}")), Rank::Above);
    assert_eq!(template("/users/{id}").rank(&template("/users/active")), Rank::Below);
    assert_eq!(template("/{x}/b/c").rank(&template("/a/{y}/{z}")), Rank::Above);
    assert_eq!(template("/a/{y}/{z}").rank(&template("/{x}/b/c")), Rank::Below);
    assert_eq!(template("/users/active").literals(), 2);
    assert_eq!(template("/users/{id}").literals(), 1);
    assert_eq!(template("/").literals(), 0);
}

#[test]
fn rank_prefers_the_earlier_literal_among_as_many() {
    assert_eq!(template("/a/{x}").rank(&template("/{y}/b")), Rank::Above);
    assert_eq!(template("/{y}/b").rank(&template("/a/{x}")), Rank::Below);
    assert_eq!(template("/a/{x}").rank(&template("/b/{y}")), Rank::Level);
    assert_eq!(template("/{x}").rank(&template("/{y}")), Rank::Level);
    assert_eq!(template("/a/{x}/c/{y}").rank(&template("/a/{x}/{z}/d")), Rank::Above);
}

#[test]
fn param_position_finds_the_parameter() {
    let t = template("/users/{id}/posts/{post}");
    assert_eq!(t.param_position(b"id"), Some(1));
    assert_eq!(t.param_position(b"post"), Some(3));
    assert_eq!(t.param_position(b"users"), None);
    assert_eq!(t.param_position(b"missing"), None);
}

#[test]
fn with_prefix_puts_literals_in_front() {
    let t = template("/echo").with_prefix(&vec![b"api".to_vec(), b"v1".to_vec()]);
    assert_eq!(segments(&t), vec![&literal("api"), &literal("v1"), &literal("echo")]);
    let t = template("/users/{id}").with_prefix(&vec![]);
    assert_eq!(segments(&t), vec![&literal("users"), &param("id")]);
}

#[test]
fn descriptor_maps_each_parameter_to_one_extractor() {
    let params = [
        declared(Source::Path, "id", DeclaredType::Integer),
        declared(Source::Query, "page", DeclaredType::Integer),
        declared(Source::OptionalQuery, "sort", DeclaredType::Text),
        declared(Source::Body, "", DeclaredType::Named(7)),
        declared(Source::Service, "", DeclaredType::Named(9)),
    ];
    let d = RouteDescriptor::new(Method::Put, b"/users/{id}", &params, 5).unwrap();
    assert_eq!(d.method(), Method::Put);
    assert_eq!(d.handler(), 5);
    assert_eq!(d.template(), &template("/users/{id}"));
    assert_eq!(d.body_type(), Some(7));
    assert_eq!(
        d.plan(),
        &vec![
            ExtractorSpec::PathParam { name: b"id".to_vec(), target: ScalarType::Integer },
            ExtractorSpec::QueryParam {
                name: b"page".to_vec(),
                target: ScalarType::Integer,
                required: true
            },
            ExtractorSpec::QueryParam {
                name: b"sort".to_vec(),
                target: ScalarType::Text,
                required: false
            },
            ExtractorSpec::Body { type_id: 7 },
            ExtractorSpec::Injected { type_id: 9 },
        ]
    );
}

#[test]
fn descriptor_without_parameters_has_an_empty_plan() {
    let d = plain(Method::Get, "/health", 1);
    assert!(d.plan().is_empty());
    assert_eq!(d.body_type(), None);
}

#[test]
fn descriptor_with_bad_template_is_invalid() {
    let params = [declared(Source::Path, "id", DeclaredType::Integer)];
    assert_eq!(
        RouteDescriptor::new(Method::Get, b"/users/{id}/{id}", &params, 1),
        Err(RegistrationError::InvalidPathTemplate)
    );
    assert_eq!(
        RouteDescriptor::new(Method::Get, b"users", &[], 1),
        Err(RegistrationError::InvalidPathTemplate)
    );
}

#[test]
fn unsupported_parameters_are_reported_with_their_place() {
    let cases: Vec<(Vec<Parameter>, usize)> = vec![
        (vec![declared(Source::Path, "name", DeclaredType::Text)], 0),
        (vec![declared(Source::Path, "id", DeclaredType::Named(3))], 0),
        (
            vec![
                declared(Source::Path, "id", DeclaredType::Integer),
                declared(Source::Query, "q", DeclaredType::Named(3)),
            ],
            1,
        ),
        (vec![declared(Source::OptionalQuery, "q", DeclaredType::Named(3))], 0),
        (vec![declared(Source::Body, "", DeclaredType::Integer)], 0),
        (vec![declared(Source::Body, "", DeclaredType::Text)], 0),
        (vec![declared(Source::Service, "", DeclaredType::Text)], 0),
        (
            vec![
                declared(Source::Body, "", DeclaredType::Named(1)),
                declared(Source::Service, "", DeclaredType::Named(2)),
                declared(Source::Body, "", DeclaredType::Named(1)),
            ],
            2,
        ),
    ];
    for (params, place) in cases {
        assert_eq!(
            RouteDescriptor::new(Method::Post, b"/users/{id}", &params, 1),
            Err(RegistrationError::UnsupportedExtractor(place))
        );
    }
}

#[test]
fn route_appends_in_registration_order() {
    let mut table = RouteTable::new();
    assert_eq!(table.len(), 0);
    table.route(plain(Method::Get, "/health", 1)).unwrap();
    table.route(plain(Method::Post, "/echo", 2)).unwrap();
    assert_eq!(table.len(), 2);
    assert_eq!(table.get(0).handler(), 1);
    assert_eq!(table.get(1).handler(), 2);
}

#[test]
fn same_method_and_shape_is_a_route_conflict() {
    let mut table = RouteTable::new();
    table.route(plain(Method::Get, "/users/{id}", 1)).unwrap();
    assert_eq!(
        table.route(plain(Method::Get, "/users/{name}", 2)),
        Err(RegistrationError::RouteConflict)
    );
    assert_eq!(
        table.route(plain(Method::Get, "/users/{id}", 3)),
        Err(RegistrationError::RouteConflict)
    );
    assert_eq!(table.len(), 1);
    assert_eq!(table.get(0).handler(), 1);
}

#[test]
fn different_method_or_shape_is_no_conflict() {
    let mut table = RouteTable::new();
    table.route(plain(Method::Get, "/users/{id}", 1)).unwrap();
    assert_eq!(table.route(plain(Method::Post, "/users/{id}", 2)), Ok(()));
    assert_eq!(table.route(plain(Method::Delete, "/users/{id}", 3)), Ok(()));
    assert_eq!(table.route(plain(Method::Get, "/users/active", 4)), Ok(()));
    assert_eq!(table.route(plain(Method::Get, "/users", 5)), Ok(()));
    assert_eq!(table.route(plain(Method::Get, "/posts/{id}", 6)), Ok(()));
    assert_eq!(table.len(), 6);
}

#[test]
fn merge_takes_in_the_other_table() {
    let mut left = RouteTable::new();
    left.route(plain(Method::Get, "/", 0)).unwrap();
    let mut right = RouteTable::new();
    right.route(plain(Method::Get, "/health", 1)).unwrap();
    right.route(plain(Method::Post, "/echo", 2)).unwrap();
    assert_eq!(left.merge(&right), Ok(()));
    assert_eq!(left.len(), 3);
    assert_eq!(left.get(1), right.get(0));
    assert_eq!(left.get(2), right.get(1));
    assert_eq!(right.len(), 2);
}

#[test]
fn merge_with_a_conflict_changes_nothing() {
    let mut left = RouteTable::new();
    left.route(plain(Method::Get, "/a", 0)).unwrap();
    left.route(plain(Method::Get, "/users/{id}", 1)).unwrap();
    let mut right = RouteTable::new();
    right.route(plain(Method::Get, "/b", 2)).unwrap();
    right.route(plain(Method::Get, "/users/{user}", 3)).unwrap();
    assert_eq!(left.merge(&right), Err(RegistrationError::RouteConflict));
    assert_eq!(left.len(), 2);
    assert_eq!(right.len(), 2);
}

#[test]
fn nest_prefixes_every_route() {
    let mut inner = RouteTable::new();
    inner.route(plain(Method::Get, "/echo", 1)).unwrap();
    inner.route(plain(Method::Get, "/users/{id}", 2)).unwrap();
    inner.route(plain(Method::Get, "/", 3)).unwrap();
    let mut outer = RouteTable::new();
    assert_eq!(outer.nest(b"/api", &inner), Ok(()));
    assert_eq!(outer.len(), 3);
    assert_eq!(outer.get(0).template(), &template("/api/echo"));
    assert_eq!(outer.get(1).template(), &template("/api/users/{id}"));
    assert_eq!(outer.get(2).template(), &template("/api"));
    assert_eq!(outer.get(1).handler(), 2);
    assert_eq!(inner.len(), 3);
    assert_eq!(inner.get(0).template(), &template("/echo"));
}

#[test]
fn nest_under_several_segments_and_under_none() {
    let mut inner = RouteTable::new();
    inner.route(plain(Method::Get, "/echo", 1)).unwrap();
    let mut outer = RouteTable::new();
    outer.nest(b"/api/v1", &inner).unwrap();
    outer.nest(b"/", &inner).unwrap();
    assert_eq!(outer.get(0).template(), &template("/api/v1/echo"));
    assert_eq!(outer.get(1).template(), &template("/echo"));
}

#[test]
fn nest_detects_conflicts_after_prefixing() {
    let mut inner = RouteTable::new();
    inner.route(plain(Method::Get, "/echo", 1)).unwrap();
    let mut outer = RouteTable::new();
    outer.route(plain(Method::Get, "/api/echo", 0)).unwrap();
    assert_eq!(outer.nest(b"/api", &inner), Err(RegistrationError::RouteConflict));
    assert_eq!(outer.len(), 1);
    assert_eq!(outer.nest(b"/v2", &inner), Ok(()));
    assert_eq!(outer.nest(b"/v2", &inner), Err(RegistrationError::RouteConflict));
    assert_eq!(outer.len(), 2);
}

#[test]
fn nest_keeps_path_parameters_bound() {
    let params = [declared(Source::Path, "id", DeclaredType::Integer)];
    let mut inner = RouteTable::new();
    inner.route(RouteDescriptor::new(Method::Get, b"/users/{id}", &params, 1).unwrap()).unwrap();
    let mut outer = RouteTable::new();
    outer.nest(b"/api", &inner).unwrap();
    assert_eq!(outer.get(0).template().param_position(b"id"), Some(2));
    assert_eq!(outer.get(0).plan(), inner.get(0).plan());
}

#[test]
fn nest_with_a_bad_prefix_is_invalid() {
    let mut inner = RouteTable::new();
    inner.route(plain(Method::Get, "/echo", 1)).unwrap();
    let mut outer = RouteTable::new();
    let bad: [&[u8]; 5] = [b"api", b"/{version}", b"/api/", b"", b"/api/{v}/x"];
    for prefix in bad {
        assert_eq!(outer.nest(prefix, &inner), Err(RegistrationError::InvalidPathTemplate));
    }
    assert_eq!(outer.len(), 0);
}
