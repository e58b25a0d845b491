//! The dispatcher: selects the route for a method and a path, then runs the
//! route's extraction plan in declared order.
//!
//! The dispatcher decodes no body and calls no handler. The caller says
//! whether the body decodes into the type that the selected route names, and
//! receives the handler reference with its arguments and the constructions
//! to perform first. A failed dispatch leaves the container as it was.

use vstd::prelude::*;
use crate::container::{
    construction_views, resolve_in, Construction, ConstructionView, Container, ContainerView,
    InstanceRef, Progress, Scope, ServiceView,
};
use crate::error::DispatchError;
use crate::route::{
    extractor_views, method_named, ExtractorSpec, ExtractorView, Method, RouteDescriptor,
    RouteView, ScalarType,
};
use crate::specificity::{
    lemma_level_same_kinds, lemma_outranks_by_kinds, lemma_outranks_transitive,
};
use crate::table::RouteTable;
use crate::template::{
    lemma_param_place_from, outranks, param_place, path_segments, split_path, template_matches,
    Rank,
};
use crate::text::{
    bytes_eq, copy_range, first_index, index_of, integer_of, parse_integer, pieces, split, views,
};

verus! {

/// One argument of a handler, as extracted from the request.
#[derive(Debug, PartialEq, Eq)]
pub enum ArgValue {
    Integer(i64),
    Text(Vec<u8>),
    /// An optional query parameter that the request does not carry.
    Absent,
    /// The decoded body, which the caller holds.
    Body,
    /// An instance of a service.
    Service(InstanceRef),
}

/// The mathematical value of an [`ArgValue`].
pub enum ArgView {
    Integer(i64),
    Text(Seq<u8>),
    Absent,
    Body,
    Service(InstanceRef),
}

impl View for ArgValue {
    type V = ArgView;

    open spec fn view(&self) -> ArgView {
        match self {
            ArgValue::Integer(v) => ArgView::Integer(*v),
            ArgValue::Text(t) => ArgView::Text(t@),
            ArgValue::Absent => ArgView::Absent,
            ArgValue::Body => ArgView::Body,
            ArgValue::Service(r) => ArgView::Service(*r),
        }
    }
}

/// The values of a run of arguments.
pub open spec fn arg_views(v: Seq<ArgValue>) -> Seq<ArgView> {
    v.map_values(|a: ArgValue| a@)
}

/// What to do for a request: perform `constructions` in order, then call
/// `handler`, the handler of the route at place `route`, with `arguments`.
#[derive(Debug, PartialEq, Eq)]
pub struct Invocation {
    pub route: usize,
    pub handler: u64,
    pub arguments: Vec<ArgValue>,
    pub constructions: Vec<Construction>,
}

/// The mathematical value of an [`Invocation`].
pub struct InvocationView {
    pub route: usize,
    pub handler: u64,
    pub arguments: Seq<ArgView>,
    pub constructions: Seq<ConstructionView>,
}

impl View for Invocation {
    type V = InvocationView;

    open spec fn view(&self) -> InvocationView {
        InvocationView {
            route: self.route,
            handler: self.handler,
            arguments: arg_views(self.arguments@),
            constructions: construction_views(self.constructions@),
        }
    }
}

/// Whether a route is declared for the method and matches the path.
pub open spec fn candidate(r: RouteView, method: Method, path: Seq<Seq<u8>>) -> bool {
    r.method == method && template_matches(r.template, path)
}

/// Whether the route at `i` is preferred to the route at `j`: it outranks
/// it, or neither outranks the other and it was registered first.
pub open spec fn preferred(table: Seq<RouteView>, i: int, j: int) -> bool {
    ||| outranks(table[i].template, table[j].template)
    ||| (!outranks(table[j].template, table[i].template) && i < j)
}

/// Whether the route at `i` is the one to dispatch to: a candidate that is
/// preferred to every other candidate.
pub open spec fn wins(table: Seq<RouteView>, method: Method, path: Seq<Seq<u8>>, i: int) -> bool {
    &&& 0 <= i < table.len()
    &&& candidate(table[i], method, path)
    &&& forall|j: int|
        0 <= j < table.len() && j != i && candidate(#[trigger] table[j], method, path)
            ==> preferred(table, i, j)
}

/// Whether some route matches the path, whatever its method.
pub open spec fn path_known(table: Seq<RouteView>, path: Seq<Seq<u8>>) -> bool {
    exists|i: int| 0 <= i < table.len() && template_matches((#[trigger] table[i]).template, path)
}

/// The route for a method and the segments of a path: the winner if there is
/// one; else `MethodNotAllowed` if the path is known under another method,
/// `NotFound` if it is not.
pub open spec fn select_spec(table: Seq<RouteView>, method: Method, path: Seq<Seq<u8>>) -> Result<
    int,
    DispatchError,
> {
    if exists|i: int| wins(table, method, path, i) {
        Ok(choose|i: int| wins(table, method, path, i))
    } else if path_known(table, path) {
        Err(DispatchError::MethodNotAllowed)
    } else {
        Err(DispatchError::NotFound)
    }
}

/// The route for a method and a path. A path that does not start with `/`
/// is not found.
pub open spec fn route_for(table: Seq<RouteView>, method: Method, path: Seq<u8>) -> Result<
    int,
    DispatchError,
> {
    match path_segments(path) {
        None => Err(DispatchError::NotFound),
        Some(segments) => select_spec(table, method, segments),
    }
}

/// The route for a method, as the request names it, and a path. A name that
/// is no method of a route matches no route: the path decides between
/// `MethodNotAllowed` and `NotFound`.
pub open spec fn route_for_named(table: Seq<RouteView>, name: Seq<u8>, path: Seq<u8>) -> Result<
    int,
    DispatchError,
> {
    match method_named(name) {
        Some(method) => route_for(table, method, path),
        None => match path_segments(path) {
            None => Err(DispatchError::NotFound),
            Some(segments) => if path_known(table, segments) {
                Err(DispatchError::MethodNotAllowed)
            } else {
                Err(DispatchError::NotFound)
            },
        },
    }
}

/// At most one route wins.
pub proof fn lemma_winner_unique(
    table: Seq<RouteView>,
    method: Method,
    path: Seq<Seq<u8>>,
    i: int,
    j: int,
)
    requires
        wins(table, method, path, i),
        wins(table, method, path, j),
    ensures
        i == j,
{
    if i != j {
        assert(preferred(table, i, j));
        assert(preferred(table, j, i));
        if outranks(table[i].template, table[j].template) {
            crate::specificity::lemma_outranks_asymmetric(table[i].template, table[j].template);
        }
    }
}

/// What a request offers to the extractors.
pub struct RequestView {
    /// The segments of the path.
    pub path: Seq<Seq<u8>>,
    /// The query string, without the question mark.
    pub query: Seq<u8>,
    /// Whether the body decodes into the type the route names.
    pub body_ok: bool,
}

/// The value of a piece of text read as a scalar type.
pub open spec fn scalar_value(target: ScalarType, raw: Seq<u8>) -> Option<ArgView> {
    match target {
        ScalarType::Integer => match integer_of(raw) {
            Some(v) => Some(ArgView::Integer(v)),
            None => None,
        },
        ScalarType::Text => Some(ArgView::Text(raw)),
    }
}

/// The key of one `key=value` pair of a query string.
pub open spec fn pair_key(pair: Seq<u8>) -> Seq<u8> {
    pair.subrange(0, first_index(pair, 61))
}

/// The value of one `key=value` pair of a query string; empty if the pair
/// holds no `=`.
pub open spec fn pair_value(pair: Seq<u8>) -> Seq<u8> {
    let at = first_index(pair, 61);
    if at < pair.len() {
        pair.subrange(at + 1, pair.len() as int)
    } else {
        Seq::empty()
    }
}

/// The value of the first pair called `name`, at or after place `from`.
pub open spec fn lookup_from(pairs: Seq<Seq<u8>>, name: Seq<u8>, from: int) -> Option<Seq<u8>>
    decreases pairs.len() - from,
{
    if from < 0 || from >= pairs.len() {
        None
    } else if pair_key(pairs[from]) == name {
        Some(pair_value(pairs[from]))
    } else {
        lookup_from(pairs, name, from + 1)
    }
}

/// The value of the query parameter `name`: that of the first of the pairs,
/// separated by `&`, whose key is `name`. Keys and values are taken as they
/// stand.
pub open spec fn query_value(query: Seq<u8>, name: Seq<u8>) -> Option<Seq<u8>> {
    lookup_from(pieces(query, 38), name, 0)
}

/// What one extractor yields, continuing from `state`.
pub open spec fn extract_one(
    services: Seq<ServiceView>,
    route: RouteView,
    request: RequestView,
    state: Progress,
    extractor: ExtractorView,
) -> Result<(ArgView, Progress), DispatchError> {
    match extractor {
        ExtractorView::PathParam { name, target } => match param_place(route.template, name) {
            Some(at) => match scalar_value(target, request.path[at]) {
                Some(v) => Ok((v, state)),
                None => Err(DispatchError::InvalidPathParameter),
            },
            None => Err(DispatchError::InvalidPathParameter),
        },
        ExtractorView::QueryParam { name, target, required } => match query_value(
            request.query,
            name,
        ) {
            Some(raw) => match scalar_value(target, raw) {
                Some(v) => Ok((v, state)),
                None => Err(DispatchError::InvalidQueryParameter),
            },
            None => if required {
                Err(DispatchError::MissingQueryParameter)
            } else {
                Ok((ArgView::Absent, state))
            },
        },
        ExtractorView::Body { type_id } => if request.body_ok {
            Ok((ArgView::Body, state))
        } else {
            Err(DispatchError::InvalidBody)
        },
        ExtractorView::Injected { type_id } => match resolve_in(
            services,
            state,
            Seq::empty(),
            type_id,
        ) {
            Ok((r, after)) => Ok((ArgView::Service(r), after)),
            Err(e) => Err(DispatchError::Dependency(e)),
        },
    }
}

/// What the extractors of the plan from place `k` on yield, in order, with
/// the arguments `found` for those in front. The first failure ends the run:
/// no later extractor is looked at.
pub open spec fn extract_from(
    services: Seq<ServiceView>,
    route: RouteView,
    request: RequestView,
    k: int,
    state: Progress,
    found: Seq<ArgView>,
) -> Result<(Seq<ArgView>, Progress), DispatchError>
    decreases route.plan.len() - k,
{
    if k < 0 || k >= route.plan.len() {
        Ok((found, state))
    } else {
        match extract_one(services, route, request, state, route.plan[k]) {
            Err(e) => Err(e),
            Ok((v, after)) => extract_from(services, route, request, k + 1, after, found.push(v)),
        }
    }
}

/// Running the plan of the route at `route` on a request: the invocation,
/// and the container after. A place outside the table, or a route that does
/// not match the path, is not found.
pub open spec fn extraction(
    table: Seq<RouteView>,
    c: ContainerView,
    route: int,
    path: Seq<u8>,
    query: Seq<u8>,
    body_ok: bool,
) -> Result<(InvocationView, ContainerView), DispatchError> {
    if route < 0 || route >= table.len() {
        Err(DispatchError::NotFound)
    } else {
        match path_segments(path) {
            None => Err(DispatchError::NotFound),
            Some(segments) => if !template_matches(table[route].template, segments) {
                Err(DispatchError::NotFound)
            } else {
                match extract_from(
                    c.services,
                    table[route],
                    RequestView { path: segments, query, body_ok },
                    0,
                    c.start(),
                    Seq::empty(),
                ) {
                    Err(e) => Err(e),
                    Ok((arguments, after)) => Ok(
                        (
                            InvocationView {
                                route: route as usize,
                                handler: table[route].handler,
                                arguments,
                                constructions: after.steps,
                            },
                            c.commit(after),
                        ),
                    ),
                }
            },
        }
    }
}

/// Dispatching a request: selecting the route, then running its plan.
pub open spec fn dispatched(
    table: Seq<RouteView>,
    c: ContainerView,
    method: Method,
    path: Seq<u8>,
    query: Seq<u8>,
    body_ok: bool,
) -> Result<(InvocationView, ContainerView), DispatchError> {
    match route_for(table, method, path) {
        Err(e) => Err(e),
        Ok(route) => extraction(table, c, route, path, query, body_ok),
    }
}

/// Selects the route for a method and the segments of a path.
fn select_in(table: &RouteTable, method: Method, path: &Vec<Vec<u8>>) -> (r: Result<
    usize,
    DispatchError,
>)
    ensures
        match select_spec(table@, method, views(path@)) {
            Ok(i) => r == Ok::<usize, DispatchError>(i as usize) && wins(
                table@,
                method,
                views(path@),
                i,
            ),
            Err(e) => r == Err::<usize, DispatchError>(e),
        },
        r is Ok ==> wins(table@, method, views(path@), r->Ok_0 as int),
{
    let ghost t = table@;
    let ghost segs = views(path@);
    let mut best: Option<usize> = None;
    let mut known = false;
    let mut i: usize = 0;
    while i < table.len()
        invariant
            0 <= i <= t.len(),
            t == table@,
            segs == views(path@),
            known == exists|k: int| 0 <= k < i && template_matches((#[trigger] t[k]).template, segs),
            match best {
                Some(b) => {
                    &&& b < i
                    &&& candidate(t[b as int], method, segs)
                    &&& forall|j: int|
                        0 <= j < i && j != b && candidate(#[trigger] t[j], method, segs)
                            ==> preferred(t, b as int, j)
                },
                None => forall|j: int| 0 <= j < i ==> !candidate(#[trigger] t[j], method, segs),
            },
        decreases t.len() - i,
    {
        let route = table.get(i);
        if route.template().matches(path) {
            assert(template_matches(t[i as int].template, segs));
            known = true;
            if route.method() == method {
                match best {
                    None => {
                        best = Some(i);
                    },
                    Some(b) => {
                        let rank = route.template().rank(table.get(b).template());
                        if let Rank::Above = rank {
                            proof {
                                let mine = t[i as int].template;
                                let theirs = t[b as int].template;
                                assert forall|j: int|
                                    0 <= j < i + 1 && j != i && candidate(
                                        #[trigger] t[j],
                                        method,
                                        segs,
                                    ) implies preferred(t, i as int, j) by {
                                    if j != b {
                                        let other = t[j].template;
                                        assert(preferred(t, b as int, j));
                                        if outranks(theirs, other) {
                                            lemma_outranks_transitive(mine, theirs, other);
                                        } else {
                                            lemma_level_same_kinds(theirs, other);
                                            lemma_outranks_by_kinds(mine, theirs, other);
                                        }
                                    }
                                }
                            }
                            best = Some(i);
                        }
                    },
                }
            }
        }
        i += 1;
    }
    match best {
        Some(b) => {
            proof {
                assert(wins(t, method, segs, b as int));
                let w = choose|w: int| wins(t, method, segs, w);
                lemma_winner_unique(t, method, segs, b as int, w);
            }
            Ok(b)
        },
        None => {
            assert(forall|w: int| !wins(t, method, segs, w));
            if known {
                Err(DispatchError::MethodNotAllowed)
            } else {
                Err(DispatchError::NotFound)
            }
        },
    }
}

/// Reads a piece of text as a scalar type.
fn read_scalar(target: ScalarType, raw: &[u8]) -> (out: Option<ArgValue>)
    ensures
        match scalar_value(target, raw@) {
            Some(v) => out is Some && out->Some_0@ == v,
            None => out is None,
        },
{
    match target {
        ScalarType::Integer => match parse_integer(raw) {
            Some(v) => Some(ArgValue::Integer(v)),
            None => None,
        },
        ScalarType::Text => {
            let copy = copy_range(raw, 0, raw.len());
            assert(copy@ =~= raw@);
            Some(ArgValue::Text(copy))
        },
    }
}

/// Looks a query parameter up.
fn query_lookup(query: &[u8], name: &[u8]) -> (out: Option<Vec<u8>>)
    ensures
        match query_value(query@, name@) {
            Some(v) => out is Some && out->Some_0@ == v,
            None => out is None,
        },
{
    let pairs = split(query, 38);
    let ghost texts = views(pairs@);
    let mut k: usize = 0;
    while k < pairs.len()
        invariant
            0 <= k <= pairs.len(),
            texts == views(pairs@),
            texts == pieces(query@, 38),
            lookup_from(texts, name@, 0) == lookup_from(texts, name@, k as int),
        decreases pairs.len() - k,
    {
        let pair = pairs[k].as_slice();
        assert(pair@ == texts[k as int]);
        let at = index_of(pair, 61);
        let key = copy_range(pair, 0, at);
        if bytes_eq(key.as_slice(), name) {
            if at < pair.len() {
                return Some(copy_range(pair, at + 1, pair.len()));
            } else {
                return Some(Vec::new());
            }
        }
        k += 1;
    }
    None
}

/// Runs the plan of a route on a request, adding to the plan `scope`.
fn run_plan(
    container: &Container,
    route: &RouteDescriptor,
    path: &Vec<Vec<u8>>,
    query: &[u8],
    body_ok: bool,
    initial: Scope,
) -> (r: Result<(Vec<ArgValue>, Scope), DispatchError>)
    requires
        container.wf(),
        route.wf(),
        template_matches(route@.template, views(path@)),
        initial@.built.len() == container@.services.len(),
    ensures
        match extract_from(
            container@.services,
            route@,
            RequestView { path: views(path@), query: query@, body_ok },
            0,
            initial@,
            Seq::empty(),
        ) {
            Ok((arguments, after)) => {
                &&& r is Ok
                &&& arg_views(r->Ok_0.0@) == arguments
                &&& r->Ok_0.1@ == after
                &&& after.built.len() == container@.services.len()
            },
            Err(e) => r is Err && r->Err_0 == e,
        },
{
    let ghost services = container@.services;
    let ghost request = RequestView { path: views(path@), query: query@, body_ok };
    let ghost start = initial@;
    let plan = route.plan();
    let mut scope = initial;
    let mut arguments: Vec<ArgValue> = Vec::new();
    let mut k: usize = 0;
    assert(arg_views(arguments@) =~= Seq::empty());
    while k < plan.len()
        invariant
            0 <= k <= plan.len(),
            start == initial@,
            container.wf(),
            route.wf(),
            services == container@.services,
            request == (RequestView { path: views(path@), query: query@, body_ok }),
            extractor_views(plan@) == route@.plan,
            template_matches(route@.template, views(path@)),
            scope@.built.len() == services.len(),
            extract_from(services, route@, request, 0, start, Seq::empty()) == extract_from(
                services,
                route@,
                request,
                k as int,
                scope@,
                arg_views(arguments@),
            ),
        decreases plan.len() - k,
    {
        let ghost here = scope@;
        let ghost found = arg_views(arguments@);
        let ghost extractor = route@.plan[k as int];
        assert(extractor == plan@[k as int]@);
        let value = match &plan[k] {
            ExtractorSpec::PathParam { name, target } => {
                proof {
                    lemma_param_place_from(route@.template, name@, 0);
                }
                match route.template().param_position(name.as_slice()) {
                    Some(at) => {
                        assert(views(path@)[at as int] == path@[at as int]@);
                        match read_scalar(*target, path[at].as_slice()) {
                            Some(v) => v,
                            None => {
                                assert(extract_one(services, route@, request, here, extractor) == Err::<
                                (ArgView, Progress),
                                DispatchError,
                            >(DispatchError::InvalidPathParameter));
                            return Err(DispatchError::InvalidPathParameter);
                            },
                        }
                    },
                    None => {
                        assert(extract_one(services, route@, request, here, extractor) == Err::<
                                (ArgView, Progress),
                                DispatchError,
                            >(DispatchError::InvalidPathParameter));
                            return Err(DispatchError::InvalidPathParameter);
                    },
                }
            },
            ExtractorSpec::QueryParam { name, target, required } => {
                match query_lookup(query, name.as_slice()) {
                    Some(raw) => match read_scalar(*target, raw.as_slice()) {
                        Some(v) => v,
                        None => {
                            assert(extract_one(services, route@, request, here, extractor) == Err::<
                                (ArgView, Progress),
                                DispatchError,
                            >(DispatchError::InvalidQueryParameter));
                            return Err(DispatchError::InvalidQueryParameter);
                        },
                    },
                    None => {
                        if *required {
                            assert(extract_one(services, route@, request, here, extractor) == Err::<
                                (ArgView, Progress),
                                DispatchError,
                            >(DispatchError::MissingQueryParameter));
                            return Err(DispatchError::MissingQueryParameter);
                        }
                        ArgValue::Absent
                    },
                }
            },
            ExtractorSpec::Body { type_id } => {
                if !body_ok {
                    assert(extract_one(services, route@, request, here, extractor) == Err::<
                                (ArgView, Progress),
                                DispatchError,
                            >(DispatchError::InvalidBody));
                            return Err(DispatchError::InvalidBody);
                }
                ArgValue::Body
            },
            ExtractorSpec::Injected { type_id } => {
                match container.resolve_within(scope, *type_id) {
                    Ok((instance, next)) => {
                        scope = next;
                        ArgValue::Service(instance)
                    },
                    Err(e) => {
                        assert(extract_one(services, route@, request, here, extractor) == Err::<
                            (ArgView, Progress),
                            DispatchError,
                        >(DispatchError::Dependency(e)));
                        return Err(DispatchError::Dependency(e));
                    },
                }
            },
        };
        assert(extract_one(services, route@, request, here, extractor) == Ok::<
            (ArgView, Progress),
            DispatchError,
        >((value@, scope@)));
        arguments.push(value);
        assert(arg_views(arguments@) =~= found.push(value@));
        k += 1;
    }
    Ok((arguments, scope))
}

/// Runs the plan of the route at `route` on the segments of a path.
fn extract_in(
    table: &RouteTable,
    route: usize,
    container: &mut Container,
    path: &Vec<Vec<u8>>,
    query: &[u8],
    body_ok: bool,
) -> (r: Result<Invocation, DispatchError>)
    requires
        table.wf(),
        old(container).wf(),
        route < table@.len(),
        template_matches(table@[route as int].template, views(path@)),
    ensures
        final(container).wf(),
        match extract_from(
            old(container)@.services,
            table@[route as int],
            RequestView { path: views(path@), query: query@, body_ok },
            0,
            old(container)@.start(),
            Seq::empty(),
        ) {
            Ok((arguments, after)) => {
                &&& r is Ok
                &&& r->Ok_0@ == (InvocationView {
                    route,
                    handler: table@[route as int].handler,
                    arguments,
                    constructions: after.steps,
                })
                &&& final(container)@ == old(container)@.commit(after)
            },
            Err(e) => r is Err && r->Err_0 == e && final(container)@ == old(container)@,
        },
{
    let descriptor = table.get(route);
    let scope = container.begin();
    match run_plan(container, descriptor, path, query, body_ok, scope) {
        Err(e) => Err(e),
        Ok((arguments, scope)) => {
            let constructions = container.commit(scope);
            Ok(Invocation { route, handler: descriptor.handler(), arguments, constructions })
        },
    }
}

/// Selects the route for a method and a path.
///
/// Among the routes declared for the method that match the path, the one
/// with the most literal segments wins; among those with as many, the one
/// whose literal comes first where they differ; among those that still are
/// level, the one registered first. If no route of the method matches, the
/// result is `MethodNotAllowed` where a route of another method matches the
/// path, and `NotFound` where none does.
pub fn select(table: &RouteTable, method: Method, path: &[u8]) -> (r: Result<usize, DispatchError>)
    ensures
        match route_for(table@, method, path@) {
            Ok(i) => r == Ok::<usize, DispatchError>(i as usize) && 0 <= i < table@.len(),
            Err(e) => r == Err::<usize, DispatchError>(e),
        },
{
    match split_path(path) {
        None => Err(DispatchError::NotFound),
        Some(segments) => select_in(table, method, &segments),
    }
}

/// Whether some route matches the path, whatever its method.
fn knows(table: &RouteTable, path: &Vec<Vec<u8>>) -> (yes: bool)
    ensures
        yes == path_known(table@, views(path@)),
{
    let mut i: usize = 0;
    while i < table.len()
        invariant
            0 <= i <= table@.len(),
            forall|k: int|
                0 <= k < i ==> !template_matches((#[trigger] table@[k]).template, views(path@)),
        decreases table@.len() - i,
    {
        if table.get(i).template().matches(path) {
            return true;
        }
        i += 1;
    }
    false
}

/// Selects the route for a request whose method comes as its name, such as
/// `GET`.
pub fn select_named(table: &RouteTable, method: &[u8], path: &[u8]) -> (r: Result<
    usize,
    DispatchError,
>)
    ensures
        match route_for_named(table@, method@, path@) {
            Ok(i) => r == Ok::<usize, DispatchError>(i as usize) && 0 <= i < table@.len(),
            Err(e) => r == Err::<usize, DispatchError>(e),
        },
{
    match Method::from_name(method) {
        Some(method) => select(table, method, path),
        None => match split_path(path) {
            None => Err(DispatchError::NotFound),
            Some(segments) => if knows(table, &segments) {
                Err(DispatchError::MethodNotAllowed)
            } else {
                Err(DispatchError::NotFound)
            },
        },
    }
}

/// Runs the extraction plan of the route at `route` on a request.
///
/// The extractors run in declared order and the first failure ends the run.
/// `body_ok` says whether the body decodes into the type that the route's
/// body extractor names. On success the container takes over the plan; on
/// failure it is unchanged.
pub fn extract(
    table: &RouteTable,
    route: usize,
    container: &mut Container,
    path: &[u8],
    query: &[u8],
    body_ok: bool,
) -> (r: Result<Invocation, DispatchError>)
    requires
        table.wf(),
        old(container).wf(),
    ensures
        final(container).wf(),
        match extraction(table@, old(container)@, route as int, path@, query@, body_ok) {
            Ok((invocation, after)) => r is Ok && r->Ok_0@ == invocation && final(container)@
                == after,
            Err(e) => r is Err && r->Err_0 == e && final(container)@ == old(container)@,
        },
{
    if route >= table.len() {
        return Err(DispatchError::NotFound);
    }
    let segments = match split_path(path) {
        None => {
            return Err(DispatchError::NotFound);
        },
        Some(segments) => segments,
    };
    if !table.get(route).template().matches(&segments) {
        return Err(DispatchError::NotFound);
    }
    extract_in(table, route, container, &segments, query, body_ok)
}

/// Dispatches a request: selects the route, then runs its extraction plan.
pub fn dispatch(
    table: &RouteTable,
    container: &mut Container,
    method: Method,
    path: &[u8],
    query: &[u8],
    body_ok: bool,
) -> (r: Result<Invocation, DispatchError>)
    requires
        table.wf(),
        old(container).wf(),
    ensures
        final(container).wf(),
        match dispatched(table@, old(container)@, method, path@, query@, body_ok) {
            Ok((invocation, after)) => r is Ok && r->Ok_0@ == invocation && final(container)@
                == after,
            Err(e) => r is Err && r->Err_0 == e && final(container)@ == old(container)@,
        },
{
    let segments = match split_path(path) {
        None => {
            return Err(DispatchError::NotFound);
        },
        Some(segments) => segments,
    };
    let route = match select_in(table, method, &segments) {
        Err(e) => {
            return Err(e);
        },
        Ok(route) => route,
    };
    assert(wins(table@, method, views(segments@), route as int));
    extract_in(table, route, container, &segments, query, body_ok)
}

} // verus!
