//! What holds of every selection and extraction: a sole match is selected, a
//! route without parameters is preferred, extraction ends at its first
//! failure, and a nested route is reached under its prefix.

use vstd::prelude::*;
use crate::container::{Progress, ServiceView};
use crate::dispatch::{
    candidate, extract_from, extract_one, lemma_winner_unique, path_known, preferred,
    select_spec, wins, ArgView, RequestView,
};
use crate::error::DispatchError;
use crate::route::{Method, RouteView};
use crate::table::{conflict_free, conflicts, nested_routes};
use crate::template::{
    equivalent, leads, literal_count, literals_of, outranks, prefixed, same_kinds,
    template_matches, SegmentView,
};

verus! {

/// What wins is what is selected.
pub proof fn lemma_winner_selected(
    table: Seq<RouteView>,
    method: Method,
    path: Seq<Seq<u8>>,
    i: int,
)
    requires
        wins(table, method, path, i),
    ensures
        select_spec(table, method, path) == Ok::<int, DispatchError>(i),
{
    let w = choose|w: int| wins(table, method, path, w);
    lemma_winner_unique(table, method, path, i, w);
}

/// If exactly one route is declared for the method and matches the path,
/// that route is selected.
pub proof fn lemma_sole_candidate_selected(
    table: Seq<RouteView>,
    method: Method,
    path: Seq<Seq<u8>>,
    i: int,
)
    requires
        0 <= i < table.len(),
        candidate(table[i], method, path),
        forall|j: int| 0 <= j < table.len() && j != i ==> !candidate(table[j], method, path),
    ensures
        select_spec(table, method, path) == Ok::<int, DispatchError>(i),
{
    lemma_winner_selected(table, method, path, i);
}

/// A template has at most as many literals as segments, and as many only if
/// every segment is a literal.
pub proof fn lemma_literal_count_bound(t: Seq<SegmentView>)
    ensures
        literal_count(t) <= t.len(),
        literal_count(t) == t.len() <==> forall|k: int|
            0 <= k < t.len() ==> (#[trigger] t[k]).is_literal(),
    decreases t.len(),
{
    if t.len() > 0 {
        let init = t.drop_last();
        lemma_literal_count_bound(init);
        if literal_count(t) == t.len() {
            assert forall|k: int| 0 <= k < t.len() implies (#[trigger] t[k]).is_literal() by {
                if k < init.len() {
                    assert(init[k].is_literal());
                }
            }
        }
        if forall|k: int| 0 <= k < t.len() ==> (#[trigger] t[k]).is_literal() {
            assert forall|k: int| 0 <= k < init.len() implies (#[trigger] init[k]).is_literal() by {
                assert(t[k].is_literal());
            }
            assert(t[t.len() - 1].is_literal());
        }
    }
}

/// In a table without conflicts, a matching route whose template holds no
/// parameter is selected, whatever else matches: the literal wins over the
/// parameter.
pub proof fn lemma_literal_route_selected(
    table: Seq<RouteView>,
    method: Method,
    path: Seq<Seq<u8>>,
    i: int,
)
    requires
        conflict_free(table),
        0 <= i < table.len(),
        candidate(table[i], method, path),
        forall|k: int| 0 <= k < table[i].template.len() ==> table[i].template[k].is_literal(),
    ensures
        select_spec(table, method, path) == Ok::<int, DispatchError>(i),
{
    let mine = table[i].template;
    lemma_literal_count_bound(mine);
    assert forall|j: int|
        0 <= j < table.len() && j != i && candidate(#[trigger] table[j], method, path) implies preferred(
        table,
        i,
        j,
    ) by {
        let theirs = table[j].template;
        lemma_literal_count_bound(theirs);
        if literal_count(theirs) == theirs.len() {
            assert forall|k: int| 0 <= k < mine.len() implies (#[trigger] mine[k]).same_shape(
                theirs[k],
            ) by {
                assert(mine[k].is_literal());
                assert(theirs[k].is_literal());
                assert(mine[k].accepts(path[k]));
                assert(theirs[k].accepts(path[k]));
            }
            assert forall|k: int| 0 <= k < theirs.len() implies (#[trigger] theirs[k]).same_shape(
                mine[k],
            ) by {
                assert(mine[k].same_shape(theirs[k]));
            }
            assert(equivalent(mine, theirs));
            assert(equivalent(theirs, mine));
            if i < j {
                assert(conflicts(table[i], table[j]));
            } else {
                assert(conflicts(table[j], table[i]));
            }
        }
    }
    lemma_winner_selected(table, method, path, i);
}

/// In a table without conflicts no two candidates are level, so the order of
/// registration never decides between them.
pub proof fn lemma_candidates_never_level(
    table: Seq<RouteView>,
    method: Method,
    path: Seq<Seq<u8>>,
    i: int,
    j: int,
)
    requires
        conflict_free(table),
        0 <= i < j < table.len(),
        candidate(table[i], method, path),
        candidate(table[j], method, path),
    ensures
        outranks(table[i].template, table[j].template) || outranks(
            table[j].template,
            table[i].template,
        ),
{
    let a = table[i].template;
    let b = table[j].template;
    if !outranks(a, b) && !outranks(b, a) {
        crate::specificity::lemma_level_same_kinds(a, b);
        assert forall|k: int| 0 <= k < a.len() implies (#[trigger] a[k]).same_shape(b[k]) by {
            assert(a[k].is_literal() == b[k].is_literal());
            assert(a[k].accepts(path[k]));
            assert(b[k].accepts(path[k]));
        }
        assert(conflicts(table[i], table[j]));
    }
}

/// The route with only the first `k` extractors of its plan.
pub open spec fn truncated(route: RouteView, k: int) -> RouteView {
    RouteView {
        method: route.method,
        template: route.template,
        plan: route.plan.subrange(0, k),
        handler: route.handler,
    }
}

/// Running the first `k` extractors, then the rest, is running the plan.
pub proof fn lemma_extract_in_two(
    services: Seq<ServiceView>,
    route: RouteView,
    request: RequestView,
    k: int,
    j: int,
    state: Progress,
    found: Seq<ArgView>,
)
    requires
        0 <= j <= k <= route.plan.len(),
    ensures
        match extract_from(services, truncated(route, k), request, j, state, found) {
            Ok((args, after)) => extract_from(services, route, request, j, state, found)
                == extract_from(services, route, request, k, after, args),
            Err(e) => extract_from(services, route, request, j, state, found) == Err::<
                (Seq<ArgView>, Progress),
                DispatchError,
            >(e),
        },
    decreases k - j,
{
    let short = truncated(route, k);
    if j < k {
        assert(short.plan[j] == route.plan[j]);
        assert(extract_one(services, short, request, state, short.plan[j]) == extract_one(
            services,
            route,
            request,
            state,
            route.plan[j],
        ));
        match extract_one(services, route, request, state, route.plan[j]) {
            Err(_) => {},
            Ok((v, after)) => {
                lemma_extract_in_two(services, route, request, k, j + 1, after, found.push(v));
            },
        }
    }
}

/// Extraction ends at its first failure: if the extractors before place `k`
/// succeed and the one at `k` fails, the extraction fails with that error,
/// whatever the plan holds after `k`.
pub proof fn lemma_first_failure_ends_extraction(
    services: Seq<ServiceView>,
    route: RouteView,
    request: RequestView,
    k: int,
    state: Progress,
    e: DispatchError,
)
    requires
        0 <= k < route.plan.len(),
        extract_from(services, truncated(route, k), request, 0, state, Seq::empty()) is Ok,
        extract_one(
            services,
            route,
            request,
            extract_from(services, truncated(route, k), request, 0, state, Seq::empty())->Ok_0.1,
            route.plan[k],
        ) == Err::<(ArgView, Progress), DispatchError>(e),
    ensures
        extract_from(services, route, request, 0, state, Seq::empty()) == Err::<
            (Seq<ArgView>, Progress),
            DispatchError,
        >(e),
{
    lemma_extract_in_two(services, route, request, k, 0, state, Seq::empty());
}

/// A template under a prefix matches a path under the same prefix exactly
/// when the template matches the path.
pub proof fn lemma_matches_prefixed(
    prefix: Seq<Seq<u8>>,
    t: Seq<SegmentView>,
    rest: Seq<Seq<u8>>,
)
    ensures
        template_matches(prefixed(prefix, t), prefix + rest) == template_matches(t, rest),
{
    let pt = prefixed(prefix, t);
    let path = prefix + rest;
    let n = prefix.len() as int;
    assert(pt.len() == n + t.len());
    if template_matches(pt, path) {
        assert forall|i: int| 0 <= i < t.len() implies (#[trigger] t[i]).accepts(rest[i]) by {
            assert(pt[n + i] == t[i]);
            assert(path[n + i] == rest[i]);
            assert(pt[n + i].accepts(path[n + i]));
        }
    }
    if template_matches(t, rest) {
        assert forall|i: int| 0 <= i < pt.len() implies (#[trigger] pt[i]).accepts(path[i]) by {
            if i < n {
                assert(pt[i] == literals_of(prefix)[i]);
                assert(path[i] == prefix[i]);
            } else {
                assert(pt[i] == t[i - n]);
                assert(path[i] == rest[i - n]);
                assert(t[i - n].accepts(rest[i - n]));
            }
        }
    }
}

/// A prefix adds one literal for each of its segments.
pub proof fn lemma_literal_count_prefixed(prefix: Seq<Seq<u8>>, t: Seq<SegmentView>)
    ensures
        literal_count(prefixed(prefix, t)) == prefix.len() + literal_count(t),
    decreases t.len(),
{
    let pt = prefixed(prefix, t);
    if t.len() == 0 {
        assert(pt =~= literals_of(prefix));
        lemma_literal_count_bound(pt);
    } else {
        assert(pt.drop_last() =~= prefixed(prefix, t.drop_last()));
        assert(pt.last() == t.last());
        lemma_literal_count_prefixed(prefix, t.drop_last());
    }
}

/// Two templates under one prefix stand in the specificity order as they do
/// without it.
pub proof fn lemma_outranks_prefixed(
    prefix: Seq<Seq<u8>>,
    a: Seq<SegmentView>,
    b: Seq<SegmentView>,
)
    ensures
        outranks(prefixed(prefix, a), prefixed(prefix, b)) == outranks(a, b),
{
    let pa = prefixed(prefix, a);
    let pb = prefixed(prefix, b);
    let n = prefix.len() as int;
    lemma_literal_count_prefixed(prefix, a);
    lemma_literal_count_prefixed(prefix, b);
    assert(pa.len() == n + a.len());
    assert(pb.len() == n + b.len());
    if leads(a, b) {
        let i = choose|i: int|
            0 <= i < a.len() && i < b.len() && (#[trigger] a[i]).is_literal() && !b[i].is_literal()
                && same_kinds(a, b, i);
        assert(pa[n + i] == a[i]);
        assert(pb[n + i] == b[i]);
        assert forall|j: int| 0 <= j < n + i implies (#[trigger] pa[j]).is_literal()
            == pb[j].is_literal() by {
            if j < n {
                assert(pa[j] == literals_of(prefix)[j]);
                assert(pb[j] == literals_of(prefix)[j]);
            } else {
                assert(pa[j] == a[j - n]);
                assert(pb[j] == b[j - n]);
                assert(a[j - n].is_literal() == b[j - n].is_literal());
            }
        }
        assert(pa[n + i].is_literal() && !pb[n + i].is_literal() && same_kinds(pa, pb, n + i));
    }
    if leads(pa, pb) {
        let i = choose|i: int|
            0 <= i < pa.len() && i < pb.len() && (#[trigger] pa[i]).is_literal()
                && !pb[i].is_literal() && same_kinds(pa, pb, i);
        if i < n {
            assert(pb[i] == literals_of(prefix)[i]);
        } else {
            assert(pa[i] == a[i - n]);
            assert(pb[i] == b[i - n]);
            assert forall|j: int| 0 <= j < i - n implies (#[trigger] a[j]).is_literal()
                == b[j].is_literal() by {
                assert(pa[n + j] == a[j]);
                assert(pb[n + j] == b[j]);
                assert(pa[n + j].is_literal() == pb[n + j].is_literal());
            }
            assert(a[i - n].is_literal() && !b[i - n].is_literal() && same_kinds(a, b, i - n));
        }
    }
}

/// A nested route is reached under its prefix: if a table selects a route
/// for a path, then a table that has taken it in under a prefix selects the
/// copy of that route for the path under the prefix, provided none of its
/// own routes matches that path.
pub proof fn lemma_nested_route_selected(
    base: Seq<RouteView>,
    other: Seq<RouteView>,
    prefix: Seq<Seq<u8>>,
    method: Method,
    rest: Seq<Seq<u8>>,
    i: int,
)
    requires
        select_spec(other, method, rest) == Ok::<int, DispatchError>(i),
        !path_known(base, prefix + rest),
    ensures
        select_spec(base + nested_routes(other, prefix), method, prefix + rest) == Ok::<
            int,
            DispatchError,
        >(base.len() + i),
        (base + nested_routes(other, prefix))[base.len() + i] == other[i].nested(prefix),
{
    let whole = base + nested_routes(other, prefix);
    let path = prefix + rest;
    let n = base.len() as int;
    assert(wins(other, method, rest, i));
    assert(whole[n + i] == other[i].nested(prefix));
    lemma_matches_prefixed(prefix, other[i].template, rest);
    assert forall|j: int|
        0 <= j < whole.len() && j != n + i && candidate(#[trigger] whole[j], method, path) implies preferred(
        whole,
        n + i,
        j,
    ) by {
        if j < n {
            assert(whole[j] == base[j]);
            assert(template_matches(base[j].template, path));
        } else {
            assert(whole[j] == other[j - n].nested(prefix));
            lemma_matches_prefixed(prefix, other[j - n].template, rest);
            assert(candidate(other[j - n], method, rest));
            assert(preferred(other, i, j - n));
            lemma_outranks_prefixed(prefix, other[i].template, other[j - n].template);
            lemma_outranks_prefixed(prefix, other[j - n].template, other[i].template);
        }
    }
    lemma_winner_selected(whole, method, path, n + i);
}

} // verus!
