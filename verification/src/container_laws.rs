//! What holds of every resolution: flags only rise, steps are only added, a
//! built singleton is never constructed again, and a direct cycle is reported.

use vstd::prelude::*;
use crate::container::{
    lemma_position_from, lemma_unvisited_shrinks, position, resolve_each, resolve_in, unvisited,
    ConstructionView, ContainerView, InstanceRef, Lifetime, Progress, ServiceView,
};
use crate::error::ContainerError;

verus! {

/// Whether `after` continues `before`: as many flags, none cleared, and the
/// steps of `before` still in front.
pub open spec fn continues(before: Progress, after: Progress) -> bool {
    &&& after.built.len() == before.built.len()
    &&& forall|i: int| 0 <= i < before.built.len() && before.built[i] ==> after.built[i]
    &&& before.steps.len() <= after.steps.len()
    &&& forall|j: int| 0 <= j < before.steps.len() ==> after.steps[j] == before.steps[j]
}

/// A successful resolution continues the state it started from.
pub proof fn lemma_resolve_in_continues(
    services: Seq<ServiceView>,
    state: Progress,
    pending: Seq<u64>,
    ty: u64,
)
    requires
        state.built.len() == services.len(),
    ensures
        match resolve_in(services, state, pending, ty) {
            Ok((_, after)) => continues(state, after),
            Err(_) => true,
        },
    decreases unvisited(services, pending).len(), 0nat,
{
    lemma_position_from(services, ty, 0);
    match position(services, ty) {
        None => {},
        Some(i) => {
            let service = services[i];
            if service.lifetime == Lifetime::Singleton && state.built[i] {
            } else if pending.contains(ty) {
            } else {
                lemma_unvisited_shrinks(services, pending, ty);
                lemma_resolve_each_continues(
                    services,
                    state,
                    pending.push(ty),
                    service.dependencies,
                    0,
                    Seq::empty(),
                );
            }
        },
    }
}

/// A successful run over dependencies continues the state it started from.
pub proof fn lemma_resolve_each_continues(
    services: Seq<ServiceView>,
    state: Progress,
    pending: Seq<u64>,
    deps: Seq<u64>,
    k: int,
    found: Seq<InstanceRef>,
)
    requires
        state.built.len() == services.len(),
    ensures
        match resolve_each(services, state, pending, deps, k, found) {
            Ok((_, after)) => continues(state, after),
            Err(_) => true,
        },
    decreases unvisited(services, pending).len(), deps.len() - k + 1,
{
    if 0 <= k < deps.len() {
        lemma_resolve_in_continues(services, state, pending, deps[k]);
        match resolve_in(services, state, pending, deps[k]) {
            Err(_) => {},
            Ok((r, after)) => {
                lemma_resolve_each_continues(services, after, pending, deps, k + 1, found.push(r));
            },
        }
    }
}

/// Whether no step of `after` beyond those of `before` constructs `ty`.
pub open spec fn adds_no_step_for(before: Progress, after: Progress, ty: u64) -> bool {
    forall|j: int| before.steps.len() <= j < after.steps.len() ==> after.steps[j].type_id != ty
}

/// A singleton that is built is never constructed again: no resolution, of
/// whatever type, adds a step for it.
pub proof fn lemma_built_singleton_stays(
    services: Seq<ServiceView>,
    state: Progress,
    pending: Seq<u64>,
    ty: u64,
    built: u64,
)
    requires
        state.built.len() == services.len(),
        position(services, built) is Some,
        services[position(services, built)->Some_0].lifetime == Lifetime::Singleton,
        state.built[position(services, built)->Some_0],
    ensures
        match resolve_in(services, state, pending, ty) {
            Ok((_, after)) => adds_no_step_for(state, after, built),
            Err(_) => true,
        },
    decreases unvisited(services, pending).len(), 0nat,
{
    lemma_position_from(services, ty, 0);
    lemma_position_from(services, built, 0);
    match position(services, ty) {
        None => {},
        Some(i) => {
            let service = services[i];
            if service.lifetime == Lifetime::Singleton && state.built[i] {
            } else if pending.contains(ty) {
            } else {
                lemma_unvisited_shrinks(services, pending, ty);
                lemma_built_singleton_stays_each(
                    services,
                    state,
                    pending.push(ty),
                    service.dependencies,
                    0,
                    Seq::empty(),
                    built,
                );
                lemma_resolve_each_continues(
                    services,
                    state,
                    pending.push(ty),
                    service.dependencies,
                    0,
                    Seq::empty(),
                );
            }
        },
    }
}

/// The same, of a run over dependencies.
pub proof fn lemma_built_singleton_stays_each(
    services: Seq<ServiceView>,
    state: Progress,
    pending: Seq<u64>,
    deps: Seq<u64>,
    k: int,
    found: Seq<InstanceRef>,
    built: u64,
)
    requires
        state.built.len() == services.len(),
        position(services, built) is Some,
        services[position(services, built)->Some_0].lifetime == Lifetime::Singleton,
        state.built[position(services, built)->Some_0],
    ensures
        match resolve_each(services, state, pending, deps, k, found) {
            Ok((_, after)) => adds_no_step_for(state, after, built),
            Err(_) => true,
        },
    decreases unvisited(services, pending).len(), deps.len() - k + 1,
{
    lemma_position_from(services, built, 0);
    if 0 <= k < deps.len() {
        lemma_built_singleton_stays(services, state, pending, deps[k], built);
        lemma_resolve_in_continues(services, state, pending, deps[k]);
        match resolve_in(services, state, pending, deps[k]) {
            Err(_) => {},
            Ok((r, middle)) => {
                lemma_built_singleton_stays_each(
                    services,
                    middle,
                    pending,
                    deps,
                    k + 1,
                    found.push(r),
                    built,
                );
                lemma_resolve_each_continues(services, middle, pending, deps, k + 1, found.push(r));
            },
        }
    }
}

/// Whether some step of `after` beyond those of `before` constructs `ty`.
pub open spec fn adds_step_for(before: Progress, after: Progress, ty: u64) -> bool {
    exists|j: int| before.steps.len() <= j < after.steps.len() && after.steps[j].type_id == ty
}

/// Whether at most one step of `after` beyond those of `before` constructs
/// `ty`.
pub open spec fn adds_one_step_at_most(before: Progress, after: Progress, ty: u64) -> bool {
    forall|j: int, l: int|
        before.steps.len() <= j < l < after.steps.len() ==> !(after.steps[j].type_id == ty
            && after.steps[l].type_id == ty)
}

/// A singleton that a resolution constructs is built after it.
pub proof fn lemma_constructed_singleton_is_built(
    services: Seq<ServiceView>,
    state: Progress,
    pending: Seq<u64>,
    ty: u64,
    single: u64,
)
    requires
        state.built.len() == services.len(),
        position(services, single) is Some,
        services[position(services, single)->Some_0].lifetime == Lifetime::Singleton,
    ensures
        match resolve_in(services, state, pending, ty) {
            Ok((_, after)) => adds_step_for(state, after, single) ==> after.built[position(
                services,
                single,
            )->Some_0],
            Err(_) => true,
        },
    decreases unvisited(services, pending).len(), 0nat,
{
    lemma_position_from(services, ty, 0);
    lemma_position_from(services, single, 0);
    match position(services, ty) {
        None => {},
        Some(i) => {
            let service = services[i];
            if service.lifetime == Lifetime::Singleton && state.built[i] {
            } else if pending.contains(ty) {
            } else {
                lemma_unvisited_shrinks(services, pending, ty);
                let on = pending.push(ty);
                lemma_constructed_singleton_is_built_each(
                    services,
                    state,
                    on,
                    service.dependencies,
                    0,
                    Seq::empty(),
                    single,
                );
                lemma_resolve_each_continues(
                    services,
                    state,
                    on,
                    service.dependencies,
                    0,
                    Seq::empty(),
                );
                match resolve_each(services, state, on, service.dependencies, 0, Seq::empty()) {
                    Err(_) => {},
                    Ok((_, middle)) => {
                        let after = resolve_in(services, state, pending, ty)->Ok_0.1;
                        if adds_step_for(state, after, single) {
                            let j = choose|j: int|
                                state.steps.len() <= j < after.steps.len()
                                    && after.steps[j].type_id == single;
                            if j < middle.steps.len() {
                                assert(middle.steps[j] == after.steps[j]);
                                assert(adds_step_for(state, middle, single));
                            }
                        }
                    },
                }
            }
        },
    }
}

/// The same, of a run over dependencies.
pub proof fn lemma_constructed_singleton_is_built_each(
    services: Seq<ServiceView>,
    state: Progress,
    pending: Seq<u64>,
    deps: Seq<u64>,
    k: int,
    found: Seq<InstanceRef>,
    single: u64,
)
    requires
        state.built.len() == services.len(),
        position(services, single) is Some,
        services[position(services, single)->Some_0].lifetime == Lifetime::Singleton,
    ensures
        match resolve_each(services, state, pending, deps, k, found) {
            Ok((_, after)) => adds_step_for(state, after, single) ==> after.built[position(
                services,
                single,
            )->Some_0],
            Err(_) => true,
        },
    decreases unvisited(services, pending).len(), deps.len() - k + 1,
{
    lemma_position_from(services, single, 0);
    if 0 <= k < deps.len() {
        lemma_constructed_singleton_is_built(services, state, pending, deps[k], single);
        lemma_resolve_in_continues(services, state, pending, deps[k]);
        match resolve_in(services, state, pending, deps[k]) {
            Err(_) => {},
            Ok((r, middle)) => {
                lemma_constructed_singleton_is_built_each(
                    services,
                    middle,
                    pending,
                    deps,
                    k + 1,
                    found.push(r),
                    single,
                );
                lemma_resolve_each_continues(services, middle, pending, deps, k + 1, found.push(r));
                match resolve_each(services, middle, pending, deps, k + 1, found.push(r)) {
                    Err(_) => {},
                    Ok((_, after)) => {
                        if adds_step_for(state, after, single) {
                            let j = choose|j: int|
                                state.steps.len() <= j < after.steps.len()
                                    && after.steps[j].type_id == single;
                            if j < middle.steps.len() {
                                assert(middle.steps[j] == after.steps[j]);
                                assert(adds_step_for(state, middle, single));
                            } else {
                                assert(adds_step_for(middle, after, single));
                            }
                        }
                    },
                }
            },
        }
    }
}

/// A type that is being resolved is not constructed by what it depends on:
/// a resolution that succeeds while `held` is pending adds no step for it,
/// and does not mark it built.
pub proof fn lemma_pending_not_constructed(
    services: Seq<ServiceView>,
    state: Progress,
    pending: Seq<u64>,
    ty: u64,
    held: u64,
)
    requires
        state.built.len() == services.len(),
        pending.contains(held),
        position(services, held) is Some,
        !state.built[position(services, held)->Some_0],
    ensures
        match resolve_in(services, state, pending, ty) {
            Ok((_, after)) => adds_no_step_for(state, after, held) && !after.built[position(
                services,
                held,
            )->Some_0],
            Err(_) => true,
        },
    decreases unvisited(services, pending).len(), 0nat,
{
    lemma_position_from(services, ty, 0);
    lemma_position_from(services, held, 0);
    match position(services, ty) {
        None => {},
        Some(i) => {
            let service = services[i];
            if service.lifetime == Lifetime::Singleton && state.built[i] {
            } else if pending.contains(ty) {
            } else {
                lemma_unvisited_shrinks(services, pending, ty);
                let on = pending.push(ty);
                assert(on.contains(held)) by {
                    let at = choose|at: int| 0 <= at < pending.len() && pending[at] == held;
                    assert(on[at] == held);
                }
                lemma_pending_not_constructed_each(
                    services,
                    state,
                    on,
                    service.dependencies,
                    0,
                    Seq::empty(),
                    held,
                );
                lemma_resolve_each_continues(
                    services,
                    state,
                    on,
                    service.dependencies,
                    0,
                    Seq::empty(),
                );
            }
        },
    }
}

/// The same, of a run over dependencies.
pub proof fn lemma_pending_not_constructed_each(
    services: Seq<ServiceView>,
    state: Progress,
    pending: Seq<u64>,
    deps: Seq<u64>,
    k: int,
    found: Seq<InstanceRef>,
    held: u64,
)
    requires
        state.built.len() == services.len(),
        pending.contains(held),
        position(services, held) is Some,
        !state.built[position(services, held)->Some_0],
    ensures
        match resolve_each(services, state, pending, deps, k, found) {
            Ok((_, after)) => adds_no_step_for(state, after, held) && !after.built[position(
                services,
                held,
            )->Some_0],
            Err(_) => true,
        },
    decreases unvisited(services, pending).len(), deps.len() - k + 1,
{
    lemma_position_from(services, held, 0);
    if 0 <= k < deps.len() {
        lemma_pending_not_constructed(services, state, pending, deps[k], held);
        lemma_resolve_in_continues(services, state, pending, deps[k]);
        match resolve_in(services, state, pending, deps[k]) {
            Err(_) => {},
            Ok((r, middle)) => {
                lemma_pending_not_constructed_each(
                    services,
                    middle,
                    pending,
                    deps,
                    k + 1,
                    found.push(r),
                    held,
                );
                lemma_resolve_each_continues(services, middle, pending, deps, k + 1, found.push(r));
            },
        }
    }
}

/// A singleton is constructed at most once: no resolution adds two steps
/// for it.
pub proof fn lemma_singleton_constructed_once(
    services: Seq<ServiceView>,
    state: Progress,
    pending: Seq<u64>,
    ty: u64,
    single: u64,
)
    requires
        state.built.len() == services.len(),
        position(services, single) is Some,
        services[position(services, single)->Some_0].lifetime == Lifetime::Singleton,
    ensures
        match resolve_in(services, state, pending, ty) {
            Ok((_, after)) => adds_one_step_at_most(state, after, single),
            Err(_) => true,
        },
    decreases unvisited(services, pending).len(), 0nat,
{
    lemma_position_from(services, ty, 0);
    lemma_position_from(services, single, 0);
    match position(services, ty) {
        None => {},
        Some(i) => {
            let service = services[i];
            if service.lifetime == Lifetime::Singleton && state.built[i] {
            } else if pending.contains(ty) {
            } else {
                lemma_unvisited_shrinks(services, pending, ty);
                let on = pending.push(ty);
                let deps = service.dependencies;
                lemma_resolve_each_continues(services, state, on, deps, 0, Seq::empty());
                if ty == single {
                    assert(on[on.len() - 1] == single);
                    lemma_pending_not_constructed_each(
                        services,
                        state,
                        on,
                        deps,
                        0,
                        Seq::empty(),
                        single,
                    );
                } else {
                    lemma_singleton_constructed_once_each(
                        services,
                        state,
                        on,
                        deps,
                        0,
                        Seq::empty(),
                        single,
                    );
                }
            }
        },
    }
}

/// The same, of a run over dependencies.
pub proof fn lemma_singleton_constructed_once_each(
    services: Seq<ServiceView>,
    state: Progress,
    pending: Seq<u64>,
    deps: Seq<u64>,
    k: int,
    found: Seq<InstanceRef>,
    single: u64,
)
    requires
        state.built.len() == services.len(),
        position(services, single) is Some,
        services[position(services, single)->Some_0].lifetime == Lifetime::Singleton,
    ensures
        match resolve_each(services, state, pending, deps, k, found) {
            Ok((_, after)) => adds_one_step_at_most(state, after, single),
            Err(_) => true,
        },
    decreases unvisited(services, pending).len(), deps.len() - k + 1,
{
    lemma_position_from(services, single, 0);
    if 0 <= k < deps.len() {
        lemma_singleton_constructed_once(services, state, pending, deps[k], single);
        lemma_constructed_singleton_is_built(services, state, pending, deps[k], single);
        lemma_resolve_in_continues(services, state, pending, deps[k]);
        match resolve_in(services, state, pending, deps[k]) {
            Err(_) => {},
            Ok((r, middle)) => {
                let rest = found.push(r);
                lemma_singleton_constructed_once_each(
                    services,
                    middle,
                    pending,
                    deps,
                    k + 1,
                    rest,
                    single,
                );
                lemma_resolve_each_continues(services, middle, pending, deps, k + 1, rest);
                if middle.built[position(services, single)->Some_0] {
                    lemma_built_singleton_stays_each(
                        services,
                        middle,
                        pending,
                        deps,
                        k + 1,
                        rest,
                        single,
                    );
                }
                match resolve_each(services, middle, pending, deps, k + 1, rest) {
                    Err(_) => {},
                    Ok((_, after)) => {
                        assert forall|j: int, l: int|
                            state.steps.len() <= j < l < after.steps.len() implies !(
                            after.steps[j].type_id == single && after.steps[l].type_id
                                == single) by {
                            if after.steps[j].type_id == single && after.steps[l].type_id
                                == single {
                                if j < middle.steps.len() {
                                    assert(middle.steps[j] == after.steps[j]);
                                    assert(adds_step_for(state, middle, single));
                                    if l < middle.steps.len() {
                                        assert(middle.steps[l] == after.steps[l]);
                                    }
                                }
                            }
                        }
                    },
                }
            },
        }
    }
}

/// Resolving a singleton is idempotent: it yields the shared reference, and
/// once it has succeeded, resolving it again yields the same reference, plans
/// no step and leaves the container as it is.
pub proof fn lemma_singleton_resolves_once(c: ContainerView, ty: u64)
    requires
        c.wf(),
        position(c.services, ty) is Some,
        c.services[position(c.services, ty)->Some_0].lifetime == Lifetime::Singleton,
        c.resolve(ty) is Ok,
    ensures
        c.resolve(ty)->Ok_0.0 == InstanceRef::Shared(ty),
        c.resolve(ty)->Ok_0.2.wf(),
        c.resolve(ty)->Ok_0.2.resolve(ty) == Ok::<
            (InstanceRef, Seq<ConstructionView>, ContainerView),
            ContainerError,
        >((InstanceRef::Shared(ty), Seq::empty(), c.resolve(ty)->Ok_0.2)),
{
    lemma_position_from(c.services, ty, 0);
    lemma_resolve_in_continues(c.services, c.start(), Seq::empty(), ty);
    let i = position(c.services, ty)->Some_0;
    let after = c.resolve(ty)->Ok_0.2;
    if !c.built[i] {
        lemma_resolve_each_continues(
            c.services,
            c.start(),
            Seq::<u64>::empty().push(ty),
            c.services[i].dependencies,
            0,
            Seq::empty(),
        );
    }
    assert(after.built[i]);
    assert(after.commit(after.start()) =~= after);
}

/// Resolving a transient constructs anew each time: every successful
/// resolution ends with a step for the type and refers to that step.
pub proof fn lemma_transient_resolves_fresh(c: ContainerView, ty: u64)
    requires
        c.wf(),
        position(c.services, ty) is Some,
        c.services[position(c.services, ty)->Some_0].lifetime == Lifetime::Transient,
        c.resolve(ty) is Ok,
    ensures
        c.resolve(ty)->Ok_0.1.len() > 0,
        c.resolve(ty)->Ok_0.1.last().type_id == ty,
        c.resolve(ty)->Ok_0.0 == InstanceRef::Fresh((c.resolve(ty)->Ok_0.1.len() - 1) as usize),
{
    lemma_position_from(c.services, ty, 0);
}

/// A direct cycle is reported: if `a` needs only `b` and `b` needs only `a`,
/// and neither is a singleton already built, resolving `a` fails with
/// `CircularDependency(a)`.
pub proof fn lemma_cycle_reported(c: ContainerView, a: u64, b: u64)
    requires
        c.wf(),
        position(c.services, a) is Some,
        position(c.services, b) is Some,
        c.services[position(c.services, a)->Some_0].dependencies == seq![b],
        c.services[position(c.services, b)->Some_0].dependencies == seq![a],
        !(c.services[position(c.services, a)->Some_0].lifetime == Lifetime::Singleton
            && c.built[position(c.services, a)->Some_0]),
        !(c.services[position(c.services, b)->Some_0].lifetime == Lifetime::Singleton
            && c.built[position(c.services, b)->Some_0]),
    ensures
        c.resolve(a) == Err::<(InstanceRef, Seq<ConstructionView>, ContainerView), ContainerError>(
            ContainerError::CircularDependency(a),
        ),
{
    let s = c.services;
    let start = c.start();
    let none = Seq::<u64>::empty();
    let circular = ContainerError::CircularDependency(a);
    let inner = Err::<(InstanceRef, Progress), ContainerError>(circular);
    let run = Err::<(Seq<InstanceRef>, Progress), ContainerError>(circular);
    let on_a = none.push(a);
    assert(on_a[0] == a);
    assert(on_a.contains(a));
    if a == b {
        assert(resolve_in(s, start, on_a, a) == inner);
        assert(resolve_each(s, start, on_a, seq![a], 0, Seq::empty()) == run);
    } else {
        let on_ab = on_a.push(b);
        assert(on_ab[0] == a);
        assert(on_ab.contains(a));
        assert(!on_a.contains(b));
        assert(resolve_in(s, start, on_ab, a) == inner);
        assert(resolve_each(s, start, on_ab, seq![a], 0, Seq::empty()) == run);
        assert(resolve_in(s, start, on_a, b) == inner);
        assert(resolve_each(s, start, on_a, seq![b], 0, Seq::empty()) == run);
    }
    assert(resolve_in(s, start, none, a) == inner);
}

} // verus!
