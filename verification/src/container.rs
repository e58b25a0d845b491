//! The dependency container: a registry of service descriptors, keyed by type
//! identity, that plans the construction of a service and of what it depends
//! on.
//!
//! The container holds no instances and calls no factory. Resolving a type
//! yields the constructions to perform, in order, and a reference to the
//! resulting instance; the caller runs each construction with the factory it
//! names. A singleton appears in such a plan at most once over the life of
//! the container, and is referred to by its type identity ever after.

use vstd::prelude::*;
use crate::error::ContainerError;

verus! {

/// How long an instance of a service lives.
#[derive(Clone, Copy, Debug, PartialEq, Eq)]
pub enum Lifetime {
    /// Constructed once, then shared.
    Singleton,
    /// Constructed anew for every resolution.
    Transient,
}

/// A reference to an instance, as a construction plan names it.
#[derive(Clone, Copy, Debug, PartialEq, Eq)]
pub enum InstanceRef {
    /// The one instance of the singleton with this type identity.
    Shared(u64),
    /// The instance that the step at this place of the plan constructs.
    Fresh(usize),
}

/// A factory: the caller's function with this id, which takes instances of
/// the listed type identities, in this order, and returns a new instance.
#[derive(Debug, PartialEq, Eq)]
pub struct Factory {
    pub id: u64,
    pub dependencies: Vec<u64>,
}

/// What the container knows of one registered service.
#[derive(Debug, PartialEq, Eq)]
pub struct ServiceDescriptor {
    pub type_id: u64,
    pub lifetime: Lifetime,
    pub factory: Factory,
}

/// The mathematical value of a [`ServiceDescriptor`].
pub struct ServiceView {
    pub type_id: u64,
    pub lifetime: Lifetime,
    pub factory: u64,
    pub dependencies: Seq<u64>,
}

impl View for ServiceDescriptor {
    type V = ServiceView;

    open spec fn view(&self) -> ServiceView {
        ServiceView {
            type_id: self.type_id,
            lifetime: self.lifetime,
            factory: self.factory.id,
            dependencies: self.factory.dependencies@,
        }
    }
}

/// One step of a plan: call `factory` with the instances `dependencies`
/// refers to; the result is the instance of `type_id`, to be kept for good
/// if it is a singleton.
#[derive(Debug, PartialEq, Eq)]
pub struct Construction {
    pub type_id: u64,
    pub lifetime: Lifetime,
    pub factory: u64,
    pub dependencies: Vec<InstanceRef>,
}

/// The mathematical value of a [`Construction`].
pub struct ConstructionView {
    pub type_id: u64,
    pub lifetime: Lifetime,
    pub factory: u64,
    pub dependencies: Seq<InstanceRef>,
}

impl View for Construction {
    type V = ConstructionView;

    open spec fn view(&self) -> ConstructionView {
        ConstructionView {
            type_id: self.type_id,
            lifetime: self.lifetime,
            factory: self.factory,
            dependencies: self.dependencies@,
        }
    }
}

/// The values of a run of service descriptors.
pub open spec fn service_views(v: Seq<ServiceDescriptor>) -> Seq<ServiceView> {
    v.map_values(|s: ServiceDescriptor| s@)
}

/// The values of a run of constructions.
pub open spec fn construction_views(v: Seq<Construction>) -> Seq<ConstructionView> {
    v.map_values(|c: Construction| c@)
}

/// The state of a plan under way: which services (by place in the registry)
/// have their singleton, and the steps planned so far.
pub struct Progress {
    pub built: Seq<bool>,
    pub steps: Seq<ConstructionView>,
}

/// The place of the first descriptor for `ty` at or after `from`.
pub open spec fn position_from(services: Seq<ServiceView>, ty: u64, from: int) -> Option<int>
    decreases services.len() - from,
{
    if from < 0 || from >= services.len() {
        None
    } else if services[from].type_id == ty {
        Some(from)
    } else {
        position_from(services, ty, from + 1)
    }
}

/// The place of the descriptor for `ty`.
pub open spec fn position(services: Seq<ServiceView>, ty: u64) -> Option<int> {
    position_from(services, ty, 0)
}

/// The registered type identities.
pub open spec fn registered(services: Seq<ServiceView>) -> Set<u64> {
    services.map_values(|s: ServiceView| s.type_id).to_set()
}

/// The registered type identities that are not being resolved.
pub open spec fn unvisited(services: Seq<ServiceView>, pending: Seq<u64>) -> Set<u64> {
    registered(services).difference(pending.to_set())
}

/// What `position_from` finds is in range, is a descriptor for `ty`, and is
/// the first such; if it finds nothing there is none.
pub proof fn lemma_position_from(services: Seq<ServiceView>, ty: u64, from: int)
    requires
        0 <= from,
    ensures
        match position_from(services, ty, from) {
            Some(i) => from <= i < services.len() && services[i].type_id == ty && forall|k: int|
                from <= k < i ==> services[k].type_id != ty,
            None => forall|k: int| from <= k < services.len() ==> services[k].type_id != ty,
        },
    decreases services.len() - from,
{
    if from < services.len() && services[from].type_id != ty {
        lemma_position_from(services, ty, from + 1);
    }
}

/// Starting to resolve a registered type that is not being resolved leaves
/// fewer types unvisited.
pub proof fn lemma_unvisited_shrinks(services: Seq<ServiceView>, pending: Seq<u64>, ty: u64)
    ensures
        position(services, ty) is Some && !pending.contains(ty) ==> unvisited(
            services,
            pending.push(ty),
        ).len() < unvisited(services, pending).len(),
{
    if position(services, ty) is Some && !pending.contains(ty) {
        lemma_position_from(services, ty, 0);
        let i = position(services, ty)->Some_0;
        let ids = services.map_values(|s: ServiceView| s.type_id);
        assert(ids[i] == ty);
        assert(ids.contains(ty));
        vstd::seq_lib::seq_to_set_is_finite(ids);
        pending.lemma_push_to_set_commute(ty);
        registered(services).lemma_set_insert_diff_decreases(pending.to_set(), ty);
    }
}

/// The plan for an instance of `ty`, continuing from `state`, while the types
/// in `pending` are being resolved.
///
/// An unregistered type fails. A singleton that is built is shared as it is.
/// A type that is itself pending is a cycle. Otherwise its dependencies are
/// resolved in order, then one step constructs it; a singleton is marked
/// built and referred to as shared, a transient by the place of its step.
pub open spec fn resolve_in(
    services: Seq<ServiceView>,
    state: Progress,
    pending: Seq<u64>,
    ty: u64,
) -> Result<(InstanceRef, Progress), ContainerError>
    decreases unvisited(services, pending).len(), 0nat,
{
    match position(services, ty) {
        None => Err(ContainerError::UnregisteredDependency(ty)),
        Some(i) => {
            let service = services[i];
            if service.lifetime == Lifetime::Singleton && state.built[i] {
                Ok((InstanceRef::Shared(ty), state))
            } else if pending.contains(ty) {
                Err(ContainerError::CircularDependency(ty))
            } else {
                proof {
                    lemma_unvisited_shrinks(services, pending, ty);
                }
                match resolve_each(
                    services,
                    state,
                    pending.push(ty),
                    service.dependencies,
                    0,
                    Seq::empty(),
                ) {
                    Err(e) => Err(e),
                    Ok((refs, after)) => {
                        let step = ConstructionView {
                            type_id: ty,
                            lifetime: service.lifetime,
                            factory: service.factory,
                            dependencies: refs,
                        };
                        if service.lifetime == Lifetime::Singleton {
                            Ok(
                                (
                                    InstanceRef::Shared(ty),
                                    Progress {
                                        built: after.built.update(i, true),
                                        steps: after.steps.push(step),
                                    },
                                ),
                            )
                        } else {
                            Ok(
                                (
                                    InstanceRef::Fresh(after.steps.len() as usize),
                                    Progress { built: after.built, steps: after.steps.push(step) },
                                ),
                            )
                        }
                    },
                }
            }
        },
    }
}

/// The plans for `deps[k..]`, one after the other, with the references
/// `found` for `deps[..k]` in front. The first failure ends the run.
pub open spec fn resolve_each(
    services: Seq<ServiceView>,
    state: Progress,
    pending: Seq<u64>,
    deps: Seq<u64>,
    k: int,
    found: Seq<InstanceRef>,
) -> Result<(Seq<InstanceRef>, Progress), ContainerError>
    decreases unvisited(services, pending).len(), deps.len() - k + 1,
{
    if k < 0 || k >= deps.len() {
        Ok((found, state))
    } else {
        match resolve_in(services, state, pending, deps[k]) {
            Err(e) => Err(e),
            Ok((r, after)) => resolve_each(services, after, pending, deps, k + 1, found.push(r)),
        }
    }
}

/// Eager validation from place `k` on: every singleton at or after `k` is
/// resolved, in registration order. The first failure ends the run.
pub open spec fn validate_from(services: Seq<ServiceView>, state: Progress, k: int) -> Result<
    Progress,
    ContainerError,
>
    decreases services.len() - k,
{
    if k < 0 || k >= services.len() {
        Ok(state)
    } else if services[k].lifetime == Lifetime::Singleton {
        match resolve_in(services, state, Seq::empty(), services[k].type_id) {
            Err(e) => Err(e),
            Ok((_, after)) => validate_from(services, after, k + 1),
        }
    } else {
        validate_from(services, state, k + 1)
    }
}

/// The mathematical value of a [`Container`].
pub struct ContainerView {
    /// The descriptors, in registration order.
    pub services: Seq<ServiceView>,
    /// For each descriptor, whether its singleton has been planned.
    pub built: Seq<bool>,
}

impl ContainerView {
    /// A type identity has at most one descriptor, and every descriptor has
    /// its flag.
    pub open spec fn wf(self) -> bool {
        &&& self.built.len() == self.services.len()
        &&& forall|i: int, j: int|
            0 <= i < j < self.services.len() ==> self.services[i].type_id
                != self.services[j].type_id
    }

    /// The state a plan starts from.
    pub open spec fn start(self) -> Progress {
        Progress { built: self.built, steps: Seq::empty() }
    }

    /// The container once the plan that ended in `after` is handed out.
    pub open spec fn commit(self, after: Progress) -> ContainerView {
        ContainerView { services: self.services, built: after.built }
    }

    /// Resolving `ty`: the reference, the steps, and the container after.
    pub open spec fn resolve(self, ty: u64) -> Result<
        (InstanceRef, Seq<ConstructionView>, ContainerView),
        ContainerError,
    > {
        match resolve_in(self.services, self.start(), Seq::empty(), ty) {
            Err(e) => Err(e),
            Ok((r, after)) => Ok((r, after.steps, self.commit(after))),
        }
    }

    /// Eager validation: the steps, and the container after.
    pub open spec fn validate(self) -> Result<(Seq<ConstructionView>, ContainerView), ContainerError> {
        match validate_from(self.services, self.start(), 0) {
            Err(e) => Err(e),
            Ok(after) => Ok((after.steps, self.commit(after))),
        }
    }
}

/// The registry of services.
#[derive(Debug)]
pub struct Container {
    services: Vec<ServiceDescriptor>,
    built: Vec<bool>,
}

impl View for Container {
    type V = ContainerView;

    closed spec fn view(&self) -> ContainerView {
        ContainerView { services: service_views(self.services@), built: self.built@ }
    }
}

/// A plan under way: the working copy of the container's flags, and the
/// steps planned so far.
#[derive(Debug)]
pub(crate) struct Scope {
    built: Vec<bool>,
    steps: Vec<Construction>,
}

impl View for Scope {
    type V = Progress;

    closed spec fn view(&self) -> Progress {
        Progress { built: self.built@, steps: construction_views(self.steps@) }
    }
}

/// The outcome of resolving one type: the reference to the instance, and the
/// constructions to perform first, in order.
#[derive(Debug, PartialEq, Eq)]
pub struct Resolution {
    pub instance: InstanceRef,
    pub steps: Vec<Construction>,
}

/// Whether `v` holds `x`.
fn contains_id(v: &Vec<u64>, x: u64) -> (found: bool)
    ensures
        found == v@.contains(x),
{
    let mut i: usize = 0;
    while i < v.len()
        invariant
            0 <= i <= v.len(),
            forall|k: int| 0 <= k < i ==> v@[k] != x,
        decreases v.len() - i,
    {
        if v[i] == x {
            return true;
        }
        i += 1;
    }
    false
}

impl Container {
    /// Whether the container is well formed.
    pub open spec fn wf(&self) -> bool {
        self@.wf()
    }

    /// An empty container.
    pub fn new() -> (c: Container)
        ensures
            c.wf(),
            c@.services.len() == 0,
    {
        let c = Container { services: Vec::new(), built: Vec::new() };
        assert(c@.services =~= Seq::empty());
        c
    }

    /// The place of the descriptor for `ty`.
    fn find(&self, ty: u64) -> (at: Option<usize>)
        ensures
            match at {
                Some(i) => position(self@.services, ty) == Some(i as int) && i
                    < self@.services.len(),
                None => position(self@.services, ty) is None,
            },
    {
        let mut i: usize = 0;
        while i < self.services.len()
            invariant
                0 <= i <= self.services.len(),
                position(self@.services, ty) == position_from(self@.services, ty, i as int),
            decreases self.services.len() - i,
        {
            if self.services[i].type_id == ty {
                return Some(i);
            }
            i += 1;
        }
        None
    }

    /// The number of registered services.
    pub fn len(&self) -> (n: usize)
        ensures
            n == self@.services.len(),
    {
        self.services.len()
    }

    /// Whether `ty` has a descriptor.
    pub fn is_registered(&self, ty: u64) -> (yes: bool)
        ensures
            yes == position(self@.services, ty) is Some,
    {
        self.find(ty).is_some()
    }

    /// Whether `ty` is a singleton whose construction has been planned.
    pub fn is_built(&self, ty: u64) -> (yes: bool)
        requires
            self.wf(),
        ensures
            yes == match position(self@.services, ty) {
                Some(i) => self@.built[i],
                None => false,
            },
    {
        match self.find(ty) {
            Some(i) => self.built[i],
            None => false,
        }
    }

    /// Adds a descriptor. Fails if `type_id` already has one.
    pub fn register(&mut self, type_id: u64, lifetime: Lifetime, factory: Factory) -> (r: Result<
        (),
        ContainerError,
    >)
        requires
            old(self).wf(),
        ensures
            final(self).wf(),
            match r {
                Ok(_) => {
                    &&& position(old(self)@.services, type_id) is None
                    &&& final(self)@.services == old(self)@.services.push(
                        ServiceView {
                            type_id,
                            lifetime,
                            factory: factory.id,
                            dependencies: factory.dependencies@,
                        },
                    )
                    &&& final(self)@.built == old(self)@.built.push(false)
                },
                Err(e) => {
                    &&& position(old(self)@.services, type_id) is Some
                    &&& e == ContainerError::DuplicateRegistration(type_id)
                    &&& final(self)@ == old(self)@
                },
            },
    {
        if self.find(type_id).is_some() {
            return Err(ContainerError::DuplicateRegistration(type_id));
        }
        proof {
            lemma_position_from(self@.services, type_id, 0);
        }
        let ghost before = self@;
        let descriptor = ServiceDescriptor { type_id, lifetime, factory };
        self.services.push(descriptor);
        self.built.push(false);
        assert(self@.services =~= before.services.push(descriptor@));
        Ok(())
    }

    /// Starts a plan.
    pub(crate) fn begin(&self) -> (scope: Scope)
        requires
            self.wf(),
        ensures
            scope@ == self@.start(),
    {
        let mut built: Vec<bool> = Vec::new();
        let mut i: usize = 0;
        while i < self.built.len()
            invariant
                0 <= i <= self.built.len(),
                built@ == self.built@.subrange(0, i as int),
            decreases self.built.len() - i,
        {
            built.push(self.built[i]);
            i += 1;
            assert(built@ =~= self.built@.subrange(0, i as int));
        }
        assert(self.built@.subrange(0, i as int) =~= self.built@);
        let scope = Scope { built, steps: Vec::new() };
        assert(scope@.steps =~= Seq::empty());
        scope
    }

    /// Plans an instance of `ty` while the types in `pending` are being
    /// resolved, adding to `scope`.
    fn resolve_step(&self, scope: &mut Scope, pending: &mut Vec<u64>, ty: u64) -> (r: Result<
        InstanceRef,
        ContainerError,
    >)
        requires
            self.wf(),
            old(scope)@.built.len() == self@.services.len(),
        ensures
            match resolve_in(self@.services, old(scope)@, old(pending)@, ty) {
                Ok((inst, after)) => {
                    &&& r == Ok::<InstanceRef, ContainerError>(inst)
                    &&& final(scope)@ == after
                    &&& final(scope)@.built.len() == self@.services.len()
                    &&& final(pending)@ == old(pending)@
                },
                Err(e) => r == Err::<InstanceRef, ContainerError>(e),
            },
        decreases unvisited(self@.services, old(pending)@).len(), 0nat,
    {
        let ghost services = self@.services;
        let ghost before = scope@;
        let ghost stack = pending@;
        let i = match self.find(ty) {
            Some(i) => i,
            None => {
                return Err(ContainerError::UnregisteredDependency(ty));
            },
        };
        let service = &self.services[i];
        assert(service@ == services[i as int]);
        let singleton = match service.lifetime {
            Lifetime::Singleton => true,
            Lifetime::Transient => false,
        };
        if singleton && scope.built[i] {
            return Ok(InstanceRef::Shared(ty));
        }
        if contains_id(pending, ty) {
            return Err(ContainerError::CircularDependency(ty));
        }
        proof {
            lemma_unvisited_shrinks(services, stack, ty);
        }
        pending.push(ty);
        let deps = &service.factory.dependencies;
        let mut refs: Vec<InstanceRef> = Vec::new();
        let mut k: usize = 0;
        while k < deps.len()
            invariant
                self.wf(),
                services == self@.services,
                stack == old(pending)@,
                before == old(scope)@,
                position(services, ty) == Some(i as int),
                i < services.len(),
                deps@ == services[i as int].dependencies,
                service@ == services[i as int],
                singleton == (services[i as int].lifetime == Lifetime::Singleton),
                !(singleton && before.built[i as int]),
                !stack.contains(ty),
                0 <= k <= deps.len(),
                pending@ == stack.push(ty),
                scope@.built.len() == services.len(),
                unvisited(services, pending@).len() < unvisited(services, stack).len(),
                resolve_each(services, before, stack.push(ty), deps@, 0, Seq::empty())
                    == resolve_each(services, scope@, pending@, deps@, k as int, refs@),
            decreases deps.len() - k,
        {
            let ghost here = scope@;
            match self.resolve_step(scope, pending, deps[k]) {
                Err(e) => {
                    assert(resolve_each(services, here, stack.push(ty), deps@, k as int, refs@)
                        == Err::<(Seq<InstanceRef>, Progress), ContainerError>(e));
                    return Err(e);
                },
                Ok(inst) => {
                    refs.push(inst);
                },
            }
            k += 1;
        }
        pending.pop();
        assert(pending@ =~= stack);
        let ghost after = scope@;
        let fresh = scope.steps.len();
        let step = Construction {
            type_id: ty,
            lifetime: service.lifetime,
            factory: service.factory.id,
            dependencies: refs,
        };
        scope.steps.push(step);
        assert(scope@.steps =~= after.steps.push(step@));
        if singleton {
            scope.built.set(i, true);
            Ok(InstanceRef::Shared(ty))
        } else {
            Ok(InstanceRef::Fresh(fresh))
        }
    }

    /// Plans an instance of `ty` as part of the plan `scope`. On failure the
    /// plan is given up.
    pub(crate) fn resolve_within(&self, scope: Scope, ty: u64) -> (r: Result<
        (InstanceRef, Scope),
        ContainerError,
    >)
        requires
            self.wf(),
            scope@.built.len() == self@.services.len(),
        ensures
            match resolve_in(self@.services, scope@, Seq::empty(), ty) {
                Ok((inst, after)) => {
                    &&& r is Ok
                    &&& r->Ok_0.0 == inst
                    &&& r->Ok_0.1@ == after
                    &&& after.built.len() == self@.services.len()
                },
                Err(e) => r is Err && r->Err_0 == e,
            },
    {
        let mut scope = scope;
        let mut pending: Vec<u64> = Vec::new();
        assert(pending@ =~= Seq::empty());
        match self.resolve_step(&mut scope, &mut pending, ty) {
            Ok(inst) => Ok((inst, scope)),
            Err(e) => Err(e),
        }
    }

    /// Takes over the flags of a finished plan and hands out its steps.
    pub(crate) fn commit(&mut self, scope: Scope) -> (steps: Vec<Construction>)
        requires
            old(self).wf(),
            scope@.built.len() == old(self)@.services.len(),
        ensures
            final(self).wf(),
            final(self)@ == old(self)@.commit(scope@),
            construction_views(steps@) == scope@.steps,
    {
        self.built = scope.built;
        scope.steps
    }

    /// Resolves `ty`: plans its construction and that of whatever it needs
    /// and does not have. On failure the container is unchanged.
    pub fn resolve(&mut self, ty: u64) -> (r: Result<Resolution, ContainerError>)
        requires
            old(self).wf(),
        ensures
            final(self).wf(),
            match old(self)@.resolve(ty) {
                Ok((inst, steps, after)) => {
                    &&& r is Ok
                    &&& r->Ok_0.instance == inst
                    &&& construction_views(r->Ok_0.steps@) == steps
                    &&& final(self)@ == after
                },
                Err(e) => r is Err && r->Err_0 == e && final(self)@ == old(self)@,
            },
    {
        let scope = self.begin();
        match self.resolve_within(scope, ty) {
            Ok((instance, scope)) => {
                let steps = self.commit(scope);
                Ok(Resolution { instance, steps })
            },
            Err(e) => Err(e),
        }
    }

    /// Eager validation: resolves every registered singleton, in registration
    /// order, and reports the first failure. On failure the container is
    /// unchanged.
    pub fn validate(&mut self) -> (r: Result<Vec<Construction>, ContainerError>)
        requires
            old(self).wf(),
        ensures
            final(self).wf(),
            match old(self)@.validate() {
                Ok((steps, after)) => {
                    &&& r is Ok
                    &&& construction_views(r->Ok_0@) == steps
                    &&& final(self)@ == after
                },
                Err(e) => r is Err && r->Err_0 == e && final(self)@ == old(self)@,
            },
    {
        let mut scope = self.begin();
        let mut k: usize = 0;
        while k < self.services.len()
            invariant
                self.wf(),
                self@ == old(self)@,
                0 <= k <= self.services.len(),
                scope@.built.len() == self@.services.len(),
                validate_from(self@.services, self@.start(), 0) == validate_from(
                    self@.services,
                    scope@,
                    k as int,
                ),
            decreases self.services.len() - k,
        {
            let singleton = match self.services[k].lifetime {
                Lifetime::Singleton => true,
                Lifetime::Transient => false,
            };
            assert(self.services@[k as int]@ == self@.services[k as int]);
            if singleton {
                match self.resolve_within(scope, self.services[k].type_id) {
                    Ok((_, next)) => {
                        scope = next;
                    },
                    Err(e) => {
                        return Err(e);
                    },
                }
            }
            k += 1;
        }
        Ok(self.commit(scope))
    }
}

} // verus!
