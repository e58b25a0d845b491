use rusty_resty::container::{
    Construction, Container, Factory, InstanceRef, Lifetime, Resolution,
};
use rusty_resty::error::ContainerError;

const CONFIG: u64 = 1;
const DATABASE: u64 = 2;
const REPOSITORY: u64 = 3;
const CLOCK: u64 = 4;
const A: u64 = 10;
const B: u64 = 11;

fn factory(id: u64, dependencies: &[u64]) -> Factory {
    Factory { id, dependencies: dependencies.to_vec() }
}

fn step(type_id: u64, factory: u64, dependencies: &[InstanceRef]) -> Construction {
    let lifetime = match type_id {
        CONFIG | DATABASE => Lifetime::Singleton,
        _ => Lifetime::Transient,
    };
    Construction { type_id, lifetime, factory, dependencies: dependencies.to_vec() }
}

fn layered() -> Container {
    let mut c = Container::new();
    c.register(CONFIG, Lifetime::Singleton, factory(100, &[])).unwrap();
    c.register(DATABASE, Lifetime::Singleton, factory(200, &[CONFIG])).unwrap();
    c.register(REPOSITORY, Lifetime::Transient, factory(300, &[DATABASE, CLOCK])).unwrap();
    c.register(CLOCK, Lifetime::Transient, factory(400, &[])).unwrap();
    c
}

#[test]
fn new_container_is_empty() {
    let c = Container::new();
    assert_eq!(c.len(), 0);
    assert!(!c.is_registered(CONFIG));
    assert!(!c.is_built(CONFIG));
}

#[test]
fn register_adds_a_descriptor() {
    let mut c = Container::new();
    assert_eq!(c.register(CONFIG, Lifetime::Singleton, factory(100, &[])), Ok(()));
    assert_eq!(c.len(), 1);
    assert!(c.is_registered(CONFIG));
    assert!(!c.is_registered(DATABASE));
    assert!(!c.is_built(CONFIG));
}

#[test]
fn register_twice_is_a_duplicate_registration() {
    let mut c = Container::new();
    c.register(CONFIG, Lifetime::Singleton, factory(100, &[])).unwrap();
    assert_eq!(
        c.register(CONFIG, Lifetime::Transient, factory(101, &[])),
        Err(ContainerError::DuplicateRegistration(CONFIG))
    );
    assert_eq!(c.len(), 1);
    let first = c.resolve(CONFIG).unwrap();
    assert_eq!(first.steps, vec![step(CONFIG, 100, &[])]);
}

#[test]
fn resolve_unregistered_type_fails() {
    let mut c = Container::new();
    assert_eq!(c.resolve(CONFIG), Err(ContainerError::UnregisteredDependency(CONFIG)));
}

#[test]
fn resolve_reports_the_missing_dependency() {
    let mut c = Container::new();
    c.register(DATABASE, Lifetime::Singleton, factory(200, &[CONFIG])).unwrap();
    assert_eq!(c.resolve(DATABASE), Err(ContainerError::UnregisteredDependency(CONFIG)));
    assert!(!c.is_built(DATABASE));
}

#[test]
fn singleton_is_constructed_once_and_shared() {
    let mut c = layered();
    let first = c.resolve(CONFIG).unwrap();
    assert_eq!(
        first,
        Resolution { instance: InstanceRef::Shared(CONFIG), steps: vec![step(CONFIG, 100, &[])] }
    );
    assert!(c.is_built(CONFIG));
    for _ in 0..5 {
        let again = c.resolve(CONFIG).unwrap();
        assert_eq!(again, Resolution { instance: InstanceRef::Shared(CONFIG), steps: vec![] });
    }
}

#[test]
fn transient_is_constructed_anew_each_time() {
    let mut c = layered();
    for _ in 0..5 {
        let r = c.resolve(CLOCK).unwrap();
        assert_eq!(
            r,
            Resolution { instance: InstanceRef::Fresh(0), steps: vec![step(CLOCK, 400, &[])] }
        );
    }
    assert!(!c.is_built(CLOCK));
}

#[test]
fn dependencies_are_constructed_first_and_in_order() {
    let mut c = layered();
    let r = c.resolve(REPOSITORY).unwrap();
    assert_eq!(r.instance, InstanceRef::Fresh(3));
    assert_eq!(
        r.steps,
        vec![
            step(CONFIG, 100, &[]),
            step(DATABASE, 200, &[InstanceRef::Shared(CONFIG)]),
            step(CLOCK, 400, &[]),
            step(REPOSITORY, 300, &[InstanceRef::Shared(DATABASE), InstanceRef::Fresh(2)]),
        ]
    );
    assert!(c.is_built(CONFIG));
    assert!(c.is_built(DATABASE));
    let again = c.resolve(REPOSITORY).unwrap();
    assert_eq!(again.instance, InstanceRef::Fresh(1));
    assert_eq!(
        again.steps,
        vec![
            step(CLOCK, 400, &[]),
            step(REPOSITORY, 300, &[InstanceRef::Shared(DATABASE), InstanceRef::Fresh(0)]),
        ]
    );
}

#[test]
fn transient_needed_twice_is_constructed_twice() {
    let mut c = Container::new();
    c.register(CLOCK, Lifetime::Transient, factory(400, &[])).unwrap();
    c.register(A, Lifetime::Transient, factory(500, &[CLOCK, CLOCK])).unwrap();
    let r = c.resolve(A).unwrap();
    assert_eq!(r.instance, InstanceRef::Fresh(2));
    assert_eq!(
        r.steps,
        vec![
            step(CLOCK, 400, &[]),
            step(CLOCK, 400, &[]),
            step(A, 500, &[InstanceRef::Fresh(0), InstanceRef::Fresh(1)]),
        ]
    );
}

#[test]
fn singleton_needed_twice_is_constructed_once() {
    let mut c = Container::new();
    c.register(CONFIG, Lifetime::Singleton, factory(100, &[])).unwrap();
    c.register(A, Lifetime::Transient, factory(500, &[CONFIG, CONFIG])).unwrap();
    let r = c.resolve(A).unwrap();
    assert_eq!(
        r.steps,
        vec![
            step(CONFIG, 100, &[]),
            step(A, 500, &[InstanceRef::Shared(CONFIG), InstanceRef::Shared(CONFIG)]),
        ]
    );
}

#[test]
fn cycle_of_two_is_reported() {
    let mut c = Container::new();
    c.register(A, Lifetime::Singleton, factory(1, &[B])).unwrap();
    c.register(B, Lifetime::Singleton, factory(2, &[A])).unwrap();
    assert_eq!(c.resolve(A), Err(ContainerError::CircularDependency(A)));
    assert_eq!(c.resolve(B), Err(ContainerError::CircularDependency(B)));
    assert!(!c.is_built(A));
    assert!(!c.is_built(B));
}

#[test]
fn cycle_of_transients_is_reported() {
    let mut c = Container::new();
    c.register(A, Lifetime::Transient, factory(1, &[B])).unwrap();
    c.register(B, Lifetime::Transient, factory(2, &[A])).unwrap();
    assert_eq!(c.resolve(A), Err(ContainerError::CircularDependency(A)));
}

#[test]
fn self_dependency_is_a_cycle() {
    let mut c = Container::new();
    c.register(A, Lifetime::Transient, factory(1, &[A])).unwrap();
    assert_eq!(c.resolve(A), Err(ContainerError::CircularDependency(A)));
}

#[test]
fn long_cycle_is_reported_at_the_type_that_repeats() {
    let mut c = Container::new();
    for ty in 0..50u64 {
        c.register(ty, Lifetime::Singleton, factory(ty, &[(ty + 1) % 50])).unwrap();
    }
    assert_eq!(c.resolve(7), Err(ContainerError::CircularDependency(7)));
    for ty in 0..50u64 {
        assert!(!c.is_built(ty));
    }
}

#[test]
fn failed_resolution_leaves_the_container_unchanged() {
    let mut c = Container::new();
    c.register(CONFIG, Lifetime::Singleton, factory(100, &[])).unwrap();
    c.register(A, Lifetime::Singleton, factory(1, &[CONFIG, B])).unwrap();
    assert_eq!(c.resolve(A), Err(ContainerError::UnregisteredDependency(B)));
    assert!(!c.is_built(CONFIG));
    assert!(!c.is_built(A));
    let r = c.resolve(CONFIG).unwrap();
    assert_eq!(r.steps, vec![step(CONFIG, 100, &[])]);
}

#[test]
fn built_singleton_hides_a_cycle_behind_it() {
    let mut c = Container::new();
    c.register(CONFIG, Lifetime::Singleton, factory(100, &[])).unwrap();
    c.register(A, Lifetime::Transient, factory(1, &[CONFIG])).unwrap();
    c.resolve(CONFIG).unwrap();
    let r = c.resolve(A).unwrap();
    assert_eq!(r.steps, vec![step(A, 1, &[InstanceRef::Shared(CONFIG)])]);
}

#[test]
fn validate_constructs_every_singleton_in_registration_order() {
    let mut c = layered();
    let steps = c.validate().unwrap();
    assert_eq!(
        steps,
        vec![step(CONFIG, 100, &[]), step(DATABASE, 200, &[InstanceRef::Shared(CONFIG)])]
    );
    assert!(c.is_built(CONFIG));
    assert!(c.is_built(DATABASE));
    assert!(!c.is_built(REPOSITORY));
    assert_eq!(c.validate().unwrap(), vec![]);
}

#[test]
fn validate_reports_the_first_failure() {
    let mut c = Container::new();
    c.register(CONFIG, Lifetime::Singleton, factory(100, &[])).unwrap();
    c.register(A, Lifetime::Singleton, factory(1, &[B])).unwrap();
    c.register(B, Lifetime::Singleton, factory(2, &[A])).unwrap();
    c.register(DATABASE, Lifetime::Singleton, factory(200, &[99])).unwrap();
    assert_eq!(c.validate(), Err(ContainerError::CircularDependency(A)));
    assert!(!c.is_built(CONFIG));
}

#[test]
fn validate_reports_an_unregistered_dependency() {
    let mut c = Container::new();
    c.register(DATABASE, Lifetime::Singleton, factory(200, &[CONFIG])).unwrap();
    assert_eq!(c.validate(), Err(ContainerError::UnregisteredDependency(CONFIG)));
}

#[test]
fn validate_does_not_look_at_transients() {
    let mut c = Container::new();
    c.register(A, Lifetime::Transient, factory(1, &[99])).unwrap();
    assert_eq!(c.validate(), Ok(vec![]));
    assert_eq!(c.resolve(A), Err(ContainerError::UnregisteredDependency(99)));
}
