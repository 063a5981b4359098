use appy::context::ContextRegistry;
use appy::instance::ComponentInstance;
use appy::path::{ComponentPath, ComponentPathComponent};
use appy::registry::InstanceRegistry;
use appy::trigger::Trigger;
use std::cell::Cell;

fn path_of(steps: &[ComponentPathComponent]) -> ComponentPath {
    let mut p = ComponentPath::new();
    for s in steps {
        p = p.push(*s);
    }
    p
}

#[test]
fn push_extends_a_copy_and_leaves_the_path_alone() {
    let root = ComponentPath::new();
    let a = root.push(ComponentPathComponent::Index(0));
    let b = a.push(ComponentPathComponent::TypeId(7));
    assert_eq!(root.len(), 0);
    assert_eq!(a.len(), 1);
    assert_eq!(b.len(), 2);
    assert_eq!(
        b.components,
        vec![ComponentPathComponent::Index(0), ComponentPathComponent::TypeId(7)]
    );
    assert_eq!(a.components, vec![ComponentPathComponent::Index(0)]);
}

#[test]
fn paths_are_equal_by_structure() {
    let a = path_of(&[ComponentPathComponent::Index(1), ComponentPathComponent::TypeId(3)]);
    let b = path_of(&[ComponentPathComponent::Index(1), ComponentPathComponent::TypeId(3)]);
    let c = path_of(&[ComponentPathComponent::Index(2), ComponentPathComponent::TypeId(3)]);
    let d = path_of(&[ComponentPathComponent::Index(1)]);
    let e = path_of(&[ComponentPathComponent::TypeId(1), ComponentPathComponent::TypeId(3)]);
    assert!(a.same(&b));
    assert!(!a.same(&c));
    assert!(!a.same(&d));
    assert!(!d.same(&a));
    assert!(!a.same(&e));
    assert!(a.clone().same(&a));
    assert!(a == b);
    assert!(a != c);
    assert_eq!(a.clone(), b);
    assert_ne!(d, a);
}

#[test]
fn trigger_raises_the_flag_and_set_state_lowers_it() {
    let mut dirty = Trigger::new();
    assert!(!dirty.get_state());
    let first = dirty.create_trigger();
    let second = dirty.create_trigger();
    assert!(!dirty.get_state());
    dirty.trigger(&second);
    assert!(dirty.get_state());
    dirty.trigger(&first);
    assert!(dirty.get_state());
    dirty.set_state(false);
    assert!(!dirty.get_state());
    dirty.set_state(true);
    assert!(dirty.get_state());
}

#[test]
fn hook_constructor_runs_on_first_mount_only() {
    let calls = Cell::new(0u32);
    let dirty = Trigger::new();
    let mut instance: ComponentInstance<i64> = ComponentInstance::new();
    assert_eq!(instance.hook_count(), 0);
    let owner = path_of(&[ComponentPathComponent::TypeId(1)]);
    let first = instance.create_hook_ref(
        owner.clone(),
        0,
        || {
            calls.set(calls.get() + 1);
            41
        },
        dirty.create_trigger(),
    );
    assert_eq!(first.index, 0);
    assert!(first.path.same(&owner));
    assert_eq!(calls.get(), 1);
    assert_eq!(*instance.hook_value(0), 41);
    let again = instance.create_hook_ref(
        owner.clone(),
        0,
        || {
            calls.set(calls.get() + 1);
            99
        },
        dirty.create_trigger(),
    );
    assert_eq!(again.index, 0);
    assert_eq!(calls.get(), 1);
    assert_eq!(*instance.hook_value(0), 41);
    assert_eq!(instance.hook_count(), 1);
    let second = instance.create_hook_ref(owner.clone(), 1, || 5, dirty.create_trigger());
    assert_eq!(second.index, 1);
    assert_eq!(instance.hook_count(), 2);
    assert_eq!(*instance.hook_value(1), 5);
    assert_eq!(*instance.hook_value(0), 41);
}

#[test]
fn set_hook_value_overwrites_one_slot() {
    let dirty = Trigger::new();
    let mut instance: ComponentInstance<i64> = ComponentInstance::new();
    let owner = ComponentPath::new();
    instance.create_hook_ref(owner.clone(), 0, || 1, dirty.create_trigger());
    instance.create_hook_ref(owner.clone(), 1, || 2, dirty.create_trigger());
    instance.set_hook_value(1, 20);
    assert_eq!(*instance.hook_value(0), 1);
    assert_eq!(*instance.hook_value(1), 20);
}

#[test]
fn callbacks_fall_due_once_in_registration_order() {
    let mut instance: ComponentInstance<i64> = ComponentInstance::new();
    instance.add_pre_render(3);
    instance.add_post_render(10);
    instance.add_pre_render(4);
    instance.add_post_render(11);
    assert_eq!(instance.pre_render(), vec![3, 4]);
    assert_eq!(instance.pre_render(), Vec::<u64>::new());
    assert_eq!(instance.post_render(), vec![10, 11]);
    assert_eq!(instance.post_render(), Vec::<u64>::new());
}

#[test]
fn context_is_provided_once_and_consumed_as_provided() {
    let mut contexts: ContextRegistry<u32> = ContextRegistry::new();
    assert!(!contexts.is_provided(1));
    assert!(contexts.try_consume(1).is_none());
    contexts.provide(1, 500);
    assert!(contexts.is_provided(1));
    assert_eq!(*contexts.consume(1), 500);
    assert!(!contexts.try_provide(1, 600));
    assert_eq!(*contexts.consume(1), 500);
    assert!(contexts.try_provide(2, 700));
    assert_eq!(contexts.try_consume(2), Some(&700));
    assert_eq!(*contexts.consume(1), 500);
    contexts.clear();
    assert!(!contexts.is_provided(1));
    assert!(!contexts.is_provided(2));
    assert!(contexts.try_provide(1, 600));
    assert_eq!(*contexts.consume(1), 600);
}

#[test]
fn registry_moves_an_instance_over_and_keeps_its_hooks() {
    let dirty = Trigger::new();
    let mut registry: InstanceRegistry<i64> = InstanceRegistry::new();
    let p = path_of(&[ComponentPathComponent::Index(0), ComponentPathComponent::TypeId(9)]);
    let q = path_of(&[ComponentPathComponent::Index(1), ComponentPathComponent::TypeId(9)]);
    registry.get_or_create(&p).create_hook_ref(p.clone(), 0, || 7, dirty.create_trigger());
    registry.get_or_create(&q).create_hook_ref(q.clone(), 0, || 8, dirty.create_trigger());
    assert!(registry.contains(&p));
    assert_eq!(registry.instances.len(), 2);
    // the same path again is the same instance
    assert_eq!(registry.get_or_create(&p).hook_count(), 1);
    assert_eq!(registry.instances.len(), 2);

    registry.swap_generations();
    assert!(!registry.contains(&p));
    assert!(registry.get(&p).is_none());
    assert_eq!(registry.previous_instances.len(), 2);
    let moved = registry.get_or_create(&p);
    assert_eq!(moved.hook_count(), 1);
    assert_eq!(*moved.hook_value(0), 7);
    assert_eq!(registry.previous_instances.len(), 1);
    assert_eq!(registry.instances.len(), 1);
    assert_eq!(registry.claim(&p), 0);
    assert_eq!(registry.previous_instances.len(), 1);
    registry.finalize();
    assert!(registry.contains(&p));
    assert!(!registry.contains(&q));
    assert_eq!(registry.previous_instances.len(), 0);

    // what was dropped is mounted anew
    registry.swap_generations();
    assert_eq!(registry.get_or_create(&q).hook_count(), 0);
    assert_eq!(*registry.get(&p).map(|i| i.hook_count()).get_or_insert(77), 77);
}
