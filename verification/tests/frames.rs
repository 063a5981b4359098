use appy::appy::Appy;
use appy::element::Element;
use appy::instance::HookRef;
use appy::path::{ComponentPath, ComponentPathComponent};
use appy::render::{AppEvent, Outcome, Visit};
use appy::trigger::TriggerHandle;
use std::cell::Cell;

const A: u64 = 100;
const B: u64 = 200;
const APP: u64 = 1;

fn leaf(type_id: u64, hooks: Vec<i64>) -> Element<i64> {
    Element { type_id, hooks, children: vec![] }
}

fn two_counters() -> Element<i64> {
    Element { type_id: A, hooks: vec![], children: vec![leaf(B, vec![0]), leaf(B, vec![0])] }
}

fn path_of(steps: &[ComponentPathComponent]) -> ComponentPath {
    let mut p = ComponentPath::new();
    for s in steps {
        p = p.push(*s);
    }
    p
}

fn hook_at(path: ComponentPath, index: usize) -> HookRef {
    HookRef { path, index, trigger: TriggerHandle {} }
}

fn shown() -> Appy<i64, u32> {
    let mut appy: Appy<i64, u32> = Appy::new();
    appy.app_context = Some((APP, 640));
    appy
}

fn steps(visits: &[Visit]) -> Vec<Vec<ComponentPathComponent>> {
    visits.iter().map(|v| v.path.components.clone()).collect()
}

#[test]
fn two_children_of_one_type_keep_separate_counters() {
    let mut appy = shown();
    let visited = appy.render(&two_counters());
    let first = path_of(&[
        ComponentPathComponent::TypeId(A),
        ComponentPathComponent::Index(0),
        ComponentPathComponent::TypeId(B),
    ]);
    let second = path_of(&[
        ComponentPathComponent::TypeId(A),
        ComponentPathComponent::Index(1),
        ComponentPathComponent::TypeId(B),
    ]);
    assert_eq!(
        steps(&visited),
        vec![
            vec![ComponentPathComponent::TypeId(A)],
            first.components.clone(),
            second.components.clone(),
        ]
    );
    assert!(!appy.dirty.get_state());
    assert_eq!(appy.hook_value(&hook_at(first.clone(), 0)), Some(&0));
    assert_eq!(appy.hook_value(&hook_at(second.clone(), 0)), Some(&0));

    // an event handler increments the counter of the second child
    let counter = *appy.hook_value(&hook_at(second.clone(), 0)).unwrap();
    assert!(appy.set_hook_value(&hook_at(second.clone(), 0), counter + 1));
    assert!(appy.dirty.get_state());

    let again = appy.render(&two_counters());
    assert_eq!(steps(&again), steps(&visited));
    assert_eq!(appy.hook_value(&hook_at(first.clone(), 0)), Some(&0));
    assert_eq!(appy.hook_value(&hook_at(second.clone(), 0)), Some(&1));
    assert!(!appy.dirty.get_state());
    assert_eq!(appy.registry.instances.len(), 3);
    assert_eq!(appy.registry.previous_instances.len(), 0);
}

#[test]
fn a_removed_subtree_is_evicted_and_mounted_anew() {
    let mut appy = shown();
    let full = Element {
        type_id: A,
        hooks: vec![5],
        children: vec![
            leaf(B, vec![1]),
            Element { type_id: B, hooks: vec![2], children: vec![leaf(A, vec![3])] },
        ],
    };
    let cut = Element { type_id: A, hooks: vec![50], children: vec![leaf(B, vec![10])] };
    let second = path_of(&[
        ComponentPathComponent::TypeId(A),
        ComponentPathComponent::Index(1),
        ComponentPathComponent::TypeId(B),
    ]);
    let below = second
        .push(ComponentPathComponent::Index(0))
        .push(ComponentPathComponent::TypeId(A));
    let root = path_of(&[ComponentPathComponent::TypeId(A)]);
    let first = path_of(&[
        ComponentPathComponent::TypeId(A),
        ComponentPathComponent::Index(0),
        ComponentPathComponent::TypeId(B),
    ]);

    assert_eq!(appy.render(&full).len(), 4);
    assert!(appy.set_hook_value(&hook_at(second.clone(), 0), 22));
    assert!(appy.set_hook_value(&hook_at(below.clone(), 0), 33));
    assert!(appy.set_hook_value(&hook_at(first.clone(), 0), 11));

    assert_eq!(appy.render(&cut).len(), 2);
    assert!(!appy.registry.contains(&second));
    assert!(!appy.registry.contains(&below));
    assert_eq!(appy.hook_value(&hook_at(second.clone(), 0)), None);
    assert!(!appy.set_hook_value(&hook_at(second.clone(), 0), 1));
    assert!(!appy.dirty.get_state());
    // what stayed kept its state, whatever the new elements declare
    assert_eq!(appy.hook_value(&hook_at(root.clone(), 0)), Some(&5));
    assert_eq!(appy.hook_value(&hook_at(first.clone(), 0)), Some(&11));

    assert_eq!(appy.render(&full).len(), 4);
    assert_eq!(appy.hook_value(&hook_at(second.clone(), 0)), Some(&2));
    assert_eq!(appy.hook_value(&hook_at(below.clone(), 0)), Some(&3));
    assert_eq!(appy.hook_value(&hook_at(first.clone(), 0)), Some(&11));
}

#[test]
fn a_body_that_declares_more_hooks_gets_the_missing_slots() {
    let mut appy = shown();
    appy.render(&leaf(A, vec![1, 2]));
    let root = path_of(&[ComponentPathComponent::TypeId(A)]);
    assert!(appy.set_hook_value(&hook_at(root.clone(), 1), 20));
    appy.render(&leaf(A, vec![7, 8, 9]));
    assert_eq!(appy.hook_value(&hook_at(root.clone(), 0)), Some(&1));
    assert_eq!(appy.hook_value(&hook_at(root.clone(), 1)), Some(&20));
    assert_eq!(appy.hook_value(&hook_at(root.clone(), 2)), Some(&9));
    assert_eq!(appy.hook_value(&hook_at(root.clone(), 3)), None);
    appy.render(&leaf(A, vec![]));
    assert_eq!(appy.hook_value(&hook_at(root.clone(), 2)), Some(&9));
}

#[test]
fn hook_calls_address_the_slots_in_call_order() {
    let mut appy = shown();
    let calls = Cell::new(0u32);
    let mut handles: Vec<HookRef> = vec![];
    for frame in 0..2 {
        appy.begin_render();
        let (path, due) = appy.enter_component(&ComponentPath::new(), A);
        assert!(due.is_empty());
        assert_eq!(path.components, vec![ComponentPathComponent::TypeId(A)]);
        assert_eq!(appy.current_hook_index, 0);
        let first = appy.use_hook_ref(|| {
            calls.set(calls.get() + 1);
            10
        });
        let second = appy.use_hook_ref(|| {
            calls.set(calls.get() + 1);
            20
        });
        assert_eq!(first.index, 0);
        assert_eq!(second.index, 1);
        assert!(first.path.same(&path));
        assert_eq!(appy.current_hook_index, 2);
        assert_eq!(appy.hook_value(&first), Some(&(10 + frame)));
        assert_eq!(appy.hook_value(&second), Some(&20));
        appy.leave_body();
        assert!(appy.current_component_path.is_none());
        assert!(appy.leave_component(&path).is_empty());
        assert!(!appy.end_render());
        assert_eq!(calls.get(), 2);
        assert!(appy.set_hook_value(&first, 11));
        assert!(appy.dirty.get_state());
        handles.push(first);
    }
    assert_eq!(handles[0].index, handles[1].index);
    assert!(handles[0].path.same(&handles[1].path));
}

#[test]
fn callbacks_registered_in_a_body_fall_due_around_the_next_visits() {
    let mut appy = shown();
    appy.begin_render();
    let (path, due) = appy.enter_component(&ComponentPath::new(), A);
    assert!(due.is_empty());
    appy.with_current_component_instance().add_pre_render(1);
    appy.with_current_component_instance().add_post_render(2);
    appy.leave_body();
    assert_eq!(appy.leave_component(&path), vec![2]);
    appy.end_render();

    appy.begin_render();
    let (path, due) = appy.enter_component(&ComponentPath::new(), A);
    assert_eq!(due, vec![1]);
    appy.leave_body();
    assert!(appy.leave_component(&path).is_empty());
    appy.end_render();
}

#[test]
fn a_frame_provides_the_application_context_again() {
    let mut appy = shown();
    appy.begin_render();
    assert_eq!(appy.use_context(APP), 640);
    assert_eq!(appy.with_app_context(), (APP, 640));
    appy.provide_context(2, 7);
    assert_eq!(appy.use_context(2), 7);
    assert_eq!(appy.use_context(APP), 640);
    assert!(appy.contexts.is_provided(2));
    appy.add_event_handler(4);
    assert_eq!(appy.app_event_handlers, vec![4]);
    appy.end_render();
    appy.begin_render();
    assert!(!appy.contexts.is_provided(2));
    assert!(appy.contexts.is_provided(APP));
    assert!(appy.app_event_handlers.is_empty());
}

#[test]
fn beginning_a_frame_lowers_the_dirty_flag() {
    let mut appy = shown();
    let handle = appy.dirty.create_trigger();
    appy.dirty.trigger(&handle);
    assert!(appy.dirty.get_state());
    appy.begin_render();
    assert!(!appy.dirty.get_state());
    appy.dirty.trigger(&handle);
    assert!(appy.end_render());
}

#[test]
fn run_handles_the_events_of_the_host() {
    let mut appy: Appy<i64, u32> = Appy::new();
    let tree = two_counters();
    let o: Outcome = appy.run(AppEvent::Other, (APP, 1), &tree);
    assert!(appy.app_context.is_none());
    assert!(!o.redisplay);
    assert_eq!(o.resize, None);
    let o = appy.run(AppEvent::Show, (APP, 1), &tree);
    assert_eq!(appy.app_context, Some((APP, 1)));
    assert!(!o.redisplay);
    let o = appy.run(AppEvent::Show, (APP, 2), &tree);
    assert_eq!(appy.app_context, Some((APP, 1)));
    assert_eq!(o.resize, None);
    let o = appy.run(AppEvent::Resize { width: 800, height: 600 }, (APP, 2), &tree);
    assert_eq!(o.resize, Some((800, 600)));
    assert!(o.visited.is_empty());
    let o = appy.run(AppEvent::Resize { width: 4294967295, height: 2147483648 }, (APP, 2), &tree);
    assert_eq!(o.resize, Some((-1, -2147483648)));
    assert_eq!(appy.registry.instances.len(), 0);
    let o = appy.run(AppEvent::Render, (APP, 2), &tree);
    assert!(!o.redisplay);
    assert_eq!(o.visited.len(), 3);
    assert_eq!(appy.registry.instances.len(), 3);
    assert_eq!(appy.use_context(APP), 1);
    let second = path_of(&[
        ComponentPathComponent::TypeId(A),
        ComponentPathComponent::Index(1),
        ComponentPathComponent::TypeId(B),
    ]);
    assert!(appy.set_hook_value(&hook_at(second, 0), 1));
    let o = appy.run(AppEvent::Other, (APP, 2), &tree);
    assert!(o.redisplay);
    let o = appy.run(AppEvent::Render, (APP, 2), &tree);
    assert!(!o.redisplay);
}

#[test]
fn a_walk_hands_out_the_callbacks_that_the_instances_carried() {
    let mut appy = shown();
    appy.render(&two_counters());
    let second = path_of(&[
        ComponentPathComponent::TypeId(A),
        ComponentPathComponent::Index(1),
        ComponentPathComponent::TypeId(B),
    ]);
    appy.current_component_path = Some(second.clone());
    appy.with_current_component_instance().add_pre_render(5);
    appy.with_current_component_instance().add_post_render(6);
    appy.with_current_component_instance().add_post_render(7);
    appy.leave_body();

    let visited = appy.render(&two_counters());
    assert_eq!(visited.len(), 3);
    assert!(visited[0].pre_render.is_empty() && visited[0].post_render.is_empty());
    assert!(visited[1].pre_render.is_empty() && visited[1].post_render.is_empty());
    assert!(visited[2].path.same(&second));
    assert_eq!(visited[2].pre_render, vec![5]);
    assert_eq!(visited[2].post_render, vec![6, 7]);
    assert_eq!(appy.hook_value(&hook_at(second.clone(), 0)), Some(&0));

    let visited = appy.render(&two_counters());
    assert!(visited[2].pre_render.is_empty() && visited[2].post_render.is_empty());
}

#[test]
fn a_deeper_tree_is_visited_parents_first_and_siblings_in_order() {
    let mut appy = shown();
    let tree = Element {
        type_id: A,
        hooks: vec![],
        children: vec![
            Element { type_id: B, hooks: vec![], children: vec![leaf(A, vec![]), leaf(B, vec![])] },
            leaf(A, vec![]),
        ],
    };
    let t = ComponentPathComponent::TypeId;
    let i = ComponentPathComponent::Index;
    let expected = vec![
        vec![t(A)],
        vec![t(A), i(0), t(B)],
        vec![t(A), i(0), t(B), i(0), t(A)],
        vec![t(A), i(0), t(B), i(1), t(B)],
        vec![t(A), i(1), t(A)],
    ];
    assert_eq!(steps(&appy.render(&tree)), expected);
    assert_eq!(steps(&appy.render(&tree)), expected);
    assert_eq!(appy.registry.instances.len(), 5);
}

fn counter_frame(appy: &mut Appy<i64, u32>, constructed: &Cell<u32>) -> Vec<HookRef> {
    let mut hooks = vec![];
    appy.begin_render();
    let (a, _) = appy.enter_component(&ComponentPath::new(), A);
    appy.leave_body();
    for i in 0..2 {
        let at = a.push(ComponentPathComponent::Index(i));
        let (b, _) = appy.enter_component(&at, B);
        hooks.push(appy.use_hook_ref(|| {
            constructed.set(constructed.get() + 1);
            0
        }));
        appy.leave_body();
        appy.leave_component(&b);
    }
    appy.leave_component(&a);
    appy.end_render();
    hooks
}

#[test]
fn the_second_frame_constructs_no_hook_again() {
    let mut appy = shown();
    let constructed = Cell::new(0u32);
    let hooks = counter_frame(&mut appy, &constructed);
    assert_eq!(constructed.get(), 2);
    assert_eq!(
        hooks[1].path.components,
        vec![
            ComponentPathComponent::TypeId(A),
            ComponentPathComponent::Index(1),
            ComponentPathComponent::TypeId(B),
        ]
    );
    assert_eq!(
        hooks[0].path.components,
        vec![
            ComponentPathComponent::TypeId(A),
            ComponentPathComponent::Index(0),
            ComponentPathComponent::TypeId(B),
        ]
    );
    let counter = *appy.hook_value(&hooks[1]).unwrap();
    assert!(appy.set_hook_value(&hooks[1], counter + 1));
    assert!(appy.dirty.get_state());

    let again = counter_frame(&mut appy, &constructed);
    assert_eq!(constructed.get(), 2);
    assert_eq!(appy.hook_value(&again[0]), Some(&0));
    assert_eq!(appy.hook_value(&again[1]), Some(&1));
    assert_eq!(again[1].index, hooks[1].index);
    assert!(!appy.dirty.get_state());
    assert_eq!(appy.registry.instances.len(), 3);
}

#[test]
fn an_unvisited_instance_is_dropped_when_the_frame_ends() {
    let mut appy = shown();
    let constructed = Cell::new(0u32);
    let hooks = counter_frame(&mut appy, &constructed);
    assert!(appy.set_hook_value(&hooks[0], 9));
    // a frame that renders the first child only
    appy.begin_render();
    let (a, _) = appy.enter_component(&ComponentPath::new(), A);
    appy.leave_body();
    let (b, _) = appy.enter_component(&a.push(ComponentPathComponent::Index(0)), B);
    let kept = appy.use_hook_ref(|| 0);
    appy.leave_body();
    appy.leave_component(&b);
    appy.leave_component(&a);
    assert_eq!(appy.registry.previous_instances.len(), 1);
    appy.end_render();
    assert_eq!(appy.registry.previous_instances.len(), 0);
    assert_eq!(appy.hook_value(&kept), Some(&9));
    assert_eq!(appy.hook_value(&hooks[1]), None);
    assert!(!appy.registry.contains(&hooks[1].path));
    // the second child comes back: its hook is constructed again
    let back = counter_frame(&mut appy, &constructed);
    assert_eq!(constructed.get(), 3);
    assert_eq!(appy.hook_value(&back[1]), Some(&0));
    assert_eq!(appy.hook_value(&back[0]), Some(&9));
}
