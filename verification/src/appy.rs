//! The render driver: the state of one application between and during
//! frames, and the steps of which a frame is made.

use vstd::prelude::*;
use crate::context::ContextRegistry;
use crate::instance::{ComponentInstance, HookRef, InstanceView};
use crate::path::{ComponentPath, ComponentPathComponent};
use crate::registry::{InstanceRegistry, PathView};
use crate::trigger::Trigger;

verus! {

/// The driver. `V` is the type of a hook value, `C` that of a context value;
/// both are opaque to it. Event handlers are named by the numbers under which
/// the host keeps them.
pub struct Appy<V, C> {
    pub registry: InstanceRegistry<V>,
    pub app_context: Option<(u64, C)>,
    pub current_hook_index: usize,
    pub current_component_path: Option<ComponentPath>,
    pub app_event_handlers: Vec<u64>,
    pub dirty: Trigger,
    pub contexts: ContextRegistry<C>,
}

impl<V, C: Copy> Appy<V, C> {
    /// The registry holds no path twice.
    pub open spec fn wf(&self) -> bool {
        self.registry.wf()
    }

    /// Whether a component body is being invoked.
    pub open spec fn in_body(&self) -> bool {
        self.current_component_path.is_some()
    }

    /// The path of the component whose body is being invoked.
    pub open spec fn current_path(&self) -> PathView {
        self.current_component_path.unwrap()@
    }

    /// Whether the next hook call of the running body finds its slot or can
    /// create it: hook calls come in the same order in every frame.
    pub open spec fn hook_in_order(&self) -> bool {
        self.in_body() && self.current_hook_index <= self.registry.claimed(
            self.current_path(),
        ).hooks.len()
    }

    /// Whether everything but the registry, the hook counter and the current
    /// path is as in `other`.
    pub open spec fn same_surroundings(&self, other: &Self) -> bool {
        &&& self.app_context == other.app_context
        &&& self.app_event_handlers@ == other.app_event_handlers@
        &&& self.dirty == other.dirty
        &&& self.contexts@ == other.contexts@
    }

    /// A driver that has rendered nothing yet.
    pub fn new() -> (r: Self)
        ensures
            r.wf(),
            r.registry.current() == Map::<PathView, InstanceView<V>>::empty(),
            r.registry.previous() == Map::<PathView, InstanceView<V>>::empty(),
            r.app_context.is_none(),
            r.current_hook_index == 0,
            !r.in_body(),
            r.app_event_handlers@.len() == 0,
            !r.dirty.state,
            r.contexts@ == Map::<u64, C>::empty(),
    {
        Appy {
            registry: InstanceRegistry::new(),
            app_context: None,
            current_hook_index: 0,
            current_component_path: None,
            app_event_handlers: Vec::new(),
            dirty: Trigger::new(),
            contexts: ContextRegistry::new(),
        }
    }

    /// Begins a frame: the event handlers and the contexts of the last frame
    /// are forgotten, the dirty flag is lowered, the generations are swapped,
    /// and the application context is provided again.
    pub fn begin_render(&mut self)
        requires
            old(self).wf(),
            old(self).app_context.is_some(),
        ensures
            final(self).wf(),
            final(self).app_event_handlers@.len() == 0,
            final(self).contexts@ == Map::<u64, C>::empty().insert(
                old(self).app_context.unwrap().0,
                old(self).app_context.unwrap().1,
            ),
            !final(self).dirty.state,
            final(self).registry.current() == Map::<PathView, InstanceView<V>>::empty(),
            final(self).registry.previous() == old(self).registry.current(),
            final(self).app_context == old(self).app_context,
            final(self).current_hook_index == old(self).current_hook_index,
            final(self).current_component_path == old(self).current_component_path,
    {
        self.app_event_handlers = Vec::new();
        self.contexts.clear();
        self.dirty.set_state(false);
        self.registry.swap_generations();
        match self.app_context {
            Some((type_id, value)) => {
                self.provide_context(type_id, value);
            },
            None => {},
        }
    }

    /// Ends a frame: the instances that the frame did not visit are dropped.
    /// The result says whether a change was reported during the frame, that
    /// is, whether the host is to schedule another one.
    pub fn end_render(&mut self) -> (redraw: bool)
        requires
            old(self).wf(),
        ensures
            final(self).wf(),
            redraw == old(self).dirty.state,
            final(self).registry.current() == old(self).registry.current(),
            final(self).registry.previous() == Map::<PathView, InstanceView<V>>::empty(),
            final(self).same_surroundings(old(self)),
            final(self).current_hook_index == old(self).current_hook_index,
            final(self).current_component_path == old(self).current_component_path,
    {
        self.registry.finalize();
        self.dirty.get_state()
    }

    /// Enters the component of type `type_id` below `component_path`: its
    /// path is the given one continued by the type. The instance of that path
    /// is fetched or mounted, its pre-render callbacks are handed out for the
    /// host to run, and its body becomes the current one, with the hook
    /// counter at zero. Returns the path and the callbacks.
    pub fn enter_component(&mut self, component_path: &ComponentPath, type_id: u64) -> (r: (
        ComponentPath,
        Vec<u64>,
    ))
        requires
            old(self).wf(),
        ensures
            final(self).wf(),
            r.0@ == component_path@.push(ComponentPathComponent::TypeId(type_id)),
            r.1@ == old(self).registry.claimed(r.0@).pre_render,
            final(self).in_body(),
            final(self).current_path() == r.0@,
            final(self).current_hook_index == 0,
            final(self).registry.current() == old(self).registry.current().insert(
                r.0@,
                (InstanceView { pre_render: Seq::empty(), ..old(self).registry.claimed(r.0@) }),
            ),
            final(self).registry.previous() == old(self).registry.previous().remove(r.0@),
            final(self).same_surroundings(old(self)),
    {
        let this_path = component_path.push(ComponentPathComponent::TypeId(type_id));
        let instance = self.registry.get_or_create(&this_path);
        let due = instance.pre_render();
        self.current_component_path = Some(this_path.clone());
        self.current_hook_index = 0;
        (this_path, due)
    }

    /// Leaves the body that was entered last: no body is current any more,
    /// so that a hook call outside a body is recognised.
    pub fn leave_body(&mut self)
        ensures
            !final(self).in_body(),
            final(self).registry == old(self).registry,
            final(self).current_hook_index == old(self).current_hook_index,
            final(self).same_surroundings(old(self)),
    {
        self.current_component_path = None;
    }

    /// Leaves the component at `path` after its children were rendered: the
    /// post-render callbacks of its instance are handed out for the host to
    /// run.
    pub fn leave_component(&mut self, path: &ComponentPath) -> (due: Vec<u64>)
        requires
            old(self).wf(),
        ensures
            final(self).wf(),
            due@ == old(self).registry.claimed(path@).post_render,
            final(self).registry.current() == old(self).registry.current().insert(
                path@,
                (InstanceView { post_render: Seq::empty(), ..old(self).registry.claimed(path@) }),
            ),
            final(self).registry.previous() == old(self).registry.previous().remove(path@),
            final(self).same_surroundings(old(self)),
            final(self).current_hook_index == old(self).current_hook_index,
            final(self).current_component_path == old(self).current_component_path,
    {
        let instance = self.registry.get_or_create(path);
        instance.post_render()
    }

    /// The instance of the body that is being invoked, for reading and
    /// writing. It is fetched from the frame before if this frame did not
    /// touch it yet, and mounted if neither knows it.
    pub fn with_current_component_instance(&mut self) -> (r: &mut ComponentInstance<V>)
        requires
            old(self).wf(),
            old(self).in_body(),
        ensures
            r@ == old(self).registry.claimed(old(self).current_path()),
            final(self).wf(),
            final(self).registry.current() == old(self).registry.current().insert(
                old(self).current_path(),
                final(r)@,
            ),
            final(self).registry.previous() == old(self).registry.previous().remove(
                old(self).current_path(),
            ),
            final(self).same_surroundings(old(self)),
            final(self).current_hook_index == old(self).current_hook_index,
            final(self).current_component_path == old(self).current_component_path,
    {
        let path = match &self.current_component_path {
            Some(p) => p.clone(),
            None => ComponentPath::new(),
        };
        self.registry.get_or_create(&path)
    }

    /// The next hook of the running body. The first call of a body addresses
    /// slot 0, the next slot 1, and so on. A slot that exists is returned as
    /// it is and `ctor` is not run; the slot after the last is created with
    /// what `ctor` returns.
    ///
    /// A body must call its hooks unconditionally and in the same order in
    /// every frame: slots are told apart by call order alone, so a call that
    /// is skipped hands its slot to the next one.
    pub fn use_hook_ref<F: FnOnce() -> V>(&mut self, ctor: F) -> (r: HookRef)
        requires
            old(self).wf(),
            old(self).hook_in_order(),
            ctor.requires(()),
        ensures
            final(self).wf(),
            r.path@ == old(self).current_path(),
            r.index == old(self).current_hook_index,
            final(self).current_hook_index == old(self).current_hook_index + 1,
            final(self).current_component_path == old(self).current_component_path,
            final(self).hook_in_order(),
            final(self).registry.current().contains_key(r.path@),
            r.index < final(self).registry.current()[r.path@].hooks.len(),
            r.index == old(self).registry.claimed(r.path@).hooks.len() ==> ctor.ensures(
                (),
                final(self).registry.current()[r.path@].hooks[r.index as int],
            ),
            final(self).registry.current()[r.path@] == old(self).registry.claimed(
                r.path@,
            ).with_hook(
                r.index as int,
                final(self).registry.current()[r.path@].hooks[r.index as int],
            ),
            final(self).registry.current() == old(self).registry.current().insert(
                r.path@,
                final(self).registry.current()[r.path@],
            ),
            final(self).registry.previous() == old(self).registry.previous().remove(r.path@),
            final(self).same_surroundings(old(self)),
    {
        let i = self.current_hook_index;
        let t = self.dirty.create_trigger();
        let path = match &self.current_component_path {
            Some(p) => p.clone(),
            None => ComponentPath::new(),
        };
        let instance = self.registry.get_or_create(&path);
        let r = instance.create_hook_ref(path, i, ctor, t);
        let n = instance.hook_count();
        self.current_hook_index = i + 1;
        r
    }

    /// Reads the slot that `hook` is bound to, if the instance is in the
    /// generation of the frame in progress (between frames: of the last one).
    pub fn hook_value(&self, hook: &HookRef) -> (v: Option<&V>)
        requires
            self.wf(),
        ensures
            v.is_some() == (self.registry.current().contains_key(hook.path@) && hook.index
                < self.registry.current()[hook.path@].hooks.len()),
            v.is_some() ==> *v.unwrap() == self.registry.current()[hook.path@].hooks[hook.index as int],
    {
        match self.registry.get(&hook.path) {
            Some(instance) => {
                if hook.index < instance.hook_count() {
                    Some(instance.hook_value(hook.index))
                } else {
                    None
                }
            },
            None => None,
        }
    }

    /// Writes the slot that `hook` is bound to and reports the change: the
    /// dirty flag is raised. Where the slot is gone nothing happens and the
    /// result is `false`.
    pub fn set_hook_value(&mut self, hook: &HookRef, value: V) -> (done: bool)
        requires
            old(self).wf(),
        ensures
            final(self).wf(),
            done == (old(self).registry.current().contains_key(hook.path@) && hook.index < old(self).registry.current()[hook.path@].hooks.len()),
            done ==> final(self).dirty.state && final(self).registry.current() == old(self).registry.current().insert(
                hook.path@,
                (InstanceView {
                    hooks: old(self).registry.current()[hook.path@].hooks.update(
                        hook.index as int,
                        value,
                    ),
                    ..old(self).registry.current()[hook.path@]
                }),
            ),
            !done ==> final(self).dirty == old(self).dirty && final(self).registry.current() == old(self).registry.current(),
            final(self).registry.previous() == old(self).registry.previous(),
            final(self).app_context == old(self).app_context,
            final(self).app_event_handlers@ == old(self).app_event_handlers@,
            final(self).contexts@ == old(self).contexts@,
            final(self).current_hook_index == old(self).current_hook_index,
            final(self).current_component_path == old(self).current_component_path,
    {
        let present = match self.registry.get(&hook.path) {
            Some(instance) => hook.index < instance.hook_count(),
            None => false,
        };
        if present {
            assert(old(self).registry.previous().remove(hook.path@) =~= old(self).registry.previous());
            let instance = self.registry.get_or_create(&hook.path);
            let t = instance.set_hook_value(hook.index, value);
            self.dirty.trigger(&t);
            true
        } else {
            false
        }
    }

    /// Registers `value` under `type_id` for the rest of the frame. A type
    /// can be provided once in a frame.
    pub fn provide_context(&mut self, type_id: u64, value: C)
        requires
            !old(self).contexts@.contains_key(type_id),
        ensures
            final(self).contexts@ == old(self).contexts@.insert(type_id, value),
            final(self).registry == old(self).registry,
            final(self).app_context == old(self).app_context,
            final(self).app_event_handlers@ == old(self).app_event_handlers@,
            final(self).dirty == old(self).dirty,
            final(self).current_hook_index == old(self).current_hook_index,
            final(self).current_component_path == old(self).current_component_path,
    {
        self.contexts.provide(type_id, value);
    }

    /// The context value that was provided under `type_id` in this frame.
    pub fn use_context(&self, type_id: u64) -> (value: C)
        requires
            self.contexts@.contains_key(type_id),
        ensures
            value == self.contexts@[type_id],
    {
        *self.contexts.consume(type_id)
    }

    /// Subscribes the handler `handler` to the host's events until the next
    /// frame begins.
    pub fn add_event_handler(&mut self, handler: u64)
        ensures
            final(self).app_event_handlers@ == old(self).app_event_handlers@.push(handler),
            final(self).registry == old(self).registry,
            final(self).app_context == old(self).app_context,
            final(self).dirty == old(self).dirty,
            final(self).contexts@ == old(self).contexts@,
            final(self).current_hook_index == old(self).current_hook_index,
            final(self).current_component_path == old(self).current_component_path,
    {
        self.app_event_handlers.push(handler);
    }
}

} // verus!
