//! The persistent state of one structural identity: its hook slots and the
//! callbacks that run around its rendering.

use vstd::prelude::*;
use crate::path::ComponentPath;
use crate::trigger::TriggerHandle;

verus! {

/// One hook slot: the value that was constructed on first mount, and the
/// handle by which a change of it is reported.
pub struct HookSlot<V> {
    pub value: V,
    pub trigger: TriggerHandle,
}

/// A handle bound to one hook slot of the instance that lives at `path`.
#[derive(Debug)]
pub struct HookRef {
    pub path: ComponentPath,
    pub index: usize,
    pub trigger: TriggerHandle,
}

impl Clone for HookRef {
    fn clone(&self) -> (r: Self)
        ensures
            r.path@ == self.path@,
            r.index == self.index,
            r.trigger == self.trigger,
    {
        HookRef { path: self.path.clone(), index: self.index, trigger: self.trigger }
    }
}

/// What an instance holds, as plain sequences: the values of its hook slots
/// in call order, and its callbacks in the order of their registration.
pub struct InstanceView<V> {
    pub hooks: Seq<V>,
    pub pre_render: Seq<u64>,
    pub post_render: Seq<u64>,
}

impl<V> InstanceView<V> {
    /// An instance as it is on first mount: no slot, no callback.
    pub open spec fn fresh() -> Self {
        InstanceView { hooks: Seq::empty(), pre_render: Seq::empty(), post_render: Seq::empty() }
    }

    /// The instance after a hook call at `index` whose constructor would
    /// give `value`: a slot that exists keeps what it holds, the next slot
    /// is created with `value`.
    pub open spec fn with_hook(self, index: int, value: V) -> Self {
        if index == self.hooks.len() {
            InstanceView { hooks: self.hooks.push(value), ..self }
        } else {
            self
        }
    }
}

/// The state kept for one path. Callbacks are named by the numbers under
/// which the host keeps them.
pub struct ComponentInstance<V> {
    pub hooks: Vec<HookSlot<V>>,
    pub pre_render: Vec<u64>,
    pub post_render: Vec<u64>,
}

impl<V> View for ComponentInstance<V> {
    type V = InstanceView<V>;

    open spec fn view(&self) -> InstanceView<V> {
        InstanceView {
            hooks: Seq::new(self.hooks@.len(), |i: int| self.hooks@[i].value),
            pre_render: self.pre_render@,
            post_render: self.post_render@,
        }
    }
}

impl<V> ComponentInstance<V> {
    /// A freshly mounted instance.
    pub fn new() -> (r: Self)
        ensures
            r@ == InstanceView::<V>::fresh(),
    {
        let r = ComponentInstance { hooks: Vec::new(), pre_render: Vec::new(), post_render: Vec::new() };
        assert(r@.hooks =~= Seq::<V>::empty());
        r
    }

    /// Number of hook slots.
    pub fn hook_count(&self) -> (n: usize)
        ensures
            n == self@.hooks.len(),
    {
        self.hooks.len()
    }

    /// The handle of slot `index`, which is created first if it is the next
    /// one: `ctor` runs then, once, and its result fills the slot. An existing
    /// slot is left as it is and `ctor` is dropped unused.
    pub fn create_hook_ref<F: FnOnce() -> V>(
        &mut self,
        owner: ComponentPath,
        index: usize,
        ctor: F,
        trigger: TriggerHandle,
    ) -> (r: HookRef)
        requires
            index <= old(self)@.hooks.len(),
            ctor.requires(()),
        ensures
            r.path@ == owner@,
            r.index == index,
            index < old(self)@.hooks.len() ==> final(self)@ == old(self)@,
            index == old(self)@.hooks.len() ==> {
                &&& final(self)@.hooks.len() == index + 1
                &&& ctor.ensures((), final(self)@.hooks[index as int])
                &&& final(self)@ == old(self)@.with_hook(
                    index as int,
                    final(self)@.hooks[index as int],
                )
            },
    {
        if index == self.hooks.len() {
            let value = ctor();
            self.hooks.push(HookSlot { value, trigger });
            assert(self@.hooks =~= old(self)@.hooks.push(value));
        } else {
            assert(self@.hooks =~= old(self)@.hooks);
        }
        HookRef { path: owner, index, trigger: self.hooks[index].trigger }
    }

    /// Reads slot `index`.
    pub fn hook_value(&self, index: usize) -> (v: &V)
        requires
            index < self@.hooks.len(),
        ensures
            *v == self@.hooks[index as int],
    {
        &self.hooks[index].value
    }

    /// Overwrites slot `index` and returns the handle to fire for the change.
    pub fn set_hook_value(&mut self, index: usize, value: V) -> (t: TriggerHandle)
        requires
            index < old(self)@.hooks.len(),
        ensures
            final(self)@ == (InstanceView {
                hooks: old(self)@.hooks.update(index as int, value),
                ..old(self)@
            }),
    {
        let t = self.hooks[index].trigger;
        self.hooks.set(index, HookSlot { value, trigger: t });
        assert(self@.hooks =~= old(self)@.hooks.update(index as int, value));
        t
    }

    /// Registers a callback to run before the next rendering of this instance.
    pub fn add_pre_render(&mut self, callback: u64)
        ensures
            final(self)@ == (InstanceView {
                pre_render: old(self)@.pre_render.push(callback),
                ..old(self)@
            }),
    {
        self.pre_render.push(callback);
        assert(self@.hooks =~= old(self)@.hooks);
    }

    /// Registers a callback to run after the children of this instance.
    pub fn add_post_render(&mut self, callback: u64)
        ensures
            final(self)@ == (InstanceView {
                post_render: old(self)@.post_render.push(callback),
                ..old(self)@
            }),
    {
        self.post_render.push(callback);
        assert(self@.hooks =~= old(self)@.hooks);
    }

    /// Hands out the pre-render callbacks in the order of their registration;
    /// none stays registered.
    pub fn pre_render(&mut self) -> (due: Vec<u64>)
        ensures
            due@ == old(self)@.pre_render,
            final(self)@ == (InstanceView { pre_render: Seq::empty(), ..old(self)@ }),
    {
        let mut due: Vec<u64> = Vec::new();
        std::mem::swap(&mut due, &mut self.pre_render);
        assert(self@.hooks =~= old(self)@.hooks);
        assert(self@.pre_render =~= Seq::<u64>::empty());
        due
    }

    /// Hands out the post-render callbacks in the order of their
    /// registration; none stays registered.
    pub fn post_render(&mut self) -> (due: Vec<u64>)
        ensures
            due@ == old(self)@.post_render,
            final(self)@ == (InstanceView { post_render: Seq::empty(), ..old(self)@ }),
    {
        let mut due: Vec<u64> = Vec::new();
        std::mem::swap(&mut due, &mut self.post_render);
        assert(self@.hooks =~= old(self)@.hooks);
        assert(self@.post_render =~= Seq::<u64>::empty());
        due
    }
}

} // verus!
