//! Structural identity of the nodes of a declared tree.

use vstd::prelude::*;

verus! {

/// One step of a path: the position of a node among its siblings, or the
/// identity of the component function that was invoked there.
#[derive(Clone, Copy, Debug, PartialEq, Eq, Structural, Hash)]
pub enum ComponentPathComponent {
    Index(i32),
    TypeId(u64),
}

/// The identity of a node: the steps that lead from the root down to it.
#[derive(Debug, Hash)]
pub struct ComponentPath {
    pub components: Vec<ComponentPathComponent>,
}

impl View for ComponentPath {
    type V = Seq<ComponentPathComponent>;

    open spec fn view(&self) -> Seq<ComponentPathComponent> {
        self.components@
    }
}

impl Clone for ComponentPath {
    fn clone(&self) -> (r: Self)
        ensures
            r@ == self@,
    {
        let mut components: Vec<ComponentPathComponent> = Vec::new();
        let mut i: usize = 0;
        while i < self.components.len()
            invariant
                i <= self.components.len(),
                components@ == self.components@.take(i as int),
            decreases self.components.len() - i,
        {
            components.push(self.components[i]);
            i += 1;
        }
        ComponentPath { components }
    }
}

impl PartialEq for ComponentPath {
    fn eq(&self, other: &ComponentPath) -> (r: bool) {
        self.same(other)
    }
}

impl Eq for ComponentPath {

}

impl vstd::std_specs::cmp::PartialEqSpecImpl for ComponentPath {
    open spec fn obeys_eq_spec() -> bool {
        true
    }

    open spec fn eq_spec(&self, other: &ComponentPath) -> bool {
        self@ == other@
    }
}

impl ComponentPath {
    /// The path of the root: no step at all.
    pub fn new() -> (r: Self)
        ensures
            r@ == Seq::<ComponentPathComponent>::empty(),
    {
        ComponentPath { components: Vec::new() }
    }

    /// Number of steps.
    pub fn len(&self) -> (n: usize)
        ensures
            n == self@.len(),
    {
        self.components.len()
    }

    /// The path that continues this one by `component`; `self` is untouched.
    pub fn push(&self, component: ComponentPathComponent) -> (r: Self)
        ensures
            r@ == self@.push(component),
    {
        let mut r = self.clone();
        r.components.push(component);
        r
    }

    /// Structural equality: the same steps in the same order.
    pub fn same(&self, other: &ComponentPath) -> (b: bool)
        ensures
            b == (self@ == other@),
    {
        if self.components.len() != other.components.len() {
            return false;
        }
        let mut i: usize = 0;
        while i < self.components.len()
            invariant
                i <= self.components.len(),
                self.components.len() == other.components.len(),
                self@.take(i as int) == other@.take(i as int),
            decreases self.components.len() - i,
        {
            if self.components[i] != other.components[i] {
                assert(self@[i as int] != other@[i as int]);
                return false;
            }
            assert(self@.take(i + 1) == self@.take(i as int).push(self@[i as int]));
            assert(other@.take(i + 1) == other@.take(i as int).push(other@[i as int]));
            i += 1;
        }
        assert(self@.take(i as int) == self@);
        assert(other@.take(i as int) == other@);
        true
    }
}

} // verus!
