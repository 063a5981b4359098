//! Context values of one frame, each registered under the tag of its type.

use vstd::prelude::*;
use std::collections::HashMap;

verus! {

broadcast use vstd::std_specs::hash::group_hash_axioms;

/// The context values provided so far in the running frame.
pub struct ContextRegistry<C> {
    pub values: HashMap<u64, C>,
}

impl<C> View for ContextRegistry<C> {
    type V = Map<u64, C>;

    open spec fn view(&self) -> Map<u64, C> {
        self.values@
    }
}

impl<C> ContextRegistry<C> {
    /// A registry with nothing provided.
    pub fn new() -> (r: Self)
        ensures
            r@ == Map::<u64, C>::empty(),
    {
        ContextRegistry { values: HashMap::new() }
    }

    /// Forgets every value: the state in which a frame begins.
    pub fn clear(&mut self)
        ensures
            final(self)@ == Map::<u64, C>::empty(),
    {
        self.values.clear();
    }

    /// Whether a value is registered under `type_id`.
    pub fn is_provided(&self, type_id: u64) -> (b: bool)
        ensures
            b == self@.contains_key(type_id),
    {
        self.values.contains_key(&type_id)
    }

    /// Registers `value` under `type_id` for the rest of the frame. A type
    /// that already has a value cannot be provided again.
    pub fn provide(&mut self, type_id: u64, value: C)
        requires
            !old(self)@.contains_key(type_id),
        ensures
            final(self)@ == old(self)@.insert(type_id, value),
    {
        self.values.insert(type_id, value);
    }

    /// The value registered under `type_id`: the very one that was provided.
    pub fn consume(&self, type_id: u64) -> (value: &C)
        requires
            self@.contains_key(type_id),
        ensures
            *value == self@[type_id],
    {
        let found = self.values.get(&type_id);
        found.unwrap()
    }

    /// Registers `value` unless the type has one; says whether it did.
    pub fn try_provide(&mut self, type_id: u64, value: C) -> (done: bool)
        ensures
            done == !old(self)@.contains_key(type_id),
            done ==> final(self)@ == old(self)@.insert(type_id, value),
            !done ==> final(self)@ == old(self)@,
    {
        if self.values.contains_key(&type_id) {
            false
        } else {
            self.values.insert(type_id, value);
            true
        }
    }

    /// The value registered under `type_id`, if there is one.
    pub fn try_consume(&self, type_id: u64) -> (value: Option<&C>)
        ensures
            value.is_some() == self@.contains_key(type_id),
            value.is_some() ==> *value.unwrap() == self@[type_id],
    {
        self.values.get(&type_id)
    }
}

} // verus!
