//! The declared tree of one frame, and what a walk of it means for the
//! registry.

use vstd::prelude::*;
use crate::instance::InstanceView;
use crate::path::ComponentPathComponent;
use crate::registry::PathView;

verus! {

/// One invocation of a component, as its body declares it: the type of the
/// component, the initial value of each hook that the body calls, in call
/// order, and the elements that the body returns.
pub struct Element<V> {
    pub type_id: u64,
    pub hooks: Vec<V>,
    pub children: Vec<Element<V>>,
}

/// The elements that a body returns.
pub type Elements<V> = Vec<Element<V>>;

/// The hook values of an instance after a body that declares `declared` ran
/// on an instance that held `kept`: what was kept stays, and the slots that
/// were missing are filled with their initial values.
pub open spec fn declare<V>(kept: Seq<V>, declared: Seq<V>) -> Seq<V> {
    if kept.len() >= declared.len() {
        kept
    } else {
        kept + declared.subrange(kept.len() as int, declared.len() as int)
    }
}

/// The instance while a body that declares `declared` runs on it: its
/// pre-render callbacks were handed out on entry.
pub open spec fn in_body_of<V>(instance: InstanceView<V>, declared: Seq<V>) -> InstanceView<V> {
    InstanceView {
        hooks: declare(instance.hooks, declared),
        pre_render: Seq::empty(),
        post_render: instance.post_render,
    }
}

/// The instance after the visit of an element that declares `declared`:
/// its callbacks were handed out, those due before the body on entry and
/// those due after the children on leaving.
pub open spec fn rendered<V>(instance: InstanceView<V>, declared: Seq<V>) -> InstanceView<V> {
    InstanceView {
        hooks: declare(instance.hooks, declared),
        pre_render: Seq::empty(),
        post_render: Seq::empty(),
    }
}

/// The sibling position that `q` names right below `here`, if `q` lies
/// below `here` at all.
pub open spec fn child_index(here: PathView, q: PathView) -> Option<int> {
    if q.len() > here.len() && q.take(here.len() as int) == here {
        match q[here.len() as int] {
            ComponentPathComponent::Index(i) => if i >= 0 {
                Some(i as int)
            } else {
                None
            },
            ComponentPathComponent::TypeId(_) => None,
        }
    } else {
        None
    }
}

/// The element among `children`, rendered below `here`, or below it, whose
/// path is `q`.
pub open spec fn node_in<V>(children: Seq<Element<V>>, here: PathView, q: PathView) -> Option<
    Element<V>,
> {
    match child_index(here, q) {
        Some(i) => if i < children.len() {
            children[i].node_at(here.push(ComponentPathComponent::Index(i as i32)), q)
        } else {
            None
        },
        None => None,
    }
}

/// The paths that a walk of the first `n` of `children` visits below `here`,
/// in the order of the visits.
pub open spec fn fragment_paths<V>(children: Seq<Element<V>>, here: PathView, n: nat) -> Seq<
    PathView,
>
    decreases children, n,
{
    if n == 0 || n > children.len() {
        Seq::empty()
    } else {
        fragment_paths(children, here, (n - 1) as nat) + children[n - 1].paths(
            here.push(ComponentPathComponent::Index((n - 1) as i32)),
        )
    }
}

impl<V> Element<V> {
    /// The paths that a walk of this tree visits where it is rendered at
    /// `at`, in the order of the visits: the element first, then its children
    /// from first to last, each with all that is below it.
    pub open spec fn paths(self, at: PathView) -> Seq<PathView>
        decreases self.children@, self.children@.len() + 1,
    {
        seq![self.path(at)] + fragment_paths(
            self.children@,
            self.path(at),
            self.children@.len(),
        )
    }

    /// Sibling positions fit the type that a path holds them in.
    pub open spec fn wf(self) -> bool
        decreases self,
    {
        &&& self.children@.len() <= i32::MAX
        &&& forall|i: int| 0 <= i < self.children@.len() ==> (#[trigger] self.children@[i]).wf()
    }

    /// The path of this element where its parent fragment is rendered at
    /// `at`.
    pub open spec fn path(self, at: PathView) -> PathView {
        at.push(ComponentPathComponent::TypeId(self.type_id))
    }

    /// The element of this tree, rendered at `at`, whose path is `q`.
    pub open spec fn node_at(self, at: PathView, q: PathView) -> Option<Element<V>>
        decreases self,
    {
        let here = self.path(at);
        if q == here {
            Some(self)
        } else {
            match child_index(here, q) {
                Some(i) => if i < self.children@.len() {
                    self.children@[i].node_at(
                        here.push(ComponentPathComponent::Index(i as i32)),
                        q,
                    )
                } else {
                    None
                },
                None => None,
            }
        }
    }

    /// A path of this tree continues the path that the tree is rendered at.
    pub proof fn lemma_node_below(self, at: PathView, q: PathView)
        requires
            self.node_at(at, q).is_some(),
        ensures
            q.len() > at.len(),
            q.take(at.len() as int) == at,
            q[at.len() as int] == ComponentPathComponent::TypeId(self.type_id),
    {
        let here = self.path(at);
        if q == here {
            assert(q.take(at.len() as int) =~= at);
        } else {
            assert(child_index(here, q).is_some());
            assert(q.take(at.len() as int) =~= q.take(here.len() as int).take(at.len() as int));
            assert(here.take(at.len() as int) =~= at);
            assert(q.take(here.len() as int)[at.len() as int] == q[at.len() as int]);
        }
    }
}

} // verus!
