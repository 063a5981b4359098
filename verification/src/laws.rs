//! What holds of the engine across hook calls and frames.

use vstd::prelude::*;
use crate::element::{child_index, declare, fragment_paths, node_in, Element};
use crate::instance::InstanceView;
use crate::path::ComponentPathComponent;
use crate::registry::{InstanceRegistry, PathView};
use crate::render::{frame_of, framed_at, path_views, Visit};

verus! {

/// Path stability: two walks of one tree visit the same paths in the same
/// order, whatever the registry held when each began.
pub proof fn law_path_stability<V>(
    root: &Element<V>,
    first: Seq<Visit>,
    second: Seq<Visit>,
)
    requires
        path_views(first) == root.paths(Seq::empty()),
        path_views(second) == root.paths(Seq::empty()),
    ensures
        first.len() == second.len(),
        forall|i: int| 0 <= i < first.len() ==> (#[trigger] first[i]).path@ == second[i].path@,
{
    assert(path_views(first).len() == first.len());
    assert(path_views(second).len() == second.len());
    assert forall|i: int| 0 <= i < first.len() implies (#[trigger] first[i]).path@ == second[i].path@ by {
        assert(path_views(first)[i] == first[i].path@);
        assert(path_views(second)[i] == second[i].path@);
    }
}

/// Hook order: the hook call number `k` of a body addresses slot `k`. The
/// slot holds what it held before the body ran, if it existed, and else the
/// initial value of that very call.
pub proof fn law_hook_order<V>(kept: Seq<V>, declared: Seq<V>, k: int)
    requires
        0 <= k < declared.len(),
    ensures
        k < declare(kept, declared).len(),
        declare(kept, declared)[k] == if k < kept.len() {
            kept[k]
        } else {
            declared[k]
        },
{
}

/// A hook call leaves every slot but a newly created one as it is.
pub proof fn law_hook_call_keeps_slots<V>(instance: InstanceView<V>, index: int, value: V, i: int)
    requires
        0 <= i < instance.hooks.len(),
    ensures
        instance.with_hook(index, value).hooks[i] == instance.hooks[i],
{
}

/// State persistence: a slot that the frame before left at a path holds the
/// same value after a frame that visits the path again.
pub proof fn law_state_persistence<V>(
    before: &InstanceRegistry<V>,
    after: &InstanceRegistry<V>,
    root: &Element<V>,
    p: PathView,
    i: int,
)
    requires
        frame_of(after, before, root),
        root.node_at(Seq::empty(), p).is_some(),
        before.current().contains_key(p),
        0 <= i < before.current()[p].hooks.len(),
    ensures
        after.current().contains_key(p),
        i < after.current()[p].hooks.len(),
        after.current()[p].hooks[i] == before.current()[p].hooks[i],
{
    assert(framed_at(after, before, p, root.node_at(Seq::empty(), p)));
}

/// State persistence across the generations: after the swap that begins a
/// frame, the first visit of a path finds the instance that the frame
/// before left there, and the visit moves it into the new generation.
pub proof fn law_swap_keeps_instances<V>(
    before: &InstanceRegistry<V>,
    begun: &InstanceRegistry<V>,
    p: PathView,
)
    requires
        begun.current() == Map::<PathView, InstanceView<V>>::empty(),
        begun.previous() == before.current(),
        before.current().contains_key(p),
    ensures
        begun.claimed(p) == before.current()[p],
        begun.current().insert(p, begun.claimed(p))[p] == before.current()[p],
        !begun.previous().remove(p).contains_key(p),
{
}

/// State eviction across the generations: a path that a frame did not
/// claim is in neither generation once the frame has ended, so that its next
/// visit mounts a fresh instance.
pub proof fn law_unclaimed_is_dropped<V>(ended: &InstanceRegistry<V>, p: PathView)
    requires
        ended.previous() == Map::<PathView, InstanceView<V>>::empty(),
        !ended.current().contains_key(p),
    ensures
        ended.known(p).is_none(),
        ended.claimed(p) == InstanceView::<V>::fresh(),
{
}

/// State eviction: a path that the tree of a frame does not have has no
/// instance after that frame, and where a later frame has the path again its
/// instance is mounted anew, each hook with the initial value that the
/// element declares.
pub proof fn law_state_eviction<V>(
    before: &InstanceRegistry<V>,
    without: &InstanceRegistry<V>,
    again: &InstanceRegistry<V>,
    cut: &Element<V>,
    full: &Element<V>,
    p: PathView,
)
    requires
        frame_of(without, before, cut),
        frame_of(again, without, full),
        cut.node_at(Seq::empty(), p).is_none(),
        full.node_at(Seq::empty(), p).is_some(),
    ensures
        !without.current().contains_key(p),
        !without.previous().contains_key(p),
        again.current().contains_key(p),
        again.current()[p].hooks == full.node_at(Seq::empty(), p).unwrap().hooks@,
{
    assert(framed_at(without, before, p, cut.node_at(Seq::empty(), p)));
    assert(framed_at(again, without, p, full.node_at(Seq::empty(), p)));
    let n = full.node_at(Seq::empty(), p).unwrap();
    assert(declare(Seq::<V>::empty(), n.hooks@) =~= n.hooks@);
}

/// A frame is a function of the registry it begins with and of its tree:
/// two registries that one frame may leave hold the same instances.
pub proof fn law_frame_is_determined<V>(
    before: &InstanceRegistry<V>,
    one: &InstanceRegistry<V>,
    other: &InstanceRegistry<V>,
    root: &Element<V>,
)
    requires
        frame_of(one, before, root),
        frame_of(other, before, root),
    ensures
        one.current() == other.current(),
        one.previous() == other.previous(),
{
    assert forall|q: PathView| #[trigger]
        one.current().dom().contains(q) == other.current().dom().contains(q) by {
        assert(framed_at(one, before, q, root.node_at(Seq::empty(), q)));
        assert(framed_at(other, before, q, root.node_at(Seq::empty(), q)));
    }
    assert forall|q: PathView| one.current().dom().contains(q) implies #[trigger] one.current()[q]
        == other.current()[q] by {
        assert(framed_at(one, before, q, root.node_at(Seq::empty(), q)));
        assert(framed_at(other, before, q, root.node_at(Seq::empty(), q)));
    }
    assert(one.current() =~= other.current());
}

/// A second frame of the same tree changes nothing: every instance keeps
/// all of its hook slots.
pub proof fn law_frame_is_stable<V>(
    before: &InstanceRegistry<V>,
    first: &InstanceRegistry<V>,
    second: &InstanceRegistry<V>,
    root: &Element<V>,
)
    requires
        frame_of(first, before, root),
        frame_of(second, first, root),
    ensures
        second.current() == first.current(),
{
    assert forall|q: PathView| #[trigger]
        second.current().dom().contains(q) == first.current().dom().contains(q) by {
        assert(framed_at(first, before, q, root.node_at(Seq::empty(), q)));
        assert(framed_at(second, first, q, root.node_at(Seq::empty(), q)));
    }
    assert forall|q: PathView| second.current().dom().contains(q) implies #[trigger] second.current()[q]
        == first.current()[q] by {
        assert(framed_at(first, before, q, root.node_at(Seq::empty(), q)));
        assert(framed_at(second, first, q, root.node_at(Seq::empty(), q)));
    }
    assert(second.current() =~= first.current());
}

/// A frame leaves exactly the paths of its tree in the registry.
pub proof fn law_registry_is_the_tree<V>(
    before: &InstanceRegistry<V>,
    after: &InstanceRegistry<V>,
    root: &Element<V>,
    p: PathView,
)
    requires
        frame_of(after, before, root),
    ensures
        after.current().contains_key(p) == root.node_at(Seq::empty(), p).is_some(),
{
    assert(framed_at(after, before, p, root.node_at(Seq::empty(), p)));
}

/// Where a tree has an element, it has the element above it too: its path
/// less the last position and type. `at` is the path that the tree is
/// rendered at, and `q` lies below it.
pub proof fn law_parent_in_tree<V>(
    e: Element<V>,
    at: PathView,
    q: PathView,
    index: i32,
    type_id: u64,
)
    requires
        q.len() > at.len(),
        e.node_at(
            at,
            q.push(ComponentPathComponent::Index(index)).push(
                ComponentPathComponent::TypeId(type_id),
            ),
        ).is_some(),
    ensures
        e.node_at(at, q).is_some(),
    decreases e,
{
    let b = q.push(ComponentPathComponent::Index(index)).push(
        ComponentPathComponent::TypeId(type_id),
    );
    let here = e.path(at);
    assert(b.take(q.len() as int) =~= q);
    if b != here {
        let j = child_index(here, b).unwrap();
        let child = e.children@[j];
        let at2 = here.push(ComponentPathComponent::Index(j as i32));
        assert(child.node_at(at2, b).is_some());
        child.lemma_node_below(at2, b);
        if q.len() == at.len() + 1 {
            assert(q =~= b.take(here.len() as int));
        } else if q.len() == at.len() + 2 {
            assert(b[q.len() as int] == ComponentPathComponent::Index(index));
        } else {
            law_parent_in_tree(child, at2, q, index, type_id);
            assert(q.take(here.len() as int) =~= b.take(here.len() as int));
            assert(q[here.len() as int] == b[here.len() as int]);
            assert(child_index(here, q) == Some(j));
        }
    }
}

/// Eviction reaches down: where the tree of a frame lacks a path, the
/// registry holds nothing right below that path after the frame, and so
/// nothing anywhere below it.
pub proof fn law_eviction_reaches_down<V>(
    before: &InstanceRegistry<V>,
    after: &InstanceRegistry<V>,
    root: &Element<V>,
    q: PathView,
    index: i32,
    type_id: u64,
)
    requires
        frame_of(after, before, root),
        !after.current().contains_key(q),
    ensures
        !after.current().contains_key(
            q.push(ComponentPathComponent::Index(index)).push(
                ComponentPathComponent::TypeId(type_id),
            ),
        ),
{
    let b = q.push(ComponentPathComponent::Index(index)).push(
        ComponentPathComponent::TypeId(type_id),
    );
    let none = Seq::<ComponentPathComponent>::empty();
    assert(framed_at(after, before, q, root.node_at(none, q)));
    assert(framed_at(after, before, b, root.node_at(none, b)));
    if root.node_at(none, b).is_some() {
        if q.len() > 0 {
            law_parent_in_tree(*root, none, q, index, type_id);
        } else {
            root.lemma_node_below(none, b);
            if b != root.path(none) {
                let j = child_index(root.path(none), b).unwrap();
                root.children@[j].lemma_node_below(
                    root.path(none).push(ComponentPathComponent::Index(j as i32)),
                    b,
                );
            }
        }
    }
}

/// Every path that a walk of a fragment visits is that of an element of
/// the fragment, below the child at whose position it was visited.
pub proof fn lemma_fragment_paths_are_nodes<V>(
    children: Seq<Element<V>>,
    here: PathView,
    n: nat,
    k: int,
)
    requires
        n <= children.len() <= i32::MAX,
        forall|i: int| 0 <= i < children.len() ==> (#[trigger] children[i]).wf(),
        0 <= k < fragment_paths(children, here, n).len(),
    ensures
        node_in(children, here, fragment_paths(children, here, n)[k]).is_some(),
        child_index(here, fragment_paths(children, here, n)[k]).is_some(),
        child_index(here, fragment_paths(children, here, n)[k]).unwrap() < n,
        k >= fragment_paths(children, here, (n - 1) as nat).len() ==> child_index(
            here,
            fragment_paths(children, here, n)[k],
        ) == Some(n - 1),
    decreases children, n,
{
    let earlier = fragment_paths(children, here, (n - 1) as nat);
    if k < earlier.len() {
        lemma_fragment_paths_are_nodes(children, here, (n - 1) as nat, k);
    } else {
        let child = children[n - 1];
        let at = here.push(ComponentPathComponent::Index((n - 1) as i32));
        let q = child.paths(at)[k - earlier.len()];
        lemma_paths_are_nodes(child, at, k - earlier.len());
        child.lemma_node_below(at, q);
        assert(q.take(here.len() as int) =~= q.take(at.len() as int).take(here.len() as int));
        assert(at.take(here.len() as int) =~= here);
        assert(q.take(at.len() as int)[here.len() as int] == q[here.len() as int]);
        assert(child_index(here, q) == Some(n - 1));
    }
}

/// Every path that a walk visits is that of an element of the tree.
pub proof fn lemma_paths_are_nodes<V>(e: Element<V>, at: PathView, k: int)
    requires
        e.wf(),
        0 <= k < e.paths(at).len(),
    ensures
        e.node_at(at, e.paths(at)[k]).is_some(),
        k > 0 ==> e.paths(at)[k].len() > at.len() + 1,
    decreases e.children@, e.children@.len() + 1,
{
    if k > 0 {
        lemma_fragment_paths_are_nodes(e.children@, e.path(at), e.children@.len(), k - 1);
    }
}

/// No two visits of a walk of a fragment have the same path.
pub proof fn lemma_fragment_paths_distinct<V>(
    children: Seq<Element<V>>,
    here: PathView,
    n: nat,
    a: int,
    b: int,
)
    requires
        n <= children.len() <= i32::MAX,
        forall|i: int| 0 <= i < children.len() ==> (#[trigger] children[i]).wf(),
        0 <= a < b < fragment_paths(children, here, n).len(),
    ensures
        fragment_paths(children, here, n)[a] != fragment_paths(children, here, n)[b],
    decreases children, n,
{
    let earlier = fragment_paths(children, here, (n - 1) as nat);
    if b < earlier.len() {
        lemma_fragment_paths_distinct(children, here, (n - 1) as nat, a, b);
    } else if a >= earlier.len() {
        law_paths_distinct(
            children[n - 1],
            here.push(ComponentPathComponent::Index((n - 1) as i32)),
            a - earlier.len(),
            b - earlier.len(),
        );
    } else {
        lemma_fragment_paths_are_nodes(children, here, (n - 1) as nat, a);
        lemma_fragment_paths_are_nodes(children, here, n, b);
    }
}

/// Paths are identities: no two visits of one walk have the same path.
pub proof fn law_paths_distinct<V>(e: Element<V>, at: PathView, a: int, b: int)
    requires
        e.wf(),
        0 <= a < b < e.paths(at).len(),
    ensures
        e.paths(at)[a] != e.paths(at)[b],
    decreases e.children@, e.children@.len() + 1,
{
    if a == 0 {
        lemma_paths_are_nodes(e, at, b);
    } else {
        lemma_fragment_paths_distinct(e.children@, e.path(at), e.children@.len(), a - 1, b - 1);
    }
}

} // verus!
