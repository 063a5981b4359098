//! The walk of a declared tree: one frame of the driver.

use vstd::prelude::*;
use crate::appy::Appy;
use crate::element::{
    child_index, fragment_paths, in_body_of, node_in, rendered, Element, Elements,
};
use crate::instance::InstanceView;
use crate::path::{ComponentPath, ComponentPathComponent};
use crate::registry::{InstanceRegistry, PathView};

verus! {

/// What a walk leaves at path `q`, where `node` is the element that the
/// walked tree has there: the instance of a visited path is in the generation
/// in progress, with the hook slots it had and those that its body declares
/// beyond them, and with its callbacks handed out; a path that the tree does
/// not have is as before.
pub open spec fn walked_at<V>(
    after: &InstanceRegistry<V>,
    before: &InstanceRegistry<V>,
    q: PathView,
    node: Option<Element<V>>,
) -> bool {
    match node {
        Some(n) => {
            &&& after.current().contains_key(q)
            &&& !after.previous().contains_key(q)
            &&& after.current()[q] == rendered(before.claimed(q), n.hooks@)
        },
        None => after.untouched_at(before, q),
    }
}

/// What the host reports to the driver.
#[derive(Clone, Copy, Debug, PartialEq, Eq, Structural)]
pub enum AppEvent {
    /// The window became visible.
    Show,
    /// The window has a new size.
    Resize { width: u32, height: u32 },
    /// A frame is due.
    Render,
    /// Anything else, such as input.
    Other,
}

/// What the host is to do after an event was handled.
#[derive(Debug)]
pub struct Outcome {
    /// The size to give to the application context, after a resize.
    pub resize: Option<(i32, i32)>,
    /// The visits of the frame that was rendered, with the callbacks to run.
    pub visited: Vec<Visit>,
    /// Whether another frame is to be scheduled.
    pub redisplay: bool,
}

/// The instance that the frame before left at `q`, or a fresh one.
pub open spec fn remembered<V>(last: &InstanceRegistry<V>, q: PathView) -> InstanceView<V> {
    if last.current().contains_key(q) {
        last.current()[q]
    } else {
        InstanceView::fresh()
    }
}

/// What a whole frame leaves at path `q`, where `node` is the element that
/// the tree of the frame has there: a visited path has the instance that the
/// frame before left, or a fresh one, with the hooks that its body declares
/// beyond those it had and with its callbacks handed out; any other path has
/// no instance.
pub open spec fn framed_at<V>(
    after: &InstanceRegistry<V>,
    before: &InstanceRegistry<V>,
    q: PathView,
    node: Option<Element<V>>,
) -> bool {
    match node {
        Some(n) => after.current().contains_key(q) && after.current()[q] == rendered(
            remembered(before, q),
            n.hooks@,
        ),
        None => !after.current().contains_key(q),
    }
}

/// Whether `after` is the registry that a frame of the tree below `root`
/// leaves when it begins with `before`.
pub open spec fn frame_of<V>(
    after: &InstanceRegistry<V>,
    before: &InstanceRegistry<V>,
    root: &Element<V>,
) -> bool {
    &&& after.previous() == Map::<PathView, InstanceView<V>>::empty()
    &&& forall|q: PathView|
        framed_at(after, before, q, #[trigger] root.node_at(Seq::empty(), q))
}

/// One visit of a walk: the path of the visited element, and the callbacks
/// of its instance that fell due, those to run before its body and those to
/// run after its children. The host runs them.
#[derive(Debug)]
pub struct Visit {
    pub path: ComponentPath,
    pub pre_render: Vec<u64>,
    pub post_render: Vec<u64>,
}

/// The paths of a list of visits as their models.
pub open spec fn path_views(visits: Seq<Visit>) -> Seq<PathView> {
    Seq::new(visits.len(), |i: int| visits[i].path@)
}

/// Whether the callbacks of `visit` are those that `kept` carried.
pub open spec fn due_from<V>(visit: Visit, kept: InstanceView<V>) -> bool {
    &&& visit.pre_render@ == kept.pre_render
    &&& visit.post_render@ == kept.post_render
}

impl<V: Copy, C: Copy> Appy<V, C> {
    /// Renders `component` below `component_path`, and then its children
    /// below it. The body of a declared element calls one hook for each of
    /// its initial values and registers no callback. Returns the visits in
    /// their order, each with the callbacks that its instance carried when
    /// the walk began.
    pub fn render_component(&mut self, component: &Element<V>, component_path: ComponentPath) -> (visited:
        Vec<Visit>)
        requires
            old(self).wf(),
            component.wf(),
        ensures
            final(self).wf(),
            path_views(visited@) == component.paths(component_path@),
            forall|k: int|
                0 <= k < visited@.len() ==> component.node_at(
                    component_path@,
                    (#[trigger] visited@[k]).path@,
                ).is_some() && due_from(
                    visited@[k],
                    old(self).registry.claimed(visited@[k].path@),
                ),
            forall|q: PathView|
                walked_at(
                    &final(self).registry,
                    &old(self).registry,
                    q,
                    #[trigger] component.node_at(component_path@, q),
                ),
            final(self).same_surroundings(old(self)),
            !final(self).in_body(),
        decreases component,
    {
        let ghost kept = self.registry.claimed(component.path(component_path@));
        let (this_path, pre_render) = self.enter_component(&component_path, component.type_id);
        let ghost base = self.registry.current();
        assert(base.insert(this_path@, in_body_of(kept, component.hooks@.take(0))) =~= base);
        let mut k: usize = 0;
        while k < component.hooks.len()
            invariant
                self.wf(),
                self.in_body(),
                self.current_path() == this_path@,
                self.current_hook_index == k,
                k <= component.hooks@.len(),
                base == old(self).registry.current().insert(
                    this_path@,
                    (InstanceView { pre_render: Seq::empty(), ..kept }),
                ),
                self.registry.current() == base.insert(
                    this_path@,
                    in_body_of(kept, component.hooks@.take(k as int)),
                ),
                self.registry.previous() == old(self).registry.previous().remove(this_path@),
                self.same_surroundings(old(self)),
            decreases component.hooks@.len() - k,
        {
            let value = component.hooks[k];
            let ctor = || -> (v: V)
                ensures
                    v == value,
                { value };
            self.use_hook_ref(ctor);
            proof {
                let after = self.registry.current()[this_path@];
                let declared = component.hooks@;
                assert(declared.take(k + 1) =~= declared.take(k as int).push(declared[k as int]));
                assert(after.hooks =~= in_body_of(kept, declared.take(k + 1)).hooks);
                assert(self.registry.current() =~= base.insert(
                    this_path@,
                    in_body_of(kept, declared.take(k + 1)),
                ));
                assert(self.registry.previous() =~= old(self).registry.previous().remove(
                    this_path@,
                ));
            }
            k += 1;
        }
        assert(component.hooks@.take(k as int) =~= component.hooks@);
        self.leave_body();
        let ghost mid = self.registry;
        let mut below = self.render_fragment(&component.children, this_path.clone());
        let ghost walked = self.registry;
        let post_render = self.leave_component(&this_path);
        let first = Visit { path: this_path, pre_render, post_render };
        let mut visited: Vec<Visit> = Vec::new();
        visited.push(first);
        proof {
            assert(path_views(visited@ + below@) =~= path_views(visited@) + path_views(below@));
            assert(path_views(visited@) =~= seq![first.path@]);
            assert(child_index(first.path@, first.path@).is_none());
            assert(walked_at(
                &walked,
                &mid,
                first.path@,
                node_in(component.children@, first.path@, first.path@),
            ));
            assert forall|k: int| 0 <= k < (visited@ + below@).len() implies component.node_at(
                component_path@,
                (#[trigger] (visited@ + below@)[k]).path@,
            ).is_some() && due_from(
                (visited@ + below@)[k],
                old(self).registry.claimed((visited@ + below@)[k].path@),
            ) by {
                if k > 0 {
                    assert((visited@ + below@)[k] == below@[k - 1]);
                    let q = below@[k - 1].path@;
                    assert(node_in(component.children@, first.path@, q).is_some());
                }
            }
            assert forall|q: PathView|
                walked_at(
                    &self.registry,
                    &old(self).registry,
                    q,
                    #[trigger] component.node_at(component_path@, q),
                ) by {
                let under = node_in(component.children@, first.path@, q);
                assert(walked_at(&walked, &mid, q, under));
            }
        }
        visited.append(&mut below);
        visited
    }

    /// Renders the elements of `fragment`, each at its position below
    /// `component_path`, in order.
    pub fn render_fragment(&mut self, fragment: &Elements<V>, component_path: ComponentPath) -> (visited:
        Vec<Visit>)
        requires
            old(self).wf(),
            fragment@.len() <= i32::MAX,
            forall|i: int| 0 <= i < fragment@.len() ==> (#[trigger] fragment@[i]).wf(),
        ensures
            final(self).wf(),
            path_views(visited@) == fragment_paths(
                fragment@,
                component_path@,
                fragment@.len(),
            ),
            forall|k: int|
                0 <= k < visited@.len() ==> node_in(
                    fragment@,
                    component_path@,
                    (#[trigger] visited@[k]).path@,
                ).is_some() && due_from(
                    visited@[k],
                    old(self).registry.claimed(visited@[k].path@),
                ),
            forall|q: PathView|
                walked_at(
                    &final(self).registry,
                    &old(self).registry,
                    q,
                    #[trigger] node_in(fragment@, component_path@, q),
                ),
            final(self).same_surroundings(old(self)),
            !old(self).in_body() ==> !final(self).in_body(),
        decreases fragment,
    {
        let mut visited: Vec<Visit> = Vec::new();
        assert(path_views(visited@) =~= Seq::<PathView>::empty());
        let mut i: usize = 0;
        while i < fragment.len()
            invariant
                i <= fragment@.len(),
                path_views(visited@) == fragment_paths(fragment@, component_path@, i as nat),
                fragment@.len() <= i32::MAX,
                forall|j: int| 0 <= j < fragment@.len() ==> (#[trigger] fragment@[j]).wf(),
                self.wf(),
                forall|k: int|
                    0 <= k < visited@.len() ==> node_in(
                        fragment@.take(i as int),
                        component_path@,
                        (#[trigger] visited@[k]).path@,
                    ).is_some() && due_from(
                        visited@[k],
                        old(self).registry.claimed(visited@[k].path@),
                    ),
                forall|q: PathView|
                    walked_at(
                        &self.registry,
                        &old(self).registry,
                        q,
                        #[trigger] node_in(fragment@.take(i as int), component_path@, q),
                    ),
                self.same_surroundings(old(self)),
                !old(self).in_body() ==> !self.in_body(),
            decreases fragment@.len() - i,
        {
            let this_path = component_path.push(ComponentPathComponent::Index(i as i32));
            let ghost mid = self.registry;
            let mut below = self.render_component(&fragment[i], this_path);
            proof {
                let here = component_path@;
                let child = fragment@[i as int];
                assert(path_views(visited@ + below@) =~= path_views(visited@) + path_views(
                    below@,
                ));
                assert forall|q: PathView| #[trigger]
                    child.node_at(this_path@, q).is_some() implies child_index(here, q) == Some(
                    i as int,
                ) by {
                    child.lemma_node_below(this_path@, q);
                    assert(q.take(here.len() as int) =~= q.take(this_path@.len() as int).take(
                        here.len() as int,
                    ));
                    assert(this_path@.take(here.len() as int) =~= here);
                    assert(q.take(this_path@.len() as int)[here.len() as int] == q[here.len() as int]);
                }
                assert forall|q: PathView|
                    walked_at(
                        &self.registry,
                        &old(self).registry,
                        q,
                        #[trigger] node_in(fragment@.take(i + 1), here, q),
                    ) by {
                    let done = node_in(fragment@.take(i as int), here, q);
                    let now = child.node_at(this_path@, q);
                    assert(walked_at(&mid, &old(self).registry, q, done));
                    assert(walked_at(&self.registry, &mid, q, now));
                }
                assert forall|k: int| 0 <= k < (visited@ + below@).len() implies node_in(
                    fragment@.take(i + 1),
                    here,
                    (#[trigger] (visited@ + below@)[k]).path@,
                ).is_some() && due_from(
                    (visited@ + below@)[k],
                    old(self).registry.claimed((visited@ + below@)[k].path@),
                ) by {
                    if k < visited@.len() {
                        assert((visited@ + below@)[k] == visited@[k]);
                        let q = visited@[k].path@;
                        assert(node_in(fragment@.take(i as int), here, q).is_some());
                    } else {
                        assert((visited@ + below@)[k] == below@[k - visited@.len()]);
                        let q = below@[k - visited@.len()].path@;
                        assert(child.node_at(this_path@, q).is_some());
                        assert(walked_at(
                            &mid,
                            &old(self).registry,
                            q,
                            node_in(fragment@.take(i as int), here, q),
                        ));
                    }
                }
            }
            visited.append(&mut below);
            i += 1;
        }
        assert(fragment@.take(i as int) =~= fragment@);
        visited
    }

    /// The application context and the tag of its type.
    pub fn with_app_context(&self) -> (r: (u64, C))
        requires
            self.app_context.is_some(),
        ensures
            r == self.app_context.unwrap(),
    {
        match self.app_context {
            Some(context) => context,
            None => vstd::pervasive::unreached(),
        }
    }

    /// One frame: begins it, walks the tree below `root` and ends it.
    /// Afterwards the registry holds exactly the paths of the tree. A path
    /// that the frame before had keeps its hook slots, a new one is mounted
    /// with what its element declares, and what was not visited is gone.
    /// Returns the visits in their order, each with the callbacks that fell
    /// due at it.
    pub fn render(&mut self, root: &Element<V>) -> (visited: Vec<Visit>)
        requires
            old(self).wf(),
            old(self).app_context.is_some(),
            root.wf(),
        ensures
            final(self).wf(),
            path_views(visited@) == root.paths(Seq::empty()),
            forall|k: int|
                0 <= k < visited@.len() ==> due_from(
                    #[trigger] visited@[k],
                    remembered(&old(self).registry, visited@[k].path@),
                ),
            frame_of(&final(self).registry, &old(self).registry, root),
            !final(self).dirty.state,
            !final(self).in_body(),
            final(self).app_context == old(self).app_context,
            final(self).app_event_handlers@.len() == 0,
            final(self).contexts@ == Map::<u64, C>::empty().insert(
                old(self).app_context.unwrap().0,
                old(self).app_context.unwrap().1,
            ),
    {
        self.begin_render();
        let ghost begun = self.registry;
        let visited = self.render_component(root, ComponentPath::new());
        let _ = self.end_render();
        proof {
            assert forall|q: PathView|
                framed_at(
                    &self.registry,
                    &old(self).registry,
                    q,
                    #[trigger] root.node_at(Seq::empty(), q),
                ) by {
                assert(begun.claimed(q) == remembered(&old(self).registry, q));
            }
            assert forall|k: int| 0 <= k < visited@.len() implies due_from(
                #[trigger] visited@[k],
                remembered(&old(self).registry, visited@[k].path@),
            ) by {
                assert(begun.claimed(visited@[k].path@) == remembered(
                    &old(self).registry,
                    visited@[k].path@,
                ));
            }
        }
        visited
    }

    /// Handles one event of the host, after the host has called the
    /// subscribed event handlers with it. The first `Show` adopts
    /// `window_context` as the application context, `Resize` asks the host to
    /// resize that context, `Render` renders one frame of the tree below
    /// `root`; any other event changes nothing. The outcome says whether
    /// another frame is to be scheduled: whether the dirty flag is raised.
    pub fn run(&mut self, event: AppEvent, window_context: (u64, C), root: &Element<V>) -> (outcome:
        Outcome)
        requires
            old(self).wf(),
            event is Resize || event is Render ==> old(self).app_context.is_some(),
            event is Render ==> root.wf(),
        ensures
            final(self).wf(),
            outcome.redisplay == final(self).dirty.state,
            outcome.resize == match event {
                AppEvent::Resize { width, height } => Some((width as i32, height as i32)),
                _ => None::<(i32, i32)>,
            },
            final(self).app_context == if event is Show && old(self).app_context.is_none() {
                Some(window_context)
            } else {
                old(self).app_context
            },
            event is Render ==> {
                &&& !final(self).dirty.state
                &&& !final(self).in_body()
                &&& frame_of(&final(self).registry, &old(self).registry, root)
                &&& path_views(outcome.visited@) == root.paths(Seq::empty())
                &&& forall|k: int|
                    0 <= k < outcome.visited@.len() ==> due_from(
                        #[trigger] outcome.visited@[k],
                        remembered(&old(self).registry, outcome.visited@[k].path@),
                    )
                &&& final(self).app_event_handlers@.len() == 0
                &&& final(self).contexts@ == Map::<u64, C>::empty().insert(
                    old(self).app_context.unwrap().0,
                    old(self).app_context.unwrap().1,
                )
            },
            !(event is Render) ==> {
                &&& outcome.visited@.len() == 0
                &&& final(self).registry == old(self).registry
                &&& final(self).dirty == old(self).dirty
                &&& final(self).contexts@ == old(self).contexts@
                &&& final(self).app_event_handlers@ == old(self).app_event_handlers@
                &&& final(self).current_hook_index == old(self).current_hook_index
                &&& final(self).current_component_path == old(self).current_component_path
            },
    {
        let mut resize: Option<(i32, i32)> = None;
        let mut visited: Vec<Visit> = Vec::new();
        match event {
            AppEvent::Show => {
                if self.app_context.is_none() {
                    self.app_context = Some(window_context);
                }
            },
            AppEvent::Resize { width, height } => {
                resize = Some((width as i32, height as i32));
            },
            AppEvent::Render => {
                visited = self.render(root);
            },
            AppEvent::Other => {},
        }
        Outcome { resize, visited, redisplay: self.dirty.get_state() }
    }
}

} // verus!
