//! The double-buffered registry of component instances: the generation of the
//! frame that is being rendered, and the one of the frame before it.

use vstd::prelude::*;
use crate::instance::{ComponentInstance, InstanceView};
use crate::path::{ComponentPath, ComponentPathComponent};

verus! {

/// The model of a path.
pub type PathView = Seq<ComponentPathComponent>;

/// One generation as a map from path to instance.
pub type Generation<V> = Map<PathView, InstanceView<V>>;

/// An instance together with the path it lives at.
pub struct Entry<V> {
    pub path: ComponentPath,
    pub instance: ComponentInstance<V>,
}

/// Whether some entry lives at `p`.
pub open spec fn holds<V>(entries: Seq<Entry<V>>, p: PathView) -> bool {
    exists|i: int| 0 <= i < entries.len() && (#[trigger] entries[i]).path@ == p
}

/// The place of the entry that lives at `p`.
pub open spec fn slot_of<V>(entries: Seq<Entry<V>>, p: PathView) -> int {
    choose|i: int| 0 <= i < entries.len() && (#[trigger] entries[i]).path@ == p
}

/// No two entries live at the same path.
pub open spec fn distinct<V>(entries: Seq<Entry<V>>) -> bool {
    forall|i: int, j: int|
        0 <= i < j < entries.len() ==> (#[trigger] entries[i]).path@ != (#[trigger] entries[j]).path@
}

/// The entries read as a map.
pub open spec fn as_map<V>(entries: Seq<Entry<V>>) -> Generation<V> {
    Map::new(|p: PathView| holds(entries, p), |p: PathView| entries[slot_of(entries, p)].instance@)
}

/// In a list without repetition every entry is found at its own place.
pub proof fn lemma_slot<V>(entries: Seq<Entry<V>>, i: int)
    requires
        distinct(entries),
        0 <= i < entries.len(),
    ensures
        holds(entries, entries[i].path@),
        slot_of(entries, entries[i].path@) == i,
        as_map(entries).contains_key(entries[i].path@),
        as_map(entries)[entries[i].path@] == entries[i].instance@,
{
    let p = entries[i].path@;
    assert(holds(entries, p));
    let j = slot_of(entries, p);
    assert(0 <= j < entries.len() && entries[j].path@ == p);
    if j < i {
        assert(entries[j].path@ != entries[i].path@);
    } else if i < j {
        assert(entries[i].path@ != entries[j].path@);
    }
}

/// Appending an entry at an unused path inserts it into the map.
pub proof fn lemma_push<V>(entries: Seq<Entry<V>>, e: Entry<V>)
    requires
        distinct(entries),
        !holds(entries, e.path@),
    ensures
        distinct(entries.push(e)),
        as_map(entries.push(e)) == as_map(entries).insert(e.path@, e.instance@),
{
    let after = entries.push(e);
    assert(distinct(after)) by {
        assert forall|i: int, j: int| 0 <= i < j < after.len() implies (#[trigger] after[i]).path@
            != (#[trigger] after[j]).path@ by {
            if j == entries.len() {
                assert(after[i] == entries[i]);
                if entries[i].path@ == e.path@ {
                    assert(holds(entries, e.path@));
                }
            } else {
                assert(after[i] == entries[i]);
                assert(after[j] == entries[j]);
            }
        }
    }
    assert forall|p: PathView| holds(after, p) == (holds(entries, p) || p == e.path@) by {
        if holds(after, p) {
            let i = slot_of(after, p);
            if i < entries.len() {
                assert(entries[i].path@ == p);
            }
        }
        if holds(entries, p) {
            let i = slot_of(entries, p);
            assert(after[i].path@ == p);
        }
        if p == e.path@ {
            assert(after[entries.len() as int].path@ == p);
        }
    }
    assert forall|p: PathView| holds(after, p) implies #[trigger] as_map(after)[p] == as_map(
        entries,
    ).insert(e.path@, e.instance@)[p] by {
        if p == e.path@ {
            lemma_slot(after, entries.len() as int);
        } else {
            let i = slot_of(entries, p);
            assert(after[i] == entries[i]);
            lemma_slot(after, i);
        }
    }
    assert(as_map(after) =~= as_map(entries).insert(e.path@, e.instance@));
}

/// Moving the last entry into place `i` removes the entry that was there.
pub proof fn lemma_swap_remove<V>(entries: Seq<Entry<V>>, i: int)
    requires
        distinct(entries),
        0 <= i < entries.len(),
    ensures
        distinct(entries.update(i, entries.last()).drop_last()),
        as_map(entries.update(i, entries.last()).drop_last()) == as_map(entries).remove(
            entries[i].path@,
        ),
{
    let gone = entries[i].path@;
    let after = entries.update(i, entries.last()).drop_last();
    let last = entries.len() - 1;
    // where the entry at place `k` of `after` came from
    let origin = |k: int| if k == i { last } else { k };
    assert forall|k: int| 0 <= k < after.len() implies (#[trigger] after[k]) == entries[origin(k)]
        && origin(k) != i by {}
    assert(distinct(after)) by {
        assert forall|a: int, b: int| 0 <= a < b < after.len() implies (#[trigger] after[a]).path@
            != (#[trigger] after[b]).path@ by {
            let oa = origin(a);
            let ob = origin(b);
            assert(after[a] == entries[oa]);
            assert(after[b] == entries[ob]);
            if oa < ob {
                assert(entries[oa].path@ != entries[ob].path@);
            } else {
                assert(entries[ob].path@ != entries[oa].path@);
            }
        }
    }
    assert forall|p: PathView| holds(after, p) == (holds(entries, p) && p != gone) by {
        if holds(after, p) {
            let k = slot_of(after, p);
            assert(after[k] == entries[origin(k)]);
            assert(entries[origin(k)].path@ == p);
            lemma_slot(entries, origin(k));
            lemma_slot(entries, i);
        }
        if holds(entries, p) && p != gone {
            let k = slot_of(entries, p);
            if k == last {
                assert(after[i] == entries[last]);
                assert(after[i].path@ == p);
            } else {
                assert(after[k] == entries[k]);
                assert(after[k].path@ == p);
            }
        }
    }
    assert forall|p: PathView| holds(after, p) implies #[trigger] as_map(after)[p] == as_map(
        entries,
    )[p] by {
        let k = slot_of(after, p);
        assert(after[k] == entries[origin(k)]);
        lemma_slot(after, k);
        lemma_slot(entries, origin(k));
    }
    assert(as_map(after) =~= as_map(entries).remove(gone));
}

/// Replacing the instance of entry `i` overwrites its value in the map.
pub proof fn lemma_update<V>(entries: Seq<Entry<V>>, i: int, e: Entry<V>)
    requires
        distinct(entries),
        0 <= i < entries.len(),
        e.path@ == entries[i].path@,
    ensures
        distinct(entries.update(i, e)),
        as_map(entries.update(i, e)) == as_map(entries).insert(e.path@, e.instance@),
{
    let after = entries.update(i, e);
    assert forall|k: int| 0 <= k < after.len() implies (#[trigger] after[k]).path@
        == entries[k].path@ by {}
    assert(distinct(after)) by {
        assert forall|a: int, b: int| 0 <= a < b < after.len() implies (#[trigger] after[a]).path@
            != (#[trigger] after[b]).path@ by {
            assert(entries[a].path@ != entries[b].path@);
        }
    }
    assert forall|p: PathView| holds(after, p) == holds(entries, p) by {
        if holds(after, p) {
            let k = slot_of(after, p);
            assert(entries[k].path@ == p);
        }
        if holds(entries, p) {
            let k = slot_of(entries, p);
            assert(after[k].path@ == p);
        }
    }
    lemma_slot(entries, i);
    assert forall|p: PathView| holds(after, p) implies #[trigger] as_map(after)[p] == as_map(
        entries,
    ).insert(e.path@, e.instance@)[p] by {
        let k = slot_of(after, p);
        lemma_slot(after, k);
        assert(entries[k].path@ == p);
        lemma_slot(entries, k);
    }
    assert(as_map(after) =~= as_map(entries).insert(e.path@, e.instance@));
}

/// The place of the first entry at `path`, if there is one.
pub fn find<V>(entries: &Vec<Entry<V>>, path: &ComponentPath) -> (r: Option<usize>)
    ensures
        r.is_some() == holds(entries@, path@),
        r.is_some() ==> r.unwrap() < entries@.len() && entries@[r.unwrap() as int].path@ == path@,
        r.is_some() ==> forall|k: int| 0 <= k < r.unwrap() ==> (#[trigger] entries@[k]).path@ != path@,
{
    let mut i: usize = 0;
    while i < entries.len()
        invariant
            i <= entries@.len(),
            forall|k: int| 0 <= k < i ==> (#[trigger] entries@[k]).path@ != path@,
        decreases entries@.len() - i,
    {
        if entries[i].path.same(path) {
            return Some(i);
        }
        i += 1;
    }
    None
}

/// The instances of the frame in progress and those of the frame before.
pub struct InstanceRegistry<V> {
    pub instances: Vec<Entry<V>>,
    pub previous_instances: Vec<Entry<V>>,
}

impl<V> InstanceRegistry<V> {
    /// The generation of the frame in progress.
    pub open spec fn current(&self) -> Generation<V> {
        as_map(self.instances@)
    }

    /// The generation of the frame before, less what was claimed since.
    pub open spec fn previous(&self) -> Generation<V> {
        as_map(self.previous_instances@)
    }

    /// No path occurs twice in a generation, and none in both.
    pub open spec fn wf(&self) -> bool {
        &&& distinct(self.instances@)
        &&& distinct(self.previous_instances@)
        &&& forall|p: PathView| !(holds(self.instances@, p) && holds(self.previous_instances@, p))
    }

    /// The instance that a visit of `p` finds: the one of this frame, else the
    /// one of the frame before; `None` where the path is mounted anew.
    pub open spec fn known(&self, p: PathView) -> Option<InstanceView<V>> {
        if self.current().contains_key(p) {
            Some(self.current()[p])
        } else if self.previous().contains_key(p) {
            Some(self.previous()[p])
        } else {
            None
        }
    }

    /// The instance that a visit of `p` works on: the known one, or a fresh
    /// one where the path is mounted anew.
    pub open spec fn claimed(&self, p: PathView) -> InstanceView<V> {
        match self.known(p) {
            Some(instance) => instance,
            None => InstanceView::fresh(),
        }
    }

    /// Whether `q` is in this registry exactly as it is in `before`.
    pub open spec fn untouched_at(&self, before: &Self, q: PathView) -> bool {
        &&& self.current().contains_key(q) == before.current().contains_key(q)
        &&& self.previous().contains_key(q) == before.previous().contains_key(q)
        &&& self.known(q) == before.known(q)
    }

    /// A registry with two empty generations.
    pub fn new() -> (r: Self)
        ensures
            r.wf(),
            r.current() == Map::<PathView, InstanceView<V>>::empty(),
            r.previous() == Map::<PathView, InstanceView<V>>::empty(),
    {
        let r = InstanceRegistry { instances: Vec::new(), previous_instances: Vec::new() };
        assert(r.current() =~= Map::<PathView, InstanceView<V>>::empty());
        assert(r.previous() =~= Map::<PathView, InstanceView<V>>::empty());
        r
    }

    /// Whether `path` was visited in the frame in progress.
    pub fn contains(&self, path: &ComponentPath) -> (b: bool)
        ensures
            b == self.current().contains_key(path@),
    {
        find(&self.instances, path).is_some()
    }

    /// The instance at `path` in the generation of the frame in progress.
    pub fn get(&self, path: &ComponentPath) -> (r: Option<&ComponentInstance<V>>)
        requires
            self.wf(),
        ensures
            r.is_some() == self.current().contains_key(path@),
            r.is_some() ==> r.unwrap()@ == self.current()[path@],
    {
        match find(&self.instances, path) {
            Some(i) => {
                proof {
                    lemma_slot(self.instances@, i as int);
                }
                Some(&self.instances[i].instance)
            },
            None => None,
        }
    }

    /// Makes sure that `path` has its instance in the generation of the frame
    /// in progress and returns its place there. An instance of the frame
    /// before is moved over, so that it is in one generation only; a path
    /// that neither generation knows is mounted with a fresh instance.
    pub fn claim(&mut self, path: &ComponentPath) -> (i: usize)
        requires
            old(self).wf(),
        ensures
            final(self).wf(),
            i < final(self).instances@.len(),
            final(self).instances@[i as int].path@ == path@,
            final(self).current().contains_key(path@),
            final(self).current() == old(self).current().insert(path@, old(self).claimed(path@)),
            final(self).previous() == old(self).previous().remove(path@),
    {
        match find(&self.instances, path) {
            Some(i) => {
                proof {
                    lemma_slot(self.instances@, i as int);
                    assert(!holds(self.previous_instances@, path@));
                    assert(self.current() =~= self.current().insert(path@, self.current()[path@]));
                    assert(self.previous() =~= self.previous().remove(path@));
                }
                i
            },
            None => {
                let instance = match find(&self.previous_instances, path) {
                    Some(j) => {
                        proof {
                            lemma_slot(self.previous_instances@, j as int);
                            lemma_swap_remove(self.previous_instances@, j as int);
                        }
                        self.previous_instances.swap_remove(j).instance
                    },
                    None => {
                        proof {
                            assert(self.previous() =~= self.previous().remove(path@));
                        }
                        ComponentInstance::new()
                    },
                };
                let entry = Entry { path: path.clone(), instance };
                proof {
                    lemma_push(self.instances@, entry);
                }
                self.instances.push(entry);
                proof {
                    lemma_slot(self.instances@, self.instances@.len() - 1);
                    assert forall|p: PathView|
                        !(holds(self.instances@, p) && holds(self.previous_instances@, p)) by {
                        assert(self.current().contains_key(p) == holds(self.instances@, p));
                        assert(self.previous().contains_key(p) == holds(
                            self.previous_instances@,
                            p,
                        ));
                        assert(old(self).current().contains_key(p) == holds(
                            old(self).instances@,
                            p,
                        ));
                        assert(old(self).previous().contains_key(p) == holds(
                            old(self).previous_instances@,
                            p,
                        ));
                    }
                }
                self.instances.len() - 1
            },
        }
    }

    /// The instance of `path` in the generation of the frame in progress,
    /// for reading and writing: the one that is there already, else the one
    /// of the frame before, moved over, else a fresh one.
    pub fn get_or_create(&mut self, path: &ComponentPath) -> (r: &mut ComponentInstance<V>)
        requires
            old(self).wf(),
        ensures
            r@ == old(self).claimed(path@),
            final(self).wf(),
            final(self).current() == old(self).current().insert(path@, final(r)@),
            final(self).previous() == old(self).previous().remove(path@),
    {
        let i = self.claim(path);
        let ghost claimed = self.instances@;
        let r = &mut self.instances[i].instance;
        proof {
            let e = Entry { path: claimed[i as int].path, instance: *final(r) };
            lemma_slot(claimed, i as int);
            lemma_update(claimed, i as int, e);
            assert(as_map(claimed).insert(path@, final(r)@) =~= old(self).current().insert(
                path@,
                final(r)@,
            ));
            assert forall|p: PathView| holds(claimed.update(i as int, e), p) implies holds(
                claimed,
                p,
            ) by {
                assert(as_map(claimed.update(i as int, e)).contains_key(p));
            }
        }
        r
    }

    /// Begins a frame: what was rendered last becomes the generation before,
    /// and the generation in progress starts empty.
    pub fn swap_generations(&mut self)
        requires
            old(self).wf(),
        ensures
            final(self).wf(),
            final(self).current() == Map::<PathView, InstanceView<V>>::empty(),
            final(self).previous() == old(self).current(),
    {
        let mut fresh: Vec<Entry<V>> = Vec::new();
        std::mem::swap(&mut fresh, &mut self.instances);
        self.previous_instances = fresh;
        assert(self.current() =~= Map::<PathView, InstanceView<V>>::empty());
    }

    /// Ends a frame: whatever of the generation before was not claimed is
    /// dropped.
    pub fn finalize(&mut self)
        requires
            old(self).wf(),
        ensures
            final(self).wf(),
            final(self).current() == old(self).current(),
            final(self).previous() == Map::<PathView, InstanceView<V>>::empty(),
    {
        self.previous_instances = Vec::new();
        assert(self.previous() =~= Map::<PathView, InstanceView<V>>::empty());
    }
}

} // verus!
