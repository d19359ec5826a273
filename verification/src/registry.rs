//! The surfaces there are, and the order in which they are stacked.

use vstd::prelude::*;
use std::collections::HashMap;
use crate::protocol::{SurfaceId, NULL_SURFACE};
use crate::surface::Surface;

verus! {

broadcast use vstd::std_specs::hash::group_hash_axioms;

/// The surfaces in the order of their making, the stacking order from bottom
/// to top, and what is kept of each surface.
#[verifier::ext_equal]
pub struct Registry {
    pub live: Seq<SurfaceId>,
    pub stack: Seq<SurfaceId>,
    pub surfaces: Map<SurfaceId, Surface>,
}

/// Whether something is another than this one.
pub open spec fn other_than(id: u64) -> spec_fn(u64) -> bool {
    |x: u64| x != id
}

/// All but `id`.
pub open spec fn without(ids: Seq<SurfaceId>, id: SurfaceId) -> Seq<SurfaceId> {
    ids.filter(other_than(id))
}

impl Registry {
    pub open spec fn empty() -> Registry {
        Registry { live: Seq::empty(), stack: Seq::empty(), surfaces: Map::empty() }
    }

    /// No surface is listed twice or is null, exactly the listed ones are kept,
    /// and only those are stacked.
    pub open spec fn wf(self) -> bool {
        &&& self.live.no_duplicates()
        &&& forall|id: SurfaceId| #[trigger]
            self.surfaces.contains_key(id) <==> self.live.contains(id)
        &&& !self.surfaces.contains_key(NULL_SURFACE)
        &&& forall|i: int|
            0 <= i < self.stack.len() ==> self.surfaces.contains_key(#[trigger] self.stack[i])
        &&& forall|id: SurfaceId| #[trigger]
            self.surfaces.contains_key(id) ==> self.surfaces[id].wf()
    }

    /// The main surface is the bottom-most one.
    pub open spec fn bottom(self) -> Option<SurfaceId> {
        if self.stack.len() > 0 {
            Some(self.stack[0])
        } else {
            None
        }
    }

    pub open spec fn has(self, id: SurfaceId) -> bool {
        self.surfaces.contains_key(id)
    }

    pub open spec fn put(self, id: SurfaceId, s: Surface) -> Registry {
        Registry { surfaces: self.surfaces.insert(id, s), ..self }
    }

    pub open spec fn added(self, id: SurfaceId, s: Surface) -> Registry {
        Registry { live: self.live.push(id), surfaces: self.surfaces.insert(id, s), ..self }
    }

    pub open spec fn removed(self, id: SurfaceId) -> Registry {
        Registry {
            live: without(self.live, id),
            stack: without(self.stack, id),
            surfaces: self.surfaces.remove(id),
        }
    }

    pub open spec fn unstacked(self) -> Registry {
        Registry { stack: Seq::empty(), ..self }
    }

    pub open spec fn stacked(self, id: SurfaceId) -> Registry {
        Registry { stack: self.stack.push(id), ..self }
    }
}

/// The surfaces and their stacking order.
pub struct SurfaceStack {
    pub(crate) live: Vec<SurfaceId>,
    pub(crate) stack: Vec<SurfaceId>,
    pub(crate) entries: HashMap<SurfaceId, Surface>,
}

impl View for SurfaceStack {
    type V = Registry;

    open(crate) spec fn view(&self) -> Registry {
        Registry { live: self.live@, stack: self.stack@, surfaces: self.entries@ }
    }
}

proof fn lemma_without(ids: Seq<SurfaceId>, id: SurfaceId)
    ensures
        ids.no_duplicates() ==> without(ids, id).no_duplicates(),
        forall|x: SurfaceId| #[trigger]
            without(ids, id).contains(x) <==> ids.contains(x) && x != id,
    decreases ids.len(),
{
    broadcast use vstd::seq_lib::group_filter_ensures;

    reveal(Seq::filter);
    if ids.len() > 0 {
        lemma_without(ids.drop_last(), id);
        let front = without(ids.drop_last(), id);
        assert(ids =~= ids.drop_last().push(ids.last()));
        assert forall|x: SurfaceId| #[trigger] without(ids, id).contains(x) <==> ids.contains(x)
            && x != id by {
            if without(ids, id).contains(x) {
                let k = choose|k: int|
                    0 <= k < without(ids, id).len() && without(ids, id)[k] == x;
                if k < front.len() {
                    assert(front[k] == x);
                    assert(front.contains(x));
                }
            }
            if ids.contains(x) && x != id {
                let k = choose|k: int| 0 <= k < ids.len() && ids[k] == x;
                if k < ids.len() - 1 {
                    assert(ids.drop_last()[k] == x);
                    assert(ids.drop_last().contains(x));
                    assert(front.contains(x));
                    let j = choose|j: int| 0 <= j < front.len() && front[j] == x;
                    assert(without(ids, id)[j] == x);
                } else {
                    assert(without(ids, id)[front.len() as int] == x);
                }
            }
        }
        if ids.no_duplicates() {
            assert(ids.drop_last().no_duplicates());
            if ids.last() != id {
                assert(without(ids, id) =~= front.push(ids.last()));
                assert(!front.contains(ids.last())) by {
                    if front.contains(ids.last()) {
                        assert(ids.drop_last().contains(ids.last()));
                        let k = choose|k: int|
                            0 <= k < ids.drop_last().len() && ids.drop_last()[k] == ids.last();
                        assert(ids[k] == ids[ids.len() - 1]);
                    }
                }
                assert forall|i: int, j: int|
                    0 <= i < without(ids, id).len() && 0 <= j < without(ids, id).len() && i
                        != j implies without(ids, id)[i] != without(ids, id)[j] by {
                    if i < front.len() && j < front.len() {
                        assert(front[i] != front[j]);
                    } else if i < front.len() {
                        assert(front.contains(front[i]));
                    } else {
                        assert(front.contains(front[j]));
                    }
                }
            }
        }
    }
}

/// Taking a surface out keeps the registry in order.
pub proof fn lemma_removed_wf(r: Registry, id: SurfaceId)
    requires
        r.wf(),
    ensures
        r.removed(id).wf(),
{
    lemma_without(r.live, id);
    lemma_without(r.stack, id);
    let n = r.removed(id);
    assert forall|i: int| 0 <= i < n.stack.len() implies n.surfaces.contains_key(
        #[trigger] n.stack[i],
    ) by {
        assert(n.stack.contains(n.stack[i]));
        assert(r.stack.contains(n.stack[i]));
    }
}

fn drop_id(ids: &Vec<SurfaceId>, id: SurfaceId) -> (r: Vec<SurfaceId>)
    ensures
        r@ == without(ids@, id),
{
    let mut r: Vec<SurfaceId> = Vec::new();
    let mut i: usize = 0;
    reveal(Seq::filter);
    assert(ids@.take(0) =~= Seq::<SurfaceId>::empty());
    while i < ids.len()
        invariant
            i <= ids.len(),
            r@ == without(ids@.take(i as int), id),
        decreases ids.len() - i,
    {
        proof {
            reveal(Seq::filter);
            assert(ids@.take(i + 1).drop_last() =~= ids@.take(i as int));
        }
        if ids[i] != id {
            r.push(ids[i]);
        }
        i = i + 1;
    }
    assert(ids@.take(ids@.len() as int) =~= ids@);
    r
}

impl SurfaceStack {
    pub fn new() -> (r: SurfaceStack)
        ensures
            r@ == Registry::empty(),
            r@.wf(),
    {
        let r = SurfaceStack { live: Vec::new(), stack: Vec::new(), entries: HashMap::new() };
        assert(r@ =~= Registry::empty());
        r
    }

    /// The surfaces in the order of their making.
    pub fn live(&self) -> (r: &Vec<SurfaceId>)
        ensures
            r@ == self@.live,
    {
        &self.live
    }

    /// The stacking order from bottom to top.
    pub fn stack(&self) -> (r: &Vec<SurfaceId>)
        ensures
            r@ == self@.stack,
    {
        &self.stack
    }

    pub fn is_live(&self, id: SurfaceId) -> (r: bool)
        ensures
            r == self@.has(id),
    {
        self.entries.contains_key(&id)
    }

    /// The bottom-most surface of the stack.
    pub fn main(&self) -> (r: Option<SurfaceId>)
        ensures
            r == self@.bottom(),
    {
        if self.stack.len() > 0 {
            Some(self.stack[0])
        } else {
            None
        }
    }

    pub fn is_main(&self, id: SurfaceId) -> (r: bool)
        ensures
            r == (self@.bottom() == Some(id)),
    {
        match self.main() {
            Some(m) => m == id,
            None => false,
        }
    }

    pub fn get(&self, id: SurfaceId) -> (r: Surface)
        requires
            self@.has(id),
        ensures
            r == self@.surfaces[id],
    {
        *self.entries.get(&id).unwrap()
    }

    pub(crate) fn put(&mut self, id: SurfaceId, s: Surface)
        requires
            old(self)@.wf(),
            old(self)@.has(id),
            s.wf(),
        ensures
            final(self)@ == old(self)@.put(id, s),
            final(self)@.wf(),
    {
        self.entries.insert(id, s);
        assert(self@ =~= old(self)@.put(id, s));
    }

    pub(crate) fn add_live(&mut self, id: SurfaceId, s: Surface)
        requires
            old(self)@.wf(),
            !old(self)@.has(id),
            id != NULL_SURFACE,
            s.wf(),
        ensures
            final(self)@ == old(self)@.added(id, s),
            final(self)@.wf(),
    {
        self.live.push(id);
        self.entries.insert(id, s);
        assert(self@ =~= old(self)@.added(id, s));
        assert forall|x: SurfaceId| #[trigger]
            self@.surfaces.contains_key(x) <==> self@.live.contains(x) by {
            let was = old(self)@;
            assert(was.surfaces.contains_key(x) <==> was.live.contains(x));
            if was.live.contains(x) {
                let k = choose|k: int| 0 <= k < was.live.len() && was.live[k] == x;
                assert(self@.live[k] == x);
            }
            if x == id {
                assert(self@.live[was.live.len() as int] == x);
            }
        }
        assert(self@.live.no_duplicates()) by {
            let was = old(self)@;
            assert forall|i: int, j: int|
                0 <= i < self@.live.len() && 0 <= j < self@.live.len() && i
                    != j implies self@.live[i] != self@.live[j] by {
                if i < was.live.len() {
                    assert(was.live.contains(was.live[i]));
                }
                if j < was.live.len() {
                    assert(was.live.contains(was.live[j]));
                }
                assert(was.surfaces.contains_key(id) <==> was.live.contains(id));
            }
        }
    }

    /// Forgets a surface: it is neither live nor stacked any more.
    pub(crate) fn remove(&mut self, id: SurfaceId)
        requires
            old(self)@.wf(),
        ensures
            final(self)@ == old(self)@.removed(id),
            final(self)@.wf(),
    {
        self.live = drop_id(&self.live, id);
        self.stack = drop_id(&self.stack, id);
        self.entries.remove(&id);
        assert(self@ =~= old(self)@.removed(id));
        proof {
            lemma_removed_wf(old(self)@, id);
        }
    }

    /// Forgets all surfaces.
    pub(crate) fn clear(&mut self)
        ensures
            final(self)@ == Registry::empty(),
            final(self)@.wf(),
    {
        self.live.clear();
        self.stack.clear();
        self.entries.clear();
        assert(self@ =~= Registry::empty());
    }

    pub(crate) fn clear_stack(&mut self)
        requires
            old(self)@.wf(),
        ensures
            final(self)@ == old(self)@.unstacked(),
            final(self)@.wf(),
    {
        self.stack.clear();
        assert(self@ =~= old(self)@.unstacked());
    }

    pub(crate) fn push_stack(&mut self, id: SurfaceId)
        requires
            old(self)@.wf(),
            old(self)@.has(id),
        ensures
            final(self)@ == old(self)@.stacked(id),
            final(self)@.wf(),
    {
        self.stack.push(id);
        assert(self@ =~= old(self)@.stacked(id));
    }
}

} // verus!
