use vstd::prelude::*;
use crate::entity::EntityId;
use crate::iter::shiperator::{CurrentId, Shiperator};

verus! {

/// Applies `f` to every item that the inner shiperator produces and commits.
pub struct MapIter<I, F> {
    pub iter: I,
    pub f: F,
}

impl<I, F> MapIter<I, F> {
    pub fn new(iter: I, f: F) -> (r: Self)
        ensures
            r.iter == iter,
            r.f == f,
    {
        MapIter { iter, f }
    }
}

impl<I: Shiperator, R, F: Fn(I::Item) -> R> Shiperator for MapIter<I, F> {
    type Item = R;

    open spec fn wf(&self) -> bool {
        self.iter.wf() && forall|x: I::Item| #[trigger] self.f.requires((x,))
    }

    open spec fn size(&self) -> nat {
        self.iter.size()
    }

    open spec fn last_id(&self) -> Option<EntityId> {
        self.iter.last_id()
    }

    /// The inner candidate is committed by the inner `post_process` before
    /// `f` sees it.
    open spec fn first_pass_ens(&self, r: Option<R>, next: Self) -> bool {
        &&& next.f == self.f
        &&& r is None ==> self.iter.first_pass_ens(None, next.iter)
        &&& r matches Some(out) ==> exists|x: I::Item, mid: I, y: I::Item|
            {
                &&& #[trigger] self.iter.first_pass_ens(Some(x), mid)
                &&& #[trigger] mid.post_process_ens(x, y, next.iter)
                &&& next.iter.last_id() == mid.last_id()
                &&& self.f.ensures((y,), out)
            }
    }

    open spec fn post_process_ens(&self, item: R, r: R, next: Self) -> bool {
        r == item && next == *self
    }

    fn first_pass(&mut self) -> (r: Option<R>) {
        match self.iter.first_pass() {
            None => None,
            Some(x) => {
                let ghost gx = x;
                let ghost mid = self.iter;
                let y = self.iter.post_process(x);
                let ghost gy = y;
                let out = (self.f)(y);
                assert(mid.post_process_ens(gx, gy, self.iter));
                Some(out)
            },
        }
    }

    fn post_process(&mut self, item: R) -> (r: R) {
        item
    }
}

impl<I: CurrentId, R, F: Fn(I::Item) -> R> CurrentId for MapIter<I, F> {
    proof fn lemma_produced_has_id(&self, r: Option<R>, next: Self) {
        let out = r->0;
        let (x, mid, y) = choose|x: I::Item, mid: I, y: I::Item|
            {
                &&& #[trigger] self.iter.first_pass_ens(Some(x), mid)
                &&& #[trigger] mid.post_process_ens(x, y, next.iter)
                &&& next.iter.last_id() == mid.last_id()
                &&& self.f.ensures((y,), out)
            };
        self.iter.lemma_produced_has_id(Some(x), mid);
    }

    fn current_id(&self) -> (r: EntityId) {
        self.iter.current_id()
    }
}

} // verus!
