use vstd::prelude::*;
use crate::entity::EntityId;
use crate::iter::shiperator::{CurrentId, Shiperator};

verus! {

/// Pairs every item with the entity it belongs to, read before the item is
/// committed.
pub struct WithId<I> {
    pub iter: I,
}

impl<I> WithId<I> {
    pub fn new(iter: I) -> (r: Self)
        ensures
            r.iter == iter,
    {
        WithId { iter }
    }
}

impl<I: CurrentId> Shiperator for WithId<I> {
    type Item = (EntityId, I::Item);

    open spec fn wf(&self) -> bool {
        self.iter.wf()
    }

    open spec fn size(&self) -> nat {
        self.iter.size()
    }

    open spec fn last_id(&self) -> Option<EntityId> {
        self.iter.last_id()
    }

    open spec fn first_pass_ens(&self, r: Option<(EntityId, I::Item)>, next: Self) -> bool {
        &&& r is None ==> self.iter.first_pass_ens(None, next.iter)
        &&& r matches Some((id, x)) ==> self.iter.first_pass_ens(Some(x), next.iter)
            && next.iter.last_id() == Some(id)
    }

    open spec fn post_process_ens(
        &self,
        item: (EntityId, I::Item),
        r: (EntityId, I::Item),
        next: Self,
    ) -> bool {
        r.0 == item.0 && self.iter.post_process_ens(item.1, r.1, next.iter)
    }

    fn first_pass(&mut self) -> (r: Option<(EntityId, I::Item)>) {
        let ghost pre = self.iter;
        match self.iter.first_pass() {
            None => None,
            Some(x) => {
                proof {
                    pre.lemma_produced_has_id(Some(x), self.iter);
                }
                Some((self.iter.current_id(), x))
            },
        }
    }

    fn post_process(&mut self, item: (EntityId, I::Item)) -> (r: (EntityId, I::Item)) {
        let (id, x) = item;
        let x = self.iter.post_process(x);
        (id, x)
    }
}

impl<I: CurrentId> CurrentId for WithId<I> {
    proof fn lemma_produced_has_id(&self, r: Option<(EntityId, I::Item)>, next: Self) {
    }

    fn current_id(&self) -> (r: EntityId) {
        self.iter.current_id()
    }
}

} // verus!
