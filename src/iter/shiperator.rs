use vstd::prelude::*;
use crate::entity::EntityId;

verus! {

/// Two-phase pull iteration: `first_pass` produces a candidate item and
/// `post_process` commits the side effects of an item the caller keeps.
pub trait Shiperator: Sized {
    type Item;

    spec fn wf(&self) -> bool;

    /// Positions left to examine; every produced item consumes at least one.
    spec fn size(&self) -> nat;

    /// Entity of the candidate most recently produced, if any.
    spec fn last_id(&self) -> Option<EntityId>;

    /// What one `first_pass` call from `self` returns and leaves behind.
    spec fn first_pass_ens(&self, r: Option<Self::Item>, next: Self) -> bool;

    /// What one `post_process` call from `self` returns and leaves behind.
    spec fn post_process_ens(&self, item: Self::Item, r: Self::Item, next: Self) -> bool;

    fn first_pass(&mut self) -> (r: Option<Self::Item>)
        requires
            old(self).wf(),
        ensures
            final(self).wf(),
            old(self).first_pass_ens(r, *final(self)),
            r is Some ==> final(self).size() < old(self).size(),
    ;

    fn post_process(&mut self, item: Self::Item) -> (r: Self::Item)
        requires
            old(self).wf(),
        ensures
            final(self).wf(),
            old(self).post_process_ens(item, r, *final(self)),
            final(self).size() == old(self).size(),
            final(self).last_id() == old(self).last_id(),
    ;
}

/// A shiperator that can tell the entity of its last candidate.
pub trait CurrentId: Shiperator {
    /// A produced candidate always has an entity.
    proof fn lemma_produced_has_id(&self, r: Option<Self::Item>, next: Self)
        requires
            self.first_pass_ens(r, next),
            r is Some,
        ensures
            next.last_id() is Some,
    ;

    fn current_id(&self) -> (r: EntityId)
        requires
            self.wf(),
            self.last_id() is Some,
        ensures
            self.last_id() == Some(r),
    ;
}

} // verus!
