use vstd::prelude::*;
use crate::entity::EntityId;
use crate::error::AddComponent;
use crate::storage::Storage;

verus! {

/// Registry of entity slots. A slot holds the generation of its current or
/// last entity and whether that entity is alive. Deleting an entity moves its
/// slot to the next generation, so the deleted id never becomes alive again;
/// a slot whose generation cannot grow further is never reused.
pub struct Entities {
    generation: Vec<u64>,
    alive: Vec<bool>,
}

impl Entities {
    pub closed spec fn generations(&self) -> Seq<u64> {
        self.generation@
    }

    pub closed spec fn alive_flags(&self) -> Seq<bool> {
        self.alive@
    }

    pub open spec fn wf(&self) -> bool {
        self.generations().len() == self.alive_flags().len()
    }

    pub open spec fn is_alive(&self, e: EntityId) -> bool {
        &&& e.index < self.generations().len()
        &&& self.alive_flags()[e.index as int]
        &&& self.generations()[e.index as int] == e.generation
    }

    /// A slot that a new entity may take.
    pub open spec fn reusable(&self, i: int) -> bool {
        !self.alive_flags()[i] && self.generations()[i] < u64::MAX
    }

    pub fn new() -> (r: Self)
        ensures
            r.wf(),
            r.generations().len() == 0,
    {
        Entities { generation: Vec::new(), alive: Vec::new() }
    }

    pub fn is_alive_exec(&self, e: EntityId) -> (r: bool)
        requires
            self.wf(),
        ensures
            r == self.is_alive(e),
    {
        e.index < self.generation.len() && self.alive[e.index] && self.generation[e.index]
            == e.generation
    }

    /// Creates an entity in the first reusable slot, or in a new one.
    pub fn new_entity(&mut self) -> (r: EntityId)
        requires
            old(self).wf(),
            old(self).generations().len() < usize::MAX,
        ensures
            final(self).wf(),
            final(self).is_alive(r),
            !old(self).is_alive(r),
            forall|x: EntityId| x != r ==> #[trigger] final(self).is_alive(x) == old(self).is_alive(
                x,
            ),
            forall|i: int|
                0 <= i < old(self).generations().len() ==> #[trigger] final(self).generations()[i]
                    >= old(self).generations()[i],
    {
        let mut i: usize = 0;
        while i < self.generation.len()
            invariant
                self.wf(),
                *self == *old(self),
                i <= self.generations().len(),
                forall|k: int| 0 <= k < i ==> !#[trigger] self.reusable(k),
            decreases self.generations().len() - i,
        {
            if !self.alive[i] && self.generation[i] < u64::MAX {
                let generation = self.generation[i] + 1;
                self.generation.set(i, generation);
                self.alive.set(i, true);
                return EntityId { index: i, generation };
            }
            i = i + 1;
        }
        let index = self.generation.len();
        self.generation.push(0);
        self.alive.push(true);
        EntityId { index, generation: 0 }
    }

    /// Deletes `e`; returns whether it was alive.
    pub fn delete(&mut self, e: EntityId) -> (r: bool)
        requires
            old(self).wf(),
        ensures
            final(self).wf(),
            r == old(self).is_alive(e),
            !final(self).is_alive(e),
            forall|x: EntityId| x != e ==> #[trigger] final(self).is_alive(x) == old(self).is_alive(
                x,
            ),
            forall|i: int|
                0 <= i < old(self).generations().len() ==> #[trigger] final(self).generations()[i]
                    >= old(self).generations()[i],
            final(self).generations().len() == old(self).generations().len(),
    {
        if self.is_alive_exec(e) {
            self.alive.set(e.index, false);
            true
        } else {
            false
        }
    }
}

/// Gives `e` the component `v` in `storage`, refused where `e` is not alive.
pub fn add_component<T>(entities: &Entities, storage: &mut Storage<T>, e: EntityId, v: T) -> (r:
    Result<(), AddComponent>)
    requires
        entities.wf(),
        old(storage).wf(),
    ensures
        final(storage).wf(),
        !entities.is_alive(e) ==> r == Err::<(), AddComponent>(AddComponent::EntityIsNotAlive)
            && *final(storage) == *old(storage),
        entities.is_alive(e) ==> r is Ok && final(storage).has(e) && final(storage).value(e) == v,
        entities.is_alive(e) ==> forall|x: EntityId|
            x.index != e.index ==> (#[trigger] final(storage).has(x) <==> old(storage).has(x)),
{
    if !entities.is_alive_exec(e) {
        return Err(AddComponent::EntityIsNotAlive);
    }
    storage.insert(e, v);
    Ok(())
}

} // verus!
