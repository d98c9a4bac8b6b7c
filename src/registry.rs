use vstd::prelude::*;
use crate::borrow::{BorrowState, Mode};
use crate::entity::StorageId;
use crate::error::{Borrow, GetStorage};

verus! {

/// One registered storage: its component type, the name used in
/// diagnostics, and its borrow state.
#[derive(Clone, Copy, Debug, PartialEq, Eq)]
pub struct StorageEntry {
    pub id: StorageId,
    pub name: &'static str,
    pub state: BorrowState,
}

/// A resolved view: the borrow in `mode` of the storage of `id`, held until
/// the view is handed back to the registry.
pub struct StorageView {
    registry: u64,
    id: StorageId,
    mode: Mode,
}

impl StorageView {
    pub closed spec fn storage(&self) -> StorageId {
        self.id
    }

    pub closed spec fn access(&self) -> Mode {
        self.mode
    }

    /// Key of the registry that resolved the view.
    pub closed spec fn registry(&self) -> u64 {
        self.registry
    }

    pub fn storage_id(&self) -> (r: StorageId)
        ensures
            r == self.storage(),
    {
        self.id
    }

    pub fn mode(&self) -> (r: Mode)
        ensures
            r == self.access(),
    {
        self.mode
    }
}

/// Mapping from component type to the borrow state of its storage, itself
/// guarded by a borrow state since registering a type changes the mapping.
///
/// Each registry carries the key it was created with, and each view the key
/// of the registry that resolved it, so a view only fits its own registry.
pub struct AllStorages {
    key: u64,
    state: BorrowState,
    entries: Vec<StorageEntry>,
}

/// Outcome of asking for a borrow in `mode` of a resource in state `s`.
pub open spec fn acquire_spec(s: BorrowState, mode: Mode) -> Result<BorrowState, Borrow> {
    match mode {
        Mode::Shared => s.acquire_shared_spec(),
        Mode::Unique => s.acquire_unique_spec(),
    }
}

impl AllStorages {
    pub closed spec fn registry_state(&self) -> BorrowState {
        self.state
    }

    pub closed spec fn entries(&self) -> Seq<StorageEntry> {
        self.entries@
    }

    pub closed spec fn key(&self) -> u64 {
        self.key
    }

    pub open spec fn wf(&self) -> bool {
        &&& self.registry_state().wf()
        &&& forall|i: int| 0 <= i < self.entries().len() ==> (#[trigger] self.entries()[i]).state.wf()
        &&& forall|i: int, j: int|
            0 <= i < self.entries().len() && 0 <= j < self.entries().len() && i != j
                ==> self.entries()[i].id != self.entries()[j].id
    }

    pub open spec fn has_storage(&self, id: StorageId) -> bool {
        exists|i: int| 0 <= i < self.entries().len() && #[trigger] self.entries()[i].id == id
    }

    /// Position of the entry of `id`, meaningful where `has_storage(id)`.
    pub open spec fn slot_of(&self, id: StorageId) -> int {
        choose|i: int| 0 <= i < self.entries().len() && #[trigger] self.entries()[i].id == id
    }

    pub open spec fn state_of(&self, id: StorageId) -> BorrowState {
        self.entries()[self.slot_of(id)].state
    }

    pub fn new(key: u64) -> (r: Self)
        ensures
            r.wf(),
            r.registry_state() == BorrowState::Free,
            r.entries().len() == 0,
            r.key() == key,
    {
        AllStorages { key, state: BorrowState::Free, entries: Vec::new() }
    }

    fn find(&self, id: StorageId) -> (r: Option<usize>)
        requires
            self.wf(),
        ensures
            r is Some <==> self.has_storage(id),
            r matches Some(i) ==> i == self.slot_of(id) && self.entries()[i as int].id == id,
    {
        let mut i: usize = 0;
        while i < self.entries.len()
            invariant
                self.wf(),
                i <= self.entries@.len(),
                forall|k: int| 0 <= k < i ==> self.entries@[k].id != id,
            decreases self.entries@.len() - i,
        {
            if self.entries[i].id == id {
                assert(self.entries()[i as int].id == id);
                let ghost c = self.slot_of(id);
                assert(self.entries()[c].id == id);
                return Some(i);
            }
            i = i + 1;
        }
        None
    }

    /// Borrow state of the storage of `id`, or `None` where it is not registered.
    pub fn storage_state(&self, id: StorageId) -> (r: Option<BorrowState>)
        requires
            self.wf(),
        ensures
            r is Some <==> self.has_storage(id),
            r matches Some(s) ==> s == self.state_of(id),
    {
        match self.find(id) {
            Some(i) => Some(self.entries[i].state),
            None => None,
        }
    }

    /// Borrow state of the registry itself.
    pub fn registry_borrow_state(&self) -> (r: BorrowState)
        ensures
            r == self.registry_state(),
    {
        self.state
    }

    /// Adds an entry for `id` unless one exists.
    fn insert_entry(&mut self, id: StorageId, name: &'static str)
        requires
            old(self).wf(),
        ensures
            final(self).wf(),
            final(self).registry_state() == old(self).registry_state(),
            final(self).key() == old(self).key(),
            final(self).has_storage(id),
            forall|x: StorageId| old(self).has_storage(x) ==> #[trigger] final(self).has_storage(x),
            forall|x: StorageId| #[trigger] final(self).has_storage(x) ==> old(self).has_storage(x) || x == id,
            old(self).has_storage(id) ==> final(self).entries() == old(self).entries(),
            !old(self).has_storage(id) ==> final(self).entries() == old(self).entries().push(
                (StorageEntry { id, name, state: BorrowState::Free }),
            ),
    {
        match self.find(id) {
            Some(_) => {},
            None => {
                let ghost pre = *self;
                self.entries.push(StorageEntry { id, name, state: BorrowState::Free });
                assert(self.entries()[pre.entries().len() as int].id == id);
                assert forall|x: StorageId| pre.has_storage(x) implies #[trigger] self.has_storage(
                    x,
                ) by {
                    let k = pre.slot_of(x);
                    assert(self.entries()[k].id == x);
                }
                assert forall|x: StorageId| #[trigger] self.has_storage(x) implies pre.has_storage(x)
                    || x == id by {
                    let k = self.slot_of(x);
                    if k < pre.entries().len() {
                        assert(pre.entries()[k].id == x);
                    }
                }
            },
        }
    }

    /// Registers the storage of `id` unless it already is; needs an exclusive
    /// borrow of the registry for the duration of the change.
    pub fn get_or_create(&mut self, id: StorageId, name: &'static str) -> (r: Result<(), GetStorage>)
        requires
            old(self).wf(),
        ensures
            final(self).wf(),
            final(self).registry_state() == old(self).registry_state(),
            final(self).key() == old(self).key(),
            old(self).registry_state() != BorrowState::Free ==> r == Err::<(), GetStorage>(
                GetStorage::AllStoragesBorrow(Borrow::Unique),
            ) && final(self).entries() == old(self).entries(),
            old(self).registry_state() == BorrowState::Free ==> r is Ok && final(self).has_storage(
                id,
            ),
            old(self).has_storage(id) ==> final(self).entries() == old(self).entries(),
            old(self).registry_state() == BorrowState::Free && !old(self).has_storage(id)
                ==> final(self).entries() == old(self).entries().push(
                (StorageEntry { id, name, state: BorrowState::Free }),
            ),
    {
        if self.state != BorrowState::Free {
            return Err(GetStorage::AllStoragesBorrow(Borrow::Unique));
        }
        self.insert_entry(id, name);
        Ok(())
    }

    /// Resolves a view on the storage of `id` in `mode`. `name` is the one
    /// reported where no storage of `id` exists.
    pub fn acquire_storage(&mut self, id: StorageId, name: &'static str, mode: Mode) -> (r: Result<
        StorageView,
        GetStorage,
    >)
        requires
            old(self).wf(),
            old(self).has_storage(id) ==> old(self).state_of(id).shared_count() < u64::MAX,
        ensures
            final(self).wf(),
            final(self).registry_state() == old(self).registry_state(),
            final(self).key() == old(self).key(),
            old(self).registry_state() is Unique ==> (r matches Err(x) && x
                == GetStorage::AllStoragesBorrow(Borrow::Shared)) && final(self).entries() == old(
                self,
            ).entries(),
            !(old(self).registry_state() is Unique) && !old(self).has_storage(id) ==> (r matches Err(
                x,
            ) && x == GetStorage::MissingComponent(name)) && final(self).entries() == old(
                self,
            ).entries(),
            !(old(self).registry_state() is Unique) && old(self).has_storage(id) ==> ({
                let i = old(self).slot_of(id);
                let e = old(self).entries()[i];
                match acquire_spec(e.state, mode) {
                    Ok(s) => r matches Ok(v) && v.storage() == id && v.access() == mode
                        && v.registry() == old(self).key()
                        && final(self).entries() == old(self).entries().update(
                        i,
                        StorageEntry { state: s, ..e },
                    ),
                    Err(b) => r matches Err(x) && x == GetStorage::StorageBorrow((e.name, b))
                        && final(self).entries() == old(self).entries(),
                }
            }),
    {
        if self.state == BorrowState::Unique {
            return Err(GetStorage::AllStoragesBorrow(Borrow::Shared));
        }
        match self.find(id) {
            None => Err(GetStorage::MissingComponent(name)),
            Some(i) => {
                let mut entry = self.entries[i];
                let res = match mode {
                    Mode::Shared => entry.state.acquire_shared(),
                    Mode::Unique => entry.state.acquire_unique(),
                };
                match res {
                    Ok(()) => {
                        self.entries.set(i, entry);
                        assert(self.wf());
                        Ok(StorageView { registry: self.key, id, mode })
                    },
                    Err(b) => Err(GetStorage::StorageBorrow((entry.name, b))),
                }
            },
        }
    }

    /// Ends the borrow that `view` holds.
    pub fn release_storage(&mut self, view: StorageView)
        requires
            old(self).wf(),
            old(self).has_storage(view.storage()),
            view.registry() == old(self).key(),
            view.access() == Mode::Shared ==> old(self).state_of(view.storage()) is Shared,
            view.access() == Mode::Unique ==> old(self).state_of(view.storage()) is Unique,
        ensures
            final(self).wf(),
            final(self).registry_state() == old(self).registry_state(),
            final(self).key() == old(self).key(),
            ({
                let i = old(self).slot_of(view.storage());
                let e = old(self).entries()[i];
                let s = match view.access() {
                    Mode::Shared => e.state.release_shared_spec(),
                    Mode::Unique => e.state.release_unique_spec(),
                };
                final(self).entries() == old(self).entries().update(
                    i,
                    StorageEntry { state: s, ..e },
                )
            }),
    {
        self.release_borrow(view.id, view.mode)
    }

    fn release_borrow(&mut self, id: StorageId, mode: Mode)
        requires
            old(self).wf(),
            old(self).has_storage(id),
            mode == Mode::Shared ==> old(self).state_of(id) is Shared,
            mode == Mode::Unique ==> old(self).state_of(id) is Unique,
        ensures
            final(self).wf(),
            final(self).registry_state() == old(self).registry_state(),
            final(self).key() == old(self).key(),
            ({
                let i = old(self).slot_of(id);
                let e = old(self).entries()[i];
                let s = match mode {
                    Mode::Shared => e.state.release_shared_spec(),
                    Mode::Unique => e.state.release_unique_spec(),
                };
                final(self).entries() == old(self).entries().update(
                    i,
                    StorageEntry { state: s, ..e },
                )
            }),
    {
        let i = self.find(id).unwrap();
        let mut entry = self.entries[i];
        match mode {
            Mode::Shared => entry.state.release_shared(),
            Mode::Unique => entry.state.release_unique(),
        }
        self.entries.set(i, entry);
        assert(self.wf());
    }

    /// Takes an exclusive borrow of the whole registry, as a structural
    /// change of the mapping does.
    pub fn acquire_all_unique(&mut self) -> (r: Result<(), GetStorage>)
        requires
            old(self).wf(),
        ensures
            final(self).wf(),
            final(self).entries() == old(self).entries(),
            final(self).key() == old(self).key(),
            match old(self).registry_state().acquire_unique_spec() {
                Ok(s) => r is Ok && final(self).registry_state() == s,
                Err(b) => r == Err::<(), GetStorage>(GetStorage::AllStoragesBorrow(b))
                    && final(self).registry_state() == old(self).registry_state(),
            },
    {
        match self.state.acquire_unique() {
            Ok(()) => Ok(()),
            Err(b) => Err(GetStorage::AllStoragesBorrow(b)),
        }
    }

    /// Ends the exclusive borrow of the whole registry.
    pub fn release_all_unique(&mut self)
        requires
            old(self).wf(),
            old(self).registry_state() is Unique,
        ensures
            final(self).wf(),
            final(self).entries() == old(self).entries(),
            final(self).key() == old(self).key(),
            final(self).registry_state() == BorrowState::Free,
    {
        self.state.release_unique();
    }
}

/// Declares several storages on a registry in one step, under a single
/// exclusive borrow of the registry.
/// Whether `decls` declares the storage `x`.
pub open spec fn declares(decls: Seq<(StorageId, &'static str)>, x: StorageId) -> bool {
    exists|k: int| 0 <= k < decls.len() && #[trigger] decls[k].0 == x
}

pub trait Register {
    /// The storages declared, with their diagnostic names.
    spec fn declared(&self) -> Seq<(StorageId, &'static str)>;

    fn register(&self, all: &mut AllStorages) -> (r: Result<(), GetStorage>)
        requires
            old(all).wf(),
        ensures
            final(all).wf(),
            final(all).registry_state() == old(all).registry_state(),
            final(all).key() == old(all).key(),
            old(all).registry_state() != BorrowState::Free ==> r == Err::<(), GetStorage>(
                GetStorage::AllStoragesBorrow(Borrow::Unique),
            ) && final(all).entries() == old(all).entries(),
            old(all).registry_state() == BorrowState::Free ==> r is Ok,
            forall|x: StorageId| old(all).has_storage(x) ==> #[trigger] final(all).has_storage(x),
            r is Ok ==> forall|k: int|
                0 <= k < self.declared().len() ==> final(all).has_storage(
                    #[trigger] self.declared()[k].0,
                ),
            forall|x: StorageId| #[trigger]
                final(all).has_storage(x) ==> old(all).has_storage(x) || declares(
                    self.declared(),
                    x,
                ),
            old(all).entries().len() <= final(all).entries().len(),
            forall|k: int|
                0 <= k < old(all).entries().len() ==> #[trigger] final(all).entries()[k] == old(
                    all,
                ).entries()[k],
            self.declared().len() == 0 ==> final(all).entries() == old(all).entries(),
    ;
}

impl Register for () {
    open spec fn declared(&self) -> Seq<(StorageId, &'static str)> {
        Seq::empty()
    }

    fn register(&self, all: &mut AllStorages) -> (r: Result<(), GetStorage>) {
        if all.state != BorrowState::Free {
            return Err(GetStorage::AllStoragesBorrow(Borrow::Unique));
        }
        Ok(())
    }
}

impl Register for Vec<(StorageId, &'static str)> {
    open spec fn declared(&self) -> Seq<(StorageId, &'static str)> {
        self@
    }

    fn register(&self, all: &mut AllStorages) -> (r: Result<(), GetStorage>) {
        match all.acquire_all_unique() {
            Err(e) => Err(e),
            Ok(()) => {
                let mut i: usize = 0;
                while i < self.len()
                    invariant
                        all.wf(),
                        all.registry_state() == BorrowState::Unique,
                        old(all).registry_state() == BorrowState::Free,
                        all.key() == old(all).key(),
                        i <= self@.len(),
                        forall|x: StorageId| old(all).has_storage(x) ==> #[trigger] all.has_storage(x),
                        forall|k: int| 0 <= k < i ==> all.has_storage(#[trigger] self@[k].0),
                        forall|x: StorageId| #[trigger]
                            all.has_storage(x) ==> old(all).has_storage(x) || declares(
                                self@.subrange(0, i as int),
                                x,
                            ),
                        old(all).entries().len() <= all.entries().len(),
                        forall|k: int|
                            0 <= k < old(all).entries().len() ==> #[trigger] all.entries()[k]
                                == old(all).entries()[k],
                        self@.len() == 0 ==> all.entries() == old(all).entries(),
                    decreases self@.len() - i,
                {
                    let (id, name) = self[i];
                    let ghost pre = *all;
                    all.insert_entry(id, name);
                    proof {
                        assert forall|x: StorageId| #[trigger] all.has_storage(x) implies old(
                            all,
                        ).has_storage(x) || declares(self@.subrange(0, i + 1), x) by {
                            if pre.has_storage(x) {
                                if !old(all).has_storage(x) {
                                    let k = choose|k: int|
                                        0 <= k < i && #[trigger] self@.subrange(0, i as int)[k].0 == x;
                                    assert(self@.subrange(0, i + 1)[k].0 == x);
                                }
                            } else {
                                assert(self@.subrange(0, i + 1)[i as int].0 == x);
                            }
                        }
                        assert forall|k: int| 0 <= k < old(all).entries().len() implies #[trigger] all.entries()[k]
                            == old(all).entries()[k] by {
                            assert(pre.entries()[k] == old(all).entries()[k]);
                        }
                    }
                    i = i + 1;
                }
                assert(self@.subrange(0, i as int) =~= self@);
                let ghost held = *all;
                all.release_all_unique();
                assert forall|x: StorageId| held.has_storage(x) implies #[trigger] all.has_storage(
                    x,
                ) by {
                    let k = held.slot_of(x);
                    assert(all.entries()[k].id == x);
                }
                assert forall|x: StorageId| #[trigger] all.has_storage(x) implies held.has_storage(x) by {
                    let k = all.slot_of(x);
                    assert(held.entries()[k].id == x);
                }
                Ok(())
            },
        }
    }
}

} // verus!
