use vstd::prelude::*;
use crate::entity::{EntityId, StorageId};
use crate::error::Pack;

verus! {

/// Sparse-set storage of the components of one type.
///
/// `dense` and `data` are parallel arrays: `data[i]` is the component of
/// entity `dense[i]`. `sparse[e.index]` holds the dense position of `e`;
/// entries of `sparse` that no dense entity points back to are stale.
/// `modified`, parallel to `dense`, flags the components inserted or
/// modified since the flags were last cleared; it is kept up to date while
/// the storage is update packed.
pub struct Storage<T> {
    id: StorageId,
    sparse: Vec<usize>,
    dense: Vec<EntityId>,
    data: Vec<T>,
    modified: Vec<bool>,
    update_pack: bool,
}

/// No two positions of `ids` hold the same entity.
pub open spec fn no_duplicates(ids: Seq<EntityId>) -> bool {
    forall|i: int, j: int|
        0 <= i < ids.len() && 0 <= j < ids.len() && i != j ==> ids[i] != ids[j]
}

/// Exchanges the elements at positions `i` and `j`.
fn vec_swap<T>(v: &mut Vec<T>, i: usize, j: usize)
    requires
        i < old(v)@.len(),
        j < old(v)@.len(),
    ensures
        final(v)@ == old(v)@.update(i as int, old(v)@[j as int]).update(j as int, old(v)@[i as int]),
{
    if i == j {
        assert(v@ =~= v@.update(i as int, v@[j as int]).update(j as int, v@[i as int]));
        return;
    }
    let (lo, hi) = if i < j {
        (i, j)
    } else {
        (j, i)
    };
    let ghost s = v@;
    let x_hi = v.remove(hi);
    v.insert(lo, x_hi);
    let x_lo = v.remove(lo + 1);
    v.insert(hi, x_lo);
    assert(v@ =~= s.update(lo as int, s[hi as int]).update(hi as int, s[lo as int]));
    assert(s.update(lo as int, s[hi as int]).update(hi as int, s[lo as int]) =~= s.update(
        i as int,
        s[j as int],
    ).update(j as int, s[i as int]));
}

impl<T> Storage<T> {
    /// Entities that hold a component, in dense order.
    pub closed spec fn ids(&self) -> Seq<EntityId> {
        self.dense@
    }

    /// Components, parallel to `ids`.
    pub closed spec fn values(&self) -> Seq<T> {
        self.data@
    }

    /// Inserted-or-modified flags, parallel to `ids`.
    pub closed spec fn flags(&self) -> Seq<bool> {
        self.modified@
    }

    /// Component type of the storage.
    pub closed spec fn storage_id(&self) -> StorageId {
        self.id
    }

    /// Whether iteration over this storage goes through update tracking.
    pub closed spec fn is_update_packed(&self) -> bool {
        self.update_pack
    }

    pub closed spec fn wf(&self) -> bool {
        &&& self.dense@.len() == self.data@.len()
        &&& self.modified@.len() == self.data@.len()
        &&& forall|i: int|
            0 <= i < self.dense@.len() ==> {
                &&& (#[trigger] self.dense@[i]).index < self.sparse@.len()
                &&& self.sparse@[self.dense@[i].index as int] == i
            }
    }

    pub open spec fn has(&self, e: EntityId) -> bool {
        self.ids().contains(e)
    }

    /// Dense position of `e`, meaningful where `has(e)`.
    pub open spec fn position(&self, e: EntityId) -> int {
        self.ids().index_of(e)
    }

    /// Whether the component of `e` was inserted or modified since the
    /// flags were last cleared.
    pub open spec fn is_modified(&self, e: EntityId) -> bool {
        self.has(e) && self.flags()[self.position(e)]
    }

    /// Component of `e`, meaningful where `has(e)`.
    pub open spec fn value(&self, e: EntityId) -> T {
        self.values()[self.position(e)]
    }

    /// A well formed storage never holds two components for one entity, nor
    /// two entities with the same index.
    pub proof fn lemma_unique_entities(&self)
        requires
            self.wf(),
        ensures
            no_duplicates(self.ids()),
            forall|i: int, j: int|
                0 <= i < self.ids().len() && 0 <= j < self.ids().len() && i != j
                    ==> self.ids()[i].index != self.ids()[j].index,
    {
        assert forall|i: int, j: int|
            0 <= i < self.ids().len() && 0 <= j < self.ids().len() && i != j
                implies self.ids()[i].index != self.ids()[j].index by {
            assert(self.sparse@[self.dense@[i].index as int] == i);
            assert(self.sparse@[self.dense@[j].index as int] == j);
        }
    }

    /// At most one entity of a slot index holds a component.
    pub proof fn lemma_one_per_index(&self, x: EntityId, y: EntityId)
        requires
            self.wf(),
            self.has(x),
            self.has(y),
            x.index == y.index,
        ensures
            x == y,
    {
        self.lemma_unique_entities();
        let p = self.position(x);
        let q = self.position(y);
        assert(self.ids()[p] == x);
        assert(self.ids()[q] == y);
    }

    pub proof fn lemma_position(&self, i: int)
        requires
            self.wf(),
            0 <= i < self.ids().len(),
        ensures
            self.has(self.ids()[i]),
            self.position(self.ids()[i]) == i,
    {
        self.lemma_unique_entities();
        let e = self.ids()[i];
        assert(self.ids().contains(e));
        let p = self.ids().index_of(e);
        assert(self.ids()[p] == e);
    }

    pub fn new(id: StorageId) -> (r: Storage<T>)
        ensures
            r.wf(),
            r.storage_id() == id,
            r.ids() == Seq::<EntityId>::empty(),
            r.values() == Seq::<T>::empty(),
            !r.is_update_packed(),
    {
        Storage { id, sparse: Vec::new(), dense: Vec::new(), data: Vec::new(), modified: Vec::new(), update_pack: false }
    }

    pub fn id(&self) -> (r: StorageId)
        ensures
            r == self.storage_id(),
    {
        self.id
    }

    pub fn len(&self) -> (r: usize)
        requires
            self.wf(),
        ensures
            r == self.ids().len(),
    {
        self.dense.len()
    }

    /// Dense position of the slot of `e.index`, if some entity holds it.
    fn slot(&self, index: usize) -> (r: Option<usize>)
        requires
            self.wf(),
        ensures
            r matches Some(s) ==> s < self.ids().len() && self.ids()[s as int].index == index,
            r is None ==> forall|i: int|
                0 <= i < self.ids().len() ==> (#[trigger] self.ids()[i]).index != index,
    {
        if index < self.sparse.len() {
            let s = self.sparse[index];
            if s < self.dense.len() && self.dense[s].index == index {
                return Some(s);
            }
        }
        None
    }

    /// The entity of slot index `index` that holds a component here, if any.
    pub fn entity_with_index(&self, index: usize) -> (r: Option<EntityId>)
        requires
            self.wf(),
        ensures
            r matches Some(x) ==> self.has(x) && x.index == index,
            r is None ==> forall|x: EntityId| x.index == index ==> !#[trigger] self.has(x),
    {
        match self.slot(index) {
            Some(s) => {
                proof {
                    self.lemma_position(s as int);
                }
                Some(self.dense[s])
            },
            None => {
                proof {
                    assert forall|x: EntityId| x.index == index implies !#[trigger] self.has(x) by {
                        if self.has(x) {
                            let p = self.position(x);
                            assert(self.ids()[p] == x);
                        }
                    }
                }
                None
            },
        }
    }

    /// Dense position of `e`, or `None` where `e` has no component here.
    pub fn index_of(&self, e: EntityId) -> (r: Option<usize>)
        requires
            self.wf(),
        ensures
            r is Some <==> self.has(e),
            r matches Some(p) ==> p == self.position(e) && self.ids()[p as int] == e,
    {
        match self.slot(e.index) {
            Some(s) => {
                if self.dense[s] == e {
                    proof {
                        self.lemma_position(s as int);
                    }
                    Some(s)
                } else {
                    proof {
                        self.lemma_unique_entities();
                        if self.has(e) {
                            let p = self.position(e);
                            assert(self.ids()[p] == e);
                        }
                    }
                    None
                }
            },
            None => {
                proof {
                    if self.has(e) {
                        let p = self.position(e);
                        assert(self.ids()[p] == e);
                    }
                }
                None
            },
        }
    }

    pub fn contains(&self, e: EntityId) -> (r: bool)
        requires
            self.wf(),
        ensures
            r == self.has(e),
    {
        self.index_of(e).is_some()
    }

    pub fn get(&self, e: EntityId) -> (r: Option<&T>)
        requires
            self.wf(),
        ensures
            r is Some <==> self.has(e),
            r matches Some(v) ==> *v == self.value(e),
    {
        match self.index_of(e) {
            Some(p) => Some(&self.data[p]),
            None => None,
        }
    }

    /// Gives `e` the component `v`. A component that `e` held is replaced, and
    /// so is the one of an earlier entity of the same slot index, which is dead.
    pub fn insert(&mut self, e: EntityId, v: T)
        requires
            old(self).wf(),
        ensures
            final(self).wf(),
            final(self).has(e),
            final(self).value(e) == v,
            final(self).is_update_packed() == old(self).is_update_packed(),
            final(self).storage_id() == old(self).storage_id(),
            forall|x: EntityId|
                x.index != e.index ==> (#[trigger] final(self).has(x) <==> old(self).has(x)),
            forall|x: EntityId|
                x.index != e.index && old(self).has(x) ==> #[trigger] final(self).value(x)
                    == old(self).value(x),
            forall|x: EntityId| x.index == e.index && x != e ==> !#[trigger] final(self).has(x),
            old(self).is_update_packed() ==> final(self).is_modified(e),
            forall|x: EntityId|
                x.index != e.index && old(self).has(x) ==> #[trigger] final(self).is_modified(x)
                    == old(self).is_modified(x),
            final(self).ids().len() == old(self).ids().len() || (final(self).ids().len() == old(
                self,
            ).ids().len() + 1 && final(self).ids().last() == e),
            forall|k: int|
                0 <= k < old(self).ids().len() ==> #[trigger] final(self).ids()[k] == if old(
                    self,
                ).ids()[k].index == e.index {
                    e
                } else {
                    old(self).ids()[k]
                },
    {
        let ghost pre = *self;
        proof {
            pre.lemma_unique_entities();
        }
        match self.slot(e.index) {
            Some(s) => {
                self.dense[s] = e;
                self.data[s] = v;
                if self.update_pack {
                    self.modified[s] = true;
                }
                proof {
                    self.lemma_unique_entities();
                    self.lemma_position(s as int);
                }
            },
            None => {
                while self.sparse.len() <= e.index
                    invariant
                        self.wf(),
                        self.dense@ == pre.dense@,
                        self.data@ == pre.data@,
                        self.modified@ == pre.modified@,
                        self.update_pack == pre.update_pack,
                        self.id == pre.id,
                    decreases e.index + 1 - self.sparse.len(),
                {
                    self.sparse.push(0);
                }
                self.sparse[e.index] = self.dense.len();
                self.dense.push(e);
                self.data.push(v);
                self.modified.push(self.update_pack);
                proof {
                    assert(self.wf());
                    self.lemma_unique_entities();
                    self.lemma_position(pre.dense@.len() as int);
                }
            },
        }
        proof {
            assert forall|x: EntityId| x.index != e.index && pre.has(x) implies self.has(x)
                && self.position(x) == pre.position(x) && self.flags()[self.position(x)]
                == pre.flags()[pre.position(x)] by {
                let p = pre.position(x);
                assert(pre.ids()[p] == x);
                assert(self.ids()[p] == x);
                self.lemma_position(p);
            }
            assert forall|x: EntityId| x.index != e.index && self.has(x) implies pre.has(x) by {
                let p = self.position(x);
                assert(self.ids()[p] == x);
                assert(pre.ids()[p] == x);
            }
            assert forall|x: EntityId| x.index == e.index && x != e implies !self.has(x) by {
                if self.has(x) {
                    let p = self.position(x);
                    let q = self.position(e);
                    assert(self.ids()[p] == x);
                    assert(self.ids()[q] == e);
                }
            }
        }
    }

    /// Takes the component of `e` out of the storage; the last dense entry
    /// moves into its place.
    pub fn remove(&mut self, e: EntityId) -> (r: Option<T>)
        requires
            old(self).wf(),
        ensures
            final(self).wf(),
            !final(self).has(e),
            r is Some <==> old(self).has(e),
            r matches Some(v) ==> v == old(self).value(e),
            final(self).is_update_packed() == old(self).is_update_packed(),
            final(self).storage_id() == old(self).storage_id(),
            forall|x: EntityId| x != e ==> (#[trigger] final(self).has(x) <==> old(self).has(x)),
            forall|x: EntityId|
                x != e && old(self).has(x) ==> #[trigger] final(self).value(x) == old(self).value(
                    x,
                ),
            forall|x: EntityId|
                x != e && old(self).has(x) ==> #[trigger] final(self).is_modified(x) == old(
                    self,
                ).is_modified(x),
            r is None ==> final(self).ids() == old(self).ids(),
            r is Some ==> final(self).ids() == old(self).ids().update(
                old(self).position(e),
                old(self).ids().last(),
            ).drop_last(),
    {
        let ghost pre = *self;
        proof {
            pre.lemma_unique_entities();
        }
        match self.index_of(e) {
            None => None,
            Some(s) => {
                let last = self.dense.len() - 1;
                let moved = self.dense[last];
                self.dense.swap_remove(s);
                let v = self.data.swap_remove(s);
                self.modified.swap_remove(s);
                if s != last {
                    self.sparse[moved.index] = s;
                }
                proof {
                    assert forall|i: int| 0 <= i < self.dense@.len() implies {
                        &&& (#[trigger] self.dense@[i]).index < self.sparse@.len()
                        &&& self.sparse@[self.dense@[i].index as int] == i
                    } by {
                        if i != s {
                            assert(pre.dense@[i].index != moved.index);
                        }
                    }
                    assert(self.wf());
                    self.lemma_unique_entities();
                    assert forall|x: EntityId| x != e && pre.has(x) implies self.has(x)
                        && self.value(x) == pre.value(x) && self.is_modified(x)
                        == pre.is_modified(x) by {
                        let p = pre.position(x);
                        assert(pre.ids()[p] == x);
                        let q = if p == last { s as int } else { p };
                        assert(self.ids()[q] == x);
                        self.lemma_position(q);
                    }
                    assert forall|x: EntityId| x != e && self.has(x) implies pre.has(x) by {
                        let p = self.position(x);
                        assert(self.ids()[p] == x);
                        if p == s {
                            assert(pre.ids()[last as int] == x);
                        } else {
                            assert(pre.ids()[p] == x);
                        }
                    }
                    if self.has(e) {
                        let p = self.position(e);
                        assert(self.ids()[p] == e);
                        if p == s {
                            assert(pre.ids()[last as int] == e);
                        } else {
                            assert(pre.ids()[p] == e);
                        }
                    }
                }
                Some(v)
            },
        }
    }

    /// Marks the storage as update tracked; iteration over it then goes
    /// through the tracked path.
    pub fn update_pack(&mut self) -> (r: Result<(), Pack>)
        requires
            old(self).wf(),
        ensures
            final(self).wf(),
            final(self).storage_id() == old(self).storage_id(),
            r is Err ==> r == Err::<(), Pack>(Pack::AlreadyUpdatePack(old(self).storage_id())),
            final(self).ids() == old(self).ids(),
            final(self).values() == old(self).values(),
            final(self).is_update_packed(),
            r is Err <==> old(self).is_update_packed(),
    {
        if self.update_pack {
            Err(Pack::AlreadyUpdatePack(self.id))
        } else {
            self.update_pack = true;
            Ok(())
        }
    }

    pub fn is_update_packed_exec(&self) -> (r: bool)
        ensures
            r == self.is_update_packed(),
    {
        self.update_pack
    }

    /// Exchanges the dense positions `i` and `j`; every entity keeps its
    /// component and its flag.
    pub fn swap_positions(&mut self, i: usize, j: usize)
        requires
            old(self).wf(),
            i < old(self).ids().len(),
            j < old(self).ids().len(),
        ensures
            final(self).wf(),
            final(self).ids() == old(self).ids().update(i as int, old(self).ids()[j as int]).update(
                j as int,
                old(self).ids()[i as int],
            ),
            final(self).values() == old(self).values().update(
                i as int,
                old(self).values()[j as int],
            ).update(j as int, old(self).values()[i as int]),
            final(self).is_update_packed() == old(self).is_update_packed(),
            final(self).storage_id() == old(self).storage_id(),
            forall|e: EntityId| #[trigger] final(self).has(e) == old(self).has(e),
            forall|e: EntityId|
                old(self).has(e) ==> #[trigger] final(self).value(e) == old(self).value(e)
                    && final(self).is_modified(e) == old(self).is_modified(e),
    {
        let ghost pre = *self;
        proof {
            pre.lemma_unique_entities();
        }
        let ei = self.dense[i];
        let ej = self.dense[j];
        vec_swap(&mut self.dense, i, j);
        vec_swap(&mut self.data, i, j);
        vec_swap(&mut self.modified, i, j);
        self.sparse[ei.index] = j;
        self.sparse[ej.index] = i;
        proof {
            assert forall|k: int| 0 <= k < self.dense@.len() implies {
                &&& (#[trigger] self.dense@[k]).index < self.sparse@.len()
                &&& self.sparse@[self.dense@[k].index as int] == k
            } by {
                if k != i && k != j {
                    assert(pre.dense@[k].index != ei.index);
                    assert(pre.dense@[k].index != ej.index);
                }
            }
            assert(self.wf());
            self.lemma_unique_entities();
            assert forall|e: EntityId| #[trigger] self.has(e) == pre.has(e) by {
                if pre.has(e) {
                    let p = pre.position(e);
                    assert(pre.ids()[p] == e);
                    let q = if p == i { j as int } else if p == j { i as int } else { p };
                    assert(self.ids()[q] == e);
                }
                if self.has(e) {
                    let p = self.position(e);
                    assert(self.ids()[p] == e);
                    let q = if p == i { j as int } else if p == j { i as int } else { p };
                    assert(pre.ids()[q] == e);
                }
            }
            assert forall|e: EntityId| pre.has(e) implies #[trigger] self.value(e) == pre.value(e)
                && self.is_modified(e) == pre.is_modified(e) by {
                let p = pre.position(e);
                assert(pre.ids()[p] == e);
                pre.lemma_position(p);
                let q = if p == i { j as int } else if p == j { i as int } else { p };
                assert(self.ids()[q] == e);
                self.lemma_position(q);
            }
        }
    }

    /// Clears every inserted-or-modified flag; nothing else clears them.
    pub fn clear_modified(&mut self)
        requires
            old(self).wf(),
        ensures
            final(self).wf(),
            final(self).ids() == old(self).ids(),
            final(self).values() == old(self).values(),
            final(self).is_update_packed() == old(self).is_update_packed(),
            final(self).storage_id() == old(self).storage_id(),
            forall|e: EntityId| !#[trigger] final(self).is_modified(e),
    {
        let mut i: usize = 0;
        while i < self.modified.len()
            invariant
                self.wf(),
                self.ids() == old(self).ids(),
                self.values() == old(self).values(),
                self.is_update_packed() == old(self).is_update_packed(),
                self.storage_id() == old(self).storage_id(),
                i <= self.modified@.len(),
                forall|k: int| 0 <= k < i ==> !self.modified@[k],
            decreases self.modified@.len() - i,
        {
            self.modified[i] = false;
            i = i + 1;
        }
        proof {
            assert forall|e: EntityId| !#[trigger] self.is_modified(e) by {
                if self.has(e) {
                    let p = self.position(e);
                    assert(self.ids()[p] == e);
                }
            }
        }
    }

    /// Flags the components at the dense positions of `observed` as modified,
    /// as an update-tracked traversal records them.
    pub fn mark_modified(&mut self, observed: &Vec<usize>)
        requires
            old(self).wf(),
            forall|k: int| 0 <= k < observed@.len() ==> #[trigger] observed@[k] < old(self).ids().len(),
        ensures
            final(self).wf(),
            final(self).ids() == old(self).ids(),
            final(self).values() == old(self).values(),
            final(self).is_update_packed() == old(self).is_update_packed(),
            final(self).storage_id() == old(self).storage_id(),
            forall|i: usize|
                i < final(self).ids().len() ==> #[trigger] final(self).flags()[i as int] == (old(
                    self,
                ).flags()[i as int] || observed@.contains(i)),
    {
        let mut k: usize = 0;
        while k < observed.len()
            invariant
                self.wf(),
                self.ids() == old(self).ids(),
                self.values() == old(self).values(),
                self.is_update_packed() == old(self).is_update_packed(),
                self.storage_id() == old(self).storage_id(),
                k <= observed@.len(),
                forall|j: int| 0 <= j < observed@.len() ==> #[trigger] observed@[j] < self.ids().len(),
                forall|i: usize|
                    i < self.ids().len() ==> #[trigger] self.flags()[i as int] == (old(
                        self,
                    ).flags()[i as int] || observed@.subrange(0, k as int).contains(i)),
            decreases observed@.len() - k,
        {
            let p = observed[k];
            let ghost pre = *self;
            self.modified[p] = true;
            proof {
                let prev = observed@.subrange(0, k as int);
                let next = observed@.subrange(0, k + 1);
                assert(next =~= prev.push(p));
                assert forall|i: usize| i < self.ids().len() implies #[trigger] self.flags()[i as int]
                    == (old(self).flags()[i as int] || next.contains(i)) by {
                    assert(pre.flags()[i as int] == (old(self).flags()[i as int] || prev.contains(i)));
                    if prev.contains(i) {
                        let q = prev.index_of(i);
                        assert(next[q] == i);
                    }
                    assert(next[k as int] == p);
                    if i == p {
                        assert(next[k as int] == p);
                    } else {
                        assert(self.flags()[i as int] == pre.flags()[i as int]);
                        if next.contains(i) {
                            let q = next.index_of(i);
                            assert(next[q] == i);
                            assert(q != k as int);
                            assert(prev[q] == i);
                        }
                    }
                }
            }
            k = k + 1;
        }
        assert(observed@.subrange(0, observed@.len() as int) == observed@);
    }

    pub fn is_modified_exec(&self, e: EntityId) -> (r: bool)
        requires
            self.wf(),
        ensures
            r == self.is_modified(e),
    {
        match self.index_of(e) {
            Some(p) => self.modified[p],
            None => false,
        }
    }

    /// The entities of the storage, in dense order.
    pub fn dense_ids(&self) -> (r: &[EntityId])
        requires
            self.wf(),
        ensures
            r@ == self.ids(),
    {
        self.dense.as_slice()
    }

    /// The components of the storage, in dense order.
    pub fn dense_values(&self) -> (r: &[T])
        requires
            self.wf(),
        ensures
            r@ == self.values(),
            r@.len() == self.ids().len(),
    {
        self.data.as_slice()
    }
}

} // verus!
