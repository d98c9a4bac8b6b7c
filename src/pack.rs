use vstd::prelude::*;
use vstd::arithmetic::div_mod::lemma_mod_decreases;
use vstd::slice::slice_subrange;
use crate::entity::EntityId;
use crate::iter::shiperator::{CurrentId, Shiperator};
use crate::iter::multi::{in_both, lemma_matching_push, matching};
use crate::iter::single::tail_len;
use crate::storage::{no_duplicates, Storage};

verus! {

/// Two storages packed tightly: the first `len` dense positions of both hold
/// the same entities in the same order, and every entity present in both
/// lies in that region. Traversal of the pair is then a walk over two
/// contiguous slices.
pub struct TightPack<A, B> {
    a: Storage<A>,
    b: Storage<B>,
    len: usize,
}

/// The first `len` positions of `a` and `b` hold the same entities.
pub open spec fn aligned<A, B>(a: Storage<A>, b: Storage<B>, len: int) -> bool {
    &&& len <= a.ids().len()
    &&& len <= b.ids().len()
    &&& forall|k: int| 0 <= k < len ==> #[trigger] a.ids()[k] == b.ids()[k]
}

impl<A, B> TightPack<A, B> {
    pub closed spec fn first(&self) -> Storage<A> {
        self.a
    }

    pub closed spec fn second(&self) -> Storage<B> {
        self.b
    }

    pub closed spec fn packed_len(&self) -> int {
        self.len as int
    }

    pub open spec fn wf(&self) -> bool {
        &&& self.first().wf()
        &&& self.second().wf()
        &&& aligned(self.first(), self.second(), self.packed_len())
        &&& forall|e: EntityId|
            self.first().has(e) && self.second().has(e) ==> #[trigger] self.first().position(e)
                < self.packed_len()
    }

    /// Entities of the packed region, in dense order.
    pub open spec fn packed_ids(&self) -> Seq<EntityId> {
        self.first().ids().subrange(0, self.packed_len())
    }

    /// The packed region, which tight traversal walks, holds exactly the
    /// entities present in both storages, each once, the `i`-th of them at
    /// dense position `i` of both storages.
    pub proof fn lemma_packed_region_is_intersection(&self)
        requires
            self.wf(),
        ensures
            forall|e: EntityId| #[trigger]
                self.packed_ids().contains(e) <==> self.first().has(e) && self.second().has(e),
            no_duplicates(self.packed_ids()),
            forall|i: int|
                0 <= i < self.packed_len() ==> self.first().position(#[trigger] self.packed_ids()[i])
                    == i && self.second().position(self.packed_ids()[i]) == i,
    {
        let a = self.first();
        let b = self.second();
        a.lemma_unique_entities();
        assert forall|i: int| 0 <= i < self.packed_len() implies a.position(
            #[trigger] self.packed_ids()[i],
        ) == i && b.position(self.packed_ids()[i]) == i by {
            a.lemma_position(i);
            b.lemma_position(i);
        }
        assert forall|e: EntityId| #[trigger]
            self.packed_ids().contains(e) <==> a.has(e) && b.has(e) by {
            if self.packed_ids().contains(e) {
                let k = self.packed_ids().index_of(e);
                assert(a.ids()[k] == e);
                assert(b.ids()[k] == e);
            }
            if a.has(e) && b.has(e) {
                let p = a.position(e);
                assert(a.ids()[p] == e);
                assert(self.packed_ids()[p] == e);
            }
        }
    }

    /// Packs `a` and `b` together, moving every entity present in both to
    /// the front of both dense arrays.
    pub fn new(a: Storage<A>, b: Storage<B>) -> (r: Self)
        requires
            a.wf(),
            b.wf(),
        ensures
            r.wf(),
            forall|e: EntityId| #[trigger] r.first().has(e) == a.has(e),
            forall|e: EntityId| #[trigger] r.second().has(e) == b.has(e),
            forall|e: EntityId| a.has(e) ==> #[trigger] r.first().value(e) == a.value(e),
            forall|e: EntityId| b.has(e) ==> #[trigger] r.second().value(e) == b.value(e),
            r.packed_ids() == matching(a.ids(), in_both(a, b)),
    {
        let ghost a0 = a;
        let ghost b0 = b;
        let mut a = a;
        let mut b = b;
        let mut len: usize = 0;
        let mut i: usize = 0;
        let n = a.len();
        while i < n
            invariant
                a.wf(),
                b.wf(),
                n == a.ids().len(),
                len <= i <= n,
                aligned(a, b, len as int),
                forall|e: EntityId|
                    a.has(e) && b.has(e) && a.position(e) < i ==> #[trigger] a.position(e) < len,
                forall|e: EntityId| #[trigger] a.has(e) == a0.has(e),
                forall|e: EntityId| #[trigger] b.has(e) == b0.has(e),
                forall|e: EntityId| a0.has(e) ==> #[trigger] a.value(e) == a0.value(e),
                forall|e: EntityId| b0.has(e) ==> #[trigger] b.value(e) == b0.value(e),
                a0.ids().len() == n,
                forall|k: int| i <= k < n ==> #[trigger] a.ids()[k] == a0.ids()[k],
                a.ids().subrange(0, len as int) == matching(
                    a0.ids().subrange(0, i as int),
                    in_both(a0, b0),
                ),
            decreases n - i,
        {
            let e = a.dense_ids()[i];
            proof {
                assert(a.ids()[i as int] == a0.ids()[i as int]);
                assert(a0.ids().subrange(0, i + 1) =~= a0.ids().subrange(0, i as int).push(e));
                lemma_matching_push(a0.ids().subrange(0, i as int), in_both(a0, b0), e);
            }
            let ghost sub = a.ids().subrange(0, len as int);
            match b.index_of(e) {
                Some(p) => {
                    let ghost pa = a;
                    let ghost pb = b;
                    proof {
                        pa.lemma_unique_entities();
                        pb.lemma_unique_entities();
                        pa.lemma_position(i as int);
                        assert forall|k: int| 0 <= k < len implies pb.ids()[k] != e by {
                            assert(pa.ids()[k] == pb.ids()[k]);
                        }
                    }
                    a.swap_positions(i, len);
                    b.swap_positions(p, len);
                    proof {
                        a.lemma_unique_entities();
                        assert(a.ids()[len as int] == e);
                        a.lemma_position(len as int);
                        assert forall|x: EntityId|
                            a.has(x) && b.has(x) && a.position(x) < i + 1 implies #[trigger] a.position(
                            x,
                        ) < len + 1 by {
                            if x != e {
                                let q = a.position(x);
                                assert(a.ids()[q] == x);
                                let q0 = if q == i as int {
                                    len as int
                                } else if q == len as int {
                                    i as int
                                } else {
                                    q
                                };
                                assert(pa.ids()[q0] == x);
                                pa.lemma_position(q0);
                                if q == i as int {
                                    assert(pa.position(x) == len as int);
                                    if len < i {
                                        assert(false);
                                    }
                                }
                            }
                        }
                    }
                    assert(a.ids().subrange(0, len + 1) =~= sub.push(e));
                    len = len + 1;
                },
                None => {
                    proof {
                        assert forall|x: EntityId|
                            a.has(x) && b.has(x) && a.position(x) < i + 1 implies #[trigger] a.position(
                            x,
                        ) < len by {
                            if a.position(x) == i as int {
                                let q = a.position(x);
                                assert(a.ids()[q] == x);
                            }
                        }
                    }
                },
            }
            i = i + 1;
        }
        assert(a0.ids().subrange(0, n as int) =~= a0.ids());
        TightPack { a, b, len }
    }

    pub fn len(&self) -> (r: usize)
        requires
            self.wf(),
        ensures
            r == self.packed_len(),
    {
        self.len
    }

    pub fn first_storage(&self) -> (r: &Storage<A>)
        ensures
            *r == self.first(),
    {
        &self.a
    }

    pub fn second_storage(&self) -> (r: &Storage<B>)
        ensures
            *r == self.second(),
    {
        &self.b
    }

    /// Moves `e` to the end of the packed region where it is present in
    /// both storages and lies outside the region; otherwise changes nothing.
    fn settle(&mut self, e: EntityId)
        requires
            old(self).first().wf(),
            old(self).second().wf(),
            aligned(old(self).first(), old(self).second(), old(self).packed_len()),
            forall|x: EntityId|
                x != e && old(self).first().has(x) && old(self).second().has(x)
                    ==> #[trigger] old(self).first().position(x) < old(self).packed_len(),
        ensures
            final(self).wf(),
            forall|x: EntityId| #[trigger] final(self).first().has(x) == old(self).first().has(x),
            forall|x: EntityId| #[trigger] final(self).second().has(x) == old(self).second().has(x),
            forall|x: EntityId|
                old(self).first().has(x) ==> #[trigger] final(self).first().value(x) == old(
                    self,
                ).first().value(x),
            forall|x: EntityId|
                old(self).second().has(x) ==> #[trigger] final(self).second().value(x) == old(
                    self,
                ).second().value(x),
            if old(self).first().has(e) && old(self).second().has(e) && old(self).first().position(
                e,
            ) >= old(self).packed_len() {
                final(self).packed_len() == old(self).packed_len() + 1 && final(self).packed_ids()
                    == old(self).packed_ids().push(e)
            } else {
                *final(self) == *old(self)
            },
    {
        let len = self.len;
        let ghost a1 = self.a;
        let ghost b1 = self.b;
        proof {
            a1.lemma_unique_entities();
            b1.lemma_unique_entities();
        }
        let n = self.a.len();
        match (self.a.index_of(e), self.b.index_of(e)) {
            (Some(pa), Some(pb)) => {
                if pa >= len {
                    proof {
                        assert forall|k: int| 0 <= k < len implies b1.ids()[k] != e by {
                            assert(a1.ids()[k] == b1.ids()[k]);
                        }
                    }
                    self.a.swap_positions(pa, len);
                    self.b.swap_positions(pb, len);
                    proof {
                        let a2 = self.a;
                        let b2 = self.b;
                        a2.lemma_unique_entities();
                        assert(a2.ids()[len as int] == e);
                        a2.lemma_position(len as int);
                        assert forall|x: EntityId|
                            a2.has(x) && b2.has(x) implies #[trigger] a2.position(x) < len + 1 by {
                            if x != e {
                                let q = a2.position(x);
                                assert(a2.ids()[q] == x);
                                let q0 = if q == pa as int {
                                    len as int
                                } else if q == len as int {
                                    pa as int
                                } else {
                                    q
                                };
                                assert(a1.ids()[q0] == x);
                                a1.lemma_position(q0);
                            }
                        }
                        assert(a2.ids().subrange(0, len + 1) =~= a1.ids().subrange(
                            0,
                            len as int,
                        ).push(e));
                    }
                    self.len = len + 1;
                }
            },
            _ => {},
        }
    }

    /// Gives `e` a component in both storages. A component of an earlier
    /// entity of the same slot index is replaced in place; otherwise `e`
    /// joins the packed region at its end.
    pub fn add_component(&mut self, e: EntityId, va: A, vb: B)
        requires
            old(self).wf(),
        ensures
            final(self).wf(),
            final(self).first().has(e),
            final(self).second().has(e),
            final(self).first().value(e) == va,
            final(self).second().value(e) == vb,
            forall|x: EntityId|
                x.index != e.index ==> (#[trigger] final(self).first().has(x) <==> old(self).first().has(x)),
            forall|x: EntityId|
                x.index != e.index ==> (#[trigger] final(self).second().has(x) <==> old(self).second().has(x)),
            forall|x: EntityId|
                x.index != e.index && old(self).first().has(x) ==> #[trigger] final(self).first().value(x)
                    == old(self).first().value(x),
            forall|x: EntityId|
                x.index != e.index && old(self).second().has(x) ==> #[trigger] final(self).second().value(x)
                    == old(self).second().value(x),
            forall|k: int|
                0 <= k < old(self).packed_len() ==> #[trigger] final(self).packed_ids()[k] == if old(
                    self,
                ).packed_ids()[k].index == e.index {
                    e
                } else {
                    old(self).packed_ids()[k]
                },
            (exists|k: int|
                0 <= k < old(self).packed_len() && #[trigger] old(self).packed_ids()[k].index
                    == e.index) ==> final(self).packed_len() == old(self).packed_len(),
            !(exists|k: int|
                0 <= k < old(self).packed_len() && #[trigger] old(self).packed_ids()[k].index
                    == e.index) ==> final(self).packed_len() == old(self).packed_len() + 1
                && final(self).packed_ids()[old(self).packed_len()] == e,
    {
        let ghost a0 = self.a;
        let ghost b0 = self.b;
        let ghost old_packed = self.packed_ids();
        self.a.insert(e, va);
        self.b.insert(e, vb);
        let len = self.len;
        let ghost a1 = self.a;
        let ghost b1 = self.b;
        proof {
            a0.lemma_unique_entities();
            a1.lemma_unique_entities();
            b1.lemma_unique_entities();
            assert(aligned(a1, b1, len as int)) by {
                assert forall|k: int| 0 <= k < len implies #[trigger] a1.ids()[k] == b1.ids()[k] by {
                    assert(a0.ids()[k] == b0.ids()[k]);
                }
            }
            assert forall|x: EntityId|
                x != e && a1.has(x) && b1.has(x) implies #[trigger] a1.position(x) < len by {
                assert(x.index != e.index);
                assert(a0.has(x) && b0.has(x));
                let q = a0.position(x);
                assert(a0.ids()[q] == x);
                assert(a1.ids()[q] == x);
                a1.lemma_position(q);
            }
            let pe = a1.position(e);
            assert(a1.ids()[pe] == e);
            a1.lemma_position(pe);
            if exists|k: int| 0 <= k < len && #[trigger] old_packed[k].index == e.index {
                let k = choose|k: int| 0 <= k < len && #[trigger] old_packed[k].index == e.index;
                assert(a1.ids()[k] == e);
                a1.lemma_position(k);
            } else {
                assert forall|k: int| 0 <= k < len implies a1.ids()[k] != e by {
                    assert(old_packed[k].index != e.index);
                }
            }
        }
        self.settle(e);
    }

    /// Gives `e` a component in the first storage only. A dead entity of the
    /// same slot index first leaves both storages. Where the second storage
    /// already holds `e`, it joins the packed region at its end.
    pub fn add_first(&mut self, e: EntityId, va: A)
        requires
            old(self).wf(),
        ensures
            final(self).wf(),
            final(self).first().has(e),
            final(self).first().value(e) == va,
            final(self).second().has(e) == old(self).second().has(e),
            old(self).second().has(e) ==> final(self).second().value(e) == old(self).second().value(e),
            forall|x: EntityId|
                x.index == e.index && x != e ==> !#[trigger] final(self).first().has(x) && (final(self).second().has(x) ==> old(self).second().has(x)),
            forall|x: EntityId|
                x.index != e.index ==> (#[trigger] final(self).first().has(x) <==> old(self).first().has(x)),
            forall|x: EntityId|
                x.index != e.index ==> (#[trigger] final(self).second().has(x) <==> old(self).second().has(x)),
            forall|x: EntityId|
                x.index != e.index && old(self).first().has(x) ==> #[trigger] final(self).first().value(x)
                    == old(self).first().value(x),
            forall|x: EntityId|
                x.index != e.index && old(self).second().has(x) ==> #[trigger] final(self).second().value(x)
                    == old(self).second().value(x),
    {
        let ghost start = *self;
        match self.a.entity_with_index(e.index) {
            Some(x) => {
                if x != e {
                    self.remove_component(x);
                }
                proof {
                    assert forall|y: EntityId|
                        y.index == e.index && y != e implies !#[trigger] self.a.has(y) by {
                        if self.a.has(y) {
                            start.first().lemma_one_per_index(x, y);
                        }
                    }
                }
            },
            None => {},
        }
        let ghost a0 = self.a;
        let ghost b0 = self.b;
        self.a.insert(e, va);
        let len = self.len;
        let ghost a1 = self.a;
        proof {
            a0.lemma_unique_entities();
            a1.lemma_unique_entities();
            assert(aligned(a1, b0, len as int)) by {
                assert forall|k: int| 0 <= k < len implies #[trigger] a1.ids()[k] == b0.ids()[k] by {
                    assert(a0.ids()[k] == b0.ids()[k]);
                    a0.lemma_position(k);
                    if a0.ids()[k].index == e.index {
                        assert(a0.has(a0.ids()[k]));
                    }
                }
            }
            assert forall|x: EntityId|
                x != e && a1.has(x) && b0.has(x) implies #[trigger] a1.position(x) < len by {
                assert(x.index != e.index);
                let q = a0.position(x);
                assert(a0.ids()[q] == x);
                assert(a1.ids()[q] == x);
                a1.lemma_position(q);
            }
        }
        self.settle(e);
    }

    /// Gives `e` a component in the second storage only. A dead entity of the
    /// same slot index first leaves both storages. Where the first storage
    /// already holds `e`, it joins the packed region at its end.
    pub fn add_second(&mut self, e: EntityId, vb: B)
        requires
            old(self).wf(),
        ensures
            final(self).wf(),
            final(self).second().has(e),
            final(self).second().value(e) == vb,
            final(self).first().has(e) == old(self).first().has(e),
            old(self).first().has(e) ==> final(self).first().value(e) == old(self).first().value(e),
            forall|x: EntityId|
                x.index == e.index && x != e ==> !#[trigger] final(self).second().has(x) && (final(self).first().has(x) ==> old(self).first().has(x)),
            forall|x: EntityId|
                x.index != e.index ==> (#[trigger] final(self).first().has(x) <==> old(self).first().has(x)),
            forall|x: EntityId|
                x.index != e.index ==> (#[trigger] final(self).second().has(x) <==> old(self).second().has(x)),
            forall|x: EntityId|
                x.index != e.index && old(self).first().has(x) ==> #[trigger] final(self).first().value(x)
                    == old(self).first().value(x),
            forall|x: EntityId|
                x.index != e.index && old(self).second().has(x) ==> #[trigger] final(self).second().value(x)
                    == old(self).second().value(x),
    {
        let ghost start = *self;
        match self.b.entity_with_index(e.index) {
            Some(x) => {
                if x != e {
                    self.remove_component(x);
                }
                proof {
                    assert forall|y: EntityId|
                        y.index == e.index && y != e implies !#[trigger] self.b.has(y) by {
                        if self.b.has(y) {
                            start.second().lemma_one_per_index(x, y);
                        }
                    }
                }
            },
            None => {},
        }
        let ghost a0 = self.a;
        let ghost b0 = self.b;
        self.b.insert(e, vb);
        let len = self.len;
        let ghost b1 = self.b;
        proof {
            b0.lemma_unique_entities();
            b1.lemma_unique_entities();
            assert(aligned(a0, b1, len as int)) by {
                assert forall|k: int| 0 <= k < len implies #[trigger] a0.ids()[k] == b1.ids()[k] by {
                    assert(a0.ids()[k] == b0.ids()[k]);
                    b0.lemma_position(k);
                    if b0.ids()[k].index == e.index {
                        assert(b0.has(b0.ids()[k]));
                    }
                }
            }
        }
        self.settle(e);
    }

    /// Takes the components of `e` out of both storages; an entity leaving
    /// the packed region is first moved to its end.
    pub fn remove_component(&mut self, e: EntityId) -> (r: (Option<A>, Option<B>))
        requires
            old(self).wf(),
        ensures
            final(self).wf(),
            !final(self).first().has(e),
            !final(self).second().has(e),
            r.0 is Some <==> old(self).first().has(e),
            r.1 is Some <==> old(self).second().has(e),
            r.0 matches Some(v) ==> v == old(self).first().value(e),
            r.1 matches Some(v) ==> v == old(self).second().value(e),
            forall|x: EntityId|
                x != e ==> (#[trigger] final(self).first().has(x) <==> old(self).first().has(x)),
            forall|x: EntityId|
                x != e ==> (#[trigger] final(self).second().has(x) <==> old(self).second().has(x)),
            forall|x: EntityId|
                x != e && old(self).first().has(x) ==> #[trigger] final(self).first().value(x)
                    == old(self).first().value(x),
            forall|x: EntityId|
                x != e && old(self).second().has(x) ==> #[trigger] final(self).second().value(x)
                    == old(self).second().value(x),
    {
        let ghost a0 = self.a;
        let ghost b0 = self.b;
        proof {
            a0.lemma_unique_entities();
            b0.lemma_unique_entities();
        }
        match self.a.index_of(e) {
            Some(pa) => {
                if pa < self.len {
                    let last = self.len - 1;
                    proof {
                        assert(b0.ids()[pa as int] == e);
                        b0.lemma_position(pa as int);
                    }
                    self.a.swap_positions(pa, last);
                    self.b.swap_positions(pa, last);
                    proof {
                        let a1 = self.a;
                        let b1 = self.b;
                        assert forall|x: EntityId|
                            a1.has(x) && b1.has(x) && x != e implies #[trigger] a1.position(x)
                            < last by {
                            let q = a1.position(x);
                            assert(a1.ids()[q] == x);
                            let q0 = if q == pa as int {
                                last as int
                            } else if q == last as int {
                                pa as int
                            } else {
                                q
                            };
                            assert(a0.ids()[q0] == x);
                            a0.lemma_position(q0);
                        }
                    }
                    self.len = last;
                }
            },
            None => {},
        }
        let ghost a1 = self.a;
        let ghost b1 = self.b;
        let len = self.len;
        proof {
            a1.lemma_unique_entities();
            b1.lemma_unique_entities();
            if a1.has(e) {
                let p = a1.position(e);
                assert(a1.ids()[p] == e);
                a1.lemma_position(p);
                assert(p >= len);
            }
            if b1.has(e) {
                let p = b1.position(e);
                assert(b1.ids()[p] == e);
                b1.lemma_position(p);
                if p < len {
                    assert(a1.ids()[p] == e);
                    a1.lemma_position(p);
                }
            }
        }
        let ra = self.a.remove(e);
        let rb = self.b.remove(e);
        proof {
            let a2 = self.a;
            let b2 = self.b;
            assert forall|k: int| 0 <= k < len implies #[trigger] a2.ids()[k] == b2.ids()[k] by {
                assert(a1.ids()[k] == b1.ids()[k]);
            }
            assert forall|x: EntityId| a2.has(x) && b2.has(x) implies #[trigger] a2.position(x)
                < len by {
                let q = a2.position(x);
                assert(a2.ids()[q] == x);
                if ra is Some && q == a1.position(e) {
                    assert(a1.ids()[a1.ids().len() - 1] == x);
                    a1.lemma_position(a1.ids().len() - 1);
                } else {
                    assert(a1.ids()[q] == x);
                    a1.lemma_position(q);
                }
                a2.lemma_position(q);
            }
        }
        (ra, rb)
    }

    /// Lock-step traversal of the packed region.
    pub fn iter<'a>(&'a self) -> (r: Tight2<'a, A, B>)
        requires
            self.wf(),
        ensures
            r.wf(),
            r.ids@ == self.first().ids(),
            r.a@ == self.first().values(),
            r.b@ == self.second().values(),
            r.current == 0,
            r.end == self.packed_len(),
    {
        Tight2 {
            ids: self.a.dense_ids(),
            a: self.a.dense_values(),
            b: self.b.dense_values(),
            current: 0,
            end: self.len,
        }
    }

    /// Dismantles the pack, handing back both storages.
    pub fn into_storages(self) -> (r: (Storage<A>, Storage<B>))
        ensures
            r.0 == self.first(),
            r.1 == self.second(),
    {
        (self.a, self.b)
    }
}

/// Lock-step traversal of a tight pack: position `i` of both slices belongs
/// to entity `ids[i]`.
pub struct Tight2<'a, A, B> {
    pub ids: &'a [EntityId],
    pub a: &'a [A],
    pub b: &'a [B],
    pub current: usize,
    pub end: usize,
}

/// Batches of exactly `step` contiguous positions of both slices of a tight
/// pack; the shorter tail is only handed out by `remainder`.
pub struct ChunkExact2<'a, A, B> {
    pub a: &'a [A],
    pub b: &'a [B],
    pub current: usize,
    pub end: usize,
    pub step: usize,
}

impl<'a, A, B> Tight2<'a, A, B> {
    /// Entities still to be yielded, in order.
    pub open spec fn pending(&self) -> Seq<EntityId> {
        self.ids@.subrange(self.current as int, self.end as int)
    }

    pub fn into_chunk_exact(self, step: usize) -> (r: ChunkExact2<'a, A, B>)
        requires
            self.wf(),
            step > 0,
        ensures
            r.wf(),
            r.a == self.a,
            r.b == self.b,
            r.current == self.current,
            r.end == self.end,
            r.step == step,
    {
        ChunkExact2 { a: self.a, b: self.b, current: self.current, end: self.end, step }
    }

    /// Entities of every remaining position, in order.
    pub fn collect_ids(&mut self) -> (r: Vec<EntityId>)
        requires
            old(self).wf(),
        ensures
            r@ == old(self).pending(),
    {
        let mut out: Vec<EntityId> = Vec::new();
        loop
            invariant
                self.wf(),
                self.ids == old(self).ids,
                self.end == old(self).end,
                old(self).current <= self.current,
                out@ == old(self).ids@.subrange(old(self).current as int, self.current as int),
            decreases self.size(),
        {
            match self.first_pass() {
                None => {
                    return out;
                },
                Some(item) => {
                    self.post_process(item);
                    let id = self.current_id();
                    out.push(id);
                    assert(out@ =~= old(self).ids@.subrange(
                        old(self).current as int,
                        self.current as int,
                    ));
                },
            }
        }
    }
}

impl<'a, A, B> Shiperator for Tight2<'a, A, B> {
    type Item = (&'a A, &'a B);

    open spec fn wf(&self) -> bool {
        &&& self.ids@.len() == self.a@.len()
        &&& self.current <= self.end <= self.a@.len()
        &&& self.end <= self.b@.len()
    }

    open spec fn size(&self) -> nat {
        (self.end - self.current) as nat
    }

    open spec fn last_id(&self) -> Option<EntityId> {
        if self.current > 0 {
            Some(self.ids@[self.current - 1])
        } else {
            None
        }
    }

    open spec fn first_pass_ens(&self, r: Option<(&'a A, &'a B)>, next: Self) -> bool {
        &&& next.ids == self.ids
        &&& next.a == self.a
        &&& next.b == self.b
        &&& next.end == self.end
        &&& if self.current < self.end {
            &&& r matches Some((x, y)) && *x == self.a@[self.current as int] && *y
                == self.b@[self.current as int]
            &&& next.current == self.current + 1
        } else {
            r is None && next.current == self.current
        }
    }

    open spec fn post_process_ens(
        &self,
        item: (&'a A, &'a B),
        r: (&'a A, &'a B),
        next: Self,
    ) -> bool {
        r == item && next == *self
    }

    fn first_pass(&mut self) -> (r: Option<(&'a A, &'a B)>) {
        if self.current < self.end {
            let a = self.a;
            let b = self.b;
            let item = (&a[self.current], &b[self.current]);
            self.current = self.current + 1;
            Some(item)
        } else {
            None
        }
    }

    fn post_process(&mut self, item: (&'a A, &'a B)) -> (r: (&'a A, &'a B)) {
        item
    }
}

impl<'a, A, B> CurrentId for Tight2<'a, A, B> {
    proof fn lemma_produced_has_id(&self, r: Option<(&'a A, &'a B)>, next: Self) {
    }

    fn current_id(&self) -> (r: EntityId) {
        self.ids[self.current - 1]
    }
}

impl<'a, A, B> ChunkExact2<'a, A, B> {
    /// The trailing positions that do not fill a whole batch. The end of the
    /// traversal moves back over them, so a second call hands out nothing.
    pub fn remainder(&mut self) -> (r: (&'a [A], &'a [B]))
        requires
            old(self).wf(),
        ensures
            final(self).wf(),
            final(self).a == old(self).a,
            final(self).b == old(self).b,
            final(self).current == old(self).current,
            final(self).step == old(self).step,
            final(self).end == old(self).end - tail_len(
                old(self).current as int,
                old(self).end as int,
                old(self).step as int,
            ),
            r.0@ == old(self).a@.subrange(final(self).end as int, old(self).end as int),
            r.1@ == old(self).b@.subrange(final(self).end as int, old(self).end as int),
    {
        let left = self.end - self.current;
        let remainder = left % self.step;
        proof {
            lemma_mod_decreases(left as nat, self.step as nat);
        }
        let old_end = self.end;
        self.end = self.end - remainder;
        (slice_subrange(self.a, self.end, old_end), slice_subrange(self.b, self.end, old_end))
    }
}

impl<'a, A, B> Shiperator for ChunkExact2<'a, A, B> {
    type Item = (&'a [A], &'a [B]);

    open spec fn wf(&self) -> bool {
        self.current <= self.end <= self.a@.len() && self.end <= self.b@.len() && self.step > 0
    }

    open spec fn size(&self) -> nat {
        (self.end - self.current) as nat
    }

    open spec fn last_id(&self) -> Option<EntityId> {
        None
    }

    open spec fn first_pass_ens(&self, r: Option<(&'a [A], &'a [B])>, next: Self) -> bool {
        &&& next.a == self.a
        &&& next.b == self.b
        &&& next.end == self.end
        &&& next.step == self.step
        &&& if self.current + self.step <= self.end {
            &&& r matches Some((x, y)) && x@ == self.a@.subrange(
                self.current as int,
                self.current + self.step,
            ) && y@ == self.b@.subrange(self.current as int, self.current + self.step)
            &&& next.current == self.current + self.step
        } else {
            r is None && next.current == self.current
        }
    }

    open spec fn post_process_ens(
        &self,
        item: (&'a [A], &'a [B]),
        r: (&'a [A], &'a [B]),
        next: Self,
    ) -> bool {
        r == item && next == *self
    }

    fn first_pass(&mut self) -> (r: Option<(&'a [A], &'a [B])>) {
        let current = self.current;
        if self.step <= self.end - current {
            self.current = current + self.step;
            Some((slice_subrange(self.a, current, self.current), slice_subrange(self.b, current, self.current)))
        } else {
            None
        }
    }

    fn post_process(&mut self, item: (&'a [A], &'a [B])) -> (r: (&'a [A], &'a [B])) {
        item
    }
}

} // verus!
