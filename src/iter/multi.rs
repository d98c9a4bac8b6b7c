use vstd::prelude::*;
use crate::entity::EntityId;
use crate::iter::shiperator::{CurrentId, Shiperator};
use crate::storage::{no_duplicates, Storage};

verus! {

/// The entities of `ids` that `keep` accepts, in the order of `ids`.
pub open spec fn matching(ids: Seq<EntityId>, keep: spec_fn(EntityId) -> bool) -> Seq<EntityId>
    decreases ids.len(),
{
    if ids.len() == 0 {
        Seq::empty()
    } else if keep(ids[0]) {
        seq![ids[0]] + matching(ids.drop_first(), keep)
    } else {
        matching(ids.drop_first(), keep)
    }
}

/// Entities that hold a component in both storages.
pub open spec fn in_both<A, B>(a: Storage<A>, b: Storage<B>) -> spec_fn(EntityId) -> bool {
    |e: EntityId| a.has(e) && b.has(e)
}

/// Entities that hold a component in `a` and none in `b`.
pub open spec fn in_first_only<A, B>(a: Storage<A>, b: Storage<B>) -> spec_fn(EntityId) -> bool {
    |e: EntityId| a.has(e) && !b.has(e)
}

proof fn lemma_matching_step(ids: Seq<EntityId>, keep: spec_fn(EntityId) -> bool, c: int, e: int)
    requires
        0 <= c < e <= ids.len(),
    ensures
        matching(ids.subrange(c, e), keep) == if keep(ids[c]) {
            seq![ids[c]] + matching(ids.subrange(c + 1, e), keep)
        } else {
            matching(ids.subrange(c + 1, e), keep)
        },
{
    assert(ids.subrange(c, e).drop_first() =~= ids.subrange(c + 1, e));
}

/// `matching` of a sequence extended by `x` extends the result by `x`
/// exactly when `keep` accepts it.
pub proof fn lemma_matching_push(ids: Seq<EntityId>, keep: spec_fn(EntityId) -> bool, x: EntityId)
    ensures
        matching(ids.push(x), keep) == matching(ids, keep) + if keep(x) {
            seq![x]
        } else {
            Seq::<EntityId>::empty()
        },
    decreases ids.len(),
{
    let tail = if keep(x) {
        seq![x]
    } else {
        Seq::<EntityId>::empty()
    };
    if ids.len() == 0 {
        assert(ids.push(x).drop_first() =~= Seq::<EntityId>::empty());
        assert(matching(Seq::<EntityId>::empty(), keep) =~= Seq::<EntityId>::empty());
        assert(matching(ids, keep) + tail =~= tail);
    } else {
        assert(ids.push(x).drop_first() =~= ids.drop_first().push(x));
        lemma_matching_push(ids.drop_first(), keep, x);
        let m = matching(ids.drop_first(), keep);
        assert(seq![ids[0]] + (m + tail) =~= (seq![ids[0]] + m) + tail);
    }
}

/// Membership in `matching` is membership in `ids` together with `keep`.
pub proof fn lemma_matching_contains(ids: Seq<EntityId>, keep: spec_fn(EntityId) -> bool)
    ensures
        forall|x: EntityId| #[trigger]
            matching(ids, keep).contains(x) <==> ids.contains(x) && keep(x),
    decreases ids.len(),
{
    if ids.len() > 0 {
        let rest = ids.drop_first();
        let m = matching(rest, keep);
        lemma_matching_contains(rest, keep);
        assert forall|x: EntityId| #[trigger]
            matching(ids, keep).contains(x) implies ids.contains(x) && keep(x) by {
            let s = matching(ids, keep);
            let i = s.index_of(x);
            if keep(ids[0]) && i == 0 {
                assert(ids[0] == x);
            } else {
                let j = if keep(ids[0]) { i - 1 } else { i };
                assert(m[j] == x);
                assert(m.contains(x));
                let k = rest.index_of(x);
                assert(ids[k + 1] == x);
            }
        }
        assert forall|x: EntityId| ids.contains(x) && keep(x) implies #[trigger]
            matching(ids, keep).contains(x) by {
            let s = matching(ids, keep);
            if x == ids[0] {
                assert(s[0] == x);
            } else {
                let i = ids.index_of(x);
                assert(rest[i - 1] == x);
                assert(m.contains(x));
                let j = m.index_of(x);
                if keep(ids[0]) {
                    assert(s[j + 1] == x);
                } else {
                    assert(s[j] == x);
                }
            }
        }
    }
}

/// `matching` keeps a sequence free of repeated entities.
pub proof fn lemma_matching_no_duplicates(ids: Seq<EntityId>, keep: spec_fn(EntityId) -> bool)
    requires
        no_duplicates(ids),
    ensures
        no_duplicates(matching(ids, keep)),
    decreases ids.len(),
{
    if ids.len() > 0 {
        let rest = ids.drop_first();
        lemma_rest_no_duplicates(ids);
        lemma_matching_no_duplicates(rest, keep);
        lemma_matching_contains(rest, keep);
        if keep(ids[0]) {
            let m = matching(rest, keep);
            let s = seq![ids[0]] + m;
            assert forall|i: int, j: int|
                0 <= i < s.len() && 0 <= j < s.len() && i != j implies s[i] != s[j] by {
                if i == 0 && j > 0 {
                    assert(s[j] == m[j - 1]);
                    assert(m.contains(s[j]));
                    if rest.contains(ids[0]) {
                        let k = rest.index_of(ids[0]);
                        assert(ids[k + 1] == ids[0]);
                    }
                } else if j == 0 && i > 0 {
                    assert(s[i] == m[i - 1]);
                    assert(m.contains(s[i]));
                    if rest.contains(ids[0]) {
                        let k = rest.index_of(ids[0]);
                        assert(ids[k + 1] == ids[0]);
                    }
                } else if i > 0 && j > 0 {
                    assert(s[i] == m[i - 1] && s[j] == m[j - 1]);
                }
            }
        }
    }
}

proof fn lemma_rest_no_duplicates(ids: Seq<EntityId>)
    requires
        no_duplicates(ids),
        ids.len() > 0,
    ensures
        no_duplicates(ids.drop_first()),
{
    let rest = ids.drop_first();
    assert forall|i: int, j: int|
        0 <= i < rest.len() && 0 <= j < rest.len() && i != j implies rest[i] != rest[j] by {
        assert(rest[i] == ids[i + 1] && rest[j] == ids[j + 1]);
    }
}

proof fn lemma_index_of_unique(s: Seq<EntityId>, k: int)
    requires
        no_duplicates(s),
        0 <= k < s.len(),
    ensures
        s.index_of(s[k]) == k,
{
    assert(s.contains(s[k]));
    let p = s.index_of(s[k]);
    assert(s[p] == s[k]);
}

/// `matching` keeps the relative order of `ids`.
pub proof fn lemma_matching_in_order(ids: Seq<EntityId>, keep: spec_fn(EntityId) -> bool)
    requires
        no_duplicates(ids),
    ensures
        forall|i: int, j: int|
            0 <= i < j < matching(ids, keep).len() ==> ids.index_of(
                #[trigger] matching(ids, keep)[i],
            ) < ids.index_of(#[trigger] matching(ids, keep)[j]),
    decreases ids.len(),
{
    if ids.len() > 0 {
        let rest = ids.drop_first();
        let m = matching(rest, keep);
        lemma_rest_no_duplicates(ids);
        lemma_matching_in_order(rest, keep);
        lemma_matching_contains(rest, keep);
        assert forall|k: int| 0 <= k < m.len() implies ids.index_of(#[trigger] m[k])
            == rest.index_of(m[k]) + 1 by {
            assert(m.contains(m[k]));
            let q = rest.index_of(m[k]);
            assert(rest[q] == m[k]);
            assert(ids[q + 1] == m[k]);
            lemma_index_of_unique(ids, q + 1);
        }
        let full = matching(ids, keep);
        if keep(ids[0]) {
            lemma_index_of_unique(ids, 0);
            assert forall|i: int, j: int| 0 <= i < j < full.len() implies ids.index_of(
                #[trigger] full[i],
            ) < ids.index_of(#[trigger] full[j]) by {
                assert(full[j] == m[j - 1]);
                if i > 0 {
                    assert(full[i] == m[i - 1]);
                } else {
                    assert(full[i] == ids[0]);
                    assert(m.contains(m[j - 1]));
                    let q = rest.index_of(m[j - 1]);
                    assert(rest[q] == m[j - 1]);
                }
            }
        }
    }
}

/// Lock-step traversal of two storages. The smaller one drives the cursor
/// over its dense entities; the other is probed by entity, and a candidate
/// missing from either storage is skipped without being exposed.
pub struct Iter2<'a, A, B> {
    pub a: &'a Storage<A>,
    pub b: &'a Storage<B>,
    pub ids: &'a [EntityId],
    pub current: usize,
    pub end: usize,
}

impl<'a, A, B> Iter2<'a, A, B> {
    /// Entities still to be yielded, in order.
    pub open spec fn pending(&self) -> Seq<EntityId> {
        matching(self.ids@.subrange(self.current as int, self.end as int), in_both(*self.a, *self.b))
    }

    pub fn new(a: &'a Storage<A>, b: &'a Storage<B>) -> (r: Self)
        requires
            a.wf(),
            b.wf(),
        ensures
            r.wf(),
            r.a == a,
            r.b == b,
            r.ids@ == if a.ids().len() <= b.ids().len() {
                a.ids()
            } else {
                b.ids()
            },
            r.pending() == matching(r.ids@, in_both(*a, *b)),
            r.last_id() is None,
    {
        let ids = if a.len() <= b.len() {
            a.dense_ids()
        } else {
            b.dense_ids()
        };
        let r = Iter2 { a, b, ids, current: 0, end: ids.len() };
        assert(r.ids@.subrange(0, r.end as int) =~= r.ids@);
        r
    }

    /// Entities of every remaining match, in order.
    pub fn collect_ids(&mut self) -> (r: Vec<EntityId>)
        requires
            old(self).wf(),
        ensures
            r@ == old(self).pending(),
    {
        let mut out: Vec<EntityId> = Vec::new();
        loop
            invariant
                self.wf(),
                out@ + self.pending() == old(self).pending(),
            decreases self.size(),
        {
            let ghost pre = *self;
            match self.first_pass() {
                None => {
                    assert(out@ + pre.pending() =~= out@);
                    return out;
                },
                Some(item) => {
                    self.post_process(item);
                    let id = self.current_id();
                    proof {
                        assert(out@.push(id) + self.pending() =~= out@ + pre.pending());
                    }
                    out.push(id);
                },
            }
        }
    }
}

impl<'a, A, B> Shiperator for Iter2<'a, A, B> {
    type Item = (&'a A, &'a B);

    open spec fn wf(&self) -> bool {
        &&& self.a.wf()
        &&& self.b.wf()
        &&& self.ids@ == self.a.ids() || self.ids@ == self.b.ids()
        &&& self.current <= self.end <= self.ids@.len()
    }

    open spec fn size(&self) -> nat {
        (self.end - self.current) as nat
    }

    open spec fn last_id(&self) -> Option<EntityId> {
        if self.current > 0 {
            Some(self.ids@[self.current - 1])
        } else {
            None
        }
    }

    open spec fn first_pass_ens(&self, r: Option<(&'a A, &'a B)>, next: Self) -> bool {
        &&& next.a == self.a
        &&& next.b == self.b
        &&& next.ids == self.ids
        &&& next.end == self.end
        &&& (r is None <==> self.pending().len() == 0)
        &&& r is None ==> next.pending().len() == 0
        &&& r matches Some((x, y)) ==> {
            &&& self.pending().len() > 0
            &&& next.last_id() == Some(self.pending()[0])
            &&& *x == self.a.value(self.pending()[0])
            &&& *y == self.b.value(self.pending()[0])
            &&& next.pending() == self.pending().drop_first()
        }
    }

    open spec fn post_process_ens(
        &self,
        item: (&'a A, &'a B),
        r: (&'a A, &'a B),
        next: Self,
    ) -> bool {
        r == item && next == *self
    }

    fn first_pass(&mut self) -> (r: Option<(&'a A, &'a B)>) {
        let ghost pre = *self;
        while self.current < self.end
            invariant
                self.wf(),
                self.a == pre.a,
                self.b == pre.b,
                self.ids == pre.ids,
                self.end == pre.end,
                self.pending() == pre.pending(),
                pre.current <= self.current,
                pre == *old(self),
            decreases self.end - self.current,
        {
            let id = self.ids[self.current];
            proof {
                lemma_matching_step(
                    self.ids@,
                    in_both(*self.a, *self.b),
                    self.current as int,
                    self.end as int,
                );
            }
            self.current = self.current + 1;
            match (self.a.get(id), self.b.get(id)) {
                (Some(x), Some(y)) => {
                    assert(in_both(*self.a, *self.b)(id));
                    assert(pre.pending() == seq![id] + self.pending());
                    assert(pre.pending()[0] == id);
                    assert(self.pending() =~= pre.pending().drop_first());
                    return Some((x, y));
                },
                _ => {},
            }
        }
        assert(self.ids@.subrange(self.current as int, self.end as int) =~= Seq::empty());
        None
    }

    fn post_process(&mut self, item: (&'a A, &'a B)) -> (r: (&'a A, &'a B)) {
        item
    }
}

impl<'a, A, B> CurrentId for Iter2<'a, A, B> {
    proof fn lemma_produced_has_id(&self, r: Option<(&'a A, &'a B)>, next: Self) {
    }

    fn current_id(&self) -> (r: EntityId) {
        self.ids[self.current - 1]
    }
}

/// Traversal of storage `a` restricted to the entities that hold no
/// component in `b`; `b` is only probed for membership, never read.
pub struct IterNot<'a, A, B> {
    pub a: &'a Storage<A>,
    pub b: &'a Storage<B>,
    pub ids: &'a [EntityId],
    pub current: usize,
    pub end: usize,
}

impl<'a, A, B> IterNot<'a, A, B> {
    /// Entities still to be yielded, in order.
    pub open spec fn pending(&self) -> Seq<EntityId> {
        matching(
            self.ids@.subrange(self.current as int, self.end as int),
            in_first_only(*self.a, *self.b),
        )
    }

    pub fn new(a: &'a Storage<A>, b: &'a Storage<B>) -> (r: Self)
        requires
            a.wf(),
            b.wf(),
        ensures
            r.wf(),
            r.a == a,
            r.b == b,
            r.ids@ == a.ids(),
            r.pending() == matching(a.ids(), in_first_only(*a, *b)),
            r.last_id() is None,
    {
        let ids = a.dense_ids();
        let r = IterNot { a, b, ids, current: 0, end: ids.len() };
        assert(r.ids@.subrange(0, r.end as int) =~= r.ids@);
        r
    }

    /// Entities of every remaining match, in order.
    pub fn collect_ids(&mut self) -> (r: Vec<EntityId>)
        requires
            old(self).wf(),
        ensures
            r@ == old(self).pending(),
    {
        let mut out: Vec<EntityId> = Vec::new();
        loop
            invariant
                self.wf(),
                out@ + self.pending() == old(self).pending(),
            decreases self.size(),
        {
            let ghost pre = *self;
            match self.first_pass() {
                None => {
                    assert(out@ + pre.pending() =~= out@);
                    return out;
                },
                Some(item) => {
                    self.post_process(item);
                    let id = self.current_id();
                    proof {
                        assert(out@.push(id) + self.pending() =~= out@ + pre.pending());
                    }
                    out.push(id);
                },
            }
        }
    }
}

impl<'a, A, B> Shiperator for IterNot<'a, A, B> {
    type Item = &'a A;

    open spec fn wf(&self) -> bool {
        &&& self.a.wf()
        &&& self.b.wf()
        &&& self.ids@ == self.a.ids()
        &&& self.current <= self.end <= self.ids@.len()
    }

    open spec fn size(&self) -> nat {
        (self.end - self.current) as nat
    }

    open spec fn last_id(&self) -> Option<EntityId> {
        if self.current > 0 {
            Some(self.ids@[self.current - 1])
        } else {
            None
        }
    }

    open spec fn first_pass_ens(&self, r: Option<&'a A>, next: Self) -> bool {
        &&& next.a == self.a
        &&& next.b == self.b
        &&& next.ids == self.ids
        &&& next.end == self.end
        &&& (r is None <==> self.pending().len() == 0)
        &&& r is None ==> next.pending().len() == 0
        &&& r matches Some(x) ==> {
            &&& self.pending().len() > 0
            &&& next.last_id() == Some(self.pending()[0])
            &&& *x == self.a.value(self.pending()[0])
            &&& next.pending() == self.pending().drop_first()
        }
    }

    open spec fn post_process_ens(&self, item: &'a A, r: &'a A, next: Self) -> bool {
        r == item && next == *self
    }

    fn first_pass(&mut self) -> (r: Option<&'a A>) {
        let ghost pre = *self;
        while self.current < self.end
            invariant
                self.wf(),
                self.a == pre.a,
                self.b == pre.b,
                self.ids == pre.ids,
                self.end == pre.end,
                self.pending() == pre.pending(),
                pre.current <= self.current,
                pre == *old(self),
            decreases self.end - self.current,
        {
            let id = self.ids[self.current];
            proof {
                lemma_matching_step(
                    self.ids@,
                    in_first_only(*self.a, *self.b),
                    self.current as int,
                    self.end as int,
                );
            }
            self.current = self.current + 1;
            if !self.b.contains(id) {
                match self.a.get(id) {
                    Some(x) => {
                        assert(in_first_only(*self.a, *self.b)(id));
                        assert(pre.pending() == seq![id] + self.pending());
                        assert(pre.pending()[0] == id);
                        assert(self.pending() =~= pre.pending().drop_first());
                        return Some(x);
                    },
                    None => {},
                }
            }
        }
        assert(self.ids@.subrange(self.current as int, self.end as int) =~= Seq::empty());
        None
    }

    fn post_process(&mut self, item: &'a A) -> (r: &'a A) {
        item
    }
}

impl<'a, A, B> CurrentId for IterNot<'a, A, B> {
    proof fn lemma_produced_has_id(&self, r: Option<&'a A>, next: Self) {
    }

    fn current_id(&self) -> (r: EntityId) {
        self.ids[self.current - 1]
    }
}

/// Lock-step traversal of two storages yields exactly the entities present
/// in both, each once, in ascending dense position of the storage that
/// drives it.
pub proof fn lemma_pair_yields_intersection<A, B>(
    a: Storage<A>,
    b: Storage<B>,
    driver: Seq<EntityId>,
)
    requires
        a.wf(),
        b.wf(),
        driver == a.ids() || driver == b.ids(),
    ensures
        forall|e: EntityId| #[trigger]
            matching(driver, in_both(a, b)).contains(e) <==> a.has(e) && b.has(e),
        no_duplicates(matching(driver, in_both(a, b))),
        forall|i: int, j: int|
            0 <= i < j < matching(driver, in_both(a, b)).len() ==> driver.index_of(
                #[trigger] matching(driver, in_both(a, b))[i],
            ) < driver.index_of(#[trigger] matching(driver, in_both(a, b))[j]),
{
    lemma_matching_contains(driver, in_both(a, b));
    a.lemma_unique_entities();
    b.lemma_unique_entities();
    lemma_matching_no_duplicates(driver, in_both(a, b));
    lemma_matching_in_order(driver, in_both(a, b));
}

/// A negated filter over the entities of `a` yields exactly those entities
/// of `a` that hold no component in `b`, each once.
pub proof fn lemma_not_filter_yields_difference<A, B>(a: Storage<A>, b: Storage<B>)
    requires
        a.wf(),
        b.wf(),
    ensures
        forall|e: EntityId| #[trigger]
            matching(a.ids(), in_first_only(a, b)).contains(e) <==> a.has(e) && !b.has(e),
        no_duplicates(matching(a.ids(), in_first_only(a, b))),
{
    lemma_matching_contains(a.ids(), in_first_only(a, b));
    a.lemma_unique_entities();
    lemma_matching_no_duplicates(a.ids(), in_first_only(a, b));
}

} // verus!
