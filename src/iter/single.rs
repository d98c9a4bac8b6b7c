use vstd::prelude::*;
use vstd::arithmetic::div_mod::{
    lemma_basic_div, lemma_div_plus_one, lemma_fundamental_div_mod, lemma_mod_bound, lemma_mod_decreases,
    lemma_small_mod,
};
use vstd::slice::slice_subrange;
use crate::entity::EntityId;
use crate::iter::shiperator::{CurrentId, Shiperator};
use crate::storage::Storage;

verus! {

/// Dense traversal of one storage whose layout is contiguous.
pub struct Tight1<'a, T> {
    pub ids: &'a [EntityId],
    pub data: &'a [T],
    pub current: usize,
    pub end: usize,
}

/// Traversal of one update-tracked storage; each kept item has its dense
/// position recorded in `observed`.
pub struct Update1<'a, T> {
    pub ids: &'a [EntityId],
    pub data: &'a [T],
    pub current: usize,
    pub end: usize,
    pub observed: Vec<usize>,
}

/// Traversal of one storage, through whichever path its layout calls for.
pub enum Iter1<'a, T> {
    Tight(Tight1<'a, T>),
    Update(Update1<'a, T>),
}

/// Batches of `step` contiguous components; the last one may be shorter.
pub struct Chunk1<'a, T> {
    pub data: &'a [T],
    pub current: usize,
    pub end: usize,
    pub step: usize,
}

/// Batches of exactly `step` contiguous components; the tail shorter than
/// `step` is only handed out by `remainder`.
pub struct ChunkExact1<'a, T> {
    pub data: &'a [T],
    pub current: usize,
    pub end: usize,
    pub step: usize,
}

impl<'a, T> Storage<T> {
    /// Iterator over every component, tight unless the storage is update tracked.
    pub fn iter(&'a self) -> (r: Iter1<'a, T>)
        requires
            self.wf(),
        ensures
            r.wf(),
            r.ids() == self.ids(),
            r.data() == self.values(),
            r.start() == 0,
            r.end() == self.ids().len(),
            r is Update <==> self.is_update_packed(),
    {
        let ids = self.dense_ids();
        let data = self.dense_values();
        if self.is_update_packed_exec() {
            Iter1::Update(Update1 { ids, data, current: 0, end: data.len(), observed: Vec::new() })
        } else {
            Iter1::Tight(Tight1 { ids, data, current: 0, end: data.len() })
        }
    }
}

impl<'a, T> Tight1<'a, T> {
    pub fn into_chunk(self, step: usize) -> (r: Chunk1<'a, T>)
        requires
            self.wf(),
            step > 0,
        ensures
            r.wf(),
            r.data == self.data,
            r.current == self.current,
            r.end == self.end,
            r.step == step,
    {
        Chunk1 { data: self.data, current: self.current, end: self.end, step }
    }

    pub fn into_chunk_exact(self, step: usize) -> (r: ChunkExact1<'a, T>)
        requires
            self.wf(),
            step > 0,
        ensures
            r.wf(),
            r.data == self.data,
            r.current == self.current,
            r.end == self.end,
            r.step == step,
    {
        ChunkExact1 { data: self.data, current: self.current, end: self.end, step }
    }
}

impl<'a, T> Shiperator for Tight1<'a, T> {
    type Item = &'a T;

    open spec fn wf(&self) -> bool {
        self.ids@.len() == self.data@.len() && self.current <= self.end <= self.data@.len()
    }

    open spec fn size(&self) -> nat {
        (self.end - self.current) as nat
    }

    open spec fn last_id(&self) -> Option<EntityId> {
        if self.current > 0 {
            Some(self.ids@[self.current - 1])
        } else {
            None
        }
    }

    open spec fn first_pass_ens(&self, r: Option<&'a T>, next: Self) -> bool {
        &&& next.ids == self.ids
        &&& next.data == self.data
        &&& next.end == self.end
        &&& if self.current < self.end {
            &&& r matches Some(x) && *x == self.data@[self.current as int]
            &&& next.current == self.current + 1
        } else {
            r is None && next.current == self.current
        }
    }

    open spec fn post_process_ens(&self, item: &'a T, r: &'a T, next: Self) -> bool {
        r == item && next == *self
    }

    fn first_pass(&mut self) -> (r: Option<&'a T>) {
        if self.current < self.end {
            let data = self.data;
            let item = &data[self.current];
            self.current = self.current + 1;
            Some(item)
        } else {
            None
        }
    }

    fn post_process(&mut self, item: &'a T) -> (r: &'a T) {
        item
    }
}

impl<'a, T> CurrentId for Tight1<'a, T> {
    proof fn lemma_produced_has_id(&self, r: Option<&'a T>, next: Self) {
    }

    fn current_id(&self) -> (r: EntityId) {
        self.ids[self.current - 1]
    }
}

impl<'a, T> Shiperator for Update1<'a, T> {
    type Item = &'a T;

    /// Every recorded position lies before the cursor.
    open spec fn wf(&self) -> bool {
        &&& self.ids@.len() == self.data@.len()
        &&& self.current <= self.end <= self.data@.len()
        &&& forall|k: int| 0 <= k < self.observed@.len() ==> #[trigger] self.observed@[k] < self.current
    }

    open spec fn size(&self) -> nat {
        (self.end - self.current) as nat
    }

    open spec fn last_id(&self) -> Option<EntityId> {
        if self.current > 0 {
            Some(self.ids@[self.current - 1])
        } else {
            None
        }
    }

    open spec fn first_pass_ens(&self, r: Option<&'a T>, next: Self) -> bool {
        &&& next.ids == self.ids
        &&& next.data == self.data
        &&& next.end == self.end
        &&& next.observed@ == self.observed@
        &&& if self.current < self.end {
            &&& r matches Some(x) && *x == self.data@[self.current as int]
            &&& next.current == self.current + 1
        } else {
            r is None && next.current == self.current
        }
    }

    /// Keeping an item records its dense position as observed.
    open spec fn post_process_ens(&self, item: &'a T, r: &'a T, next: Self) -> bool {
        &&& r == item
        &&& next.ids == self.ids
        &&& next.data == self.data
        &&& next.current == self.current
        &&& next.end == self.end
        &&& next.observed@ == if self.current > 0 {
            self.observed@.push((self.current - 1) as usize)
        } else {
            self.observed@
        }
    }

    fn first_pass(&mut self) -> (r: Option<&'a T>) {
        if self.current < self.end {
            let data = self.data;
            let item = &data[self.current];
            self.current = self.current + 1;
            Some(item)
        } else {
            None
        }
    }

    fn post_process(&mut self, item: &'a T) -> (r: &'a T) {
        if self.current > 0 {
            self.observed.push(self.current - 1);
        }
        item
    }
}

impl<'a, T> CurrentId for Update1<'a, T> {
    proof fn lemma_produced_has_id(&self, r: Option<&'a T>, next: Self) {
    }

    fn current_id(&self) -> (r: EntityId) {
        self.ids[self.current - 1]
    }
}

impl<'a, T> Iter1<'a, T> {
    pub open spec fn ids(&self) -> Seq<EntityId> {
        match self {
            Iter1::Tight(t) => t.ids@,
            Iter1::Update(u) => u.ids@,
        }
    }

    pub open spec fn data(&self) -> Seq<T> {
        match self {
            Iter1::Tight(t) => t.data@,
            Iter1::Update(u) => u.data@,
        }
    }

    pub open spec fn start(&self) -> int {
        match self {
            Iter1::Tight(t) => t.current as int,
            Iter1::Update(u) => u.current as int,
        }
    }

    pub open spec fn end(&self) -> int {
        match self {
            Iter1::Tight(t) => t.end as int,
            Iter1::Update(u) => u.end as int,
        }
    }

    /// Batches of `step` components; refused, with the iterator handed back
    /// unchanged, where the traversal is update tracked.
    pub fn into_chunk(self, step: usize) -> (r: Result<Chunk1<'a, T>, Self>)
        requires
            self.wf(),
            self is Tight ==> step > 0,
        ensures
            self is Update ==> r == Err::<Chunk1<'a, T>, Self>(self),
            self matches Iter1::Tight(t) ==> r matches Ok(c) && c.wf() && c.data == t.data
                && c.current == t.current && c.end == t.end && c.step == step,
    {
        match self {
            Iter1::Tight(tight) => Ok(tight.into_chunk(step)),
            _ => Err(self),
        }
    }

    /// Batches of exactly `step` components; refused, with the iterator handed
    /// back unchanged, where the traversal is update tracked.
    pub fn into_chunk_exact(self, step: usize) -> (r: Result<ChunkExact1<'a, T>, Self>)
        requires
            self.wf(),
            self is Tight ==> step > 0,
        ensures
            self is Update ==> r == Err::<ChunkExact1<'a, T>, Self>(self),
            self matches Iter1::Tight(t) ==> r matches Ok(c) && c.wf() && c.data == t.data
                && c.current == t.current && c.end == t.end && c.step == step,
    {
        match self {
            Iter1::Tight(tight) => Ok(tight.into_chunk_exact(step)),
            _ => Err(self),
        }
    }
}

impl<'a, T> Shiperator for Iter1<'a, T> {
    type Item = &'a T;

    open spec fn wf(&self) -> bool {
        match self {
            Iter1::Tight(t) => t.wf(),
            Iter1::Update(u) => u.wf(),
        }
    }

    open spec fn size(&self) -> nat {
        match self {
            Iter1::Tight(t) => t.size(),
            Iter1::Update(u) => u.size(),
        }
    }

    open spec fn last_id(&self) -> Option<EntityId> {
        match self {
            Iter1::Tight(t) => t.last_id(),
            Iter1::Update(u) => u.last_id(),
        }
    }

    open spec fn first_pass_ens(&self, r: Option<&'a T>, next: Self) -> bool {
        match (self, next) {
            (Iter1::Tight(t), Iter1::Tight(n)) => t.first_pass_ens(r, n),
            (Iter1::Update(u), Iter1::Update(n)) => u.first_pass_ens(r, n),
            _ => false,
        }
    }

    open spec fn post_process_ens(&self, item: &'a T, r: &'a T, next: Self) -> bool {
        match (self, next) {
            (Iter1::Tight(t), Iter1::Tight(n)) => t.post_process_ens(item, r, n),
            (Iter1::Update(u), Iter1::Update(n)) => u.post_process_ens(item, r, n),
            _ => false,
        }
    }

    fn first_pass(&mut self) -> (r: Option<&'a T>) {
        match self {
            Iter1::Tight(tight) => tight.first_pass(),
            Iter1::Update(update) => update.first_pass(),
        }
    }

    fn post_process(&mut self, item: &'a T) -> (r: &'a T) {
        match self {
            Iter1::Tight(tight) => tight.post_process(item),
            Iter1::Update(update) => update.post_process(item),
        }
    }
}

impl<'a, T> CurrentId for Iter1<'a, T> {
    proof fn lemma_produced_has_id(&self, r: Option<&'a T>, next: Self) {
    }

    fn current_id(&self) -> (r: EntityId) {
        match self {
            Iter1::Tight(tight) => tight.current_id(),
            Iter1::Update(update) => update.current_id(),
        }
    }
}

impl<'a, T> Chunk1<'a, T> {
    /// End of the batch that starts at `current`.
    pub open spec fn batch_end(&self) -> int {
        if self.end - self.current < self.step {
            self.end as int
        } else {
            self.current + self.step
        }
    }
}

impl<'a, T> Shiperator for Chunk1<'a, T> {
    type Item = &'a [T];

    open spec fn wf(&self) -> bool {
        self.current <= self.end <= self.data@.len() && self.step > 0
    }

    open spec fn size(&self) -> nat {
        (self.end - self.current) as nat
    }

    open spec fn last_id(&self) -> Option<EntityId> {
        None
    }

    open spec fn first_pass_ens(&self, r: Option<&'a [T]>, next: Self) -> bool {
        &&& next.data == self.data
        &&& next.end == self.end
        &&& next.step == self.step
        &&& if self.current < self.end {
            &&& r matches Some(s) && s@ == self.data@.subrange(
                self.current as int,
                self.batch_end(),
            )
            &&& next.current == self.batch_end()
        } else {
            r is None && next.current == self.current
        }
    }

    open spec fn post_process_ens(&self, item: &'a [T], r: &'a [T], next: Self) -> bool {
        r == item && next == *self
    }

    fn first_pass(&mut self) -> (r: Option<&'a [T]>) {
        if self.current < self.end {
            let start = self.current;
            if self.end - self.current < self.step {
                self.current = self.end;
            } else {
                self.current = self.current + self.step;
            }
            Some(slice_subrange(self.data, start, self.current))
        } else {
            None
        }
    }

    fn post_process(&mut self, item: &'a [T]) -> (r: &'a [T]) {
        item
    }
}

impl<'a, T> ChunkExact1<'a, T> {
    /// Length of the tail that `remainder` hands out.
    pub open spec fn remainder_len(&self) -> int {
        tail_len(self.current as int, self.end as int, self.step as int)
    }

    /// The trailing components that do not fill a whole batch. The end of the
    /// traversal moves back over them, so a second call hands out nothing.
    pub fn remainder(&mut self) -> (r: &'a [T])
        requires
            old(self).wf(),
        ensures
            final(self).wf(),
            final(self).data == old(self).data,
            final(self).current == old(self).current,
            final(self).step == old(self).step,
            final(self).end == old(self).end - old(self).remainder_len(),
            r@ == old(self).data@.subrange(final(self).end as int, old(self).end as int),
    {
        let left = self.end - self.current;
        let remainder = left % self.step;
        proof {
            lemma_mod_decreases(left as nat, self.step as nat);
        }
        let old_end = self.end;
        self.end = self.end - remainder;
        slice_subrange(self.data, self.end, old_end)
    }
}

impl<'a, T> Shiperator for ChunkExact1<'a, T> {
    type Item = &'a [T];

    open spec fn wf(&self) -> bool {
        self.current <= self.end <= self.data@.len() && self.step > 0
    }

    open spec fn size(&self) -> nat {
        (self.end - self.current) as nat
    }

    open spec fn last_id(&self) -> Option<EntityId> {
        None
    }

    open spec fn first_pass_ens(&self, r: Option<&'a [T]>, next: Self) -> bool {
        &&& next.data == self.data
        &&& next.end == self.end
        &&& next.step == self.step
        &&& if self.current + self.step <= self.end {
            &&& r matches Some(s) && s@ == self.data@.subrange(
                self.current as int,
                self.current + self.step,
            )
            &&& next.current == self.current + self.step
        } else {
            r is None && next.current == self.current
        }
    }

    open spec fn post_process_ens(&self, item: &'a [T], r: &'a [T], next: Self) -> bool {
        r == item && next == *self
    }

    fn first_pass(&mut self) -> (r: Option<&'a [T]>) {
        let current = self.current;
        if self.step <= self.end - current {
            self.current = current + self.step;
            Some(slice_subrange(self.data, current, self.current))
        } else {
            None
        }
    }

    fn post_process(&mut self, item: &'a [T]) -> (r: &'a [T]) {
        item
    }
}

/// Length of the tail that `remainder` hands out from `current..end`: the
/// positions left over once every full batch of `step` has been taken.
pub open spec fn tail_len(current: int, end: int, step: int) -> int {
    (end - current) % step
}

/// Number of full batches that exact chunking yields from `current..end`.
pub open spec fn exact_chunk_count(current: int, end: int, step: int) -> nat
    decreases end - current,
    when step > 0
{
    if current + step <= end {
        1 + exact_chunk_count(current + step, end, step)
    } else {
        0
    }
}

/// Cursor position at which exact chunking from `current..end` stops.
pub open spec fn exact_chunk_stop(current: int, end: int, step: int) -> int
    decreases end - current,
    when step > 0
{
    if current + step <= end {
        exact_chunk_stop(current + step, end, step)
    } else {
        current
    }
}

proof fn lemma_exact_chunk_count(current: int, end: int, step: int)
    requires
        0 <= current <= end,
        step > 0,
    ensures
        exact_chunk_count(current, end, step) == (end - current) / step,
        exact_chunk_stop(current, end, step) == current + step * ((end - current) / step),
    decreases end - current,
{
    if current + step <= end {
        lemma_exact_chunk_count(current + step, end, step);
        lemma_div_plus_one(end - current - step, step);
        assert(step * ((end - current) / step) == step + step * ((end - current - step) / step))
            by (nonlinear_arith)
            requires
                (end - current) / step == 1 + (end - current - step) / step,
        ;
    } else {
        lemma_basic_div(end - current, step);
    }
}

/// Exact chunking of the contiguous positions `start..n` yields
/// `(n - start) / step` full batches; the remainder then holds the last
/// `(n - start) % step` positions, and a second remainder is empty.
pub proof fn lemma_exact_chunks_then_remainder(start: int, n: int, step: int)
    requires
        0 <= start <= n,
        step > 0,
    ensures
        exact_chunk_count(start, n, step) == (n - start) / step,
        exact_chunk_stop(start, n, step) == n - (n - start) % step,
        tail_len(exact_chunk_stop(start, n, step), n, step) == (n - start) % step,
        tail_len(exact_chunk_stop(start, n, step), n - (n - start) % step, step) == 0,
{
    lemma_exact_chunk_count(start, n, step);
    lemma_fundamental_div_mod(n - start, step);
    lemma_mod_bound(n - start, step);
    let t = (n - start) % step;
    lemma_small_mod(t as nat, step as nat);
    lemma_small_mod(0, step as nat);
}

} // verus!
