use vstd::prelude::*;

verus! {

/// A pool of interned strings. Equal content is stored once, at a stable
/// slot, and shared through counted handles. A slot is freed when its last
/// handle is released, and its index may then be reused for new content.
///
/// The pool keeps the stored texts and their claim counters in two vectors
/// of equal length; a dead slot holds `None` and its counter is zero. The
/// indices of dead slots are kept on a free list so they can be reused.
pub struct StringPool {
    values: Vec<Option<String>>,
    ref_counts: Vec<usize>,
    free_indices: Vec<usize>,
}

/// A counted handle into a `StringPool`. Two handles that are live in one
/// pool are equal exactly when they were acquired for equal content.
#[derive(Debug, PartialEq, Eq, Structural, Hash)]
pub struct StrReference {
    index: usize,
}

/// How an interner operation can fail.
#[derive(Debug, PartialEq, Eq, Structural)]
pub enum InternerError {
    /// The handle does not name a live slot of this pool.
    InvalidIndex,
    /// A slot's claim counter cannot grow past the machine limit.
    CounterExhausted,
}

impl StrReference {
    /// The slot index this handle names.
    pub closed spec fn id(self) -> int {
        self.index as int
    }
}

impl StringPool {
    /// How many slots the pool has ever had, live or free.
    pub closed spec fn spec_len(self) -> nat {
        self.values@.len()
    }

    /// True when slot `i` currently holds interned content.
    pub closed spec fn live(self, i: int) -> bool {
        0 <= i < self.values@.len() && self.values@[i] is Some
    }

    /// The content held at slot `i`.
    pub closed spec fn content(self, i: int) -> Seq<char> {
        self.values@[i]->Some_0@
    }

    /// The number of outstanding claims on slot `i`.
    pub closed spec fn count(self, i: int) -> nat {
        self.ref_counts@[i] as nat
    }

    /// True when some live slot holds `s`.
    pub open spec fn has_content(self, s: Seq<char>) -> bool {
        exists|i: int| self.live(i) && self.content(i) == s
    }

    /// The indices of the freed slots, in the order they became free.
    pub closed spec fn free_list(self) -> Seq<int> {
        self.free_indices@.map_values(|u: usize| u as int)
    }

    /// The pool's internal consistency: live contents are pairwise distinct
    /// (this is what makes handle equality mean content equality), live
    /// slots carry at least one claim, and the free list names dead slots
    /// only, each at most once.
    pub closed spec fn wf(self) -> bool {
        &&& self.ref_counts@.len() == self.values@.len()
        &&& forall|i: int, j: int|
            self.live(i) && self.live(j) && i != j ==> self.content(i) != self.content(j)
        &&& forall|i: int| self.live(i) ==> #[trigger] self.count(i) >= 1
        &&& forall|k: int|
            0 <= k < self.free_indices@.len() ==> (#[trigger] self.free_indices@[k] as int)
                < self.values@.len() && self.values@[self.free_indices@[k] as int] is None
        &&& forall|k: int, l: int|
            0 <= k < l < self.free_indices@.len() ==> self.free_indices@[k]
                != self.free_indices@[l]
    }

    /// Bridges a change of one claim counter across the whole pool: every
    /// slot keeps its content, and only slot `i` changes its count.
    proof fn lemma_count_update(pre: Self, post: Self, i: int, newc: usize)
        requires
            pre.wf(),
            pre.live(i),
            newc >= 1,
            post.values@ == pre.values@,
            post.free_indices@ == pre.free_indices@,
            post.ref_counts@ == pre.ref_counts@.update(i, newc),
        ensures
            post.wf(),
            post.spec_len() == pre.spec_len(),
            post.live(i),
            post.content(i) == pre.content(i),
            post.count(i) == newc,
            forall|j: int|
                j != i ==> ((post.live(j) <==> pre.live(j)) && (pre.live(j)
                    ==> post.content(j) == pre.content(j) && post.count(j) == pre.count(j))),
    {
        assert forall|p: int, q: int|
            post.live(p) && post.live(q) && p != q implies post.content(p) != post.content(
            q,
        ) by {
            assert(pre.live(p) && pre.live(q));
            assert(post.content(p) == pre.content(p));
            assert(post.content(q) == pre.content(q));
        }
        assert forall|p: int| post.live(p) implies post.count(p) >= 1 by {
            assert(pre.live(p));
            if p != i {
                assert(post.count(p) == pre.count(p));
            }
        }
        assert forall|j: int| j != i implies ((post.live(j) <==> pre.live(j)) && (pre.live(j)
            ==> post.content(j) == pre.content(j) && post.count(j) == pre.count(j))) by {
            if 0 <= j < pre.ref_counts@.len() {
                assert(post.ref_counts@[j] == pre.ref_counts@[j]);
            } else {
                assert(!pre.live(j) && !post.live(j));
            }
        }
    }

    /// Bridges filling one dead slot with fresh content across the pool.
    proof fn lemma_fill_slot(pre: Self, post: Self, i: int, s: Seq<char>)
        requires
            pre.wf(),
            0 <= i < post.values@.len(),
            i < pre.values@.len() ==> !pre.live(i),
            i >= pre.values@.len() ==> i == pre.values@.len() && post.values@.len()
                == pre.values@.len() + 1,
            i < pre.values@.len() ==> post.values@.len() == pre.values@.len(),
            !pre.has_content(s),
            post.values@[i] is Some,
            post.values@[i]->Some_0@ == s,
            forall|j: int|
                0 <= j < pre.values@.len() && j != i ==> post.values@[j] == pre.values@[j],
            post.ref_counts@.len() == post.values@.len(),
            post.ref_counts@[i] == 1,
            forall|j: int|
                0 <= j < pre.ref_counts@.len() && j != i ==> post.ref_counts@[j]
                    == pre.ref_counts@[j],
        ensures
            post.live(i),
            post.content(i) == s,
            post.count(i) == 1,
            forall|p: int, q: int|
                post.live(p) && post.live(q) && p != q ==> post.content(p) != post.content(q),
            forall|p: int| post.live(p) ==> #[trigger] post.count(p) >= 1,
            forall|j: int|
                j != i ==> ((post.live(j) <==> pre.live(j)) && (pre.live(j)
                    ==> post.content(j) == pre.content(j) && post.count(j) == pre.count(j))),
    {
        assert(post.values@[i]->Some_0@ == s);
        assert forall|j: int| j != i implies ((post.live(j) <==> pre.live(j)) && (pre.live(j)
            ==> post.content(j) == pre.content(j) && post.count(j) == pre.count(j))) by {
            if 0 <= j < pre.values@.len() {
                assert(post.values@[j] == pre.values@[j]);
            } else {
                assert(!post.live(j) && !pre.live(j));
            }
        }
        assert forall|p: int, q: int|
            post.live(p) && post.live(q) && p != q implies post.content(p) != post.content(
            q,
        ) by {
            if p != i && q != i {
                assert(pre.live(p) && pre.live(q));
                assert(post.content(p) == pre.content(p) && post.content(q) == pre.content(q));
            } else if p == i {
                assert(pre.live(q) && post.content(q) == pre.content(q));
                assert(pre.content(q) != s);
            } else {
                assert(pre.live(p) && post.content(p) == pre.content(p));
                assert(pre.content(p) != s);
            }
        }
        assert forall|p: int| post.live(p) implies #[trigger] post.count(p) >= 1 by {
            if p != i {
                assert(pre.live(p));
                assert(post.count(p) == pre.count(p));
            }
        }
    }

    /// An empty pool.
    pub fn new() -> (r: Self)
        ensures
            r.wf(),
            r.spec_len() == 0,
    {
        StringPool { values: Vec::new(), ref_counts: Vec::new(), free_indices: Vec::new() }
    }

    /// Interns `s`: if some live slot already holds equal content, that
    /// slot gains one claim and its existing handle index is returned;
    /// otherwise a dead slot is reused (or a fresh one appended) and set
    /// to hold `s` with a single claim. Only the claim counter at the
    /// machine limit can make this fail, and then the pool is unchanged.
    pub fn acquire(&mut self, s: String) -> (r: Result<StrReference, InternerError>)
        requires
            old(self).wf(),
        ensures
            final(self).wf(),
            match r {
                Ok(h) => acquire_ok_post(*old(self), *final(self), s@, h),
                Err(e) => {
                    &&& *final(self) == *old(self)
                    &&& e == InternerError::CounterExhausted
                    &&& exists|i: int|
                        old(self).live(i) && old(self).content(i) == s@ && old(self).count(i)
                            == usize::MAX
                },
            },
    {
        let n = self.values.len();
        let mut i: usize = 0;
        while i < n
            invariant
                *self == *old(self),
                self.wf(),
                n == self.spec_len(),
                i <= n,
                forall|j: int| 0 <= j < i ==> !(self.live(j) && self.content(j) == s@),
            decreases n - i,
        {
            let hit = match &self.values[i] {
                Some(v) => *v == s,
                None => false,
            };
            if hit {
                let c = self.ref_counts[i];
                if c == usize::MAX {
                    return Err(InternerError::CounterExhausted);
                }
                self.ref_counts[i] = c + 1;
                proof {
                    StringPool::lemma_count_update(*old(self), *self, i as int, (c + 1) as usize);
                    assert(old(self).live(i as int) && old(self).content(i as int) == s@);
                    assert(self.free_list() == old(self).free_list());
                }
                return Ok(StrReference { index: i });
            }
            i += 1;
        }
        proof {
            assert(!old(self).has_content(s@)) by {
                if old(self).has_content(s@) {
                    let j = choose|j: int|
                        old(self).live(j) && old(self).content(j) == s@;
                    assert(0 <= j < n);
                }
            }
        }
        if self.free_indices.len() > 0 {
            let idx = match self.free_indices.pop() {
                Some(idx) => idx,
                None => {
                    return Err(InternerError::InvalidIndex);
                },
            };
            self.values[idx] = Some(s);
            self.ref_counts[idx] = 1;
            proof {
                let pre = *old(self);
                let post = *self;
                let ii = idx as int;
                let flen = pre.free_indices@.len() as int;
                assert(pre.free_indices@[flen - 1] == idx);
                assert(!pre.live(ii));
                StringPool::lemma_fill_slot(pre, post, ii, s@);
                assert(post.free_list() =~= pre.free_list().drop_last());
                assert(ii == pre.free_list().last());
                assert forall|k: int|
                    0 <= k < post.free_indices@.len() implies (
                #[trigger] post.free_indices@[k] as int) < post.values@.len()
                    && post.values@[post.free_indices@[k] as int] is None by {
                    assert(post.free_indices@[k] == pre.free_indices@[k]);
                    assert(pre.free_indices@[k] != idx);
                    assert(post.values@[pre.free_indices@[k] as int] == pre.values@[
                        pre.free_indices@[k] as int]);
                }
            }
            Ok(StrReference { index: idx })
        } else {
            let idx = self.values.len();
            self.values.push(Some(s));
            self.ref_counts.push(1);
            proof {
                let pre = *old(self);
                let post = *self;
                StringPool::lemma_fill_slot(pre, post, idx as int, s@);
                assert(post.free_list() == pre.free_list());
                assert forall|k: int|
                    0 <= k < post.free_indices@.len() implies (
                #[trigger] post.free_indices@[k] as int) < post.values@.len()
                    && post.values@[post.free_indices@[k] as int] is None by {
                    assert(post.values@[pre.free_indices@[k] as int] == pre.values@[
                        pre.free_indices@[k] as int]);
                }
            }
            Ok(StrReference { index: idx })
        }
    }

    /// Adds one claim to the slot a live handle names and returns an equal
    /// handle; a dead index is refused and the pool left unchanged.
    pub fn clone_reference(&mut self, index: usize) -> (r: Result<StrReference, InternerError>)
        requires
            old(self).wf(),
        ensures
            final(self).wf(),
            match r {
                Ok(h) => {
                    &&& h.id() == index
                    &&& old(self).live(index as int)
                    &&& clone_ok_post(*old(self), *final(self), index as int)
                },
                Err(e) => {
                    &&& *final(self) == *old(self)
                    &&& match e {
                        InternerError::InvalidIndex => !old(self).live(index as int),
                        InternerError::CounterExhausted => old(self).live(index as int) && old(
                            self,
                        ).count(index as int) == usize::MAX,
                    }
                },
            },
    {
        if index >= self.values.len() {
            return Err(InternerError::InvalidIndex);
        }
        let is_live = match &self.values[index] {
            Some(_) => true,
            None => false,
        };
        if !is_live {
            return Err(InternerError::InvalidIndex);
        }
        let c = self.ref_counts[index];
        if c == usize::MAX {
            return Err(InternerError::CounterExhausted);
        }
        self.ref_counts[index] = c + 1;
        proof {
            StringPool::lemma_count_update(*old(self), *self, index as int, (c + 1) as usize);
        }
        Ok(StrReference { index })
    }

    /// The content at `index`, or `None` for a dead or out-of-range index.
    pub fn get(&self, index: usize) -> (r: Option<&String>)
        ensures
            match r {
                Some(v) => self.live(index as int) && v@ == self.content(index as int),
                None => !self.live(index as int),
            },
    {
        if index >= self.values.len() {
            return None;
        }
        self.values[index].as_ref()
    }

    /// Releases one claim on the slot at `index`. When the last claim goes,
    /// the slot is emptied and its index put up for reuse; a dead or
    /// out-of-range index changes nothing.
    pub fn drop_reference(&mut self, index: usize)
        requires
            old(self).wf(),
        ensures
            final(self).wf(),
            drop_post(*old(self), *final(self), index as int),
    {
        if index >= self.values.len() {
            return ;
        }
        let is_live = match &self.values[index] {
            Some(_) => true,
            None => false,
        };
        if !is_live {
            return ;
        }
        let c = self.ref_counts[index];
        if c > 1 {
            self.ref_counts[index] = c - 1;
            proof {
                StringPool::lemma_count_update(*old(self), *self, index as int, (c - 1) as usize);
                assert(self.free_list() == old(self).free_list());
            }
            return ;
        }
        proof {
            assert forall|k: int|
                0 <= k < self.free_indices@.len() implies #[trigger] self.free_indices@[k]
                != index by {
                assert(self.values@[self.free_indices@[k] as int] is None);
            }
        }
        self.values[index] = None;
        self.ref_counts[index] = 0;
        self.free_indices.push(index);
        proof {
            let pre = *old(self);
            let post = *self;
            let i = index as int;
            assert forall|j: int| j != i implies ((post.live(j) <==> pre.live(j)) && (pre.live(j)
                ==> post.content(j) == pre.content(j) && post.count(j) == pre.count(j))) by {
                if 0 <= j < pre.values@.len() {
                    assert(post.values@[j] == pre.values@[j]);
                    assert(post.ref_counts@[j] == pre.ref_counts@[j]);
                }
            }
            assert forall|p: int, q: int|
                post.live(p) && post.live(q) && p != q implies post.content(p) != post.content(
                q,
            ) by {
                assert(pre.live(p) && pre.live(q));
                assert(post.content(p) == pre.content(p) && post.content(q) == pre.content(q));
            }
            assert forall|p: int| post.live(p) implies #[trigger] post.count(p) >= 1 by {
                assert(pre.live(p) && p != i);
                assert(post.count(p) == pre.count(p));
            }
            assert forall|k: int|
                0 <= k < post.free_indices@.len() implies (
            #[trigger] post.free_indices@[k] as int) < post.values@.len()
                && post.values@[post.free_indices@[k] as int] is None by {
                if k < pre.free_indices@.len() {
                    assert(post.free_indices@[k] == pre.free_indices@[k]);
                    assert(pre.free_indices@[k] != index);
                    assert(post.values@[pre.free_indices@[k] as int] == pre.values@[
                        pre.free_indices@[k] as int]);
                } else {
                    assert(post.free_indices@[k] == index);
                }
            }
            assert forall|k: int, l: int|
                0 <= k < l < post.free_indices@.len() implies post.free_indices@[k]
                != post.free_indices@[l] by {
                if l < pre.free_indices@.len() {
                } else {
                    assert(post.free_indices@[l] == index);
                    assert(pre.free_indices@[k] != index);
                }
            }
            assert(post.free_list() =~= pre.free_list().push(index as int));
        }
    }
}

impl StringPool {
    /// Adds one claim to the slot a live handle names and returns an
    /// equal handle.
    pub fn clone_ref(&mut self, r: &StrReference) -> (res: Result<StrReference, InternerError>)
        requires
            old(self).wf(),
        ensures
            final(self).wf(),
            match res {
                Ok(h) => {
                    &&& h.id() == r.id()
                    &&& old(self).live(r.id())
                    &&& clone_ok_post(*old(self), *final(self), r.id())
                },
                Err(e) => {
                    &&& *final(self) == *old(self)
                    &&& match e {
                        InternerError::InvalidIndex => !old(self).live(r.id()),
                        InternerError::CounterExhausted => old(self).live(r.id()) && old(
                            self,
                        ).count(r.id()) == usize::MAX,
                    }
                },
            },
    {
        self.clone_reference(r.index)
    }

    /// For two live slots of a consistent pool, equal content means the
    /// same slot: interning stores equal content only once.
    pub proof fn lemma_content_eq(self, i: int, j: int)
        requires
            self.wf(),
            self.live(i),
            self.live(j),
        ensures
            (self.content(i) == self.content(j)) <==> (i == j),
    {
    }

    /// Releases the claim a handle holds, consuming the handle.
    pub fn release(&mut self, r: StrReference)
        requires
            old(self).wf(),
        ensures
            final(self).wf(),
            drop_post(*old(self), *final(self), r.id()),
    {
        self.drop_reference(r.index)
    }
}

/// Growth of a pool: everything that was interned is still interned at
/// its slot, with at least as many claims.
pub open spec fn pool_preserves(pre: StringPool, post: StringPool) -> bool {
    forall|i: int|
        #[trigger] pre.live(i) ==> post.live(i) && post.content(i) == pre.content(i)
            && post.count(i) >= pre.count(i)
}

/// Between two pool states, no claim counter grew by more than `k`: a
/// slot live afterwards counts at most `k` above what it counted before,
/// or at most `k` if it was dead.
pub open spec fn pool_grows_at_most(pre: StringPool, post: StringPool, k: nat) -> bool {
    forall|i: int|
        #[trigger] post.live(i) ==> post.count(i) <= if pre.live(i) {
            pre.count(i) + k
        } else {
            k
        }
}

/// The pool cannot be promised `k` more claims: either `k` itself
/// overruns the machine limit, or some live counter would.
pub open spec fn pool_near_limit(pre: StringPool, k: nat) -> bool {
    k >= usize::MAX || exists|i: int|
        #[trigger] pre.live(i) && pre.count(i) + k >= usize::MAX
}

/// Growth bounds compose.
pub proof fn lemma_grows_trans(a: StringPool, b: StringPool, c: StringPool, k1: nat, k2: nat)
    requires
        pool_grows_at_most(a, b, k1),
        pool_grows_at_most(b, c, k2),
    ensures
        pool_grows_at_most(a, c, (k1 + k2) as nat),
{
    assert forall|i: int| #[trigger] c.live(i) implies c.count(i) <= if a.live(i) {
        a.count(i) + k1 + k2
    } else {
        k1 + k2
    } by {
        if b.live(i) {
        } else {
            assert(c.count(i) <= k2);
        }
    }
}

/// A successful acquisition grows no counter by more than one.
pub proof fn lemma_acquire_grows(pre: StringPool, post: StringPool, s: Seq<char>, h: StrReference)
    requires
        acquire_ok_post(pre, post, s, h),
    ensures
        pool_grows_at_most(pre, post, 1),
{
}

/// A successful clone grows no counter by more than one.
pub proof fn lemma_clone_grows(pre: StringPool, post: StringPool, i: int)
    requires
        pre.live(i),
        clone_ok_post(pre, post, i),
    ensures
        pool_grows_at_most(pre, post, 1),
{
    assert forall|j: int| #[trigger] post.live(j) implies post.count(j) <= if pre.live(j) {
        pre.count(j) + 1
    } else {
        1nat
    } by {
        if j != i {
        }
    }
}

/// A counter that a later state shows at the machine limit was already
/// within `g + k` of the limit before a growth of at most `g`, for any
/// slack `k` of at least one.
pub proof fn lemma_near_limit_lift(pre: StringPool, cur: StringPool, g: nat, k: nat)
    requires
        pool_grows_at_most(pre, cur, g),
        pool_near_limit(cur, k),
    ensures
        pool_near_limit(pre, (g + k) as nat),
{
    if k < usize::MAX {
        let i = choose|i: int| #[trigger] cur.live(i) && cur.count(i) + k >= usize::MAX;
        if pre.live(i) {
            assert(pre.count(i) + g + k >= usize::MAX);
        } else {
            assert(cur.count(i) <= g);
        }
    }
}

/// Needing fewer claims is never harder.
pub proof fn lemma_near_limit_mono(pre: StringPool, k1: nat, k2: nat)
    requires
        pool_near_limit(pre, k1),
        k1 <= k2,
    ensures
        pool_near_limit(pre, k2),
{
}

/// How many of the listed slot ids equal `i`.
pub open spec fn occurrences(ids: Seq<int>, i: int) -> nat
    decreases ids.len(),
{
    if ids.len() == 0 {
        0
    } else {
        (if ids[0] == i {
            1nat
        } else {
            0nat
        }) + occurrences(ids.drop_first(), i)
    }
}

/// What releasing a batch of handles does to the pool: every slot loses
/// exactly as many claims as the batch holds handles for it; a slot whose
/// claims are all in the batch is freed, and no slot gains anything. The
/// slot count stays.
pub open spec fn release_post(pre: StringPool, post: StringPool, ids: Seq<int>) -> bool {
    &&& post.spec_len() == pre.spec_len()
    &&& forall|i: int| #[trigger] post.live(i) ==> pre.live(i) && post.content(i) == pre.content(i)
    &&& forall|i: int|
        #[trigger] pre.live(i) ==> if occurrences(ids, i) < pre.count(i) {
            post.live(i) && post.count(i) == pre.count(i) - occurrences(ids, i)
        } else {
            !post.live(i)
        }
}

/// Releasing nothing changes nothing.
pub proof fn lemma_release_post_refl(p: StringPool)
    requires
        p.wf(),
    ensures
        release_post(p, p, Seq::empty()),
{
    assert forall|i: int| #[trigger] p.live(i) implies occurrences(Seq::empty(), i) < p.count(
        i,
    ) by {
        assert(p.count(i) >= 1);
    }
}

/// Occurrence counts add up over concatenation.
pub proof fn lemma_occurrences_concat(ids1: Seq<int>, ids2: Seq<int>, i: int)
    ensures
        occurrences(ids1 + ids2, i) == occurrences(ids1, i) + occurrences(ids2, i),
    decreases ids1.len(),
{
    if ids1.len() == 0 {
        assert(ids1 + ids2 =~= ids2);
    } else {
        assert((ids1 + ids2).drop_first() =~= ids1.drop_first() + ids2);
        lemma_occurrences_concat(ids1.drop_first(), ids2, i);
    }
}

/// Releasing only cares how often each slot is named, not in what order.
pub proof fn lemma_release_post_occ(
    pre: StringPool,
    post: StringPool,
    ids1: Seq<int>,
    ids2: Seq<int>,
)
    requires
        release_post(pre, post, ids1),
        forall|i: int| occurrences(ids1, i) == occurrences(ids2, i),
    ensures
        release_post(pre, post, ids2),
{
}

/// Release batches compose.
pub proof fn lemma_release_post_trans(
    a: StringPool,
    b: StringPool,
    c: StringPool,
    ids1: Seq<int>,
    ids2: Seq<int>,
)
    requires
        release_post(a, b, ids1),
        release_post(b, c, ids2),
    ensures
        release_post(a, c, ids1 + ids2),
{
    assert forall|i: int| #[trigger] c.live(i) implies a.live(i) && c.content(i) == a.content(
        i,
    ) by {}
    assert forall|i: int| #[trigger] a.live(i) implies if occurrences(ids1 + ids2, i) < a.count(
        i,
    ) {
        c.live(i) && c.count(i) == a.count(i) - occurrences(ids1 + ids2, i)
    } else {
        !c.live(i)
    } by {
        lemma_occurrences_concat(ids1, ids2, i);
        let o1 = occurrences(ids1, i);
        let o2 = occurrences(ids2, i);
        if o1 < a.count(i) {
            assert(b.live(i) && b.count(i) == a.count(i) - o1);
        } else {
            assert(!b.live(i));
            if c.live(i) {
                assert(b.live(i));
            }
        }
    }
}

/// One release is the singleton batch.
pub proof fn lemma_release_post_single(pre: StringPool, post: StringPool, i: int)
    requires
        pre.wf(),
        drop_post(pre, post, i),
    ensures
        release_post(pre, post, seq![i]),
{
    assert forall|j: int| occurrences(seq![i], j) == (if j == i {
        1nat
    } else {
        0nat
    }) by {
        assert(seq![i].len() == 1);
        assert(seq![i][0] == i);
        assert(seq![i].drop_first() =~= Seq::<int>::empty());
        assert(occurrences(Seq::<int>::empty(), j) == 0);
    }
    assert forall|j: int| #[trigger] pre.live(j) implies if occurrences(seq![i], j) < pre.count(
        j,
    ) {
        post.live(j) && post.count(j) == pre.count(j) - occurrences(seq![i], j)
    } else {
        !post.live(j)
    } by {
        if j != i {
            assert(pre.count(j) >= 1);
        }
    }
}

/// Two handles are equal exactly when they name the same slot.
pub proof fn lemma_ref_eq(a: StrReference, b: StrReference)
    ensures
        (a == b) <==> (a.id() == b.id()),
{
}

/// Pool growth composes.
pub proof fn lemma_pool_preserves_trans(a: StringPool, b: StringPool, c: StringPool)
    requires
        pool_preserves(a, b),
        pool_preserves(b, c),
    ensures
        pool_preserves(a, c),
{
}

impl StrReference {
    /// The interned content this handle names, read from its pool.
    pub fn get<'a>(&self, pool: &'a StringPool) -> (r: &'a String)
        requires
            pool.live(self.id()),
        ensures
            r@ == pool.content(self.id()),
    {
        match pool.get(self.index) {
            Some(v) => v,
            None => unreached(),
        }
    }
}

/// What a successful `acquire` of content `s` guarantees: the returned
/// handle is live with content `s`; its claim count is one more than
/// before (one, for a slot that was not live); the handle reuses the
/// existing slot exactly when `s` was already interned; and every other
/// slot is untouched.
pub open spec fn acquire_ok_post(
    pre: StringPool,
    post: StringPool,
    s: Seq<char>,
    h: StrReference,
) -> bool {
    &&& post.live(h.id())
    &&& post.content(h.id()) == s
    &&& post.count(h.id()) == if pre.live(h.id()) {
        pre.count(h.id()) + 1
    } else {
        1nat
    }
    &&& (pre.has_content(s) ==> pre.live(h.id()) && pre.content(h.id()) == s
        && post.spec_len() == pre.spec_len() && post.free_list() == pre.free_list())
    &&& (!pre.has_content(s) ==> !pre.live(h.id()) && (if pre.free_list().len() > 0 {
        h.id() == pre.free_list().last() && post.spec_len() == pre.spec_len()
            && post.free_list() == pre.free_list().drop_last()
    } else {
        h.id() == pre.spec_len() && post.spec_len() == pre.spec_len() + 1 && post.free_list()
            == pre.free_list()
    }))
    &&& pre.spec_len() <= post.spec_len()
    &&& forall|i: int|
        i != h.id() ==> ((post.live(i) <==> pre.live(i)) && (pre.live(i)
            ==> post.content(i) == pre.content(i) && post.count(i) == pre.count(i)))
}

/// What a successful `clone_reference` of slot `i` guarantees: one more
/// claim there, everything else untouched.
pub open spec fn clone_ok_post(pre: StringPool, post: StringPool, i: int) -> bool {
    &&& post.spec_len() == pre.spec_len()
    &&& post.live(i) && post.content(i) == pre.content(i)
    &&& post.count(i) == pre.count(i) + 1
    &&& forall|j: int|
        j != i ==> ((post.live(j) <==> pre.live(j)) && (pre.live(j)
            ==> post.content(j) == pre.content(j) && post.count(j) == pre.count(j)))
}

/// What `drop_reference` of slot `i` guarantees: nothing changes for a
/// dead slot; a slot with several claims loses one; a slot with a single
/// claim is emptied, so its content leaves the pool. Other slots are
/// untouched in every case.
pub open spec fn drop_post(pre: StringPool, post: StringPool, i: int) -> bool {
    &&& post.spec_len() == pre.spec_len()
    &&& (!pre.live(i) ==> post == pre)
    &&& (pre.live(i) && pre.count(i) > 1 ==> post.live(i) && post.content(i) == pre.content(i)
        && post.count(i) == pre.count(i) - 1 && post.free_list() == pre.free_list())
    &&& (pre.live(i) && pre.count(i) == 1 ==> !post.live(i) && post.free_list()
        == pre.free_list().push(i))
    &&& forall|j: int|
        j != i ==> ((post.live(j) <==> pre.live(j)) && (pre.live(j)
            ==> post.content(j) == pre.content(j) && post.count(j) == pre.count(j)))
}

/// Interning round-trip: the handle that `acquire(s)` returns reads back
/// as `s`, so `get(acquire(s)) == s`.
pub proof fn lemma_intern_round_trip(
    pre: StringPool,
    post: StringPool,
    s: Seq<char>,
    h: StrReference,
)
    requires
        acquire_ok_post(pre, post, s, h),
    ensures
        post.live(h.id()),
        post.content(h.id()) == s,
{
}

/// Interning de-duplication: acquiring equal content twice yields equal
/// handles, and each acquisition adds exactly one claim to the shared
/// slot, so the slot's counter equals the number of handles acquired for
/// content that was not interned before.
pub proof fn lemma_intern_dedup(
    p0: StringPool,
    p1: StringPool,
    p2: StringPool,
    s: Seq<char>,
    h1: StrReference,
    h2: StrReference,
)
    requires
        p1.wf(),
        acquire_ok_post(p0, p1, s, h1),
        acquire_ok_post(p1, p2, s, h2),
    ensures
        h1 == h2,
        p2.count(h1.id()) == p1.count(h1.id()) + 1,
        !p0.has_content(s) ==> p1.count(h1.id()) == 1 && p2.count(h1.id()) == 2,
{
    assert(p1.live(h1.id()) && p1.content(h1.id()) == s);
    assert(p1.has_content(s));
    assert(p1.live(h2.id()) && p1.content(h2.id()) == s);
    assert(h1.id() == h2.id());
}

/// Interning de-duplication, counted: acquiring one content any number
/// of times in a row hands out one shared handle, and each acquisition
/// adds exactly one claim, so the slot's counter equals the number of
/// handles handed out for content that was not interned before.
pub proof fn lemma_intern_counting(states: Seq<StringPool>, s: Seq<char>, hs: Seq<StrReference>)
    requires
        states.len() == hs.len() + 1,
        hs.len() >= 1,
        forall|i: int| 0 <= i < states.len() ==> (#[trigger] states[i]).wf(),
        forall|i: int|
            0 <= i < hs.len() ==> acquire_ok_post(states[i], states[i + 1], s, #[trigger] hs[i]),
        !states[0].has_content(s),
    ensures
        forall|i: int| 0 <= i < hs.len() ==> #[trigger] hs[i] == hs[0],
        states.last().live(hs[0].id()),
        states.last().content(hs[0].id()) == s,
        states.last().count(hs[0].id()) == hs.len(),
    decreases hs.len(),
{
    let k = hs.len() as int;
    if k == 1 {
        assert(!states[0].live(hs[0].id()));
        assert(states[1].count(hs[0].id()) == 1);
    } else {
        let prev_states = states.drop_last();
        let prev_hs = hs.drop_last();
        assert(forall|i: int| 0 <= i < prev_states.len() ==> prev_states[i] == states[i]);
        assert(forall|i: int| 0 <= i < prev_hs.len() ==> prev_hs[i] == hs[i]);
        lemma_intern_counting(prev_states, s, prev_hs);
        assert(states[k - 1].count(hs[0].id()) == k - 1);
        assert(states[k - 1].live(hs[0].id()) && states[k - 1].content(hs[0].id()) == s);
        assert(acquire_ok_post(states[k - 1], states[k], s, hs[k - 1]));
        assert(states[k - 1].has_content(s));
        assert(states[k - 1].live(hs[k - 1].id()) && states[k - 1].content(hs[k - 1].id()) == s);
        states[k - 1].lemma_content_eq(hs[k - 1].id(), hs[0].id());
        lemma_ref_eq(hs[k - 1], hs[0]);
        assert(states[k].count(hs[0].id()) == k);
        assert(states.last() == states[k]);
    }
}

/// Interning reuse without collision: whatever slot `acquire(s)` picks —
/// fresh, or one freed by an earlier release — it is never the slot of
/// any other still-live content, and every other live slot keeps its
/// content, so no still-live handle comes to share a slot with `s`.
pub proof fn lemma_intern_no_collision(
    pre: StringPool,
    post: StringPool,
    s: Seq<char>,
    h: StrReference,
)
    requires
        pre.wf(),
        acquire_ok_post(pre, post, s, h),
    ensures
        forall|i: int|
            pre.live(i) && pre.content(i) != s ==> i != h.id() && post.live(i) && post.content(i)
                == pre.content(i),
{
}

/// Releasing the last claim on a slot frees its content: the content is
/// no longer interned anywhere, while every other live slot keeps its
/// content and count.
pub proof fn lemma_drop_last_frees(pre: StringPool, post: StringPool, i: int)
    requires
        pre.wf(),
        pre.live(i),
        pre.count(i) == 1,
        drop_post(pre, post, i),
    ensures
        !post.live(i),
        !post.has_content(pre.content(i)),
{
    assert forall|j: int| post.live(j) implies post.content(j) != pre.content(i) by {
        assert(pre.live(j));
        assert(pre.content(j) == post.content(j));
    }
}

} // verus!
