//! The resource ledger: per-thread holdings and pending requests of each
//! resource, and the safety check that decides whether every thread can
//! still run to completion.
use vstd::prelude::*;
use vstd::set_lib::{lemma_int_range, lemma_len_subset, set_int_range};

verus! {

/// Available units, allocations and needs of one kind of resource.
/// Rows are threads, columns are resources.
pub struct Ledger {
    pub available: Vec<usize>,
    pub allocation: Vec<Vec<usize>>,
    pub need: Vec<Vec<usize>>,
}

/// The set of the first `k` entries of a completion order.
pub open spec fn finished_before(order: Seq<int>, k: int) -> Set<int> {
    Set::new(|t: int| exists|i: int| 0 <= i < k && order[i] == t)
}

/// Decrement that stops at zero.
pub open spec fn dec(x: int) -> int {
    if x > 0 { x - 1 } else { 0 }
}

impl Ledger {
    pub open spec fn threads(&self) -> int {
        self.allocation@.len() as int
    }

    pub open spec fn resources(&self) -> int {
        self.available@.len() as int
    }

    pub open spec fn avail(&self, r: int) -> int {
        self.available@[r] as int
    }

    pub open spec fn held_by(&self, t: int, r: int) -> int {
        self.allocation@[t]@[r] as int
    }

    pub open spec fn needs(&self, t: int, r: int) -> int {
        self.need@[t]@[r] as int
    }

    /// Both matrices are rectangular: one row per thread, one column per resource.
    pub open spec fn wf(&self) -> bool {
        &&& self.need@.len() == self.allocation@.len()
        &&& forall|t: int| 0 <= t < self.threads() ==> #[trigger] self.allocation@[t]@.len() == self.resources()
        &&& forall|t: int| 0 <= t < self.threads() ==> #[trigger] self.need@[t]@.len() == self.resources()
    }

    /// Units of resource `r` held by the threads of `s` among the first `n` threads.
    pub open spec fn held(&self, s: Set<int>, r: int, n: int) -> int
        decreases n,
    {
        if n <= 0 {
            0
        } else {
            self.held(s, r, n - 1) + if s.contains(n - 1) { self.held_by(n - 1, r) } else { 0 }
        }
    }

    /// Units of `r` free once every thread of `s` has finished and released what it holds.
    pub open spec fn work(&self, s: Set<int>, r: int) -> int {
        self.avail(r) + self.held(s, r, self.threads())
    }

    /// Thread `t`'s whole need can be met once the threads of `s` have finished.
    pub open spec fn fits(&self, t: int, s: Set<int>) -> bool {
        forall|r: int| 0 <= r < self.resources() ==> #[trigger] self.needs(t, r) <= self.work(s, r)
    }

    /// `order` lists every thread once, and each thread's need fits in what is
    /// free after the threads before it have finished.
    pub open spec fn is_completion_order(&self, order: Seq<int>) -> bool {
        &&& order.no_duplicates()
        &&& forall|i: int| 0 <= i < order.len() ==> 0 <= #[trigger] order[i] < self.threads()
        &&& forall|t: int| 0 <= t < self.threads() ==> #[trigger] order.contains(t)
        &&& forall|k: int| 0 <= k < order.len() ==> #[trigger] self.fits(order[k], finished_before(order, k))
    }

    /// The state is safe: some completion order of all threads exists.
    pub open spec fn is_safe(&self) -> bool {
        exists|order: Seq<int>| self.is_completion_order(order)
    }

    /// Adding an unfinished thread to `s` adds what it holds.
    pub proof fn lemma_held_insert(&self, s: Set<int>, t: int, r: int, n: int)
        requires
            0 <= t < n,
            !s.contains(t),
        ensures
            self.held(s.insert(t), r, n) == self.held(s, r, n) + self.held_by(t, r),
        decreases n,
    {
        if n - 1 > t {
            self.lemma_held_insert(s, t, r, n - 1);
        } else {
            self.lemma_held_same(s.insert(t), s, r, n - 1);
        }
    }

    /// `held` depends only on which of the first `n` threads are in the set.
    pub proof fn lemma_held_same(&self, s1: Set<int>, s2: Set<int>, r: int, n: int)
        requires
            forall|t: int| 0 <= t < n ==> (s1.contains(t) <==> s2.contains(t)),
        ensures
            self.held(s1, r, n) == self.held(s2, r, n),
        decreases n,
    {
        if n > 0 {
            self.lemma_held_same(s1, s2, r, n - 1);
        }
    }

    /// A larger set of finished threads gives back at least as much.
    pub proof fn lemma_held_mono(&self, s1: Set<int>, s2: Set<int>, r: int, n: int)
        requires
            self.wf(),
            n <= self.threads(),
            0 <= r < self.resources(),
            forall|t: int| 0 <= t < n && s1.contains(t) ==> s2.contains(t),
        ensures
            self.held(s1, r, n) <= self.held(s2, r, n),
        decreases n,
    {
        if n > 0 {
            self.lemma_held_mono(s1, s2, r, n - 1);
        }
    }

    /// When no unfinished thread fits, every prefix of a completion order is
    /// already finished.
    pub proof fn lemma_stuck_prefix(&self, s: Set<int>, order: Seq<int>, k: int)
        requires
            self.wf(),
            forall|t: int| 0 <= t < self.threads() && !s.contains(t) ==> !self.fits(t, s),
            self.is_completion_order(order),
            0 <= k <= order.len(),
        ensures
            forall|t: int| #[trigger] finished_before(order, k).contains(t) ==> s.contains(t),
        decreases k,
    {
        if k > 0 {
            let n = self.threads();
            self.lemma_stuck_prefix(s, order, k - 1);
            let f = finished_before(order, k - 1);
            let t = order[k - 1];
            assert(self.fits(t, f));
            assert forall|r: int| 0 <= r < self.resources() implies #[trigger] self.needs(t, r) <= self.work(s, r) by {
                assert(self.needs(t, r) <= self.work(f, r));
                self.lemma_held_mono(f, s, r, n);
            }
            assert(s.contains(t));
            assert forall|x: int| #[trigger] finished_before(order, k).contains(x) implies s.contains(x) by {
                let i = choose|i: int| 0 <= i < k && order[i] == x;
                if i < k - 1 {
                    assert(f.contains(x));
                }
            }
        }
    }

    /// When no unfinished thread fits, a completion order exists only if every
    /// thread is already finished.
    pub proof fn lemma_stuck_covers(&self, s: Set<int>, order: Seq<int>)
        requires
            self.wf(),
            forall|t: int| 0 <= t < self.threads() && !s.contains(t) ==> !self.fits(t, s),
            self.is_completion_order(order),
        ensures
            forall|t: int| 0 <= t < self.threads() ==> s.contains(t),
    {
        self.lemma_stuck_prefix(s, order, order.len() as int);
        assert forall|t: int| 0 <= t < self.threads() implies s.contains(t) by {
            assert(order.contains(t));
            let i = choose|i: int| 0 <= i < order.len() && order[i] == t;
            assert(finished_before(order, order.len() as int).contains(t));
        }
    }

    /// The threads marked finished in `finish`.
    pub open spec fn done_set(finish: Seq<bool>) -> Set<int> {
        Set::new(|t: int| 0 <= t < finish.len() && finish[t])
    }

    /// `work` holds, for each resource, the units free once the threads of `s`
    /// have finished, capped at the largest `usize`.
    pub open spec fn tracks(&self, work: Seq<usize>, s: Set<int>) -> bool {
        &&& work.len() == self.resources()
        &&& forall|r: int| 0 <= r < self.resources() ==> #[trigger] work[r] as int == if self.work(s, r)
            > usize::MAX { usize::MAX as int } else { self.work(s, r) }
    }

    /// Whether thread `t`'s need row is componentwise within `work`.
    fn row_fits(&self, t: usize, work: &Vec<usize>) -> (b: bool)
        requires
            self.wf(),
            t < self.threads(),
            work@.len() == self.resources(),
        ensures
            b == forall|r: int| 0 <= r < self.resources() ==> #[trigger] self.needs(t as int, r) <= work@[r],
    {
        let row = &self.need[t];
        let mut r: usize = 0;
        while r < row.len()
            invariant
                self.wf(),
                t < self.threads(),
                row@ == self.need@[t as int]@,
                row@.len() == self.resources(),
                work@.len() == self.resources(),
                r <= row@.len(),
                forall|q: int| 0 <= q < r ==> #[trigger] self.needs(t as int, q) <= work@[q],
            decreases row@.len() - r,
        {
            if row[r] > work[r] {
                assert(self.needs(t as int, r as int) > work@[r as int]);
                return false;
            }
            r = r + 1;
        }
        true
    }

    /// The lowest unfinished thread whose need fits in `work`, if any.
    fn find_candidate(&self, work: &Vec<usize>, finish: &Vec<bool>) -> (c: Option<usize>)
        requires
            self.wf(),
            work@.len() == self.resources(),
            finish@.len() == self.threads(),
        ensures
            match c {
                Some(t) => t < self.threads() && !finish@[t as int] && forall|r: int|
                    0 <= r < self.resources() ==> #[trigger] self.needs(t as int, r) <= work@[r],
                None => forall|t: int|
                    0 <= t < self.threads() && !finish@[t] ==> exists|r: int|
                        0 <= r < self.resources() && #[trigger] self.needs(t, r) > work@[r],
            },
    {
        let mut t: usize = 0;
        while t < finish.len()
            invariant
                self.wf(),
                work@.len() == self.resources(),
                finish@.len() == self.threads(),
                t <= finish@.len(),
                forall|u: int| 0 <= u < t && !finish@[u] ==> exists|r: int|
                    0 <= r < self.resources() && #[trigger] self.needs(u, r) > work@[r],
            decreases finish@.len() - t,
        {
            if !finish[t] && self.row_fits(t, work) {
                return Some(t);
            }
            t = t + 1;
        }
        None
    }

    /// The safety check: repeatedly let some unfinished thread whose need fits
    /// finish and give back what it holds; the state is safe iff every thread
    /// finishes.
    pub fn check(&self) -> (safe: bool)
        requires
            self.wf(),
        ensures
            safe == self.is_safe(),
    {
        let n = self.need.len();
        let m = self.available.len();
        let mut work: Vec<usize> = Vec::new();
        let mut r: usize = 0;
        while r < m
            invariant
                m == self.resources(),
                r <= m,
                work@.len() == r,
                forall|q: int| 0 <= q < r ==> #[trigger] work@[q] == self.available@[q],
            decreases m - r,
        {
            work.push(self.available[r]);
            r = r + 1;
        }
        let mut finish: Vec<bool> = Vec::new();
        let mut t: usize = 0;
        while t < n
            invariant
                t <= n,
                finish@.len() == t,
                forall|u: int| 0 <= u < t ==> !#[trigger] finish@[u],
            decreases n - t,
        {
            finish.push(false);
            t = t + 1;
        }
        proof {
            assert forall|q: int| 0 <= q < m implies #[trigger] work@[q] as int == if self.work(Self::done_set(finish@), q)
                > usize::MAX { usize::MAX as int } else { self.work(Self::done_set(finish@), q) } by {
                self.lemma_held_same(Self::done_set(finish@), Set::empty(), q, n as int);
                self.lemma_held_empty(q, n as int);
            }
            lemma_int_range(0, n as int);
        }
        let ghost mut order: Seq<int> = Seq::empty();
        let ghost mut finished: int = 0;
        proof {
            assert(Self::done_set(finish@) =~= Set::empty());
        }
        loop
            invariant
                self.wf(),
                n == self.threads(),
                m == self.resources(),
                finish@.len() == n,
                finished == Self::done_set(finish@).len(),
                finished <= n,
                self.tracks(work@, Self::done_set(finish@)),
                Self::done_set(finish@).subset_of(set_int_range(0, n as int)),
                set_int_range(0, n as int).finite(),
                set_int_range(0, n as int).len() == n,
                order.no_duplicates(),
                forall|i: int| 0 <= i < order.len() ==> 0 <= #[trigger] order[i] < n,
                forall|u: int| 0 <= u < n ==> (#[trigger] finish@[u] <==> order.contains(u)),
                forall|k: int| 0 <= k < order.len() ==> #[trigger] self.fits(order[k], finished_before(order, k)),
            ensures
                forall|u: int| 0 <= u < n && !#[trigger] finish@[u] ==> !self.is_safe(),
            decreases n - finished,
        {
            let ghost before = Self::done_set(finish@);
            proof {
                lemma_len_subset(before, set_int_range(0, n as int));
            }
            match self.find_candidate(&work, &finish) {
                None => {
                    proof {
                        assert forall|u: int| 0 <= u < n && !before.contains(u) implies !self.fits(u, before) by {
                            let q = choose|q: int| 0 <= q < m && #[trigger] self.needs(u, q) > work@[q];
                            assert(self.needs(u, q) > self.work(before, q));
                        }
                        assert forall|u: int| 0 <= u < n && !finish@[u] implies !self.is_safe() by {
                            if self.is_safe() {
                                let o = choose|o: Seq<int>| self.is_completion_order(o);
                                self.lemma_stuck_covers(before, o);
                                assert(before.contains(u));
                            }
                        }
                        assert(finished_before(order, order.len() as int) =~= before);
                    }
                    break;
                },
                Some(c) => {
                    proof {
                        assert(before.insert(c as int) =~= Self::done_set(finish@.update(c as int, true)));
                        assert(finished_before(order, order.len() as int) =~= before);
                        assert forall|q: int| 0 <= q < m implies #[trigger] self.needs(c as int, q) <= self.work(before, q) by {
                            assert(self.needs(c as int, q) <= work@[q]);
                        }
                    }
                    finish.set(c, true);
                    let row = &self.allocation[c];
                    let mut q: usize = 0;
                    while q < m
                        invariant
                            self.wf(),
                            m == self.resources(),
                            n == self.threads(),
                            c < n,
                            !before.contains(c as int),
                            row@ == self.allocation@[c as int]@,
                            work@.len() == m,
                            q <= m,
                            forall|x: int| 0 <= x < m ==> #[trigger] work@[x] as int == {
                                let w = if x < q { self.work(before.insert(c as int), x) } else { self.work(before, x) };
                                if w > usize::MAX { usize::MAX as int } else { w }
                            },
                        decreases m - q,
                    {
                        proof {
                            self.lemma_held_insert(before, c as int, q as int, n as int);
                        }
                        let w = work[q].saturating_add(row[q]);
                        work.set(q, w);
                        q = q + 1;
                    }
                    proof {
                        let o2 = order.push(c as int);
                        assert forall|k: int| 0 <= k < o2.len() implies #[trigger] self.fits(o2[k], finished_before(o2, k)) by {
                            assert forall|x: int| finished_before(o2, k).contains(x) <==> finished_before(order, k).contains(x) by {
                                if finished_before(o2, k).contains(x) {
                                    let i = choose|i: int| 0 <= i < k && o2[i] == x;
                                    assert(order[i] == x);
                                }
                                if finished_before(order, k).contains(x) {
                                    let i = choose|i: int| 0 <= i < k && order[i] == x;
                                    assert(o2[i] == x);
                                }
                            }
                            assert(finished_before(o2, k) =~= finished_before(order, k));
                        }
                        assert forall|u: int| 0 <= u < n implies (#[trigger] finish@[u] <==> o2.contains(u)) by {
                            if u == c as int {
                                assert(o2[order.len() as int] == u);
                            } else if order.contains(u) {
                                let i = choose|i: int| 0 <= i < order.len() && order[i] == u;
                                assert(o2[i] == u);
                            } else if o2.contains(u) {
                                let i = choose|i: int| 0 <= i < o2.len() && o2[i] == u;
                                assert(order[i] == u);
                            }
                        }
                        order = o2;
                        assert(Self::done_set(finish@) =~= before.insert(c as int));
                        finished = finished + 1;
                        lemma_len_subset(Self::done_set(finish@), set_int_range(0, n as int));
                    }
                },
            }
        }
        let mut all = true;
        let mut u: usize = 0;
        while u < n
            invariant
                finish@.len() == n,
                u <= n,
                all == forall|x: int| 0 <= x < u ==> #[trigger] finish@[x],
            decreases n - u,
        {
            if !finish[u] {
                all = false;
            }
            u = u + 1;
        }
        proof {
            if all {
                assert forall|x: int| 0 <= x < n implies #[trigger] order.contains(x) by {
                    assert(finish@[x]);
                }
                assert(self.is_completion_order(order));
            }
        }
        all
    }

    /// Nobody finished gives nothing back.
    pub proof fn lemma_held_empty(&self, r: int, n: int)
        ensures
            self.held(Set::empty(), r, n) == 0,
        decreases n,
    {
        if n > 0 {
            self.lemma_held_empty(r, n - 1);
        }
    }

    /// Same shape as `o`, and equal to it outside column `r` of `available`
    /// and entry `(t, r)` of both matrices.
    pub open spec fn agrees_except(&self, o: &Ledger, t: int, r: int) -> bool {
        &&& self.wf()
        &&& self.threads() == o.threads()
        &&& self.resources() == o.resources()
        &&& forall|q: int| 0 <= q < self.resources() && q != r ==> #[trigger] self.avail(q) == o.avail(q)
        &&& forall|u: int, q: int|
            0 <= u < self.threads() && 0 <= q < self.resources() && (u != t || q != r) ==> #[trigger] self.held_by(u, q) == o.held_by(u, q)
        &&& forall|u: int, q: int|
            0 <= u < self.threads() && 0 <= q < self.resources() && (u != t || q != r) ==> #[trigger] self.needs(u, q) == o.needs(u, q)
    }

    /// `self` is `o` after thread `t` asked for one more unit of `r`.
    pub open spec fn is_request_of(&self, o: &Ledger, t: int, r: int) -> bool {
        &&& self.agrees_except(o, t, r)
        &&& self.avail(r) == o.avail(r)
        &&& self.held_by(t, r) == o.held_by(t, r)
        &&& self.needs(t, r) == o.needs(t, r) + 1
    }

    /// `self` is `o` after thread `t` gave up a pending request for `r`.
    pub open spec fn is_withdrawal_of(&self, o: &Ledger, t: int, r: int) -> bool {
        &&& self.agrees_except(o, t, r)
        &&& self.avail(r) == o.avail(r)
        &&& self.held_by(t, r) == o.held_by(t, r)
        &&& self.needs(t, r) == dec(o.needs(t, r))
    }

    /// `self` is `o` after one unit of `r` was granted to thread `t`.
    pub open spec fn is_grant_of(&self, o: &Ledger, t: int, r: int) -> bool {
        &&& self.agrees_except(o, t, r)
        &&& self.avail(r) == dec(o.avail(r))
        &&& self.held_by(t, r) == o.held_by(t, r) + 1
        &&& self.needs(t, r) == dec(o.needs(t, r))
    }

    /// `self` is `o` after thread `t` released one unit of `r`.
    pub open spec fn is_release_of(&self, o: &Ledger, t: int, r: int) -> bool {
        &&& self.agrees_except(o, t, r)
        &&& self.avail(r) == o.avail(r) + 1
        &&& self.held_by(t, r) == dec(o.held_by(t, r))
        &&& self.needs(t, r) == o.needs(t, r)
    }

    /// A ledger with no threads and no resources.
    pub fn new() -> (l: Ledger)
        ensures
            l.wf(),
            l.threads() == 0,
            l.resources() == 0,
    {
        Ledger { available: Vec::new(), allocation: Vec::new(), need: Vec::new() }
    }

    fn set_entry(m: &mut Vec<Vec<usize>>, t: usize, r: usize, v: usize)
        requires
            t < old(m)@.len(),
            r < old(m)@[t as int]@.len(),
        ensures
            final(m)@.len() == old(m)@.len(),
            final(m)@[t as int]@ == old(m)@[t as int]@.update(r as int, v),
            forall|u: int| 0 <= u < old(m)@.len() && u != t ==> #[trigger] final(m)@[u] == old(m)@[u],
    {
        let mut row: Vec<usize> = Vec::new();
        std::mem::swap(&mut row, &mut m[t]);
        row.set(r, v);
        std::mem::swap(&mut row, &mut m[t]);
    }

    /// Thread `t` asks for one more unit of `r`; to be made before the
    /// safety check of that request.
    pub fn request(&mut self, t: usize, r: usize)
        requires
            old(self).wf(),
            t < old(self).threads(),
            r < old(self).resources(),
            old(self).needs(t as int, r as int) < usize::MAX,
        ensures
            final(self).is_request_of(old(self), t as int, r as int),
    {
        let v = self.need[t][r] + 1;
        Self::set_entry(&mut self.need, t, r, v);
    }

    /// Thread `t` gives up its pending request for `r` (a rejected acquisition).
    pub fn withdraw(&mut self, t: usize, r: usize)
        requires
            old(self).wf(),
            t < old(self).threads(),
            r < old(self).resources(),
        ensures
            final(self).is_withdrawal_of(old(self), t as int, r as int),
    {
        let v = self.need[t][r].saturating_sub(1);
        Self::set_entry(&mut self.need, t, r, v);
    }

    /// One unit of `r` has been acquired by thread `t`. Counts stop at zero:
    /// a mutex released by a condition-variable wait is taken again without
    /// passing through the ledger, so `available` may already be zero.
    pub fn commit_grant(&mut self, t: usize, r: usize)
        requires
            old(self).wf(),
            t < old(self).threads(),
            r < old(self).resources(),
            old(self).held_by(t as int, r as int) < usize::MAX,
        ensures
            final(self).is_grant_of(old(self), t as int, r as int),
    {
        let a = self.available[r].saturating_sub(1);
        self.available.set(r, a);
        let n = self.need[t][r].saturating_sub(1);
        Self::set_entry(&mut self.need, t, r, n);
        let h = self.allocation[t][r] + 1;
        Self::set_entry(&mut self.allocation, t, r, h);
    }

    /// Thread `t` has released one unit of `r`. A thread that holds none (an
    /// up without a matching down) adds a unit and its holding stays zero.
    pub fn commit_release(&mut self, t: usize, r: usize)
        requires
            old(self).wf(),
            t < old(self).threads(),
            r < old(self).resources(),
            old(self).avail(r as int) < usize::MAX,
        ensures
            final(self).is_release_of(old(self), t as int, r as int),
    {
        let a = self.available[r] + 1;
        self.available.set(r, a);
        let h = self.allocation[t][r].saturating_sub(1);
        Self::set_entry(&mut self.allocation, t, r, h);
    }

    /// `self` is `o` with one more thread, which holds and needs nothing.
    pub open spec fn is_thread_added_to(&self, o: &Ledger) -> bool {
        &&& self.wf()
        &&& self.threads() == o.threads() + 1
        &&& self.resources() == o.resources()
        &&& forall|q: int| 0 <= q < self.resources() ==> #[trigger] self.avail(q) == o.avail(q)
        &&& forall|u: int, q: int|
            0 <= u < self.threads() && 0 <= q < self.resources() ==> #[trigger] self.held_by(u, q) == if u < o.threads() { o.held_by(u, q) } else { 0 }
        &&& forall|u: int, q: int|
            0 <= u < self.threads() && 0 <= q < self.resources() ==> #[trigger] self.needs(u, q) == if u < o.threads() { o.needs(u, q) } else { 0 }
    }

    /// `self` is `o` with column `r` fresh: `cap` units available, none held or
    /// needed. `r` is either an existing column or the first new one.
    pub open spec fn is_column_set_of(&self, o: &Ledger, r: int, cap: int) -> bool {
        &&& self.wf()
        &&& self.threads() == o.threads()
        &&& self.resources() == if r < o.resources() { o.resources() } else { o.resources() + 1 }
        &&& self.avail(r) == cap
        &&& forall|q: int| 0 <= q < self.resources() && q != r ==> #[trigger] self.avail(q) == o.avail(q)
        &&& forall|u: int, q: int|
            0 <= u < self.threads() && 0 <= q < self.resources() ==> #[trigger] self.held_by(u, q) == if q == r { 0 } else { o.held_by(u, q) }
        &&& forall|u: int, q: int|
            0 <= u < self.threads() && 0 <= q < self.resources() ==> #[trigger] self.needs(u, q) == if q == r { 0 } else { o.needs(u, q) }
    }

    /// Adds a row for a new thread; returns its id.
    pub fn add_thread(&mut self) -> (t: usize)
        requires
            old(self).wf(),
            old(self).threads() < usize::MAX,
        ensures
            t == old(self).threads(),
            final(self).is_thread_added_to(old(self)),
    {
        let m = self.available.len();
        let mut row: Vec<usize> = Vec::new();
        let mut q: usize = 0;
        while q < m
            invariant
                m == self.resources(),
                q <= m,
                row@.len() == q,
                forall|x: int| 0 <= x < q ==> #[trigger] row@[x] == 0,
            decreases m - q,
        {
            row.push(0);
            q = q + 1;
        }
        let t = self.allocation.len();
        self.allocation.push(row);
        let mut row2: Vec<usize> = Vec::new();
        let mut q: usize = 0;
        while q < m
            invariant
                q <= m,
                row2@.len() == q,
                forall|x: int| 0 <= x < q ==> #[trigger] row2@[x] == 0,
            decreases m - q,
        {
            row2.push(0);
            q = q + 1;
        }
        self.need.push(row2);
        t
    }

    /// Adds column `cap` for a new resource at the end; returns its id.
    fn add_column(&mut self, cap: usize) -> (r: usize)
        requires
            old(self).wf(),
        ensures
            r == old(self).resources(),
            final(self).is_column_set_of(old(self), r as int, cap as int),
    {
        let r = self.available.len();
        self.available.push(cap);
        let n = self.allocation.len();
        let mut t: usize = 0;
        while t < n
            invariant
                n == self.threads(),
                n == old(self).threads(),
                self.need@.len() == n,
                t <= n,
                self.available@ == old(self).available@.push(cap),
                forall|u: int| 0 <= u < t ==> #[trigger] self.allocation@[u]@ == old(self).allocation@[u]@.push(0),
                forall|u: int| 0 <= u < t ==> #[trigger] self.need@[u]@ == old(self).need@[u]@.push(0),
                forall|u: int| t <= u < n ==> #[trigger] self.allocation@[u] == old(self).allocation@[u],
                forall|u: int| t <= u < n ==> #[trigger] self.need@[u] == old(self).need@[u],
                old(self).wf(),
                r == old(self).resources(),
            decreases n - t,
        {
            let mut row: Vec<usize> = Vec::new();
            std::mem::swap(&mut row, &mut self.allocation[t]);
            row.push(0);
            std::mem::swap(&mut row, &mut self.allocation[t]);
            let mut row: Vec<usize> = Vec::new();
            std::mem::swap(&mut row, &mut self.need[t]);
            row.push(0);
            std::mem::swap(&mut row, &mut self.need[t]);
            t = t + 1;
        }
        r
    }

    /// Makes column `r` fresh again: `cap` units available, none held or needed.
    fn reset_column(&mut self, r: usize, cap: usize)
        requires
            old(self).wf(),
            r < old(self).resources(),
        ensures
            final(self).is_column_set_of(old(self), r as int, cap as int),
    {
        self.available.set(r, cap);
        let n = self.allocation.len();
        let mut t: usize = 0;
        while t < n
            invariant
                n == self.threads(),
                n == old(self).threads(),
                self.need@.len() == n,
                t <= n,
                r < old(self).resources(),
                self.available@ == old(self).available@.update(r as int, cap),
                forall|u: int| 0 <= u < t ==> #[trigger] self.allocation@[u]@ == old(self).allocation@[u]@.update(r as int, 0),
                forall|u: int| 0 <= u < t ==> #[trigger] self.need@[u]@ == old(self).need@[u]@.update(r as int, 0),
                forall|u: int| t <= u < n ==> #[trigger] self.allocation@[u] == old(self).allocation@[u],
                forall|u: int| t <= u < n ==> #[trigger] self.need@[u] == old(self).need@[u],
                old(self).wf(),
            decreases n - t,
        {
            Self::set_entry(&mut self.allocation, t, r, 0);
            Self::set_entry(&mut self.need, t, r, 0);
            t = t + 1;
        }
    }

    /// Gives resource `r` a fresh column with `cap` units: `r` is an existing
    /// column (a reused id) or the next new one.
    pub fn register_resource(&mut self, r: usize, cap: usize)
        requires
            old(self).wf(),
            r <= old(self).resources(),
        ensures
            final(self).is_column_set_of(old(self), r as int, cap as int),
    {
        if r < self.available.len() {
            self.reset_column(r, cap);
        } else {
            self.add_column(cap);
        }
    }

    /// Same shape and the same entries as `o`.
    pub open spec fn same_as(&self, o: &Ledger) -> bool {
        &&& self.wf()
        &&& self.threads() == o.threads()
        &&& self.resources() == o.resources()
        &&& forall|q: int| 0 <= q < self.resources() ==> #[trigger] self.avail(q) == o.avail(q)
        &&& forall|u: int, q: int|
            0 <= u < self.threads() && 0 <= q < self.resources() ==> #[trigger] self.held_by(u, q) == o.held_by(u, q)
        &&& forall|u: int, q: int|
            0 <= u < self.threads() && 0 <= q < self.resources() ==> #[trigger] self.needs(u, q) == o.needs(u, q)
    }

    /// `self` is `o` after thread `t` asked for a unit of `r` and got it at once.
    pub open spec fn is_acquisition_of(&self, o: &Ledger, t: int, r: int) -> bool {
        &&& self.agrees_except(o, t, r)
        &&& self.avail(r) == dec(o.avail(r))
        &&& self.held_by(t, r) == o.held_by(t, r) + 1
        &&& self.needs(t, r) == o.needs(t, r)
    }

    /// The state would be safe once thread `t` asks for one more unit of `r`.
    pub open spec fn safe_after_request(&self, t: int, r: int) -> bool {
        forall|l: Ledger| #[trigger] l.is_request_of(self, t, r) ==> l.is_safe()
    }

    proof fn lemma_same_held(&self, o: &Ledger, s: Set<int>, r: int, n: int)
        requires
            self.same_as(o),
            0 <= r < self.resources(),
            n <= self.threads(),
        ensures
            self.held(s, r, n) == o.held(s, r, n),
        decreases n,
    {
        if n > 0 {
            self.lemma_same_held(o, s, r, n - 1);
        }
    }

    proof fn lemma_same_order(&self, o: &Ledger, order: Seq<int>)
        requires
            self.same_as(o),
            o.wf(),
            o.is_completion_order(order),
        ensures
            self.is_completion_order(order),
    {
        assert forall|k: int| 0 <= k < order.len() implies #[trigger] self.fits(order[k], finished_before(order, k)) by {
            let f = finished_before(order, k);
            assert(o.fits(order[k], f));
            assert forall|r: int| 0 <= r < self.resources() implies #[trigger] self.needs(order[k], r) <= self.work(f, r) by {
                self.lemma_same_held(o, f, r, self.threads());
                assert(o.needs(order[k], r) <= o.work(f, r));
            }
        }
    }

    /// Safety depends on the entries alone.
    pub proof fn lemma_same_safe(&self, o: &Ledger)
        requires
            self.same_as(o),
            o.wf(),
        ensures
            self.is_safe() == o.is_safe(),
    {
        if self.is_safe() {
            let order = choose|order: Seq<int>| self.is_completion_order(order);
            assert(o.same_as(self));
            o.lemma_same_order(self, order);
        }
        if o.is_safe() {
            let order = choose|order: Seq<int>| o.is_completion_order(order);
            self.lemma_same_order(o, order);
        }
    }

    /// Two results of the same request have the same entries.
    pub proof fn lemma_request_determined(&self, a: &Ledger, b: &Ledger, t: int, r: int)
        requires
            a.is_request_of(self, t, r),
            b.is_request_of(self, t, r),
            0 <= t < self.threads(),
            0 <= r < self.resources(),
        ensures
            a.is_safe() == b.is_safe(),
    {
        assert(a.same_as(b));
        a.lemma_same_safe(b);
    }
}

/// Number of grants in a run of grants (`true`) and releases (`false`).
pub open spec fn grant_count(steps: Seq<bool>) -> int
    decreases steps.len(),
{
    if steps.len() == 0 {
        0
    } else {
        grant_count(steps.drop_last()) + if steps.last() { 1int } else { 0int }
    }
}

/// `ls` is a run of ledgers in which step `i` grants a unit of `r` to thread
/// `ts[i]` (with the request made at once or earlier) when `steps[i]`, and
/// releases one from it otherwise. A grant happens only while a unit is
/// available.
pub open spec fn is_grant_release_run(ls: Seq<Ledger>, steps: Seq<bool>, ts: Seq<int>, r: int) -> bool {
    &&& ls.len() == steps.len() + 1
    &&& ts.len() == steps.len()
    &&& forall|i: int| 0 <= i < steps.len() && #[trigger] steps[i] ==> ls[i].avail(r) > 0 && (ls[i
        + 1].is_grant_of(&ls[i], ts[i], r) || ls[i + 1].is_acquisition_of(&ls[i], ts[i], r))
    &&& forall|i: int| 0 <= i < steps.len() && !#[trigger] steps[i] ==> ls[i + 1].is_release_of(&ls[i], ts[i], r)
}

proof fn lemma_run_avail(ls: Seq<Ledger>, steps: Seq<bool>, ts: Seq<int>, r: int, i: int)
    requires
        is_grant_release_run(ls, steps, ts, r),
        0 <= i <= steps.len(),
    ensures
        ls[i].avail(r) == ls[0].avail(r) - 2 * grant_count(steps.take(i)) + i,
    decreases i,
{
    if i > 0 {
        lemma_run_avail(ls, steps, ts, r, i - 1);
        assert(steps.take(i).drop_last() =~= steps.take(i - 1));
        if steps[i - 1] {
            assert(ls[i].avail(r) == ls[i - 1].avail(r) - 1);
        } else {
            assert(ls[i].avail(r) == ls[i - 1].avail(r) + 1);
        }
    }
}

/// Conservation: over a run of grants and releases of `r` with as many
/// releases as grants, the units available of `r` end where they started.
pub proof fn lemma_conservation(ls: Seq<Ledger>, steps: Seq<bool>, ts: Seq<int>, r: int)
    requires
        is_grant_release_run(ls, steps, ts, r),
        2 * grant_count(steps) == steps.len(),
    ensures
        ls.last().avail(r) == ls[0].avail(r),
{
    lemma_run_avail(ls, steps, ts, r, steps.len() as int);
    assert(steps.take(steps.len() as int) =~= steps);
}

} // verus!
