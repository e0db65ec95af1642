//! The synchronisation primitives: spin and blocking mutexes, counting
//! semaphores and condition variables. Waiting threads are kept in FIFO
//! queues of thread ids; the scheduler acts on what each operation returns.
use vstd::prelude::*;

verus! {

/// What an acquisition attempt leaves the caller to do.
#[derive(PartialEq, Eq, Structural, Clone, Copy, Debug)]
pub enum Acquire {
    /// The caller holds the resource now.
    Acquired,
    /// The caller was queued and must sleep until woken.
    Blocked,
    /// The lock is busy and the caller must yield and try again (spin mutex).
    Retry,
}

/// A mutex: spinning or blocking, chosen when it is created.
pub struct Mutex {
    pub blocking: bool,
    pub locked: bool,
    pub waiters: Vec<usize>,
}

impl Mutex {
    /// An unlocked mutex of the given kind with nobody waiting.
    pub open spec fn is_fresh(&self, blocking: bool) -> bool {
        &&& self.blocking == blocking
        &&& !self.locked
        &&& self.waiters@.len() == 0
    }

    pub fn new(blocking: bool) -> (m: Mutex)
        ensures
            m.is_fresh(blocking),
    {
        Mutex { blocking, locked: false, waiters: Vec::new() }
    }

    /// What a lock attempt on `self` leads to.
    pub open spec fn lock_outcome(&self) -> Acquire {
        if !self.locked {
            Acquire::Acquired
        } else if self.blocking {
            Acquire::Blocked
        } else {
            Acquire::Retry
        }
    }

    /// `self` is `o` after thread `t` tried to take it, with outcome `a`.
    pub open spec fn is_lock_of(&self, o: &Mutex, t: usize, a: Acquire) -> bool {
        &&& self.blocking == o.blocking
        &&& self.locked
        &&& a == o.lock_outcome()
        &&& !o.locked ==> a == Acquire::Acquired && self.waiters@ == o.waiters@
        &&& o.locked && o.blocking ==> a == Acquire::Blocked && self.waiters@ == o.waiters@.push(t)
        &&& o.locked && !o.blocking ==> a == Acquire::Retry && self.waiters@ == o.waiters@
    }

    /// `self` is `o` released, with waiter `w` woken.
    pub open spec fn is_unlock_of(&self, o: &Mutex, w: Option<usize>) -> bool {
        &&& self.blocking == o.blocking
        &&& !self.locked
        &&& o.waiters@.len() == 0 ==> w.is_none() && self.waiters@ == o.waiters@
        &&& o.waiters@.len() > 0 ==> w == Some(o.waiters@[0]) && self.waiters@ == o.waiters@.drop_first()
    }

    /// Tries to take the mutex for thread `t`. A free mutex is taken; a busy
    /// blocking mutex queues `t`; a busy spin mutex is left as it is.
    pub fn lock(&mut self, t: usize) -> (a: Acquire)
        ensures
            final(self).is_lock_of(old(self), t, a),
    {
        if !self.locked {
            self.locked = true;
            Acquire::Acquired
        } else if self.blocking {
            self.waiters.push(t);
            Acquire::Blocked
        } else {
            Acquire::Retry
        }
    }

    /// Releases the mutex and wakes at most one waiter, the longest waiting,
    /// which must contend for the mutex again.
    pub fn unlock(&mut self) -> (w: Option<usize>)
        ensures
            final(self).is_unlock_of(old(self), w),
    {
        self.locked = false;
        if self.waiters.len() > 0 {
            Some(self.waiters.remove(0))
        } else {
            None
        }
    }
}

/// A counting semaphore.
pub struct Semaphore {
    pub count: usize,
    pub waiters: Vec<usize>,
}

impl Semaphore {
    /// A semaphore holding `count` units with nobody waiting.
    pub open spec fn is_fresh(&self, count: usize) -> bool {
        &&& self.count == count
        &&& self.waiters@.len() == 0
    }

    /// What a down on `self` leads to.
    pub open spec fn down_outcome(&self) -> Acquire {
        if self.count > 0 {
            Acquire::Acquired
        } else {
            Acquire::Blocked
        }
    }

    pub fn new(count: usize) -> (s: Semaphore)
        ensures
            s.is_fresh(count),
    {
        Semaphore { count, waiters: Vec::new() }
    }

    /// `self` is `o` after thread `t` asked for a unit, with outcome `a`.
    pub open spec fn is_down_of(&self, o: &Semaphore, t: usize, a: Acquire) -> bool {
        &&& a == o.down_outcome()
        &&& o.count > 0 ==> a == Acquire::Acquired && self.count == o.count - 1 && self.waiters@ == o.waiters@
        &&& o.count == 0 ==> a == Acquire::Blocked && self.count == 0 && self.waiters@ == o.waiters@.push(t)
    }

    /// `self` is `o` after a unit was given back, with waiter `w` woken.
    pub open spec fn is_up_of(&self, o: &Semaphore, w: Option<usize>) -> bool {
        &&& o.waiters@.len() == 0 ==> w.is_none() && self.count == o.count + 1 && self.waiters@ == o.waiters@
        &&& o.waiters@.len() > 0 ==> w == Some(o.waiters@[0]) && self.count == o.count && self.waiters@
            == o.waiters@.drop_first()
    }

    /// Takes a unit for thread `t` if one is free; otherwise queues `t`.
    pub fn down(&mut self, t: usize) -> (a: Acquire)
        ensures
            final(self).is_down_of(old(self), t, a),
    {
        if self.count > 0 {
            self.count = self.count - 1;
            Acquire::Acquired
        } else {
            self.waiters.push(t);
            Acquire::Blocked
        }
    }

    /// Gives back a unit: it goes straight to the longest waiting thread,
    /// which is woken, or to the count when nobody waits.
    pub fn up(&mut self) -> (w: Option<usize>)
        requires
            old(self).waiters@.len() > 0 || old(self).count < usize::MAX,
        ensures
            final(self).is_up_of(old(self), w),
    {
        if self.waiters.len() > 0 {
            Some(self.waiters.remove(0))
        } else {
            self.count = self.count + 1;
            None
        }
    }
}

/// A condition variable, bound to a mutex at each wait.
pub struct Condvar {
    pub waiters: Vec<usize>,
}

impl Condvar {
    /// A condition variable with nobody waiting.
    pub open spec fn is_fresh(&self) -> bool {
        self.waiters@.len() == 0
    }

    pub fn new() -> (c: Condvar)
        ensures
            c.is_fresh(),
    {
        Condvar { waiters: Vec::new() }
    }

    /// In one step: releases `mutex` (waking at most one of its waiters,
    /// returned) and queues `t` on the condition variable, so that no signal
    /// given after this call can miss `t`.
    pub fn wait(&mut self, t: usize, mutex: &mut Mutex) -> (w: Option<usize>)
        ensures
            final(self).is_wait_of(old(self), t),
            final(mutex).is_unlock_of(old(mutex), w),
    {
        let w = mutex.unlock();
        self.waiters.push(t);
        w
    }

    /// `self` is `o` after thread `t` began to wait on it.
    pub open spec fn is_wait_of(&self, o: &Condvar, t: usize) -> bool {
        self.waiters@ == o.waiters@.push(t)
    }

    /// `self` is `o` after a signal that woke `w`.
    pub open spec fn is_signal_of(&self, o: &Condvar, w: Option<usize>) -> bool {
        &&& o.waiters@.len() == 0 ==> w.is_none() && self.waiters@ == o.waiters@
        &&& o.waiters@.len() > 0 ==> w == Some(o.waiters@[0]) && self.waiters@ == o.waiters@.drop_first()
    }

    /// Wakes at most one waiter, the longest waiting; it does not get the
    /// mutex back by this, and must contend for it.
    pub fn signal(&mut self) -> (w: Option<usize>)
        ensures
            final(self).is_signal_of(old(self), w),
    {
        if self.waiters.len() > 0 {
            Some(self.waiters.remove(0))
        } else {
            None
        }
    }
}

/// A signal given after a wait has begun is never lost: it wakes a thread,
/// the waiter itself when nobody waited before it, and otherwise the waiter
/// stays queued.
pub proof fn lemma_no_missed_wakeup(c0: Condvar, c1: Condvar, c2: Condvar, t: usize, w: Option<usize>)
    requires
        c1.is_wait_of(&c0, t),
        c2.is_signal_of(&c1, w),
    ensures
        w.is_some(),
        c0.waiters@.len() == 0 ==> w == Some(t),
        c0.waiters@.len() > 0 ==> c2.waiters@.last() == t,
{
}

/// Releasing a mutex that `n > 0` threads wait on wakes exactly one of them,
/// leaves the other `n - 1` queued, and leaves the mutex free: the woken
/// thread must take it again like anyone else.
pub proof fn lemma_unlock_wakes_one(m0: Mutex, m1: Mutex, w: Option<usize>)
    requires
        m1.is_unlock_of(&m0, w),
        m0.waiters@.len() > 0,
    ensures
        w == Some(m0.waiters@[0]),
        m1.waiters@.len() == m0.waiters@.len() - 1,
        !m1.locked,
{
}

/// An up on a semaphore that `n > 0` threads wait on wakes exactly one of
/// them and leaves the other `n - 1` queued.
pub proof fn lemma_up_wakes_one(s0: Semaphore, s1: Semaphore, w: Option<usize>)
    requires
        s1.is_up_of(&s0, w),
        s0.waiters@.len() > 0,
    ensures
        w == Some(s0.waiters@[0]),
        s1.waiters@.len() == s0.waiters@.len() - 1,
{
}

/// A signal on a condition variable that `n > 0` threads wait on wakes
/// exactly one of them and leaves the other `n - 1` queued.
pub proof fn lemma_signal_wakes_one(c0: Condvar, c1: Condvar, w: Option<usize>)
    requires
        c1.is_signal_of(&c0, w),
        c0.waiters@.len() > 0,
    ensures
        w == Some(c0.waiters@[0]),
        c1.waiters@.len() == c0.waiters@.len() - 1,
{
}

} // verus!
