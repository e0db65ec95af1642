//! A process's synchronisation state and the entry points that user threads
//! reach through system calls. Each entry point returns what the scheduler
//! has to do next: hand a value back, block the caller, or let it yield and
//! retry; and which thread, if any, to wake.
use vstd::prelude::*;
use crate::ledger::Ledger;
use crate::sync::{Acquire, Condvar, Mutex, Semaphore};

verus! {

/// Returned to a caller whose acquisition the deadlock detector refused.
pub const WOULD_DEADLOCK: isize = -0xDEAD;

/// Returned for an invalid handle or argument.
pub const INVALID: isize = -1;

/// What the scheduler does with the calling thread.
#[derive(PartialEq, Eq, Structural, Clone, Copy, Debug)]
pub enum Action {
    /// The call returns this value.
    Return(isize),
    /// The caller sleeps until woken, then resumes its call.
    Block,
    /// The caller yields, then resumes its call.
    Yield,
}

/// The result of an entry point: the caller's action, and a thread to wake.
#[derive(PartialEq, Eq, Structural, Clone, Copy, Debug)]
pub struct Outcome {
    pub action: Action,
    pub wake: Option<usize>,
}

/// The action that follows an acquisition attempt.
pub open spec fn action_of(a: Acquire) -> Action {
    match a {
        Acquire::Acquired => Action::Return(0),
        Acquire::Blocked => Action::Block,
        Acquire::Retry => Action::Yield,
    }
}

/// `i` is the lowest free slot of `list`, or its length when none is free.
pub open spec fn is_lowest_free<T>(list: Seq<Option<T>>, i: int) -> bool {
    &&& 0 <= i <= list.len()
    &&& i < list.len() ==> list[i].is_none()
    &&& forall|j: int| 0 <= j < i ==> #[trigger] list[j].is_some()
}

/// `list` is `o` with slot `i` (an existing one or the next) filled, and
/// every other slot as it was.
pub open spec fn is_placed<T>(list: Seq<Option<T>>, o: Seq<Option<T>>, i: int) -> bool {
    &&& list.len() == if i < o.len() { o.len() } else { o.len() + 1 }
    &&& list[i].is_some()
    &&& forall|j: int| 0 <= j < o.len() && j != i ==> #[trigger] list[j] == o[j]
}

fn action_of_exec(a: Acquire) -> (r: Action)
    ensures
        r == action_of(a),
{
    match a {
        Acquire::Acquired => Action::Return(0),
        Acquire::Blocked => Action::Block,
        Acquire::Retry => Action::Yield,
    }
}

fn first_free<T>(list: &Vec<Option<T>>) -> (i: usize)
    ensures
        is_lowest_free(list@, i as int),
{
    let mut i: usize = 0;
    while i < list.len()
        invariant
            i <= list@.len(),
            forall|j: int| 0 <= j < i ==> #[trigger] list@[j].is_some(),
        decreases list@.len() - i,
    {
        if list[i].is_none() {
            return i;
        }
        i = i + 1;
    }
    i
}

fn place<T>(list: &mut Vec<Option<T>>, i: usize, x: T)
    requires
        i <= old(list)@.len(),
    ensures
        is_placed(final(list)@, old(list)@, i as int),
        final(list)@[i as int] == Some(x),
{
    if i < list.len() {
        list.set(i, Some(x));
    } else {
        list.push(Some(x));
    }
}

fn take<T>(list: &mut Vec<Option<T>>, i: usize) -> (x: Option<T>)
    requires
        i < old(list)@.len(),
    ensures
        x == old(list)@[i as int],
        final(list)@ == old(list)@.update(i as int, None),
{
    let mut x: Option<T> = None;
    std::mem::swap(&mut x, &mut list[i]);
    x
}

/// The synchronisation state of one process.
pub struct Process {
    pub mutex_list: Vec<Option<Mutex>>,
    pub semaphore_list: Vec<Option<Semaphore>>,
    pub condvar_list: Vec<Option<Condvar>>,
    pub mutex_detection: Ledger,
    pub semaphore_detection: Ledger,
    pub deadlock_detect: bool,
}

impl Process {
    /// Both ledgers have a row per thread and a column per registry slot.
    pub open spec fn wf(&self) -> bool {
        &&& self.mutex_detection.wf()
        &&& self.semaphore_detection.wf()
        &&& self.mutex_detection.threads() == self.semaphore_detection.threads()
        &&& self.mutex_detection.resources() == self.mutex_list@.len()
        &&& self.semaphore_detection.resources() == self.semaphore_list@.len()
    }

    pub open spec fn threads(&self) -> int {
        self.mutex_detection.threads()
    }

    pub open spec fn mutex_live(&self, id: int) -> bool {
        0 <= id < self.mutex_list@.len() && self.mutex_list@[id].is_some()
    }

    pub open spec fn semaphore_live(&self, id: int) -> bool {
        0 <= id < self.semaphore_list@.len() && self.semaphore_list@[id].is_some()
    }

    pub open spec fn condvar_live(&self, id: int) -> bool {
        0 <= id < self.condvar_list@.len() && self.condvar_list@[id].is_some()
    }

    pub open spec fn mutex_at(&self, id: int) -> Mutex {
        self.mutex_list@[id].unwrap()
    }

    pub open spec fn semaphore_at(&self, id: int) -> Semaphore {
        self.semaphore_list@[id].unwrap()
    }

    pub open spec fn condvar_at(&self, id: int) -> Condvar {
        self.condvar_list@[id].unwrap()
    }

    /// `self` is `o` with the mutex registry and ledger changed at most at
    /// slot `id`, and everything else as it was.
    pub open spec fn mutex_changed_only(&self, o: &Process, id: int) -> bool {
        &&& self.mutex_list@.len() == o.mutex_list@.len()
        &&& self.mutex_list@[id].is_some()
        &&& forall|j: int| 0 <= j < o.mutex_list@.len() && j != id ==> #[trigger] self.mutex_list@[j] == o.mutex_list@[j]
        &&& self.semaphore_list@ == o.semaphore_list@
        &&& self.condvar_list@ == o.condvar_list@
        &&& self.semaphore_detection == o.semaphore_detection
        &&& self.deadlock_detect == o.deadlock_detect
    }

    /// `self` is `o` with the semaphore registry and ledger changed at most at
    /// slot `id`, and everything else as it was.
    pub open spec fn semaphore_changed_only(&self, o: &Process, id: int) -> bool {
        &&& self.semaphore_list@.len() == o.semaphore_list@.len()
        &&& self.semaphore_list@[id].is_some()
        &&& forall|j: int| 0 <= j < o.semaphore_list@.len() && j != id ==> #[trigger] self.semaphore_list@[j] == o.semaphore_list@[j]
        &&& self.mutex_list@ == o.mutex_list@
        &&& self.condvar_list@ == o.condvar_list@
        &&& self.mutex_detection == o.mutex_detection
        &&& self.deadlock_detect == o.deadlock_detect
    }

    /// A process with no threads and no resources; detection is off.
    pub fn new() -> (p: Process)
        ensures
            p.wf(),
            p.threads() == 0,
            p.mutex_list@.len() == 0,
            p.semaphore_list@.len() == 0,
            p.condvar_list@.len() == 0,
            !p.deadlock_detect,
    {
        Process {
            mutex_list: Vec::new(),
            semaphore_list: Vec::new(),
            condvar_list: Vec::new(),
            mutex_detection: Ledger::new(),
            semaphore_detection: Ledger::new(),
            deadlock_detect: false,
        }
    }

    /// Registers a new thread in both ledgers; returns its id.
    pub fn add_thread(&mut self) -> (t: usize)
        requires
            old(self).wf(),
            old(self).threads() < usize::MAX,
        ensures
            final(self).wf(),
            t == old(self).threads(),
            final(self).mutex_detection.is_thread_added_to(&old(self).mutex_detection),
            final(self).semaphore_detection.is_thread_added_to(&old(self).semaphore_detection),
            final(self).mutex_list@ == old(self).mutex_list@,
            final(self).semaphore_list@ == old(self).semaphore_list@,
            final(self).condvar_list@ == old(self).condvar_list@,
            final(self).deadlock_detect == old(self).deadlock_detect,
    {
        self.semaphore_detection.add_thread();
        self.mutex_detection.add_thread()
    }

    /// Creates a mutex (blocking or spinning) in the lowest free slot, with a
    /// fresh ledger column of one unit; returns its id.
    pub fn sys_mutex_create(&mut self, blocking: bool) -> (id: isize)
        requires
            old(self).wf(),
            old(self).mutex_list@.len() < isize::MAX,
        ensures
            final(self).wf(),
            is_lowest_free(old(self).mutex_list@, id as int),
            is_placed(final(self).mutex_list@, old(self).mutex_list@, id as int),
            final(self).mutex_at(id as int).is_fresh(blocking),
            final(self).mutex_detection.is_column_set_of(&old(self).mutex_detection, id as int, 1),
            final(self).semaphore_list@ == old(self).semaphore_list@,
            final(self).condvar_list@ == old(self).condvar_list@,
            final(self).semaphore_detection == old(self).semaphore_detection,
            final(self).deadlock_detect == old(self).deadlock_detect,
    {
        let id = first_free(&self.mutex_list);
        let m = Mutex::new(blocking);
        place(&mut self.mutex_list, id, m);
        self.mutex_detection.register_resource(id, 1);
        id as isize
    }

    /// Thread `tid` asks for mutex `id`. The request is entered in the ledger;
    /// with detection on, a request that leaves no safe completion order is
    /// withdrawn and refused. Otherwise the mutex is tried: taken (the grant
    /// is entered), or the caller blocks or spins and resumes later.
    pub fn sys_mutex_lock(&mut self, tid: usize, id: usize) -> (o: Outcome)
        requires
            old(self).wf(),
            tid < old(self).threads(),
            old(self).mutex_live(id as int) ==> old(self).mutex_detection.needs(tid as int, id as int) < usize::MAX
                && old(self).mutex_detection.held_by(tid as int, id as int) < usize::MAX,
        ensures
            final(self).wf(),
            o.wake.is_none(),
            !old(self).mutex_live(id as int) ==> o.action == Action::Return(INVALID) && *final(self) == *old(self),
            old(self).mutex_live(id as int) && old(self).deadlock_detect
                && !old(self).mutex_detection.safe_after_request(tid as int, id as int) ==> {
                &&& o.action == Action::Return(WOULD_DEADLOCK)
                &&& final(self).mutex_detection.same_as(&old(self).mutex_detection)
                &&& final(self).mutex_list@ == old(self).mutex_list@
                &&& final(self).mutex_changed_only(old(self), id as int)
            },
            old(self).mutex_live(id as int) && (!old(self).deadlock_detect
                || old(self).mutex_detection.safe_after_request(tid as int, id as int)) ==> {
                let a = old(self).mutex_at(id as int).lock_outcome();
                &&& o.action == action_of(a)
                &&& final(self).mutex_at(id as int).is_lock_of(&old(self).mutex_at(id as int), tid, a)
                &&& final(self).mutex_changed_only(old(self), id as int)
                &&& a == Acquire::Acquired ==> final(self).mutex_detection.is_acquisition_of(
                    &old(self).mutex_detection, tid as int, id as int)
                &&& a != Acquire::Acquired ==> final(self).mutex_detection.is_request_of(
                    &old(self).mutex_detection, tid as int, id as int)
            },
    {
        if id >= self.mutex_list.len() || self.mutex_list[id].is_none() {
            return Outcome { action: Action::Return(INVALID), wake: None };
        }
        let ghost before = self.mutex_detection;
        self.mutex_detection.request(tid, id);
        if self.deadlock_detect {
            let safe = self.mutex_detection.check();
            proof {
                let mid = self.mutex_detection;
                assert forall|l: Ledger| #[trigger] l.is_request_of(&before, tid as int, id as int) implies l.is_safe() == safe by {
                    before.lemma_request_determined(&l, &mid, tid as int, id as int);
                }
                assert(mid.is_request_of(&before, tid as int, id as int));
            }
            if !safe {
                self.mutex_detection.withdraw(tid, id);
                return Outcome { action: Action::Return(WOULD_DEADLOCK), wake: None };
            }
        }
        let mut m = take(&mut self.mutex_list, id).unwrap();
        let a = m.lock(tid);
        self.mutex_list.set(id, Some(m));
        if a == Acquire::Acquired {
            self.mutex_detection.commit_grant(tid, id);
        }
        Outcome { action: action_of_exec(a), wake: None }
    }

    /// Resumes a lock call of thread `tid` that blocked or spun: the mutex is
    /// tried again, and a grant is entered in the ledger.
    pub fn resume_mutex_lock(&mut self, tid: usize, id: usize) -> (o: Outcome)
        requires
            old(self).wf(),
            tid < old(self).threads(),
            old(self).mutex_live(id as int) ==> old(self).mutex_detection.held_by(tid as int, id as int) < usize::MAX,
        ensures
            final(self).wf(),
            o.wake.is_none(),
            !old(self).mutex_live(id as int) ==> o.action == Action::Return(INVALID) && *final(self) == *old(self),
            old(self).mutex_live(id as int) ==> {
                let a = old(self).mutex_at(id as int).lock_outcome();
                &&& o.action == action_of(a)
                &&& final(self).mutex_at(id as int).is_lock_of(&old(self).mutex_at(id as int), tid, a)
                &&& final(self).mutex_changed_only(old(self), id as int)
                &&& a == Acquire::Acquired ==> final(self).mutex_detection.is_grant_of(
                    &old(self).mutex_detection, tid as int, id as int)
                &&& a != Acquire::Acquired ==> final(self).mutex_detection == old(self).mutex_detection
            },
    {
        if id >= self.mutex_list.len() || self.mutex_list[id].is_none() {
            return Outcome { action: Action::Return(INVALID), wake: None };
        }
        let mut m = take(&mut self.mutex_list, id).unwrap();
        let a = m.lock(tid);
        self.mutex_list.set(id, Some(m));
        if a == Acquire::Acquired {
            self.mutex_detection.commit_grant(tid, id);
        }
        Outcome { action: action_of_exec(a), wake: None }
    }

    /// Thread `tid` releases mutex `id`: at most one waiter is woken, and the
    /// release is entered in the ledger.
    pub fn sys_mutex_unlock(&mut self, tid: usize, id: usize) -> (o: Outcome)
        requires
            old(self).wf(),
            tid < old(self).threads(),
            old(self).mutex_live(id as int) ==> old(self).mutex_detection.avail(id as int) < usize::MAX,
        ensures
            final(self).wf(),
            !old(self).mutex_live(id as int) ==> o == (Outcome { action: Action::Return(INVALID), wake: None })
                && *final(self) == *old(self),
            old(self).mutex_live(id as int) ==> {
                &&& o.action == Action::Return(0)
                &&& final(self).mutex_at(id as int).is_unlock_of(&old(self).mutex_at(id as int), o.wake)
                &&& final(self).mutex_changed_only(old(self), id as int)
                &&& final(self).mutex_detection.is_release_of(&old(self).mutex_detection, tid as int, id as int)
            },
    {
        if id >= self.mutex_list.len() || self.mutex_list[id].is_none() {
            return Outcome { action: Action::Return(INVALID), wake: None };
        }
        let mut m = take(&mut self.mutex_list, id).unwrap();
        let w = m.unlock();
        self.mutex_list.set(id, Some(m));
        self.mutex_detection.commit_release(tid, id);
        Outcome { action: Action::Return(0), wake: w }
    }

    /// Creates a semaphore of `count` units in the lowest free slot, with a
    /// fresh ledger column of `count` units; returns its id.
    pub fn sys_semaphore_create(&mut self, count: usize) -> (id: isize)
        requires
            old(self).wf(),
            old(self).semaphore_list@.len() < isize::MAX,
        ensures
            final(self).wf(),
            is_lowest_free(old(self).semaphore_list@, id as int),
            is_placed(final(self).semaphore_list@, old(self).semaphore_list@, id as int),
            final(self).semaphore_at(id as int).is_fresh(count),
            final(self).semaphore_detection.is_column_set_of(&old(self).semaphore_detection, id as int, count as int),
            final(self).mutex_list@ == old(self).mutex_list@,
            final(self).condvar_list@ == old(self).condvar_list@,
            final(self).mutex_detection == old(self).mutex_detection,
            final(self).deadlock_detect == old(self).deadlock_detect,
    {
        let id = first_free(&self.semaphore_list);
        let sem = Semaphore::new(count);
        place(&mut self.semaphore_list, id, sem);
        self.semaphore_detection.register_resource(id, count);
        id as isize
    }

    /// Thread `tid` asks for a unit of semaphore `id`. The request is entered
    /// in the ledger; with detection on, a request that leaves no safe
    /// completion order is withdrawn and refused. Otherwise a free unit is
    /// taken (the grant is entered), or the caller blocks until an up hands
    /// it one.
    pub fn sys_semaphore_down(&mut self, tid: usize, id: usize) -> (o: Outcome)
        requires
            old(self).wf(),
            tid < old(self).threads(),
            old(self).semaphore_live(id as int) ==> old(self).semaphore_detection.needs(tid as int, id as int)
                < usize::MAX && old(self).semaphore_detection.held_by(tid as int, id as int) < usize::MAX,
        ensures
            final(self).wf(),
            o.wake.is_none(),
            !old(self).semaphore_live(id as int) ==> o.action == Action::Return(INVALID) && *final(self) == *old(self),
            old(self).semaphore_live(id as int) && old(self).deadlock_detect
                && !old(self).semaphore_detection.safe_after_request(tid as int, id as int) ==> {
                &&& o.action == Action::Return(WOULD_DEADLOCK)
                &&& final(self).semaphore_detection.same_as(&old(self).semaphore_detection)
                &&& final(self).semaphore_list@ == old(self).semaphore_list@
                &&& final(self).semaphore_changed_only(old(self), id as int)
            },
            old(self).semaphore_live(id as int) && (!old(self).deadlock_detect
                || old(self).semaphore_detection.safe_after_request(tid as int, id as int)) ==> {
                let a = old(self).semaphore_at(id as int).down_outcome();
                &&& o.action == action_of(a)
                &&& final(self).semaphore_at(id as int).is_down_of(&old(self).semaphore_at(id as int), tid, a)
                &&& final(self).semaphore_changed_only(old(self), id as int)
                &&& a == Acquire::Acquired ==> final(self).semaphore_detection.is_acquisition_of(
                    &old(self).semaphore_detection, tid as int, id as int)
                &&& a != Acquire::Acquired ==> final(self).semaphore_detection.is_request_of(
                    &old(self).semaphore_detection, tid as int, id as int)
            },
    {
        if id >= self.semaphore_list.len() || self.semaphore_list[id].is_none() {
            return Outcome { action: Action::Return(INVALID), wake: None };
        }
        let ghost before = self.semaphore_detection;
        self.semaphore_detection.request(tid, id);
        if self.deadlock_detect {
            let safe = self.semaphore_detection.check();
            proof {
                let mid = self.semaphore_detection;
                assert forall|l: Ledger| #[trigger] l.is_request_of(&before, tid as int, id as int) implies l.is_safe() == safe by {
                    before.lemma_request_determined(&l, &mid, tid as int, id as int);
                }
                assert(mid.is_request_of(&before, tid as int, id as int));
            }
            if !safe {
                self.semaphore_detection.withdraw(tid, id);
                return Outcome { action: Action::Return(WOULD_DEADLOCK), wake: None };
            }
        }
        let mut sem = take(&mut self.semaphore_list, id).unwrap();
        let a = sem.down(tid);
        self.semaphore_list.set(id, Some(sem));
        if a == Acquire::Acquired {
            self.semaphore_detection.commit_grant(tid, id);
        }
        Outcome { action: action_of_exec(a), wake: None }
    }

    /// Resumes a down of thread `tid` that blocked and was woken by an up,
    /// which handed it a unit: the grant is entered in the ledger.
    pub fn resume_semaphore_down(&mut self, tid: usize, id: usize) -> (o: Outcome)
        requires
            old(self).wf(),
            tid < old(self).threads(),
            old(self).semaphore_live(id as int) ==> old(self).semaphore_detection.held_by(tid as int, id as int)
                < usize::MAX,
        ensures
            final(self).wf(),
            o.wake.is_none(),
            !old(self).semaphore_live(id as int) ==> o.action == Action::Return(INVALID) && *final(self) == *old(self),
            old(self).semaphore_live(id as int) ==> {
                &&& o.action == Action::Return(0)
                &&& final(self).semaphore_list@ == old(self).semaphore_list@
                &&& final(self).semaphore_changed_only(old(self), id as int)
                &&& final(self).semaphore_detection.is_grant_of(&old(self).semaphore_detection, tid as int, id as int)
            },
    {
        if id >= self.semaphore_list.len() || self.semaphore_list[id].is_none() {
            return Outcome { action: Action::Return(INVALID), wake: None };
        }
        self.semaphore_detection.commit_grant(tid, id);
        Outcome { action: Action::Return(0), wake: None }
    }

    /// Thread `tid` gives back a unit of semaphore `id`: it goes to the
    /// longest waiter, which is woken, or to the count; the release is entered
    /// in the ledger.
    pub fn sys_semaphore_up(&mut self, tid: usize, id: usize) -> (o: Outcome)
        requires
            old(self).wf(),
            tid < old(self).threads(),
            old(self).semaphore_live(id as int) ==> old(self).semaphore_detection.avail(id as int) < usize::MAX && (
            old(self).semaphore_at(id as int).waiters@.len() > 0 || old(self).semaphore_at(id as int).count
                < usize::MAX),
        ensures
            final(self).wf(),
            !old(self).semaphore_live(id as int) ==> o == (Outcome { action: Action::Return(INVALID), wake: None })
                && *final(self) == *old(self),
            old(self).semaphore_live(id as int) ==> {
                &&& o.action == Action::Return(0)
                &&& final(self).semaphore_at(id as int).is_up_of(&old(self).semaphore_at(id as int), o.wake)
                &&& final(self).semaphore_changed_only(old(self), id as int)
                &&& final(self).semaphore_detection.is_release_of(&old(self).semaphore_detection, tid as int, id as int)
            },
    {
        if id >= self.semaphore_list.len() || self.semaphore_list[id].is_none() {
            return Outcome { action: Action::Return(INVALID), wake: None };
        }
        let mut sem = take(&mut self.semaphore_list, id).unwrap();
        let w = sem.up();
        self.semaphore_list.set(id, Some(sem));
        self.semaphore_detection.commit_release(tid, id);
        Outcome { action: Action::Return(0), wake: w }
    }

    /// Creates a condition variable in the lowest free slot; returns its id.
    pub fn sys_condvar_create(&mut self) -> (id: isize)
        requires
            old(self).wf(),
            old(self).condvar_list@.len() < isize::MAX,
        ensures
            final(self).wf(),
            is_lowest_free(old(self).condvar_list@, id as int),
            is_placed(final(self).condvar_list@, old(self).condvar_list@, id as int),
            final(self).condvar_at(id as int).is_fresh(),
            final(self).mutex_list@ == old(self).mutex_list@,
            final(self).semaphore_list@ == old(self).semaphore_list@,
            final(self).mutex_detection == old(self).mutex_detection,
            final(self).semaphore_detection == old(self).semaphore_detection,
            final(self).deadlock_detect == old(self).deadlock_detect,
    {
        let id = first_free(&self.condvar_list);
        let c = Condvar::new();
        place(&mut self.condvar_list, id, c);
        id as isize
    }

    /// Wakes at most one waiter of condition variable `id`.
    pub fn sys_condvar_signal(&mut self, id: usize) -> (o: Outcome)
        requires
            old(self).wf(),
        ensures
            final(self).wf(),
            !old(self).condvar_live(id as int) ==> o == (Outcome { action: Action::Return(INVALID), wake: None })
                && *final(self) == *old(self),
            old(self).condvar_live(id as int) ==> {
                &&& o.action == Action::Return(0)
                &&& final(self).condvar_list@ == old(self).condvar_list@.update(id as int, Some(final(self).condvar_at(id as int)))
                &&& final(self).condvar_at(id as int).is_signal_of(&old(self).condvar_at(id as int), o.wake)
                &&& final(self).mutex_list@ == old(self).mutex_list@
                &&& final(self).semaphore_list@ == old(self).semaphore_list@
                &&& final(self).mutex_detection == old(self).mutex_detection
                &&& final(self).semaphore_detection == old(self).semaphore_detection
                &&& final(self).deadlock_detect == old(self).deadlock_detect
            },
    {
        if id >= self.condvar_list.len() || self.condvar_list[id].is_none() {
            return Outcome { action: Action::Return(INVALID), wake: None };
        }
        let mut c = take(&mut self.condvar_list, id).unwrap();
        let w = c.signal();
        self.condvar_list.set(id, Some(c));
        Outcome { action: Action::Return(0), wake: w }
    }

    /// Thread `tid` waits on condition variable `cid`, releasing mutex `mid`
    /// in the same step: at most one of the mutex's waiters is woken and the
    /// caller blocks. The ledger is not involved.
    pub fn sys_condvar_wait(&mut self, tid: usize, cid: usize, mid: usize) -> (o: Outcome)
        requires
            old(self).wf(),
        ensures
            final(self).wf(),
            !(old(self).condvar_live(cid as int) && old(self).mutex_live(mid as int)) ==> o == (Outcome {
                action: Action::Return(INVALID),
                wake: None,
            }) && *final(self) == *old(self),
            old(self).condvar_live(cid as int) && old(self).mutex_live(mid as int) ==> {
                &&& o.action == Action::Block
                &&& final(self).condvar_list@ == old(self).condvar_list@.update(cid as int, Some(final(self).condvar_at(cid as int)))
                &&& final(self).condvar_at(cid as int).waiters@ == old(self).condvar_at(cid as int).waiters@.push(tid)
                &&& final(self).mutex_list@ == old(self).mutex_list@.update(mid as int, Some(final(self).mutex_at(mid as int)))
                &&& final(self).mutex_at(mid as int).is_unlock_of(&old(self).mutex_at(mid as int), o.wake)
                &&& final(self).semaphore_list@ == old(self).semaphore_list@
                &&& final(self).mutex_detection == old(self).mutex_detection
                &&& final(self).semaphore_detection == old(self).semaphore_detection
                &&& final(self).deadlock_detect == old(self).deadlock_detect
            },
    {
        if cid >= self.condvar_list.len() || self.condvar_list[cid].is_none() || mid >= self.mutex_list.len()
            || self.mutex_list[mid].is_none() {
            return Outcome { action: Action::Return(INVALID), wake: None };
        }
        let mut c = take(&mut self.condvar_list, cid).unwrap();
        let mut m = take(&mut self.mutex_list, mid).unwrap();
        let w = c.wait(tid, &mut m);
        self.mutex_list.set(mid, Some(m));
        self.condvar_list.set(cid, Some(c));
        Outcome { action: Action::Block, wake: w }
    }

    /// Resumes a wait of thread `tid` that was signalled: the caller contends
    /// for mutex `mid` again, outside the ledger.
    pub fn resume_condvar_wait(&mut self, tid: usize, mid: usize) -> (o: Outcome)
        requires
            old(self).wf(),
        ensures
            final(self).wf(),
            o.wake.is_none(),
            !old(self).mutex_live(mid as int) ==> o.action == Action::Return(INVALID) && *final(self) == *old(self),
            old(self).mutex_live(mid as int) ==> {
                let a = old(self).mutex_at(mid as int).lock_outcome();
                &&& o.action == action_of(a)
                &&& final(self).mutex_at(mid as int).is_lock_of(&old(self).mutex_at(mid as int), tid, a)
                &&& final(self).mutex_changed_only(old(self), mid as int)
                &&& final(self).mutex_detection == old(self).mutex_detection
            },
    {
        if mid >= self.mutex_list.len() || self.mutex_list[mid].is_none() {
            return Outcome { action: Action::Return(INVALID), wake: None };
        }
        let mut m = take(&mut self.mutex_list, mid).unwrap();
        let a = m.lock(tid);
        self.mutex_list.set(mid, Some(m));
        Outcome { action: action_of_exec(a), wake: None }
    }

    /// Turns deadlock detection on (1) or off (0); any other value is refused.
    pub fn sys_enable_deadlock_detect(&mut self, enabled: usize) -> (r: isize)
        requires
            old(self).wf(),
        ensures
            final(self).wf(),
            enabled == 1 ==> r == 0 && *final(self) == (Process { deadlock_detect: true, ..*old(self) }),
            enabled == 0 ==> r == 0 && *final(self) == (Process { deadlock_detect: false, ..*old(self) }),
            enabled > 1 ==> r == INVALID && *final(self) == *old(self),
    {
        if enabled == 1 {
            self.deadlock_detect = true;
            0
        } else if enabled == 0 {
            self.deadlock_detect = false;
            0
        } else {
            INVALID
        }
    }

    /// Frees mutex `id`: its slot becomes reusable and its ledger column is
    /// zeroed, with no unit available.
    pub fn free_mutex(&mut self, id: usize) -> (r: isize)
        requires
            old(self).wf(),
        ensures
            final(self).wf(),
            !old(self).mutex_live(id as int) ==> r == INVALID && *final(self) == *old(self),
            old(self).mutex_live(id as int) ==> {
                &&& r == 0
                &&& final(self).mutex_list@ == old(self).mutex_list@.update(id as int, None)
                &&& final(self).mutex_detection.is_column_set_of(&old(self).mutex_detection, id as int, 0)
                &&& final(self).semaphore_list@ == old(self).semaphore_list@
                &&& final(self).condvar_list@ == old(self).condvar_list@
                &&& final(self).semaphore_detection == old(self).semaphore_detection
                &&& final(self).deadlock_detect == old(self).deadlock_detect
            },
    {
        if id >= self.mutex_list.len() || self.mutex_list[id].is_none() {
            return INVALID;
        }
        self.mutex_list.set(id, None);
        self.mutex_detection.register_resource(id, 0);
        0
    }

    /// Frees semaphore `id`: its slot becomes reusable and its ledger column
    /// is zeroed, with no unit available.
    pub fn free_semaphore(&mut self, id: usize) -> (r: isize)
        requires
            old(self).wf(),
        ensures
            final(self).wf(),
            !old(self).semaphore_live(id as int) ==> r == INVALID && *final(self) == *old(self),
            old(self).semaphore_live(id as int) ==> {
                &&& r == 0
                &&& final(self).semaphore_list@ == old(self).semaphore_list@.update(id as int, None)
                &&& final(self).semaphore_detection.is_column_set_of(&old(self).semaphore_detection, id as int, 0)
                &&& final(self).mutex_list@ == old(self).mutex_list@
                &&& final(self).condvar_list@ == old(self).condvar_list@
                &&& final(self).mutex_detection == old(self).mutex_detection
                &&& final(self).deadlock_detect == old(self).deadlock_detect
            },
    {
        if id >= self.semaphore_list.len() || self.semaphore_list[id].is_none() {
            return INVALID;
        }
        self.semaphore_list.set(id, None);
        self.semaphore_detection.register_resource(id, 0);
        0
    }

    /// Frees condition variable `id`: its slot becomes reusable.
    pub fn free_condvar(&mut self, id: usize) -> (r: isize)
        requires
            old(self).wf(),
        ensures
            final(self).wf(),
            !old(self).condvar_live(id as int) ==> r == INVALID && *final(self) == *old(self),
            old(self).condvar_live(id as int) ==> r == 0 && *final(self) == (Process {
                condvar_list: final(self).condvar_list,
                ..*old(self)
            }) && final(self).condvar_list@ == old(self).condvar_list@.update(id as int, None),
    {
        if id >= self.condvar_list.len() || self.condvar_list[id].is_none() {
            return INVALID;
        }
        self.condvar_list.set(id, None);
        0
    }
}

/// When `list` has exactly one free slot, `id`, a create there reuses it.
pub proof fn lemma_slot_reuse<T>(list: Seq<Option<T>>, id: int, j: int)
    requires
        0 <= id < list.len(),
        list[id].is_none(),
        forall|k: int| 0 <= k < list.len() && k != id ==> #[trigger] list[k].is_some(),
        is_lowest_free(list, j),
    ensures
        j == id,
{
    if j < id {
        assert(list[j].is_some());
    }
    if j > id {
        assert(list[id].is_some());
    }
}

/// The deadline of a sleep of `ms` milliseconds that starts at `now_ms` on
/// the monotonic clock; the caller blocks until the timer reaches it, and
/// the call then returns 0.
pub fn sys_sleep(now_ms: usize, ms: usize) -> (deadline: usize)
    requires
        now_ms + ms <= usize::MAX,
    ensures
        deadline == now_ms + ms,
{
    now_ms + ms
}

} // verus!
