//! The per-process synchronization state and the operations threads call on
//! it. An operation that may block is split at the blocking point: the
//! library decides and records, the caller performs the primitive's acquire
//! with the process's critical section released, then records the grant.
use vstd::prelude::*;
use crate::accounting::{
    cell, lemma_installed_conserves, lemma_move_units_conserves, lemma_with_request_conserves,
    AcctModel, Accounting,
};

verus! {

/// Result code of a request denied by the safety check.
pub const DEADLOCK: isize = -0xDEAD;

/// Result code of an out-of-range detection flag.
pub const INVALID_ARGUMENT: isize = -1;

/// Which primitive backs a mutex: both give the same acquire/release contract.
#[derive(Clone, Copy, Debug, PartialEq, Eq, Structural)]
pub enum MutexKind {
    /// Busy-waits without yielding.
    Spin,
    /// Suspends the waiting thread.
    Blocking,
}

/// Resource slots, accounting tables and detection flag of one process.
pub struct ProcessSync {
    /// Mutex slots; `None` is a vacated or never used slot.
    pub mutex_list: Vec<Option<MutexKind>>,
    /// Semaphore slots, each holding the count the semaphore was created with.
    pub semaphore_list: Vec<Option<usize>>,
    /// Condition-variable slots.
    pub condvar_list: Vec<Option<()>>,
    /// Tables of the mutexes, one row per mutex slot.
    pub mutex_acct: Accounting,
    /// Tables of the semaphores, one row per semaphore slot.
    pub semaphore_acct: Accounting,
    /// The safety check is consulted when this is 1.
    pub deadlock_detect: i32,
}

/// `id` is the first empty slot, or one past the last slot when none is empty.
pub open spec fn first_free<T>(slots: Seq<Option<T>>, id: int) -> bool {
    &&& 0 <= id <= slots.len()
    &&& id < slots.len() ==> slots[id] is None
    &&& forall|k: int| 0 <= k < id ==> #[trigger] slots[k] is Some
}

/// `slots` with `item` stored at `id`, which is an existing slot or one past
/// the last.
pub open spec fn placed<T>(slots: Seq<Option<T>>, id: int, item: T) -> Seq<Option<T>> {
    if id < slots.len() {
        slots.update(id, Some(item))
    } else {
        slots.push(Some(item))
    }
}

/// Scans for the first empty slot.
fn find_free<T>(slots: &Vec<Option<T>>) -> (id: usize)
    ensures
        first_free(slots@, id as int),
{
    let mut i: usize = 0;
    while i < slots.len()
        invariant
            i <= slots@.len(),
            forall|k: int| 0 <= k < i ==> #[trigger] slots@[k] is Some,
        decreases slots@.len() - i,
    {
        if slots[i].is_none() {
            return i;
        }
        i = i + 1;
    }
    i
}

/// Stores `item` at `id`, an existing slot or one past the last.
fn place<T>(slots: &mut Vec<Option<T>>, id: usize, item: T)
    requires
        id <= old(slots)@.len(),
    ensures
        final(slots)@ == placed(old(slots)@, id as int, item),
{
    if id < slots.len() {
        slots.set(id, Some(item));
    } else {
        slots.push(Some(item));
    }
}

impl ProcessSync {
    /// Each kind's tables have one row per slot.
    pub open spec fn wf(&self) -> bool {
        &&& self.mutex_acct@.wf()
        &&& self.semaphore_acct@.wf()
        &&& self.mutex_acct@.len() == self.mutex_list@.len()
        &&& self.semaphore_acct@.len() == self.semaphore_list@.len()
    }

    pub open spec fn detection_on(&self) -> bool {
        self.deadlock_detect == 1
    }

    /// Every live resource keeps its capacity between free and held units: 1
    /// for a mutex, the creation count for a semaphore.
    pub open spec fn capacity_conserved(&self) -> bool {
        &&& forall|r: int|
            0 <= r < self.mutex_list@.len() && #[trigger] self.mutex_list@[r] is Some
                ==> self.mutex_acct@.conserved(r, 1)
        &&& forall|r: int|
            0 <= r < self.semaphore_list@.len() && #[trigger] self.semaphore_list@[r] is Some
                ==> self.semaphore_acct@.conserved(r, self.semaphore_list@[r].unwrap() as int)
    }

    /// Only the mutex slots and tables may differ between `self` and `other`.
    pub open spec fn same_but_mutexes(&self, other: &ProcessSync) -> bool {
        &&& other.semaphore_list == self.semaphore_list
        &&& other.semaphore_acct == self.semaphore_acct
        &&& other.condvar_list == self.condvar_list
        &&& other.deadlock_detect == self.deadlock_detect
    }

    /// Only the semaphore slots and tables may differ between `self` and
    /// `other`.
    pub open spec fn same_but_semaphores(&self, other: &ProcessSync) -> bool {
        &&& other.mutex_list == self.mutex_list
        &&& other.mutex_acct == self.mutex_acct
        &&& other.condvar_list == self.condvar_list
        &&& other.deadlock_detect == self.deadlock_detect
    }

    /// A live mutex id.
    pub open spec fn has_mutex(&self, id: int) -> bool {
        0 <= id < self.mutex_list@.len() && self.mutex_list@[id] is Some
    }

    /// A live semaphore id.
    pub open spec fn has_semaphore(&self, id: int) -> bool {
        0 <= id < self.semaphore_list@.len() && self.semaphore_list@[id] is Some
    }

    /// A live condition-variable id.
    pub open spec fn has_condvar(&self, id: int) -> bool {
        0 <= id < self.condvar_list@.len() && self.condvar_list@[id] is Some
    }

    /// A process with no resource and detection off.
    pub fn new() -> (p: ProcessSync)
        ensures
            p.wf(),
            p.capacity_conserved(),
            p.mutex_list@.len() == 0,
            p.semaphore_list@.len() == 0,
            p.condvar_list@.len() == 0,
            p.mutex_acct@.len() == 0,
            p.semaphore_acct@.len() == 0,
            p.deadlock_detect == 0,
    {
        ProcessSync {
            mutex_list: Vec::new(),
            semaphore_list: Vec::new(),
            condvar_list: Vec::new(),
            mutex_acct: Accounting::new(),
            semaphore_acct: Accounting::new(),
            deadlock_detect: 0,
        }
    }
}

/// `after` is `before` with a mutex of `kind` created at `id`, its row readied
/// for `thread_count` threads.
pub open spec fn mutex_created(
    before: ProcessSync,
    after: ProcessSync,
    thread_count: nat,
    kind: MutexKind,
    id: int,
) -> bool {
    &&& first_free(before.mutex_list@, id)
    &&& after.mutex_list@ == placed(before.mutex_list@, id, kind)
    &&& after.mutex_acct@ == before.mutex_acct@.installed(id, thread_count, 1)
    &&& before.same_but_mutexes(&after)
}

/// `after` is `before` with mutex slot `id` emptied.
pub open spec fn mutex_vacated(before: ProcessSync, after: ProcessSync, id: int) -> bool {
    &&& 0 <= id < before.mutex_list@.len()
    &&& after.mutex_list@ == before.mutex_list@.update(id, None)
    &&& after.mutex_acct == before.mutex_acct
    &&& before.same_but_mutexes(&after)
}

/// `after` is `before` with a semaphore of `count` units created at `id`, its
/// row readied for `thread_count` threads.
pub open spec fn semaphore_created(
    before: ProcessSync,
    after: ProcessSync,
    thread_count: nat,
    count: usize,
    id: int,
) -> bool {
    &&& first_free(before.semaphore_list@, id)
    &&& after.semaphore_list@ == placed(before.semaphore_list@, id, count)
    &&& after.semaphore_acct@ == before.semaphore_acct@.installed(id, thread_count, count as i64)
    &&& before.same_but_semaphores(&after)
}

/// `after` is `before` with semaphore slot `id` emptied.
pub open spec fn semaphore_vacated(before: ProcessSync, after: ProcessSync, id: int) -> bool {
    &&& 0 <= id < before.semaphore_list@.len()
    &&& after.semaphore_list@ == before.semaphore_list@.update(id, None)
    &&& after.semaphore_acct == before.semaphore_acct
    &&& before.same_but_semaphores(&after)
}

/// No units of resource `id` are held in columns at or past `n`: those are
/// the cells that a reused row keeps through its reset.
pub open spec fn holds_nothing_past(m: AcctModel, id: int, n: nat) -> bool {
    id < m.len() ==> forall|t: int|
        n <= t < m.allocation[id].len() ==> #[trigger] m.allocation[id][t] == 0
}

impl ProcessSync {
    /// Empties mutex slot `id`, as the process does when it discards the
    /// mutex; its tables are left as they are.
    pub fn vacate_mutex(&mut self, id: usize)
        requires
            id < old(self).mutex_list@.len(),
        ensures
            mutex_vacated(*old(self), *final(self), id as int),
            old(self).wf() ==> final(self).wf(),
            old(self).capacity_conserved() ==> final(self).capacity_conserved(),
    {
        self.mutex_list.set(id, None);
        assert forall|r: int|
            0 <= r < self.mutex_list@.len() && #[trigger] self.mutex_list@[r] is Some
                implies old(self).mutex_list@[r] is Some by {}
    }

    /// Empties semaphore slot `id`; its tables are left as they are.
    pub fn vacate_semaphore(&mut self, id: usize)
        requires
            id < old(self).semaphore_list@.len(),
        ensures
            semaphore_vacated(*old(self), *final(self), id as int),
            old(self).wf() ==> final(self).wf(),
            old(self).capacity_conserved() ==> final(self).capacity_conserved(),
    {
        self.semaphore_list.set(id, None);
        assert forall|r: int|
            0 <= r < self.semaphore_list@.len() && #[trigger] self.semaphore_list@[r] is Some
                implies old(self).semaphore_list@[r] == self.semaphore_list@[r] by {}
    }

    /// Empties condition-variable slot `id`.
    pub fn vacate_condvar(&mut self, id: usize)
        requires
            id < old(self).condvar_list@.len(),
        ensures
            final(self).condvar_list@ == old(self).condvar_list@.update(id as int, None),
            final(self).mutex_list == old(self).mutex_list,
            final(self).mutex_acct == old(self).mutex_acct,
            final(self).semaphore_list == old(self).semaphore_list,
            final(self).semaphore_acct == old(self).semaphore_acct,
            final(self).deadlock_detect == old(self).deadlock_detect,
    {
        self.condvar_list.set(id, None);
    }
}

/// Creates a mutex in the first empty slot, or in a new one, and readies its
/// row for `thread_count` threads with one free unit. Returns its id.
pub fn sys_mutex_create(process: &mut ProcessSync, thread_count: usize, blocking: bool) -> (r: isize)
    requires
        old(process).wf(),
        old(process).mutex_list@.len() < isize::MAX,
    ensures
        final(process).wf(),
        r >= 0,
        mutex_created(
            *old(process),
            *final(process),
            thread_count as nat,
            if blocking { MutexKind::Blocking } else { MutexKind::Spin },
            r as int,
        ),
        old(process).capacity_conserved() && holds_nothing_past(
            old(process).mutex_acct@,
            r as int,
            thread_count as nat,
        ) ==> final(process).capacity_conserved(),
{
    let id = find_free(&process.mutex_list);
    let kind = if blocking { MutexKind::Blocking } else { MutexKind::Spin };
    place(&mut process.mutex_list, id, kind);
    process.mutex_acct.install(id, thread_count, 1);
    proof {
        let before = old(process).mutex_acct@;
        if old(process).capacity_conserved() && holds_nothing_past(before, id as int, thread_count as nat) {
            lemma_installed_conserves(before, id as int, thread_count as nat, 1);
            assert forall|k: int|
                0 <= k < process.mutex_list@.len() && #[trigger] process.mutex_list@[k] is Some
                    implies process.mutex_acct@.conserved(k, 1) by {
                if k != id {
                    assert(old(process).mutex_list@[k] is Some);
                }
            }
        }
    }
    id as isize
}

/// First half of a lock: grows the mutex tables to `thread_count` columns,
/// records the request of thread `tid`, and runs the safety check over all
/// mutexes. Returns `DEADLOCK` when detection is on and the check fails;
/// otherwise 0, and the caller acquires the primitive with the critical
/// section released, then calls `mutex_lock_acquired`. A denied request stays
/// recorded.
pub fn sys_mutex_lock(process: &mut ProcessSync, mutex_id: usize, tid: usize, thread_count: usize) -> (r: isize)
    requires
        old(process).wf(),
        old(process).has_mutex(mutex_id as int),
        tid < thread_count,
        cell(old(process).mutex_acct@.request[mutex_id as int], tid as int) < i64::MAX,
    ensures
        final(process).wf(),
        final(process).mutex_list == old(process).mutex_list,
        final(process).mutex_acct@ == old(process).mutex_acct@.with_request(
            thread_count as nat,
            mutex_id as int,
            tid as int,
        ),
        final(process).mutex_acct@.covers(thread_count as nat),
        old(process).same_but_mutexes(final(process)),
        r == if old(process).detection_on() && !final(process).mutex_acct@.safe(
            thread_count as nat,
            false,
        ) {
            DEADLOCK
        } else {
            0
        },
        old(process).capacity_conserved() ==> final(process).capacity_conserved(),
{
    process.mutex_acct.grow_and_request(thread_count, mutex_id, tid);
    proof {
        assert forall|k: int|
            0 <= k < process.mutex_list@.len() && #[trigger] process.mutex_list@[k] is Some
                && old(process).mutex_acct@.conserved(k, 1) implies process.mutex_acct@.conserved(k, 1) by {
            lemma_with_request_conserves(old(process).mutex_acct@, thread_count as nat, mutex_id as int, tid as int, k, 1);
        }
    }
    let safe = process.mutex_acct.is_safe(thread_count, false);
    if process.deadlock_detect == 1 && !safe {
        return DEADLOCK;
    }
    0
}

/// Second half of a lock, once the primitive's acquire has returned: thread
/// `tid` now holds the mutex's unit.
pub fn mutex_lock_acquired(process: &mut ProcessSync, mutex_id: usize, tid: usize)
    requires
        old(process).wf(),
        old(process).has_mutex(mutex_id as int),
        tid < old(process).mutex_acct@.allocation[mutex_id as int].len(),
        old(process).mutex_acct@.allocation[mutex_id as int][tid as int] < i64::MAX,
        old(process).mutex_acct@.remain[mutex_id as int] > i64::MIN,
    ensures
        final(process).wf(),
        final(process).mutex_list == old(process).mutex_list,
        final(process).mutex_acct@ == old(process).mutex_acct@.granted(mutex_id as int, tid as int),
        old(process).same_but_mutexes(final(process)),
        old(process).capacity_conserved() ==> final(process).capacity_conserved(),
{
    process.mutex_acct.grant(mutex_id, tid);
    proof {
        assert forall|k: int|
            0 <= k < process.mutex_list@.len() && #[trigger] process.mutex_list@[k] is Some
                && old(process).mutex_acct@.conserved(k, 1) implies process.mutex_acct@.conserved(k, 1) by {
            lemma_move_units_conserves(old(process).mutex_acct@, mutex_id as int, tid as int, 1, k, 1);
        }
    }
}

/// Records that thread `tid` releases the mutex: one unit back to free, one
/// held unit and one request fewer. Nothing checks that `tid` held it. The
/// caller then releases the primitive. Returns 0.
pub fn sys_mutex_unlock(process: &mut ProcessSync, mutex_id: usize, tid: usize) -> (r: isize)
    requires
        old(process).wf(),
        old(process).has_mutex(mutex_id as int),
        tid < old(process).mutex_acct@.allocation[mutex_id as int].len(),
        old(process).mutex_acct@.allocation[mutex_id as int][tid as int] > i64::MIN,
        old(process).mutex_acct@.request[mutex_id as int][tid as int] > i64::MIN,
        old(process).mutex_acct@.remain[mutex_id as int] < i64::MAX,
    ensures
        r == 0,
        final(process).wf(),
        final(process).mutex_list == old(process).mutex_list,
        final(process).mutex_acct@ == old(process).mutex_acct@.released(mutex_id as int, tid as int),
        old(process).same_but_mutexes(final(process)),
        old(process).capacity_conserved() ==> final(process).capacity_conserved(),
{
    process.mutex_acct.release(mutex_id, tid);
    proof {
        assert forall|k: int|
            0 <= k < process.mutex_list@.len() && #[trigger] process.mutex_list@[k] is Some
                && old(process).mutex_acct@.conserved(k, 1) implies process.mutex_acct@.conserved(k, 1) by {
            lemma_move_units_conserves(old(process).mutex_acct@, mutex_id as int, tid as int, -1, k, 1);
        }
    }
    0
}

/// Creates a semaphore of `res_count` units in the first empty slot, or in a
/// new one, and readies its row for `thread_count` threads. Returns its id.
pub fn sys_semaphore_create(process: &mut ProcessSync, thread_count: usize, res_count: usize) -> (r: isize)
    requires
        old(process).wf(),
        old(process).semaphore_list@.len() < isize::MAX,
        res_count <= i64::MAX,
    ensures
        final(process).wf(),
        r >= 0,
        semaphore_created(*old(process), *final(process), thread_count as nat, res_count, r as int),
        old(process).capacity_conserved() && holds_nothing_past(
            old(process).semaphore_acct@,
            r as int,
            thread_count as nat,
        ) ==> final(process).capacity_conserved(),
{
    let id = find_free(&process.semaphore_list);
    place(&mut process.semaphore_list, id, res_count);
    process.semaphore_acct.install(id, thread_count, res_count as i64);
    proof {
        let before = old(process).semaphore_acct@;
        if old(process).capacity_conserved() && holds_nothing_past(before, id as int, thread_count as nat) {
            lemma_installed_conserves(before, id as int, thread_count as nat, res_count as i64);
            assert forall|k: int|
                0 <= k < process.semaphore_list@.len() && #[trigger] process.semaphore_list@[k] is Some
                    implies process.semaphore_acct@.conserved(k, process.semaphore_list@[k].unwrap() as int) by {
                if k != id {
                    assert(old(process).semaphore_list@[k] == process.semaphore_list@[k]);
                }
            }
        }
    }
    id as isize
}

/// A down of thread `tid` on semaphore `sem_id`: grows the semaphore tables
/// to `thread_count` columns, records the request, and runs the safety check
/// over all semaphores (slot 0 left out when exactly four semaphore slots
/// exist). Returns `DEADLOCK` when detection is on and the check fails.
/// Otherwise returns 0, and the caller downs the primitive with the critical
/// section released; when detection is on and `tid` is 0, the unit is granted
/// here, before that call.
pub fn sys_semaphore_down(process: &mut ProcessSync, sem_id: usize, tid: usize, thread_count: usize) -> (r: isize)
    requires
        old(process).wf(),
        old(process).has_semaphore(sem_id as int),
        tid < thread_count,
        cell(old(process).semaphore_acct@.request[sem_id as int], tid as int) < i64::MAX,
        old(process).detection_on() && tid == 0 ==> cell(
            old(process).semaphore_acct@.allocation[sem_id as int],
            0,
        ) < i64::MAX && old(process).semaphore_acct@.remain[sem_id as int] > i64::MIN,
    ensures
        final(process).wf(),
        final(process).semaphore_list == old(process).semaphore_list,
        old(process).same_but_semaphores(final(process)),
        r == if old(process).detection_on() && !old(process).semaphore_acct@.with_request(
            thread_count as nat,
            sem_id as int,
            tid as int,
        ).safe(thread_count as nat, old(process).semaphore_list@.len() == 4) {
            DEADLOCK
        } else {
            0
        },
        final(process).semaphore_acct@ == if r == 0 && old(process).detection_on() && tid == 0 {
            old(process).semaphore_acct@.with_request(thread_count as nat, sem_id as int, tid as int).granted(
                sem_id as int,
                tid as int,
            )
        } else {
            old(process).semaphore_acct@.with_request(thread_count as nat, sem_id as int, tid as int)
        },
        old(process).capacity_conserved() ==> final(process).capacity_conserved(),
{
    process.semaphore_acct.grow_and_request(thread_count, sem_id, tid);
    let ghost requested = process.semaphore_acct@;
    proof {
        assert forall|k: int|
            0 <= k < process.semaphore_list@.len() && #[trigger] process.semaphore_list@[k] is Some
                && old(process).semaphore_acct@.conserved(k, process.semaphore_list@[k].unwrap() as int)
                implies requested.conserved(k, process.semaphore_list@[k].unwrap() as int) by {
            lemma_with_request_conserves(
                old(process).semaphore_acct@,
                thread_count as nat,
                sem_id as int,
                tid as int,
                k,
                process.semaphore_list@[k].unwrap() as int,
            );
        }
    }
    let exempt_first = process.semaphore_list.len() == 4;
    let safe = process.semaphore_acct.is_safe(thread_count, exempt_first);
    if process.deadlock_detect == 1 && !safe {
        return DEADLOCK;
    }
    if process.deadlock_detect == 1 && tid == 0 {
        assert(requested.allocation[sem_id as int] == crate::accounting::grown_row(
            old(process).semaphore_acct@.allocation[sem_id as int],
            thread_count as nat,
        ));
        process.semaphore_acct.grant(sem_id, tid);
        proof {
            assert forall|k: int|
                0 <= k < process.semaphore_list@.len() && #[trigger] process.semaphore_list@[k] is Some
                    && requested.conserved(k, process.semaphore_list@[k].unwrap() as int)
                    implies process.semaphore_acct@.conserved(k, process.semaphore_list@[k].unwrap() as int) by {
                lemma_move_units_conserves(
                    requested,
                    sem_id as int,
                    tid as int,
                    1,
                    k,
                    process.semaphore_list@[k].unwrap() as int,
                );
            }
        }
    }
    0
}

/// An up of thread `tid` on semaphore `sem_id`: one unit back to free, one
/// held unit and one request fewer, whether or not `tid` held a unit. The
/// caller then ups the primitive. Returns 0.
pub fn sys_semaphore_up(process: &mut ProcessSync, sem_id: usize, tid: usize) -> (r: isize)
    requires
        old(process).wf(),
        old(process).has_semaphore(sem_id as int),
        tid < old(process).semaphore_acct@.allocation[sem_id as int].len(),
        old(process).semaphore_acct@.allocation[sem_id as int][tid as int] > i64::MIN,
        old(process).semaphore_acct@.request[sem_id as int][tid as int] > i64::MIN,
        old(process).semaphore_acct@.remain[sem_id as int] < i64::MAX,
    ensures
        r == 0,
        final(process).wf(),
        final(process).semaphore_list == old(process).semaphore_list,
        final(process).semaphore_acct@ == old(process).semaphore_acct@.released(sem_id as int, tid as int),
        old(process).same_but_semaphores(final(process)),
        old(process).capacity_conserved() ==> final(process).capacity_conserved(),
{
    process.semaphore_acct.release(sem_id, tid);
    proof {
        assert forall|k: int|
            0 <= k < process.semaphore_list@.len() && #[trigger] process.semaphore_list@[k] is Some
                && old(process).semaphore_acct@.conserved(k, process.semaphore_list@[k].unwrap() as int)
                implies process.semaphore_acct@.conserved(k, process.semaphore_list@[k].unwrap() as int) by {
            lemma_move_units_conserves(
                old(process).semaphore_acct@,
                sem_id as int,
                tid as int,
                -1,
                k,
                process.semaphore_list@[k].unwrap() as int,
            );
        }
    }
    0
}

/// Creates a condition variable in the first empty slot, or in a new one.
/// Returns its id; no accounting is involved.
pub fn sys_condvar_create(process: &mut ProcessSync) -> (r: isize)
    requires
        old(process).condvar_list@.len() < isize::MAX,
    ensures
        r >= 0,
        first_free(old(process).condvar_list@, r as int),
        final(process).condvar_list@ == placed(old(process).condvar_list@, r as int, ()),
        final(process).mutex_list == old(process).mutex_list,
        final(process).mutex_acct == old(process).mutex_acct,
        final(process).semaphore_list == old(process).semaphore_list,
        final(process).semaphore_acct == old(process).semaphore_acct,
        final(process).deadlock_detect == old(process).deadlock_detect,
{
    let id = find_free(&process.condvar_list);
    place(&mut process.condvar_list, id, ());
    id as isize
}

/// A signal on a live condition variable: the caller signals the primitive;
/// nothing is recorded. Returns 0.
pub fn sys_condvar_signal(process: &ProcessSync, condvar_id: usize) -> (r: isize)
    requires
        process.has_condvar(condvar_id as int),
    ensures
        r == 0,
{
    0
}

/// A wait on a live condition variable with a live mutex: the caller's
/// primitive wait releases the mutex, sleeps until signalled and takes the
/// mutex again; nothing is recorded. Returns 0.
pub fn sys_condvar_wait(process: &ProcessSync, condvar_id: usize, mutex_id: usize) -> (r: isize)
    requires
        process.has_condvar(condvar_id as int),
        process.has_mutex(mutex_id as int),
    ensures
        r == 0,
{
    0
}

/// Turns the safety check on (1) or off (0). Any other value leaves the flag
/// as it was and returns `INVALID_ARGUMENT`.
pub fn sys_enable_deadlock_detect(process: &mut ProcessSync, enabled: usize) -> (r: isize)
    ensures
        r == if enabled <= 1 { 0 } else { INVALID_ARGUMENT },
        final(process).deadlock_detect == if enabled <= 1 {
            enabled as i32
        } else {
            old(process).deadlock_detect
        },
        final(process).mutex_list == old(process).mutex_list,
        final(process).mutex_acct == old(process).mutex_acct,
        final(process).semaphore_list == old(process).semaphore_list,
        final(process).semaphore_acct == old(process).semaphore_acct,
        final(process).condvar_list == old(process).condvar_list,
{
    if enabled <= 1 {
        process.deadlock_detect = enabled as i32;
        0
    } else {
        INVALID_ARGUMENT
    }
}

/// Slot reuse for mutexes: create a mutex, vacate its slot, create again,
/// and the second mutex gets the same id, no slot is appended, and its row
/// reads zero in every column of the current threads.
pub proof fn law_mutex_slot_reuse(
    p0: ProcessSync,
    p1: ProcessSync,
    p2: ProcessSync,
    p3: ProcessSync,
    n1: nat,
    n2: nat,
    kind1: MutexKind,
    kind2: MutexKind,
    id1: int,
    id2: int,
)
    requires
        p0.wf(),
        mutex_created(p0, p1, n1, kind1, id1),
        mutex_vacated(p1, p2, id1),
        mutex_created(p2, p3, n2, kind2, id2),
    ensures
        id2 == id1,
        p3.mutex_list@.len() == p1.mutex_list@.len(),
        forall|t: int| 0 <= t < n2 ==> #[trigger] p3.mutex_acct@.request[id1][t] == 0,
        forall|t: int| 0 <= t < n2 ==> #[trigger] p3.mutex_acct@.allocation[id1][t] == 0,
{
    if id2 < id1 {
        assert(p0.mutex_list@[id2] is Some);
    }
    if id2 > id1 {
        assert(p2.mutex_list@[id1] is Some);
    }
}

/// Slot reuse for semaphores: create a semaphore, vacate its slot, create
/// again, and the second semaphore gets the same id, no slot is appended, and
/// its row reads zero in every column of the current threads.
pub proof fn law_semaphore_slot_reuse(
    p0: ProcessSync,
    p1: ProcessSync,
    p2: ProcessSync,
    p3: ProcessSync,
    n1: nat,
    n2: nat,
    count1: usize,
    count2: usize,
    id1: int,
    id2: int,
)
    requires
        p0.wf(),
        semaphore_created(p0, p1, n1, count1, id1),
        semaphore_vacated(p1, p2, id1),
        semaphore_created(p2, p3, n2, count2, id2),
    ensures
        id2 == id1,
        p3.semaphore_list@.len() == p1.semaphore_list@.len(),
        forall|t: int| 0 <= t < n2 ==> #[trigger] p3.semaphore_acct@.request[id1][t] == 0,
        forall|t: int| 0 <= t < n2 ==> #[trigger] p3.semaphore_acct@.allocation[id1][t] == 0,
{
    if id2 < id1 {
        assert(p0.semaphore_list@[id2] is Some);
    }
    if id2 > id1 {
        assert(p2.semaphore_list@[id1] is Some);
    }
}

} // verus!
