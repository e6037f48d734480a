//! Thread status and the sleep deadline.
use vstd::prelude::*;

verus! {

/// The status of a task in its lifecycle.
#[derive(Clone, Copy, Debug, PartialEq, Eq, Structural)]
pub enum TaskStatus {
    UnInit,
    Ready,
    Running,
    Exited,
}

/// A sleep of `ms` milliseconds asked at time `now_ms`: the caller arms a
/// timer for the returned expiry and blocks until it fires.
pub fn sys_sleep(now_ms: usize, ms: usize) -> (expire_ms: usize)
    requires
        now_ms + ms <= usize::MAX,
    ensures
        expire_ms == now_ms + ms,
{
    now_ms + ms
}

/// The `k`-th slot after `current` in round-robin order over `n` slots.
pub open spec fn after(current: int, k: int, n: int) -> int {
    if current + 1 + k < n {
        current + 1 + k
    } else {
        current + 1 + k - n
    }
}

/// The next task to run: the first `Ready` one after `current` in round-robin
/// order, `current` itself coming last; `None` when no task is ready.
pub fn find_next_task(statuses: &Vec<TaskStatus>, current: usize) -> (r: Option<usize>)
    requires
        current < statuses@.len(),
    ensures
        match r {
            Some(id) => exists|k: int|
                0 <= k < statuses@.len() && id == after(current as int, k, statuses@.len() as int)
                    && statuses@[id as int] == TaskStatus::Ready && forall|k2: int|
                    0 <= k2 < k ==> statuses@[after(current as int, k2, statuses@.len() as int)]
                        != TaskStatus::Ready,
            None => forall|i: int| 0 <= i < statuses@.len() ==> statuses@[i] != TaskStatus::Ready,
        },
{
    let n = statuses.len();
    let mut k: usize = 0;
    while k < n
        invariant
            n == statuses@.len(),
            current < n,
            k <= n,
            forall|k2: int|
                0 <= k2 < k ==> statuses@[after(current as int, k2, n as int)] != TaskStatus::Ready,
        decreases n - k,
    {
        let id = if k < n - 1 - current { current + 1 + k } else { k - (n - 1 - current) };
        assert(id == after(current as int, k as int, n as int));
        if statuses[id] == TaskStatus::Ready {
            assert(0 <= k < n && id == after(current as int, k as int, n as int));
            return Some(id);
        }
        k = k + 1;
    }
    assert forall|i: int| 0 <= i < n implies statuses@[i] != TaskStatus::Ready by {
        let k2 = if i > current { i - current - 1 } else { i + n - current - 1 };
        assert(after(current as int, k2, n as int) == i);
    }
    None
}

} // verus!
