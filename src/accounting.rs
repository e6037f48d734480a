//! Request / allocation / remain tables of one resource kind, and the one-pass
//! safety check over them.
use vstd::prelude::*;

verus! {

/// Sum of a row of signed counts.
pub open spec fn row_sum(s: Seq<i64>) -> int
    decreases s.len(),
{
    if s.len() == 0 {
        0
    } else {
        row_sum(s.drop_last()) + s.last()
    }
}

/// A row of `n` zero cells.
pub open spec fn zeros(n: nat) -> Seq<i64> {
    Seq::new(n, |k: int| 0i64)
}

/// A row extended with zero cells up to `n` columns; a longer row is kept as is.
pub open spec fn grown_row(row: Seq<i64>, n: nat) -> Seq<i64> {
    if row.len() >= n {
        row
    } else {
        row + zeros((n - row.len()) as nat)
    }
}

/// A row reset for a reused slot: the first `n` columns are zero (existing ones
/// zeroed, missing ones appended); columns at or past `n` of a longer row keep
/// their values.
pub open spec fn reset_row(row: Seq<i64>, n: nat) -> Seq<i64> {
    Seq::new(
        if row.len() >= n { row.len() } else { n },
        |t: int| if t < n { 0i64 } else { row[t] },
    )
}

/// The tables of one resource kind. Rows are indexed by resource id, columns by
/// thread slot.
pub struct Accounting {
    /// Outstanding requests not yet matched by a release.
    pub request: Vec<Vec<i64>>,
    /// Units currently held.
    pub allocation: Vec<Vec<i64>>,
    /// Units held by nobody.
    pub remain: Vec<i64>,
}

/// The tables of one resource kind as sequences.
pub struct AcctModel {
    /// `request[r][t]`: outstanding requests of thread `t` for resource `r`.
    pub request: Seq<Seq<i64>>,
    /// `allocation[r][t]`: units of resource `r` held by thread `t`.
    pub allocation: Seq<Seq<i64>>,
    /// `remain[r]`: free units of resource `r`.
    pub remain: Seq<i64>,
}

impl View for Accounting {
    type V = AcctModel;

    open spec fn view(&self) -> AcctModel {
        AcctModel {
            request: self.request@.map_values(|row: Vec<i64>| row@),
            allocation: self.allocation@.map_values(|row: Vec<i64>| row@),
            remain: self.remain@,
        }
    }
}

/// What a cell reads once its row has grown past column `t`.
pub open spec fn cell(row: Seq<i64>, t: int) -> int {
    if t < row.len() {
        row[t] as int
    } else {
        0
    }
}

impl AcctModel {
    /// Number of resources (rows).
    pub open spec fn len(self) -> nat {
        self.remain.len()
    }

    /// One row per resource in each table, and the request and allocation rows
    /// of a resource have the same length.
    pub open spec fn wf(self) -> bool {
        &&& self.request.len() == self.remain.len()
        &&& self.allocation.len() == self.remain.len()
        &&& forall|r: int|
            0 <= r < self.len() ==> #[trigger] self.request[r].len() == self.allocation[r].len()
    }

    /// Every row has at least `n` columns.
    pub open spec fn covers(self, n: nat) -> bool {
        forall|r: int| 0 <= r < self.len() ==> #[trigger] self.request[r].len() >= n
    }

    /// Thread `j` is obstructed when, for some resource, its outstanding need
    /// exceeds what is free.
    pub open spec fn obstructed(self, j: int) -> bool {
        exists|i: int|
            0 <= i < self.len() && #[trigger] self.request[i][j] - self.allocation[i][j]
                > self.remain[i]
    }

    /// The one-pass check: some thread slot below `thread_count` is not
    /// obstructed. With `exempt_first`, slot 0 is left out of the scan and
    /// cannot make the state safe.
    pub open spec fn safe(self, thread_count: nat, exempt_first: bool) -> bool {
        exists|j: int|
            0 <= j < thread_count && !(exempt_first && j == 0) && !#[trigger] self.obstructed(j)
    }

    /// Resource `r` keeps `capacity` units between its free and held ones.
    pub open spec fn conserved(self, r: int, capacity: int) -> bool {
        self.remain[r] + row_sum(self.allocation[r]) == capacity
    }

    /// Every row grown with zero cells to `n` columns.
    pub open spec fn grown(self, n: nat) -> AcctModel {
        AcctModel {
            request: self.request.map_values(|row: Seq<i64>| grown_row(row, n)),
            allocation: self.allocation.map_values(|row: Seq<i64>| grown_row(row, n)),
            remain: self.remain,
        }
    }

    /// `delta` added to `request[id][tid]`.
    pub open spec fn add_request(self, id: int, tid: int, delta: int) -> AcctModel {
        AcctModel {
            request: self.request.update(
                id,
                self.request[id].update(tid, (self.request[id][tid] + delta) as i64),
            ),
            ..self
        }
    }

    /// `delta` units of resource `id` moved from free to held by `tid`.
    pub open spec fn move_units(self, id: int, tid: int, delta: int) -> AcctModel {
        AcctModel {
            request: self.request,
            allocation: self.allocation.update(
                id,
                self.allocation[id].update(tid, (self.allocation[id][tid] + delta) as i64),
            ),
            remain: self.remain.update(id, (self.remain[id] - delta) as i64),
        }
    }

    /// Rows grown to `n` columns, then one more request of `tid` for `id`.
    pub open spec fn with_request(self, n: nat, id: int, tid: int) -> AcctModel {
        self.grown(n).add_request(id, tid, 1)
    }

    /// One unit of `id` granted to `tid`.
    pub open spec fn granted(self, id: int, tid: int) -> AcctModel {
        self.move_units(id, tid, 1)
    }

    /// One unit of `id` given back by `tid`, and its request withdrawn.
    pub open spec fn released(self, id: int, tid: int) -> AcctModel {
        self.move_units(id, tid, -1).add_request(id, tid, -1)
    }

    /// Row `id` made ready for a new resource of `capacity` units and `n`
    /// threads: an existing row is reset, one past the last is appended.
    pub open spec fn installed(self, id: int, n: nat, capacity: i64) -> AcctModel {
        if id < self.len() {
            AcctModel {
                request: self.request.update(id, reset_row(self.request[id], n)),
                allocation: self.allocation.update(id, reset_row(self.allocation[id], n)),
                remain: self.remain.update(id, capacity),
            }
        } else {
            AcctModel {
                request: self.request.push(zeros(n)),
                allocation: self.allocation.push(zeros(n)),
                remain: self.remain.push(capacity),
            }
        }
    }
}

impl Accounting {
    /// Number of resources (rows).
    pub open spec fn len(&self) -> nat {
        self.remain@.len()
    }

    /// The request row of resource `r`, as the loops below read it.
    pub open spec fn req_row(&self, r: int) -> Seq<i64> {
        self.request@[r]@
    }

    /// The allocation row of resource `r`.
    pub open spec fn alloc_row(&self, r: int) -> Seq<i64> {
        self.allocation@[r]@
    }

    /// `AcctModel::wf` stated over the vectors (see `lemma_wf_view`).
    pub open spec fn wf(&self) -> bool {
        &&& self.request@.len() == self.remain@.len()
        &&& self.allocation@.len() == self.remain@.len()
        &&& forall|r: int|
            0 <= r < self.len() ==> #[trigger] self.req_row(r).len() == self.alloc_row(r).len()
    }

    /// `AcctModel::covers` stated over the vectors.
    pub open spec fn covers(&self, n: nat) -> bool {
        forall|r: int| 0 <= r < self.len() ==> #[trigger] self.req_row(r).len() >= n
    }

    /// `AcctModel::obstructed` stated over the vectors.
    pub open spec fn obstructed(&self, j: int) -> bool {
        exists|i: int|
            0 <= i < self.len() && #[trigger] self.req_row(i)[j] - self.alloc_row(i)[j]
                > self.remain@[i]
    }

    /// Tables with no resource.
    pub fn new() -> (a: Accounting)
        ensures
            a@.wf(),
            a@.len() == 0,
    {
        Accounting { request: Vec::new(), allocation: Vec::new(), remain: Vec::new() }
    }
}

/// A fresh row of `n` zero cells.
fn zero_row(n: usize) -> (row: Vec<i64>)
    ensures
        row@ == zeros(n as nat),
{
    let mut row: Vec<i64> = Vec::new();
    let mut k: usize = 0;
    while k < n
        invariant
            k <= n,
            row@ == zeros(k as nat),
        decreases n - k,
    {
        row.push(0);
        k = k + 1;
        assert(row@ =~= zeros(k as nat));
    }
    row
}

/// Sum of a row after one cell is replaced.
pub proof fn lemma_row_sum_update(s: Seq<i64>, t: int, v: i64)
    requires
        0 <= t < s.len(),
    ensures
        row_sum(s.update(t, v)) == row_sum(s) - s[t] + v,
    decreases s.len(),
{
    let u = s.update(t, v);
    if t == s.len() - 1 {
        assert(u.drop_last() =~= s.drop_last());
    } else {
        assert(u.drop_last() =~= s.drop_last().update(t, v));
        lemma_row_sum_update(s.drop_last(), t, v);
    }
}

/// A row of zero cells sums to zero.
pub proof fn lemma_row_sum_zeros(s: Seq<i64>)
    requires
        forall|t: int| 0 <= t < s.len() ==> s[t] == 0,
    ensures
        row_sum(s) == 0,
    decreases s.len(),
{
    if s.len() > 0 {
        lemma_row_sum_zeros(s.drop_last());
    }
}

/// Adds `delta` to cell `(r, t)` of a table.
fn add_to_cell(rows: &mut Vec<Vec<i64>>, r: usize, t: usize, delta: i64)
    requires
        r < old(rows)@.len(),
        t < old(rows)@[r as int]@.len(),
        i64::MIN <= old(rows)@[r as int]@[t as int] + delta <= i64::MAX,
    ensures
        final(rows)@.len() == old(rows)@.len(),
        final(rows)@[r as int]@ == old(rows)@[r as int]@.update(
            t as int,
            (old(rows)@[r as int]@[t as int] + delta) as i64,
        ),
        forall|k: int| 0 <= k < old(rows)@.len() && k != r ==> final(rows)@[k] == old(rows)@[k],
{
    let v = rows[r][t] + delta;
    rows[r].set(t, v);
}

impl Accounting {
    /// Adds `delta` to `request[r][t]`.
    fn add_request(&mut self, r: usize, t: usize, delta: i64)
        requires
            old(self).wf(),
            r < old(self).len(),
            t < old(self).req_row(r as int).len(),
            i64::MIN <= old(self).req_row(r as int)[t as int] + delta <= i64::MAX,
        ensures
            final(self).wf(),
            final(self).remain == old(self).remain,
            final(self).allocation == old(self).allocation,
            final(self).request@.len() == old(self).request@.len(),
            final(self).req_row(r as int) == old(self).req_row(r as int).update(
                t as int,
                (old(self).req_row(r as int)[t as int] + delta) as i64,
            ),
            forall|k: int|
                0 <= k < old(self).len() && k != r ==> final(self).request@[k] == old(
                    self,
                ).request@[k],
    {
        add_to_cell(&mut self.request, r, t, delta);
        assert forall|k: int| 0 <= k < self.len() implies #[trigger] self.req_row(k).len()
            == self.alloc_row(k).len() by {
            assert(old(self).req_row(k).len() == old(self).alloc_row(k).len());
            if k != r {
                assert(self.request@[k] == old(self).request@[k]);
            }
        }
    }

    /// Adds `delta` to `allocation[r][t]` and takes it from `remain[r]`.
    fn move_units(&mut self, r: usize, t: usize, delta: i64)
        requires
            old(self).wf(),
            r < old(self).len(),
            t < old(self).alloc_row(r as int).len(),
            i64::MIN <= old(self).alloc_row(r as int)[t as int] + delta <= i64::MAX,
            i64::MIN <= old(self).remain@[r as int] - delta <= i64::MAX,
        ensures
            final(self).wf(),
            final(self).request == old(self).request,
            final(self).allocation@.len() == old(self).allocation@.len(),
            final(self).alloc_row(r as int) == old(self).alloc_row(r as int).update(
                t as int,
                (old(self).alloc_row(r as int)[t as int] + delta) as i64,
            ),
            forall|k: int|
                0 <= k < old(self).len() && k != r ==> final(self).allocation@[k] == old(
                    self,
                ).allocation@[k],
            final(self).remain@ == old(self).remain@.update(
                r as int,
                (old(self).remain@[r as int] - delta) as i64,
            ),
    {
        add_to_cell(&mut self.allocation, r, t, delta);
        let v = self.remain[r] - delta;
        self.remain.set(r, v);
        assert forall|k: int| 0 <= k < self.len() implies #[trigger] self.req_row(k).len()
            == self.alloc_row(k).len() by {
            assert(old(self).req_row(k).len() == old(self).alloc_row(k).len());
            if k != r {
                assert(self.allocation@[k] == old(self).allocation@[k]);
            }
        }
    }
}

/// Extends row `r` of a table with zero cells up to `n` columns.
fn extend_row(rows: &mut Vec<Vec<i64>>, r: usize, n: usize)
    requires
        r < old(rows)@.len(),
    ensures
        final(rows)@.len() == old(rows)@.len(),
        final(rows)@[r as int]@ == grown_row(old(rows)@[r as int]@, n as nat),
        forall|k: int| 0 <= k < old(rows)@.len() && k != r ==> final(rows)@[k] == old(rows)@[k],
{
    let ghost start = old(rows)@[r as int]@;
    while rows[r].len() < n
        invariant
            r < rows@.len(),
            rows@.len() == old(rows)@.len(),
            start.len() <= rows@[r as int]@.len(),
            rows@[r as int]@.len() <= n || rows@[r as int]@ == start,
            rows@[r as int]@ =~= start + zeros((rows@[r as int]@.len() - start.len()) as nat),
            forall|k: int| 0 <= k < old(rows)@.len() && k != r ==> rows@[k] == old(rows)@[k],
        decreases n - rows@[r as int]@.len(),
    {
        rows[r].push(0);
    }
    assert(rows@[r as int]@ =~= grown_row(start, n as nat));
}

impl Accounting {
    /// Extends every row with zero cells up to `n` columns; rows never shrink.
    fn grow_to(&mut self, n: usize)
        requires
            old(self).wf(),
        ensures
            final(self).wf(),
            final(self).covers(n as nat),
            final(self).remain == old(self).remain,
            final(self).request@.len() == old(self).request@.len(),
            final(self).allocation@.len() == old(self).allocation@.len(),
            forall|r: int|
                0 <= r < old(self).len() ==> #[trigger] final(self).req_row(r) == grown_row(
                    old(self).req_row(r),
                    n as nat,
                ),
            forall|r: int|
                0 <= r < old(self).len() ==> #[trigger] final(self).alloc_row(r) == grown_row(
                    old(self).alloc_row(r),
                    n as nat,
                ),
    {
        let ghost start = *self;
        let count = self.remain.len();
        let mut r: usize = 0;
        while r < count
            invariant
                count == start.len(),
                r <= count,
                self.remain == start.remain,
                self.request@.len() == count,
                self.allocation@.len() == count,
                forall|k: int|
                    0 <= k < r ==> #[trigger] self.req_row(k) == grown_row(start.req_row(k), n as nat)
                        && self.alloc_row(k) == grown_row(start.alloc_row(k), n as nat),
                forall|k: int|
                    r <= k < count ==> #[trigger] self.request@[k] == start.request@[k]
                        && self.allocation@[k] == start.allocation@[k],
                start.wf(),
            decreases count - r,
        {
            let ghost before = *self;
            extend_row(&mut self.request, r, n);
            extend_row(&mut self.allocation, r, n);
            assert(before.request@[r as int] == start.request@[r as int]);
            assert(before.allocation@[r as int] == start.allocation@[r as int]);
            assert(self.req_row(r as int) == grown_row(start.req_row(r as int), n as nat));
            assert(self.alloc_row(r as int) == grown_row(start.alloc_row(r as int), n as nat));
            assert forall|k: int| 0 <= k < count && k != r implies #[trigger] self.request@[k]
                == before.request@[k] && self.allocation@[k] == before.allocation@[k] by {}
            assert forall|k: int| 0 <= k < r implies #[trigger] self.req_row(k) == grown_row(
                start.req_row(k),
                n as nat,
            ) && self.alloc_row(k) == grown_row(start.alloc_row(k), n as nat) by {
                assert(self.request@[k] == before.request@[k]);
                assert(self.allocation@[k] == before.allocation@[k]);
                assert(before.req_row(k) == grown_row(start.req_row(k), n as nat));
            }
            r = r + 1;
        }
        assert forall|k: int| 0 <= k < self.len() implies #[trigger] self.alloc_row(k) == grown_row(
            start.alloc_row(k),
            n as nat,
        ) by {
            assert(self.req_row(k) == grown_row(start.req_row(k), n as nat));
        }
        assert forall|k: int| 0 <= k < self.len() implies #[trigger] self.req_row(k).len()
            == self.alloc_row(k).len() by {
            assert(start.req_row(k).len() == start.alloc_row(k).len());
            assert(self.alloc_row(k) == grown_row(start.alloc_row(k), n as nat));
        }
    }
}

/// Resets row `r` of a table for a reused slot: columns below `n` become zero.
fn reset_row_in(rows: &mut Vec<Vec<i64>>, r: usize, n: usize)
    requires
        r < old(rows)@.len(),
    ensures
        final(rows)@.len() == old(rows)@.len(),
        final(rows)@[r as int]@ == reset_row(old(rows)@[r as int]@, n as nat),
        forall|k: int| 0 <= k < old(rows)@.len() && k != r ==> final(rows)@[k] == old(rows)@[k],
{
    let ghost start = old(rows)@[r as int]@;
    let len = rows[r].len();
    let kept = if len < n { len } else { n };
    let mut t: usize = 0;
    while t < kept
        invariant
            kept <= n,
            kept <= len,
            len == start.len(),
            t <= kept,
            r < rows@.len(),
            rows@.len() == old(rows)@.len(),
            rows@[r as int]@.len() == len,
            forall|i: int| 0 <= i < t ==> rows@[r as int]@[i] == 0,
            forall|i: int| t <= i < len ==> rows@[r as int]@[i] == start[i],
            forall|k: int| 0 <= k < old(rows)@.len() && k != r ==> rows@[k] == old(rows)@[k],
        decreases kept - t,
    {
        rows[r].set(t, 0);
        t = t + 1;
    }
    extend_row(rows, r, n);
    assert(rows@[r as int]@ =~= reset_row(start, n as nat));
}

impl Accounting {
    /// Makes row `id` ready for a newly created resource with `capacity`
    /// units: a reused row is reset (see `reset_row`); `id` one past the last
    /// row appends a zero row of `n` columns.
    pub fn install(&mut self, id: usize, n: usize, capacity: i64)
        requires
            old(self)@.wf(),
            id <= old(self)@.len(),
        ensures
            final(self)@ == old(self)@.installed(id as int, n as nat, capacity),
            final(self)@.wf(),
    {
        proof { lemma_wf_view(*self, n as nat); }
        if id < self.remain.len() {
            reset_row_in(&mut self.request, id, n);
            reset_row_in(&mut self.allocation, id, n);
            self.remain.set(id, capacity);
            assert(old(self).req_row(id as int).len() == old(self).alloc_row(id as int).len());
        } else {
            let req = zero_row(n);
            let alloc = zero_row(n);
            self.request.push(req);
            self.allocation.push(alloc);
            self.remain.push(capacity);
        }
        assert forall|k: int| 0 <= k < self.len() implies #[trigger] self.req_row(k).len()
            == self.alloc_row(k).len() by {
            if k != id {
                assert(old(self).req_row(k).len() == old(self).alloc_row(k).len());
                assert(self.request@[k] == old(self).request@[k]);
                assert(self.allocation@[k] == old(self).allocation@[k]);
            }
        }
        proof {
            let m = old(self)@.installed(id as int, n as nat, capacity);
            assert forall|r: int| 0 <= r < m.request.len() implies #[trigger] self.req_row(r) == m.request[r] by {
                if r != id {
                    assert(self.request@[r] == old(self).request@[r]);
                }
            }
            assert forall|r: int| 0 <= r < m.allocation.len() implies #[trigger] self.alloc_row(r) == m.allocation[r] by {
                if r != id {
                    assert(self.allocation@[r] == old(self).allocation@[r]);
                }
            }
            lemma_view_eq(*self, m);
            lemma_wf_view(*self, n as nat);
        }
    }

    /// The one-pass safety check over the first `thread_count` thread slots.
    pub fn is_safe(&self, thread_count: usize, exempt_first: bool) -> (r: bool)
        requires
            self@.wf(),
            self@.covers(thread_count as nat),
        ensures
            r == self@.safe(thread_count as nat, exempt_first),
    {
        proof { lemma_wf_view(*self, thread_count as nat); }
        let count = self.remain.len();
        let mut flag = false;
        let mut j: usize = 0;
        while j < thread_count
            invariant
                self.wf(),
                self.covers(thread_count as nat),
                count == self.len(),
                j <= thread_count,
                flag == exists|jj: int|
                    0 <= jj < j && !(exempt_first && jj == 0) && !#[trigger] self@.obstructed(jj),
            decreases thread_count - j,
        {
            if !(exempt_first && j == 0) {
                let mut obstructed = false;
                let mut i: usize = 0;
                while i < count
                    invariant
                        self.wf(),
                        self.covers(thread_count as nat),
                        count == self.len(),
                        j < thread_count,
                        i <= count,
                        obstructed == exists|ii: int|
                            0 <= ii < i && #[trigger] self.req_row(ii)[j as int] - self.alloc_row(
                                ii,
                            )[j as int] > self.remain@[ii],
                    decreases count - i,
                {
                    assert(self.req_row(i as int).len() >= thread_count);
                    assert(self.req_row(i as int).len() == self.alloc_row(i as int).len());
                    let need = (self.request[i][j] as i128) - (self.allocation[i][j] as i128);
                    if need > self.remain[i] as i128 {
                        obstructed = true;
                    }
                    i = i + 1;
                }
                assert(obstructed == self.obstructed(j as int));
                assert(obstructed == self@.obstructed(j as int)) by {
                    if obstructed {
                        let ii = choose|ii: int| 0 <= ii < count && #[trigger] self.req_row(ii)[j as int] - self.alloc_row(ii)[j as int] > self.remain@[ii];
                        assert(self@.request[ii] == self.req_row(ii));
                        assert(self@.allocation[ii] == self.alloc_row(ii));
                    } else if self@.obstructed(j as int) {
                        let ii = choose|ii: int| 0 <= ii < count && #[trigger] self@.request[ii][j as int] - self@.allocation[ii][j as int] > self@.remain[ii];
                        assert(self@.request[ii] == self.req_row(ii));
                        assert(self@.allocation[ii] == self.alloc_row(ii));
                    }
                }
                if !obstructed {
                    flag = true;
                }
            }
            j = j + 1;
        }
        flag
    }
}

/// Appending zero cells keeps a row's sum.
pub proof fn lemma_row_sum_grown(s: Seq<i64>, n: nat)
    ensures
        row_sum(grown_row(s, n)) == row_sum(s),
    decreases n,
{
    if s.len() < n {
        let g = grown_row(s, n);
        assert(g.drop_last() =~= grown_row(s, (n - 1) as nat));
        lemma_row_sum_grown(s, (n - 1) as nat);
    }
}

/// Two tables are equal when their rows are.
proof fn lemma_view_eq(a: Accounting, m: AcctModel)
    requires
        a.request@.len() == m.request.len(),
        a.allocation@.len() == m.allocation.len(),
        a.remain@ == m.remain,
        forall|r: int| 0 <= r < m.request.len() ==> #[trigger] a.req_row(r) == m.request[r],
        forall|r: int| 0 <= r < m.allocation.len() ==> #[trigger] a.alloc_row(r) == m.allocation[r],
    ensures
        a@ == m,
{
    assert forall|r: int| 0 <= r < m.request.len() implies #[trigger] a@.request[r] == m.request[r] by {
        assert(a.req_row(r) == m.request[r]);
    }
    assert forall|r: int| 0 <= r < m.allocation.len() implies #[trigger] a@.allocation[r] == m.allocation[r] by {
        assert(a.alloc_row(r) == m.allocation[r]);
    }
    assert(a@.request =~= m.request);
    assert(a@.allocation =~= m.allocation);
}

/// The executable and the sequence forms of well-formedness agree.
proof fn lemma_wf_view(a: Accounting, n: nat)
    ensures
        a.wf() == a@.wf(),
        a.wf() ==> a.covers(n) == a@.covers(n),
        a.wf() ==> forall|r: int| 0 <= r < a.len() ==> #[trigger] a@.request[r] == a.req_row(r) && a@.allocation[r] == a.alloc_row(r),
{
    assert forall|r: int| 0 <= r < a.request@.len() implies #[trigger] a@.request[r] == a.req_row(r) by {}
    assert forall|r: int| 0 <= r < a.allocation@.len() implies #[trigger] a@.allocation[r] == a.alloc_row(r) by {}
    assert(a@.request.len() == a.request@.len());
    assert(a@.allocation.len() == a.allocation@.len());
    if a.wf() {
        assert forall|r: int| 0 <= r < a.len() implies #[trigger] a@.request[r].len() == a@.allocation[r].len() by {
            assert(a.req_row(r).len() == a.alloc_row(r).len());
            assert(a@.request[r] == a.req_row(r));
            assert(a@.allocation[r] == a.alloc_row(r));
        }
    }
    if a@.wf() {
        assert forall|r: int| 0 <= r < a.len() implies #[trigger] a.req_row(r).len() == a.alloc_row(r).len() by {
            assert(a@.request[r].len() == a@.allocation[r].len());
            assert(a@.request[r] == a.req_row(r));
            assert(a@.allocation[r] == a.alloc_row(r));
        }
    }
    if a.covers(n) && a.wf() {
        assert forall|r: int| 0 <= r < a@.len() implies #[trigger] a@.request[r].len() >= n by {
            assert(a.req_row(r).len() >= n);
            assert(a@.request[r] == a.req_row(r));
        }
    }
    if a@.covers(n) && a@.wf() {
        assert forall|r: int| 0 <= r < a.len() implies #[trigger] a.req_row(r).len() >= n by {
            assert(a@.request[r].len() >= n);
            assert(a@.request[r] == a.req_row(r));
        }
    }
}

/// Growing rows and recording a request moves no unit: every resource keeps
/// its free plus held count.
pub proof fn lemma_with_request_conserves(m: AcctModel, n: nat, id: int, tid: int, r: int, capacity: int)
    requires
        m.wf(),
        0 <= r < m.len(),
    ensures
        m.with_request(n, id, tid).conserved(r, capacity) == m.conserved(r, capacity),
{
    lemma_row_sum_grown(m.allocation[r], n);
}

/// Moving units between free and held keeps every resource's total.
pub proof fn lemma_move_units_conserves(m: AcctModel, id: int, tid: int, delta: int, r: int, capacity: int)
    requires
        m.wf(),
        0 <= id < m.len(),
        0 <= tid < m.allocation[id].len(),
        0 <= r < m.len(),
        i64::MIN <= m.allocation[id][tid] + delta <= i64::MAX,
        i64::MIN <= m.remain[id] - delta <= i64::MAX,
    ensures
        m.move_units(id, tid, delta).conserved(r, capacity) == m.conserved(r, capacity),
        m.move_units(id, tid, delta).add_request(id, tid, -1).conserved(r, capacity) == m.conserved(r, capacity),
{
    lemma_row_sum_update(m.allocation[id], tid, (m.allocation[id][tid] + delta) as i64);
}

/// A row installed with no held units past column `n` is conserved at its
/// capacity.
pub proof fn lemma_installed_conserves(m: AcctModel, id: int, n: nat, capacity: i64)
    requires
        m.wf(),
        0 <= id <= m.len(),
        id < m.len() ==> forall|t: int| n <= t < m.allocation[id].len() ==> #[trigger] m.allocation[id][t] == 0,
    ensures
        m.installed(id, n, capacity).conserved(id, capacity as int),
{
    lemma_row_sum_zeros(m.installed(id, n, capacity).allocation[id]);
}

impl Accounting {
    /// Grows every row to `n` columns and records one more request of thread
    /// `tid` for resource `id`.
    pub fn grow_and_request(&mut self, n: usize, id: usize, tid: usize)
        requires
            old(self)@.wf(),
            id < old(self)@.len(),
            tid < n,
            cell(old(self)@.request[id as int], tid as int) < i64::MAX,
        ensures
            final(self)@ == old(self)@.with_request(n as nat, id as int, tid as int),
            final(self)@.wf(),
            final(self)@.covers(n as nat),
    {
        proof { lemma_wf_view(*self, n as nat); }
        self.grow_to(n);
        let ghost grown = *self;
        assert(grown.req_row(id as int).len() >= n);
        assert(grown.req_row(id as int) == grown_row(old(self).req_row(id as int), n as nat));
        self.add_request(id, tid, 1);
        proof {
            let m = old(self)@.with_request(n as nat, id as int, tid as int);
            assert forall|r: int| 0 <= r < m.request.len() implies #[trigger] self.req_row(r) == m.request[r] by {
                assert(grown.req_row(r) == grown_row(old(self).req_row(r), n as nat));
                if r != id {
                    assert(self.request@[r] == grown.request@[r]);
                }
            }
            assert forall|r: int| 0 <= r < m.allocation.len() implies #[trigger] self.alloc_row(r) == m.allocation[r] by {
                assert(grown.alloc_row(r) == grown_row(old(self).alloc_row(r), n as nat));
            }
            lemma_view_eq(*self, m);
            assert forall|r: int| 0 <= r < self.len() implies #[trigger] self.req_row(r).len() >= n by {
                assert(grown.req_row(r).len() >= n);
                if r != id {
                    assert(self.request@[r] == grown.request@[r]);
                }
            }
            lemma_wf_view(*self, n as nat);
        }
    }

    /// Grants one unit of resource `id` to thread `tid`.
    pub fn grant(&mut self, id: usize, tid: usize)
        requires
            old(self)@.wf(),
            id < old(self)@.len(),
            tid < old(self)@.allocation[id as int].len(),
            old(self)@.allocation[id as int][tid as int] < i64::MAX,
            old(self)@.remain[id as int] > i64::MIN,
        ensures
            final(self)@ == old(self)@.granted(id as int, tid as int),
            final(self)@.wf(),
    {
        proof { lemma_wf_view(*self, 0); }
        self.move_units(id, tid, 1);
        proof {
            let m = old(self)@.granted(id as int, tid as int);
            assert forall|r: int| 0 <= r < m.allocation.len() implies #[trigger] self.alloc_row(r) == m.allocation[r] by {
                if r != id {
                    assert(self.allocation@[r] == old(self).allocation@[r]);
                }
            }
            lemma_view_eq(*self, m);
            lemma_wf_view(*self, 0);
        }
    }

    /// Thread `tid` gives one unit of resource `id` back and withdraws one
    /// request for it.
    pub fn release(&mut self, id: usize, tid: usize)
        requires
            old(self)@.wf(),
            id < old(self)@.len(),
            tid < old(self)@.allocation[id as int].len(),
            old(self)@.allocation[id as int][tid as int] > i64::MIN,
            old(self)@.request[id as int][tid as int] > i64::MIN,
            old(self)@.remain[id as int] < i64::MAX,
        ensures
            final(self)@ == old(self)@.released(id as int, tid as int),
            final(self)@.wf(),
    {
        proof { lemma_wf_view(*self, 0); }
        self.move_units(id, tid, -1);
        let ghost moved = *self;
        self.add_request(id, tid, -1);
        proof {
            let m = old(self)@.released(id as int, tid as int);
            assert forall|r: int| 0 <= r < m.allocation.len() implies #[trigger] self.alloc_row(r) == m.allocation[r] by {
                if r != id {
                    assert(self.allocation@[r] == old(self).allocation@[r]);
                }
            }
            assert forall|r: int| 0 <= r < m.request.len() implies #[trigger] self.req_row(r) == m.request[r] by {
                if r != id {
                    assert(self.request@[r] == old(self).request@[r]);
                }
            }
            lemma_view_eq(*self, m);
            lemma_wf_view(*self, 0);
        }
    }
}

} // verus!
