//! The mathematics of the safety check: what a demand is, when an order of
//! threads is safe, and why the search for one never has to look back.

use vstd::prelude::*;

verus! {

/// The mathematical content of a [`Demand`]: `threads()` rows by
/// `resources()` columns of unit counts.
pub struct DemandView {
    /// Free units of each resource.
    pub available: Seq<nat>,
    /// Units of each resource granted to each thread.
    pub allocation: Seq<Seq<nat>>,
    /// Units of each resource each thread still asks for.
    pub need: Seq<Seq<nat>>,
    /// Whether the thread of a row takes part.
    pub active: Seq<bool>,
}

impl DemandView {
    /// Number of thread slots.
    pub open spec fn threads(self) -> nat {
        self.active.len()
    }

    /// Number of resource slots.
    pub open spec fn resources(self) -> nat {
        self.available.len()
    }

    /// Both matrices have one row per thread and one column per resource.
    pub open spec fn wf(self) -> bool {
        &&& self.allocation.len() == self.threads()
        &&& self.need.len() == self.threads()
        &&& forall|i: int|
            0 <= i < self.threads() ==> (#[trigger] self.allocation[i]).len() == self.resources()
        &&& forall|i: int|
            0 <= i < self.threads() ==> (#[trigger] self.need[i]).len() == self.resources()
    }

    /// Units of resource `j` on hand once the threads of `order` have run to
    /// completion and returned what they held.
    pub open spec fn on_hand(self, order: Seq<int>, j: int) -> int
        decreases order.len(),
    {
        if order.len() == 0 {
            self.available[j] as int
        } else {
            self.on_hand(order.drop_last(), j) + self.allocation[order.last()][j]
        }
    }

    /// Thread `i` finds its whole need covered after the threads of `order`.
    pub open spec fn can_run(self, order: Seq<int>, i: int) -> bool {
        forall|j: int|
            0 <= j < self.resources() ==> self.need[i][j] <= #[trigger] self.on_hand(order, j)
    }

    /// `order` names distinct active threads, each able to run when its turn
    /// comes.
    pub open spec fn schedule(self, order: Seq<int>) -> bool {
        &&& forall|k: int|
            0 <= k < order.len() ==> 0 <= #[trigger] order[k] < self.threads()
                && self.active[order[k]]
        &&& order.no_duplicates()
        &&& forall|k: int| 0 <= k < order.len() ==> self.can_run(#[trigger] order.take(k), order[k])
    }

    /// Every active thread occurs in `order`.
    pub open spec fn covers(self, order: Seq<int>) -> bool {
        forall|i: int| 0 <= i < self.threads() && self.active[i] ==> order.contains(i)
    }

    /// A schedule that lets every active thread finish.
    pub open spec fn safe_ordering(self, order: Seq<int>) -> bool {
        self.schedule(order) && self.covers(order)
    }

    /// The state is safe: some safe ordering exists.
    pub open spec fn safe(self) -> bool {
        exists|order: Seq<int>| self.safe_ordering(order)
    }

    /// At every step `order` takes the lowest row that is active, has not run
    /// yet and can run.
    pub open spec fn lowest_first(self, order: Seq<int>) -> bool {
        forall|k: int, i: int|
            0 <= k < order.len() && 0 <= i < order[k] && self.active[i] && !order.take(k).contains(
                i,
            ) ==> !#[trigger] self.can_run(order.take(k), i)
    }
}

/// The active rows below `n`, in ascending order.
pub open spec fn active_rows(d: DemandView, n: int) -> Seq<int>
    decreases n,
{
    if n <= 0 {
        Seq::empty()
    } else if d.active[n - 1] {
        active_rows(d, n - 1).push(n - 1)
    } else {
        active_rows(d, n - 1)
    }
}

/// `active_rows(d, n)` lists exactly the active rows below `n`, each once.
proof fn lemma_active_rows(d: DemandView, n: int)
    requires
        0 <= n <= d.threads(),
    ensures
        active_rows(d, n).no_duplicates(),
        forall|k: int|
            0 <= k < active_rows(d, n).len() ==> 0 <= #[trigger] active_rows(d, n)[k] < n
                && d.active[active_rows(d, n)[k]],
        forall|i: int| 0 <= i < n && d.active[i] ==> active_rows(d, n).contains(i),
    decreases n,
{
    if n > 0 {
        lemma_active_rows(d, n - 1);
        let before = active_rows(d, n - 1);
        let rows = active_rows(d, n);
        assert forall|i: int| 0 <= i < n && d.active[i] implies rows.contains(i) by {
            if i < n - 1 {
                assert(before.contains(i));
                let k = choose|k: int| 0 <= k < before.len() && before[k] == i;
                assert(rows[k] == i);
            } else {
                assert(rows[rows.len() - 1] == i);
            }
        }
    }
}

/// Where what is free covers the need of every active thread, the state is
/// safe: the threads can finish in ascending order.
pub proof fn lemma_covered_needs_are_safe(d: DemandView)
    requires
        forall|i: int, j: int|
            0 <= i < d.threads() && d.active[i] && 0 <= j < d.resources() ==> (
            #[trigger] d.need[i][j]) <= d.available[j],
    ensures
        d.safe(),
{
    let order = active_rows(d, d.threads() as int);
    lemma_active_rows(d, d.threads() as int);
    assert forall|k: int| 0 <= k < order.len() implies d.can_run(
        #[trigger] order.take(k),
        order[k],
    ) by {
        assert forall|j: int| 0 <= j < d.resources() implies d.need[order[k]][j]
            <= #[trigger] d.on_hand(order.take(k), j) by {
            lemma_on_hand_at_least_available(d, order.take(k), j);
            assert(d.need[order[k]][j] <= d.available[j]);
        }
    }
    assert(d.safe_ordering(order));
}

/// Two demands agree on what is free and on every active row.
pub open spec fn same_active_rows(a: DemandView, b: DemandView) -> bool {
    &&& a.available == b.available
    &&& a.active == b.active
    &&& forall|i: int|
        0 <= i < a.threads() && a.active[i] ==> #[trigger] a.allocation[i] == b.allocation[i]
    &&& forall|i: int| 0 <= i < a.threads() && a.active[i] ==> #[trigger] a.need[i] == b.need[i]
}

/// A schedule of one demand leaves the same on hand in another demand
/// that agrees with it on the active rows.
proof fn lemma_on_hand_of_active_rows(a: DemandView, b: DemandView, order: Seq<int>, j: int)
    requires
        same_active_rows(a, b),
        forall|k: int|
            0 <= k < order.len() ==> 0 <= #[trigger] order[k] < a.threads() && a.active[order[k]],
    ensures
        a.on_hand(order, j) == b.on_hand(order, j),
    decreases order.len(),
{
    if order.len() > 0 {
        let rest = order.drop_last();
        assert forall|k: int| 0 <= k < rest.len() implies 0 <= #[trigger] rest[k] < a.threads()
            && a.active[rest[k]] by {
            assert(rest[k] == order[k]);
        }
        lemma_on_hand_of_active_rows(a, b, rest, j);
        assert(a.allocation[order[order.len() - 1]] == b.allocation[order[order.len() - 1]]);
    }
}

/// A safe ordering of one demand is a safe ordering of every demand that
/// agrees with it on the active rows.
proof fn lemma_safe_ordering_of_active_rows(a: DemandView, b: DemandView, order: Seq<int>)
    requires
        same_active_rows(a, b),
        a.safe_ordering(order),
    ensures
        b.safe_ordering(order),
{
    assert forall|k: int| 0 <= k < order.len() implies b.can_run(
        #[trigger] order.take(k),
        order[k],
    ) by {
        let before = order.take(k);
        assert(a.can_run(before, order[k]));
        assert(a.need[order[k]] == b.need[order[k]]);
        assert forall|j: int| 0 <= j < b.resources() implies b.need[order[k]][j]
            <= #[trigger] b.on_hand(before, j) by {
            assert forall|m: int| 0 <= m < before.len() implies 0 <= #[trigger] before[m]
                < a.threads() && a.active[before[m]] by {
                assert(before[m] == order[m]);
            }
            lemma_on_hand_of_active_rows(a, b, before, j);
            assert(a.need[order[k]][j] <= a.on_hand(before, j));
        }
    }
}

/// What stands in the rows that take no part does not matter: two demands
/// that agree on what is free and on every active row are both safe or
/// both unsafe.
pub proof fn lemma_inactive_rows_do_not_count(a: DemandView, b: DemandView)
    requires
        same_active_rows(a, b),
    ensures
        a.safe() == b.safe(),
{
    if a.safe() {
        let order = choose|order: Seq<int>| a.safe_ordering(order);
        lemma_safe_ordering_of_active_rows(a, b, order);
    }
    if b.safe() {
        let order = choose|order: Seq<int>| b.safe_ordering(order);
        assert(same_active_rows(b, a));
        lemma_safe_ordering_of_active_rows(b, a, order);
    }
}

/// An empty roster is safe.
pub proof fn lemma_no_threads_is_safe(d: DemandView)
    requires
        d.threads() == 0,
    ensures
        d.safe(),
{
    lemma_covered_needs_are_safe(d);
}

/// An empty list of resources is safe.
pub proof fn lemma_no_resources_is_safe(d: DemandView)
    requires
        d.resources() == 0,
    ensures
        d.safe(),
{
    lemma_covered_needs_are_safe(d);
}

/// Two safe orderings that both take the lowest row at every step agree on
/// their first `k` threads.
proof fn lemma_lowest_first_prefix(d: DemandView, a: Seq<int>, b: Seq<int>, k: int)
    requires
        d.safe_ordering(a),
        d.lowest_first(a),
        d.safe_ordering(b),
        d.lowest_first(b),
        0 <= k <= a.len(),
        k <= b.len(),
    ensures
        a.take(k) == b.take(k),
    decreases k,
{
    if k == 0 {
        assert(a.take(0) =~= b.take(0));
    } else {
        lemma_lowest_first_prefix(d, a, b, k - 1);
        let before = a.take(k - 1);
        let x = a[k - 1];
        let y = b[k - 1];
        assert(d.can_run(a.take(k - 1), x));
        assert(d.can_run(b.take(k - 1), y));
        if before.contains(x) {
            let m = choose|m: int| 0 <= m < before.len() && before[m] == x;
            assert(a[m] == a[k - 1]);
        }
        if before.contains(y) {
            let m = choose|m: int| 0 <= m < before.len() && before[m] == y;
            assert(b.take(k - 1)[m] == b[m]);
            assert(b[m] == b[k - 1]);
        }
        if x < y {
            assert(!d.can_run(b.take(k - 1), x));
        }
        if y < x {
            assert(!d.can_run(a.take(k - 1), y));
        }
        assert(a.take(k) =~= a.take(k - 1).push(x));
        assert(b.take(k) =~= b.take(k - 1).push(y));
    }
}

/// A safe ordering is no longer than another that agrees with it as far
/// as that one goes.
proof fn lemma_covering_prefix_is_whole(d: DemandView, a: Seq<int>, b: Seq<int>)
    requires
        d.safe_ordering(a),
        d.safe_ordering(b),
        a.len() <= b.len(),
        a == b.take(a.len() as int),
    ensures
        a.len() == b.len(),
{
    if a.len() < b.len() {
        let extra = b[a.len() as int];
        assert(a.contains(extra));
        let m = choose|m: int| 0 <= m < a.len() && a[m] == extra;
        assert(b.take(a.len() as int)[m] == b[m]);
    }
}

/// The rule of the lowest row leaves no choice: a demand has at most one
/// safe ordering that follows it.
pub proof fn lemma_lowest_first_unique(d: DemandView, a: Seq<int>, b: Seq<int>)
    requires
        d.safe_ordering(a),
        d.lowest_first(a),
        d.safe_ordering(b),
        d.lowest_first(b),
    ensures
        a == b,
{
    if a.len() <= b.len() {
        lemma_lowest_first_prefix(d, a, b, a.len() as int);
        assert(a.take(a.len() as int) =~= a);
        lemma_covering_prefix_is_whole(d, a, b);
        assert(b.take(b.len() as int) =~= b);
    } else {
        lemma_lowest_first_prefix(d, a, b, b.len() as int);
        assert(b.take(b.len() as int) =~= b);
        lemma_covering_prefix_is_whole(d, b, a);
        assert(a.take(a.len() as int) =~= a);
    }
}
/// Putting thread `x` at the end of `order` adds what `x` holds to what is
/// on hand.
pub proof fn lemma_on_hand_push(d: DemandView, order: Seq<int>, x: int, j: int)
    ensures
        d.on_hand(order.push(x), j) == d.on_hand(order, j) + d.allocation[x][j],
{
    assert(order.push(x).drop_last() =~= order);
}

/// Taking the thread at position `p` out of `order` takes what it holds
/// from what is on hand.
proof fn lemma_on_hand_remove(d: DemandView, order: Seq<int>, p: int, j: int)
    requires
        0 <= p < order.len(),
    ensures
        d.on_hand(order, j) == d.on_hand(order.remove(p), j) + d.allocation[order[p]][j],
    decreases order.len(),
{
    if p == order.len() - 1 {
        assert(order.remove(p) =~= order.drop_last());
    } else {
        lemma_on_hand_remove(d, order.drop_last(), p, j);
        assert(order.remove(p).drop_last() =~= order.drop_last().remove(p));
        assert(order.remove(p).last() == order.last());
    }
}

/// What is on hand only grows with the set of threads that have run: where
/// every thread of `a` also occurs in `b`, `b` leaves at least as much.
pub proof fn lemma_on_hand_monotone(d: DemandView, a: Seq<int>, b: Seq<int>, j: int)
    requires
        a.no_duplicates(),
        forall|k: int| 0 <= k < a.len() ==> b.contains(#[trigger] a[k]),
    ensures
        d.on_hand(a, j) <= d.on_hand(b, j),
    decreases a.len(),
{
    if a.len() == 0 {
        lemma_on_hand_at_least_available(d, b, j);
    } else {
        let x = a.last();
        let rest = a.drop_last();
        assert(b.contains(a[a.len() - 1]));
        let p = choose|p: int| 0 <= p < b.len() && b[p] == x;
        let others = b.remove(p);
        assert forall|k: int| 0 <= k < rest.len() implies others.contains(#[trigger] rest[k]) by {
            assert(rest[k] == a[k]);
            assert(b.contains(a[k]));
            let q = choose|q: int| 0 <= q < b.len() && b[q] == a[k];
            assert(a[k] != a[a.len() - 1]);
            if q < p {
                assert(others[q] == b[q]);
            } else {
                assert(others[q - 1] == b[q]);
            }
        }
        lemma_on_hand_monotone(d, rest, others, j);
        lemma_on_hand_remove(d, b, p, j);
    }
}

/// Threads only give units back: what is on hand never falls below what
/// was free at the start.
pub proof fn lemma_on_hand_at_least_available(d: DemandView, order: Seq<int>, j: int)
    ensures
        d.available[j] <= d.on_hand(order, j),
    decreases order.len(),
{
    if order.len() > 0 {
        lemma_on_hand_at_least_available(d, order.drop_last(), j);
    }
}

/// The first position of `sigma`, below `n`, whose thread does not occur in
/// `done`.
proof fn lemma_first_missing(sigma: Seq<int>, done: Seq<int>, n: int) -> (k: int)
    requires
        0 <= n <= sigma.len(),
        exists|m: int| 0 <= m < n && !done.contains(#[trigger] sigma[m]),
    ensures
        0 <= k < n,
        !done.contains(sigma[k]),
        forall|m: int| 0 <= m < k ==> done.contains(#[trigger] sigma[m]),
    decreases n,
{
    if exists|m: int| 0 <= m < n - 1 && !done.contains(#[trigger] sigma[m]) {
        lemma_first_missing(sigma, done, n - 1)
    } else {
        n - 1
    }
}

/// A schedule that has not yet let every active thread finish can always be
/// carried on, provided the state is safe at all: the first thread of a safe
/// ordering that has not run yet can run now.
pub proof fn lemma_safe_state_never_sticks(
    d: DemandView,
    done: Seq<int>,
    sigma: Seq<int>,
) -> (i: int)
    requires
        d.schedule(done),
        d.safe_ordering(sigma),
        !d.covers(done),
    ensures
        0 <= i < d.threads(),
        d.active[i],
        !done.contains(i),
        d.can_run(done, i),
{
    let missing = choose|i: int| 0 <= i < d.threads() && d.active[i] && !done.contains(i);
    assert(sigma.contains(missing));
    let at = choose|m: int| 0 <= m < sigma.len() && sigma[m] == missing;
    assert(!done.contains(sigma[at]));
    let k = lemma_first_missing(sigma, done, sigma.len() as int);
    let before = sigma.take(k);
    assert(d.can_run(before, sigma[k]));
    assert forall|j: int| 0 <= j < d.resources() implies d.need[sigma[k]][j]
        <= #[trigger] d.on_hand(done, j) by {
        assert(d.need[sigma[k]][j] <= d.on_hand(before, j));
        assert forall|m: int| 0 <= m < before.len() implies done.contains(#[trigger] before[m]) by {
            assert(before[m] == sigma[m]);
        }
        lemma_on_hand_monotone(d, before, done, j);
    }
    sigma[k]
}
/// A schedule stays one when the lowest row that can run is put at its end.
pub proof fn lemma_schedule_push(d: DemandView, done: Seq<int>, p: int)
    requires
        d.schedule(done),
        d.lowest_first(done),
        0 <= p < d.threads(),
        d.active[p],
        !done.contains(p),
        d.can_run(done, p),
        forall|k: int|
            0 <= k < p && d.active[k] && !done.contains(k) ==> !#[trigger] d.can_run(done, k),
    ensures
        d.schedule(done.push(p)),
        d.lowest_first(done.push(p)),
{
    let next = done.push(p);
    assert forall|k: int| 0 <= k < next.len() implies d.can_run(
        #[trigger] next.take(k),
        next[k],
    ) by {
        if k < done.len() {
            assert(next.take(k) =~= done.take(k));
        } else {
            assert(next.take(k) =~= done);
        }
    }
    assert forall|k: int, i: int|
        0 <= k < next.len() && 0 <= i < next[k] && d.active[i] && !next.take(k).contains(
            i,
        ) implies !#[trigger] d.can_run(next.take(k), i) by {
        if k < done.len() {
            assert(next.take(k) =~= done.take(k));
        } else {
            assert(next.take(k) =~= done);
        }
    }
}

} // verus!
