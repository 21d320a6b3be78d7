//! The demand in executable form: the matrices, the search for a safe
//! order, and the reading of a demand off the state of a process.

use crate::detector::model::{
    lemma_on_hand_push, lemma_safe_state_never_sticks, lemma_schedule_push, DemandView,
};
use crate::sync::queue::{count_of, lemma_occurrences_bounded, occurrences};
use vstd::prelude::*;

verus! {

/// The thread identifier of the slot that the detector leaves out.
pub const EXCLUDED_TID: usize = 999;

/// Unit counts of one row as natural numbers.
pub open spec fn units(row: Seq<u128>) -> Seq<nat> {
    row.map_values(|x: u128| x as nat)
}

/// Unit counts of a whole matrix as natural numbers.
pub open spec fn unit_rows(matrix: Seq<Vec<u128>>) -> Seq<Seq<nat>> {
    matrix.map_values(|row: Vec<u128>| units(row@))
}

/// Row numbers as mathematical integers.
pub open spec fn row_numbers(order: Seq<usize>) -> Seq<int> {
    order.map_values(|i: usize| i as int)
}

/// A number of units as a `u128` holds it: the largest `u128` stands for
/// itself and for everything above it.
spec fn capped(units: int) -> int {
    if units > u128::MAX {
        u128::MAX as int
    } else {
        units
    }
}

/// How many rows have not finished yet.
spec fn unfinished(finish: Seq<bool>) -> nat
    decreases finish.len(),
{
    if finish.len() == 0 {
        0
    } else {
        unfinished(finish.drop_last()) + if finish.last() {
            0nat
        } else {
            1nat
        }
    }
}

/// The demand that four vectors describe.
pub open spec fn demand_view(
    available: Seq<u128>,
    allocation: Seq<Vec<u128>>,
    need: Seq<Vec<u128>>,
    active: Seq<bool>,
) -> DemandView {
    DemandView {
        available: units(available),
        allocation: unit_rows(allocation),
        need: unit_rows(need),
        active,
    }
}

/// The input of the safety check for one class of resources: one row per
/// thread slot, one column per resource slot.  The two matrices always have
/// a row for every thread and a column for every resource.
///
/// Counts are kept in `u128` so that a queue of any length that memory can
/// hold, with one pending request on top, is counted exactly.
#[derive(Debug)]
pub struct Demand {
    available: Vec<u128>,
    allocation: Vec<Vec<u128>>,
    need: Vec<Vec<u128>>,
    active: Vec<bool>,
}

impl View for Demand {
    type V = DemandView;

    closed spec fn view(&self) -> DemandView {
        demand_view(self.available@, self.allocation@, self.need@, self.active@)
    }
}

impl Demand {
    /// Holds of every demand at all times.
    #[verifier::type_invariant]
    spec fn well_formed(&self) -> bool {
        self@.wf()
    }

    /// Whether every row of `matrix` has `width` entries.
    fn has_width(matrix: &Vec<Vec<u128>>, width: usize) -> (ok: bool)
        ensures
            ok == forall|i: int| 0 <= i < matrix.len() ==> (#[trigger] matrix[i]).len() == width,
    {
        let mut i: usize = 0;
        while i < matrix.len()
            invariant
                i <= matrix.len(),
                forall|k: int| 0 <= k < i ==> (#[trigger] matrix[k]).len() == width,
            decreases matrix.len() - i,
        {
            if matrix[i].len() != width {
                return false;
            }
            i += 1;
        }
        true
    }

    /// A demand with the given contents, where the matrices have a row for
    /// every entry of `active` and a column for every entry of `available`.
    pub fn new(
        available: Vec<u128>,
        allocation: Vec<Vec<u128>>,
        need: Vec<Vec<u128>>,
        active: Vec<bool>,
    ) -> (made: Option<Demand>)
        ensures
            made.is_some() == demand_view(available@, allocation@, need@, active@).wf(),
            made matches Some(demand) ==> demand@ == demand_view(
                available@,
                allocation@,
                need@,
                active@,
            ),
    {
        let ghost view = demand_view(available@, allocation@, need@, active@);
        if allocation.len() != active.len() || need.len() != active.len() {
            return None;
        }
        if !Self::has_width(&allocation, available.len()) {
            proof {
                let i = choose|i: int|
                    0 <= i < allocation.len() && (#[trigger] allocation[i]).len()
                        != available.len();
                assert(view.allocation[i].len() == allocation[i].len());
            }
            return None;
        }
        if !Self::has_width(&need, available.len()) {
            proof {
                let i = choose|i: int|
                    0 <= i < need.len() && (#[trigger] need[i]).len() != available.len();
                assert(view.need[i].len() == need[i].len());
            }
            return None;
        }
        Some(Demand { available, allocation, need, active })
    }

    /// Free units of each resource.
    pub fn available(&self) -> (available: &Vec<u128>)
        ensures
            units(available@) == self@.available,
            self@.wf(),
    {
        proof {
            use_type_invariant(self);
        }
        &self.available
    }

    /// Units of each resource granted to each thread.
    pub fn allocation(&self) -> (allocation: &Vec<Vec<u128>>)
        ensures
            unit_rows(allocation@) == self@.allocation,
            self@.wf(),
    {
        proof {
            use_type_invariant(self);
        }
        &self.allocation
    }

    /// Units of each resource each thread still asks for.
    pub fn need(&self) -> (need: &Vec<Vec<u128>>)
        ensures
            unit_rows(need@) == self@.need,
            self@.wf(),
    {
        proof {
            use_type_invariant(self);
        }
        &self.need
    }

    /// Whether the thread of a row takes part.
    pub fn active(&self) -> (active: &Vec<bool>)
        ensures
            active@ == self@.active,
            self@.wf(),
    {
        proof {
            use_type_invariant(self);
        }
        &self.active
    }

    /// `work` holds, for every resource, what is on hand after `done`,
    /// capped at the largest value a `u128` can hold.
    spec fn tracks(&self, work: Seq<u128>, done: Seq<int>) -> bool {
        &&& work.len() == self@.resources()
        &&& forall|j: int|
            0 <= j < work.len() ==> #[trigger] work[j] == capped(self@.on_hand(done, j))
    }

    /// Whether row `i` needs no more of any resource than `work` offers.
    fn fits(&self, i: usize, work: &Vec<u128>, Ghost(done): Ghost<Seq<int>>) -> (ok: bool)
        requires
            i < self.active.len(),
            self.tracks(work@, done),
        ensures
            ok == self@.can_run(done, i as int),
    {
        proof {
            use_type_invariant(self);
        }
        let resources = self.available.len();
        let row = &self.need[i];
        assert(self@.need[i as int] == units(row@));
        let mut j: usize = 0;
        while j < resources
            invariant
                j <= resources,
                resources == self.available.len(),
                row@.len() == resources,
                self@.need[i as int] == units(row@),
                self.tracks(work@, done),
                forall|c: int|
                    0 <= c < j ==> self@.need[i as int][c] <= #[trigger] self@.on_hand(done, c),
            decreases resources - j,
        {
            assert(self@.need[i as int][j as int] == row[j as int]);
            if row[j] > work[j] {
                assert(self@.need[i as int][j as int] > self@.on_hand(done, j as int));
                return false;
            }
            j += 1;
        }
        true
    }

    /// Adds what row `i` holds to `work`.
    fn release(&self, i: usize, work: &mut Vec<u128>, Ghost(done): Ghost<Seq<int>>)
        requires
            i < self.active.len(),
            self.tracks(old(work)@, done),
        ensures
            self.tracks(final(work)@, done.push(i as int)),
    {
        proof {
            use_type_invariant(self);
        }
        let resources = self.available.len();
        let row = &self.allocation[i];
        assert(self@.allocation[i as int] == units(row@));
        let mut j: usize = 0;
        while j < resources
            invariant
                j <= resources,
                resources == self.available.len(),
                row@.len() == resources,
                work.len() == resources,
                self@.allocation[i as int] == units(row@),
                forall|c: int|
                    j <= c < resources ==> #[trigger] work[c] == capped(self@.on_hand(done, c)),
                forall|c: int|
                    0 <= c < j ==> #[trigger] work[c] == capped(
                        self@.on_hand(done.push(i as int), c),
                    ),
            decreases resources - j,
        {
            proof {
                lemma_on_hand_push(self@, done, i as int, j as int);
                assert(self@.allocation[i as int][j as int] == row[j as int]);
                assert(work[j as int] == capped(self@.on_hand(done, j as int)));
            }
            let sum = work[j].saturating_add(row[j]);
            work.set(j, sum);
            j += 1;
        }
    }

    /// Whether every row has finished.
    fn all_finished(finish: &Vec<bool>) -> (all: bool)
        ensures
            all == forall|i: int| 0 <= i < finish.len() ==> finish[i],
    {
        let mut i: usize = 0;
        while i < finish.len()
            invariant
                i <= finish.len(),
                forall|k: int| 0 <= k < i ==> finish[k],
            decreases finish.len() - i,
        {
            if !finish[i] {
                return false;
            }
            i += 1;
        }
        true
    }

    /// Runs the safety check and returns the order in which it let the
    /// active threads finish, or `None` where no order lets them all finish.
    ///
    /// Each step scans the rows in ascending order and commits the first
    /// one that has not finished and whose need is covered.
    pub fn safe_sequence(&self) -> (found: Option<Vec<usize>>)
        ensures
            match found {
                Some(order) => self@.safe_ordering(row_numbers(order@)) && self@.lowest_first(
                    row_numbers(order@),
                ),
                None => !self@.safe(),
            },
            self@.wf(),
    {
        proof {
            use_type_invariant(self);
        }
        let threads = self.active.len();
        let resources = self.available.len();
        let mut finish: Vec<bool> = Vec::new();
        let mut t: usize = 0;
        while t < threads
            invariant
                t <= threads,
                threads == self.active.len(),
                finish.len() == t,
                forall|i: int| 0 <= i < t ==> finish[i] == !self.active[i],
            decreases threads - t,
        {
            finish.push(!self.active[t]);
            t += 1;
        }
        let mut work: Vec<u128> = Vec::new();
        let mut r: usize = 0;
        while r < resources
            invariant
                r <= resources,
                resources == self.available.len(),
                work.len() == r,
                forall|j: int| 0 <= j < r ==> work[j] == self.available[j],
            decreases resources - r,
        {
            work.push(self.available[r]);
            r += 1;
        }
        let mut order: Vec<usize> = Vec::new();
        let ghost mut done: Seq<int> = Seq::empty();
        proof {
            assert(done =~= row_numbers(order@));
        }
        loop
            invariant
                self@.wf(),
                threads == self.active.len(),
                finish.len() == threads,
                done == row_numbers(order@),
                self@.schedule(done),
                self@.lowest_first(done),
                forall|i: int|
                    0 <= i < threads ==> (#[trigger] finish[i] <==> (!self.active[i]
                        || done.contains(i))),
                self.tracks(work@, done),
            decreases unfinished(finish@),
        {
            let mut pick: Option<usize> = None;
            let mut i: usize = 0;
            while i < threads
                invariant_except_break
                    pick.is_none(),
                invariant
                    i <= threads,
                    threads == self.active.len(),
                    finish.len() == threads,
                    self.tracks(work@, done),
                    forall|k: int| 0 <= k < i ==> #[trigger] finish[k] || !self@.can_run(done, k),
                ensures
                    match pick {
                        Some(p) => p == i && p < threads && !finish[p as int] && self@.can_run(
                            done,
                            p as int,
                        ),
                        None => i == threads,
                    },
                decreases threads - i,
            {
                if !finish[i] && self.fits(i, &work, Ghost(done)) {
                    pick = Some(i);
                    break;
                }
                i += 1;
            }
            match pick {
                None => {
                    if Self::all_finished(&finish) {
                        proof {
                            assert forall|u: int|
                                0 <= u < self@.threads() && self@.active[u] implies done.contains(
                                u,
                            ) by {
                                assert(finish[u]);
                            }
                        }
                        return Some(order);
                    } else {
                        proof {
                            let u = choose|u: int| 0 <= u < finish.len() && !finish[u];
                            assert(!finish[u]);
                            assert(self.active[u] && !done.contains(u));
                            if self@.safe() {
                                let sigma = choose|sigma: Seq<int>| self@.safe_ordering(sigma);
                                let next = lemma_safe_state_never_sticks(self@, done, sigma);
                                assert(!finish[next]);
                                assert(false);
                            }
                        }
                        return None;
                    }
                },
                Some(p) => {
                    proof {
                        lemma_unfinished_drops(finish@, p as int);
                        assert forall|k: int|
                            0 <= k < p && self@.active[k] && !done.contains(
                                k,
                            ) implies !#[trigger] self@.can_run(done, k) by {
                            assert(!finish[k]);
                        }
                        lemma_schedule_push(self@, done, p as int);
                    }
                    finish.set(p, true);
                    self.release(p, &mut work, Ghost(done));
                    order.push(p);
                    proof {
                        let before = done;
                        done = before.push(p as int);
                        assert(done =~= row_numbers(order@));
                        assert forall|i: int| 0 <= i < threads implies (#[trigger] finish[i] <==> (
                        !self.active[i] || done.contains(i))) by {
                            if before.contains(i) {
                                let q = choose|q: int| 0 <= q < before.len() && before[q] == i;
                                assert(done[q] == i);
                            }
                            if i == p {
                                assert(done[done.len() - 1] == i);
                            }
                            if done.contains(i) && i != p {
                                let q = choose|q: int| 0 <= q < done.len() && done[q] == i;
                                assert(before[q] == i);
                            }
                        }
                    }
                },
            }
        }
    }

    /// Whether the state is safe.
    pub fn is_safe(&self) -> (safe: bool)
        ensures
            safe == self@.safe(),
            self@.wf(),
    {
        match self.safe_sequence() {
            Some(order) => {
                assert(self@.safe_ordering(row_numbers(order@)));
                true
            },
            None => false,
        }
    }
}

/// What the detector reads of one resource.
#[derive(Debug)]
pub struct ResourceUse {
    /// Free units.
    pub available: u128,
    /// The threads that wait for a unit, one entry for each wait.
    pub waiting: Vec<usize>,
    /// The threads that hold units, one entry for each unit.
    pub holding: Vec<usize>,
}

/// The mathematical content of a [`ResourceUse`].
pub struct ResourceUseView {
    pub available: nat,
    pub waiting: Seq<usize>,
    pub holding: Seq<usize>,
}

impl View for ResourceUse {
    type V = ResourceUseView;

    open spec fn view(&self) -> ResourceUseView {
        ResourceUseView {
            available: self.available as nat,
            waiting: self.waiting@,
            holding: self.holding@,
        }
    }
}

/// The view of what the detector reads of one resource slot.
pub open spec fn use_view(usage: Option<ResourceUse>) -> Option<ResourceUseView> {
    match usage {
        Some(usage) => Some(usage@),
        None => None,
    }
}

/// The views of what the detector reads of a list of resource slots.
pub open spec fn use_views(uses: Seq<Option<ResourceUse>>) -> Seq<Option<ResourceUseView>> {
    uses.map_values(|usage: Option<ResourceUse>| use_view(usage))
}

/// A thread slot takes part when it holds a thread other than
/// the excluded one.
pub open spec fn takes_part(task: Option<usize>) -> bool {
    task.is_some() && task.unwrap() != EXCLUDED_TID
}

/// Every slot of the roster holds a thread.
pub open spec fn all_present(tasks: Seq<Option<usize>>) -> bool {
    forall|i: int| 0 <= i < tasks.len() ==> (#[trigger] tasks[i]).is_some()
}

/// Free units of the resource in a slot.  An empty slot offers none.
pub open spec fn free(usage: Option<ResourceUseView>) -> nat {
    match usage {
        Some(usage) => usage.available,
        None => 0,
    }
}

/// Units of the resource in a slot that the thread of a slot holds.
/// Nothing is held of an empty slot, or by a thread that takes no part.
pub open spec fn granted(task: Option<usize>, usage: Option<ResourceUseView>) -> nat {
    match usage {
        Some(usage) if takes_part(task) => occurrences(usage.holding, task.unwrap()),
        _ => 0,
    }
}

/// Units of the resource in a slot that the thread of a slot asks for: one
/// for each time it waits, and one more where the request under
/// examination is its own request for this resource.  Nothing is asked of
/// an empty slot, or by a thread that takes no part.
pub open spec fn asked(
    task: Option<usize>,
    usage: Option<ResourceUseView>,
    requested: bool,
) -> nat {
    match usage {
        Some(usage) if takes_part(task) => {
            occurrences(usage.waiting, task.unwrap()) + if requested {
                1nat
            } else {
                0nat
            }
        },
        _ => 0,
    }
}

/// The demand that arises when thread `current` asks for one unit of
/// resource `id`: row `i` stands for `tasks[i]`, column `j` for `uses[j]`.
pub open spec fn demand_of(
    tasks: Seq<Option<usize>>,
    uses: Seq<Option<ResourceUseView>>,
    current: usize,
    id: usize,
) -> DemandView {
    DemandView {
        available: Seq::new(uses.len(), |j: int| free(uses[j])),
        allocation: Seq::new(
            tasks.len(),
            |i: int| Seq::new(uses.len(), |j: int| granted(tasks[i], uses[j])),
        ),
        need: Seq::new(
            tasks.len(),
            |i: int|
                Seq::new(
                    uses.len(),
                    |j: int| asked(tasks[i], uses[j], tasks[i] == Some(current) && j == id),
                ),
        ),
        active: Seq::new(tasks.len(), |i: int| takes_part(tasks[i])),
    }
}

impl Demand {
    /// Builds the demand for the request of thread `current` for one unit
    /// of resource `id`.  Fails where a slot of the roster is empty.
    pub fn gather(
        tasks: &Vec<Option<usize>>,
        uses: &Vec<Option<ResourceUse>>,
        current: usize,
        id: usize,
    ) -> (gathered: Option<Demand>)
        ensures
            gathered.is_some() == all_present(tasks@),
            gathered matches Some(demand) ==> demand@ == demand_of(
                tasks@,
                use_views(uses@),
                current,
                id,
            ),
    {
        let threads = tasks.len();
        let resources = uses.len();
        let ghost views = use_views(uses@);
        let ghost goal = demand_of(tasks@, views, current, id);
        let mut available: Vec<u128> = Vec::new();
        let mut j: usize = 0;
        while j < resources
            invariant
                j <= resources,
                resources == uses.len(),
                views == use_views(uses@),
                available.len() == j,
                forall|c: int| 0 <= c < j ==> #[trigger] available[c] as nat == free(views[c]),
            decreases resources - j,
        {
            available.push(
                match &uses[j] {
                    Some(usage) => usage.available,
                    None => 0,
                },
            );
            j += 1;
        }
        let mut allocation: Vec<Vec<u128>> = Vec::new();
        let mut need: Vec<Vec<u128>> = Vec::new();
        let mut active: Vec<bool> = Vec::new();
        let mut i: usize = 0;
        while i < threads
            invariant
                i <= threads,
                threads == tasks.len(),
                resources == uses.len(),
                views == use_views(uses@),
                allocation.len() == i,
                need.len() == i,
                active.len() == i,
                forall|r: int| 0 <= r < i ==> (#[trigger] tasks[r]).is_some(),
                forall|r: int| 0 <= r < i ==> #[trigger] active[r] == takes_part(tasks[r]),
                forall|r: int| 0 <= r < i ==> (#[trigger] allocation[r]).len() == resources,
                forall|r: int| 0 <= r < i ==> (#[trigger] need[r]).len() == resources,
                forall|r: int, c: int|
                    0 <= r < i && 0 <= c < resources ==> #[trigger] allocation[r][c] as nat
                        == granted(tasks[r], views[c]),
                forall|r: int, c: int|
                    0 <= r < i && 0 <= c < resources ==> #[trigger] need[r][c] as nat == asked(
                        tasks[r],
                        views[c],
                        tasks[r] == Some(current) && c == id,
                    ),
            decreases threads - i,
        {
            let tid = match tasks[i] {
                Some(tid) => tid,
                None => {
                    return None;
                },
            };
            let takes = tid != EXCLUDED_TID;
            let mut held: Vec<u128> = Vec::new();
            let mut wanted: Vec<u128> = Vec::new();
            let mut j: usize = 0;
            while j < resources
                invariant
                    j <= resources,
                    i < threads,
                    threads == tasks.len(),
                    resources == uses.len(),
                    views == use_views(uses@),
                    tasks[i as int] == Some(tid),
                    takes == takes_part(tasks[i as int]),
                    held.len() == j,
                    wanted.len() == j,
                    forall|c: int|
                        0 <= c < j ==> #[trigger] held[c] as nat == granted(
                            tasks[i as int],
                            views[c],
                        ),
                    forall|c: int|
                        0 <= c < j ==> #[trigger] wanted[c] as nat == asked(
                            tasks[i as int],
                            views[c],
                            tasks[i as int] == Some(current) && c == id,
                        ),
                decreases resources - j,
            {
                match &uses[j] {
                    Some(usage) if takes => {
                        proof {
                            lemma_occurrences_bounded(usage.waiting@, tid);
                        }
                        let waits = count_of(&usage.waiting, tid) as u128;
                        let requested = tid == current && j == id;
                        wanted.push(
                            if requested {
                                waits + 1
                            } else {
                                waits
                            },
                        );
                        held.push(count_of(&usage.holding, tid) as u128);
                    },
                    _ => {
                        wanted.push(0);
                        held.push(0);
                    },
                }
                j += 1;
            }
            allocation.push(held);
            need.push(wanted);
            active.push(takes);
            i += 1;
        }
        let demand = Demand { available, allocation, need, active };
        proof {
            assert(demand@.available =~= goal.available);
            assert(demand@.active =~= goal.active);
            assert(demand@.allocation =~~= goal.allocation) by {
                assert forall|r: int| 0 <= r < threads implies #[trigger] demand@.allocation[r]
                    =~= goal.allocation[r] by {
                    assert forall|c: int| 0 <= c < resources implies demand@.allocation[r][c]
                        == goal.allocation[r][c] by {
                        assert(demand.allocation[r][c] as nat == granted(tasks[r], views[c]));
                    }
                }
            }
            assert(demand@.need =~~= goal.need) by {
                assert forall|r: int| 0 <= r < threads implies #[trigger] demand@.need[r]
                    =~= goal.need[r] by {
                    assert forall|c: int| 0 <= c < resources implies demand@.need[r][c]
                        == goal.need[r][c] by {
                        assert(demand.need[r][c] as nat == asked(
                            tasks[r],
                            views[c],
                            tasks[r] == Some(current) && c == id,
                        ));
                    }
                }
            }
        }
        Some(demand)
    }
}
/// Letting an unfinished row finish leaves one row fewer to finish.
proof fn lemma_unfinished_drops(finish: Seq<bool>, i: int)
    requires
        0 <= i < finish.len(),
        !finish[i],
    ensures
        unfinished(finish.update(i, true)) == unfinished(finish) - 1,
    decreases finish.len(),
{
    let after = finish.update(i, true);
    if i == finish.len() - 1 {
        assert(after.drop_last() =~= finish.drop_last());
    } else {
        lemma_unfinished_drops(finish.drop_last(), i);
        assert(after.drop_last() =~= finish.drop_last().update(i, true));
    }
}

} // verus!
