//! The synchronisation state of one process: the tables of its mutexes,
//! semaphores and condition variables, its roster of threads and the switch
//! of the deadlock detector.

use crate::detector::demand::{
    all_present, demand_of, takes_part, use_view, use_views, Demand, ResourceUse, ResourceUseView,
};
use crate::detector::model::DemandView;
use crate::sync::condvar::Condvar;
use crate::sync::mutex::{AnyMutex, Mutex, MutexView};
use crate::sync::queue::occurrences;
use crate::sync::semaphore::{Semaphore, SemaphoreView};
use vstd::prelude::*;

verus! {

/// The synchronisation state of one process.
///
/// A primitive is known by its index in its table.  A slot that holds
/// nothing may be given to the next primitive that is created.
pub struct Process {
    pub mutex_list: Vec<Option<AnyMutex>>,
    pub semaphore_list: Vec<Option<Semaphore>>,
    pub condvar_list: Vec<Option<Condvar>>,
    /// The threads of the process by slot, each by its identifier.
    pub tasks: Vec<Option<usize>>,
    /// Whether requests that may put a thread to sleep are checked for
    /// deadlock first.
    pub detect_enable: bool,
}

/// The mathematical content of a [`Process`].
pub struct ProcessView {
    pub mutexes: Seq<Option<MutexView>>,
    pub semaphores: Seq<Option<SemaphoreView>>,
    pub condvars: Seq<Option<Seq<usize>>>,
    pub tasks: Seq<Option<usize>>,
    pub detect_enable: bool,
}

/// The view of what a slot holds.
pub open spec fn slot_view<T: View>(slot: Option<T>) -> Option<T::V> {
    match slot {
        Some(item) => Some(item@),
        None => None,
    }
}

/// The views of what the slots of a table hold.
pub open spec fn table_view<T: View>(table: Seq<Option<T>>) -> Seq<Option<T::V>> {
    table.map_values(|slot: Option<T>| slot_view(slot))
}

impl View for Process {
    type V = ProcessView;

    open spec fn view(&self) -> ProcessView {
        ProcessView {
            mutexes: table_view(self.mutex_list@),
            semaphores: table_view(self.semaphore_list@),
            condvars: table_view(self.condvar_list@),
            tasks: self.tasks@,
            detect_enable: self.detect_enable,
        }
    }
}

/// `id` is the slot that the next item goes to: the lowest empty slot, or
/// the end of the table where every slot is taken.
pub open spec fn is_first_free<V>(table: Seq<Option<V>>, id: int) -> bool {
    &&& 0 <= id <= table.len()
    &&& id < table.len() ==> table[id].is_none()
    &&& forall|k: int| 0 <= k < id ==> (#[trigger] table[k]).is_some()
}

/// The slot that the next item goes to.
pub open spec fn first_free<V>(table: Seq<Option<V>>) -> int {
    choose|id: int| is_first_free(table, id)
}

/// The table with `item` in the slot that `first_free` names.
pub open spec fn placed<V>(table: Seq<Option<V>>, item: V) -> Seq<Option<V>> {
    let id = first_free(table);
    if id < table.len() {
        table.update(id, Some(item))
    } else {
        table.push(Some(item))
    }
}

/// Exactly one slot is the first free one.
pub proof fn lemma_first_free_unique<V>(table: Seq<Option<V>>, id: int)
    requires
        is_first_free(table, id),
    ensures
        first_free(table) == id,
{
    let other = first_free(table);
    assert(is_first_free(table, other));
    if other < id {
        assert(table[other].is_some());
    }
    if id < other {
        assert(table[id].is_some());
    }
}

/// Finds the slot that the next item goes to.
fn find_free<T: View>(table: &Vec<Option<T>>) -> (id: usize)
    ensures
        id == first_free(table_view(table@)),
        is_first_free(table_view(table@), id as int),
{
    let mut id: usize = 0;
    while id < table.len()
        invariant
            id <= table.len(),
            forall|k: int| 0 <= k < id ==> (#[trigger] table_view(table@)[k]).is_some(),
        decreases table.len() - id,
    {
        if table[id].is_none() {
            proof {
                lemma_first_free_unique(table_view(table@), id as int);
            }
            return id;
        }
        id += 1;
    }
    proof {
        lemma_first_free_unique(table_view(table@), id as int);
    }
    id
}

/// Puts `item` into the slot that the next item goes to and returns the
/// slot's number.
fn place<T: View>(table: &mut Vec<Option<T>>, item: T) -> (id: usize)
    ensures
        id == first_free(table_view(old(table)@)),
        is_first_free(table_view(old(table)@), id as int),
        table_view(final(table)@) == placed(table_view(old(table)@), item@),
{
    let id = find_free(table);
    if id < table.len() {
        table.set(id, Some(item));
    } else {
        table.push(Some(item));
    }
    proof {
        assert(table_view(table@) =~= placed(table_view(old(table)@), item@));
    }
    id
}

impl ProcessView {
    /// Slot `id` of the mutex table exists and holds a mutex.
    pub open spec fn has_mutex(self, id: usize) -> bool {
        id < self.mutexes.len() && self.mutexes[id as int].is_some()
    }

    /// Slot `id` of the semaphore table exists and holds a semaphore.
    pub open spec fn has_semaphore(self, id: usize) -> bool {
        id < self.semaphores.len() && self.semaphores[id as int].is_some()
    }

    /// Slot `id` of the table of condition variables exists and holds one.
    pub open spec fn has_condvar(self, id: usize) -> bool {
        id < self.condvars.len() && self.condvars[id as int].is_some()
    }

    /// The mutex in slot `id`.
    pub open spec fn mutex(self, id: usize) -> MutexView
        recommends
            self.has_mutex(id),
    {
        self.mutexes[id as int].unwrap()
    }

    /// The semaphore in slot `id`.
    pub open spec fn semaphore(self, id: usize) -> SemaphoreView
        recommends
            self.has_semaphore(id),
    {
        self.semaphores[id as int].unwrap()
    }

    /// The waiters of the condition variable in slot `id`.
    pub open spec fn condvar(self, id: usize) -> Seq<usize>
        recommends
            self.has_condvar(id),
    {
        self.condvars[id as int].unwrap()
    }

    /// This state with the mutex in slot `id` replaced.
    pub open spec fn with_mutex(self, id: usize, mutex: MutexView) -> ProcessView {
        ProcessView { mutexes: self.mutexes.update(id as int, Some(mutex)), ..self }
    }

    /// This state with the semaphore in slot `id` replaced.
    pub open spec fn with_semaphore(self, id: usize, semaphore: SemaphoreView) -> ProcessView {
        ProcessView { semaphores: self.semaphores.update(id as int, Some(semaphore)), ..self }
    }

    /// This state with the condition variable in slot `id` replaced.
    pub open spec fn with_condvar(self, id: usize, waiters: Seq<usize>) -> ProcessView {
        ProcessView { condvars: self.condvars.update(id as int, Some(waiters)), ..self }
    }

    /// What the detector reads of a mutex: a free mutex offers one unit,
    /// and a held one is one unit in the hands of its owner.
    pub open spec fn mutex_use(mutex: MutexView) -> ResourceUseView {
        ResourceUseView {
            available: if mutex.owner.is_none() {
                1
            } else {
                0
            },
            waiting: mutex.wait_queue,
            holding: match mutex.owner {
                Some(owner) => seq![owner],
                None => Seq::empty(),
            },
        }
    }

    /// What the detector reads of a semaphore: a positive count is the
    /// number of free units, and every entry of the allocation queue is one
    /// unit in the hands of the task named.
    pub open spec fn semaphore_use(semaphore: SemaphoreView) -> ResourceUseView {
        ResourceUseView {
            available: if semaphore.count > 0 {
                semaphore.count as nat
            } else {
                0
            },
            waiting: semaphore.wait_queue,
            holding: semaphore.alloc_queue,
        }
    }

    /// What the detector reads of the mutexes, slot by slot.
    pub open spec fn mutex_uses(self) -> Seq<Option<ResourceUseView>> {
        Seq::new(
            self.mutexes.len(),
            |id: int|
                match self.mutexes[id] {
                    Some(mutex) => Some(Self::mutex_use(mutex)),
                    None => None,
                },
        )
    }

    /// What the detector reads of the semaphores, slot by slot.
    pub open spec fn semaphore_uses(self) -> Seq<Option<ResourceUseView>> {
        Seq::new(
            self.semaphores.len(),
            |id: int|
                match self.semaphores[id] {
                    Some(semaphore) => Some(Self::semaphore_use(semaphore)),
                    None => None,
                },
        )
    }

    /// The demand on the mutexes when thread `current` asks for mutex `id`.
    pub open spec fn mutex_demand(self, current: usize, id: usize) -> DemandView {
        demand_of(self.tasks, self.mutex_uses(), current, id)
    }

    /// The demand on the semaphores when thread `current` asks for a unit
    /// of semaphore `id`.
    pub open spec fn semaphore_demand(self, current: usize, id: usize) -> DemandView {
        demand_of(self.tasks, self.semaphore_uses(), current, id)
    }
}

/// The demand on the mutexes, entry by entry, for a thread that takes part
/// and a slot that holds a mutex: a free mutex is one free unit; a held
/// mutex is one unit in the hands of its owner; a thread needs a mutex once
/// for each time it stands on the wait list, and once more where it is the
/// thread that asks and this is the mutex asked for.
pub proof fn lemma_mutex_demand_entries(
    process: ProcessView,
    current: usize,
    id: usize,
    row: int,
    column: int,
)
    requires
        0 <= row < process.tasks.len(),
        0 <= column < process.mutexes.len(),
        takes_part(process.tasks[row]),
        process.mutexes[column].is_some(),
    ensures
        ({
            let demand = process.mutex_demand(current, id);
            let tid = process.tasks[row].unwrap();
            let mutex = process.mutexes[column].unwrap();
            &&& demand.active[row]
            &&& demand.available[column] == if mutex.owner.is_none() {
                1nat
            } else {
                0nat
            }
            &&& demand.allocation[row][column] == if mutex.owner == Some(tid) {
                1nat
            } else {
                0nat
            }
            &&& demand.need[row][column] == occurrences(mutex.wait_queue, tid) + if tid == current
                && column == id {
                1nat
            } else {
                0nat
            }
        }),
{
    let tid = process.tasks[row].unwrap();
    let mutex = process.mutexes[column].unwrap();
    match mutex.owner {
        Some(owner) => {
            assert(seq![owner].drop_last() =~= Seq::<usize>::empty());
            reveal_with_fuel(occurrences, 2);
        },
        None => {},
    }
}

/// The demand on the semaphores, entry by entry, for a thread that takes
/// part and a slot that holds a semaphore: a positive count is the number
/// of free units; a thread holds a unit for each of its entries in the
/// allocation queue; it needs a unit for each of its entries in the wait
/// queue, and one more where it is the thread that asks and this is the
/// semaphore asked for.
pub proof fn lemma_semaphore_demand_entries(
    process: ProcessView,
    current: usize,
    id: usize,
    row: int,
    column: int,
)
    requires
        0 <= row < process.tasks.len(),
        0 <= column < process.semaphores.len(),
        takes_part(process.tasks[row]),
        process.semaphores[column].is_some(),
    ensures
        ({
            let demand = process.semaphore_demand(current, id);
            let tid = process.tasks[row].unwrap();
            let semaphore = process.semaphores[column].unwrap();
            &&& demand.active[row]
            &&& demand.available[column] == if semaphore.count > 0 {
                semaphore.count
            } else {
                0
            }
            &&& demand.allocation[row][column] == occurrences(semaphore.alloc_queue, tid)
            &&& demand.need[row][column] == occurrences(semaphore.wait_queue, tid) + if tid
                == current && column == id {
                1nat
            } else {
                0nat
            }
        }),
{
}

/// A thread slot that takes no part, and a slot that holds no primitive,
/// put nothing but zeros into the demand.
pub proof fn lemma_absent_entries_are_zero(
    process: ProcessView,
    current: usize,
    id: usize,
    row: int,
    column: int,
)
    requires
        0 <= row < process.tasks.len(),
    ensures
        0 <= column < process.mutexes.len() && (!takes_part(process.tasks[row])
            || process.mutexes[column].is_none()) ==> {
            let demand = process.mutex_demand(current, id);
            &&& demand.allocation[row][column] == 0
            &&& demand.need[row][column] == 0
        },
        0 <= column < process.semaphores.len() && (!takes_part(process.tasks[row])
            || process.semaphores[column].is_none()) ==> {
            let demand = process.semaphore_demand(current, id);
            &&& demand.allocation[row][column] == 0
            &&& demand.need[row][column] == 0
        },
        0 <= column < process.mutexes.len() && process.mutexes[column].is_none()
            ==> process.mutex_demand(current, id).available[column] == 0,
        0 <= column < process.semaphores.len() && process.semaphores[column].is_none()
            ==> process.semaphore_demand(current, id).available[column] == 0,
        process.mutex_demand(current, id).active[row] == takes_part(process.tasks[row]),
        process.semaphore_demand(current, id).active[row] == takes_part(process.tasks[row]),
{
}

impl Process {
    /// A process without primitives or threads, with detection off.
    pub fn new() -> (process: Self)
        ensures
            process@.mutexes.len() == 0,
            process@.semaphores.len() == 0,
            process@.condvars.len() == 0,
            process@.tasks.len() == 0,
            !process@.detect_enable,
    {
        Process {
            mutex_list: Vec::new(),
            semaphore_list: Vec::new(),
            condvar_list: Vec::new(),
            tasks: Vec::new(),
            detect_enable: false,
        }
    }

    /// The mutex in slot `id`, if the slot exists and holds one.
    pub fn mutex(&self, id: usize) -> (found: Option<&AnyMutex>)
        ensures
            found.is_some() == self@.has_mutex(id),
            found matches Some(mutex) ==> mutex@ == self@.mutex(id) && mutex@.wf(),
    {
        if id < self.mutex_list.len() {
            match &self.mutex_list[id] {
                Some(mutex) => {
                    let _ = mutex.is_locked();
                    Some(mutex)
                },
                None => None,
            }
        } else {
            None
        }
    }

    /// The semaphore in slot `id`, if the slot exists and holds one.
    pub fn semaphore(&self, id: usize) -> (found: Option<&Semaphore>)
        ensures
            found.is_some() == self@.has_semaphore(id),
            found matches Some(semaphore) ==> semaphore@ == self@.semaphore(id) && semaphore@.wf(),
    {
        if id < self.semaphore_list.len() {
            match &self.semaphore_list[id] {
                Some(semaphore) => {
                    let _ = semaphore.count();
                    Some(semaphore)
                },
                None => None,
            }
        } else {
            None
        }
    }

    /// The condition variable in slot `id`, if the slot exists and holds
    /// one.
    pub fn condvar(&self, id: usize) -> (found: Option<&Condvar>)
        ensures
            found.is_some() == self@.has_condvar(id),
            found matches Some(condvar) ==> condvar@ == self@.condvar(id),
    {
        if id < self.condvar_list.len() {
            self.condvar_list[id].as_ref()
        } else {
            None
        }
    }

    /// Makes a free mutex of the variant asked for and returns its slot.
    pub fn create_mutex(&mut self, blocking: bool) -> (id: usize)
        ensures
            id == first_free(old(self)@.mutexes),
            is_first_free(old(self)@.mutexes, id as int),
            final(self)@ == (ProcessView {
                mutexes: placed(old(self)@.mutexes, MutexView::fresh(blocking)),
                ..old(self)@
            }),
            final(self)@.has_mutex(id),
    {
        let id = place(&mut self.mutex_list, AnyMutex::new(blocking));
        id
    }

    /// Makes a semaphore with `res_count` free units and returns its slot.
    pub fn create_semaphore(&mut self, res_count: usize) -> (id: usize)
        requires
            res_count <= isize::MAX,
        ensures
            id == first_free(old(self)@.semaphores),
            is_first_free(old(self)@.semaphores, id as int),
            final(self)@ == (ProcessView {
                semaphores: placed(old(self)@.semaphores, SemaphoreView::fresh(res_count as int)),
                ..old(self)@
            }),
            final(self)@.has_semaphore(id),
    {
        let id = place(&mut self.semaphore_list, Semaphore::new(res_count));
        id
    }

    /// Makes a condition variable without waiters and returns its slot.
    pub fn create_condvar(&mut self) -> (id: usize)
        ensures
            id == first_free(old(self)@.condvars),
            is_first_free(old(self)@.condvars, id as int),
            final(self)@ == (ProcessView {
                condvars: placed(old(self)@.condvars, Seq::<usize>::empty()),
                ..old(self)@
            }),
            final(self)@.has_condvar(id),
    {
        let id = place(&mut self.condvar_list, Condvar::new());
        id
    }

    /// Reads off every mutex what the detector needs.
    fn mutex_uses(&self) -> (uses: Vec<Option<ResourceUse>>)
        ensures
            use_views(uses@) == self@.mutex_uses(),
    {
        let mut uses: Vec<Option<ResourceUse>> = Vec::new();
        let mut id: usize = 0;
        while id < self.mutex_list.len()
            invariant
                id <= self.mutex_list.len(),
                uses.len() == id,
                forall|k: int|
                    0 <= k < id ==> use_view(#[trigger] uses[k]) == self@.mutex_uses()[k],
            decreases self.mutex_list.len() - id,
        {
            let usage = match &self.mutex_list[id] {
                Some(mutex) => {
                    let mut holding: Vec<usize> = Vec::new();
                    let available: u128 = match mutex.get_owner() {
                        Some(owner) => {
                            holding.push(owner);
                            0
                        },
                        None => 1,
                    };
                    proof {
                        assert(holding@ =~= ProcessView::mutex_use(mutex@).holding);
                    }
                    Some(ResourceUse { available, waiting: mutex.get_wait_queue(), holding })
                },
                None => None,
            };
            uses.push(usage);
            id += 1;
        }
        proof {
            assert(use_views(uses@) =~= self@.mutex_uses());
        }
        uses
    }

    /// Reads off every semaphore what the detector needs.
    fn semaphore_uses(&self) -> (uses: Vec<Option<ResourceUse>>)
        ensures
            use_views(uses@) == self@.semaphore_uses(),
    {
        let mut uses: Vec<Option<ResourceUse>> = Vec::new();
        let mut id: usize = 0;
        while id < self.semaphore_list.len()
            invariant
                id <= self.semaphore_list.len(),
                uses.len() == id,
                forall|k: int|
                    0 <= k < id ==> use_view(#[trigger] uses[k]) == self@.semaphore_uses()[k],
            decreases self.semaphore_list.len() - id,
        {
            let usage = match &self.semaphore_list[id] {
                Some(semaphore) => {
                    let count = semaphore.count();
                    Some(
                        ResourceUse {
                            available: if count > 0 {
                                count as u128
                            } else {
                                0
                            },
                            waiting: semaphore.get_wait_queue(),
                            holding: semaphore.get_alloc_queue(),
                        },
                    )
                },
                None => None,
            };
            uses.push(usage);
            id += 1;
        }
        proof {
            assert(use_views(uses@) =~= self@.semaphore_uses());
        }
        uses
    }

    /// The demand on the mutexes when thread `current` asks for mutex `id`.
    /// Fails where a slot of the roster is empty.
    pub fn mutex_demand(&self, current: usize, id: usize) -> (gathered: Option<Demand>)
        ensures
            gathered.is_some() == all_present(self@.tasks),
            gathered matches Some(demand) ==> demand@ == self@.mutex_demand(
                current,
                id,
            ),
    {
        let uses = self.mutex_uses();
        Demand::gather(&self.tasks, &uses, current, id)
    }

    /// The demand on the semaphores when thread `current` asks for a unit
    /// of semaphore `id`.  Fails where a slot of the roster is empty.
    pub fn semaphore_demand(&self, current: usize, id: usize) -> (gathered: Option<Demand>)
        ensures
            gathered.is_some() == all_present(self@.tasks),
            gathered matches Some(demand) ==> demand@ == self@.semaphore_demand(
                current,
                id,
            ),
    {
        let uses = self.semaphore_uses();
        Demand::gather(&self.tasks, &uses, current, id)
    }

    /// Switches the deadlock detector on or off.
    pub fn set_detect(&mut self, enabled: bool)
        ensures
            final(self)@ == (ProcessView { detect_enable: enabled, ..old(self)@ }),
    {
        self.detect_enable = enabled;
    }
}

} // verus!
