use kernel_sync::detector::{Demand, ResourceUse, EXCLUDED_TID};

fn demand(available: Vec<u128>, allocation: Vec<Vec<u128>>, need: Vec<Vec<u128>>) -> Demand {
    let active = vec![true; allocation.len()];
    Demand::new(available, allocation, need, active).unwrap()
}

fn usage(available: u128, waiting: Vec<usize>, holding: Vec<usize>) -> Option<ResourceUse> {
    Some(ResourceUse { available, waiting, holding })
}

#[test]
fn textbook_state_is_safe_in_lowest_first_order() {
    let d = demand(
        vec![3, 3, 2],
        vec![vec![0, 1, 0], vec![2, 0, 0], vec![3, 0, 2], vec![2, 1, 1], vec![0, 0, 2]],
        vec![vec![7, 4, 3], vec![1, 2, 2], vec![6, 0, 0], vec![0, 1, 1], vec![4, 3, 1]],
    );
    assert_eq!(d.safe_sequence(), Some(vec![1, 3, 0, 2, 4]));
    assert!(d.is_safe());
}

#[test]
fn textbook_state_turns_unsafe_with_less_on_hand() {
    let d = demand(
        vec![0, 1, 1],
        vec![vec![0, 1, 0], vec![2, 0, 0], vec![3, 0, 2], vec![2, 1, 1], vec![0, 0, 2]],
        vec![vec![7, 4, 3], vec![1, 2, 2], vec![6, 0, 0], vec![0, 1, 1], vec![4, 3, 1]],
    );
    // Row 3 runs and leaves [2, 2, 2]; row 1 runs and leaves [4, 2, 2];
    // rows 0, 2 and 4 all need more than that.
    assert_eq!(d.safe_sequence(), None);
    assert!(!d.is_safe());
}

#[test]
fn search_restarts_from_the_lowest_row() {
    // Row 0 can run only after row 2, row 1 only after row 0.
    let d = demand(
        vec![0],
        vec![vec![1], vec![1], vec![2]],
        vec![vec![2], vec![3], vec![0]],
    );
    assert_eq!(d.safe_sequence(), Some(vec![2, 0, 1]));
}

#[test]
fn empty_roster_is_safe() {
    let d = demand(vec![0, 0], vec![], vec![]);
    assert_eq!(d.safe_sequence(), Some(vec![]));
    assert!(d.is_safe());
}

#[test]
fn empty_resource_list_is_safe() {
    let d = demand(vec![], vec![vec![], vec![], vec![]], vec![vec![], vec![], vec![]]);
    assert_eq!(d.safe_sequence(), Some(vec![0, 1, 2]));
    assert!(d.is_safe());
}

#[test]
fn lone_thread_that_needs_what_it_holds_is_stuck() {
    let d = demand(vec![0], vec![vec![1]], vec![vec![1]]);
    assert_eq!(d.safe_sequence(), None);
}

#[test]
fn inactive_rows_are_left_out() {
    let d = Demand::new(vec![0], vec![vec![5], vec![0]], vec![vec![9], vec![1]], vec![false, true])
        .unwrap();
    // Row 0 cannot run, but it does not count; it gives nothing back either.
    assert_eq!(d.safe_sequence(), None);

    let d = Demand::new(vec![1], vec![vec![5], vec![0]], vec![vec![9], vec![1]], vec![false, true])
        .unwrap();
    assert_eq!(d.safe_sequence(), Some(vec![1]));
}

#[test]
fn huge_counts_do_not_wrap() {
    let d = demand(
        vec![u128::MAX - 1],
        vec![vec![5], vec![7]],
        vec![vec![0], vec![u128::MAX]],
    );
    assert_eq!(d.safe_sequence(), Some(vec![0, 1]));

    let d = demand(vec![u128::MAX - 1], vec![vec![0], vec![7]], vec![vec![0], vec![u128::MAX]]);
    assert_eq!(d.safe_sequence(), None);
}

#[test]
fn new_refuses_matrices_of_the_wrong_shape() {
    let ok = Demand::new(vec![1, 2], vec![vec![0, 0]], vec![vec![0, 0]], vec![true]);
    assert!(ok.is_some());
    let d = ok.unwrap();
    assert_eq!(*d.available(), vec![1, 2]);
    assert_eq!(*d.allocation(), vec![vec![0, 0]]);
    assert_eq!(*d.need(), vec![vec![0, 0]]);
    assert_eq!(*d.active(), vec![true]);

    assert!(Demand::new(vec![1, 2], vec![], vec![vec![0, 0]], vec![true]).is_none());
    assert!(Demand::new(vec![1, 2], vec![vec![0, 0]], vec![], vec![true]).is_none());
    assert!(Demand::new(vec![1, 2], vec![vec![0]], vec![vec![0, 0]], vec![true]).is_none());
    assert!(Demand::new(vec![1, 2], vec![vec![0, 0]], vec![vec![0, 0, 0]], vec![true]).is_none());
    assert!(Demand::new(vec![1, 2], vec![vec![0, 0]], vec![vec![0, 0]], vec![]).is_none());
    assert!(Demand::new(vec![], vec![], vec![], vec![]).is_some());
}

#[test]
fn gather_counts_waits_units_and_the_pending_request() {
    let tasks = vec![Some(1), Some(2), Some(3)];
    let uses = vec![
        usage(0, vec![2, 3, 2], vec![1, 1]),
        usage(4, vec![], vec![3]),
    ];
    let d = Demand::gather(&tasks, &uses, 1, 1).unwrap();
    assert_eq!(*d.available(), vec![0, 4]);
    assert_eq!(*d.allocation(), vec![vec![2, 0], vec![0, 0], vec![0, 1]]);
    assert_eq!(*d.need(), vec![vec![0, 1], vec![2, 0], vec![1, 0]]);
    assert_eq!(*d.active(), vec![true, true, true]);
}

#[test]
fn gather_adds_the_request_to_what_the_requester_waits_for() {
    let tasks = vec![Some(1)];
    let uses = vec![usage(0, vec![1], vec![])];
    let d = Demand::gather(&tasks, &uses, 1, 0).unwrap();
    assert_eq!(*d.need(), vec![vec![2]]);
}

#[test]
fn gather_ignores_a_requester_outside_the_roster() {
    let tasks = vec![Some(1), Some(2)];
    let uses = vec![usage(1, vec![], vec![])];
    let d = Demand::gather(&tasks, &uses, 7, 0).unwrap();
    assert_eq!(*d.need(), vec![vec![0], vec![0]]);
    assert_eq!(d.safe_sequence(), Some(vec![0, 1]));
}

#[test]
fn gather_ignores_a_request_for_a_resource_outside_the_list() {
    let tasks = vec![Some(1)];
    let uses = vec![usage(1, vec![], vec![])];
    let d = Demand::gather(&tasks, &uses, 1, 5).unwrap();
    assert_eq!(*d.need(), vec![vec![0]]);
}

#[test]
fn gather_puts_zeros_for_an_empty_resource_slot() {
    let tasks = vec![Some(1), Some(2)];
    let uses = vec![None, usage(2, vec![2], vec![1])];
    let d = Demand::gather(&tasks, &uses, 1, 0).unwrap();
    assert_eq!(*d.available(), vec![0, 2]);
    assert_eq!(*d.allocation(), vec![vec![0, 1], vec![0, 0]]);
    // The request itself is for the empty slot and does not count either.
    assert_eq!(*d.need(), vec![vec![0, 0], vec![0, 1]]);
}

#[test]
fn gather_leaves_the_excluded_thread_out() {
    assert_eq!(EXCLUDED_TID, 999);
    let tasks = vec![Some(999), Some(1)];
    let uses = vec![usage(0, vec![999, 1], vec![999])];
    let d = Demand::gather(&tasks, &uses, 999, 0).unwrap();
    assert_eq!(*d.active(), vec![false, true]);
    assert_eq!(*d.allocation(), vec![vec![0], vec![0]]);
    assert_eq!(*d.need(), vec![vec![0], vec![1]]);
}

#[test]
fn gather_fails_on_an_empty_roster_slot() {
    let tasks = vec![Some(1), None, Some(2)];
    let uses = vec![usage(1, vec![], vec![])];
    assert!(Demand::gather(&tasks, &uses, 1, 0).is_none());
}

#[test]
fn gather_counts_a_thread_for_each_slot_that_names_it() {
    let tasks = vec![Some(1), Some(1)];
    let uses = vec![usage(0, vec![], vec![1])];
    let d = Demand::gather(&tasks, &uses, 1, 0).unwrap();
    assert_eq!(*d.allocation(), vec![vec![1], vec![1]]);
    assert_eq!(*d.need(), vec![vec![1], vec![1]]);
    // Neither row can start: both wait for a unit and none is free.
    assert_eq!(d.safe_sequence(), None);
}

/// Whether the threads can finish in the order given.
fn runs(d: &Demand, order: &[usize]) -> bool {
    let mut work = d.available().clone();
    for &i in order {
        if (0..work.len()).any(|j| d.need()[i][j] > work[j]) {
            return false;
        }
        for j in 0..work.len() {
            work[j] += d.allocation()[i][j];
        }
    }
    true
}

/// Whether some order of `rest`, after `prefix`, lets every thread finish.
fn some_order_runs(d: &Demand, prefix: &mut Vec<usize>, rest: &mut Vec<usize>) -> bool {
    if rest.is_empty() {
        return runs(d, prefix);
    }
    for k in 0..rest.len() {
        let i = rest.remove(k);
        prefix.push(i);
        let found = some_order_runs(d, prefix, rest);
        prefix.pop();
        rest.insert(k, i);
        if found {
            return true;
        }
    }
    false
}

#[test]
fn verdict_agrees_with_a_search_through_all_orders() {
    let mut seed: u64 = 0x2545_F491_4F6C_DD1D;
    let mut next = |bound: u64| {
        seed ^= seed << 13;
        seed ^= seed >> 7;
        seed ^= seed << 17;
        (seed % bound) as usize
    };
    let mut safe_seen = 0;
    let mut unsafe_seen = 0;
    for _ in 0..3000 {
        let threads = next(5);
        let resources = next(4);
        let available: Vec<u128> = (0..resources).map(|_| next(3) as u128).collect();
        let allocation: Vec<Vec<u128>> =
            (0..threads).map(|_| (0..resources).map(|_| next(3) as u128).collect()).collect();
        let need: Vec<Vec<u128>> =
            (0..threads).map(|_| (0..resources).map(|_| next(4) as u128).collect()).collect();
        let active: Vec<bool> = (0..threads).map(|_| next(4) != 0).collect();
        let d = Demand::new(available, allocation, need, active.clone()).unwrap();

        let mut rest: Vec<usize> = (0..threads).filter(|&i| active[i]).collect();
        let expected = some_order_runs(&d, &mut Vec::new(), &mut rest);
        assert_eq!(d.is_safe(), expected);
        match d.safe_sequence() {
            Some(order) => {
                assert!(expected);
                assert!(runs(&d, &order));
                let mut sorted = order.clone();
                sorted.sort();
                assert_eq!(sorted, rest);
                safe_seen += 1;
            }
            None => {
                assert!(!expected);
                unsafe_seen += 1;
            }
        }
    }
    assert!(safe_seen > 100 && unsafe_seen > 100);
}
