use halo2_proofs::multicore::prelude::{IntoParallelRefIterator, IntoParallelRefMutIterator};
use halo2_proofs::multicore::{current_num_threads, join, scope, ParallelIterator};
use std::cell::RefCell;
use std::sync::Mutex;

#[test]
fn single_thread() {
    assert_eq!(current_num_threads(), 1);
}

#[test]
fn join_runs_both_in_order() {
    let log = RefCell::new(Vec::new());
    let (a, b) = join(
        || {
            log.borrow_mut().push("a");
            1u32
        },
        || {
            log.borrow_mut().push("b");
            "two"
        },
    );
    assert_eq!(a, 1);
    assert_eq!(b, "two");
    assert_eq!(*log.borrow(), vec!["a", "b"]);
}

#[test]
fn scope_runs_spawned_work_before_returning() {
    let mut total = 0u64;
    let r = scope(|s| {
        s.spawn(|_| {
            total += 5;
        });
        42
    });
    assert_eq!(r, 42);
    assert_eq!(total, 5);
}

#[test]
fn nested_spawns_run_inline() {
    let log = Mutex::new(Vec::new());
    scope(|s| {
        s.spawn(|inner| {
            log.lock().unwrap().push(1);
            inner.spawn(|_| log.lock().unwrap().push(2));
            log.lock().unwrap().push(3);
        });
        log.lock().unwrap().push(4);
    });
    assert_eq!(*log.lock().unwrap(), vec![1, 2, 3, 4]);
}

#[test]
fn par_iter_mut_is_sequential_iter_mut() {
    let mut v = vec![1, 2, 3];
    for x in v.par_iter_mut() {
        *x *= 10;
    }
    assert_eq!(v, vec![10, 20, 30]);
    let s: &mut [i32] = &mut v[..2];
    for x in s.par_iter_mut() {
        *x += 1;
    }
    assert_eq!(v, vec![11, 21, 30]);
}

#[test]
fn par_iter_yields_elements_in_order() {
    let v = vec![4, 5, 6];
    let seen: Vec<i32> = v.par_iter().copied().collect();
    assert_eq!(seen, vec![4, 5, 6]);
    let s: &[i32] = &v[1..];
    let sum: i32 = s.par_iter().sum();
    assert_eq!(sum, 11);
}

fn total<I: ParallelIterator<Item = u32>>(it: I) -> u32 {
    it.fold(0, |a, b| a + b)
}

#[test]
fn every_iterator_is_a_parallel_iterator() {
    assert_eq!(total(vec![1u32, 2, 3].into_iter()), 6);
}
