use mmtk::util::rust_util::{likely, min_of_usize, unlikely, InitializeOnce};
use std::cell::Cell;

#[test]
fn test_threads_compete_initialize() {
    // Many attempts to initialize the same value: the initializer runs once, and every
    // attempt sees the value it produced.
    const N_ATTEMPTS: usize = 1000;
    let count = Cell::new(0usize);
    let initialize_usize = || {
        count.set(count.get() + 1);
        42usize
    };
    let mut i: InitializeOnce<usize> = InitializeOnce::new();
    for _ in 1..N_ATTEMPTS {
        i.initialize_once(&initialize_usize);
        assert_eq!(*i.get_ref(), 42);
    }
    assert_eq!(count.get(), 1);
}

#[test]
fn initialize_once_keeps_the_first_value() {
    let mut i: InitializeOnce<u32> = InitializeOnce::new();
    i.initialize_once(|| 7);
    i.initialize_once(|| 9);
    assert_eq!(*i.get_ref(), 7);
}

#[test]
fn small_helpers() {
    assert_eq!(min_of_usize(3, 5), 3);
    assert_eq!(min_of_usize(5, 3), 3);
    assert_eq!(min_of_usize(4, 4), 4);
    assert!(likely(true));
    assert!(!unlikely(false));
}

#[test]
fn initialize_once_get_mut() {
    let mut i: InitializeOnce<Vec<u8>> = InitializeOnce::new();
    i.initialize_once(|| vec![1]);
    i.get_mut().push(2);
    assert_eq!(i.get_ref(), &vec![1, 2]);
}
