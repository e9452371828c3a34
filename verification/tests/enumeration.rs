use std::cell::Cell;

use findshlibs::linux::{
    drive_outcomes, image_names, CallbackOutcome, IterState, Phdr, SharedLibrary, NATIVE_BREAK,
    NATIVE_CONTINUE,
};
use findshlibs::{each_image, unsupported, IterationControl, TARGET_SUPPORTED};

fn library(name: &[u8]) -> SharedLibrary {
    SharedLibrary::new(
        name.to_vec(),
        0x1000,
        vec![Phdr {
            p_type: 1,
            p_flags: 5,
            p_vaddr: 0,
            p_memsz: 0x1000,
            p_align: 8,
            contents: Vec::new(),
        }],
    )
}

fn four_libraries() -> Vec<SharedLibrary> {
    vec![library(b"one"), library(b"two"), library(b"three"), library(b"four")]
}

#[test]
fn mod_can_break() {
    let libraries = four_libraries();

    let first_count = Cell::new(0usize);
    let visited = SharedLibrary::each(&libraries, &|_lib: &SharedLibrary| {
        first_count.set(first_count.get() + 1);
        IterationControl::Continue
    });
    assert!(first_count.get() > 2);
    assert_eq!(visited, first_count.get());

    let second_count = Cell::new(0usize);
    let stop_at = first_count.get() - 1;
    let visited = SharedLibrary::each(&libraries, &|_lib: &SharedLibrary| {
        second_count.set(second_count.get() + 1);
        if second_count.get() == stop_at {
            IterationControl::Break
        } else {
            IterationControl::Continue
        }
    });
    assert_eq!(second_count.get(), first_count.get() - 1);
    assert_eq!(visited, first_count.get() - 1);
}

#[test]
fn each_visits_in_list_order() {
    let libraries = four_libraries();
    let seen = std::cell::RefCell::new(Vec::new());
    each_image(&libraries, &|lib: &SharedLibrary| {
        seen.borrow_mut().push(lib.name().to_vec());
        IterationControl::Continue
    });
    assert_eq!(
        seen.into_inner(),
        vec![b"one".to_vec(), b"two".to_vec(), b"three".to_vec(), b"four".to_vec()]
    );
}

#[test]
fn reenumeration_is_idempotent() {
    let libraries = four_libraries();
    let first = image_names(&libraries);
    let second = image_names(&libraries);
    assert_eq!(first, second);
    assert_eq!(first.len(), 4);
    assert_eq!(first[2], b"three".to_vec());
}

#[test]
fn unsupported_platform_visits_nothing() {
    assert!(TARGET_SUPPORTED);
    let visited = unsupported::SharedLibrary::each(&|_lib: &unsupported::SharedLibrary| {
        panic!("the fallback enumerator must not invoke the callback")
    });
    assert_eq!(visited, 0);
}

#[test]
fn iter_state_marshals_codes() {
    let mut state = IterState::new();
    let is_first = state.begin_image();
    assert!(is_first);
    assert_eq!(state.record_outcome(CallbackOutcome::Continued), NATIVE_CONTINUE);
    let is_first = state.begin_image();
    assert!(!is_first);
    assert_eq!(state.record_outcome(CallbackOutcome::Broke), NATIVE_BREAK);
    assert!(!state.must_resume());
}

#[test]
fn iter_state_captures_a_failure() {
    let mut state = IterState::new();
    state.begin_image();
    assert_eq!(state.record_outcome(CallbackOutcome::Panicked), NATIVE_BREAK);
    assert!(state.must_resume());
}

#[test]
fn failure_propagates_exactly_once() {
    // A callback that fails on its first image: one image entered, one
    // failure to re-raise, later outcomes never reached.
    let outcomes = vec![
        CallbackOutcome::Panicked,
        CallbackOutcome::Continued,
        CallbackOutcome::Panicked,
    ];
    assert_eq!(drive_outcomes(&outcomes), (1, true));

    // A callback that continues twice and then fails: the first two visits
    // stand, the failure is re-raised once.
    let outcomes = vec![
        CallbackOutcome::Continued,
        CallbackOutcome::Continued,
        CallbackOutcome::Panicked,
    ];
    assert_eq!(drive_outcomes(&outcomes), (3, true));
}

#[test]
fn drive_stops_on_break_without_a_failure() {
    let outcomes = vec![
        CallbackOutcome::Continued,
        CallbackOutcome::Broke,
        CallbackOutcome::Continued,
    ];
    assert_eq!(drive_outcomes(&outcomes), (2, false));

    let outcomes = vec![CallbackOutcome::Continued, CallbackOutcome::Continued];
    assert_eq!(drive_outcomes(&outcomes), (2, false));

    assert_eq!(drive_outcomes(&Vec::new()), (0, false));
}
