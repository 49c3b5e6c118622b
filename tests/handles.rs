use std::cell::RefCell;
use std::rc::Rc;
use xdiag::handle::{release_shared, GenericFreeWrapper, GenericXftWrapper};
use xdiag::table::{HandleError, HandleTable};

#[test]
fn wrapper_releases_once_with_status() {
    let calls = RefCell::new(Vec::new());
    let w = GenericFreeWrapper::new(42u64, |h: u64| {
        calls.borrow_mut().push(h);
        7
    });
    assert_eq!(w.ptr(), 42);
    assert_eq!(w.release(), 7);
    assert_eq!(*calls.borrow(), vec![42]);
}

#[test]
fn wrapper_released_on_early_return_path() {
    let calls = RefCell::new(0u32);
    let run = |fail: bool| -> Result<i32, ()> {
        let w = GenericFreeWrapper::new(1u32, |_h: u32| {
            *calls.borrow_mut() += 1;
            0
        });
        if fail {
            let _ = w.release();
            return Err(());
        }
        Ok(w.release())
    };
    assert_eq!(run(true), Err(()));
    assert_eq!(run(false), Ok(0));
    assert_eq!(*calls.borrow(), 2);
}

#[test]
fn shared_release_runs_for_last_reference_only() {
    let calls = RefCell::new(0u32);
    let shared = Rc::new(GenericFreeWrapper::new(5u8, |_h: u8| {
        *calls.borrow_mut() += 1;
        1
    }));
    let other = shared.clone();
    assert_eq!(release_shared(shared), None);
    assert_eq!(*calls.borrow(), 0);
    assert_eq!(release_shared(other), Some(1));
    assert_eq!(*calls.borrow(), 1);
}

#[test]
fn dependent_released_before_display() {
    let log = RefCell::new(Vec::new());
    let dpy = Rc::new(GenericFreeWrapper::new(100u64, |d: u64| {
        log.borrow_mut().push(format!("display {d}"));
        0
    }));
    let font = GenericXftWrapper::new(7u64, dpy.clone(), |d: u64, f: u64| {
        log.borrow_mut().push(format!("font {f} on {d}"));
    });
    assert_eq!(font.ptr(), 7);
    // the display's own owner lets go first: it stays open
    assert_eq!(release_shared(dpy), None);
    let back = font.release();
    assert_eq!(release_shared(back), Some(0));
    assert_eq!(*log.borrow(), vec!["font 7 on 100".to_string(), "display 100".to_string()]);
}

#[test]
fn table_release_exactly_once() {
    let mut t = HandleTable::new();
    let a = t.acquire(10);
    assert_eq!(a, 0);
    assert_eq!(t.share(a), Ok(()));
    assert_eq!(t.let_go(a), Ok(vec![]));
    assert_eq!(t.let_go(a), Ok(vec![0]));
    assert_eq!(t.let_go(a), Err(HandleError::Released));
    assert_eq!(t.released_log(), vec![0]);
    assert!(t.slot(a).released);
}

#[test]
fn table_dependent_dropped_first() {
    let mut t = HandleTable::new();
    let a = t.acquire(1);
    let b = t.acquire_dependent(2, a).unwrap();
    assert_eq!(b, 1);
    assert_eq!(t.slot(a).dependents, 1);
    assert_eq!(t.let_go(b), Ok(vec![b]));
    assert!(!t.slot(a).released);
    assert_eq!(t.let_go(a), Ok(vec![a]));
    assert_eq!(t.released_log(), vec![b, a]);
}

#[test]
fn table_owner_dropped_first_keeps_dependency_alive() {
    let mut t = HandleTable::new();
    let a = t.acquire(1);
    let b = t.acquire_dependent(2, a).unwrap();
    assert_eq!(t.let_go(a), Ok(vec![]));
    assert!(!t.slot(a).released);
    assert_eq!(t.let_go(b), Ok(vec![b, a]));
    assert_eq!(t.released_log(), vec![b, a]);
    assert_eq!(t.let_go(a), Err(HandleError::Released));
}

#[test]
fn table_chain_cascades_in_order() {
    let mut t = HandleTable::new();
    let a = t.acquire(1);
    let b = t.acquire_dependent(2, a).unwrap();
    let c = t.acquire_dependent(3, b).unwrap();
    assert_eq!(t.let_go(a), Ok(vec![]));
    assert_eq!(t.let_go(b), Ok(vec![]));
    assert_eq!(t.let_go(c), Ok(vec![2, 1, 0]));
    assert_eq!(t.len(), 3);
}

#[test]
fn table_errors() {
    let mut t = HandleTable::new();
    assert_eq!(t.let_go(0), Err(HandleError::Unknown));
    assert_eq!(t.share(3), Err(HandleError::Unknown));
    assert_eq!(t.acquire_dependent(9, 0), Err(HandleError::Unknown));
    let a = t.acquire(1);
    let b = t.acquire_dependent(2, a).unwrap();
    assert_eq!(t.let_go(a), Ok(vec![]));
    assert_eq!(t.let_go(a), Err(HandleError::NoOwner));
    assert_eq!(t.let_go(b), Ok(vec![b, a]));
    assert_eq!(t.acquire_dependent(3, a), Err(HandleError::Released));
    assert_eq!(t.share(b), Err(HandleError::Released));
}
