use std::sync::atomic::{AtomicIsize, Ordering};
use ylong::borrow::{
    already_borrow_mut, answer_exclusive, answer_shared, is_borrow_success, AtomicRefInner,
    AtomicRefMutInner, BorrowError, BORROW_FLAG,
};

#[test]
fn borrow_answers() {
    assert!(is_borrow_success(1));
    assert!(!is_borrow_success(0));
    assert!(already_borrow_mut(BORROW_FLAG));
    assert!(!already_borrow_mut(3));
    assert_eq!(answer_shared(2), Ok(()));
    assert_eq!(answer_shared(BORROW_FLAG + 1), Err(BorrowError::AlreadyBorrowMut));
    assert_eq!(answer_exclusive(0), Ok(()));
    assert_eq!(answer_exclusive(BORROW_FLAG), Err(BorrowError::AlreadyBorrowMut));
    assert_eq!(answer_exclusive(2), Err(BorrowError::AlreadyBorrow));
    assert_eq!(BorrowError::AlreadyBorrow.message(), "already borrowed");
    assert_eq!(BorrowError::AlreadyBorrowMut.message(), "already mutably borrowed");
}

#[test]
fn borrow_flag_protocol() {
    let flag = AtomicIsize::new(0);
    let a = AtomicRefInner::try_borrow(&flag).unwrap();
    let b = AtomicRefInner::try_borrow(&flag).unwrap();
    assert_eq!(flag.load(Ordering::Relaxed), 2);
    assert_eq!(
        AtomicRefMutInner::try_borrow_mut(&flag).err(),
        Some(BorrowError::AlreadyBorrow)
    );
    a.release();
    b.release();
    assert_eq!(flag.load(Ordering::Relaxed), 0);
    let m = AtomicRefMutInner::try_borrow_mut(&flag).unwrap();
    assert_eq!(flag.load(Ordering::Relaxed), BORROW_FLAG);
    assert_eq!(
        AtomicRefInner::try_borrow(&flag).err(),
        Some(BorrowError::AlreadyBorrowMut)
    );
    assert_eq!(
        AtomicRefMutInner::try_borrow_mut(&flag).err(),
        Some(BorrowError::AlreadyBorrowMut)
    );
    assert_eq!(flag.load(Ordering::Relaxed), BORROW_FLAG);
    m.release();
    assert_eq!(flag.load(Ordering::Relaxed), 0);
}

#[test]
fn test_borrow() {
    let data = AtomicIsize::new(0);
    let _borrow1 = AtomicRefInner::try_borrow(&data).unwrap();
    let _borrow2 = AtomicRefInner::try_borrow(&data).unwrap();
    let _borrow3 = AtomicRefInner::try_borrow(&data).unwrap();
}

#[test]
fn test_borrow_mut() {
    let data = AtomicIsize::new(0);
    let _borrow1 = AtomicRefMutInner::try_borrow_mut(&data).unwrap();
    let _borrow2 = AtomicRefMutInner::try_borrow_mut(&data);
    assert_eq!(_borrow2.err(), Some(BorrowError::AlreadyBorrowMut));
}

#[test]
fn borrow_mut_then_borrow() {
    let data = AtomicIsize::new(0);
    let _borrow1 = AtomicRefMutInner::try_borrow_mut(&data).unwrap();
    let _borrow2 = AtomicRefInner::try_borrow(&data);
    assert_eq!(_borrow2.err(), Some(BorrowError::AlreadyBorrowMut));
}

#[test]
fn borrow_then_borrow_mut() {
    let data = AtomicIsize::new(0);
    let _borrow1 = AtomicRefInner::try_borrow(&data).unwrap();
    let _borrow2 = AtomicRefMutInner::try_borrow_mut(&data);
    assert_eq!(_borrow2.err(), Some(BorrowError::AlreadyBorrow));
}

#[test]
fn cross_test() {
    let data = AtomicIsize::new(0);
    {
        let borrow1 = AtomicRefInner::try_borrow(&data).unwrap();
        borrow1.release();
    }
    {
        let borrow1 = AtomicRefInner::try_borrow(&data).unwrap();
        let borrow2 = AtomicRefMutInner::try_borrow_mut(&data);
        assert_eq!(borrow2.err(), Some(BorrowError::AlreadyBorrow));
        let borrow3 = AtomicRefInner::try_borrow(&data).unwrap();
        borrow3.release();
        borrow1.release();
    }
    {
        let borrow1 = AtomicRefInner::try_borrow(&data).unwrap();
        let borrow2 = AtomicRefMutInner::try_borrow_mut(&data);
        assert_eq!(borrow2.err(), Some(BorrowError::AlreadyBorrow));
        borrow1.release();
        let borrow3 = AtomicRefMutInner::try_borrow_mut(&data).unwrap();
        borrow3.release();
    }
    {
        let borrow1 = AtomicRefMutInner::try_borrow_mut(&data).unwrap();
        let borrow2 = AtomicRefMutInner::try_borrow_mut(&data);
        assert_eq!(borrow2.err(), Some(BorrowError::AlreadyBorrowMut));
        borrow1.release();
        let borrow3 = AtomicRefMutInner::try_borrow_mut(&data).unwrap();
        borrow3.release();
    }
    assert_eq!(data.load(Ordering::Relaxed), 0);
}
