//! The borrow flag of a cell shared between threads: a counter that holds the number of
//! shared borrows, or `BORROW_FLAG` while the value is borrowed mutably.
use vstd::prelude::*;
use core::sync::atomic::AtomicIsize;
use core::sync::atomic::Ordering;

verus! {

/// The flag of a mutable borrow.
pub const BORROW_FLAG: isize = isize::MIN;

/// The flag of a cell that nobody borrows.
pub const INIT_STATE: isize = 0;

/// Why a borrow was refused.
#[derive(Debug, PartialEq, Eq, Structural, Clone, Copy)]
pub enum BorrowError {
    /// The value is borrowed, so it cannot be borrowed mutably.
    AlreadyBorrow,
    /// The value is borrowed mutably.
    AlreadyBorrowMut,
}

impl BorrowError {
    /// The text of the error.
    pub open spec fn text(self) -> Seq<char> {
        match self {
            BorrowError::AlreadyBorrow => "already borrowed"@,
            BorrowError::AlreadyBorrowMut => "already mutably borrowed"@,
        }
    }

    /// The text of the error.
    pub fn message(&self) -> (r: &'static str)
        ensures
            r@ == self.text(),
    {
        match self {
            BorrowError::AlreadyBorrow => "already borrowed",
            BorrowError::AlreadyBorrowMut => "already mutably borrowed",
        }
    }
}

/// Whether a flag that a shared borrow has just raised to `x` lets the borrow stand.
pub open spec fn shared_ok(x: isize) -> bool {
    x > INIT_STATE
}

/// Whether the flag `x` tells of a mutable borrow.
pub open spec fn mutably_borrowed(x: isize) -> bool {
    x < INIT_STATE
}

/// Decides `shared_ok`.
pub fn is_borrow_success(x: isize) -> (b: bool)
    ensures
        b == shared_ok(x),
{
    x > INIT_STATE
}

/// Decides `mutably_borrowed`.
pub fn already_borrow_mut(x: isize) -> (b: bool)
    ensures
        b == mutably_borrowed(x),
{
    x < INIT_STATE
}

/// The answer to a shared borrow that raised the flag to `raised`.
pub open spec fn shared_answer(raised: isize) -> Result<(), BorrowError> {
    if shared_ok(raised) {
        Ok(())
    } else {
        Err(BorrowError::AlreadyBorrowMut)
    }
}

/// The answer to a mutable borrow that found the flag at `found`.
pub open spec fn exclusive_answer(found: isize) -> Result<(), BorrowError> {
    if found == INIT_STATE {
        Ok(())
    } else if mutably_borrowed(found) {
        Err(BorrowError::AlreadyBorrowMut)
    } else {
        Err(BorrowError::AlreadyBorrow)
    }
}

/// Answers a shared borrow that raised the flag to `raised`.
pub fn answer_shared(raised: isize) -> (r: Result<(), BorrowError>)
    ensures
        r == shared_answer(raised),
{
    if is_borrow_success(raised) {
        Ok(())
    } else {
        Err(BorrowError::AlreadyBorrowMut)
    }
}

/// Answers a mutable borrow that found the flag at `found`.
pub fn answer_exclusive(found: isize) -> (r: Result<(), BorrowError>)
    ensures
        r == exclusive_answer(found),
{
    if found == INIT_STATE {
        Ok(())
    } else if already_borrow_mut(found) {
        Err(BorrowError::AlreadyBorrowMut)
    } else {
        Err(BorrowError::AlreadyBorrow)
    }
}

/// The flag after a shared borrow from `s`: raised by one, and lowered again where the
/// borrow is refused. The counter wraps as the atomic does.
pub open spec fn after_shared(s: isize) -> isize {
    let raised = (s as int + 1) as isize;
    if shared_ok(raised) {
        raised
    } else {
        (raised as int - 1) as isize
    }
}

/// The flag after a mutable borrow from `s`: set to `BORROW_FLAG` where it was free.
pub open spec fn after_exclusive(s: isize) -> isize {
    if s == INIT_STATE {
        BORROW_FLAG
    } else {
        s
    }
}

/// The flag after a shared borrow ends.
pub open spec fn after_shared_release(s: isize) -> isize {
    (s as int - 1) as isize
}

/// The flag after a mutable borrow ends: `BORROW_FLAG` taken away, wrapping.
pub open spec fn after_exclusive_release(s: isize) -> isize {
    (s as int - BORROW_FLAG as int) as isize
}

/// A shared borrow of the counter `borrow`: it stands where the raised counter is
/// positive, and is undone and refused as `AlreadyBorrowMut` otherwise. What the counter
/// held depends on the other threads.
pub struct AtomicRefInner<'a> {
    borrow: &'a AtomicIsize,
}

impl<'a> AtomicRefInner<'a> {
    /// Takes a shared borrow of `borrow`.
    pub fn try_borrow(borrow: &'a AtomicIsize) -> (r: Result<Self, BorrowError>)
        ensures
            r matches Err(e) ==> e == BorrowError::AlreadyBorrowMut,
    {
        let prior = borrow.fetch_add(1, Ordering::Relaxed);
        let raised = prior.wrapping_add(1);
        match answer_shared(raised) {
            Ok(()) => Ok(AtomicRefInner { borrow }),
            Err(e) => {
                borrow.fetch_sub(1, Ordering::Relaxed);
                Err(e)
            },
        }
    }

    /// Ends the shared borrow.
    pub fn release(self) {
        self.borrow.fetch_sub(1, Ordering::Relaxed);
    }
}

/// A mutable borrow of the counter `borrow`: it stands where the counter was zero and is
/// set to `BORROW_FLAG`; otherwise it is refused as `AlreadyBorrowMut` where the counter
/// tells of a mutable borrow, and as `AlreadyBorrow` where it tells of shared ones.
pub struct AtomicRefMutInner<'a> {
    borrow: &'a AtomicIsize,
}

impl<'a> AtomicRefMutInner<'a> {
    /// Takes a mutable borrow of `borrow`.
    pub fn try_borrow_mut(borrow: &'a AtomicIsize) -> (r: Result<Self, BorrowError>)
        ensures
            r matches Err(e) ==> e == BorrowError::AlreadyBorrow || e == BorrowError::AlreadyBorrowMut,
    {
        let found = match borrow.compare_exchange(INIT_STATE, BORROW_FLAG, Ordering::Relaxed, Ordering::Relaxed) {
            Ok(v) => v,
            Err(v) => v,
        };
        match answer_exclusive(found) {
            Ok(()) => Ok(AtomicRefMutInner { borrow }),
            Err(e) => Err(e),
        }
    }

    /// Ends the mutable borrow.
    pub fn release(self) {
        self.borrow.fetch_sub(BORROW_FLAG, Ordering::Relaxed);
    }
}

/// A mutable borrow excludes every other: from the flag of a mutable borrow, a shared
/// borrow is refused as `AlreadyBorrowMut` and leaves the flag as it was, and so does
/// another mutable borrow.
pub proof fn law_mutable_borrow_excludes_all()
    ensures
        shared_answer((BORROW_FLAG as int + 1) as isize) == Err::<(), BorrowError>(
            BorrowError::AlreadyBorrowMut,
        ),
        after_shared(BORROW_FLAG) == BORROW_FLAG,
        exclusive_answer(BORROW_FLAG) == Err::<(), BorrowError>(BorrowError::AlreadyBorrowMut),
        after_exclusive(BORROW_FLAG) == BORROW_FLAG,
{
}

/// Shared borrows exclude a mutable one: while `n` shared borrows stand, a mutable borrow
/// is refused as `AlreadyBorrow` and leaves the flag as it was, and one more shared borrow
/// stands, unless the counter would overflow.
pub proof fn law_shared_borrows_exclude_mutable(n: isize)
    requires
        n > 0,
    ensures
        exclusive_answer(n) == Err::<(), BorrowError>(BorrowError::AlreadyBorrow),
        after_exclusive(n) == n,
        n < isize::MAX ==> shared_answer((n + 1) as isize) == Ok::<(), BorrowError>(())
            && after_shared(n) == n + 1,
{
}

/// A borrow that ends gives back the flag it found: a shared borrow taken and ended
/// from `n` shared borrows leaves `n`, and a mutable borrow taken and ended from a free
/// cell leaves it free.
pub proof fn law_release_restores(n: isize)
    requires
        0 <= n < isize::MAX,
    ensures
        after_shared_release(after_shared(n)) == n,
        after_exclusive_release(after_exclusive(INIT_STATE)) == INIT_STATE,
        exclusive_answer(INIT_STATE) == Ok::<(), BorrowError>(()),
{
}

} // verus!
