//! Weak pointers of std, each with the value its block held when it was made.
//!
//! While a weak pointer to a block exists, the value in that block does not change:
//! `Rc::get_mut` refuses to hand it out, and `Rc::make_mut` moves it to a block of its own,
//! after which the weak pointers to the old block no longer upgrade. So whatever an upgrade
//! gives is the value the block held when the weak pointer was made. The fields below are
//! private to this module, and only `weak_of` and `weak_share` make a link, so `shared` is
//! always that value.
use vstd::prelude::*;
use std::rc::{Rc, Weak};

verus! {

/// A weak pointer of std. Verus cannot declare std's `Weak`, whose type carries an
/// allocator parameter, so it is held here opaquely.
#[verifier::external_body]
#[verifier::reject_recursive_types(V)]
struct RawWeak<V> {
    weak: Weak<V>,
}

/// A weak pointer of std, with the value of its block when it was made.
#[verifier::reject_recursive_types(V)]
pub struct WeakLink<V> {
    raw: RawWeak<V>,
    shared: Ghost<V>,
}

impl<V> WeakLink<V> {
    /// The value of the block when this pointer was made.
    pub closed spec fn shared(&self) -> V {
        self.shared@
    }
}

/// `Rc::downgrade`: a weak pointer to the block of `rc`, which holds `*rc`.
#[verifier::external_body]
pub(crate) fn weak_of<V>(rc: &Rc<V>) -> (r: WeakLink<V>)
    ensures
        r.shared() == **rc,
{
    WeakLink { raw: RawWeak { weak: Rc::downgrade(rc) }, shared: Ghost(**rc) }
}

/// `Weak::clone`: another weak pointer to the same block.
#[verifier::external_body]
pub(crate) fn weak_share<V>(w: &WeakLink<V>) -> (r: WeakLink<V>)
    ensures
        r.shared() == w.shared(),
{
    WeakLink { raw: RawWeak { weak: w.raw.weak.clone() }, shared: Ghost(w.shared@) }
}

/// `Weak::upgrade`: a strong pointer, where the value still lives; it is then the value the
/// block held when `w` was made. Whether the value still lives depends on the other
/// pointers to the block, which is not stated.
#[verifier::external_body]
pub(crate) fn weak_upgrade<V>(w: &WeakLink<V>) -> (r: Option<Rc<V>>)
    ensures
        r matches Some(rc) ==> *rc == w.shared(),
{
    w.raw.weak.upgrade()
}

/// `Weak::strong_count`: the number of strong pointers to the block, zero for a dangling
/// pointer. It depends on the other pointers, so nothing is stated of it.
#[verifier::external_body]
pub(crate) fn weak_strong_count<V>(w: &WeakLink<V>) -> usize {
    w.raw.weak.strong_count()
}

/// `Weak::weak_count`: the number of weak pointers to the block, zero where no strong
/// pointer remains. It depends on the other pointers, so nothing is stated of it.
#[verifier::external_body]
pub(crate) fn weak_weak_count<V>(w: &WeakLink<V>) -> usize {
    w.raw.weak.weak_count()
}

} // verus!
