//! Reference counting with an allocator of the caller's choice: the allocator is asked
//! whether the block that holds the counters and the value may be had, the memory comes
//! from the global allocator, and each pointer keeps its own copy of the allocator.
mod link;

use vstd::prelude::*;
use std::rc::Rc;
use link::{weak_of, weak_share, weak_strong_count, weak_upgrade, weak_weak_count, WeakLink};
use crate::common::{block_granted, block_refused, copy_refused, AllocError, Allocator, ContainerError, Layout, SafeClone};
use vstd::std_specs::cmp::{PartialEqSpec, PartialEqSpecImpl};

verus! {

/// The layout of the block of a counted value: the strong and weak counters, then the value.
pub open spec fn block_layout<V>() -> Layout {
    Layout {
        size: vstd::layout::size_of::<(usize, usize, V)>() as usize,
        align: vstd::layout::align_of::<(usize, usize, V)>() as usize,
    }
}

/// `Rc::clone`: another strong pointer to the same value.
#[verifier::external_body]
fn rc_share<V>(rc: &Rc<V>) -> (r: Rc<V>)
    ensures
        r == *rc,
{
    Rc::clone(rc)
}

/// `Rc::strong_count`: the number of strong pointers to the block, of which `rc` is one.
#[verifier::external_body]
fn rc_strong_count<V>(rc: &Rc<V>) -> (n: usize)
    ensures
        n >= 1,
{
    Rc::strong_count(rc)
}

/// `Rc::weak_count`: the number of weak pointers to the block. It depends on the other
/// pointers, so nothing is stated of it.
#[verifier::external_body]
fn rc_weak_count<V>(rc: &Rc<V>) -> usize {
    Rc::weak_count(rc)
}

/// `Rc::get_mut`: the value, to be changed in place, where no other pointer shares it;
/// which is so depends on the other pointers.
#[verifier::external_body]
fn rc_get_mut<V>(rc: &mut Rc<V>) -> (r: Option<&mut V>)
    ensures
        match r {
            Some(v) => *v == **old(rc) && **final(rc) == *final(v),
            None => *final(rc) == *old(rc),
        },
{
    Rc::get_mut(rc)
}

/// `Rc::make_mut`: the value, to be changed in place; where other strong pointers share
/// it, it is first cloned into a block of its own.
#[verifier::external_body]
fn rc_make_mut<V: Clone>(rc: &mut Rc<V>) -> (r: &mut V)
    ensures
        *r == **old(rc) || cloned::<V>(**old(rc), *r),
        **final(rc) == *final(r),
{
    Rc::make_mut(rc)
}

/// A value shared by strong pointers, whose block was granted by an allocator.
#[derive(Debug)]
pub struct RcWithAlloc<V, A: Allocator> {
    inner: Rc<V>,
    alloc: A,
}

/// A pointer to a shared value that does not keep it alive; one made by `new` points to
/// nothing.
#[verifier::reject_recursive_types(V)]
pub struct WeakWithAlloc<V, A: Allocator> {
    link: Option<WeakLink<V>>,
    alloc: A,
}

impl<V, A: Allocator> View for RcWithAlloc<V, A> {
    type V = V;

    /// The shared value.
    closed spec fn view(&self) -> V {
        *self.inner
    }
}

impl<V, A: Allocator> RcWithAlloc<V, A> {
    /// The allocator of this pointer.
    pub closed spec fn alloc_spec(&self) -> A {
        self.alloc
    }

    /// Shares `value`, once `allocator` granted the block of the counters and the value; a
    /// refusal is reported with the layout asked for.
    pub fn new(value: V, allocator: A) -> (r: Result<Self, ContainerError>)
        ensures
            match r {
                Ok(rc) => rc@ == value && rc.alloc_spec() == allocator && block_granted(
                    allocator,
                    block_layout::<V>(),
                ),
                Err(e) => e == ContainerError::AllocFailure(block_layout::<V>()) && block_refused(
                    allocator,
                    block_layout::<V>(),
                ),
            },
    {
        let layout = Layout::new::<(usize, usize, V)>();
        let grant = allocator.allocate(layout);
        match grant {
            Ok(u) => {
                assert(u == () && layout == block_layout::<V>());
                assert(grant == Ok::<(), AllocError>(()));
                Ok(RcWithAlloc { inner: Rc::new(value), alloc: allocator })
            },
            Err(x) => {
                assert(x == AllocError);
                assert(layout == block_layout::<V>());
                Err(ContainerError::AllocFailure(layout))
            },
        }
    }

    /// The value, where `rc` is its only strong pointer; `None` otherwise. Weak pointers
    /// to it then dangle.
    pub fn into_inner(rc: Self) -> (r: Option<V>)
        ensures
            r matches Some(v) ==> v == rc@,
    {
        Rc::into_inner(rc.inner)
    }

    /// The value and the allocator, where `rc` is the only strong pointer; `None` otherwise.
    pub fn into_inner_with_alloc(rc: Self) -> (r: Option<(V, A)>)
        ensures
            r matches Some(p) ==> p.0 == rc@ && p.1 == rc.alloc_spec(),
    {
        let RcWithAlloc { inner, alloc } = rc;
        match Rc::into_inner(inner) {
            Some(v) => Some((v, alloc)),
            None => None,
        }
    }

    /// The value and the allocator, where `rc` is the only strong pointer; `rc` itself,
    /// unchanged, otherwise.
    pub fn try_unwrap_with_alloc(rc: Self) -> (r: Result<(V, A), Self>)
        ensures
            match r {
                Ok(p) => p.0 == rc@ && p.1 == rc.alloc_spec(),
                Err(same) => same@ == rc@ && same.alloc_spec() == rc.alloc_spec(),
            },
    {
        let RcWithAlloc { inner, alloc } = rc;
        match Rc::try_unwrap(inner) {
            Ok(v) => Ok((v, alloc)),
            Err(inner) => Err(RcWithAlloc { inner, alloc }),
        }
    }

    /// The allocator of `rc`.
    pub fn allocator(rc: &Self) -> (r: &A)
        ensures
            *r == rc.alloc_spec(),
    {
        &rc.alloc
    }

    /// The value, to be changed in place, where no other strong or weak pointer shares it;
    /// `None` otherwise, and `rc` is unchanged.
    pub fn get_mut(rc: &mut Self) -> (r: Option<&mut V>)
        ensures
            final(rc).alloc_spec() == old(rc).alloc_spec(),
            match r {
                Some(v) => *v == old(rc)@ && final(rc)@ == *final(v),
                None => final(rc)@ == old(rc)@,
            },
    {
        rc_get_mut(&mut rc.inner)
    }

    /// The number of strong pointers to the value, `rc` among them.
    pub fn strong_count(rc: &Self) -> (n: usize)
        ensures
            n >= 1,
    {
        rc_strong_count(&rc.inner)
    }

    /// The number of weak pointers to the value.
    pub fn weak_count(rc: &Self) -> usize {
        rc_weak_count(&rc.inner)
    }

    /// The shared value.
    pub fn as_ref(&self) -> (r: &V)
        ensures
            *r == self@,
    {
        &self.inner
    }
}

impl<V, A: Allocator + SafeClone> RcWithAlloc<V, A> {
    /// A weak pointer to the value of `rc`, with a copy of its allocator; the failure of
    /// that copy is returned.
    pub fn downgrade(rc: &Self) -> (r: Result<WeakWithAlloc<V, A>, ContainerError>)
        ensures
            match r {
                Ok(w) => !w.is_dangling() && w.target() == rc@ && rc.alloc_spec().copy_of(
                    &w.alloc_spec(),
                ),
                Err(e) => copy_refused(rc.alloc_spec(), e),
            },
    {
        let alloc = match rc.alloc.safe_clone() {
            Ok(a) => a,
            Err(e) => {
                return Err(e);
            },
        };
        Ok(WeakWithAlloc { link: Some(weak_of(&rc.inner)), alloc })
    }
}

impl<V: Clone, A: Allocator + SafeClone> RcWithAlloc<V, A> {
    /// The value, to be changed in place, in a block of its own. Where other strong
    /// pointers share it, it is cloned into a new block granted by a copy of the allocator;
    /// where only weak pointers share it, the allocator is asked for a new block, into which
    /// the value moves and the weak pointers then dangle. A failure leaves `rc` unchanged.
    pub fn make_mut(rc: &mut Self) -> (r: Result<&mut V, ContainerError>)
        ensures
            match r {
                Ok(v) => (cloned::<V>(old(rc)@, *v) || exists|c: V|
                    #![trigger cloned::<V>(old(rc)@, c)]
                    cloned::<V>(old(rc)@, c) && cloned::<V>(c, *v)) && final(rc)@ == *final(v) && (
                final(rc).alloc_spec() == old(rc).alloc_spec() || old(rc).alloc_spec().copy_of(
                    &final(rc).alloc_spec(),
                )),
                Err(e) => *final(rc) == *old(rc) && (copy_refused(old(rc).alloc_spec(), e) || (e
                    == ContainerError::AllocFailure(block_layout::<V>()) && exists|a: A|
                    (a == old(rc).alloc_spec() || old(rc).alloc_spec().copy_of(&a))
                        && #[trigger] block_refused(a, block_layout::<V>()))),
            },
    {
        if rc_strong_count(&rc.inner) > 1 {
            let alloc = match rc.alloc.safe_clone() {
                Ok(a) => a,
                Err(e) => {
                    return Err(e);
                },
            };
            let val: &V = &rc.inner;
            let copy = val.clone();
            let fresh = match RcWithAlloc::new(copy, alloc) {
                Ok(f) => f,
                Err(e) => {
                    return Err(e);
                },
            };
            *rc = fresh;
            let v = rc_make_mut(&mut rc.inner);
            assert(cloned::<V>(old(rc)@, copy));
            Ok(v)
        } else {
            if rc_weak_count(&rc.inner) > 0 {
                let layout = Layout::new::<(usize, usize, V)>();
                match rc.alloc.allocate(layout) {
                    Ok(()) => {},
                    Err(x) => {
                        assert(x == AllocError && layout == block_layout::<V>());
                        assert(block_refused(old(rc).alloc_spec(), block_layout::<V>()));
                        return Err(ContainerError::AllocFailure(layout));
                    },
                }
            }
            Ok(rc_make_mut(&mut rc.inner))
        }
    }
}

impl<V, A: Allocator + SafeClone> SafeClone for RcWithAlloc<V, A> {
    /// Another strong pointer to the same value, with a copy of the allocator.
    open spec fn copy_of(&self, c: &Self) -> bool {
        c@ == self@ && self.alloc_spec().copy_of(&c.alloc_spec())
    }

    /// Another strong pointer to the value of `other`; where the copy of the allocator
    /// fails, `self` unchanged.
    open spec fn refilled(&self, before: &Self, other: &Self, r: Result<(), ContainerError>) -> bool {
        match r {
            Ok(()) => other.copy_of(self),
            Err(e) => *self == *before && copy_refused(other.alloc_spec(), e),
        }
    }

    /// Another strong pointer to the same value, with a copy of the allocator; the failure
    /// of that copy is returned.
    fn safe_clone(&self) -> (r: Result<Self, ContainerError>)
        ensures
            r matches Err(e) ==> copy_refused(self.alloc_spec(), e),
    {
        let alloc = match self.alloc.safe_clone() {
            Ok(a) => a,
            Err(e) => {
                return Err(e);
            },
        };
        Ok(RcWithAlloc { inner: rc_share(&self.inner), alloc })
    }

    /// Makes `self` another strong pointer to the value of `other`.
    fn safe_clone_from(&mut self, other: &Self) -> (r: Result<(), ContainerError>) {
        match other.safe_clone() {
            Ok(c) => {
                *self = c;
                Ok(())
            },
            Err(e) => Err(e),
        }
    }
}

impl<V, A: Allocator> core::ops::Deref for RcWithAlloc<V, A> {
    type Target = V;

    /// The shared value.
    fn deref(&self) -> (r: &V)
        ensures
            *r == self@,
    {
        &self.inner
    }
}

impl<V: PartialEq, A: Allocator> PartialEq for RcWithAlloc<V, A> {
    /// Compares the shared values.
    fn eq(&self, other: &Self) -> (r: bool) {
        let a: &V = &self.inner;
        let b: &V = &other.inner;
        a == b
    }
}

impl<V: PartialEq, A: Allocator> PartialEqSpecImpl for RcWithAlloc<V, A> {
    open spec fn obeys_eq_spec() -> bool {
        V::obeys_eq_spec()
    }

    open spec fn eq_spec(&self, other: &Self) -> bool {
        self@.eq_spec(&other@)
    }
}

impl<V, A: Allocator> WeakWithAlloc<V, A> {
    /// A weak pointer to nothing: it never upgrades.
    pub fn new(alloc: A) -> (r: Self)
        ensures
            r.is_dangling(),
            r.alloc_spec() == alloc,
    {
        WeakWithAlloc { link: None, alloc }
    }

    /// Whether this pointer was made pointing to nothing.
    pub closed spec fn is_dangling(&self) -> bool {
        self.link is None
    }

    /// The allocator of this pointer.
    pub closed spec fn alloc_spec(&self) -> A {
        self.alloc
    }

    /// The value shared by the strong pointer this one was made from; for a pointer to
    /// nothing it is left open.
    pub closed spec fn target(&self) -> V {
        self.link.unwrap().shared()
    }

    /// The allocator of this pointer.
    pub fn allocator(&self) -> (r: &A)
        ensures
            *r == self.alloc_spec(),
    {
        &self.alloc
    }

    /// The number of strong pointers to the value; zero where it points to nothing.
    pub fn strong_count(&self) -> (n: usize)
        ensures
            self.is_dangling() ==> n == 0,
    {
        match &self.link {
            None => 0,
            Some(l) => weak_strong_count(l),
        }
    }

    /// The number of weak pointers to the value; zero where it points to nothing or no
    /// strong pointer remains.
    pub fn weak_count(&self) -> (n: usize)
        ensures
            self.is_dangling() ==> n == 0,
    {
        match &self.link {
            None => 0,
            Some(l) => weak_weak_count(l),
        }
    }
}

impl<V, A: Allocator + SafeClone> WeakWithAlloc<V, A> {
    /// A strong pointer to the value, with a copy of the allocator, where the value still
    /// lives: it is then the value this pointer was made from. `None` otherwise. The failure
    /// of the copy is returned.
    pub fn upgrade(&self) -> (r: Result<Option<RcWithAlloc<V, A>>, ContainerError>)
        ensures
            self.is_dangling() ==> r matches Ok(None),
            match r {
                Ok(Some(rc)) => rc@ == self.target() && self.alloc_spec().copy_of(
                    &rc.alloc_spec(),
                ),
                Ok(None) => true,
                Err(e) => !self.is_dangling() && copy_refused(self.alloc_spec(), e),
            },
    {
        match &self.link {
            None => Ok(None),
            Some(l) => match weak_upgrade(l) {
                None => Ok(None),
                Some(inner) => {
                    let alloc = match self.alloc.safe_clone() {
                        Ok(a) => a,
                        Err(e) => {
                            return Err(e);
                        },
                    };
                    Ok(Some(RcWithAlloc { inner, alloc }))
                },
            },
        }
    }
}

impl<V, A: Allocator + SafeClone> SafeClone for WeakWithAlloc<V, A> {
    /// Another weak pointer to the same value, with a copy of the allocator.
    open spec fn copy_of(&self, c: &Self) -> bool {
        c.is_dangling() == self.is_dangling() && (!self.is_dangling() ==> c.target()
            == self.target()) && self.alloc_spec().copy_of(&c.alloc_spec())
    }

    /// Another weak pointer to the value of `other`; where the copy of the allocator
    /// fails, `self` unchanged.
    open spec fn refilled(&self, before: &Self, other: &Self, r: Result<(), ContainerError>) -> bool {
        match r {
            Ok(()) => other.copy_of(self),
            Err(e) => *self == *before && copy_refused(other.alloc_spec(), e),
        }
    }

    /// Another weak pointer to the same value, with a copy of the allocator; the failure
    /// of that copy is returned.
    fn safe_clone(&self) -> (r: Result<Self, ContainerError>)
        ensures
            r matches Err(e) ==> copy_refused(self.alloc_spec(), e),
    {
        let alloc = match self.alloc.safe_clone() {
            Ok(a) => a,
            Err(e) => {
                return Err(e);
            },
        };
        let link = match &self.link {
            None => None,
            Some(l) => Some(weak_share(l)),
        };
        Ok(WeakWithAlloc { link, alloc })
    }

    /// Makes `self` another weak pointer to the value of `other`.
    fn safe_clone_from(&mut self, other: &Self) -> (r: Result<(), ContainerError>) {
        match other.safe_clone() {
            Ok(c) => {
                *self = c;
                Ok(())
            },
            Err(e) => Err(e),
        }
    }
}

/// A weak pointer made by `downgrade` from a strong one and then copied by `safe_clone`
/// upgrades to the value of that strong pointer.
pub proof fn law_upgrade_gives_shared_value<V, A: Allocator + SafeClone>(
    rc: RcWithAlloc<V, A>,
    weak: WeakWithAlloc<V, A>,
    copy: WeakWithAlloc<V, A>,
    up: RcWithAlloc<V, A>,
)
    requires
        !weak.is_dangling(),
        weak.target() == rc@,
        weak.copy_of(&copy),
        up@ == copy.target(),
    ensures
        up@ == rc@,
{
}

} // verus!
