//! A box placed on the heap once an allocator of the caller's choice granted its block;
//! the allocator decides whether the block may be had, and the memory comes from the
//! global allocator.
use vstd::prelude::*;
use crate::common::{block_granted, block_refused, copy_refused, AllocError, Allocator, ContainerError, Layout, SafeClone};

verus! {

/// A value on the heap, placed there once its allocator granted the block.
#[derive(Debug)]
pub struct AllocatorBox<T, A: Allocator> {
    value: Box<T>,
    alloc: A,
}

/// The block that a value of type `T` takes: none when `T` has size zero.
pub open spec fn needs_block<T>() -> bool {
    vstd::layout::size_of::<T>() != 0
}

/// The layout of one value of type `T`.
pub open spec fn layout_of<T>() -> Layout {
    Layout {
        size: vstd::layout::size_of::<T>() as usize,
        align: vstd::layout::align_of::<T>() as usize,
    }
}

impl<T, A: Allocator> View for AllocatorBox<T, A> {
    type V = T;

    /// The boxed value.
    closed spec fn view(&self) -> T {
        *self.value
    }
}

impl<T, A: Allocator> AllocatorBox<T, A> {
    /// The allocator of the box.
    pub closed spec fn alloc_spec(&self) -> A {
        self.alloc
    }

    /// Boxes `x` with `alloc`, once the allocator answered `grant` to the request for the
    /// block of `x`; a refusal is reported with the layout asked for.
    pub fn with_grant(x: T, alloc: A, grant: Result<(), AllocError>) -> (r: Result<
        Self,
        ContainerError,
    >)
        ensures
            match grant {
                Ok(()) => r matches Ok(b) && b@ == x && b.alloc_spec() == alloc,
                Err(_) => r == Err::<Self, ContainerError>(
                    ContainerError::AllocFailure(layout_of::<T>()),
                ),
            },
    {
        match grant {
            Ok(()) => Ok(AllocatorBox { value: Box::new(x), alloc }),
            Err(_) => Err(ContainerError::AllocFailure(Layout::new::<T>())),
        }
    }

    /// Boxes `x` with `alloc`. A value of size zero takes no block, and the allocator is
    /// not asked; otherwise the allocator is asked for the layout of `T`, and a refusal is
    /// reported with that layout.
    pub fn new(x: T, alloc: A) -> (r: Result<Self, ContainerError>)
        ensures
            match r {
                Ok(b) => b@ == x && b.alloc_spec() == alloc && (needs_block::<T>() ==> block_granted(
                    alloc,
                    layout_of::<T>(),
                )),
                Err(e) => needs_block::<T>() && e == ContainerError::AllocFailure(layout_of::<T>())
                    && block_refused(alloc, layout_of::<T>()),
            },
            !needs_block::<T>() ==> r is Ok,
    {
        if core::mem::size_of::<T>() == 0 {
            return Ok(AllocatorBox { value: Box::new(x), alloc });
        }
        let layout = Layout::new::<T>();
        let grant = alloc.allocate(layout);
        match grant {
            Ok(u) => {
                assert(u == ());
                assert(grant == Ok::<(), AllocError>(()));
            },
            Err(f) => {
                assert(f == AllocError);
                assert(grant == Err::<(), AllocError>(AllocError));
            },
        }
        Self::with_grant(x, alloc, grant)
    }

    /// Takes the value out of the box, which releases its block.
    pub fn into_inner(boxed: Self) -> (r: T)
        ensures
            r == boxed@,
    {
        *boxed.value
    }

    /// The allocator of the box.
    pub fn allocator(b: &Self) -> (r: &A)
        ensures
            *r == b.alloc_spec(),
    {
        &b.alloc
    }

    /// The boxed value.
    pub fn as_ref(&self) -> (r: &T)
        ensures
            *r == self@,
    {
        &self.value
    }

    /// The boxed value, to be changed in place.
    pub fn as_mut(&mut self) -> (r: &mut T)
        ensures
            *r == old(self)@,
            final(self)@ == *final(r),
            final(self).alloc_spec() == old(self).alloc_spec(),
    {
        &mut *self.value
    }
}

impl<T, A: Allocator> core::ops::Deref for AllocatorBox<T, A> {
    type Target = T;

    /// The boxed value.
    fn deref(&self) -> (r: &T)
        ensures
            *r == self@,
    {
        &self.value
    }
}

impl<T: SafeClone, A: Allocator + SafeClone> SafeClone for AllocatorBox<T, A> {
    /// A box with a copy of the allocator and a copy of the value.
    open spec fn copy_of(&self, c: &Self) -> bool {
        self.alloc_spec().copy_of(&c.alloc_spec()) && self@.copy_of(&c@)
    }

    /// The box keeps its allocator, and its value is refilled from the value of `other`.
    open spec fn refilled(&self, before: &Self, other: &Self, r: Result<(), ContainerError>) -> bool {
        self.alloc_spec() == before.alloc_spec() && self@.refilled(&before@, &other@, r)
    }

    /// Clones the allocator, asks it for the block of the copy unless `T` has size zero,
    /// and clones the value into it; the first failure is returned.
    fn safe_clone(&self) -> (r: Result<Self, ContainerError>)
        ensures
            r matches Ok(c) ==> (needs_block::<T>() ==> block_granted(c.alloc_spec(), layout_of::<T>())),
            r matches Err(e) ==> {
                ||| copy_refused(self.alloc_spec(), e)
                ||| needs_block::<T>() && e == ContainerError::AllocFailure(layout_of::<T>())
                    && exists|a: A|
                    self.alloc_spec().copy_of(&a) && #[trigger] block_refused(a, layout_of::<T>())
                ||| copy_refused(self@, e)
            },
    {
        let alloc = match self.alloc.safe_clone() {
            Ok(a) => a,
            Err(e) => {
                return Err(e);
            },
        };
        if core::mem::size_of::<T>() != 0 {
            let layout = Layout::new::<T>();
            let grant = alloc.allocate(layout);
            match grant {
                Ok(u) => {
                    assert(u == () && layout == layout_of::<T>());
                    assert(grant == Ok::<(), AllocError>(()));
                },
                Err(x) => {
                    assert(x == AllocError && layout == layout_of::<T>());
                    assert(block_refused(alloc, layout_of::<T>()));
                    return Err(ContainerError::AllocFailure(layout));
                },
            }
        }
        let inner: &T = &self.value;
        let v = match inner.safe_clone() {
            Ok(v) => v,
            Err(e) => {
                return Err(e);
            },
        };
        Ok(AllocatorBox { value: Box::new(v), alloc })
    }

    /// Clones the value of `source` into the block of this box.
    fn safe_clone_from(&mut self, source: &Self) -> (r: Result<(), ContainerError>) {
        let src: &T = &source.value;
        let dst: &mut T = &mut *self.value;
        dst.safe_clone_from(src)
    }
}

} // verus!
