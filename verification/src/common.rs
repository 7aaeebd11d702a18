//! What the containers share: their error type, memory layouts, the allocators that grant
//! their blocks of memory, and cloning that may fail.
use vstd::prelude::*;

verus! {

/// The size and alignment of a block of memory.
#[derive(Clone, Copy, Debug, PartialEq, Eq, Structural)]
pub struct Layout {
    pub size: usize,
    pub align: usize,
}

impl Layout {
    /// The layout of one value of type `T`.
    pub fn new<T>() -> (l: Layout)
        ensures
            l.size as nat == vstd::layout::size_of::<T>(),
            l.align as nat == vstd::layout::align_of::<T>(),
    {
        Layout { size: core::mem::size_of::<T>(), align: core::mem::align_of::<T>() }
    }

    /// The layout of `n` values of type `T` side by side; `None` where its size does not fit
    /// in an `isize`.
    pub fn array<T>(n: usize) -> (r: Option<Layout>)
        ensures
            match r {
                Some(l) => l.size == n * vstd::layout::size_of::<T>() && l.align as nat
                    == vstd::layout::align_of::<T>() && l.size <= isize::MAX,
                None => n * vstd::layout::size_of::<T>() > isize::MAX,
            },
    {
        let one = core::mem::size_of::<T>();
        match n.checked_mul(one) {
            Some(size) => {
                if size <= isize::MAX as usize {
                    Some(Layout { size, align: core::mem::align_of::<T>() })
                } else {
                    None
                }
            },
            None => None,
        }
    }
}

/// The errors of the containers.
#[derive(Debug)]
pub enum ContainerError {
    /// The allocator refused a block of this layout.
    AllocFailure(Layout),
    /// A layout could not be formed.
    LayoutError,
    /// A capacity is too large to be laid out.
    CapacityOverflow,
    /// The container holds as many items as it may.
    Full,
    /// An index is out of range.
    IndexInvalid,
    /// An error raised by the user, with its message.
    Custom(String),
    /// A state that should not occur.
    Unlikely,
}

/// An allocator refused a block.
#[derive(Clone, Copy, Debug, PartialEq, Eq, Structural)]
pub struct AllocError;

/// Where the containers take their memory from: asked for every block that a container
/// places, it grants the block or refuses it.
pub trait Allocator {
    /// Asks for a block of the given layout.
    fn allocate(&self, layout: Layout) -> Result<(), AllocError>;
}

/// The global allocator of the process, which grants every block.
#[derive(Clone, Copy, Debug, PartialEq, Eq, Structural)]
pub struct Global;

impl Allocator for Global {
    fn allocate(&self, layout: Layout) -> (r: Result<(), AllocError>)
        ensures
            r is Ok,
    {
        Ok(())
    }
}

/// The allocator of the operating system, which grants every block.
#[derive(Clone, Copy, Debug, PartialEq, Eq, Structural)]
pub struct System;

impl Allocator for System {
    fn allocate(&self, layout: Layout) -> (r: Result<(), AllocError>)
        ensures
            r is Ok,
    {
        Ok(())
    }
}

/// Whether asking allocator `a` for a block of layout `l` can be refused.
pub open spec fn block_refused<A: Allocator>(a: A, l: Layout) -> bool {
    call_ensures(A::allocate, (&a, l), Err::<(), AllocError>(AllocError))
}

/// Whether asking allocator `a` for a block of layout `l` can be granted.
pub open spec fn block_granted<A: Allocator>(a: A, l: Layout) -> bool {
    call_ensures(A::allocate, (&a, l), Ok::<(), AllocError>(()))
}

/// Whether copying `a` with `safe_clone` can fail with `e`.
pub open spec fn copy_refused<A: SafeClone>(a: A, e: ContainerError) -> bool {
    call_ensures(A::safe_clone, (&a,), Err::<A, ContainerError>(e))
}

/// Cloning that reports a failure in place of aborting.
pub trait SafeClone: Sized {
    /// Whether `c` is a copy of `self`, as `safe_clone` makes one.
    spec fn copy_of(&self, c: &Self) -> bool;

    /// Returns a copy of `self`.
    fn safe_clone(&self) -> (r: Result<Self, ContainerError>)
        ensures
            r matches Ok(c) ==> self.copy_of(&c),
    ;

    /// Whether `self` is what `safe_clone_from(other)` makes of `before` when it answers
    /// `r`.
    spec fn refilled(&self, before: &Self, other: &Self, r: Result<(), ContainerError>) -> bool;

    /// Makes `self` a copy of `other`.
    fn safe_clone_from(&mut self, other: &Self) -> (r: Result<(), ContainerError>)
        ensures
            final(self).refilled(old(self), other, r),
    ;
}

impl<T: Clone> SafeClone for T {
    /// A clone of the value.
    open spec fn copy_of(&self, c: &Self) -> bool {
        cloned::<T>(*self, *c)
    }

    /// A clone of `other`, made without failure.
    open spec fn refilled(&self, before: &Self, other: &Self, r: Result<(), ContainerError>) -> bool {
        r is Ok && cloned::<T>(*other, *self)
    }

    /// Clones the value; this never fails.
    fn safe_clone(&self) -> (r: Result<Self, ContainerError>)
        ensures
            r matches Ok(c) && cloned::<T>(*self, c),
    {
        Ok(self.clone())
    }

    /// Replaces `self` with a clone of `other`; this never fails.
    fn safe_clone_from(&mut self, other: &Self) -> (r: Result<(), ContainerError>)
        ensures
            r is Ok,
            cloned::<T>(*other, *final(self)),
    {
        *self = other.clone();
        Ok(())
    }
}

} // verus!
