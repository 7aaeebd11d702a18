use std::cell::RefCell;
use std::fmt::Display;
use std::mem::drop;
use ylong::common::{AllocError, Allocator, ContainerError, Global, Layout, SafeClone};
use ylong::rc::{RcWithAlloc, WeakWithAlloc};

#[test]
fn ut_rc_test_simple() {
    let x = RcWithAlloc::new(5, Global).unwrap();
    assert_eq!(*x, 5);
}

#[test]
fn ut_rc_test_simple_clone() {
    let x = RcWithAlloc::new(5, Global).unwrap();
    let y = x.safe_clone().unwrap();
    assert_eq!(*x, 5);
    assert_eq!(*y, 5);
}

#[test]
fn ut_rc_test_destructor() {
    let x: RcWithAlloc<Box<_>, Global> = RcWithAlloc::new(Box::new(5), Global).unwrap();
    assert_eq!(**x, 5);
    assert_eq!(*x.as_ref().as_ref(), 5);
}

#[test]
fn ut_rc_test_live() {
    let x = RcWithAlloc::new(5, Global).unwrap();
    let y = RcWithAlloc::downgrade(&x).unwrap();
    assert!(y.upgrade().unwrap().is_some());
}

#[test]
fn ut_rc_test_dead() {
    let x = RcWithAlloc::new(5, Global).unwrap();
    let y = RcWithAlloc::downgrade(&x).unwrap();
    drop(x);
    assert!(y.upgrade().unwrap().is_none());
}

#[test]
fn ut_rc_is_unique() {
    fn is_unique(rc: &RcWithAlloc<i32, Global>) -> bool {
        RcWithAlloc::strong_count(rc) == 1 && RcWithAlloc::weak_count(rc) == 0
    }
    let x = RcWithAlloc::new(3, Global).unwrap();
    assert!(is_unique(&x));
    let y = x.safe_clone().unwrap();
    assert!(!is_unique(&x));
    drop(y);
    assert!(is_unique(&x));
    let w = RcWithAlloc::downgrade(&x).unwrap();
    assert!(!is_unique(&x));
    drop(w);
    assert!(is_unique(&x));
}

#[test]
fn ut_rc_test_strong_count() {
    let a = RcWithAlloc::new(0, Global).unwrap();
    assert_eq!(RcWithAlloc::strong_count(&a), 1);
    let w = RcWithAlloc::downgrade(&a).unwrap();
    assert_eq!(RcWithAlloc::strong_count(&a), 1);
    let b = w
        .upgrade()
        .unwrap()
        .expect("upgrade of live RcWithAlloc failed");
    assert_eq!(RcWithAlloc::strong_count(&b), 2);
    assert_eq!(RcWithAlloc::strong_count(&a), 2);
    drop(w);
    drop(a);
    assert_eq!(RcWithAlloc::strong_count(&b), 1);
    let c = b.safe_clone().unwrap();
    assert_eq!(RcWithAlloc::strong_count(&b), 2);
    assert_eq!(RcWithAlloc::strong_count(&c), 2);
}

#[test]
fn ut_rc_test_weak_count() {
    let a = RcWithAlloc::new(0, Global).unwrap();
    assert_eq!(RcWithAlloc::strong_count(&a), 1);
    assert_eq!(RcWithAlloc::weak_count(&a), 0);
    let w = RcWithAlloc::downgrade(&a).unwrap();
    assert_eq!(RcWithAlloc::strong_count(&a), 1);
    assert_eq!(RcWithAlloc::weak_count(&a), 1);
    drop(w);
    assert_eq!(RcWithAlloc::strong_count(&a), 1);
    assert_eq!(RcWithAlloc::weak_count(&a), 0);
    let c = a.safe_clone().unwrap();
    assert_eq!(RcWithAlloc::strong_count(&a), 2);
    assert_eq!(RcWithAlloc::weak_count(&a), 0);
    drop(c);
}

#[test]
fn ut_rc_weak_counts() {
    assert_eq!(
        WeakWithAlloc::weak_count(&WeakWithAlloc::<u64, Global>::new(Global)),
        0
    );
    assert_eq!(
        WeakWithAlloc::strong_count(&WeakWithAlloc::<u64, Global>::new(Global)),
        0
    );

    let a = RcWithAlloc::new(0, Global).unwrap();
    let w = RcWithAlloc::downgrade(&a).unwrap();
    assert_eq!(WeakWithAlloc::strong_count(&w), 1);
    assert_eq!(WeakWithAlloc::weak_count(&w), 1);
    let w2 = w.safe_clone().unwrap();
    assert_eq!(WeakWithAlloc::strong_count(&w), 1);
    assert_eq!(WeakWithAlloc::weak_count(&w), 2);
    assert_eq!(WeakWithAlloc::strong_count(&w2), 1);
    assert_eq!(WeakWithAlloc::weak_count(&w2), 2);
    drop(w);
    assert_eq!(WeakWithAlloc::strong_count(&w2), 1);
    assert_eq!(WeakWithAlloc::weak_count(&w2), 1);
    let a2 = a.safe_clone().unwrap();
    assert_eq!(WeakWithAlloc::strong_count(&w2), 2);
    assert_eq!(WeakWithAlloc::weak_count(&w2), 1);
    drop(a2);
    drop(a);
    assert_eq!(WeakWithAlloc::strong_count(&w2), 0);
    assert_eq!(WeakWithAlloc::weak_count(&w2), 0);
    drop(w2);
}

#[test]
fn ut_rc_try_unwrap() {
    let x = RcWithAlloc::new(3, Global).unwrap();
    let val = RcWithAlloc::try_unwrap_with_alloc(x).unwrap().0;
    assert_eq!(val, 3);
    let x = RcWithAlloc::new(4, Global).unwrap();
    let _y = x.safe_clone().unwrap();
    let val = RcWithAlloc::try_unwrap_with_alloc(x).err().unwrap();
    assert_eq!(val, RcWithAlloc::new(4, Global).unwrap());
    let x = RcWithAlloc::new(5, Global).unwrap();
    let _w = RcWithAlloc::downgrade(&x).unwrap();
    let val = RcWithAlloc::try_unwrap_with_alloc(x).unwrap().0;
    assert_eq!(val, 5);
}

#[test]
fn ut_rc_into_inner() {
    let x = RcWithAlloc::new(3, Global).unwrap();
    assert_eq!(RcWithAlloc::into_inner(x), Some(3));

    let x = RcWithAlloc::new(4, Global).unwrap();
    let y = RcWithAlloc::safe_clone(&x).unwrap();
    assert_eq!(RcWithAlloc::into_inner(x), None);
    assert_eq!(RcWithAlloc::into_inner(y), Some(4));

    let x = RcWithAlloc::new(5, Global).unwrap();
    let _w = RcWithAlloc::downgrade(&x).unwrap();
    assert_eq!(RcWithAlloc::into_inner(x), Some(5));
}

#[test]
fn ut_rc_get_mut() {
    let mut x = RcWithAlloc::new(3, Global).unwrap();
    *RcWithAlloc::get_mut(&mut x).unwrap() = 4;
    assert_eq!(*x, 4);
    let y = x.safe_clone().unwrap();
    assert!(RcWithAlloc::get_mut(&mut x).is_none());
    drop(y);
    assert!(RcWithAlloc::get_mut(&mut x).is_some());
    let _w = RcWithAlloc::downgrade(&x).unwrap();
    assert!(RcWithAlloc::get_mut(&mut x).is_none());
}

#[test]
fn ut_rc_test_clone() {
    let x = RcWithAlloc::new(RefCell::new(5), Global).unwrap();
    let y = x.safe_clone().unwrap();
    *(*x).borrow_mut() = 20;
    assert_eq!(*y.borrow(), 20);
}

#[test]
fn ut_rc_test_cowrc_clone_make_unique() {
    let mut cow0 = RcWithAlloc::new(75, Global).unwrap();
    let mut cow1 = cow0.safe_clone().unwrap();
    let mut cow2 = cow1.safe_clone().unwrap();

    assert_eq!(75, *RcWithAlloc::make_mut(&mut cow0).unwrap());
    assert_eq!(75, *RcWithAlloc::make_mut(&mut cow1).unwrap());
    assert_eq!(75, *RcWithAlloc::make_mut(&mut cow2).unwrap());

    *RcWithAlloc::make_mut(&mut cow0).unwrap() += 1;
    *RcWithAlloc::make_mut(&mut cow1).unwrap() += 2;
    *RcWithAlloc::make_mut(&mut cow2).unwrap() += 3;

    assert_eq!(76, *cow0);
    assert_eq!(77, *cow1);
    assert_eq!(78, *cow2);

    assert_ne!(*cow0, *cow1);
    assert_ne!(*cow0, *cow2);
    assert_ne!(*cow1, *cow2);
}

#[test]
fn ut_rc_test_cowrc_clone_unique2() {
    let mut cow0 = RcWithAlloc::new(75, Global).unwrap();
    let cow1 = cow0.safe_clone().unwrap();
    let cow2 = cow1.safe_clone().unwrap();

    assert_eq!(75, *cow0);
    assert_eq!(75, *cow1);
    assert_eq!(75, *cow2);

    *RcWithAlloc::make_mut(&mut cow0).unwrap() += 1;

    assert_eq!(76, *cow0);
    assert_eq!(75, *cow1);
    assert_eq!(75, *cow2);

    assert_ne!(*cow0, *cow1);
    assert_ne!(*cow0, *cow2);
    assert_eq!(*cow1, *cow2);
}

#[test]
fn ut_rc_test_cowrc_clone_weak() {
    let mut cow0 = RcWithAlloc::new(75, Global).unwrap();
    let cow1_rc = RcWithAlloc::downgrade(&cow0).unwrap();

    assert_eq!(75, *cow0);
    assert_eq!(75, *cow1_rc.upgrade().unwrap().unwrap());

    *(RcWithAlloc::make_mut(&mut cow0).unwrap()) += 1;

    assert_eq!(76, *cow0);
    assert!(cow1_rc.upgrade().unwrap().is_none());
}

#[test]
fn ut_rc_test_unsized() {
    let foo = RcWithAlloc::new([1, 2, 3], Global).unwrap();
    assert_eq!(foo, foo.safe_clone().unwrap());
}

#[test]
fn ut_rc_test_new_weak() {
    let foo: WeakWithAlloc<usize, Global> = WeakWithAlloc::new(Global);
    assert!(foo.upgrade().unwrap().is_none());
}

#[test]
fn ut_rc_test_from_str() {
    let r = RcWithAlloc::new("foo", Global).unwrap();

    assert_eq!(&r[..], "foo");
}

#[test]
fn ut_rc_test_copy_from_slice() {
    let s: &[u32] = &[1, 2, 3];
    let r = RcWithAlloc::new(s, Global).unwrap();

    assert_eq!(&r[..], [1, 2, 3]);
}

#[test]
fn ut_rc_test_clone_from_slice() {
    #[derive(Clone, Debug, Eq, PartialEq)]
    struct X(u32);

    let s: &[X] = &[X(1), X(2), X(3)];
    let r = RcWithAlloc::new(s, Global).unwrap();

    assert_eq!(&r[..], s);
}

#[test]
fn ut_rc_test_from_box() {
    let b: Box<u32> = Box::new(123);
    let r = RcWithAlloc::new(b, Global).unwrap();

    assert_eq!(**r, 123);
}

#[test]
fn ut_rc_test_from_box_str() {
    let s = String::from("foo").into_boxed_str();
    let r = RcWithAlloc::new(s, Global).unwrap();

    assert_eq!(&r[..], "foo");
}

#[test]
fn ut_rc_test_from_box_slice() {
    let s = vec![1, 2, 3].into_boxed_slice();
    let r = RcWithAlloc::new(s, Global).unwrap();

    assert_eq!(r[..], [1, 2, 3]);
}

#[test]
fn ut_rc_test_from_box_trait() {
    let b: Box<dyn Display> = Box::new(123);
    let r = RcWithAlloc::new(b, Global).unwrap();

    assert_eq!(r.to_string(), "123");
}

#[test]
fn ut_rc_test_from_vec() {
    let v = vec![1, 2, 3];
    let r = RcWithAlloc::new(v, Global).unwrap();

    assert_eq!(&r[..], [1, 2, 3]);
}

#[test]
fn sdv_rc_cycle() {
    struct Cycle {
        strong: RcWithAlloc<u32, Global>,
        weak: WeakWithAlloc<u32, Global>,
    }

    let x = RcWithAlloc::new(3, Global).unwrap();
    let weak = RcWithAlloc::downgrade(&x).unwrap();
    let c = Cycle { strong: x, weak };
    let c_rc = RcWithAlloc::new(c, Global).unwrap();
    assert_eq!(RcWithAlloc::strong_count(&c_rc), 1);
    assert_eq!(RcWithAlloc::weak_count(&c_rc), 0);
    let (c, _) = RcWithAlloc::into_inner_with_alloc(c_rc).unwrap();
    assert_eq!(*c.strong, 3);
    assert_eq!(WeakWithAlloc::strong_count(&c.weak), 1);
    assert_eq!(WeakWithAlloc::weak_count(&c.weak), 1);
    let another_weak = RcWithAlloc::downgrade(&c.strong).unwrap();
    drop(c);
    assert!(another_weak.upgrade().unwrap().is_none());
}

#[test]
fn sdv_rc_weak_may_dangle() {
    fn hmm<'a>(val: &'a mut WeakWithAlloc<&'a str, Global>) -> WeakWithAlloc<&'a str, Global> {
        val.safe_clone().unwrap()
    }

    let mut val = WeakWithAlloc::new(Global);
    hmm(&mut val);
}

#[test]
fn sdv_rc_float_nan_ne() {
    let x = RcWithAlloc::new(f32::NAN, Global).unwrap();
    assert_ne!(x, x);
    assert!(!(x == x));
}

#[derive(Clone)]
struct AllocatorAlwaysFail;

impl Allocator for AllocatorAlwaysFail {
    fn allocate(&self, _layout: Layout) -> Result<(), AllocError> {
        Err(AllocError)
    }
}

#[test]
fn sdv_rc_with_alloc_always_fail() {
    match RcWithAlloc::new(3, AllocatorAlwaysFail).err().unwrap() {
        ContainerError::AllocFailure(_) => {}
        _ => panic!(),
    }
}

#[test]
fn sdv_rc_usage() {
    let x = RcWithAlloc::new(3, Global).unwrap();
    let x2 = x.safe_clone().unwrap();
    assert_eq!(RcWithAlloc::strong_count(&x), 2);
    assert_eq!(RcWithAlloc::weak_count(&x), 0);
    let w = RcWithAlloc::downgrade(&x).unwrap();
    let w2 = w.safe_clone().unwrap();
    assert_eq!(RcWithAlloc::weak_count(&x), 2);
    let mut x3 = RcWithAlloc::new(6, Global).unwrap();
    assert_eq!(*x3.as_ref(), 6);
    x3.safe_clone_from(&x2).unwrap();
    assert_eq!(*x3.as_ref(), 3);
    assert_eq!(RcWithAlloc::strong_count(&x), 3);
    let mut x4 = w.upgrade().unwrap().unwrap();
    assert_eq!(RcWithAlloc::strong_count(&x), 4);
    assert_eq!(RcWithAlloc::weak_count(&x), 2);

    assert_eq!(RcWithAlloc::strong_count(&x4), 4);
    *RcWithAlloc::make_mut(&mut x4).unwrap() = 1;
    assert_eq!(*x4, 1);
    assert_eq!(RcWithAlloc::strong_count(&x4), 1);
    assert_eq!(RcWithAlloc::weak_count(&x4), 0);

    assert!(RcWithAlloc::into_inner_with_alloc(x).is_none());
    assert_eq!(RcWithAlloc::strong_count(&x2), 2);
    assert!(RcWithAlloc::try_unwrap_with_alloc(x2).is_err());
    assert_eq!(RcWithAlloc::strong_count(&x3), 1);
    assert_eq!(RcWithAlloc::weak_count(&x3), 2);
    let x5 = x3.safe_clone().unwrap();
    assert!(RcWithAlloc::into_inner(x5).is_none());

    assert!(RcWithAlloc::get_mut(&mut x3).is_none());
    drop(w);
    drop(w2);
    assert!(RcWithAlloc::get_mut(&mut x3).is_some());
    *RcWithAlloc::get_mut(&mut x3).unwrap() = 5;
    assert_eq!(RcWithAlloc::into_inner(x3).unwrap(), 5);

    assert_eq!(*x4, 1);
    let w = RcWithAlloc::downgrade(&x4).unwrap();
    assert_eq!(RcWithAlloc::strong_count(&x4), 1);
    assert_eq!(RcWithAlloc::weak_count(&x4), 1);
    *RcWithAlloc::make_mut(&mut x4).unwrap() = 2;
    assert_eq!(*x4, 2);
    assert_eq!(RcWithAlloc::strong_count(&x4), 1);
    assert_eq!(RcWithAlloc::weak_count(&x4), 0);

    assert!(w.upgrade().unwrap().is_none());
    assert_eq!(WeakWithAlloc::strong_count(&w), 0);
    assert_eq!(WeakWithAlloc::weak_count(&w), 0);
}

#[test]
fn rc_make_mut_refused_block_leaves_the_pointer() {
    #[derive(Clone)]
    struct Picky(std::rc::Rc<std::cell::Cell<bool>>);
    impl Allocator for Picky {
        fn allocate(&self, _layout: Layout) -> Result<(), AllocError> {
            if self.0.get() {
                Ok(())
            } else {
                Err(AllocError)
            }
        }
    }
    let open = std::rc::Rc::new(std::cell::Cell::new(true));
    let mut x = RcWithAlloc::new(9, Picky(open.clone())).unwrap();
    let w = RcWithAlloc::downgrade(&x).unwrap();
    open.set(false);
    assert!(matches!(RcWithAlloc::make_mut(&mut x), Err(ContainerError::AllocFailure(_))));
    assert_eq!(*x, 9);
    assert!(w.upgrade().unwrap().is_some());
}

struct TestPEq(RefCell<usize>);

impl PartialEq for TestPEq {
    fn eq(&self, other: &TestPEq) -> bool {
        *self.0.borrow_mut() += 1;
        *other.0.borrow_mut() += 1;
        true
    }
}

#[test]
fn sdv_rc_partial_eq() {
    let x = RcWithAlloc::new(TestPEq(RefCell::new(0)), Global).unwrap();
    assert!(x == x);
    assert!(!(x != x));
    assert_eq!(*x.0.borrow(), 4);
}

#[test]
fn sdv_rc_dangling() {
    let w: WeakWithAlloc<(), Global> = WeakWithAlloc::new(Global);
    assert!(w.upgrade().unwrap().is_none());
    assert_eq!(WeakWithAlloc::strong_count(&w), 0);
    assert_eq!(WeakWithAlloc::weak_count(&w), 0);
    let w2 = w.safe_clone().unwrap();
    assert!(w2.upgrade().unwrap().is_none());
    assert_eq!(WeakWithAlloc::strong_count(&w2), 0);
    assert_eq!(*w2.allocator(), Global);
}

#[test]
fn rc_weak_copy_upgrades_to_shared_value() {
    let strong = RcWithAlloc::new(String::from("shared"), Global).unwrap();
    let weak = RcWithAlloc::downgrade(&strong).unwrap();
    let copy = weak.safe_clone().unwrap();
    let up = copy.upgrade().unwrap().unwrap();
    assert_eq!(*up, "shared");
    assert_eq!(*weak.upgrade().unwrap().unwrap(), *strong);
}
