use std::cell::Cell;
use std::ops::Deref;
use std::rc::Rc;
use ylong::boxed::AllocatorBox;
use ylong::common::{AllocError, Allocator, ContainerError, Global, Layout, SafeClone};

#[derive(Clone)]
struct FailAllocator;

impl Allocator for FailAllocator {
    fn allocate(&self, _layout: Layout) -> Result<(), AllocError> {
        Err(AllocError)
    }
}

#[derive(Debug)]
struct Temp {
    value: i32,
}

impl Temp {
    fn new(value: i32) -> Self {
        Temp { value }
    }

    fn get(&self) -> i32 {
        self.value
    }

    fn get_value(&self) -> i32 {
        self.value
    }

    fn set_value(&mut self, x: i32) {
        self.value = x;
    }
}

#[derive(Debug)]
struct ZSTTemp;

#[derive(Debug, Clone)]
struct ZSTTempC;

#[derive(Debug, Clone)]
struct TempC {
    value: i32,
}

#[test]
fn ut_box_new() {
    let b = AllocatorBox::new(1, Global);
    assert!(b.is_ok());

    let b = AllocatorBox::new(1, FailAllocator);
    assert!(b.is_err());
}

#[test]
fn ut_box_new_zst() {
    let b = AllocatorBox::new(ZSTTemp, Global);
    assert!(b.is_ok());

    let b = AllocatorBox::new(ZSTTemp, FailAllocator);
    assert!(b.is_ok())
}

#[test]
fn ut_box_into_inner() {
    let b = AllocatorBox::new(Temp { value: 10 }, Global).unwrap();
    let t = AllocatorBox::into_inner(b);
    assert_eq!(t.value, 10);
}

#[test]
fn ut_box_into_inner_zst() {
    let b = AllocatorBox::new(ZSTTemp, Global).unwrap();
    let _t: ZSTTemp = AllocatorBox::into_inner(b);
}

#[test]
fn ut_box_allocator() {
    let b = AllocatorBox::new(Temp { value: 10 }, Global).unwrap();
    let _alloc: &Global = AllocatorBox::allocator(&b);
}

#[test]
fn ut_box_as_ref() {
    let b = AllocatorBox::new(Temp { value: 10 }, Global).unwrap();
    let r: &Temp = b.as_ref();
    assert_eq!(r.get(), 10);
}

#[test]
fn ut_box_as_mut() {
    let mut b = AllocatorBox::new(Temp { value: 10 }, Global).unwrap();
    let r: &mut Temp = b.as_mut();
    assert_eq!(r.get(), 10);
    r.value = 20;
    assert_eq!(r.get(), 20);
}

#[test]
fn ut_box_deref() {
    let b = AllocatorBox::new(Temp { value: 10 }, Global).unwrap();
    let r: &Temp = b.deref();
    assert_eq!(r.get(), 10);
}

#[test]
fn ut_box_deref_mut() {
    let mut b = AllocatorBox::new(Temp { value: 10 }, Global).unwrap();
    let r: &mut Temp = b.as_mut();
    assert_eq!(r.get(), 10);
    r.value = 20;
    assert_eq!(r.get(), 20);
}

#[test]
fn ut_box_safe_clone() {
    let mut b = AllocatorBox::new(TempC { value: 10 }, Global).unwrap();
    let mut clone = b.safe_clone().unwrap();
    assert_eq!(clone.value, 10);
    b.as_mut().value = 20;
    let _ = clone.safe_clone_from(&b);
    assert_eq!(clone.value, 20);
}

#[test]
fn ut_box_safe_clone_zst() {
    let b = AllocatorBox::new(ZSTTempC, FailAllocator).unwrap();
    let clone = b.safe_clone();
    assert!(clone.is_ok());
}

#[test]
fn sdv_box_auto_deref() {
    let t = Temp { value: 10 };
    let b = AllocatorBox::new(t, Global).unwrap();

    assert_eq!(b.get_value(), 10);
}

#[test]
fn sdv_box_deref_lval() {
    let mut x = Box::new(Temp::new(5));
    x.set_value(1000);
    assert_eq!(x.get_value(), 1000);
}

struct DropCounter2 {
    count: u32,
    hits: Rc<Cell<usize>>,
}

impl Drop for DropCounter2 {
    fn drop(&mut self) {
        println!("drop {}", self.count);
        self.hits.set(self.hits.get() + 1);
    }
}

struct DropCounter {
    _v: DropCounter2,
    count: u32,
    hits: Rc<Cell<usize>>,
}

impl Drop for DropCounter {
    fn drop(&mut self) {
        println!("drop {}", self.count);
        self.hits.set(self.hits.get() + 1);
    }
}

#[test]
fn sdv_box_drop() {
    let flag = Rc::new(Cell::new(0usize));
    let flag2 = Rc::new(Cell::new(0usize));
    let d1 = DropCounter {
        _v: DropCounter2 { count: 0, hits: flag2.clone() },
        count: 0,
        hits: flag.clone(),
    };
    let b1 = AllocatorBox::new(d1, Global);
    drop(b1);

    {
        let d2 = DropCounter {
            _v: DropCounter2 { count: 0, hits: flag2.clone() },
            count: 0,
            hits: flag.clone(),
        };
        let _b1 = AllocatorBox::new(d2, Global);
    }

    assert_eq!(flag.get(), 2);
    assert_eq!(flag2.get(), 2);
}

#[derive(Clone)]
struct ConditionFailAllocator {
    cnt: Rc<Cell<i32>>,
}

impl Allocator for ConditionFailAllocator {
    fn allocate(&self, _layout: Layout) -> Result<(), AllocError> {
        if self.cnt.get() == 1 {
            Ok(())
        } else {
            Err(AllocError)
        }
    }
}

#[test]
fn sdv_box_safe_clone_failed() {
    let x = Rc::new(Cell::new(1));
    let alloc = ConditionFailAllocator { cnt: x.clone() };

    let b = AllocatorBox::new(TempC { value: 10 }, alloc).unwrap();
    x.set(0);
    let clone = b.safe_clone();
    assert!(clone.is_err());
    assert_eq!(b.value, 10);
}

struct Loud {
    value: i32,
}

impl Drop for Loud {
    fn drop(&mut self) {
        println!("value : {}", self.value);
    }
}

#[test]
fn sdv_box_may_dangle() {
    let t = Loud { value: 123 };
    let _b = AllocatorBox::new(&t, Global);
    drop(t);
}

#[derive(Clone)]
struct DropAllocator {
    hits: Rc<Cell<usize>>,
}

impl Allocator for DropAllocator {
    fn allocate(&self, _layout: Layout) -> Result<(), AllocError> {
        Ok(())
    }
}

impl Drop for DropAllocator {
    fn drop(&mut self) {
        self.hits.set(self.hits.get() + 1);
    }
}

struct CountedValue {
    count: u32,
    hits: Rc<Cell<usize>>,
}

impl Drop for CountedValue {
    fn drop(&mut self) {
        println!("drop {}", self.count);
        self.hits.set(self.hits.get() + 1);
    }
}

#[test]
fn sdv_box_into_inner_drop() {
    let flag1 = Rc::new(Cell::new(0usize));
    let flag2 = Rc::new(Cell::new(0usize));
    {
        let d = CountedValue { count: 123, hits: flag1.clone() };
        let alloc = DropAllocator { hits: flag2.clone() };
        let b = AllocatorBox::new(d, alloc).unwrap();
        let d2 = AllocatorBox::into_inner(b);
        assert_eq!(d2.count, 123);

        assert_eq!(flag1.get(), 0);
        assert_eq!(flag2.get(), 1);
        drop(d2);
        assert_eq!(flag1.get(), 1);
    }
}

#[derive(Debug)]
enum List<T> {
    Cons(T, AllocatorBox<List<T>, Global>),
    Nil,
}

#[test]
fn sdv_box_recursive() {
    let list: List<i32> = List::Cons(
        1,
        AllocatorBox::new(
            List::Cons(2, AllocatorBox::new(List::Nil, Global).unwrap()),
            Global,
        )
        .unwrap(),
    );
    println!("{list:?}");
    match list {
        List::Cons(v, node) => {
            assert_eq!(v, 1);
            match AllocatorBox::into_inner(node) {
                List::Cons(v, node) => {
                    assert_eq!(v, 2);
                    match AllocatorBox::into_inner(node) {
                        List::Cons(_v, _node) => {
                            unreachable!()
                        }
                        List::Nil => {}
                    }
                }
                List::Nil => {
                    unreachable!()
                }
            }
        }
        List::Nil => {
            unreachable!()
        }
    }
}

#[test]
fn sdv_box_clone_allocator() {
    let flag = Rc::new(Cell::new(0usize));
    {
        let _b = AllocatorBox::new(1, DropAllocator { hits: flag.clone() });
    }
    assert_eq!(flag.get(), 1);

    {
        let b = AllocatorBox::new(1, DropAllocator { hits: flag.clone() }).unwrap();
        let _b2 = b.safe_clone();
    }
    assert_eq!(flag.get(), 3);
}

#[test]
fn box_refused_allocation_reports_the_layout() {
    match AllocatorBox::new(7u64, FailAllocator) {
        Err(ContainerError::AllocFailure(l)) => {
            assert_eq!(l, Layout { size: 8, align: 8 });
        }
        _ => panic!(),
    }
}

#[test]
fn box_with_grant_follows_the_answer() {
    let b = AllocatorBox::with_grant(5u8, Global, Ok(())).unwrap();
    assert_eq!(*b, 5);
    match AllocatorBox::with_grant(5u8, Global, Err(AllocError)) {
        Err(ContainerError::AllocFailure(l)) => assert_eq!(l, Layout { size: 1, align: 1 }),
        _ => panic!(),
    }
}

#[test]
fn layout_array_refuses_oversized_tables() {
    assert_eq!(Layout::array::<u32>(4), Some(Layout { size: 16, align: 4 }));
    assert_eq!(Layout::array::<u64>(usize::MAX / 4), None);
}
