//! The reference-counting discipline the lists are built on.
//!
//! [`PointerFamily`] is the uniform interface over thread-local and atomic
//! reference counting. To the verifier a counted pointer is the value it
//! holds: sharing is invisible in specifications, and the only operation that
//! writes through a pointer, [`PointerFamily::make_mut`], copies first when the
//! value is shared.

use std::rc::Rc;
use std::sync::Arc;
use vstd::prelude::*;

verus! {

/// `Rc::try_unwrap`: the value when this is the only handle, and the handle
/// back otherwise. It never panics.
#[verifier::external_body]
pub(crate) fn rc_try_unwrap<T>(this: Rc<T>) -> (r: Result<T, Rc<T>>)
    ensures
        match r {
            Ok(value) => value == *this,
            Err(same) => same == this,
        },
    opens_invariants none
    no_unwind
{
    Rc::try_unwrap(this)
}

/// `Rc::as_ptr`, as a number: the address of the allocation, which says
/// nothing of the value in it.
#[verifier::external_body]
pub(crate) fn rc_address<T>(this: &Rc<T>) -> (r: usize) {
    Rc::as_ptr(this) as usize
}

/// `Rc::clone`: the new handle points at the same allocation, so it holds the
/// same value.
#[verifier::external_body]
fn rc_clone<T>(this: &Rc<T>) -> (r: Rc<T>)
    ensures
        r == *this,
{
    Rc::clone(this)
}

/// `Rc::strong_count`: the number of handles to the allocation, which counts
/// at least the one it was asked through.
#[verifier::external_body]
fn rc_strong_count<T>(this: &Rc<T>) -> (r: usize)
    ensures
        r >= 1,
{
    Rc::strong_count(this)
}

/// `Rc::ptr_eq`: two handles to one allocation hold one value.
#[verifier::external_body]
fn rc_ptr_eq<T>(this: &Rc<T>, other: &Rc<T>) -> (r: bool)
    ensures
        r ==> *this == *other,
{
    Rc::ptr_eq(this, other)
}

/// `Rc::get_mut`: a mutable borrow of the value when this is the only handle,
/// and nothing otherwise. Whatever is written through the borrow is what the
/// handle holds afterwards.
#[verifier::external_body]
fn rc_get_mut<T>(this: &mut Rc<T>) -> (r: Option<&mut T>)
    ensures
        match r {
            Some(inner) => *inner == **old(this) && **final(this) == *final(inner),
            None => *final(this) == *old(this),
        },
{
    Rc::get_mut(this)
}

/// `Rc::make_mut`: a mutable borrow of the value, which is the value itself
/// when this is the only handle and a clone of it otherwise. Whatever is
/// written through the borrow is what the handle holds afterwards.
#[verifier::external_body]
fn rc_make_mut<T: Clone>(this: &mut Rc<T>) -> (r: &mut T)
    ensures
        cloned(**old(this), *r),
        **final(this) == *final(r),
{
    Rc::make_mut(this)
}

/// `Arc::as_ptr`, as a number: the address of the allocation, which says
/// nothing of the value in it.
#[verifier::external_body]
pub(crate) fn arc_address<T>(this: &Arc<T>) -> (r: usize) {
    Arc::as_ptr(this) as usize
}

/// `Arc::clone`: the new handle points at the same allocation, so it holds the
/// same value.
#[verifier::external_body]
fn arc_clone<T>(this: &Arc<T>) -> (r: Arc<T>)
    ensures
        r == *this,
{
    Arc::clone(this)
}

/// `Arc::strong_count`: the number of handles to the allocation, which counts
/// at least the one it was asked through.
#[verifier::external_body]
fn arc_strong_count<T>(this: &Arc<T>) -> (r: usize)
    ensures
        r >= 1,
{
    Arc::strong_count(this)
}

/// `Arc::ptr_eq`: two handles to one allocation hold one value.
#[verifier::external_body]
fn arc_ptr_eq<T>(this: &Arc<T>, other: &Arc<T>) -> (r: bool)
    ensures
        r ==> *this == *other,
{
    Arc::ptr_eq(this, other)
}

/// `Arc::try_unwrap`: the value when this is the only handle, and the handle
/// back otherwise. It never panics.
#[verifier::external_body]
pub(crate) fn arc_try_unwrap<T>(this: Arc<T>) -> (r: Result<T, Arc<T>>)
    ensures
        match r {
            Ok(value) => value == *this,
            Err(same) => same == this,
        },
    opens_invariants none
    no_unwind
{
    Arc::try_unwrap(this)
}

/// `Arc::get_mut`: a mutable borrow of the value when this is the only handle,
/// and nothing otherwise. Whatever is written through the borrow is what the
/// handle holds afterwards.
#[verifier::external_body]
fn arc_get_mut<T>(this: &mut Arc<T>) -> (r: Option<&mut T>)
    ensures
        match r {
            Some(inner) => *inner == **old(this) && **final(this) == *final(inner),
            None => *final(this) == *old(this),
        },
{
    Arc::get_mut(this)
}

/// `Arc::make_mut`: a mutable borrow of the value, which is the value itself
/// when this is the only handle and a clone of it otherwise. Whatever is
/// written through the borrow is what the handle holds afterwards.
#[verifier::external_body]
fn arc_make_mut<T: Clone>(this: &mut Arc<T>) -> (r: &mut T)
    ensures
        cloned(**old(this), *r),
        **final(this) == *final(r),
{
    Arc::make_mut(this)
}

/// A family of reference-counted pointers to values of type `T`.
pub trait PointerFamily<T>: Sized {
    /// The pointer type of this family.
    type Pointer;

    /// The value a pointer holds.
    spec fn value(this: Self::Pointer) -> T;

    /// Allocates a pointer that holds `value`.
    fn new(value: T) -> (r: Self::Pointer)
        ensures
            Self::value(r) == value,
    ;

    /// The number of pointers that share the allocation of `this`.
    fn strong_count(this: &Self::Pointer) -> (r: usize)
        ensures
            r >= 1,
    ;

    /// Takes the value out of the pointer if nothing else shares it.
    fn try_unwrap(this: Self::Pointer) -> (r: Option<T>)
        ensures
            r matches Some(value) ==> value == Self::value(this),
    ;

    /// Borrows the value mutably if nothing else shares it.
    fn get_mut(this: &mut Self::Pointer) -> (r: Option<&mut T>)
        ensures
            match r {
                Some(inner) => *inner == Self::value(*old(this)) && Self::value(*final(this))
                    == *final(inner),
                None => *final(this) == *old(this),
            },
    ;

    /// Whether two pointers share one allocation. Pointers that do hold the
    /// same value.
    fn ptr_eq(this: &Self::Pointer, other: &Self::Pointer) -> (r: bool)
        ensures
            r ==> Self::value(*this) == Self::value(*other),
    ;

    /// Borrows the value mutably, cloning it into a fresh allocation first
    /// if it is shared.
    fn make_mut(this: &mut Self::Pointer) -> (r: &mut T) where T: Clone
        ensures
            cloned(Self::value(*old(this)), *r),
            Self::value(*final(this)) == *final(r),
    ;

    /// Another pointer to the same allocation.
    fn clone(this: &Self::Pointer) -> (r: Self::Pointer)
        ensures
            r == *this,
    ;
}

/// Thread-local reference counting.
pub struct RcPointer;

impl<T> PointerFamily<T> for RcPointer {
    type Pointer = Rc<T>;

    open spec fn value(this: Rc<T>) -> T {
        *this
    }

    fn new(value: T) -> (r: Rc<T>) {
        Rc::new(value)
    }

    fn strong_count(this: &Rc<T>) -> (r: usize) {
        rc_strong_count(this)
    }

    fn try_unwrap(this: Rc<T>) -> (r: Option<T>) {
        match rc_try_unwrap(this) {
            Ok(value) => Some(value),
            Err(_) => None,
        }
    }

    fn get_mut(this: &mut Rc<T>) -> (r: Option<&mut T>) {
        rc_get_mut(this)
    }

    fn ptr_eq(this: &Rc<T>, other: &Rc<T>) -> (r: bool) {
        rc_ptr_eq(this, other)
    }

    fn make_mut(this: &mut Rc<T>) -> (r: &mut T) where T: Clone {
        rc_make_mut(this)
    }

    fn clone(this: &Rc<T>) -> (r: Rc<T>) {
        rc_clone(this)
    }
}

/// Atomic reference counting, for lists that cross threads.
pub struct ArcPointer;

impl<T> PointerFamily<T> for ArcPointer {
    type Pointer = Arc<T>;

    open spec fn value(this: Arc<T>) -> T {
        *this
    }

    fn new(value: T) -> (r: Arc<T>) {
        Arc::new(value)
    }

    fn strong_count(this: &Arc<T>) -> (r: usize) {
        arc_strong_count(this)
    }

    fn try_unwrap(this: Arc<T>) -> (r: Option<T>) {
        match arc_try_unwrap(this) {
            Ok(value) => Some(value),
            Err(_) => None,
        }
    }

    fn get_mut(this: &mut Arc<T>) -> (r: Option<&mut T>) {
        arc_get_mut(this)
    }

    fn ptr_eq(this: &Arc<T>, other: &Arc<T>) -> (r: bool) {
        arc_ptr_eq(this, other)
    }

    fn make_mut(this: &mut Arc<T>) -> (r: &mut T) where T: Clone {
        arc_make_mut(this)
    }

    fn clone(this: &Arc<T>) -> (r: Arc<T>) {
        arc_clone(this)
    }
}

} // verus!
