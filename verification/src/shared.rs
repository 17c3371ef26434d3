//! Small trusted helpers for reference-counted pointers.

use vstd::prelude::*;
use std::rc::Rc;
use std::sync::Arc;

verus! {

/// Calls `Arc::clone`; the new pointer refers to the same allocation, so it
/// views as the same value.
#[verifier::external_body]
pub fn arc_clone<T>(a: &Arc<T>) -> (r: Arc<T>)
    ensures
        r == *a,
{
    Arc::clone(a)
}

/// Calls `Rc::clone`; the new pointer refers to the same allocation, so it
/// views as the same value.
#[verifier::external_body]
pub fn rc_clone<T>(a: &Rc<T>) -> (r: Rc<T>)
    ensures
        r == *a,
{
    Rc::clone(a)
}

/// Calls `std::ptr::eq` on two references: true only when both refer to
/// the same object, which then is one value.
#[verifier::external_body]
pub fn same_object<T>(a: &T, b: &T) -> (r: bool)
    ensures
        r ==> *a == *b,
{
    std::ptr::eq(a, b)
}

/// Renders a value through its `Debug` implementation, as
/// `format!("{:?}", x)` does; nothing is stated of the text.
#[verifier::external_body]
pub fn debug_text<T: std::fmt::Debug>(x: &T) -> (r: String) {
    format!("{:?}", x)
}

} // verus!
