//! Values that are handed out more than once.

use vstd::prelude::*;
use std::sync::Arc;

verus! {

/// A value of which another handle can be had cheaply: a small value
/// that is copied, or a shared one whose count of owners goes up. The
/// engine hands a value out by its `share`, never by a copy in depth.
pub trait Share: Sized {
    /// Another handle to the same value.
    fn share(&self) -> (copy: Self)
        ensures
            copy == *self,
    ;
}

impl<T> Share for Arc<T> {
    fn share(&self) -> (copy: Self) {
        self.clone()
    }
}

impl Share for bool {
    fn share(&self) -> (copy: Self) {
        *self
    }
}

impl Share for char {
    fn share(&self) -> (copy: Self) {
        *self
    }
}

impl Share for u8 {
    fn share(&self) -> (copy: Self) {
        *self
    }
}

impl Share for u16 {
    fn share(&self) -> (copy: Self) {
        *self
    }
}

impl Share for u32 {
    fn share(&self) -> (copy: Self) {
        *self
    }
}

impl Share for u64 {
    fn share(&self) -> (copy: Self) {
        *self
    }
}

impl Share for u128 {
    fn share(&self) -> (copy: Self) {
        *self
    }
}

impl Share for usize {
    fn share(&self) -> (copy: Self) {
        *self
    }
}

impl Share for i8 {
    fn share(&self) -> (copy: Self) {
        *self
    }
}

impl Share for i16 {
    fn share(&self) -> (copy: Self) {
        *self
    }
}

impl Share for i32 {
    fn share(&self) -> (copy: Self) {
        *self
    }
}

impl Share for i64 {
    fn share(&self) -> (copy: Self) {
        *self
    }
}

impl Share for i128 {
    fn share(&self) -> (copy: Self) {
        *self
    }
}

impl Share for isize {
    fn share(&self) -> (copy: Self) {
        *self
    }
}

} // verus!
