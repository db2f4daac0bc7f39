use vstd::prelude::*;

use crate::stats::{all_in_coerced_range, in_coerced_range};

verus! {

// ---------------------------------------------------------------------------
// The widening capability
// ---------------------------------------------------------------------------

/// The numeric coercion capability: a fixed-width integer kind of at most
/// 32 bits, every value of which widens losslessly into `i64`.  The closed
/// set of implementations below is the supported domain; a kind whose
/// values cannot be represented exactly is simply not given the capability,
/// so it is rejected where the sequence is built, not silently truncated.
pub trait Widen {
    /// The mathematical value of `self`.
    spec fn widened(&self) -> int;

    /// The value lies in the coerced domain of the statistics engine.
    proof fn widened_in_range(&self)
        ensures
            in_coerced_range(self.widened()),
    ;

    /// The value, widened.
    fn widen(&self) -> (r: i64)
        ensures
            r as int == self.widened(),
    ;
}

impl Widen for i8 {
    open spec fn widened(&self) -> int {
        *self as int
    }

    proof fn widened_in_range(&self) {
    }

    fn widen(&self) -> (r: i64) {
        *self as i64
    }
}

impl Widen for i16 {
    open spec fn widened(&self) -> int {
        *self as int
    }

    proof fn widened_in_range(&self) {
    }

    fn widen(&self) -> (r: i64) {
        *self as i64
    }
}

impl Widen for i32 {
    open spec fn widened(&self) -> int {
        *self as int
    }

    proof fn widened_in_range(&self) {
    }

    fn widen(&self) -> (r: i64) {
        *self as i64
    }
}

impl Widen for u8 {
    open spec fn widened(&self) -> int {
        *self as int
    }

    proof fn widened_in_range(&self) {
    }

    fn widen(&self) -> (r: i64) {
        *self as i64
    }
}

impl Widen for u16 {
    open spec fn widened(&self) -> int {
        *self as int
    }

    proof fn widened_in_range(&self) {
    }

    fn widen(&self) -> (r: i64) {
        *self as i64
    }
}

impl Widen for u32 {
    open spec fn widened(&self) -> int {
        *self as int
    }

    proof fn widened_in_range(&self) {
    }

    fn widen(&self) -> (r: i64) {
        *self as i64
    }
}

/// The coerced view of a sequence: each element widened losslessly, ready
/// for the statistics engine.
pub fn widen_vec<T: Widen>(data: &Vec<T>) -> (r: Vec<i64>)
    ensures
        r@.len() == data@.len(),
        forall|i: int| 0 <= i < data@.len() ==> r@[i] as int == data@[i].widened(),
        all_in_coerced_range(r@),
{
    let mut r: Vec<i64> = Vec::new();
    let mut i: usize = 0;
    while i < data.len()
        invariant
            0 <= i <= data@.len(),
            r@.len() == i,
            forall|j: int| 0 <= j < i ==> r@[j] as int == data@[j].widened(),
            forall|j: int| 0 <= j < i ==> in_coerced_range(#[trigger] r@[j] as int),
        decreases data@.len() - i,
    {
        let x = data[i].widen();
        proof {
            data@[i as int].widened_in_range();
        }
        r.push(x);
        i = i + 1;
    }
    r
}

// ---------------------------------------------------------------------------
// Narrowing into i32
// ---------------------------------------------------------------------------

/// A numeric kind whose every value fits a signed 32-bit integer.
pub trait Toi32 {
    /// The mathematical value of `self`.
    spec fn i32_value(&self) -> int;

    /// The value as an `i32`, exactly.
    fn h_i32(&self) -> (r: i32)
        ensures
            r as int == self.i32_value(),
    ;
}

impl Toi32 for i8 {
    open spec fn i32_value(&self) -> int {
        *self as int
    }

    fn h_i32(&self) -> (r: i32) {
        *self as i32
    }
}

impl Toi32 for i16 {
    open spec fn i32_value(&self) -> int {
        *self as int
    }

    fn h_i32(&self) -> (r: i32) {
        *self as i32
    }
}

impl Toi32 for i32 {
    open spec fn i32_value(&self) -> int {
        *self as int
    }

    fn h_i32(&self) -> (r: i32) {
        *self
    }
}

impl Toi32 for u8 {
    open spec fn i32_value(&self) -> int {
        *self as int
    }

    fn h_i32(&self) -> (r: i32) {
        *self as i32
    }
}

impl Toi32 for u16 {
    open spec fn i32_value(&self) -> int {
        *self as int
    }

    fn h_i32(&self) -> (r: i32) {
        *self as i32
    }
}

/// Elementwise conversion of a whole sequence into `i32`.
pub trait ToVeci32 {
    /// The mathematical values of the elements.
    spec fn i32_values(&self) -> Seq<int>;

    /// The elements as a vector of `i32`, exactly and in order.
    fn h_to_vec_i32(&self) -> (r: Vec<i32>)
        ensures
            r@.len() == self.i32_values().len(),
            forall|i: int| 0 <= i < r@.len() ==> r@[i] as int == self.i32_values()[i],
    ;
}

impl<T: Toi32> ToVeci32 for Vec<T> {
    open spec fn i32_values(&self) -> Seq<int> {
        self@.map(|i: int, x: T| x.i32_value())
    }

    fn h_to_vec_i32(&self) -> (r: Vec<i32>) {
        let mut out: Vec<i32> = Vec::new();
        let mut i: usize = 0;
        while i < self.len()
            invariant
                0 <= i <= self@.len(),
                out@.len() == i,
                forall|j: int| 0 <= j < i ==> out@[j] as int == self@[j].i32_value(),
            decreases self@.len() - i,
        {
            out.push(self[i].h_i32());
            i = i + 1;
        }
        out
    }
}

} // verus!
