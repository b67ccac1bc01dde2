//! Byte arrays of the `ndarray` crate, the storage of a gene's rows.
//!
//! Verus does not look inside an `ndarray` array. What an array holds is
//! named by [`row_array_items`], and each function here states, without
//! proof, what one `ndarray` call does to that sequence.

use vstd::prelude::*;
use ndarray::{Array1, Axis, ShapeError, Slice};

verus! {

/// A one-dimensional `ndarray` array of bytes, `ndarray::Array1<u8>`. The
/// field is hidden from Verus.
#[verifier::external_body]
pub struct RowArray {
    inner: Array1<u8>,
}

/// `ndarray::ShapeError`, the error of `ndarray::concatenate`, as a type
/// that Verus carries through without looking inside.
#[verifier::external_type_specification]
#[verifier::external_body]
pub struct ExShapeError(ShapeError);

/// The bytes that an array holds, in index order. It has no definition:
/// the functions below say what the calls into `ndarray` do to it.
pub uninterp spec fn row_array_items(a: RowArray) -> Seq<u8>;

impl RowArray {
    /// Calls `ndarray::Array1::zeros`. Claimed: the array holds `n` bytes,
    /// all zero. The call panics when `n` exceeds `isize::MAX`.
    #[verifier::external_body]
    pub(crate) fn zeros(n: usize) -> (a: RowArray)
        requires
            n <= isize::MAX,
        ensures
            row_array_items(a) == Seq::new(n as nat, |i: int| 0u8),
    {
        RowArray { inner: Array1::zeros(n) }
    }

    /// Calls `len` of an `ndarray` array. Claimed: it is the number of
    /// bytes held.
    #[verifier::external_body]
    pub(crate) fn len(&self) -> (n: usize)
        ensures
            n == row_array_items(*self).len(),
    {
        self.inner.len()
    }

    /// Calls `index` of an `ndarray` array, written `array[i]`. Claimed:
    /// it is the byte at `i`. The call panics past the end.
    #[verifier::external_body]
    pub(crate) fn get(&self, i: usize) -> (v: u8)
        requires
            i < row_array_items(*self).len(),
        ensures
            v == row_array_items(*self)[i as int],
    {
        self.inner[i]
    }

    /// Calls `index_mut` of an `ndarray` array, written `array[i] = v`.
    /// Claimed: the byte at `i` becomes `v`, and the others stay. The call
    /// panics past the end.
    #[verifier::external_body]
    pub(crate) fn set(&mut self, i: usize, v: u8)
        requires
            i < row_array_items(*old(self)).len(),
        ensures
            row_array_items(*final(self)) == row_array_items(*old(self)).update(i as int, v),
    {
        self.inner[i] = v;
    }

    /// Calls `slice_axis` of an `ndarray` array, on its one axis and with
    /// a step of one, and copies the view out with `to_owned`. Claimed:
    /// the copy holds the bytes from `start` up to, not including, `end`.
    /// The call panics when `end` is past the array's end.
    #[verifier::external_body]
    pub(crate) fn slice(&self, start: usize, end: usize) -> (part: RowArray)
        requires
            start <= end <= row_array_items(*self).len(),
        ensures
            row_array_items(part) == row_array_items(*self).subrange(start as int, end as int),
    {
        RowArray { inner: self.inner.slice_axis(Axis(0), Slice::from(start..end)).to_owned() }
    }

    /// Calls `ndarray::concatenate` on the views of two arrays, along
    /// their one axis. Claimed: a success holds the bytes of `self`
    /// followed by those of `tail`, and the call succeeds whenever the
    /// joined length is at most `isize::MAX`: with one axis there are no
    /// other shapes to disagree.
    #[verifier::external_body]
    pub(crate) fn concatenate(&self, tail: &RowArray) -> (joined: Result<RowArray, ShapeError>)
        ensures
            row_array_items(*self).len() + row_array_items(*tail).len() <= isize::MAX
                ==> joined is Ok,
            joined matches Ok(a) ==> row_array_items(a) == row_array_items(*self)
                + row_array_items(*tail),
    {
        match ndarray::concatenate(Axis(0), &[self.inner.view(), tail.inner.view()]) {
            Ok(inner) => Ok(RowArray { inner }),
            Err(e) => Err(e),
        }
    }

    /// Calls `clone` of an `ndarray` array. Claimed: the copy holds the
    /// same bytes.
    #[verifier::external_body]
    pub(crate) fn duplicate(&self) -> (copy: RowArray)
        ensures
            row_array_items(copy) == row_array_items(*self),
    {
        RowArray { inner: self.inner.clone() }
    }
}

} // verus!
