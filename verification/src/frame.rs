//! The row-major layout of three-axis sample frames, and the buffer type
//! that stores one frame.

use vstd::prelude::*;
use vstd::arithmetic::div_mod::{
    lemma_div_denominator, lemma_fundamental_div_mod, lemma_fundamental_div_mod_converse,
    lemma_mod_bound, lemma_multiply_divide_lt,
};

verus! {

/// A frame's extent: sample counts along axes 0, 1 and 2
/// (width, height, channels).
pub type Shape = (usize, usize, usize);

/// The number of samples a frame of this shape holds.
pub open spec fn vol(shape: Shape) -> int {
    shape.0 * shape.1 * shape.2
}

/// An axis length as the storage layout counts it: an empty axis still
/// occupies one step.
pub open spec fn axis_ext(d: usize) -> int {
    if d == 0 {
        1int
    } else {
        d as int
    }
}

/// The extent the storage layout must be able to address, even when an
/// axis is empty.
pub open spec fn layout_ext(shape: Shape) -> int {
    axis_ext(shape.0) * axis_ext(shape.1) * axis_ext(shape.2)
}

/// The row-major offset of coordinates within a shape: axis 2 varies
/// fastest, axis 0 slowest.
pub open spec fn lin(shape: Shape, i0: int, i1: int, i2: int) -> int {
    (i0 * shape.1 + i1) * shape.2 + i2
}

/// The axis-0 coordinate of a row-major offset.
pub open spec fn coord0(shape: Shape, j: int) -> int {
    j / (shape.1 * shape.2)
}

/// The axis-1 coordinate of a row-major offset.
pub open spec fn coord1(shape: Shape, j: int) -> int {
    (j / (shape.2 as int)) % (shape.1 as int)
}

/// The axis-2 coordinate of a row-major offset.
pub open spec fn coord2(shape: Shape, j: int) -> int {
    j % (shape.2 as int)
}

/// Whether coordinates lie inside a shape on every axis.
pub open spec fn in_bounds(shape: Shape, i0: int, i1: int, i2: int) -> bool {
    &&& 0 <= i0 < shape.0
    &&& 0 <= i1 < shape.1
    &&& 0 <= i2 < shape.2
}

/// In-bounds coordinates address an offset inside the volume, and that
/// offset decomposes back into the same coordinates.
pub proof fn lemma_lin_coords(shape: Shape, i0: int, i1: int, i2: int)
    requires
        in_bounds(shape, i0, i1, i2),
    ensures
        0 <= lin(shape, i0, i1, i2) < vol(shape),
        coord0(shape, lin(shape, i0, i1, i2)) == i0,
        coord1(shape, lin(shape, i0, i1, i2)) == i1,
        coord2(shape, lin(shape, i0, i1, i2)) == i2,
{
    let d0 = shape.0 as int;
    let d1 = shape.1 as int;
    let d2 = shape.2 as int;
    let row = i0 * d1 + i1;
    let j = lin(shape, i0, i1, i2);
    assert(j == row * d2 + i2);
    lemma_fundamental_div_mod_converse(j, d2, row, i2);
    lemma_fundamental_div_mod_converse(row, d1, i0, i1);
    assert(i1 * d2 + i2 < d1 * d2) by (nonlinear_arith)
        requires
            0 <= i1 < d1,
            0 <= i2 < d2,
    ;
    assert(j == i0 * (d1 * d2) + (i1 * d2 + i2)) by (nonlinear_arith)
        requires
            j == (i0 * d1 + i1) * d2 + i2,
    ;
    lemma_fundamental_div_mod_converse(j, d1 * d2, i0, i1 * d2 + i2);
    assert(j < d0 * d1 * d2) by (nonlinear_arith)
        requires
            j == i0 * (d1 * d2) + (i1 * d2 + i2),
            0 <= i1 * d2 + i2 < d1 * d2,
            0 <= i0 < d0,
    ;
}

/// Every offset inside the volume decomposes into in-bounds coordinates,
/// which address it back.
pub proof fn lemma_coords_lin(shape: Shape, j: int)
    requires
        0 <= j < vol(shape),
    ensures
        in_bounds(shape, coord0(shape, j), coord1(shape, j), coord2(shape, j)),
        lin(shape, coord0(shape, j), coord1(shape, j), coord2(shape, j)) == j,
{
    let d0 = shape.0 as int;
    let d1 = shape.1 as int;
    let d2 = shape.2 as int;
    assert(d0 > 0 && d1 > 0 && d2 > 0) by (nonlinear_arith)
        requires
            0 <= j < d0 * d1 * d2,
            d0 >= 0,
            d1 >= 0,
            d2 >= 0,
    ;
    lemma_fundamental_div_mod(j, d2);
    lemma_mod_bound(j, d2);
    let q = j / d2;
    lemma_fundamental_div_mod(q, d1);
    lemma_mod_bound(q, d1);
    lemma_div_denominator(j, d2, d1);
    assert(d2 * d1 == d1 * d2);
    assert(coord0(shape, j) == q / d1);
    assert(j < (d1 * d2) * d0) by (nonlinear_arith)
        requires
            j < d0 * d1 * d2,
    ;
    lemma_multiply_divide_lt(j, d1 * d2, d0);
    assert(q / d1 >= 0) by (nonlinear_arith)
        requires
            q >= 0,
            d1 > 0,
            q == d1 * (q / d1) + q % d1,
            0 <= q % d1 < d1,
    ;
    assert(((q / d1) * d1 + q % d1) * d2 + j % d2 == j) by (nonlinear_arith)
        requires
            q == d1 * (q / d1) + q % d1,
            j == d2 * q + j % d2,
    ;
    assert(lin(shape, q / d1, q % d1, j % d2) == ((q / d1) * d1 + q % d1) * d2 + j % d2);
}

/// The row-major offset of in-bounds coordinates, computed without
/// overflow.
pub(crate) fn lin_index(shape: Shape, i0: usize, i1: usize, i2: usize) -> (r: usize)
    requires
        in_bounds(shape, i0 as int, i1 as int, i2 as int),
        vol(shape) <= usize::MAX,
    ensures
        r == lin(shape, i0 as int, i1 as int, i2 as int),
        r < vol(shape),
{
    proof {
        lemma_lin_coords(shape, i0 as int, i1 as int, i2 as int);
        assert(i0 * shape.1 + i1 < shape.0 * shape.1) by (nonlinear_arith)
            requires
                0 <= i0 < shape.0,
                0 <= i1 < shape.1,
        ;
        assert(shape.0 * shape.1 <= vol(shape) && (i0 * shape.1 + i1) * shape.2 <= vol(shape))
            by (nonlinear_arith)
            requires
                0 <= i0 * shape.1 + i1 < shape.0 * shape.1,
                shape.2 >= 1,
                vol(shape) == shape.0 * shape.1 * shape.2,
        ;
    }
    (i0 * shape.1 + i1) * shape.2 + i2
}

/// The coordinates of a row-major offset, computed without overflow.
pub(crate) fn coords_of(shape: Shape, j: usize) -> (c: (usize, usize, usize))
    requires
        j < vol(shape),
        vol(shape) <= usize::MAX,
    ensures
        c.0 == coord0(shape, j as int),
        c.1 == coord1(shape, j as int),
        c.2 == coord2(shape, j as int),
        in_bounds(shape, c.0 as int, c.1 as int, c.2 as int),
        lin(shape, c.0 as int, c.1 as int, c.2 as int) == j,
{
    proof {
        lemma_coords_lin(shape, j as int);
        assert(0 < shape.1 * shape.2 <= shape.0 * shape.1 * shape.2) by (nonlinear_arith)
            requires
                shape.0 >= 1,
                shape.1 >= 1,
                shape.2 >= 1,
        ;
    }
    let plane: usize = shape.1 * shape.2;
    (j / plane, (j / shape.2) % shape.1, j % shape.2)
}

/// The volume of a shape, or `None` where it cannot be held in a `usize`.
pub fn checked_vol(shape: Shape) -> (r: Option<usize>)
    ensures
        match r {
            Some(v) => v == vol(shape),
            None => vol(shape) > usize::MAX,
        },
{
    if shape.0 == 0 || shape.1 == 0 || shape.2 == 0 {
        proof {
            assert(vol(shape) == 0) by (nonlinear_arith)
                requires
                    shape.0 == 0 || shape.1 == 0 || shape.2 == 0,
                    vol(shape) == shape.0 * shape.1 * shape.2,
            ;
        }
        Some(0)
    } else {
        match shape.0.checked_mul(shape.1) {
            Some(ab) => match ab.checked_mul(shape.2) {
                Some(v) => Some(v),
                None => {
                    proof {
                        assert(shape.0 * shape.1 * shape.2 > usize::MAX) by (nonlinear_arith)
                            requires
                                shape.0 * shape.1 * shape.2 > usize::MAX,
                        ;
                    }
                    None
                },
            },
            None => {
                proof {
                    assert(shape.0 * shape.1 * shape.2 > usize::MAX) by (nonlinear_arith)
                        requires
                            shape.0 * shape.1 > usize::MAX,
                            shape.2 >= 1,
                    ;
                }
                None
            },
        }
    }
}

/// Owns one `ndarray` frame of 8-bit samples.  The array is held opaquely;
/// what the crate knows of it is stated by [`frame_bytes`] and
/// [`frame_shape`] through the trusted accessors below.
#[verifier::external_body]
pub struct FrameBuf {
    arr: ndarray::Array3<u8>,
}

/// The samples a buffer holds, in logical row-major order (axis 2 fastest).
pub uninterp spec fn frame_bytes(b: FrameBuf) -> Seq<u8>;

/// The axis lengths a buffer was shaped with.
pub uninterp spec fn frame_shape(b: FrameBuf) -> Shape;

/// Relies on ndarray's `from_shape_vec`: a C-order shape whose element
/// count matches the vector wraps the vector as the logical row-major
/// contents, erring only on a count mismatch or an `isize` stride overflow.
#[verifier::external_body]
pub(crate) fn buf_from_vec(shape: Shape, data: Vec<u8>) -> (b: FrameBuf)
    requires
        data@.len() == vol(shape),
        layout_ext(shape) <= isize::MAX,
    ensures
        frame_shape(b) == shape,
        frame_bytes(b) == data@,
{
    FrameBuf { arr: ndarray::Array3::from_shape_vec(shape, data).unwrap() }
}

/// Relies on ndarray's `iter`, which visits the elements in logical order
/// (rightmost index varying fastest), one per coordinate of the shape.
#[verifier::external_body]
pub(crate) fn buf_to_vec(b: &FrameBuf) -> (r: Vec<u8>)
    ensures
        r@ == frame_bytes(*b),
        r@.len() == vol(frame_shape(*b)),
{
    b.arr.iter().copied().collect()
}

/// Relies on ndarray's derived `Clone` for owned arrays, which copies the
/// dimensions and every element.
#[verifier::external_body]
pub(crate) fn buf_clone(b: &FrameBuf) -> (r: FrameBuf)
    ensures
        frame_shape(r) == frame_shape(*b),
        frame_bytes(r) == frame_bytes(*b),
{
    FrameBuf { arr: b.arr.clone() }
}

/// Relies on ndarray's `dim`, which returns the axis lengths.
#[verifier::external_body]
pub(crate) fn buf_shape(b: &FrameBuf) -> (s: Shape)
    ensures
        s == frame_shape(*b),
{
    b.arr.dim()
}

} // verus!
