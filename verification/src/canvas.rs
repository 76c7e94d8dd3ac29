//! The canvas transform: bounds-clipped translation of frame contents,
//! and the coverage mask that records which output samples were reached.

use vstd::prelude::*;

use vstd::pervasive::unreached;

use crate::frame::{coord0, coord1, coord2, in_bounds, lemma_coords_lin, lemma_lin_coords, lin, vol, Shape};

verus! {

/// The contents of the output frame after a clipped copy: every output
/// coordinate reached from a source coordinate shifted by `off` takes the
/// source sample; every other output sample keeps its prior value.
pub open spec fn translated(
    src_shape: Shape,
    src: Seq<u8>,
    dst_shape: Shape,
    dst: Seq<u8>,
    off: (i128, i128, i128),
) -> Seq<u8> {
    Seq::new(
        dst.len(),
        |j: int|
            {
                let p0 = coord0(dst_shape, j) - off.0;
                let p1 = coord1(dst_shape, j) - off.1;
                let p2 = coord2(dst_shape, j) - off.2;
                if in_bounds(src_shape, p0, p1, p2) {
                    src[lin(src_shape, p0, p1, p2)]
                } else {
                    dst[j]
                }
            },
    )
}

/// The coverage mask of the same clipped copy: a full sample wherever a
/// source sample was copied, a zero sample everywhere else.
pub open spec fn copy_mask(src_shape: Shape, dst_shape: Shape, off: (i128, i128, i128)) -> Seq<u8> {
    Seq::new(
        vol(dst_shape) as nat,
        |j: int|
            {
                let p0 = coord0(dst_shape, j) - off.0;
                let p1 = coord1(dst_shape, j) - off.1;
                let p2 = coord2(dst_shape, j) - off.2;
                if in_bounds(src_shape, p0, p1, p2) {
                    255u8
                } else {
                    0u8
                }
            },
    )
}

/// The source offset feeding output offset `j`, if the shifted coordinate
/// lies inside the source.
fn source_index(src_shape: Shape, dst_shape: Shape, off: (i128, i128, i128), j: usize) -> (r:
    Option<usize>)
    requires
        j < vol(dst_shape),
        vol(dst_shape) <= usize::MAX,
        vol(src_shape) <= usize::MAX,
    ensures
        ({
            let p0 = coord0(dst_shape, j as int) - off.0;
            let p1 = coord1(dst_shape, j as int) - off.1;
            let p2 = coord2(dst_shape, j as int) - off.2;
            match r {
                Some(l) => in_bounds(src_shape, p0, p1, p2) && l == lin(src_shape, p0, p1, p2)
                    && l < vol(src_shape),
                None => !in_bounds(src_shape, p0, p1, p2),
            }
        }),
{
    proof {
        lemma_coords_lin(dst_shape, j as int);
        assert(0 < dst_shape.1 * dst_shape.2 <= dst_shape.0 * dst_shape.1 * dst_shape.2)
            by (nonlinear_arith)
            requires
                dst_shape.0 >= 1,
                dst_shape.1 >= 1,
                dst_shape.2 >= 1,
        ;
    }
    let plane: usize = dst_shape.1 * dst_shape.2;
    let c0: usize = j / plane;
    let c1: usize = (j / dst_shape.2) % dst_shape.1;
    let c2: usize = j % dst_shape.2;
    let p0 = match (c0 as i128).checked_sub(off.0) {
        Some(v) => v,
        None => {
            return None;
        },
    };
    let p1 = match (c1 as i128).checked_sub(off.1) {
        Some(v) => v,
        None => {
            return None;
        },
    };
    let p2 = match (c2 as i128).checked_sub(off.2) {
        Some(v) => v,
        None => {
            return None;
        },
    };
    if p0 < 0 || p0 >= src_shape.0 as i128 || p1 < 0 || p1 >= src_shape.1 as i128 || p2 < 0
        || p2 >= src_shape.2 as i128 {
        return None;
    }
    let q0 = p0 as usize;
    let q1 = p1 as usize;
    let q2 = p2 as usize;
    proof {
        lemma_lin_coords(src_shape, q0 as int, q1 as int, q2 as int);
        assert(q0 * src_shape.1 + q1 < src_shape.0 * src_shape.1) by (nonlinear_arith)
            requires
                q0 < src_shape.0,
                q1 < src_shape.1,
                src_shape.1 >= 0,
        ;
        assert(src_shape.0 * src_shape.1 <= vol(src_shape) && (q0 * src_shape.1 + q1) * src_shape.2
            <= vol(src_shape)) by (nonlinear_arith)
            requires
                0 <= q0 * src_shape.1 + q1 < src_shape.0 * src_shape.1,
                src_shape.2 >= 1,
                vol(src_shape) == src_shape.0 * src_shape.1 * src_shape.2,
        ;
    }
    Some((q0 * src_shape.1 + q1) * src_shape.2 + q2)
}

/// Copies every source sample whose coordinate shifted by `off` lies within
/// the output's bounds; output samples no source coordinate reaches keep
/// their prior value.
pub fn translate_bytes(
    src_shape: Shape,
    src: &Vec<u8>,
    dst_shape: Shape,
    dst: &Vec<u8>,
    off: (i128, i128, i128),
) -> (r: Vec<u8>)
    requires
        src@.len() == vol(src_shape),
        dst@.len() == vol(dst_shape),
    ensures
        r@ == translated(src_shape, src@, dst_shape, dst@, off),
{
    let n = dst.len();
    let src_len = src.len();
    let mut out: Vec<u8> = Vec::new();
    let mut j: usize = 0;
    while j < n
        invariant
            0 <= j <= n,
            n == vol(dst_shape),
            n <= usize::MAX,
            src@.len() == vol(src_shape),
            src_len == vol(src_shape),
            vol(src_shape) <= usize::MAX,
            dst@.len() == vol(dst_shape),
            out@.len() == j,
            forall|k: int|
                0 <= k < j ==> out@[k] == translated(src_shape, src@, dst_shape, dst@, off)[k],
        decreases n - j,
    {
        match source_index(src_shape, dst_shape, off, j) {
            Some(l) => {
                out.push(src[l]);
            },
            None => {
                out.push(dst[j]);
            },
        }
        j = j + 1;
    }
    assert(out@ =~= translated(src_shape, src@, dst_shape, dst@, off));
    out
}

/// Builds the coverage mask of the same clipped copy: 255 wherever a
/// source sample lands, 0 everywhere else.
pub fn mask_bytes(src_shape: Shape, dst_shape: Shape, off: (i128, i128, i128)) -> (r: Vec<u8>)
    requires
        vol(dst_shape) <= usize::MAX,
        vol(src_shape) <= usize::MAX,
    ensures
        r@ == copy_mask(src_shape, dst_shape, off),
{
    let n = match crate::frame::checked_vol(dst_shape) {
        Some(v) => v,
        None => unreached(),
    };
    let mut out: Vec<u8> = Vec::new();
    let mut j: usize = 0;
    while j < n
        invariant
            0 <= j <= n,
            n == vol(dst_shape),
            n <= usize::MAX,
            vol(src_shape) <= usize::MAX,
            out@.len() == j,
            forall|k: int| 0 <= k < j ==> out@[k] == copy_mask(src_shape, dst_shape, off)[k],
        decreases n - j,
    {
        match source_index(src_shape, dst_shape, off, j) {
            Some(_) => {
                out.push(255);
            },
            None => {
                out.push(0);
            },
        }
        j = j + 1;
    }
    assert(out@ =~= copy_mask(src_shape, dst_shape, off));
    out
}

/// A translation whose offset pushes every source coordinate outside the
/// output's bounds leaves the output unchanged.
pub proof fn lemma_translate_clip_noop(
    src_shape: Shape,
    src: Seq<u8>,
    dst_shape: Shape,
    dst: Seq<u8>,
    off: (i128, i128, i128),
)
    requires
        dst.len() == vol(dst_shape),
        forall|p0: int, p1: int, p2: int|
            #[trigger] in_bounds(src_shape, p0, p1, p2) ==> !in_bounds(
                dst_shape,
                p0 + off.0,
                p1 + off.1,
                p2 + off.2,
            ),
    ensures
        translated(src_shape, src, dst_shape, dst, off) == dst,
{
    assert forall|j: int| 0 <= j < dst.len() implies translated(
        src_shape,
        src,
        dst_shape,
        dst,
        off,
    )[j] == dst[j] by {
        lemma_coords_lin(dst_shape, j);
        let p0 = coord0(dst_shape, j) - off.0;
        let p1 = coord1(dst_shape, j) - off.1;
        let p2 = coord2(dst_shape, j) - off.2;
        if in_bounds(src_shape, p0, p1, p2) {
            assert(!in_bounds(dst_shape, p0 + off.0, p1 + off.1, p2 + off.2));
            assert(false);
        }
    }
    assert(translated(src_shape, src, dst_shape, dst, off) =~= dst);
}

} // verus!
