//! The resampler: bilinear reconstruction of a frame's samples at another
//! resolution, with replicate-edge handling of the border.

use vstd::prelude::*;
use vstd::pervasive::unreached;
use vstd::arithmetic::div_mod::{
    lemma_div_by_multiple, lemma_div_is_ordered, lemma_mod_bound, lemma_mod_multiples_basic,
    lemma_multiply_divide_lt,
};

use crate::frame::{
    checked_vol, coord0, coord1, coord2, coords_of, lemma_coords_lin, lemma_lin_coords, lin,
    lin_index, vol, Shape,
};

verus! {

/// The integer part of the source coordinate that feeds destination
/// coordinate `pos` along one axis: `pos * s / d`, rounded down.
pub open spec fn src_floor(pos: int, s: int, d: int) -> int {
    (pos * s) / d
}

/// The fractional part of the same source coordinate, as a numerator
/// over `d`.
pub open spec fn src_rem(pos: int, s: int, d: int) -> int {
    (pos * s) % d
}

/// The neighbor above the source coordinate, clamped to the axis edge.
pub open spec fn src_ceil(pos: int, s: int, d: int) -> int {
    if src_rem(pos, s, d) > 0 && src_floor(pos, s, d) + 1 < s {
        src_floor(pos, s, d) + 1
    } else if src_rem(pos, s, d) > 0 {
        s - 1
    } else {
        src_floor(pos, s, d)
    }
}

/// The bilinear reconstruction of the sample at destination coordinates
/// (`x`, `y`) in channel `z`: the four integer neighbors of the source
/// coordinate, interpolated along axis 0 by its fractional part and then
/// along axis 1 by its fractional part, truncated to the sample range.
pub open spec fn bilinear_at(
    src_shape: Shape,
    src: Seq<u8>,
    dst_shape: Shape,
    x: int,
    y: int,
    z: int,
) -> u8 {
    let s0 = src_shape.0 as int;
    let s1 = src_shape.1 as int;
    let d0 = dst_shape.0 as int;
    let d1 = dst_shape.1 as int;
    let f0 = src_floor(x, s0, d0);
    let r0 = src_rem(x, s0, d0);
    let h0 = src_ceil(x, s0, d0);
    let f1 = src_floor(y, s1, d1);
    let r1 = src_rem(y, s1, d1);
    let h1 = src_ceil(y, s1, d1);
    let c00 = src[lin(src_shape, f0, f1, z)] as int;
    let c10 = src[lin(src_shape, h0, f1, z)] as int;
    let c01 = src[lin(src_shape, f0, h1, z)] as int;
    let c11 = src[lin(src_shape, h0, h1, z)] as int;
    let lo = c00 * (d0 - r0) + c10 * r0;
    let hi = c01 * (d0 - r0) + c11 * r0;
    ((lo * (d1 - r1) + hi * r1) / (d0 * d1)) as u8
}

/// The whole resampled frame, sample by sample.
pub open spec fn resampled(src_shape: Shape, src: Seq<u8>, dst_shape: Shape) -> Seq<u8> {
    Seq::new(
        vol(dst_shape) as nat,
        |j: int|
            bilinear_at(
                src_shape,
                src,
                dst_shape,
                coord0(dst_shape, j),
                coord1(dst_shape, j),
                coord2(dst_shape, j),
            ),
    )
}

/// The floor neighbor, ceiling neighbor and fractional numerator of the
/// source coordinate feeding destination coordinate `pos` along one axis.
fn axis_gather(pos: usize, s: usize, d: usize) -> (r: (usize, usize, usize))
    requires
        pos < d,
        s >= 1,
    ensures
        r.0 == src_floor(pos as int, s as int, d as int),
        r.1 == src_ceil(pos as int, s as int, d as int),
        r.2 == src_rem(pos as int, s as int, d as int),
        0 <= r.0 < s,
        0 <= r.1 < s,
        0 <= r.2 < d,
{
    proof {
        assert(pos * s <= 0xffff_ffff_ffff_ffffu128 * 0xffff_ffff_ffff_ffffu128)
            by (nonlinear_arith)
            requires
                0 <= pos <= 0xffff_ffff_ffff_ffffu128,
                0 <= s <= 0xffff_ffff_ffff_ffffu128,
        ;
    }
    let num: u128 = (pos as u128) * (s as u128);
    proof {
        assert(pos * s < d * s) by (nonlinear_arith)
            requires
                0 <= pos < d,
                s >= 1,
        ;
        lemma_multiply_divide_lt(pos as int * s as int, d as int, s as int);
        lemma_mod_bound(pos as int * s as int, d as int);
        vstd::arithmetic::div_mod::lemma_div_pos_is_pos(pos as int * s as int, d as int);
    }
    let f = (num / (d as u128)) as usize;
    let rem = (num % (d as u128)) as usize;
    let h = if rem > 0 && f + 1 < s {
        f + 1
    } else if rem > 0 {
        s - 1
    } else {
        f
    };
    (f, h, rem)
}

/// The numerator of the bilinear sum stays within the full-intensity
/// bound, so the quotient is a sample.
proof fn lemma_bilinear_num_bound(
    c00: int,
    c10: int,
    c01: int,
    c11: int,
    d0: int,
    r0: int,
    d1: int,
    r1: int,
)
    requires
        0 <= c00 <= 255,
        0 <= c10 <= 255,
        0 <= c01 <= 255,
        0 <= c11 <= 255,
        0 <= r0 < d0,
        0 <= r1 < d1,
    ensures
        0 <= c00 * (d0 - r0) + c10 * r0 <= 255 * d0,
        0 <= c01 * (d0 - r0) + c11 * r0 <= 255 * d0,
        0 <= (c00 * (d0 - r0) + c10 * r0) * (d1 - r1) + (c01 * (d0 - r0) + c11 * r0) * r1 <= 255
            * (d0 * d1),
{
    assert(0 <= c00 * (d0 - r0) + c10 * r0 <= 255 * d0 && 0 <= c01 * (d0 - r0) + c11 * r0 <= 255
        * d0) by (nonlinear_arith)
        requires
            0 <= c00 <= 255,
            0 <= c10 <= 255,
            0 <= c01 <= 255,
            0 <= c11 <= 255,
            0 <= r0 < d0,
    ;
    let lo = c00 * (d0 - r0) + c10 * r0;
    let hi = c01 * (d0 - r0) + c11 * r0;
    assert(0 <= lo * (d1 - r1) + hi * r1 <= 255 * (d0 * d1)) by (nonlinear_arith)
        requires
            0 <= lo <= 255 * d0,
            0 <= hi <= 255 * d0,
            0 <= r1 < d1,
    ;
}

/// Reconstructs the source at the destination resolution: for every
/// destination coordinate the bilinear interpolation of its four source
/// neighbors, channel by channel.
pub fn resample_bytes(src_shape: Shape, src: &Vec<u8>, dst_shape: Shape) -> (r: Vec<u8>)
    requires
        src@.len() == vol(src_shape),
        src_shape.0 >= 1,
        src_shape.1 >= 1,
        dst_shape.2 == src_shape.2,
        vol(dst_shape) <= usize::MAX,
    ensures
        r@ == resampled(src_shape, src@, dst_shape),
{
    let n = match checked_vol(dst_shape) {
        Some(v) => v,
        None => unreached(),
    };
    let src_len = src.len();
    let mut out: Vec<u8> = Vec::new();
    let mut j: usize = 0;
    while j < n
        invariant
            0 <= j <= n,
            n == vol(dst_shape),
            n <= usize::MAX,
            src@.len() == vol(src_shape),
            src_len == vol(src_shape),
            vol(src_shape) <= usize::MAX,
            src_shape.0 >= 1,
            src_shape.1 >= 1,
            dst_shape.2 == src_shape.2,
            out@.len() == j,
            forall|k: int| 0 <= k < j ==> out@[k] == resampled(src_shape, src@, dst_shape)[k],
        decreases n - j,
    {
        let (x, y, z) = coords_of(dst_shape, j);
        let (f0, h0, r0) = axis_gather(x, src_shape.0, dst_shape.0);
        let (f1, h1, r1) = axis_gather(y, src_shape.1, dst_shape.1);
        let c00 = src[lin_index(src_shape, f0, f1, z)];
        let c10 = src[lin_index(src_shape, h0, f1, z)];
        let c01 = src[lin_index(src_shape, f0, h1, z)];
        let c11 = src[lin_index(src_shape, h0, h1, z)];
        proof {
            lemma_bilinear_num_bound(
                c00 as int,
                c10 as int,
                c01 as int,
                c11 as int,
                dst_shape.0 as int,
                r0 as int,
                dst_shape.1 as int,
                r1 as int,
            );
            assert(dst_shape.0 * dst_shape.1 <= vol(dst_shape)) by (nonlinear_arith)
                requires
                    dst_shape.2 >= 1,
                    dst_shape.0 >= 0,
                    dst_shape.1 >= 0,
                    vol(dst_shape) == dst_shape.0 * dst_shape.1 * dst_shape.2,
            ;
        }
        let w0: u128 = (dst_shape.0 - r0) as u128;
        let lo: u128 = (c00 as u128) * w0 + (c10 as u128) * (r0 as u128);
        let hi: u128 = (c01 as u128) * w0 + (c11 as u128) * (r0 as u128);
        let w1: u128 = (dst_shape.1 - r1) as u128;
        let num: u128 = lo * w1 + hi * (r1 as u128);
        let den: u128 = (dst_shape.0 as u128) * (dst_shape.1 as u128);
        proof {
            lemma_div_is_ordered(
                num as int,
                255 * (dst_shape.0 as int * dst_shape.1 as int),
                den as int,
            );
            lemma_div_by_multiple(255, den as int);
            vstd::arithmetic::div_mod::lemma_div_pos_is_pos(num as int, den as int);
        }
        let v = (num / den) as u8;
        out.push(v);
        proof {
            assert(out@[j as int] == resampled(src_shape, src@, dst_shape)[j as int]);
        }
        j = j + 1;
    }
    assert(out@ =~= resampled(src_shape, src@, dst_shape));
    out
}

/// Resampling a frame at its own resolution reproduces it exactly.
pub proof fn lemma_resample_identity(shape: Shape, src: Seq<u8>)
    requires
        src.len() == vol(shape),
        shape.0 >= 1,
        shape.1 >= 1,
    ensures
        resampled(shape, src, shape) == src,
{
    assert forall|j: int| 0 <= j < src.len() implies resampled(shape, src, shape)[j] == src[j] by {
        lemma_coords_lin(shape, j);
        let x = coord0(shape, j);
        let y = coord1(shape, j);
        let z = coord2(shape, j);
        let s0 = shape.0 as int;
        let s1 = shape.1 as int;
        lemma_div_by_multiple(x, s0);
        lemma_mod_multiples_basic(x, s0);
        lemma_div_by_multiple(y, s1);
        lemma_mod_multiples_basic(y, s1);
        assert(src_floor(x, s0, s0) == x);
        assert(src_rem(x, s0, s0) == 0);
        assert(src_floor(y, s1, s1) == y);
        assert(src_rem(y, s1, s1) == 0);
        let c = src[lin(shape, x, y, z)] as int;
        assert((c * (s0 - 0) + c * 0) * (s1 - 0) + (c * (s0 - 0) + c * 0) * 0 == c * (s0 * s1))
            by (nonlinear_arith);
        lemma_div_by_multiple(c, s0 * s1);
        assert(s0 * s1 > 0) by (nonlinear_arith)
            requires
                s0 >= 1,
                s1 >= 1,
        ;
        assert(bilinear_at(shape, src, shape, x, y, z) == src[j]);
    }
    assert(resampled(shape, src, shape) =~= src);
}

/// Every resampled sample lies between the least and the greatest of the
/// four source neighbors gathered for it: interpolation never leaves the
/// range its inputs span.
pub proof fn lemma_resample_within_neighbors(
    src_shape: Shape,
    src: Seq<u8>,
    dst_shape: Shape,
    j: int,
)
    requires
        src.len() == vol(src_shape),
        src_shape.0 >= 1,
        src_shape.1 >= 1,
        dst_shape.2 == src_shape.2,
        0 <= j < vol(dst_shape),
    ensures
        ({
            let x = coord0(dst_shape, j);
            let y = coord1(dst_shape, j);
            let z = coord2(dst_shape, j);
            let s0 = src_shape.0 as int;
            let s1 = src_shape.1 as int;
            let d0 = dst_shape.0 as int;
            let d1 = dst_shape.1 as int;
            let c00 = src[lin(src_shape, src_floor(x, s0, d0), src_floor(y, s1, d1), z)] as int;
            let c10 = src[lin(src_shape, src_ceil(x, s0, d0), src_floor(y, s1, d1), z)] as int;
            let c01 = src[lin(src_shape, src_floor(x, s0, d0), src_ceil(y, s1, d1), z)] as int;
            let c11 = src[lin(src_shape, src_ceil(x, s0, d0), src_ceil(y, s1, d1), z)] as int;
            let v = resampled(src_shape, src, dst_shape)[j] as int;
            (c00 <= v || c10 <= v || c01 <= v || c11 <= v) && (v <= c00 || v <= c10 || v <= c01
                || v <= c11)
        }),
{
    lemma_coords_lin(dst_shape, j);
    let x = coord0(dst_shape, j);
    let y = coord1(dst_shape, j);
    let z = coord2(dst_shape, j);
    let s0 = src_shape.0 as int;
    let s1 = src_shape.1 as int;
    let d0 = dst_shape.0 as int;
    let d1 = dst_shape.1 as int;
    let f0 = src_floor(x, s0, d0);
    let r0 = src_rem(x, s0, d0);
    let h0 = src_ceil(x, s0, d0);
    let f1 = src_floor(y, s1, d1);
    let r1 = src_rem(y, s1, d1);
    let h1 = src_ceil(y, s1, d1);
    assert(x * s0 < d0 * s0) by (nonlinear_arith)
        requires
            0 <= x < d0,
            s0 >= 1,
    ;
    lemma_multiply_divide_lt(x * s0, d0, s0);
    lemma_mod_bound(x * s0, d0);
    vstd::arithmetic::div_mod::lemma_div_pos_is_pos(x * s0, d0);
    assert(y * s1 < d1 * s1) by (nonlinear_arith)
        requires
            0 <= y < d1,
            s1 >= 1,
    ;
    lemma_multiply_divide_lt(y * s1, d1, s1);
    lemma_mod_bound(y * s1, d1);
    vstd::arithmetic::div_mod::lemma_div_pos_is_pos(y * s1, d1);
    let c00 = src[lin(src_shape, f0, f1, z)] as int;
    let c10 = src[lin(src_shape, h0, f1, z)] as int;
    let c01 = src[lin(src_shape, f0, h1, z)] as int;
    let c11 = src[lin(src_shape, h0, h1, z)] as int;
    let lo = c00 * (d0 - r0) + c10 * r0;
    let hi = c01 * (d0 - r0) + c11 * r0;
    let num = lo * (d1 - r1) + hi * r1;
    let lub = if c00 >= c10 && c00 >= c01 && c00 >= c11 {
        c00
    } else if c10 >= c01 && c10 >= c11 {
        c10
    } else if c01 >= c11 {
        c01
    } else {
        c11
    };
    let glb = if c00 <= c10 && c00 <= c01 && c00 <= c11 {
        c00
    } else if c10 <= c01 && c10 <= c11 {
        c10
    } else if c01 <= c11 {
        c01
    } else {
        c11
    };
    assert(glb * d0 <= lo <= lub * d0 && glb * d0 <= hi <= lub * d0) by (nonlinear_arith)
        requires
            glb <= c00 <= lub,
            glb <= c10 <= lub,
            glb <= c01 <= lub,
            glb <= c11 <= lub,
            0 <= r0 < d0,
            lo == c00 * (d0 - r0) + c10 * r0,
            hi == c01 * (d0 - r0) + c11 * r0,
    ;
    assert(glb * (d0 * d1) <= num <= lub * (d0 * d1)) by (nonlinear_arith)
        requires
            glb * d0 <= lo <= lub * d0,
            glb * d0 <= hi <= lub * d0,
            0 <= r1 < d1,
            num == lo * (d1 - r1) + hi * r1,
    ;
    assert(d0 * d1 > 0) by (nonlinear_arith)
        requires
            d0 >= 1,
            d1 >= 1,
    ;
    lemma_div_is_ordered(glb * (d0 * d1), num, d0 * d1);
    lemma_div_is_ordered(num, lub * (d0 * d1), d0 * d1);
    lemma_div_by_multiple(glb, d0 * d1);
    lemma_div_by_multiple(lub, d0 * d1);
    assert(glb <= num / (d0 * d1) <= lub);
    assert(resampled(src_shape, src, dst_shape)[j] == bilinear_at(src_shape, src, dst_shape, x, y, z));
}

/// Upscaling by whole factors per axis and resampling back to the
/// original shape reproduces the source exactly: every source coordinate
/// scales onto an integer coordinate of the enlarged frame and back, so
/// the round trip deviates from the original by nothing.
pub proof fn lemma_resample_whole_factor_round_trip(
    shape: Shape,
    src: Seq<u8>,
    m0: int,
    m1: int,
    up_shape: Shape,
)
    requires
        src.len() == vol(shape),
        shape.0 >= 1,
        shape.1 >= 1,
        m0 >= 1,
        m1 >= 1,
        up_shape.0 == m0 * shape.0,
        up_shape.1 == m1 * shape.1,
        up_shape.2 == shape.2,
    ensures
        resampled(up_shape, resampled(shape, src, up_shape), shape) == src,
{
    let up = resampled(shape, src, up_shape);
    let s0 = shape.0 as int;
    let s1 = shape.1 as int;
    let u0 = up_shape.0 as int;
    let u1 = up_shape.1 as int;
    assert forall|j: int| 0 <= j < src.len() implies resampled(up_shape, up, shape)[j] == src[j] by {
        lemma_coords_lin(shape, j);
        let x = coord0(shape, j);
        let y = coord1(shape, j);
        let z = coord2(shape, j);
        assert(x * u0 == (x * m0) * s0 && y * u1 == (y * m1) * s1) by (nonlinear_arith)
            requires
                u0 == m0 * s0,
                u1 == m1 * s1,
        ;
        lemma_div_by_multiple(x * m0, s0);
        lemma_mod_multiples_basic(x * m0, s0);
        lemma_div_by_multiple(y * m1, s1);
        lemma_mod_multiples_basic(y * m1, s1);
        assert(src_floor(x, u0, s0) == x * m0);
        assert(src_rem(x, u0, s0) == 0);
        assert(src_floor(y, u1, s1) == y * m1);
        assert(src_rem(y, u1, s1) == 0);
        assert(0 <= x * m0 < u0 && 0 <= y * m1 < u1 && x * m0 >= 0 && y * m1 >= 0)
            by (nonlinear_arith)
            requires
                0 <= x < s0,
                0 <= y < s1,
                m0 >= 1,
                m1 >= 1,
                u0 == m0 * s0,
                u1 == m1 * s1,
        ;
        lemma_lin_coords(up_shape, x * m0, y * m1, z);
        let uj = lin(up_shape, x * m0, y * m1, z);
        let c = up[uj] as int;
        assert((c * (s0 - 0) + c * 0) * (s1 - 0) + (c * (s0 - 0) + c * 0) * 0 == c * (s0 * s1))
            by (nonlinear_arith);
        assert(s0 * s1 > 0) by (nonlinear_arith)
            requires
                s0 >= 1,
                s1 >= 1,
        ;
        lemma_div_by_multiple(c, s0 * s1);
        assert(resampled(up_shape, up, shape)[j] == bilinear_at(up_shape, up, shape, x, y, z));
        assert(bilinear_at(up_shape, up, shape, x, y, z) == up[uj]);
        assert(up[uj] == bilinear_at(shape, src, up_shape, x * m0, y * m1, z));
        assert((x * m0) * s0 == x * u0 && (y * m1) * s1 == y * u1) by (nonlinear_arith)
            requires
                u0 == m0 * s0,
                u1 == m1 * s1,
        ;
        lemma_div_by_multiple(x, u0);
        lemma_mod_multiples_basic(x, u0);
        lemma_div_by_multiple(y, u1);
        lemma_mod_multiples_basic(y, u1);
        assert(src_floor(x * m0, s0, u0) == x);
        assert(src_rem(x * m0, s0, u0) == 0);
        assert(src_floor(y * m1, s1, u1) == y);
        assert(src_rem(y * m1, s1, u1) == 0);
        let c2 = src[lin(shape, x, y, z)] as int;
        assert((c2 * (u0 - 0) + c2 * 0) * (u1 - 0) + (c2 * (u0 - 0) + c2 * 0) * 0 == c2 * (u0
            * u1)) by (nonlinear_arith);
        assert(u0 * u1 > 0) by (nonlinear_arith)
            requires
                u0 >= 1,
                u1 >= 1,
        ;
        lemma_div_by_multiple(c2, u0 * u1);
        assert(bilinear_at(shape, src, up_shape, x * m0, y * m1, z) == src[lin(shape, x, y, z)]);
    }
    assert(resampled(up_shape, up, shape) =~= src);
}

} // verus!
