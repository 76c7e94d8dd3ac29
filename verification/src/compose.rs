//! Alpha compositing of frames: the per-sample law and the data-parallel
//! map over whole buffers.

use vstd::prelude::*;
use rayon::iter::{IndexedParallelIterator, IntoParallelRefIterator, ParallelIterator};

use crate::representation::{mix_byte, mix_channel};

verus! {

/// The compositing law per sample: the overlay weighted by the mask's
/// normalized coverage `alpha / 255`, over the base weighted by the
/// remainder, truncated to the sample range.
pub open spec fn blend_byte(base: u8, overlay: u8, alpha: u8) -> u8 {
    mix_byte(overlay, base, alpha)
}

/// Computes [`blend_byte`].
pub fn blend_sample(base: u8, overlay: u8, alpha: u8) -> (r: u8)
    ensures
        r == blend_byte(base, overlay, alpha),
{
    mix_channel(overlay, base, alpha)
}

/// The pointwise blend of whole sample sequences.
pub open spec fn blend_seq(base: Seq<u8>, overlay: Seq<u8>, alpha: Seq<u8>) -> Seq<u8> {
    Seq::new(base.len(), |j: int| blend_byte(base[j], overlay[j], alpha[j]))
}

/// Relies on rayon's `par_iter`, `zip` and `collect` into a `Vec`: indexed
/// parallel iterators pair items by index and collect keeps them in their
/// original order, so the result is the pointwise image of the inputs.
/// The per-sample arithmetic is the verified [`blend_sample`].
#[verifier::external_body]
pub(crate) fn par_blend(base: &Vec<u8>, overlay: &Vec<u8>, alpha: &Vec<u8>) -> (r: Vec<u8>)
    requires
        overlay@.len() == base@.len(),
        alpha@.len() == base@.len(),
    ensures
        r@ == blend_seq(base@, overlay@, alpha@),
{
    base.par_iter()
        .zip(overlay.par_iter())
        .zip(alpha.par_iter())
        .map(|((b, o), a)| blend_sample(*b, *o, *a))
        .collect()
}

/// The boundary law of compositing: a zero mask keeps the base exactly, a
/// full mask takes the overlay exactly, and the half mask 128 lands within
/// one unit of the integer average of the two samples.
pub proof fn lemma_blend_boundaries(base: u8, overlay: u8)
    ensures
        blend_byte(base, overlay, 0) == base,
        blend_byte(base, overlay, 255) == overlay,
        -1 <= blend_byte(base, overlay, 128) - (base + overlay) / 2 <= 1,
{
    let b = base as int;
    let o = overlay as int;
    assert(o * 0 + b * (255 - 0) == 255 * b);
    vstd::arithmetic::div_mod::lemma_div_multiples_vanish(b, 255);
    assert(o * 255 + b * (255 - 255) == 255 * o);
    vstd::arithmetic::div_mod::lemma_div_multiples_vanish(o, 255);
    let x = o * 128 + b * 127;
    vstd::arithmetic::div_mod::lemma_fundamental_div_mod(x, 255);
    vstd::arithmetic::div_mod::lemma_mod_bound(x, 255);
    vstd::arithmetic::div_mod::lemma_fundamental_div_mod(b + o, 2);
    vstd::arithmetic::div_mod::lemma_mod_bound(b + o, 2);
    assert(2 * x == 255 * (b + o) + (o - b));
    assert(0 <= x / 255 <= 255);
}

} // verus!
