//! Loading decoded image planes into backend frames, and the plane
//! splitting that prepares packed RGBA bytes for them.

use vstd::prelude::*;

use crate::backend::{frames_wf, Backend};
use crate::error::RenderError;
use crate::frame::{checked_vol, vol, Shape};

verus! {

/// A decoded image resident in the arena: its color frame, its optional
/// alpha-mask frame, and their shared shape.
pub struct LoadedImage {
    pub image_ptr: usize,
    pub alpha_mask_ptr: Option<usize>,
    pub shape: Shape,
}

impl LoadedImage {
    /// Allocates a frame of the given shape and fills it with the decoded
    /// bytes; the returned image carries no alpha mask yet.
    pub fn from_bytes<T: Backend>(bytes: &[u8], shape: Shape, mut_backend: &mut T) -> (r: Result<
        LoadedImage,
        RenderError,
    >)
        requires
            frames_wf(old(mut_backend).frames()),
            shape.0 > 0 && shape.1 > 0 && shape.2 > 0 ==> vol(shape) <= isize::MAX,
        ensures
            frames_wf(final(mut_backend).frames()),
            match r {
                Ok(img) => {
                    &&& shape.0 > 0 && shape.1 > 0 && shape.2 > 0
                    &&& bytes@.len() == vol(shape)
                    &&& img.image_ptr == old(mut_backend).frames().len()
                    &&& img.alpha_mask_ptr is None
                    &&& img.shape == shape
                    &&& final(mut_backend).frames() == old(mut_backend).frames().push(
                        (shape, bytes@),
                    )
                },
                Err(e) => {
                    &&& final(mut_backend).frames() == old(mut_backend).frames()
                    &&& (e == RenderError::InvalidSize && !(shape.0 > 0 && shape.1 > 0 && shape.2
                        > 0)) || (e == RenderError::ShapeMismatch && shape.0 > 0 && shape.1 > 0
                        && shape.2 > 0 && bytes@.len() != vol(shape))
                },
            },
    {
        if shape.0 == 0 || shape.1 == 0 || shape.2 == 0 {
            return Err(RenderError::InvalidSize);
        }
        let n = match checked_vol(shape) {
            Some(v) => v,
            None => {
                return Err(RenderError::ShapeMismatch);
            },
        };
        if bytes.len() != n {
            return Err(RenderError::ShapeMismatch);
        }
        let image_ptr = match mut_backend.allocate_frame(shape) {
            Ok(h) => h,
            Err(_) => {
                return Err(RenderError::InvalidSize);
            },
        };
        match mut_backend.load_frame(image_ptr, bytes) {
            Ok(()) => {},
            Err(e) => {
                return Err(e);
            },
        }
        proof {
            let before = old(mut_backend).frames();
            assert(before.push((shape, crate::backend::zero_seq(vol(shape)))).update(
                before.len() as int,
                (shape, bytes@),
            ) =~= before.push((shape, bytes@)));
        }
        Ok(LoadedImage { image_ptr, alpha_mask_ptr: None, shape })
    }

    /// Allocates a same-shaped frame for the alpha plane, fills it with
    /// the given bytes and records it as this image's mask.
    pub fn add_alpha_mask<T: Backend>(&mut self, bytes: &[u8], mut_backend: &mut T) -> (r: Result<
        (),
        RenderError,
    >)
        requires
            frames_wf(old(mut_backend).frames()),
            old(self).shape.0 > 0 && old(self).shape.1 > 0 && old(self).shape.2 > 0 ==> vol(
                old(self).shape,
            ) <= isize::MAX,
        ensures
            frames_wf(final(mut_backend).frames()),
            final(self).image_ptr == old(self).image_ptr,
            final(self).shape == old(self).shape,
            match r {
                Ok(()) => {
                    let shape = old(self).shape;
                    &&& shape.0 > 0 && shape.1 > 0 && shape.2 > 0
                    &&& bytes@.len() == vol(shape)
                    &&& final(self).alpha_mask_ptr == Some(old(mut_backend).frames().len() as usize)
                    &&& final(mut_backend).frames() == old(mut_backend).frames().push(
                        (shape, bytes@),
                    )
                },
                Err(e) => {
                    let shape = old(self).shape;
                    &&& final(mut_backend).frames() == old(mut_backend).frames()
                    &&& final(self).alpha_mask_ptr == old(self).alpha_mask_ptr
                    &&& (e == RenderError::InvalidSize && !(shape.0 > 0 && shape.1 > 0 && shape.2
                        > 0)) || (e == RenderError::ShapeMismatch && shape.0 > 0 && shape.1 > 0
                        && shape.2 > 0 && bytes@.len() != vol(shape))
                },
            },
    {
        let shape = self.shape;
        if shape.0 == 0 || shape.1 == 0 || shape.2 == 0 {
            return Err(RenderError::InvalidSize);
        }
        let n = match checked_vol(shape) {
            Some(v) => v,
            None => {
                return Err(RenderError::ShapeMismatch);
            },
        };
        if bytes.len() != n {
            return Err(RenderError::ShapeMismatch);
        }
        let alpha_ptr = match mut_backend.allocate_frame(shape) {
            Ok(h) => h,
            Err(_) => {
                return Err(RenderError::InvalidSize);
            },
        };
        match mut_backend.load_frame(alpha_ptr, bytes) {
            Ok(()) => {},
            Err(e) => {
                return Err(e);
            },
        }
        proof {
            let before = old(mut_backend).frames();
            assert(before.push((shape, crate::backend::zero_seq(vol(shape)))).update(
                before.len() as int,
                (shape, bytes@),
            ) =~= before.push((shape, bytes@)));
        }
        self.alpha_mask_ptr = Some(alpha_ptr);
        Ok(())
    }
}

/// The color plane of a packed RGBA8 buffer: the three color bytes of
/// each pixel, in order, without the alpha byte.
pub fn rgba_color_plane(rgba: &[u8]) -> (r: Vec<u8>)
    requires
        rgba@.len() % 4 == 0,
    ensures
        r@.len() == 3 * (rgba@.len() / 4),
        forall|i: int|
            #![trigger r@[3 * i]]
            0 <= i < rgba@.len() / 4 ==> {
                &&& r@[3 * i] == rgba@[4 * i]
                &&& r@[3 * i + 1] == rgba@[4 * i + 1]
                &&& r@[3 * i + 2] == rgba@[4 * i + 2]
            },
{
    let len = rgba.len();
    let n = len / 4;
    proof {
        vstd::arithmetic::div_mod::lemma_fundamental_div_mod(len as int, 4);
    }
    let mut out: Vec<u8> = Vec::new();
    let mut i: usize = 0;
    while i < n
        invariant
            0 <= i <= n,
            n == rgba@.len() / 4,
            rgba@.len() == 4 * n,
            4 * n <= usize::MAX,
            out@.len() == 3 * i,
            forall|k: int|
                #![trigger out@[3 * k]]
                0 <= k < i ==> {
                    &&& out@[3 * k] == rgba@[4 * k]
                    &&& out@[3 * k + 1] == rgba@[4 * k + 1]
                    &&& out@[3 * k + 2] == rgba@[4 * k + 2]
                },
        decreases n - i,
    {
        let ghost prev = out@;
        out.push(rgba[4 * i]);
        out.push(rgba[4 * i + 1]);
        out.push(rgba[4 * i + 2]);
        proof {
            assert forall|k: int|
                #![trigger out@[3 * k]]
                0 <= k < i + 1 implies {
                &&& out@[3 * k] == rgba@[4 * k]
                &&& out@[3 * k + 1] == rgba@[4 * k + 1]
                &&& out@[3 * k + 2] == rgba@[4 * k + 2]
            } by {
                if k < i {
                    assert(out@[3 * k] == prev[3 * k]);
                    assert(out@[3 * k + 1] == prev[3 * k + 1]);
                    assert(out@[3 * k + 2] == prev[3 * k + 2]);
                    assert(prev[3 * k] == rgba@[4 * k]);
                }
            }
        }
        i = i + 1;
    }
    out
}

/// The alpha plane of a packed RGBA8 buffer, widened to three channels:
/// each pixel's alpha byte repeated three times, so the plane is shaped
/// like the color plane.
pub fn rgba_alpha_plane(rgba: &[u8]) -> (r: Vec<u8>)
    requires
        rgba@.len() % 4 == 0,
    ensures
        r@.len() == 3 * (rgba@.len() / 4),
        forall|i: int|
            #![trigger r@[3 * i]]
            0 <= i < rgba@.len() / 4 ==> {
                &&& r@[3 * i] == rgba@[4 * i + 3]
                &&& r@[3 * i + 1] == rgba@[4 * i + 3]
                &&& r@[3 * i + 2] == rgba@[4 * i + 3]
            },
{
    let len = rgba.len();
    let n = len / 4;
    proof {
        vstd::arithmetic::div_mod::lemma_fundamental_div_mod(len as int, 4);
    }
    let mut out: Vec<u8> = Vec::new();
    let mut i: usize = 0;
    while i < n
        invariant
            0 <= i <= n,
            n == rgba@.len() / 4,
            rgba@.len() == 4 * n,
            4 * n <= usize::MAX,
            out@.len() == 3 * i,
            forall|k: int|
                #![trigger out@[3 * k]]
                0 <= k < i ==> {
                    &&& out@[3 * k] == rgba@[4 * k + 3]
                    &&& out@[3 * k + 1] == rgba@[4 * k + 3]
                    &&& out@[3 * k + 2] == rgba@[4 * k + 3]
                },
        decreases n - i,
    {
        let a = rgba[4 * i + 3];
        let ghost prev = out@;
        out.push(a);
        out.push(a);
        out.push(a);
        proof {
            assert forall|k: int|
                #![trigger out@[3 * k]]
                0 <= k < i + 1 implies {
                &&& out@[3 * k] == rgba@[4 * k + 3]
                &&& out@[3 * k + 1] == rgba@[4 * k + 3]
                &&& out@[3 * k + 2] == rgba@[4 * k + 3]
            } by {
                if k < i {
                    assert(out@[3 * k] == prev[3 * k]);
                    assert(out@[3 * k + 1] == prev[3 * k + 1]);
                    assert(out@[3 * k + 2] == prev[3 * k + 2]);
                    assert(prev[3 * k] == rgba@[4 * k + 3]);
                }
            }
        }
        i = i + 1;
    }
    out
}

} // verus!
