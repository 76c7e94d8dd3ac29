//! The frame arena and its backend: an append-only collection of frames
//! addressed by opaque handles, with the per-pixel operations on them.

use vstd::prelude::*;
use vstd::pervasive::unreached;
use vstd::pervasive::VecAdditionalExecFns;

use crate::canvas::{copy_mask, mask_bytes, translate_bytes, translated};
use crate::compose::{blend_seq, par_blend};
use crate::error::RenderError;
use crate::frame::{
    buf_clone, buf_from_vec, buf_shape, buf_to_vec, checked_vol, frame_bytes, frame_shape,
    layout_ext, vol, FrameBuf, Shape,
};
use crate::resample::{resample_bytes, resampled};

verus! {

/// A zero-filled sample sequence: the contents of a fresh frame.
pub open spec fn zero_seq(n: int) -> Seq<u8> {
    Seq::new(n as nat, |j: int| 0u8)
}

/// The model of an arena: the shape and the stored samples of each slot,
/// in order of allocation.
pub open spec fn frames_wf(frames: Seq<(Shape, Seq<u8>)>) -> bool {
    forall|i: int|
        0 <= i < frames.len() ==> {
            &&& (#[trigger] frames[i]).1.len() == vol(frames[i].0)
            &&& vol(frames[i].0) <= usize::MAX
            &&& layout_ext(frames[i].0) <= isize::MAX
        }
}

/// Whether an operand triple shares one shape.
pub open spec fn same_shape(a: Shape, b: Shape) -> bool {
    a == b
}

/// A backend owns an arena of frames and implements the per-pixel numeric
/// operations on them.  `frames` is its model; every operation is
/// synchronous and reports a [`RenderError`] instead of panicking, and on
/// failure the arena is left exactly as it was.
pub trait Backend: Sized {
    /// The shape and contents of each arena slot, in order of allocation.
    spec fn frames(&self) -> Seq<(Shape, Seq<u8>)>;

    /// Appends a new zero-filled frame of the given shape and hands out
    /// its handle; a shape with a non-positive dimension is rejected.
    /// Handles already issued stay valid and their frames unchanged.
    fn allocate_frame(&mut self, shape: Shape) -> (r: Result<usize, RenderError>)
        requires
            frames_wf(old(self).frames()),
            shape.0 > 0 && shape.1 > 0 && shape.2 > 0 ==> vol(shape) <= isize::MAX,
        ensures
            frames_wf(final(self).frames()),
            match r {
                Ok(h) => {
                    &&& shape.0 > 0 && shape.1 > 0 && shape.2 > 0
                    &&& h == old(self).frames().len()
                    &&& final(self).frames() == old(self).frames().push(
                        (shape, zero_seq(vol(shape))),
                    )
                },
                Err(e) => {
                    &&& e == RenderError::InvalidSize
                    &&& !(shape.0 > 0 && shape.1 > 0 && shape.2 > 0)
                    &&& final(self).frames() == old(self).frames()
                },
            },
    ;

    /// Replaces the named frame's contents with the given bytes, whose
    /// count must equal the frame's volume; no partial write on failure.
    fn load_frame(&mut self, output_frame_ptr: usize, raw_data: &[u8]) -> (r: Result<
        (),
        RenderError,
    >)
        requires
            frames_wf(old(self).frames()),
        ensures
            frames_wf(final(self).frames()),
            match r {
                Ok(()) => {
                    &&& output_frame_ptr < old(self).frames().len()
                    &&& raw_data@.len() == vol(old(self).frames()[output_frame_ptr as int].0)
                    &&& final(self).frames() == old(self).frames().update(
                        output_frame_ptr as int,
                        (old(self).frames()[output_frame_ptr as int].0, raw_data@),
                    )
                },
                Err(e) => {
                    &&& final(self).frames() == old(self).frames()
                    &&& (e == RenderError::IndexOutOfRange && output_frame_ptr >= old(
                        self,
                    ).frames().len()) || (e == RenderError::ShapeMismatch && output_frame_ptr < old(
                        self,
                    ).frames().len() && raw_data@.len() != vol(
                        old(self).frames()[output_frame_ptr as int].0,
                    ))
                },
            },
    ;

    /// Serializes the named frame row-major into a flat byte buffer plus
    /// its shape; read-only.
    fn export_frame(&self, source_frame_ptr: usize) -> (r: Result<(Vec<u8>, Shape), RenderError>)
        requires
            frames_wf(self.frames()),
        ensures
            match r {
                Ok(out) => {
                    &&& source_frame_ptr < self.frames().len()
                    &&& out.1 == self.frames()[source_frame_ptr as int].0
                    &&& out.0@ == self.frames()[source_frame_ptr as int].1
                },
                Err(e) => {
                    &&& e == RenderError::IndexOutOfRange
                    &&& source_frame_ptr >= self.frames().len()
                },
            },
    ;

    /// Composites the overlay over the base through the alpha mask into
    /// the output slot: every output sample follows the law of
    /// [`crate::compose::blend_byte`].  The three operands must share one
    /// shape, and the output must be a fourth, distinct slot: aliasing an
    /// input is rejected as a shape conflict, since the blend is an
    /// unordered parallel map over the operands.
    fn overlap(
        &mut self,
        base_frame_ptr: usize,
        overlay_frame_ptr: usize,
        alpha_frame_ptr: usize,
        output_frame_ptr: usize,
    ) -> (r: Result<(), RenderError>)
        requires
            frames_wf(old(self).frames()),
        ensures
            frames_wf(final(self).frames()),
            match r {
                Ok(()) => {
                    let frames = old(self).frames();
                    &&& base_frame_ptr < frames.len()
                    &&& overlay_frame_ptr < frames.len()
                    &&& alpha_frame_ptr < frames.len()
                    &&& output_frame_ptr < frames.len()
                    &&& output_frame_ptr != base_frame_ptr
                    &&& output_frame_ptr != overlay_frame_ptr
                    &&& output_frame_ptr != alpha_frame_ptr
                    &&& same_shape(
                        frames[base_frame_ptr as int].0,
                        frames[overlay_frame_ptr as int].0,
                    )
                    &&& same_shape(
                        frames[base_frame_ptr as int].0,
                        frames[alpha_frame_ptr as int].0,
                    )
                    &&& final(self).frames() == frames.update(
                        output_frame_ptr as int,
                        (
                            frames[base_frame_ptr as int].0,
                            blend_seq(
                                frames[base_frame_ptr as int].1,
                                frames[overlay_frame_ptr as int].1,
                                frames[alpha_frame_ptr as int].1,
                            ),
                        ),
                    )
                },
                Err(e) => {
                    let frames = old(self).frames();
                    let handles_ok = base_frame_ptr < frames.len() && overlay_frame_ptr
                        < frames.len() && alpha_frame_ptr < frames.len() && output_frame_ptr
                        < frames.len();
                    &&& final(self).frames() == frames
                    &&& (e == RenderError::IndexOutOfRange && !handles_ok) || (e
                        == RenderError::ShapeMismatch && handles_ok && !(same_shape(
                        frames[base_frame_ptr as int].0,
                        frames[overlay_frame_ptr as int].0,
                    ) && same_shape(
                        frames[base_frame_ptr as int].0,
                        frames[alpha_frame_ptr as int].0,
                    ) && output_frame_ptr != base_frame_ptr && output_frame_ptr
                        != overlay_frame_ptr && output_frame_ptr != alpha_frame_ptr))
                },
            },
    ;

    /// Resamples the source frame to the output slot's resolution, as
    /// [`crate::resample::resampled`] describes; the channel counts must
    /// agree.  An output with an empty dimension is filled with the empty
    /// contents (not an error); a source with an empty resample axis is
    /// rejected.
    fn resize_content(&mut self, source_frame_ptr: usize, output_frame_ptr: usize) -> (r: Result<
        (),
        RenderError,
    >)
        requires
            frames_wf(old(self).frames()),
        ensures
            frames_wf(final(self).frames()),
            match r {
                Ok(()) => {
                    let frames = old(self).frames();
                    let ss = frames[source_frame_ptr as int].0;
                    let ds = frames[output_frame_ptr as int].0;
                    &&& source_frame_ptr < frames.len()
                    &&& output_frame_ptr < frames.len()
                    &&& vol(ds) == 0 || (ss.0 >= 1 && ss.1 >= 1 && ss.2 == ds.2)
                    &&& final(self).frames() == frames.update(
                        output_frame_ptr as int,
                        (ds, resampled(ss, frames[source_frame_ptr as int].1, ds)),
                    )
                },
                Err(e) => {
                    let frames = old(self).frames();
                    let handles_ok = source_frame_ptr < frames.len() && output_frame_ptr
                        < frames.len();
                    &&& final(self).frames() == frames
                    &&& {
                        ||| (e == RenderError::IndexOutOfRange && !handles_ok)
                        ||| (e == RenderError::InvalidSize && handles_ok && vol(
                            frames[output_frame_ptr as int].0,
                        ) != 0 && (frames[source_frame_ptr as int].0.0 == 0
                            || frames[source_frame_ptr as int].0.1 == 0))
                        ||| (e == RenderError::ShapeMismatch && handles_ok && vol(
                            frames[output_frame_ptr as int].0,
                        ) != 0 && frames[source_frame_ptr as int].0.0 >= 1
                            && frames[source_frame_ptr as int].0.1 >= 1
                            && frames[source_frame_ptr as int].0.2
                            != frames[output_frame_ptr as int].0.2)
                    }
                },
            },
    ;

    /// Copies every source sample whose coordinate shifted by `offset`
    /// lies within the output frame's bounds; output samples that no
    /// source coordinate reaches keep their prior value (a clipped copy,
    /// not a fill).  The source may alias the output.
    fn resize_canvas(
        &mut self,
        source_frame_ptr: usize,
        output_frame_ptr: usize,
        offset: (i128, i128, i128),
    ) -> (r: Result<(), RenderError>)
        requires
            frames_wf(old(self).frames()),
        ensures
            frames_wf(final(self).frames()),
            match r {
                Ok(()) => {
                    let frames = old(self).frames();
                    &&& source_frame_ptr < frames.len()
                    &&& output_frame_ptr < frames.len()
                    &&& final(self).frames() == frames.update(
                        output_frame_ptr as int,
                        (
                            frames[output_frame_ptr as int].0,
                            translated(
                                frames[source_frame_ptr as int].0,
                                frames[source_frame_ptr as int].1,
                                frames[output_frame_ptr as int].0,
                                frames[output_frame_ptr as int].1,
                                offset,
                            ),
                        ),
                    )
                },
                Err(e) => {
                    &&& final(self).frames() == old(self).frames()
                    &&& e == RenderError::IndexOutOfRange
                    &&& (source_frame_ptr >= old(self).frames().len() || output_frame_ptr >= old(
                        self,
                    ).frames().len())
                },
            },
    ;

    /// Allocates a frame of the target shape, fills it with the source
    /// resampled to that resolution, and hands out the new handle.  A
    /// target with an empty dimension yields an empty frame (not an
    /// error); a source with an empty resample axis is rejected.
    fn resize(&mut self, source_frame_ptr: usize, target_shape: Shape) -> (r: Result<
        usize,
        RenderError,
    >)
        requires
            frames_wf(old(self).frames()),
            vol(target_shape) <= usize::MAX,
            layout_ext(target_shape) <= isize::MAX,
        ensures
            frames_wf(final(self).frames()),
            match r {
                Ok(h) => {
                    let frames = old(self).frames();
                    let ss = frames[source_frame_ptr as int].0;
                    &&& source_frame_ptr < frames.len()
                    &&& vol(target_shape) == 0 || (ss.0 >= 1 && ss.1 >= 1 && ss.2
                        == target_shape.2)
                    &&& h == frames.len()
                    &&& final(self).frames() == frames.push(
                        (
                            target_shape,
                            resampled(ss, frames[source_frame_ptr as int].1, target_shape),
                        ),
                    )
                },
                Err(e) => {
                    let frames = old(self).frames();
                    let ss = frames[source_frame_ptr as int].0;
                    &&& final(self).frames() == frames
                    &&& {
                        ||| (e == RenderError::IndexOutOfRange && source_frame_ptr >= frames.len())
                        ||| (e == RenderError::InvalidSize && source_frame_ptr < frames.len()
                            && vol(target_shape) != 0 && (ss.0 == 0 || ss.1 == 0))
                        ||| (e == RenderError::ShapeMismatch && source_frame_ptr < frames.len()
                            && vol(target_shape) != 0 && ss.0 >= 1 && ss.1 >= 1 && ss.2
                            != target_shape.2)
                    }
                },
            },
    ;

    /// Allocates a frame of the output shape holding the source translated
    /// by `offset` over zero contents, together with a companion alpha
    /// mask frame: a full sample exactly where a source sample was copied,
    /// a zero sample everywhere else.  Returns the (output, mask) handles.
    fn extend(&mut self, source_frame_ptr: usize, output_shape: Shape, offset: (i128, i128, i128))
        -> (r: Result<(usize, usize), RenderError>)
        requires
            frames_wf(old(self).frames()),
            vol(output_shape) <= usize::MAX,
            layout_ext(output_shape) <= isize::MAX,
        ensures
            frames_wf(final(self).frames()),
            match r {
                Ok(hs) => {
                    let frames = old(self).frames();
                    let ss = frames[source_frame_ptr as int].0;
                    &&& source_frame_ptr < frames.len()
                    &&& hs.0 == frames.len()
                    &&& hs.1 == frames.len() + 1
                    &&& final(self).frames() == frames.push(
                        (
                            output_shape,
                            translated(
                                ss,
                                frames[source_frame_ptr as int].1,
                                output_shape,
                                zero_seq(vol(output_shape)),
                                offset,
                            ),
                        ),
                    ).push((output_shape, copy_mask(ss, output_shape, offset)))
                },
                Err(e) => {
                    &&& final(self).frames() == old(self).frames()
                    &&& e == RenderError::IndexOutOfRange
                    &&& source_frame_ptr >= old(self).frames().len()
                },
            },
    ;
}

/// The transition [`Backend::allocate_frame`] promises, applied to the
/// model: allocation appends one zero-filled frame of the shape's volume,
/// so an export of the fresh handle before any load returns a buffer of
/// the default sample.
pub proof fn lemma_allocate_then_export(frames: Seq<(Shape, Seq<u8>)>, shape: Shape)
    ensures
        ({
            let after = frames.push((shape, zero_seq(vol(shape))));
            let h = frames.len() as int;
            &&& after[h].0 == shape
            &&& after[h].1.len() == vol(shape)
            &&& forall|i: int| 0 <= i < vol(shape) ==> after[h].1[i] == 0u8
        }),
{
}

/// The transition [`Backend::load_frame`] promises, applied to the model:
/// loading a correctly sized buffer and exporting the same handle returns
/// exactly that buffer together with the frame's unchanged shape, and no
/// other slot moves.
pub proof fn lemma_load_then_export(frames: Seq<(Shape, Seq<u8>)>, h: int, bytes: Seq<u8>)
    requires
        0 <= h < frames.len(),
    ensures
        ({
            let after = frames.update(h, (frames[h].0, bytes));
            &&& after.len() == frames.len()
            &&& after[h].0 == frames[h].0
            &&& after[h].1 == bytes
            &&& forall|i: int| 0 <= i < frames.len() && i != h ==> after[i] == frames[i]
        }),
{
}

/// The view of one stored buffer in the arena model.
pub open spec fn frame_view(b: FrameBuf) -> (Shape, Seq<u8>) {
    (frame_shape(b), frame_bytes(b))
}

/// The CPU backend: an append-only arena of owned frame buffers.  Every
/// access goes through a checked handle lookup; compositing, translation
/// and resampling compute into a fresh buffer and only then replace the
/// destination slot.
pub struct CpuBackend {
    data: Vec<FrameBuf>,
}

impl CpuBackend {
    pub fn new() -> (r: CpuBackend)
        ensures
            r.frames() == Seq::<(Shape, Seq<u8>)>::empty(),
            frames_wf(r.frames()),
    {
        let r = CpuBackend { data: Vec::new() };
        proof {
            assert(r.frames() =~= Seq::<(Shape, Seq<u8>)>::empty());
        }
        r
    }

    /// Maps every sample of the source frame through the predicate,
    /// indexed by its coordinates, and replaces the output slot's contents
    /// with the result; the two slots must hold equally many samples.
    pub fn map<F: Fn((usize, usize, usize), u8) -> u8>(
        &mut self,
        source_frame_ptr: usize,
        output_frame_ptr: usize,
        predicate: F,
    ) -> (r: Result<(), RenderError>)
        requires
            frames_wf(old(self).frames()),
            forall|p: (usize, usize, usize), v: u8| #[trigger] call_requires(predicate, (p, v)),
        ensures
            frames_wf(final(self).frames()),
            match r {
                Ok(()) => {
                    let frames = old(self).frames();
                    let ss = frames[source_frame_ptr as int].0;
                    let ds = frames[output_frame_ptr as int].0;
                    &&& source_frame_ptr < frames.len()
                    &&& output_frame_ptr < frames.len()
                    &&& vol(ss) == vol(ds)
                    &&& final(self).frames().len() == frames.len()
                    &&& forall|i: int|
                        0 <= i < frames.len() && i != output_frame_ptr ==> final(self).frames()[i]
                            == frames[i]
                    &&& final(self).frames()[output_frame_ptr as int].0 == ds
                    &&& final(self).frames()[output_frame_ptr as int].1.len() == vol(ds)
                    &&& forall|j: int|
                        0 <= j < vol(ss) ==> call_ensures(
                            predicate,
                            (
                                (
                                    crate::frame::coord0(ss, j) as usize,
                                    crate::frame::coord1(ss, j) as usize,
                                    crate::frame::coord2(ss, j) as usize,
                                ),
                                frames[source_frame_ptr as int].1[j],
                            ),
                            #[trigger] final(self).frames()[output_frame_ptr as int].1[j],
                        )
                },
                Err(e) => {
                    let frames = old(self).frames();
                    let handles_ok = source_frame_ptr < frames.len() && output_frame_ptr
                        < frames.len();
                    &&& final(self).frames() == frames
                    &&& (e == RenderError::IndexOutOfRange && !handles_ok) || (e
                        == RenderError::ShapeMismatch && handles_ok && vol(
                        frames[source_frame_ptr as int].0,
                    ) != vol(frames[output_frame_ptr as int].0))
                },
            },
    {
        let n = self.data.len();
        if source_frame_ptr >= n || output_frame_ptr >= n {
            return Err(RenderError::IndexOutOfRange);
        }
        proof {
            lemma_slot_facts(self.data@, source_frame_ptr as int);
            lemma_slot_facts(self.data@, output_frame_ptr as int);
        }
        let ss = buf_shape(&self.data[source_frame_ptr]);
        let ds = buf_shape(&self.data[output_frame_ptr]);
        let sv = buf_to_vec(&self.data[source_frame_ptr]);
        let dst_vol = match checked_vol(ds) {
            Some(v) => v,
            None => unreached(),
        };
        let count = sv.len();
        if count != dst_vol {
            return Err(RenderError::ShapeMismatch);
        }
        let mut out: Vec<u8> = Vec::new();
        let mut j: usize = 0;
        while j < count
            invariant
                0 <= j <= count,
                count == vol(ss),
                count <= usize::MAX,
                sv@.len() == vol(ss),
                out@.len() == j,
                forall|p: (usize, usize, usize), v: u8| #[trigger] call_requires(predicate, (p, v)),
                forall|k: int|
                    0 <= k < j ==> call_ensures(
                        predicate,
                        (
                            (
                                crate::frame::coord0(ss, k) as usize,
                                crate::frame::coord1(ss, k) as usize,
                                crate::frame::coord2(ss, k) as usize,
                            ),
                            sv@[k],
                        ),
                        #[trigger] out@[k],
                    ),
            decreases count - j,
        {
            let coords = crate::frame::coords_of(ss, j);
            let val = predicate(coords, sv[j]);
            out.push(val);
            j = j + 1;
        }
        let buf = buf_from_vec(ds, out);
        proof {
            lemma_frames_set(self.data@, output_frame_ptr as int, buf);
            lemma_wf_update(
                self.frames(),
                output_frame_ptr as int,
                (ds, frame_bytes(buf)),
            );
        }
        self.data.set(output_frame_ptr, buf);
        Ok(())
    }

    /// A copy of the named slot's whole buffer.
    pub fn export_to_ndarray(&self, source_frame_ptr: usize) -> (r: FrameBuf)
        requires
            source_frame_ptr < self.frames().len(),
        ensures
            frame_view(r) == self.frames()[source_frame_ptr as int],
    {
        buf_clone(&self.data[source_frame_ptr])
    }
}

impl Default for CpuBackend {
    fn default() -> (r: CpuBackend)
        ensures
            r.frames() == Seq::<(Shape, Seq<u8>)>::empty(),
            frames_wf(r.frames()),
    {
        CpuBackend::new()
    }
}

/// Replacing one buffer replaces exactly one entry of the model.
proof fn lemma_frames_set(data: Seq<FrameBuf>, h: int, b: FrameBuf)
    requires
        0 <= h < data.len(),
    ensures
        data.update(h, b).map_values(|fb: FrameBuf| frame_view(fb)) == data.map_values(
            |fb: FrameBuf| frame_view(fb),
        ).update(h, frame_view(b)),
{
    assert(data.update(h, b).map_values(|fb: FrameBuf| frame_view(fb)) =~= data.map_values(
        |fb: FrameBuf| frame_view(fb),
    ).update(h, frame_view(b)));
}

/// Appending one buffer appends exactly one entry of the model.
proof fn lemma_frames_push(data: Seq<FrameBuf>, b: FrameBuf)
    ensures
        data.push(b).map_values(|fb: FrameBuf| frame_view(fb)) == data.map_values(
            |fb: FrameBuf| frame_view(fb),
        ).push(frame_view(b)),
{
    assert(data.push(b).map_values(|fb: FrameBuf| frame_view(fb)) =~= data.map_values(
        |fb: FrameBuf| frame_view(fb),
    ).push(frame_view(b)));
}

/// What the arena model says of one stored buffer.
proof fn lemma_slot_facts(data: Seq<FrameBuf>, h: int)
    requires
        frames_wf(data.map_values(|fb: FrameBuf| frame_view(fb))),
        0 <= h < data.len(),
    ensures
        frame_bytes(data[h]).len() == vol(frame_shape(data[h])),
        vol(frame_shape(data[h])) <= usize::MAX,
        layout_ext(frame_shape(data[h])) <= isize::MAX,
        data.map_values(|fb: FrameBuf| frame_view(fb))[h] == frame_view(data[h]),
{
    let m = data.map_values(|fb: FrameBuf| frame_view(fb));
    assert(m[h] == frame_view(data[h]));
    assert(m[h].1.len() == vol(m[h].0));
}

/// A well-formed model stays well formed when one slot is replaced by a
/// well-formed frame.
proof fn lemma_wf_update(frames: Seq<(Shape, Seq<u8>)>, h: int, entry: (Shape, Seq<u8>))
    requires
        frames_wf(frames),
        0 <= h < frames.len(),
        entry.1.len() == vol(entry.0),
        vol(entry.0) <= usize::MAX,
        layout_ext(entry.0) <= isize::MAX,
    ensures
        frames_wf(frames.update(h, entry)),
{
    let after = frames.update(h, entry);
    assert forall|i: int| 0 <= i < after.len() implies {
        &&& (#[trigger] after[i]).1.len() == vol(after[i].0)
        &&& vol(after[i].0) <= usize::MAX
        &&& layout_ext(after[i].0) <= isize::MAX
    } by {
        if i != h {
            assert(after[i] == frames[i]);
            assert(frames[i].1.len() == vol(frames[i].0));
        }
    }
}

/// A well-formed model stays well formed when a well-formed frame is
/// appended.
proof fn lemma_wf_push(frames: Seq<(Shape, Seq<u8>)>, entry: (Shape, Seq<u8>))
    requires
        frames_wf(frames),
        entry.1.len() == vol(entry.0),
        vol(entry.0) <= usize::MAX,
        layout_ext(entry.0) <= isize::MAX,
    ensures
        frames_wf(frames.push(entry)),
{
    let after = frames.push(entry);
    assert forall|i: int| 0 <= i < after.len() implies {
        &&& (#[trigger] after[i]).1.len() == vol(after[i].0)
        &&& vol(after[i].0) <= usize::MAX
        &&& layout_ext(after[i].0) <= isize::MAX
    } by {
        if i < frames.len() {
            assert(after[i] == frames[i]);
            assert(frames[i].1.len() == vol(frames[i].0));
        } else {
            assert(after[i] == entry);
        }
    }
}

/// A zero-filled vector of the given length.
fn zero_vec(n: usize) -> (r: Vec<u8>)
    ensures
        r@ == zero_seq(n as int),
{
    let mut out: Vec<u8> = Vec::new();
    let mut i: usize = 0;
    while i < n
        invariant
            0 <= i <= n,
            out@.len() == i,
            forall|k: int| 0 <= k < i ==> out@[k] == 0u8,
        decreases n - i,
    {
        out.push(0);
        i = i + 1;
    }
    assert(out@ =~= zero_seq(n as int));
    out
}

impl Backend for CpuBackend {
    closed spec fn frames(&self) -> Seq<(Shape, Seq<u8>)> {
        self.data@.map_values(|fb: FrameBuf| frame_view(fb))
    }

    fn allocate_frame(&mut self, shape: Shape) -> (r: Result<usize, RenderError>) {
        if shape.0 == 0 || shape.1 == 0 || shape.2 == 0 {
            return Err(RenderError::InvalidSize);
        }
        let n = match checked_vol(shape) {
            Some(v) => v,
            None => unreached(),
        };
        let zeros = zero_vec(n);
        proof {
            assert(layout_ext(shape) == vol(shape));
        }
        let buf = buf_from_vec(shape, zeros);
        let h = self.data.len();
        proof {
            lemma_frames_push(self.data@, buf);
            lemma_wf_push(self.frames(), (shape, zero_seq(vol(shape))));
        }
        self.data.push(buf);
        Ok(h)
    }

    fn load_frame(&mut self, output_frame_ptr: usize, raw_data: &[u8]) -> (r: Result<
        (),
        RenderError,
    >) {
        if output_frame_ptr >= self.data.len() {
            return Err(RenderError::IndexOutOfRange);
        }
        proof {
            lemma_slot_facts(self.data@, output_frame_ptr as int);
        }
        let shape = buf_shape(&self.data[output_frame_ptr]);
        let n = match checked_vol(shape) {
            Some(v) => v,
            None => unreached(),
        };
        if raw_data.len() != n {
            return Err(RenderError::ShapeMismatch);
        }
        let mut bytes: Vec<u8> = Vec::new();
        bytes.extend_from_slice(raw_data);
        proof {
            assert(bytes@ =~= raw_data@);
        }
        let buf = buf_from_vec(shape, bytes);
        proof {
            lemma_frames_set(self.data@, output_frame_ptr as int, buf);
            lemma_wf_update(self.frames(), output_frame_ptr as int, (shape, raw_data@));
        }
        self.data.set(output_frame_ptr, buf);
        Ok(())
    }

    fn export_frame(&self, source_frame_ptr: usize) -> (r: Result<(Vec<u8>, Shape), RenderError>) {
        if source_frame_ptr >= self.data.len() {
            return Err(RenderError::IndexOutOfRange);
        }
        proof {
            lemma_slot_facts(self.data@, source_frame_ptr as int);
        }
        let bytes = buf_to_vec(&self.data[source_frame_ptr]);
        let shape = buf_shape(&self.data[source_frame_ptr]);
        Ok((bytes, shape))
    }

    fn overlap(
        &mut self,
        base_frame_ptr: usize,
        overlay_frame_ptr: usize,
        alpha_frame_ptr: usize,
        output_frame_ptr: usize,
    ) -> (r: Result<(), RenderError>) {
        let n = self.data.len();
        if base_frame_ptr >= n || overlay_frame_ptr >= n || alpha_frame_ptr >= n
            || output_frame_ptr >= n {
            return Err(RenderError::IndexOutOfRange);
        }
        proof {
            lemma_slot_facts(self.data@, base_frame_ptr as int);
            lemma_slot_facts(self.data@, overlay_frame_ptr as int);
            lemma_slot_facts(self.data@, alpha_frame_ptr as int);
            lemma_slot_facts(self.data@, output_frame_ptr as int);
        }
        let bs = buf_shape(&self.data[base_frame_ptr]);
        let os = buf_shape(&self.data[overlay_frame_ptr]);
        let als = buf_shape(&self.data[alpha_frame_ptr]);
        if !(bs.0 == os.0 && bs.1 == os.1 && bs.2 == os.2 && bs.0 == als.0 && bs.1 == als.1 && bs.2
            == als.2) {
            return Err(RenderError::ShapeMismatch);
        }
        if output_frame_ptr == base_frame_ptr || output_frame_ptr == overlay_frame_ptr
            || output_frame_ptr == alpha_frame_ptr {
            return Err(RenderError::ShapeMismatch);
        }
        let bv = buf_to_vec(&self.data[base_frame_ptr]);
        let ov = buf_to_vec(&self.data[overlay_frame_ptr]);
        let av = buf_to_vec(&self.data[alpha_frame_ptr]);
        let blended = par_blend(&bv, &ov, &av);
        let buf = buf_from_vec(bs, blended);
        proof {
            lemma_frames_set(self.data@, output_frame_ptr as int, buf);
            lemma_wf_update(
                self.frames(),
                output_frame_ptr as int,
                (bs, blend_seq(bv@, ov@, av@)),
            );
        }
        self.data.set(output_frame_ptr, buf);
        Ok(())
    }

    fn resize_content(&mut self, source_frame_ptr: usize, output_frame_ptr: usize) -> (r: Result<
        (),
        RenderError,
    >) {
        let n = self.data.len();
        if source_frame_ptr >= n || output_frame_ptr >= n {
            return Err(RenderError::IndexOutOfRange);
        }
        proof {
            lemma_slot_facts(self.data@, source_frame_ptr as int);
            lemma_slot_facts(self.data@, output_frame_ptr as int);
        }
        let ss = buf_shape(&self.data[source_frame_ptr]);
        let ds = buf_shape(&self.data[output_frame_ptr]);
        if ds.0 == 0 || ds.1 == 0 || ds.2 == 0 {
            proof {
                assert(vol(ds) == 0) by (nonlinear_arith)
                    requires
                        ds.0 == 0 || ds.1 == 0 || ds.2 == 0,
                        vol(ds) == ds.0 * ds.1 * ds.2,
                ;
            }
            let buf = buf_from_vec(ds, Vec::new());
            proof {
                assert(resampled(ss, frame_bytes(self.data@[source_frame_ptr as int]), ds)
                    =~= Seq::<u8>::empty());
                lemma_frames_set(self.data@, output_frame_ptr as int, buf);
                lemma_wf_update(
                    self.frames(),
                    output_frame_ptr as int,
                    (ds, resampled(ss, frame_bytes(self.data@[source_frame_ptr as int]), ds)),
                );
            }
            self.data.set(output_frame_ptr, buf);
            return Ok(());
        }
        proof {
            assert(vol(ds) > 0) by (nonlinear_arith)
                requires
                    ds.0 >= 1,
                    ds.1 >= 1,
                    ds.2 >= 1,
                    vol(ds) == ds.0 * ds.1 * ds.2,
            ;
        }
        if ss.0 == 0 || ss.1 == 0 {
            return Err(RenderError::InvalidSize);
        }
        if ss.2 != ds.2 {
            return Err(RenderError::ShapeMismatch);
        }
        let sv = buf_to_vec(&self.data[source_frame_ptr]);
        let rv = resample_bytes(ss, &sv, ds);
        let buf = buf_from_vec(ds, rv);
        proof {
            lemma_frames_set(self.data@, output_frame_ptr as int, buf);
            lemma_wf_update(
                self.frames(),
                output_frame_ptr as int,
                (ds, resampled(ss, sv@, ds)),
            );
        }
        self.data.set(output_frame_ptr, buf);
        Ok(())
    }

    fn resize_canvas(
        &mut self,
        source_frame_ptr: usize,
        output_frame_ptr: usize,
        offset: (i128, i128, i128),
    ) -> (r: Result<(), RenderError>) {
        let n = self.data.len();
        if source_frame_ptr >= n || output_frame_ptr >= n {
            return Err(RenderError::IndexOutOfRange);
        }
        proof {
            lemma_slot_facts(self.data@, source_frame_ptr as int);
            lemma_slot_facts(self.data@, output_frame_ptr as int);
        }
        let ss = buf_shape(&self.data[source_frame_ptr]);
        let ds = buf_shape(&self.data[output_frame_ptr]);
        let sv = buf_to_vec(&self.data[source_frame_ptr]);
        let dv = buf_to_vec(&self.data[output_frame_ptr]);
        let tv = translate_bytes(ss, &sv, ds, &dv, offset);
        let buf = buf_from_vec(ds, tv);
        proof {
            lemma_frames_set(self.data@, output_frame_ptr as int, buf);
            lemma_wf_update(
                self.frames(),
                output_frame_ptr as int,
                (ds, translated(ss, sv@, ds, dv@, offset)),
            );
        }
        self.data.set(output_frame_ptr, buf);
        Ok(())
    }

    fn resize(&mut self, source_frame_ptr: usize, target_shape: Shape) -> (r: Result<
        usize,
        RenderError,
    >) {
        if source_frame_ptr >= self.data.len() {
            return Err(RenderError::IndexOutOfRange);
        }
        proof {
            lemma_slot_facts(self.data@, source_frame_ptr as int);
        }
        let ss = buf_shape(&self.data[source_frame_ptr]);
        let h = self.data.len();
        if target_shape.0 == 0 || target_shape.1 == 0 || target_shape.2 == 0 {
            proof {
                assert(vol(target_shape) == 0) by (nonlinear_arith)
                    requires
                        target_shape.0 == 0 || target_shape.1 == 0 || target_shape.2 == 0,
                        vol(target_shape) == target_shape.0 * target_shape.1 * target_shape.2,
                ;
            }
            let buf = buf_from_vec(target_shape, Vec::new());
            proof {
                assert(resampled(
                    ss,
                    frame_bytes(self.data@[source_frame_ptr as int]),
                    target_shape,
                ) =~= Seq::<u8>::empty());
                lemma_frames_push(self.data@, buf);
                lemma_wf_push(
                    self.frames(),
                    (
                        target_shape,
                        resampled(
                            ss,
                            frame_bytes(self.data@[source_frame_ptr as int]),
                            target_shape,
                        ),
                    ),
                );
            }
            self.data.push(buf);
            return Ok(h);
        }
        proof {
            assert(vol(target_shape) > 0) by (nonlinear_arith)
                requires
                    target_shape.0 >= 1,
                    target_shape.1 >= 1,
                    target_shape.2 >= 1,
                    vol(target_shape) == target_shape.0 * target_shape.1 * target_shape.2,
            ;
        }
        if ss.0 == 0 || ss.1 == 0 {
            return Err(RenderError::InvalidSize);
        }
        if ss.2 != target_shape.2 {
            return Err(RenderError::ShapeMismatch);
        }
        let sv = buf_to_vec(&self.data[source_frame_ptr]);
        let rv = resample_bytes(ss, &sv, target_shape);
        let buf = buf_from_vec(target_shape, rv);
        proof {
            lemma_frames_push(self.data@, buf);
            lemma_wf_push(self.frames(), (target_shape, resampled(ss, sv@, target_shape)));
        }
        self.data.push(buf);
        Ok(h)
    }

    fn extend(&mut self, source_frame_ptr: usize, output_shape: Shape, offset: (i128, i128, i128))
        -> (r: Result<(usize, usize), RenderError>) {
        if source_frame_ptr >= self.data.len() {
            return Err(RenderError::IndexOutOfRange);
        }
        proof {
            lemma_slot_facts(self.data@, source_frame_ptr as int);
        }
        let ss = buf_shape(&self.data[source_frame_ptr]);
        let n = match checked_vol(output_shape) {
            Some(v) => v,
            None => unreached(),
        };
        let zeros = zero_vec(n);
        let sv = buf_to_vec(&self.data[source_frame_ptr]);
        let tv = translate_bytes(ss, &sv, output_shape, &zeros, offset);
        let mv = mask_bytes(ss, output_shape, offset);
        let out_buf = buf_from_vec(output_shape, tv);
        let mask_buf = buf_from_vec(output_shape, mv);
        let out_h = self.data.len();
        proof {
            lemma_frames_push(self.data@, out_buf);
            lemma_wf_push(
                self.frames(),
                (
                    output_shape,
                    translated(ss, sv@, output_shape, zero_seq(vol(output_shape)), offset),
                ),
            );
        }
        self.data.push(out_buf);
        let mask_h = self.data.len();
        proof {
            lemma_frames_push(self.data@, mask_buf);
            lemma_wf_push(self.frames(), (output_shape, copy_mask(ss, output_shape, offset)));
        }
        self.data.push(mask_buf);
        Ok((out_h, mask_h))
    }
}

} // verus!
