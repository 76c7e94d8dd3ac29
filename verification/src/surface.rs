//! The surface tree: a root surface owning a pixel store, nested clipped
//! and offset sub-surfaces, and the rasterization of drawable objects
//! into the root store.

use vstd::prelude::*;
use vstd::math::min;
use vstd::arithmetic::div_mod::{lemma_fundamental_div_mod, lemma_mod_bound, lemma_multiply_divide_lt};

use crate::compose::{blend_byte, blend_sample};
use crate::representation::{mix_byte, mix_channel, rgba_colors, Color, PixelSet, Position, Size};

verus! {

/// How a draw call combines an object's pixels with the surface's.
#[derive(Copy, Clone, Debug, PartialEq, Eq, Structural)]
pub enum Instruction {
    /// Alpha-composite the object over the store, the object's own alpha
    /// serving as the mask.
    Overlap,
    /// Keep the store's colors and attenuate its alpha by the object's.
    Mask,
}

/// What a draw call carries besides the object: a fill color, an offset
/// into the surface, and a clip limit.
#[derive(Copy, Clone, Debug)]
pub struct DrawingOptions {
    pub fill: Color,
    pub offset: Position,
    pub limit: Size,
}

impl DrawingOptions {
    /// The options of a plain full-surface draw: opaque black fill, no
    /// offset, the whole size as the limit.
    pub fn generate(size: Size) -> (r: DrawingOptions)
        ensures
            r.fill == (Color { r: 0, g: 0, b: 0, a: 255u8 }),
            r.offset.x == 0 && r.offset.y == 0,
            r.limit == size,
    {
        DrawingOptions { fill: Color::new(0, 0, 0, 255), offset: Position::new(0, 0), limit: size }
    }
}

/// An object a surface can rasterize.  `spec_size` and `spec_pixels` are
/// its rendering's model; `inv` is what the object guarantees of itself.
pub trait Drawable: Sized {
    spec fn inv(&self) -> bool;

    spec fn spec_size(&self) -> Size;

    spec fn spec_pixels(&self) -> Seq<Color>;

    /// Produces the object's pixels.
    fn render(&self) -> (r: PixelSet)
        requires
            self.inv(),
        ensures
            r.size == self.spec_size(),
            r.data@ == self.spec_pixels(),
            r.wf(),
    ;

    /// The size the rendering will have.
    fn get_size(&self) -> (s: Size)
        requires
            self.inv(),
        ensures
            s == self.spec_size(),
    ;
}

/// A drawable backed by packed RGBA8 bytes of a known size.
pub struct Image {
    data: Vec<u8>,
    size: Size,
}

impl Image {
    pub fn new(data: Vec<u8>, size: Size) -> (r: Image)
        requires
            data@.len() % 4 == 0,
            data@.len() / 4 == size.area(),
            size.area() <= usize::MAX,
        ensures
            r.inv(),
            r.spec_size() == size,
            r.spec_pixels() == rgba_colors(data@),
    {
        Image { data, size }
    }
}

impl Drawable for Image {
    closed spec fn inv(&self) -> bool {
        &&& self.data@.len() % 4 == 0
        &&& self.data@.len() / 4 == self.size.area()
        &&& self.size.area() <= usize::MAX
    }

    closed spec fn spec_size(&self) -> Size {
        self.size
    }

    closed spec fn spec_pixels(&self) -> Seq<Color> {
        rgba_colors(self.data@)
    }

    fn render(&self) -> (r: PixelSet) {
        let set = PixelSet::from_rgba8(self.data.as_slice());
        set.with_changed_size(self.size)
    }

    fn get_size(&self) -> (s: Size) {
        self.size
    }
}

/// A text object: a placeholder carrying what a glyph rasterizer would
/// need; rendering text is outside this crate's scope.
#[derive(Clone, Debug)]
pub struct Text {
    pub text: String,
    pub font_family_name: String,
    pub font_size: usize,
}

/// The per-pixel combination a draw instruction applies.  `Overlap`
/// composites the object sample over the base by the object's alpha and
/// takes that alpha, a zero-alpha object sample leaving the base sample
/// whole; `Mask` keeps the base color and attenuates its alpha by the
/// object's.
pub open spec fn apply_pixel(instruction: Instruction, base: Color, obj: Color) -> Color {
    match instruction {
        Instruction::Overlap => if obj.a == 0 {
            base
        } else {
            Color {
                r: blend_byte(base.r, obj.r, obj.a),
                g: blend_byte(base.g, obj.g, obj.a),
                b: blend_byte(base.b, obj.b, obj.a),
                a: obj.a,
            }
        },
        Instruction::Mask => Color { r: base.r, g: base.g, b: base.b, a: mix_byte(obj.a, 0u8, base.a) },
    }
}

/// Computes [`apply_pixel`].
pub fn apply_pixel_sample(instruction: Instruction, base: Color, obj: Color) -> (c: Color)
    ensures
        c == apply_pixel(instruction, base, obj),
{
    match instruction {
        Instruction::Overlap => {
            if obj.a == 0 {
                base
            } else {
                Color {
                    r: blend_sample(base.r, obj.r, obj.a),
                    g: blend_sample(base.g, obj.g, obj.a),
                    b: blend_sample(base.b, obj.b, obj.a),
                    a: obj.a,
                }
            }
        },
        Instruction::Mask => Color { r: base.r, g: base.g, b: base.b, a: mix_channel(obj.a, 0, base.a) },
    }
}

/// The store after rasterizing an object's pixels at `offset` under the
/// clip `limit`: every store position reached by an object position within
/// the limit takes the instruction's combination; every other sample keeps
/// its prior value.
pub open spec fn draw_onto(
    store: Seq<Color>,
    store_size: Size,
    instruction: Instruction,
    obj: Seq<Color>,
    obj_size: Size,
    offset: (int, int),
    limit: (int, int),
) -> Seq<Color> {
    Seq::new(
        store.len(),
        |j: int|
            {
                let x = j % (store_size.x as int);
                let y = j / (store_size.x as int);
                let px = x - offset.0;
                let py = y - offset.1;
                if 0 <= px < obj_size.x && 0 <= py < obj_size.y && px < limit.0 && py < limit.1 {
                    apply_pixel(instruction, store[j], obj[py * obj_size.x + px])
                } else {
                    store[j]
                }
            },
    )
}

/// The rasterized store as a fresh vector.
fn drawn_vec(
    store: &PixelSet,
    instruction: Instruction,
    object: &PixelSet,
    offset: Position,
    limit: Size,
) -> (r: Vec<Color>)
    requires
        store.wf(),
        object.wf(),
    ensures
        r@ == draw_onto(
            store.data@,
            store.size,
            instruction,
            object.data@,
            object.size,
            (offset.x as int, offset.y as int),
            (limit.x as int, limit.y as int),
        ),
{
    let n = store.data.len();
    let w = store.size.x;
    let ow = object.size.x;
    let oh = object.size.y;
    let obj_len = object.data.len();
    let mut out: Vec<Color> = Vec::new();
    let mut j: usize = 0;
    while j < n
        invariant
            0 <= j <= n,
            n == store.data@.len(),
            n == store.size.area(),
            w == store.size.x,
            ow == object.size.x,
            oh == object.size.y,
            obj_len == object.data@.len(),
            obj_len == object.size.area(),
            obj_len <= usize::MAX,
            out@.len() == j,
            forall|k: int|
                0 <= k < j ==> out@[k] == draw_onto(
                    store.data@,
                    store.size,
                    instruction,
                    object.data@,
                    object.size,
                    (offset.x as int, offset.y as int),
                    (limit.x as int, limit.y as int),
                )[k],
        decreases n - j,
    {
        proof {
            assert(w >= 1) by (nonlinear_arith)
                requires
                    0 <= j < n,
                    n == w * store.size.y,
                    w >= 0,
            ;
            lemma_mod_bound(j as int, w as int);
            lemma_fundamental_div_mod(j as int, w as int);
        }
        let x = j % w;
        let y = j / w;
        let base = store.data[j];
        let val = if x >= offset.x && y >= offset.y {
            let px = x - offset.x;
            let py = y - offset.y;
            if px < ow && py < oh && px < limit.x && py < limit.y {
                proof {
                    assert(py * ow + px < oh * ow && py * ow >= 0 && py * ow + px >= 0)
                        by (nonlinear_arith)
                        requires
                            0 <= px < ow,
                            0 <= py < oh,
                    ;
                    assert(oh * ow == object.size.area()) by (nonlinear_arith)
                        requires
                            object.size.area() == ow * oh,
                    ;
                }
                apply_pixel_sample(instruction, base, object.data[py * ow + px])
            } else {
                base
            }
        } else {
            base
        };
        out.push(val);
        j = j + 1;
    }
    proof {
        assert(out@ =~= draw_onto(
            store.data@,
            store.size,
            instruction,
            object.data@,
            object.size,
            (offset.x as int, offset.y as int),
            (limit.x as int, limit.y as int),
        ));
    }
    out
}

/// Rasterizes the object into the store in place: the clipped copy is
/// computed into a fresh buffer and only then replaces the store.
pub fn draw_pixels(
    store: &mut PixelSet,
    instruction: Instruction,
    object: &PixelSet,
    offset: Position,
    limit: Size,
)
    requires
        old(store).wf(),
        object.wf(),
    ensures
        final(store).size == old(store).size,
        final(store).wf(),
        final(store).data@ == draw_onto(
            old(store).data@,
            old(store).size,
            instruction,
            object.data@,
            object.size,
            (offset.x as int, offset.y as int),
            (limit.x as int, limit.y as int),
        ),
{
    let out = drawn_vec(store, instruction, object, offset, limit);
    store.data = out;
}

/// The action that composites a drawable's rendering over a pixel store
/// at the options' offset, clipped to the options' limit.
pub struct Overlap;

impl Overlap {
    pub fn apply(surface: &mut PixelSet, object: &PixelSet, options: DrawingOptions)
        requires
            old(surface).wf(),
            object.wf(),
        ensures
            final(surface).size == old(surface).size,
            final(surface).wf(),
            final(surface).data@ == draw_onto(
                old(surface).data@,
                old(surface).size,
                Instruction::Overlap,
                object.data@,
                object.size,
                (options.offset.x as int, options.offset.y as int),
                (options.limit.x as int, options.limit.y as int),
            ),
    {
        draw_pixels(surface, Instruction::Overlap, object, options.offset, options.limit);
    }
}

/// A draw whose offset lies at or beyond the store on some axis changes
/// nothing.
pub proof fn lemma_draw_offscreen(
    store: Seq<Color>,
    store_size: Size,
    instruction: Instruction,
    obj: Seq<Color>,
    obj_size: Size,
    offset: (int, int),
    limit: (int, int),
)
    requires
        store.len() == store_size.area(),
        offset.0 >= store_size.x || offset.1 >= store_size.y,
    ensures
        draw_onto(store, store_size, instruction, obj, obj_size, offset, limit) == store,
{
    let w = store_size.x as int;
    let h = store_size.y as int;
    assert forall|j: int| 0 <= j < store.len() implies draw_onto(
        store,
        store_size,
        instruction,
        obj,
        obj_size,
        offset,
        limit,
    )[j] == store[j] by {
        assert(w >= 1) by (nonlinear_arith)
            requires
                0 <= j < store.len(),
                store.len() == w * h,
                w >= 0,
        ;
        lemma_mod_bound(j, w);
        assert(j < w * h);
        lemma_multiply_divide_lt(j, w, h);
    }
    assert(draw_onto(store, store_size, instruction, obj, obj_size, offset, limit) =~= store);
}

/// The total offset an ancestor chain contributes, per axis.
pub open spec fn positions_sum(chain: Seq<(Size, Position)>) -> (int, int)
    decreases chain.len(),
{
    if chain.len() == 0 {
        (0int, 0int)
    } else {
        let rest = positions_sum(chain.drop_last());
        (rest.0 + chain.last().1.x, rest.1 + chain.last().1.y)
    }
}

/// The tightest clip an ancestor chain imposes, per axis; an empty chain
/// clips nothing, which one step above every representable size states.
pub open spec fn limits_min(chain: Seq<(Size, Position)>) -> (int, int)
    decreases chain.len(),
{
    if chain.len() == 0 {
        (usize::MAX as int + 1, usize::MAX as int + 1)
    } else {
        let rest = limits_min(chain.drop_last());
        (min(rest.0, chain.last().0.x as int), min(rest.1, chain.last().0.y as int))
    }
}

/// A render target: a tree of nested regions over one root pixel store.
/// A draw call lands in the root store, its offset translated by the whole
/// chain of enclosing regions and its limit clamped to each of their
/// sizes.
pub trait Surface: Sized {
    /// The root store's samples.
    spec fn root_store(&self) -> Seq<Color>;

    /// The root store's size.
    spec fn root_size(&self) -> Size;

    /// What the chain of enclosing regions adds to a draw call's offset.
    spec fn chain_offset(&self) -> (int, int);

    /// The bound the chain of enclosing regions puts on a draw call's
    /// limit.
    spec fn chain_limit(&self) -> (int, int);

    /// The root store is well formed.
    spec fn inv(&self) -> bool;

    /// Rasterizes the object into the root store at the options' offset
    /// translated by the chain, clipped to the options' limit clamped by
    /// the chain.
    fn draw<D: Drawable>(&mut self, instruction: Instruction, object: &D, options: DrawingOptions)
        requires
            old(self).inv(),
            object.inv(),
        ensures
            final(self).inv(),
            final(self).root_size() == old(self).root_size(),
            final(self).chain_offset() == old(self).chain_offset(),
            final(self).chain_limit() == old(self).chain_limit(),
            final(self).root_store() == draw_onto(
                old(self).root_store(),
                old(self).root_size(),
                instruction,
                object.spec_pixels(),
                object.spec_size(),
                (
                    options.offset.x + old(self).chain_offset().0,
                    options.offset.y + old(self).chain_offset().1,
                ),
                (
                    min(options.limit.x as int, old(self).chain_limit().0),
                    min(options.limit.y as int, old(self).chain_limit().1),
                ),
            ),
    ;
}

/// The root render target: a surface owning its pixel store outright.
pub struct FrameSurface {
    size: Size,
    data: PixelSet,
}

impl FrameSurface {
    /// Allocates a store of the given size, uniformly filled.
    pub fn generate(size: Size, fill: Color) -> (r: FrameSurface)
        requires
            size.area() <= usize::MAX,
        ensures
            r.inv(),
            r.root_size() == size,
            r.root_store().len() == size.area(),
            forall|i: int| 0 <= i < r.root_store().len() ==> r.root_store()[i] == fill,
    {
        let mut set = PixelSet::null();
        set.fill(size, fill);
        FrameSurface { size, data: set }
    }

    /// Borrows the backing store; export never mutates and may be
    /// repeated.
    pub fn pixels(&self) -> (r: &PixelSet)
        requires
            self.inv(),
        ensures
            r.size == self.root_size(),
            r.data@ == self.root_store(),
            r.wf(),
    {
        &self.data
    }
}

impl Surface for FrameSurface {
    closed spec fn root_store(&self) -> Seq<Color> {
        self.data.data@
    }

    closed spec fn root_size(&self) -> Size {
        self.size
    }

    closed spec fn chain_offset(&self) -> (int, int) {
        (0int, 0int)
    }

    closed spec fn chain_limit(&self) -> (int, int) {
        (usize::MAX as int + 1, usize::MAX as int + 1)
    }

    closed spec fn inv(&self) -> bool {
        &&& self.data.wf()
        &&& self.data.size == self.size
    }

    fn draw<D: Drawable>(&mut self, instruction: Instruction, object: &D, options: DrawingOptions) {
        let rendered = object.render();
        draw_pixels(&mut self.data, instruction, &rendered, options.offset, options.limit);
    }
}

impl FrameSurface {
    /// Consumes the surface and wraps it as the parent of a new nested
    /// region of the given size at the given position.
    pub fn map_subsurface(self, size: Size, position: Position) -> (r: ProxySurface)
        requires
            self.inv(),
        ensures
            r.inv(),
            r.root_store() == self.root_store(),
            r.root_size() == self.root_size(),
            r.chain_offset() == (position.x as int, position.y as int),
            r.chain_limit() == (
                min(self.chain_limit().0, size.x as int),
                min(self.chain_limit().1, size.y as int),
            ),
    {
        let r = ProxySurface { root: self, chain: Vec::new(), size, position };
        proof {
            assert(r.chain@ =~= Seq::<(Size, Position)>::empty());
        }
        r
    }
}

/// A nested region of a parent surface: draw calls through it are offset
/// by its position and clipped to its size before they reach the root.
/// The chain of regions between it and the root is carried as an explicit
/// stack of (size, position) frames.
pub struct ProxySurface {
    root: FrameSurface,
    chain: Vec<(Size, Position)>,
    size: Size,
    position: Position,
}

impl Surface for ProxySurface {
    closed spec fn root_store(&self) -> Seq<Color> {
        self.root.data.data@
    }

    closed spec fn root_size(&self) -> Size {
        self.root.size
    }

    closed spec fn chain_offset(&self) -> (int, int) {
        (
            self.position.x + positions_sum(self.chain@).0,
            self.position.y + positions_sum(self.chain@).1,
        )
    }

    closed spec fn chain_limit(&self) -> (int, int) {
        (
            min(limits_min(self.chain@).0, self.size.x as int),
            min(limits_min(self.chain@).1, self.size.y as int),
        )
    }

    closed spec fn inv(&self) -> bool {
        &&& self.root.data.wf()
        &&& self.root.data.size == self.root.size
    }

    fn draw<D: Drawable>(&mut self, instruction: Instruction, object: &D, options: DrawingOptions) {
        let rendered = object.render();
        let mut off_x: u128 = (options.offset.x as u128) + (self.position.x as u128);
        let mut off_y: u128 = (options.offset.y as u128) + (self.position.y as u128);
        let mut lim_x: usize = if options.limit.x > self.size.x {
            self.size.x
        } else {
            options.limit.x
        };
        let mut lim_y: usize = if options.limit.y > self.size.y {
            self.size.y
        } else {
            options.limit.y
        };
        let n = self.chain.len();
        proof {
            assert(self.chain@.subrange(0, 0) =~= Seq::<(Size, Position)>::empty());
        }
        let mut i: usize = 0;
        while i < n
            invariant
                0 <= i <= n,
                n == self.chain@.len(),
                off_x == options.offset.x + self.position.x + positions_sum(
                    self.chain@.subrange(0, i as int),
                ).0,
                off_y == options.offset.y + self.position.y + positions_sum(
                    self.chain@.subrange(0, i as int),
                ).1,
                off_x <= (i + 2) * (usize::MAX as int),
                off_y <= (i + 2) * (usize::MAX as int),
                lim_x as int == min(
                    min(options.limit.x as int, self.size.x as int),
                    limits_min(self.chain@.subrange(0, i as int)).0,
                ),
                lim_y as int == min(
                    min(options.limit.y as int, self.size.y as int),
                    limits_min(self.chain@.subrange(0, i as int)).1,
                ),
            decreases n - i,
        {
            let (csize, cpos) = self.chain[i];
            proof {
                assert((i + 3) * (usize::MAX as int) <= (usize::MAX as int + 2) * (usize::MAX
                    as int) <= u128::MAX) by (nonlinear_arith)
                    requires
                        0 <= i,
                        i + 1 <= usize::MAX,
                        0 < usize::MAX <= 0xffff_ffff_ffff_ffffu128,
                ;
                assert((i + 2) * (usize::MAX as int) + usize::MAX == (i + 3) * (usize::MAX as int))
                    by (nonlinear_arith);
                assert(self.chain@.subrange(0, i + 1).drop_last() =~= self.chain@.subrange(
                    0,
                    i as int,
                ));
                assert(self.chain@.subrange(0, i + 1).last() == self.chain@[i as int]);
            }
            off_x = off_x + (cpos.x as u128);
            off_y = off_y + (cpos.y as u128);
            if csize.x < lim_x {
                lim_x = csize.x;
            }
            if csize.y < lim_y {
                lim_y = csize.y;
            }
            i = i + 1;
        }
        proof {
            assert(self.chain@.subrange(0, n as int) =~= self.chain@);
        }
        if off_x > (usize::MAX as u128) || off_y > (usize::MAX as u128) {
            proof {
                lemma_draw_offscreen(
                    self.root.data.data@,
                    self.root.size,
                    instruction,
                    object.spec_pixels(),
                    object.spec_size(),
                    (
                        options.offset.x + self.chain_offset().0,
                        options.offset.y + self.chain_offset().1,
                    ),
                    (
                        min(options.limit.x as int, self.chain_limit().0),
                        min(options.limit.y as int, self.chain_limit().1),
                    ),
                );
            }
            return ;
        }
        let ox = off_x as usize;
        let oy = off_y as usize;
        draw_pixels(
            &mut self.root.data,
            instruction,
            &rendered,
            Position::new(ox, oy),
            Size::new(lim_x, lim_y),
        );
    }

}

impl ProxySurface {
    /// Borrows the root's backing store; export never mutates and may be
    /// repeated.
    pub fn pixels(&self) -> (r: &PixelSet)
        requires
            self.inv(),
        ensures
            r.size == self.root_size(),
            r.data@ == self.root_store(),
            r.wf(),
    {
        &self.root.data
    }

    /// Consumes the surface and wraps it as the parent of a new nested
    /// region of the given size at the given position.
    pub fn map_subsurface(self, size: Size, position: Position) -> (r: ProxySurface)
        requires
            self.inv(),
        ensures
            r.inv(),
            r.root_store() == self.root_store(),
            r.root_size() == self.root_size(),
            r.chain_offset() == (
                self.chain_offset().0 + position.x,
                self.chain_offset().1 + position.y,
            ),
            r.chain_limit() == (
                min(self.chain_limit().0, size.x as int),
                min(self.chain_limit().1, size.y as int),
            ),
    {
        let ProxySurface { root, mut chain, size: own_size, position: own_position } = self;
        let ghost old_chain = chain@;
        chain.push((own_size, own_position));
        proof {
            assert(chain@.drop_last() =~= old_chain);
            assert(chain@.last() == (own_size, own_position));
        }
        ProxySurface { root, chain, size, position }
    }
}

/// The scene store after the first `i` objects were composited onto a
/// uniform opaque-black canvas of the given size, each at the origin under
/// the whole size as the limit.
pub open spec fn scene_pixels<D: Drawable>(objects: Seq<D>, size: Size, i: int) -> Seq<Color>
    decreases i,
{
    if i <= 0 {
        Seq::new(size.area() as nat, |k: int| Color { r: 0, g: 0, b: 0, a: 255u8 })
    } else {
        draw_onto(
            scene_pixels(objects, size, i - 1),
            size,
            Instruction::Overlap,
            objects[i - 1].spec_pixels(),
            objects[i - 1].spec_size(),
            (0int, 0int),
            (size.x as int, size.y as int),
        )
    }
}

/// Composites every object, in order, onto a fresh opaque-black scene of
/// the given size.
pub fn render_scene<D: Drawable>(objects: &[D], scene_size: Size) -> (r: FrameSurface)
    requires
        scene_size.area() <= usize::MAX,
        forall|i: int| 0 <= i < objects@.len() ==> (#[trigger] objects@[i]).inv(),
    ensures
        r.inv(),
        r.root_size() == scene_size,
        r.root_store() == scene_pixels(objects@, scene_size, objects@.len() as int),
{
    let mut scene = FrameSurface::generate(scene_size, Color::default());
    proof {
        assert(scene.root_store() =~= scene_pixels(objects@, scene_size, 0));
    }
    let n = objects.len();
    let mut i: usize = 0;
    while i < n
        invariant
            0 <= i <= n,
            n == objects@.len(),
            scene_size.area() <= usize::MAX,
            forall|k: int| 0 <= k < objects@.len() ==> (#[trigger] objects@[k]).inv(),
            scene.inv(),
            scene.root_size() == scene_size,
            scene.chain_offset() == (0int, 0int),
            scene.chain_limit() == (usize::MAX as int + 1, usize::MAX as int + 1),
            scene.root_store() == scene_pixels(objects@, scene_size, i as int),
        decreases n - i,
    {
        scene.draw(Instruction::Overlap, &objects[i], DrawingOptions::generate(scene_size));
        proof {
            assert(min(scene_size.x as int, usize::MAX as int + 1) == scene_size.x as int);
            assert(min(scene_size.y as int, usize::MAX as int + 1) == scene_size.y as int);
        }
        i = i + 1;
    }
    scene
}

} // verus!
