//! The pixel data model: sizes, positions, colors and pixel stores.

use vstd::prelude::*;
use vstd::pervasive::unreached;
use vstd::pervasive::VecAdditionalExecFns;

use crate::error::RenderError;

verus! {

/// Size in pixels.
///
/// `x` - horizontal, `y` - vertical.
#[derive(Copy, Clone, Debug, PartialEq, Eq, Structural)]
pub struct Size {
    pub x: usize,
    pub y: usize,
}

impl Size {
    /// The number of samples a buffer of this size holds.
    pub open spec fn area(self) -> int {
        self.x * self.y
    }

    pub fn new(x: usize, y: usize) -> (s: Size)
        ensures
            s.x == x,
            s.y == y,
    {
        Size { x, y }
    }

    pub fn null() -> (s: Size)
        ensures
            s.x == 0,
            s.y == 0,
    {
        Size::new(0, 0)
    }

    pub fn swap_xy(&self) -> (s: Size)
        ensures
            s.x == self.y,
            s.y == self.x,
    {
        Size { x: self.y, y: self.x }
    }

    /// The linear extent of the row-major layout: the area.
    pub fn into_linear(self) -> (n: usize)
        requires
            self.area() <= usize::MAX,
        ensures
            n == self.area(),
    {
        self.x * self.y
    }
}

/// Position in pixels within a [`Size`].
///
/// `x` - horizontal, `y` - vertical.
#[derive(Copy, Clone, Debug, PartialEq, Eq, Structural)]
pub struct Position {
    pub x: usize,
    pub y: usize,
}

impl Position {
    /// The row-major offset this position addresses within `size`.
    pub open spec fn linear(self, size: Size) -> int {
        self.y * size.x + self.x
    }

    pub fn new(x: usize, y: usize) -> (p: Position)
        ensures
            p.x == x,
            p.y == y,
    {
        Position { x, y }
    }

    pub fn move_by_position(&mut self, position: Position)
        requires
            old(self).x + position.x <= usize::MAX,
            old(self).y + position.y <= usize::MAX,
        ensures
            final(self).x == old(self).x + position.x,
            final(self).y == old(self).y + position.y,
    {
        self.y = self.y + position.y;
        self.x = self.x + position.x;
    }

    /// Converts to a row-major offset; rejects a position whose offset
    /// would fall at or beyond the area.
    pub fn into_linear(self, size: Size) -> (r: Result<usize, RenderError>)
        requires
            size.area() <= usize::MAX,
        ensures
            match r {
                Ok(l) => self.linear(size) < size.area() && l == self.linear(size),
                Err(e) => e == RenderError::IndexOutOfRange && self.linear(size) >= size.area(),
            },
    {
        let area = size.into_linear();
        match self.y.checked_mul(size.x) {
            Some(row) => match row.checked_add(self.x) {
                Some(l) => {
                    if l < area {
                        Ok(l)
                    } else {
                        Err(RenderError::IndexOutOfRange)
                    }
                },
                None => Err(RenderError::IndexOutOfRange),
            },
            None => Err(RenderError::IndexOutOfRange),
        }
    }

    /// Moves each coordinate that already lies outside `size` by the given
    /// signed delta; a coordinate inside `size` is kept.
    pub fn add_if_out_of_size(&self, size: Size, x: i16, y: i16) -> (p: Position)
        requires
            self.x >= size.x ==> 0 <= self.x + x <= usize::MAX,
            self.y >= size.y ==> 0 <= self.y + y <= usize::MAX,
        ensures
            p.x == if self.x >= size.x { self.x + x } else { self.x as int },
            p.y == if self.y >= size.y { self.y + y } else { self.y as int },
    {
        let mut new_pos = *self;
        if !(new_pos.x < size.x) {
            new_pos.x = add_delta(new_pos.x, x);
        }
        if !(new_pos.y < size.y) {
            new_pos.y = add_delta(new_pos.y, y);
        }
        new_pos
    }
}

/// Adds a signed 16-bit delta to an unsigned coordinate.
fn add_delta(base: usize, delta: i16) -> (r: usize)
    requires
        0 <= base + delta <= usize::MAX,
    ensures
        r == base + delta,
{
    if delta >= 0 {
        base + (delta as usize)
    } else {
        base - ((-(delta as i32)) as usize)
    }
}

/// A linear interpolation of two 8-bit samples: `x` weighted by `w` out of
/// 255 and `y` by the remainder, truncated to the sample range.
pub open spec fn mix_byte(x: u8, y: u8, w: u8) -> u8 {
    ((x * w + y * (255 - w)) / 255) as u8
}

/// Computes [`mix_byte`] without overflow.
pub fn mix_channel(x: u8, y: u8, w: u8) -> (r: u8)
    ensures
        r == mix_byte(x, y, w),
{
    proof {
        lemma_mix_numerator_bound(x, y, w);
    }
    let v: u32 = (x as u32) * (w as u32) + (y as u32) * (255 - (w as u32));
    (v / 255) as u8
}

/// The weighted sum of two samples never exceeds a full-intensity sample.
proof fn lemma_mix_numerator_bound(x: u8, y: u8, w: u8)
    ensures
        x * w + y * (255 - w) <= 255 * 255,
{
    assert(x * w + y * (255 - w) <= 255 * w + 255 * (255 - w)) by (nonlinear_arith);
}

/// Pixel color: `r`, `g`, `b` are 8-bit intensities; `a` is the 8-bit
/// opacity byte, where 255 stands for fully opaque and the normalized
/// coverage of a sample is `a / 255`.
#[derive(Copy, Clone, Debug, PartialEq, Eq, Structural)]
pub struct Color {
    pub r: u8,
    pub g: u8,
    pub b: u8,
    pub a: u8,
}

impl Color {
    pub fn new(r: u8, g: u8, b: u8, a: u8) -> (c: Color)
        ensures
            c == (Color { r, g, b, a }),
    {
        Color { r, g, b, a }
    }

    /// The zero color: black, fully opaque.
    pub fn default() -> (c: Color)
        ensures
            c == (Color { r: 0, g: 0, b: 0, a: 255u8 }),
    {
        Color { r: 0, g: 0, b: 0, a: 255 }
    }

    /// Linearly interpolates all four fields, weighting `self` by
    /// `coefficient` out of 255 and `other` by the remainder.
    pub fn mix(&self, other: &Color, coefficient: u8) -> (c: Color)
        ensures
            c.r == mix_byte(self.r, other.r, coefficient),
            c.g == mix_byte(self.g, other.g, coefficient),
            c.b == mix_byte(self.b, other.b, coefficient),
            c.a == mix_byte(self.a, other.a, coefficient),
    {
        Color {
            r: mix_channel(self.r, other.r, coefficient),
            g: mix_channel(self.g, other.g, coefficient),
            b: mix_channel(self.b, other.b, coefficient),
            a: mix_channel(self.a, other.a, coefficient),
        }
    }
}

/// The colors a packed RGBA8 buffer holds: four bytes per pixel, the
/// fourth the alpha byte.
pub open spec fn rgba_colors(bytes: Seq<u8>) -> Seq<Color> {
    Seq::new(
        (bytes.len() / 4) as nat,
        |i: int| Color {
            r: bytes[4 * i],
            g: bytes[4 * i + 1],
            b: bytes[4 * i + 2],
            a: bytes[4 * i + 3],
        },
    )
}

/// An ordered sequence of colors of length `size.area()`, row-major, with
/// the first element at position (0, 0).
#[derive(Clone, Debug)]
pub struct PixelSet {
    pub size: Size,
    pub data: Vec<Color>,
}

impl PixelSet {
    /// The declared size matches the sample count.
    pub open spec fn wf(&self) -> bool {
        &&& self.data@.len() == self.size.area()
        &&& self.size.area() <= usize::MAX
    }

    pub fn null() -> (p: PixelSet)
        ensures
            p.size.x == 0 && p.size.y == 0,
            p.data@ == Seq::<Color>::empty(),
            p.wf(),
    {
        PixelSet { size: Size::null(), data: Vec::new() }
    }

    pub fn new(size: Size, color: Color) -> (p: PixelSet)
        requires
            size.area() <= usize::MAX,
        ensures
            p.size == size,
            p.wf(),
            forall|i: int| 0 <= i < p.data@.len() ==> p.data@[i] == color,
    {
        PixelSet { size, data: vec![color; size.into_linear()] }
    }

    /// Replaces the store by a uniform fill of the given size.
    pub fn fill(&mut self, size: Size, color: Color)
        requires
            size.area() <= usize::MAX,
        ensures
            final(self).size == size,
            final(self).wf(),
            forall|i: int| 0 <= i < final(self).data@.len() ==> final(self).data@[i] == color,
    {
        self.size = size;
        self.data = vec![color; size.into_linear()];
    }

    /// Decodes a packed RGB8 buffer: three bytes per pixel, alpha implicitly
    /// fully opaque.
    pub fn from_rgb8(rgb8: &[u8], size: Size) -> (p: PixelSet)
        requires
            rgb8@.len() == 3 * size.area(),
        ensures
            p.size == size,
            p.wf(),
            forall|i: int| 0 <= i < size.area() ==> p.data@[i] == (Color {
                r: rgb8@[3 * i],
                g: rgb8@[3 * i + 1],
                b: rgb8@[3 * i + 2],
                a: 255u8,
            }),
    {
        let len = rgb8.len();
        assert(size.area() <= usize::MAX);
        let n = size.into_linear();
        let mut data: Vec<Color> = Vec::new();
        let mut i: usize = 0;
        while i < n
            invariant
                0 <= i <= n,
                n == size.area(),
                rgb8@.len() == 3 * n,
                3 * n <= usize::MAX,
                data@.len() == i,
                forall|k: int| 0 <= k < i ==> data@[k] == (Color {
                    r: rgb8@[3 * k],
                    g: rgb8@[3 * k + 1],
                    b: rgb8@[3 * k + 2],
                    a: 255u8,
                }),
            decreases n - i,
        {
            data.push(Color { r: rgb8[3 * i], g: rgb8[3 * i + 1], b: rgb8[3 * i + 2], a: 255 });
            i = i + 1;
        }
        PixelSet { size, data }
    }

    /// Decodes a packed RGBA8 buffer: four bytes per pixel, the fourth the
    /// alpha byte.  The result carries the null size until one is assigned.
    pub fn from_rgba8(rgba8: &[u8]) -> (p: PixelSet)
        requires
            rgba8@.len() % 4 == 0,
        ensures
            p.size.x == 0 && p.size.y == 0,
            p.data@ == rgba_colors(rgba8@),
    {
        let len = rgba8.len();
        let n = len / 4;
        proof {
            vstd::arithmetic::div_mod::lemma_fundamental_div_mod(len as int, 4);
        }
        let mut data: Vec<Color> = Vec::new();
        let mut i: usize = 0;
        while i < n
            invariant
                0 <= i <= n,
                n == rgba8@.len() / 4,
                rgba8@.len() == 4 * n,
                4 * n <= usize::MAX,
                data@.len() == i,
                forall|k: int| 0 <= k < i ==> data@[k] == (Color {
                    r: rgba8@[4 * k],
                    g: rgba8@[4 * k + 1],
                    b: rgba8@[4 * k + 2],
                    a: rgba8@[4 * k + 3],
                }),
            decreases n - i,
        {
            data.push(Color {
                r: rgba8[4 * i],
                g: rgba8[4 * i + 1],
                b: rgba8[4 * i + 2],
                a: rgba8[4 * i + 3],
            });
            i = i + 1;
        }
        proof {
            assert(data@ =~= rgba_colors(rgba8@));
        }
        PixelSet { size: Size::null(), data }
    }

    /// Packs the store into an RGBA8 buffer, four bytes per pixel.
    pub fn into_rgba8(&self) -> (r: Vec<u8>)
        ensures
            r@.len() == 4 * self.data@.len(),
            forall|i: int| 0 <= i < self.data@.len() ==> {
                &&& r@[4 * i] == self.data@[i].r
                &&& r@[4 * i + 1] == self.data@[i].g
                &&& r@[4 * i + 2] == self.data@[i].b
                &&& r@[4 * i + 3] == self.data@[i].a
            },
    {
        let mut out: Vec<u8> = Vec::new();
        let mut i: usize = 0;
        let n = self.data.len();
        while i < n
            invariant
                0 <= i <= n,
                n == self.data@.len(),
                out@.len() == 4 * i,
                forall|k: int| 0 <= k < i ==> {
                    &&& out@[4 * k] == self.data@[k].r
                    &&& out@[4 * k + 1] == self.data@[k].g
                    &&& out@[4 * k + 2] == self.data@[k].b
                    &&& out@[4 * k + 3] == self.data@[k].a
                },
            decreases n - i,
        {
            let c = self.data[i];
            out.push(c.r);
            out.push(c.g);
            out.push(c.b);
            out.push(c.a);
            i = i + 1;
        }
        out
    }

    /// Reads the color at a position, rejecting one out of range.
    pub fn get_color(&self, position: Position) -> (r: Result<Color, RenderError>)
        requires
            self.wf(),
        ensures
            match r {
                Ok(c) => position.linear(self.size) < self.size.area() && c == self.data@[position.linear(self.size)],
                Err(e) => e == RenderError::IndexOutOfRange && position.linear(self.size) >= self.size.area(),
            },
    {
        match position.into_linear(self.size) {
            Ok(l) => Ok(self.data[l]),
            Err(e) => Err(e),
        }
    }

    /// Borrows the color at a position known to be in range.
    pub fn get_color_ref(&self, position: Position) -> (r: &Color)
        requires
            self.wf(),
            position.linear(self.size) < self.size.area(),
        ensures
            *r == self.data@[position.linear(self.size)],
    {
        match position.into_linear(self.size) {
            Ok(l) => &self.data[l],
            Err(_) => unreached(),
        }
    }

    /// Writes the color at a position, rejecting one out of range.
    pub fn set_color(&mut self, position: Position, value: Color) -> (r: Result<(), RenderError>)
        requires
            old(self).wf(),
        ensures
            final(self).size == old(self).size,
            final(self).wf(),
            match r {
                Ok(()) => position.linear(old(self).size) < old(self).size.area()
                    && final(self).data@ == old(self).data@.update(position.linear(old(self).size), value),
                Err(e) => e == RenderError::IndexOutOfRange
                    && position.linear(old(self).size) >= old(self).size.area()
                    && final(self).data@ == old(self).data@,
            },
    {
        match position.into_linear(self.size) {
            Ok(l) => {
                self.data.set(l, value);
                Ok(())
            },
            Err(e) => Err(e),
        }
    }

    /// A copy of the store under another declared size.
    pub fn with_changed_size(&self, size: Size) -> (p: PixelSet)
        ensures
            p.size == size,
            p.data@ == self.data@,
    {
        let mut new = self.clone_pixels();
        new.size = size;
        new
    }

    /// An exact copy of the store.
    pub fn clone_pixels(&self) -> (p: PixelSet)
        ensures
            p.size == self.size,
            p.data@ == self.data@,
    {
        let data = self.data.clone();
        assert(data@ =~= self.data@);
        PixelSet { size: self.size, data }
    }

    /// Borrows a sample by its row-major offset.
    pub fn get(&self, index: usize) -> (r: &Color)
        requires
            index < self.data@.len(),
        ensures
            *r == self.data@[index as int],
    {
        &self.data[index]
    }
}

/// Yields every position of a size in row-major order: `x` varies fastest.
pub struct PositionIterator {
    size: Size,
    x: usize,
    y: usize,
}

impl PositionIterator {
    pub closed spec fn spec_size(&self) -> Size {
        self.size
    }

    pub closed spec fn cursor(&self) -> (int, int) {
        (self.x as int, self.y as int)
    }

    pub fn new(size: Size) -> (it: PositionIterator)
        ensures
            it.spec_size() == size,
            it.cursor() == (0int, 0int),
    {
        PositionIterator { size, x: 0, y: 0 }
    }

    /// The next position, or `None` once every position was yielded.
    pub fn next(&mut self) -> (r: Option<Position>)
        ensures
            final(self).spec_size() == old(self).spec_size(),
            match r {
                Some(p) => {
                    &&& old(self).cursor().0 < old(self).spec_size().x
                    &&& old(self).cursor().1 < old(self).spec_size().y
                    &&& p.x == old(self).cursor().0
                    &&& p.y == old(self).cursor().1
                    &&& final(self).cursor() == if old(self).cursor().0 + 1 == old(self).spec_size().x {
                        (0int, old(self).cursor().1 + 1)
                    } else {
                        (old(self).cursor().0 + 1, old(self).cursor().1)
                    }
                },
                None => {
                    &&& (old(self).cursor().0 >= old(self).spec_size().x
                        || old(self).cursor().1 >= old(self).spec_size().y)
                    &&& final(self).cursor() == old(self).cursor()
                },
            },
    {
        if self.x >= self.size.x || self.y >= self.size.y {
            return None;
        }
        let pos = Position { x: self.x, y: self.y };
        self.x = self.x + 1;
        if self.size.x == self.x {
            self.x = 0;
            self.y = self.y + 1;
        }
        Some(pos)
    }
}

impl Size {
    pub fn iter_positions(&self) -> (it: PositionIterator)
        ensures
            it.spec_size() == *self,
            it.cursor() == (0int, 0int),
    {
        PositionIterator::new(*self)
    }
}

} // verus!
