//! The integer side of the floor-plan renderer: the pixel canvas it paints
//! into, how a pixel is addressed, and which route the selection names.
//! The painting itself works in floating point and stays outside.

use vstd::prelude::*;

verus! {

/// An RGBA pixel.
pub type Rgba = [u8; 4];

/// A canvas as plain values: its size and its pixels, row after row.
pub struct CanvasView {
    pub width: nat,
    pub height: nat,
    pub pixels: Seq<Rgba>,
}

/// A `width` × `height` RGBA canvas, stored row after row.
pub struct Canvas {
    w: usize,
    h: usize,
    px: Vec<Rgba>,
}

impl View for Canvas {
    type V = CanvasView;

    closed spec fn view(&self) -> CanvasView {
        CanvasView { width: self.w as nat, height: self.h as nat, pixels: self.px@ }
    }
}

/// The position of pixel `(x, y)` in a canvas `w` pixels wide, when it
/// lies inside a `w` × `h` canvas.
pub open spec fn pixel_at(w: int, h: int, x: int, y: int) -> Option<usize> {
    if 0 <= x < w && 0 <= y < h {
        Some((y * w + x) as usize)
    } else {
        None
    }
}

proof fn lemma_index_in_bounds(w: int, h: int, x: int, y: int)
    requires
        0 <= x < w,
        0 <= y < h,
    ensures
        0 <= y * w + x < w * h,
{
    assert(y * w + x < w * h) by (nonlinear_arith)
        requires
            0 <= x < w,
            0 <= y < h,
    ;
    assert(0 <= y * w) by (nonlinear_arith)
        requires
            0 <= y,
            0 <= w,
    ;
}

impl Canvas {
    #[verifier::type_invariant]
    spec fn sized(self) -> bool {
        &&& self.w * self.h <= usize::MAX
        &&& self.px@.len() == self.w * self.h
    }

    /// A transparent canvas of `w` × `h` pixels.
    pub fn new(w: usize, h: usize) -> (c: Canvas)
        requires
            w * h <= usize::MAX,
        ensures
            c@.width == w,
            c@.height == h,
            c@.pixels == Seq::new((w * h) as nat, |i: int| [0u8, 0u8, 0u8, 0u8]),
    {
        let n = w * h;
        let mut px: Vec<Rgba> = Vec::new();
        let mut i: usize = 0;
        while i < n
            invariant
                i <= n,
                px@ == Seq::new(i as nat, |k: int| [0u8, 0u8, 0u8, 0u8]),
            decreases n - i,
        {
            px.push([0u8, 0u8, 0u8, 0u8]);
            i = i + 1;
            assert(px@ =~= Seq::new(i as nat, |k: int| [0u8, 0u8, 0u8, 0u8]));
        }
        Canvas { w, h, px }
    }

    /// The width in pixels.
    pub fn width(&self) -> (r: usize)
        ensures
            r == self@.width,
    {
        self.w
    }

    /// The height in pixels.
    pub fn height(&self) -> (r: usize)
        ensures
            r == self@.height,
    {
        self.h
    }

    /// The position of pixel `(x, y)` among the pixels, or `None` when it
    /// falls outside the canvas (painting there does nothing).
    pub fn pixel_index(&self, x: i32, y: i32) -> (r: Option<usize>)
        ensures
            r == pixel_at(self@.width as int, self@.height as int, x as int, y as int),
            r matches Some(i) ==> i < self@.pixels.len(),
    {
        proof {
            use_type_invariant(self);
        }
        if x < 0 || y < 0 || x as usize >= self.w || y as usize >= self.h {
            return None;
        }
        proof {
            lemma_index_in_bounds(self.w as int, self.h as int, x as int, y as int);
        }
        Some(y as usize * self.w + x as usize)
    }

    /// The pixel at position `i`.
    pub fn pixel(&self, i: usize) -> (p: Rgba)
        requires
            i < self@.pixels.len(),
        ensures
            p == self@.pixels[i as int],
    {
        self.px[i]
    }

    /// Overwrites the pixel at position `i`.
    pub fn set_pixel(&mut self, i: usize, p: Rgba)
        requires
            i < old(self)@.pixels.len(),
        ensures
            final(self)@.width == old(self)@.width,
            final(self)@.height == old(self)@.height,
            final(self)@.pixels == old(self)@.pixels.update(i as int, p),
    {
        proof {
            use_type_invariant(&*self);
        }
        let mut taken = Canvas { w: 0, h: 0, px: Vec::new() };
        std::mem::swap(self, &mut taken);
        proof {
            use_type_invariant(&taken);
        }
        let Canvas { w, h, px } = taken;
        let mut px = px;
        px.set(i, p);
        *self = Canvas { w, h, px };
    }

    /// All pixels, row after row.
    pub fn pixels(&self) -> (r: &Vec<Rgba>)
        ensures
            r@ == self@.pixels,
    {
        &self.px
    }
}

/// Which of `count` routes to draw for the room selected in the interface:
/// a negative or too large selection draws none.
pub fn selected_route(selected: i32, count: usize) -> (r: Option<usize>)
    ensures
        r == (if 0 <= selected < count {
            Some(selected as usize)
        } else {
            None
        }),
{
    if selected >= 0 && (selected as usize) < count {
        Some(selected as usize)
    } else {
        None
    }
}

} // verus!
