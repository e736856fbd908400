//! The screen: a frame of pixels at a place in the world, and the ways to
//! paint on it.

use vstd::prelude::*;
use vstd::string::StrSliceExecFns;
use crate::geometry::{Rect, Vec2i};
use crate::sprite::{DrawSpriteExt, Sprite};
use crate::texture::{
    byte_offset,
    lemma_byte_offset,
    lemma_byte_offset_is_injective,
    pixel_from,
    Bitmap,
    Rgba,
    Texture,
    PIXEL_BYTES,
};

verus! {

/// One copy to make: the region of an image, and the place of the world
/// where its top-left corner goes.
#[derive(Clone, Copy, Debug, PartialEq, Eq, Structural)]
pub struct Blit {
    pub frame: Rect,
    pub at: Vec2i,
}

/// What a screen shows: a grid of pixels whose top-left pixel is the pixel
/// `position` of the world.
pub struct Picture {
    pub position: Vec2i,
    pub image: Bitmap,
}

impl Picture {
    /// Whether the pixel `(x, y)` of the world is on the screen.
    pub open spec fn shows(self, x: int, y: int) -> bool {
        self.image.holds(x - self.position.0, y - self.position.1)
    }

    /// The colour of the pixel `(x, y)` of the world.
    pub open spec fn color_at(self, x: int, y: int) -> Rgba {
        self.image.rows[y - self.position.1][x - self.position.0]
    }

    /// The picture of the same place and size in which every pixel has the
    /// colour that `paint` gives its place in the world.
    pub open spec fn repainted(self, paint: spec_fn(int, int) -> Rgba) -> Picture {
        Picture {
            position: self.position,
            image: Bitmap {
                width: self.image.width,
                height: self.image.height,
                rows: Seq::new(
                    self.image.height,
                    |sy: int|
                        Seq::new(
                            self.image.width,
                            |sx: int| paint(sx + self.position.0, sy + self.position.1),
                        ),
                ),
            },
        }
    }

    /// The picture in one colour.
    pub open spec fn cleared(self, c: Rgba) -> Picture {
        self.repainted(|x: int, y: int| c)
    }

    /// The picture with the pixel `(x, y)` of the world in colour `c`.
    pub open spec fn with_pixel(self, x: int, y: int, c: Rgba) -> Picture {
        self.repainted(
            |px: int, py: int|
                if px == x && py == y {
                    c
                } else {
                    self.color_at(px, py)
                },
        )
    }

    /// The picture with the pixels of `r` in colour `c`.
    pub open spec fn with_rect(self, r: Rect, c: Rgba) -> Picture {
        self.repainted(
            |px: int, py: int|
                if r.covers(px, py) {
                    c
                } else {
                    self.color_at(px, py)
                },
        )
    }

    /// The pixel of `image` that a copy of its region `from` to the place
    /// `to` puts on the pixel `(x, y)` of the world: none where the pixel
    /// lies outside the copy, where the region leaves the image, or where
    /// the image is wholly transparent.
    pub open spec fn copied(image: Bitmap, from: Rect, to: Vec2i, x: int, y: int) -> Option<Rgba> {
        let column = from.x + (x - to.0);
        let row = from.y + (y - to.1);
        if 0 <= x - to.0 < from.w && 0 <= y - to.1 < from.h && image.holds(column, row)
            && image.rows[row][column].3 > 0 {
            Some(image.rows[row][column])
        } else {
            None
        }
    }

    /// The picture with the region `from` of `image` copied to the place
    /// `to` of the world.
    pub open spec fn blitted(self, image: Bitmap, from: Rect, to: Vec2i) -> Picture {
        self.repainted(
            |px: int, py: int|
                match Self::copied(image, from, to, px, py) {
                    Some(c) => c,
                    None => self.color_at(px, py),
                },
        )
    }
}

/// Whether the pixel in column `sx` and row `sy` comes before the one in
/// column `cx` and row `cy`, row by row.
pub open spec fn comes_before(sx: int, sy: int, cx: int, cy: int) -> bool {
    sy < cy || (sy == cy && sx < cx)
}

/// Pictures of the same place and size are the same where every pixel
/// has the same colour in both.
pub proof fn lemma_pictures_alike(a: Picture, b: Picture)
    requires
        a.position == b.position,
        a.image.width == b.image.width,
        a.image.height == b.image.height,
        a.image.well_formed(),
        b.image.well_formed(),
        forall|x: int, y: int| a.shows(x, y) ==> #[trigger] a.color_at(x, y) == b.color_at(x, y),
    ensures
        a == b,
{
    assert forall|sy: int| 0 <= sy < a.image.height implies #[trigger] a.image.rows[sy]
        =~= b.image.rows[sy] by {
        assert forall|sx: int| 0 <= sx < a.image.width implies a.image.rows[sy][sx]
            == b.image.rows[sy][sx] by {
            assert(a.shows(sx + a.position.0, sy + a.position.1));
            assert(a.color_at(sx + a.position.0, sy + a.position.1) == b.color_at(
                sx + a.position.0,
                sy + a.position.1,
            ));
        }
    }
    assert(a.image.rows =~= b.image.rows);
}

/// A frame of pixels, four bytes each, that shows the part of the world
/// whose top-left pixel is `position`.
pub struct Screen {
    framebuffer: Vec<u8>,
    width: usize,
    height: usize,
    depth: usize,
    position: Vec2i,
}

impl View for Screen {
    type V = Picture;

    closed spec fn view(&self) -> Picture {
        Picture {
            position: self.position,
            image: Bitmap::from_bytes(self.width as nat, self.height as nat, self.framebuffer@),
        }
    }
}

impl Screen {
    #[verifier::type_invariant]
    spec fn consistent(self) -> bool {
        Self::wraps(self.framebuffer@.len(), self.width, self.height, self.depth)
    }

    /// Whether a frame buffer of `len` bytes can be the screen of this
    /// size: it holds four bytes for every pixel, and neither side of the
    /// screen is longer than a rectangle can be.
    pub open spec fn wraps(len: nat, width: usize, height: usize, depth: usize) -> bool {
        &&& depth == PIXEL_BYTES
        &&& width <= u16::MAX
        &&& height <= u16::MAX
        &&& len == width * height * 4
    }

    /// The bytes of the frame.
    pub closed spec fn bytes(self) -> Seq<u8> {
        self.framebuffer@
    }

    /// Makes a screen of a frame buffer.
    pub fn wrap(framebuffer: Vec<u8>, width: usize, height: usize, depth: usize, position: Vec2i) -> (screen:
        Self)
        requires
            Self::wraps(framebuffer@.len(), width, height, depth),
        ensures
            screen@.position == position,
            screen@.image == Bitmap::from_bytes(width as nat, height as nat, framebuffer@),
            screen.bytes() == framebuffer@,
    {
        Self { framebuffer, width, height, depth, position }
    }

    /// The frame buffer of the screen, to be shown.
    pub fn framebuffer(&self) -> (framebuffer: &Vec<u8>)
        ensures
            framebuffer@ == self.bytes(),
            self@.image == Bitmap::from_bytes(self@.image.width, self@.image.height, framebuffer@),
    {
        &self.framebuffer
    }

    /// Takes the frame buffer out of the screen.
    pub fn unwrap(self) -> (framebuffer: Vec<u8>)
        ensures
            framebuffer@ == self.bytes(),
            self@.image == Bitmap::from_bytes(self@.image.width, self@.image.height, framebuffer@),
    {
        self.framebuffer
    }

    /// The part of the world that the screen shows.
    pub fn bounds(&self) -> (bounds: Rect)
        ensures
            bounds == self@.bounds(),
            bounds.w == self@.image.width,
            bounds.h == self@.image.height,
            self@.image.well_formed(),
    {
        proof {
            use_type_invariant(self);
        }
        Rect { x: self.position.0, y: self.position.1, w: self.width as u16, h: self.height as u16 }
    }

    /// Sets the pixel in column `sx` and row `sy` of the screen.
    fn set(&mut self, sx: usize, sy: usize, c: Rgba)
        requires
            old(self)@.image.holds(sx as int, sy as int),
        ensures
            final(self)@ == old(self)@.with_pixel(
                sx + old(self)@.position.0,
                sy + old(self)@.position.1,
                c,
            ),
    {
        proof {
            use_type_invariant(&*self);
            lemma_byte_offset(self.width as nat, self.height as nat, sx as int, sy as int);
        }
        let ghost before = self.framebuffer@;
        let len: usize = self.framebuffer.len();
        assert(sy * self.width + sx < self.width * self.height <= len) by (nonlinear_arith)
            requires
                sy * self.width + sx < self.width * self.height,
                len == self.width * self.height * 4,
                0 <= sx,
                0 <= sy,
        ;
        let at: usize = (sy * self.width + sx) * PIXEL_BYTES;
        self.framebuffer[at] = c.0;
        self.framebuffer[at + 1] = c.1;
        self.framebuffer[at + 2] = c.2;
        self.framebuffer[at + 3] = c.3;
        proof {
            let after = self.framebuffer@;
            let width = self.width as nat;
            let wanted = old(self)@.with_pixel(
                sx + old(self)@.position.0,
                sy + old(self)@.position.1,
                c,
            );
            assert forall|x: int, y: int| 0 <= x < self.width && 0 <= y < self.height implies self@.image.rows[y][x]
                == wanted.image.rows[y][x] by {
                if x == sx && y == sy {
                } else {
                    lemma_byte_offset_is_injective(width, x, y, sx as int, sy as int);
                    lemma_byte_offset(width, self.height as nat, x, y);
                    assert(pixel_from(after, byte_offset(width, x, y)) == pixel_from(
                        before,
                        byte_offset(width, x, y),
                    ));
                }
            }
            assert(self@.image.rows =~~= wanted.image.rows);
        }
    }

    /// Sets the pixel `(x, y)` of the world, where the screen shows it.
    pub fn plot(&mut self, x: i32, y: i32, c: Rgba)
        ensures
            final(self)@ == if old(self)@.shows(x as int, y as int) {
                old(self)@.with_pixel(x as int, y as int, c)
            } else {
                old(self)@
            },
    {
        proof {
            use_type_invariant(&*self);
        }
        let sx: i64 = x as i64 - self.position.0 as i64;
        let sy: i64 = y as i64 - self.position.1 as i64;
        if 0 <= sx && sx < self.width as i64 && 0 <= sy && sy < self.height as i64 {
            self.set(sx as usize, sy as usize, c);
        }
    }
}

impl Picture {
    /// The picture with the region `from` of `image` copied to the place
    /// `to` of the world, as far as the pixels come before the pixel in
    /// column `cx` and row `cy` of the screen.
    spec fn blitted_up_to(
        self,
        image: Bitmap,
        from: Rect,
        to: Vec2i,
        cx: int,
        cy: int,
    ) -> Picture {
        self.repainted(
            |px: int, py: int|
                if comes_before(px - self.position.0, py - self.position.1, cx, cy) {
                    match Self::copied(image, from, to, px, py) {
                        Some(c) => c,
                        None => self.color_at(px, py),
                    }
                } else {
                    self.color_at(px, py)
                },
        )
    }

    /// The picture with the regions of `image` copied that `blits` names,
    /// one after the other.
    pub open spec fn with_blits(self, image: Bitmap, blits: Seq<Blit>) -> Picture
        decreases blits.len(),
    {
        if blits.len() == 0 {
            self
        } else {
            self.with_blits(image, blits.drop_last()).blitted(
                image,
                blits.last().frame,
                blits.last().at,
            )
        }
    }

    /// The picture with the first `n` characters of `text` written in the
    /// glyphs of `font`, from the place `at` of the world to the right.
    /// Characters without a glyph leave a gap.
    pub open spec fn with_text(self, font: Bitmap, text: Seq<char>, at: Vec2i, n: int) -> Picture
        decreases n,
    {
        if n <= 0 {
            self
        } else {
            let written = self.with_text(font, text, at, n - 1);
            if has_glyph(text[n - 1]) {
                written.blitted(font, glyph_frame(text[n - 1]), glyph_place(at, n - 1))
            } else {
                written
            }
        }
    }

    /// The part of the world that the picture shows.
    pub open spec fn bounds(self) -> Rect {
        Rect {
            x: self.position.0,
            y: self.position.1,
            w: self.image.width as u16,
            h: self.image.height as u16,
        }
    }

    /// The picture with the first `n` steps of the line from `a` to `b`
    /// in colour `c`.
    pub open spec fn with_line_up_to(self, a: Vec2i, b: Vec2i, n: int, c: Rgba) -> Picture {
        self.repainted(
            |px: int, py: int|
                if on_line(a, b, n, px, py) {
                    c
                } else {
                    self.color_at(px, py)
                },
        )
    }

    /// The picture with the line from `a` to `b`, both ends in it, in
    /// colour `c`.
    pub open spec fn with_line(self, a: Vec2i, b: Vec2i, c: Rgba) -> Picture {
        self.with_line_up_to(a, b, line_steps(a, b) + 1, c)
    }

    /// The picture with the pixels of the box, in columns and rows of the
    /// screen, in colour `c`, as far as they come before the pixel in
    /// column `cx` and row `cy`.
    spec fn with_box_up_to(
        self,
        x0: int,
        x1: int,
        y0: int,
        y1: int,
        cx: int,
        cy: int,
        c: Rgba,
    ) -> Picture {
        self.repainted(
            |px: int, py: int|
                if x0 <= px - self.position.0 < x1 && y0 <= py - self.position.1 < y1
                    && comes_before(px - self.position.0, py - self.position.1, cx, cy) {
                    c
                } else {
                    self.color_at(px, py)
                },
        )
    }

    /// The picture with the pixels of the box, in columns and rows of the
    /// screen, in colour `c`.
    spec fn with_box(self, x0: int, x1: int, y0: int, y1: int, c: Rgba) -> Picture {
        self.with_box_up_to(x0, x1, y0, y1, x0, y1, c)
    }
}

/// Width and height of a glyph of the font.
pub const GLYPH_SIZE: u16 = 8;

/// How many glyphs the font sheet holds side by side.
pub const GLYPHS_PER_ROW: u32 = 16;

/// The first character that has a glyph: the space.
pub const FIRST_GLYPH: u32 = 32;

/// The character after the last one that has a glyph.
pub const END_OF_GLYPHS: u32 = 128;

/// Whether the font has a glyph for `ch`.
pub open spec fn has_glyph(ch: char) -> bool {
    FIRST_GLYPH <= (ch as u32) && (ch as u32) < END_OF_GLYPHS
}

/// The region of the font sheet that holds the glyph of `ch`: the glyphs
/// stand in the order of their characters, row by row.
pub open spec fn glyph_frame(ch: char) -> Rect {
    Rect {
        x: (((ch as u32 - FIRST_GLYPH) % 16) * 8) as i32,
        y: (((ch as u32 - FIRST_GLYPH) / 16) * 8) as i32,
        w: GLYPH_SIZE,
        h: GLYPH_SIZE,
    }
}

/// The place of the `i`-th character of a text that begins at `at`.
pub open spec fn glyph_place(at: Vec2i, i: int) -> Vec2i {
    Vec2i((at.0 + 8 * i) as i32, at.1)
}

/// The quotient of `n` by a positive `d`, rounded towards zero.
pub open spec fn toward_zero(n: int, d: int) -> int {
    if n >= 0 {
        n / d
    } else {
        -((-n) / d)
    }
}

/// The number of steps in which a line from `a` to `b` is drawn: the
/// longer of its two extents, and one for a single point.
pub open spec fn line_steps(a: Vec2i, b: Vec2i) -> int {
    let dx = vstd::math::abs(b.0 - a.0) as int;
    let dy = vstd::math::abs(b.1 - a.1) as int;
    if dx >= dy && dx >= 1 {
        dx
    } else if dy >= 1 {
        dy
    } else {
        1
    }
}

/// The pixel that step `i` of the line from `a` to `b` paints: both
/// coordinates advance in proportion, rounded towards `a`.
pub open spec fn line_point(a: Vec2i, b: Vec2i, i: int) -> (int, int) {
    (
        a.0 + toward_zero((b.0 - a.0) * i, line_steps(a, b)),
        a.1 + toward_zero((b.1 - a.1) * i, line_steps(a, b)),
    )
}

/// Whether one of the first `n` steps of the line from `a` to `b` paints
/// the pixel `(x, y)`.
pub open spec fn on_line(a: Vec2i, b: Vec2i, n: int, x: int, y: int) -> bool {
    exists|i: int| 0 <= i < n && #[trigger] line_point(a, b, i) == (x, y)
}

/// One step more paints one pixel more.
pub proof fn lemma_line_step(a: Vec2i, b: Vec2i, n: int, x: int, y: int)
    requires
        0 <= n,
    ensures
        on_line(a, b, n + 1, x, y) <==> on_line(a, b, n, x, y) || line_point(a, b, n) == (x, y),
        !on_line(a, b, 0, x, y),
{
    if on_line(a, b, n + 1, x, y) {
        let i = choose|i: int| 0 <= i < n + 1 && #[trigger] line_point(a, b, i) == (x, y);
        if i < n {
            assert(on_line(a, b, n, x, y));
        }
    }
    if on_line(a, b, n, x, y) {
        let i = choose|i: int| 0 <= i < n && #[trigger] line_point(a, b, i) == (x, y);
        assert(0 <= i < n + 1 && line_point(a, b, i) == (x, y));
    }
    if line_point(a, b, n) == (x, y) {
        assert(0 <= n < n + 1 && line_point(a, b, n) == (x, y));
    }
}

/// The quotient of a number between zero and `bound * d` by `d` lies
/// between zero and `bound`.
proof fn lemma_quotient_bound(n: int, d: int, bound: int)
    requires
        0 <= n <= bound * d,
        0 < d,
    ensures
        0 <= n / d <= bound,
{
    vstd::arithmetic::div_mod::lemma_fundamental_div_mod(n, d);
    vstd::arithmetic::div_mod::lemma_mod_pos_bound(n, d);
    let q = n / d;
    let r = n % d;
    assert(0 <= q <= bound) by (nonlinear_arith)
        requires
            n == d * q + r,
            0 <= r < d,
            0 <= n <= bound * d,
            0 < d,
    ;
}

/// A part of an extent is no longer than the extent.
proof fn lemma_part_of_extent(d: int, i: int, steps: int)
    requires
        0 <= i <= steps,
        0 < steps,
    ensures
        d >= 0 ==> 0 <= toward_zero(d * i, steps) <= d,
        d <= 0 ==> d <= toward_zero(d * i, steps) <= 0,
{
    if d >= 0 {
        assert(0 <= d * i <= d * steps) by (nonlinear_arith)
            requires
                0 <= d,
                0 <= i <= steps,
        ;
        lemma_quotient_bound(d * i, steps, d);
    }
    if d <= 0 {
        assert(0 <= -(d * i) <= (-d) * steps) by (nonlinear_arith)
            requires
                d <= 0,
                0 <= i <= steps,
        ;
        lemma_quotient_bound(-(d * i), steps, -d);
        if d * i >= 0 {
            lemma_quotient_bound(d * i, steps, 0);
        }
    }
}

/// `v` less `origin`, held between zero and `limit`.
pub open spec fn clipped(v: int, origin: int, limit: int) -> int {
    if v - origin < 0 {
        0
    } else if v - origin > limit {
        limit
    } else {
        v - origin
    }
}

/// Computes [`clipped`].
fn clip(v: i64, origin: i32, limit: usize) -> (held: usize)
    requires
        limit <= u16::MAX,
        -0x1_0000_0000 <= v <= 0x1_0000_0000,
    ensures
        held == clipped(v as int, origin as int, limit as int),
{
    let d: i64 = v - origin as i64;
    if d < 0 {
        0
    } else if d > limit as i64 {
        limit
    } else {
        d as usize
    }
}

impl Screen {
    /// Sets the pixels of a box of the screen.
    fn fill(&mut self, x0: usize, x1: usize, y0: usize, y1: usize, c: Rgba)
        requires
            x0 <= x1 <= old(self)@.image.width,
            y0 <= y1 <= old(self)@.image.height,
        ensures
            final(self)@ == old(self)@.with_box(x0 as int, x1 as int, y0 as int, y1 as int, c),
    {
        let ghost given = self@;
        let ghost (bx0, bx1, by0, by1) = (x0 as int, x1 as int, y0 as int, y1 as int);
        proof {
            use_type_invariant(&*self);
            lemma_pictures_alike(given, given.with_box_up_to(bx0, bx1, by0, by1, bx0, by0, c));
        }
        let mut sy: usize = y0;
        while sy < y1
            invariant
                y0 <= sy <= y1 <= given.image.height,
                x0 <= x1 <= given.image.width,
                given.image.well_formed(),
                (bx0, bx1, by0, by1) == (x0 as int, x1 as int, y0 as int, y1 as int),
                self@ == given.with_box_up_to(bx0, bx1, by0, by1, bx0, sy as int, c),
            decreases y1 - sy,
        {
            let mut sx: usize = x0;
            while sx < x1
                invariant
                    y0 <= sy < y1 <= given.image.height,
                    x0 <= sx <= x1 <= given.image.width,
                    given.image.well_formed(),
                    (bx0, bx1, by0, by1) == (x0 as int, x1 as int, y0 as int, y1 as int),
                    self@ == given.with_box_up_to(bx0, bx1, by0, by1, sx as int, sy as int, c),
                decreases x1 - sx,
            {
                self.set(sx, sy, c);
                proof {
                    lemma_pictures_alike(
                        self@,
                        given.with_box_up_to(bx0, bx1, by0, by1, sx + 1, sy as int, c),
                    );
                }
                sx += 1;
            }
            proof {
                lemma_pictures_alike(
                    self@,
                    given.with_box_up_to(bx0, bx1, by0, by1, bx0, sy + 1, c),
                );
            }
            sy += 1;
        }
    }

    /// Paints the whole screen in one colour.
    pub fn clear(&mut self, c: Rgba)
        ensures
            final(self)@ == old(self)@.cleared(c),
    {
        proof {
            use_type_invariant(&*self);
            lemma_pictures_alike(
                self@.with_box(0, self.width as int, 0, self.height as int, c),
                self@.cleared(c),
            );
        }
        self.fill(0, self.width, 0, self.height, c);
    }

    /// Paints the part of `r` that the screen shows.
    pub fn rect(&mut self, r: Rect, c: Rgba)
        ensures
            final(self)@ == old(self)@.with_rect(r, c),
    {
        proof {
            use_type_invariant(&*self);
        }
        let x0: usize = clip(r.x as i64, self.position.0, self.width);
        let x1: usize = clip(r.x as i64 + r.w as i64, self.position.0, self.width);
        let y0: usize = clip(r.y as i64, self.position.1, self.height);
        let y1: usize = clip(r.y as i64 + r.h as i64, self.position.1, self.height);
        proof {
            lemma_pictures_alike(
                self@.with_box(x0 as int, x1 as int, y0 as int, y1 as int, c),
                self@.with_rect(r, c),
            );
        }
        self.fill(x0, x1, y0, y1, c);
    }
}

impl Screen {
    /// Copies the region `from` of `image` to the place `to` of the world,
    /// as far as the screen shows it. Pixels of the region that lie
    /// outside the image are left out, and so are pixels of the image that
    /// are wholly transparent.
    pub fn bitblt(&mut self, image: &Texture, from: Rect, to: Vec2i)
        ensures
            final(self)@ == old(self)@.blitted(image@, from, to),
    {
        let ghost given = self@;
        proof {
            use_type_invariant(&*self);
        }
        let (image_width, image_height) = image.size();
        let x0: usize = clip(to.0 as i64, self.position.0, self.width);
        let x1: usize = clip(to.0 as i64 + from.w as i64, self.position.0, self.width);
        let y0: usize = clip(to.1 as i64, self.position.1, self.height);
        let y1: usize = clip(to.1 as i64 + from.h as i64, self.position.1, self.height);
        proof {
            lemma_pictures_alike(given, given.blitted_up_to(image@, from, to, x0 as int, y0 as int));
        }
        let mut sy: usize = y0;
        while sy < y1
            invariant
                y0 <= sy <= y1 <= self.height == given.image.height,
                x0 <= x1 <= self.width == given.image.width,
                self.position == given.position,
                given.image.well_formed(),
                image@.well_formed(),
                image_width == image@.width,
                image_height == image@.height,
                x0 == clipped(to.0 as int, given.position.0 as int, given.image.width as int),
                x1 == clipped(to.0 + from.w, given.position.0 as int, given.image.width as int),
                y0 == clipped(to.1 as int, given.position.1 as int, given.image.height as int),
                y1 == clipped(to.1 + from.h, given.position.1 as int, given.image.height as int),
                self@ == given.blitted_up_to(image@, from, to, x0 as int, sy as int),
            decreases y1 - sy,
        {
            let mut sx: usize = x0;
            while sx < x1
                invariant
                    y0 <= sy < y1 <= self.height == given.image.height,
                    x0 <= sx <= x1 <= self.width == given.image.width,
                    self.position == given.position,
                    given.image.well_formed(),
                    image@.well_formed(),
                    image_width == image@.width,
                    image_height == image@.height,
                    x0 == clipped(to.0 as int, given.position.0 as int, given.image.width as int),
                    x1 == clipped(to.0 + from.w, given.position.0 as int, given.image.width as int),
                    y0 == clipped(to.1 as int, given.position.1 as int, given.image.height as int),
                    y1 == clipped(
                        to.1 + from.h,
                        given.position.1 as int,
                        given.image.height as int,
                    ),
                    self@ == given.blitted_up_to(image@, from, to, sx as int, sy as int),
                decreases x1 - sx,
            {
                let ghost prev = self@;
                let ghost wx = sx + given.position.0;
                let ghost wy = sy + given.position.1;
                let column: i64 = from.x as i64 + (sx as i64 + self.position.0 as i64 - to.0 as i64);
                let row: i64 = from.y as i64 + (sy as i64 + self.position.1 as i64 - to.1 as i64);
                assert(0 <= wx - to.0 < from.w && 0 <= wy - to.1 < from.h);
                if 0 <= column && (column as u64) < image_width as u64 && 0 <= row && (row as u64)
                    < image_height as u64 {
                    let c: Rgba = image.pixel(column as usize, row as usize);
                    if c.3 > 0 {
                        self.set(sx, sy, c);
                        assert(Picture::copied(image@, from, to, wx, wy) == Some(c));
                    } else {
                        assert(Picture::copied(image@, from, to, wx, wy).is_none());
                    }
                } else {
                    assert(Picture::copied(image@, from, to, wx, wy).is_none());
                }
                proof {
                    let next = given.blitted_up_to(image@, from, to, sx + 1, sy as int);
                    assert forall|x: int, y: int| self@.shows(x, y) implies #[trigger] self@.color_at(
                        x,
                        y,
                    ) == next.color_at(x, y) by {
                        if x == wx && y == wy {
                            assert(comes_before(x - given.position.0, y - given.position.1, sx + 1, sy as int));
                            assert(!comes_before(x - given.position.0, y - given.position.1, sx as int, sy as int));
                            assert(prev.color_at(x, y) == given.color_at(x, y));
                        } else {
                            assert(self@.color_at(x, y) == prev.color_at(x, y));
                            assert(comes_before(x - given.position.0, y - given.position.1, sx + 1, sy as int)
                                == comes_before(
                                x - given.position.0,
                                y - given.position.1,
                                sx as int,
                                sy as int,
                            ));
                        }
                    }
                    lemma_pictures_alike(self@, next);
                }
                sx += 1;
            }
            proof {
                lemma_pictures_alike(
                    self@,
                    given.blitted_up_to(image@, from, to, x0 as int, sy + 1),
                );
            }
            sy += 1;
        }
        proof {
            lemma_pictures_alike(self@, given.blitted(image@, from, to));
        }
    }
}

impl Screen {
    /// Draws the line from `a` to `b`, as far as the screen shows it.
    pub fn line(&mut self, a: Vec2i, b: Vec2i, c: Rgba)
        ensures
            final(self)@ == old(self)@.with_line(a, b, c),
    {
        let ghost given = self@;
        proof {
            use_type_invariant(&*self);
        }
        let dx: i64 = b.0 as i64 - a.0 as i64;
        let dy: i64 = b.1 as i64 - a.1 as i64;
        let extent_x: i64 = if dx >= 0 {
            dx
        } else {
            -dx
        };
        let extent_y: i64 = if dy >= 0 {
            dy
        } else {
            -dy
        };
        let steps: i64 = if extent_x >= extent_y && extent_x >= 1 {
            extent_x
        } else if extent_y >= 1 {
            extent_y
        } else {
            1
        };
        proof {
            assert forall|x: int, y: int| given.shows(x, y) implies #[trigger] given.color_at(x, y)
                == given.with_line_up_to(a, b, 0, c).color_at(x, y) by {
                lemma_line_step(a, b, 0, x, y);
            }
            lemma_pictures_alike(given, given.with_line_up_to(a, b, 0, c));
        }
        let mut i: i64 = 0;
        while i <= steps
            invariant
                0 <= i <= steps + 1,
                steps == line_steps(a, b),
                dx == b.0 - a.0,
                dy == b.1 - a.1,
                given.image.well_formed(),
                self@ == given.with_line_up_to(a, b, i as int, c),
            decreases steps + 1 - i,
        {
            proof {
                lemma_part_of_extent(dx as int, i as int, steps as int);
                lemma_part_of_extent(dy as int, i as int, steps as int);
                assert(-0x1_0000_0000 * 0x1_0000_0000 <= dx * i <= 0x1_0000_0000 * 0x1_0000_0000
                    && -0x1_0000_0000 * 0x1_0000_0000 <= dy * i <= 0x1_0000_0000 * 0x1_0000_0000)
                    by (nonlinear_arith)
                    requires
                        -0x1_0000_0000 <= dx <= 0x1_0000_0000,
                        -0x1_0000_0000 <= dy <= 0x1_0000_0000,
                        0 <= i <= 0x1_0000_0000,
                ;
            }
            let along_x: i128 = (dx as i128 * i as i128) / steps as i128;
            let along_y: i128 = (dy as i128 * i as i128) / steps as i128;
            let x: i32 = (a.0 as i128 + along_x) as i32;
            let y: i32 = (a.1 as i128 + along_y) as i32;
            assert((x as int, y as int) == line_point(a, b, i as int));
            let ghost prev = self@;
            self.plot(x, y, c);
            proof {
                let next = given.with_line_up_to(a, b, i + 1, c);
                assert forall|px: int, py: int| self@.shows(px, py) implies #[trigger] self@.color_at(
                    px,
                    py,
                ) == next.color_at(px, py) by {
                    lemma_line_step(a, b, i as int, px, py);
                    if px == x && py == y {
                    } else {
                        assert(self@.color_at(px, py) == prev.color_at(px, py));
                    }
                }
                lemma_pictures_alike(self@, next);
            }
            i += 1;
        }
    }
}

/// Writes `text` on the screen in the glyphs of `font_sheet`, beginning
/// at the place `pos` of the screen, which is at `scroll` in the world.
pub fn draw_string(text: &str, screen: &mut Screen, font_sheet: &Texture, pos: Vec2i, scroll: Vec2i)
    requires
        i32::MIN <= scroll.0 + pos.0,
        scroll.0 + pos.0 + 8 * text@.len() <= i32::MAX,
        i32::MIN <= scroll.1 + pos.1 <= i32::MAX,
    ensures
        final(screen)@ == old(screen)@.with_text(
            font_sheet@,
            text@,
            Vec2i((scroll.0 + pos.0) as i32, (scroll.1 + pos.1) as i32),
            text@.len() as int,
        ),
{
    let ghost given = screen@;
    let at: Vec2i = Vec2i(scroll.0 + pos.0, scroll.1 + pos.1);
    let length: usize = text.unicode_len();
    let mut i: usize = 0;
    while i < length
        invariant
            i <= length == text@.len(),
            at.0 + 8 * length <= i32::MAX,
            screen@ == given.with_text(font_sheet@, text@, at, i as int),
        decreases length - i,
    {
        let code: u32 = text.get_char(i) as u32;
        if FIRST_GLYPH <= code && code < END_OF_GLYPHS {
            let glyph: u32 = code - FIRST_GLYPH;
            let frame = Rect {
                x: ((glyph % GLYPHS_PER_ROW) * 8) as i32,
                y: ((glyph / GLYPHS_PER_ROW) * 8) as i32,
                w: GLYPH_SIZE,
                h: GLYPH_SIZE,
            };
            let x: i64 = at.0 as i64 + 8 * i as i64;
            screen.bitblt(font_sheet, frame, Vec2i(x as i32, at.1));
        }
        i += 1;
    }
}

impl DrawSpriteExt for Screen {
    fn draw_sprite(&mut self, s: &Sprite, cur_frame: usize)
        ensures
            final(self)@ == old(self)@.blitted(
                s.image@,
                s.animation_sm.frame_at(cur_frame),
                s.position,
            ),
    {
        let frame: Rect = s.current_frame(cur_frame);
        self.bitblt(&s.image, frame, s.position);
    }
}

} // verus!
