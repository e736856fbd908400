//! Filling a frame buffer of four bytes per pixel, `WIDTH` pixels per row.

use vstd::prelude::*;
use crate::geometry::Rect;

verus! {

/// Bytes per pixel.
pub const DEPTH: usize = 4;

/// Pixels per row of the frame buffer.
pub const WIDTH: usize = 512;

/// Rows of the frame buffer.
pub const HEIGHT: usize = 480;

/// Bytes per row of the frame buffer.
pub const PITCH: usize = 2048;

/// A pixel: red, green, blue, alpha.
pub type Color = [u8; 4];

/// The column after the last one that is painted for `r`: its right edge,
/// held to the width of the frame buffer.
pub open spec fn end_column(r: Rect) -> int {
    if r.right() < WIDTH {
        r.right()
    } else {
        WIDTH as int
    }
}

/// The row after the last one that is painted for `r`: its lower edge,
/// held to the height of the frame buffer.
pub open spec fn end_row(r: Rect) -> int {
    if r.bottom() < HEIGHT {
        r.bottom()
    } else {
        HEIGHT as int
    }
}

/// The row of the pixel that byte `i` of the frame buffer belongs to.
pub open spec fn row_index(i: int) -> int {
    i / 2048
}

/// The column of the pixel that byte `i` of the frame buffer belongs to.
pub open spec fn column_index(i: int) -> int {
    (i % 2048) / 4
}

/// Whether byte `i` of the frame buffer belongs to a pixel of `r`.
pub open spec fn in_rect(i: int, r: Rect) -> bool {
    &&& r.y <= row_index(i) < end_row(r)
    &&& r.x <= column_index(i) < end_column(r)
}

/// Whether the pixel of byte `i` comes before the pixel in row `y` and
/// column `x`, row by row.
spec fn comes_before(i: int, y: int, x: int) -> bool {
    row_index(i) < y || (row_index(i) == y && column_index(i) < x)
}

/// The four bytes of the pixel in row `y` and column `x`, and no others,
/// lie in that row and column.
proof fn lemma_pixel_bytes(y: int, x: int)
    requires
        0 <= y,
        0 <= x < 512,
    ensures
        forall|i: int|
            0 <= i ==> ((#[trigger] row_index(i)) == y && column_index(i) == x <==> y * 2048 + x * 4
                <= i < y * 2048 + x * 4 + 4),
        forall|i: int|
            y * 2048 + x * 4 <= i < y * 2048 + x * 4 + 4 ==> #[trigger] (i % 4) == i - (y * 2048 + x
                * 4),
{
    assert forall|i: int| 0 <= i implies ((#[trigger] row_index(i)) == y && column_index(i) == x
        <==> y * 2048 + x * 4 <= i < y * 2048 + x * 4 + 4) by {
        assert(i == 2048 * (i / 2048) + i % 2048);
        assert(i % 2048 == 4 * ((i % 2048) / 4) + (i % 2048) % 4);
    }
    assert forall|i: int| y * 2048 + x * 4 <= i < y * 2048 + x * 4 + 4 implies #[trigger] (i % 4)
        == i - (y * 2048 + x * 4) by {
        assert((y * 2048 + x * 4) % 4 == 0) by {
            assert(y * 2048 + x * 4 == 4 * (y * 512 + x));
        }
    }
}

/// The buffer with every whole pixel set to `c`; bytes behind the last
/// whole pixel stay.
pub open spec fn cleared(before: Seq<u8>, c: Color) -> Seq<u8> {
    Seq::new(
        before.len(),
        |i: int|
            if i < before.len() - before.len() % 4 {
                c[i % 4]
            } else {
                before[i]
            },
    )
}

/// The buffer with the pixels of `r` set to `c`.
pub open spec fn painted(before: Seq<u8>, r: Rect, c: Color) -> Seq<u8> {
    Seq::new(
        before.len(),
        |i: int|
            if in_rect(i, r) {
                c[i % 4]
            } else {
                before[i]
            },
    )
}

/// Whether `r` can be painted into a buffer of `len` bytes: its origin
/// lies on the frame, and the buffer holds every row that it reaches.
pub open spec fn paintable(len: nat, r: Rect) -> bool {
    &&& 0 <= r.x < WIDTH
    &&& 0 <= r.y < HEIGHT
    &&& end_row(r) * PITCH <= len
}

/// Sets every whole pixel of the buffer to `c`.
pub fn clear(fb: &mut Vec<u8>, c: Color)
    ensures
        final(fb)@ == cleared(old(fb)@, c),
{
    let ghost before = fb@;
    let pixels: usize = fb.len() / DEPTH;
    let mut p: usize = 0;
    while p < pixels
        invariant
            p <= pixels,
            pixels == before.len() / 4,
            fb.len() == before.len(),
            forall|i: int| 0 <= i < p * 4 ==> #[trigger] fb[i] == c[i % 4],
            forall|i: int| p * 4 <= i < fb.len() ==> #[trigger] fb[i] == before[i],
        decreases pixels - p,
    {
        let base: usize = p * DEPTH;
        fb[base] = c[0];
        fb[base + 1] = c[1];
        fb[base + 2] = c[2];
        fb[base + 3] = c[3];
        p += 1;
    }
    assert(fb@ =~= cleared(before, c));
}

/// Paints the part of `r` that lies on the frame with `c`.
pub fn rect(fb: &mut Vec<u8>, r: Rect, c: Color)
    requires
        paintable(old(fb)@.len(), r),
    ensures
        final(fb)@ == painted(old(fb)@, r, c),
{
    let ghost before = fb@;
    let right: i64 = r.x as i64 + r.w as i64;
    let bottom: i64 = r.y as i64 + r.h as i64;
    let x0: usize = r.x as usize;
    let y0: usize = r.y as usize;
    let x1: usize = if right < WIDTH as i64 {
        right as usize
    } else {
        WIDTH
    };
    let y1: usize = if bottom < HEIGHT as i64 {
        bottom as usize
    } else {
        HEIGHT
    };
    let mut y: usize = y0;
    while y < y1
        invariant
            y0 <= y <= y1 <= HEIGHT,
            x0 <= x1 <= WIDTH,
            x0 == r.x,
            y0 == r.y,
            x1 == end_column(r),
            y1 == end_row(r),
            y1 * 2048 <= fb.len(),
            fb.len() == before.len(),
            forall|i: int|
                0 <= i < fb.len() ==> #[trigger] fb[i] == if in_rect(i, r) && comes_before(
                    i,
                    y as int,
                    0,
                ) {
                    c[i % 4]
                } else {
                    before[i]
                },
        decreases y1 - y,
    {
        let mut x: usize = x0;
        proof {
            assert forall|i: int| 0 <= i < fb.len() implies (in_rect(i, r) && comes_before(
                i,
                y as int,
                0,
            )) == (in_rect(i, r) && comes_before(i, y as int, x as int)) by {}
        }
        while x < x1
            invariant
                y0 <= y < y1 <= HEIGHT,
                x0 <= x <= x1 <= WIDTH,
                x0 == r.x,
                y0 == r.y,
                x1 == end_column(r),
                y1 == end_row(r),
                y1 * 2048 <= fb.len(),
                fb.len() == before.len(),
                forall|i: int|
                    0 <= i < fb.len() ==> #[trigger] fb[i] == if in_rect(i, r) && comes_before(
                        i,
                        y as int,
                        x as int,
                    ) {
                        c[i % 4]
                    } else {
                        before[i]
                    },
            decreases x1 - x,
        {
            let base: usize = y * PITCH + x * DEPTH;
            let ghost earlier = fb@;
            fb[base] = c[0];
            fb[base + 1] = c[1];
            fb[base + 2] = c[2];
            fb[base + 3] = c[3];
            proof {
                lemma_pixel_bytes(y as int, x as int);
                assert forall|i: int| 0 <= i < fb.len() implies #[trigger] fb[i] == if in_rect(i, r)
                    && comes_before(i, y as int, x + 1) {
                    c[i % 4]
                } else {
                    before[i]
                } by {
                    if base <= i < base + 4 {
                        assert(row_index(i) == y && column_index(i) == x);
                        assert(i % 4 == i - base);
                    } else {
                        assert(!(row_index(i) == y && column_index(i) == x));
                        assert(fb[i] == earlier[i]);
                        assert(comes_before(i, y as int, x + 1) == comes_before(
                            i,
                            y as int,
                            x as int,
                        ));
                    }
                }
            }
            x += 1;
        }
        proof {
            assert forall|i: int| 0 <= i < fb.len() implies (in_rect(i, r) && comes_before(
                i,
                y + 1,
                0,
            )) == (in_rect(i, r) && comes_before(i, y as int, x as int)) by {}
        }
        y += 1;
    }
    assert forall|i: int| 0 <= i < fb.len() implies fb[i] == painted(before, r, c)[i] by {
        assert(in_rect(i, r) ==> comes_before(i, y as int, 0));
    }
    assert(fb@ =~= painted(before, r, c));
}

} // verus!
