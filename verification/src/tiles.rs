//! Tile sets, and the tile maps that page the scrolling background.

use vstd::prelude::*;
use std::rc::Rc;
use crate::geometry::{Rect, Vec2i};
use crate::screen::{Blit, Screen};
use crate::texture::{share, Texture};

verus! {

/// The side of a tile, in pixels.
pub const TILE_SZ: usize = 16;

/// What is known of a tile: whether bodies can pass it.
#[derive(Clone, Copy, Debug, PartialEq, Eq, Structural)]
pub struct Tile {
    pub solid: bool,
}

/// The number of a tile in its tile set.
#[derive(Clone, Copy, Debug, PartialEq, Eq, Structural)]
pub struct TileID(pub usize);

/// Pixel distance to tile distance: the quotient by the tile side, rounded
/// towards zero.
pub open spec fn tiles_across(d: int) -> int {
    if d >= 0 {
        d / 16
    } else {
        -((-d) / 16)
    }
}

/// `v` held between `lo` and `hi`.
pub open spec fn clamped(v: int, lo: int, hi: int) -> int {
    if v < lo {
        lo
    } else if v > hi {
        hi
    } else {
        v
    }
}

/// Whether no name stands twice in the list.
pub open spec fn names_distinct(groups: Seq<(String, Vec<usize>)>) -> bool {
    forall|i: int, j: int|
        0 <= i < j < groups.len() ==> (#[trigger] groups[i]).0@ != (#[trigger] groups[j]).0@
}

/// A set of tiles cut from one image, with named groups of tile numbers.
/// No two groups have the same name.
pub struct Tileset {
    tiles: Vec<Tile>,
    texture: Rc<Texture>,
    tile_ids: Vec<(String, Vec<usize>)>,
}

impl Tileset {
    #[verifier::type_invariant]
    spec fn consistent(self) -> bool {
        names_distinct(self.tile_ids@)
    }

    /// The tiles, by number.
    pub closed spec fn tiles(self) -> Seq<Tile> {
        self.tiles@
    }

    /// The image that the tiles are cut from.
    pub closed spec fn image(self) -> Texture {
        *self.texture
    }

    /// The named groups of tile numbers.
    pub closed spec fn groups(self) -> Seq<(String, Vec<usize>)> {
        self.tile_ids@
    }

    /// How many tiles lie side by side in the image.
    pub open spec fn columns(self) -> int {
        self.image()@.width as int / 16
    }

    /// The region of the image that holds tile `id`: tiles are numbered
    /// row by row.
    pub open spec fn frame_of(self, id: TileID) -> Rect {
        Rect {
            x: ((id.0 as int % self.columns()) * 16) as i32,
            y: ((id.0 as int / self.columns()) * 16) as i32,
            w: 16,
            h: 16,
        }
    }

    /// Whether the region of tile `id` can be told in `i32` coordinates.
    pub open spec fn frame_fits(self, id: TileID) -> bool {
        &&& self.columns() > 0
        &&& (id.0 as int / self.columns()) * 16 <= i32::MAX
        &&& (id.0 as int % self.columns()) * 16 <= i32::MAX
    }

    /// A tile set that shares `texture`.
    pub fn new(tiles: Vec<Tile>, texture: &Rc<Texture>, tile_ids: Vec<(String, Vec<usize>)>) -> (tileset:
        Self)
        requires
            names_distinct(tile_ids@),
        ensures
            tileset.tiles() == tiles@,
            tileset.image() == **texture,
            tileset.groups() == tile_ids@,
    {
        Self { tiles, texture: share(texture), tile_ids }
    }

    /// The region of the image that holds tile `id`.
    pub fn get_rect(&self, id: TileID) -> (frame: Rect)
        requires
            self.frame_fits(id),
        ensures
            frame == self.frame_of(id),
    {
        let idx: usize = id.0;
        let (w, _h) = self.texture.size();
        let tw: usize = w / TILE_SZ;
        let row: usize = idx / tw;
        assert(0 <= row * tw <= idx && idx - row * tw == idx as int % tw as int)
            by (nonlinear_arith)
            requires
                tw > 0,
                row == idx as int / tw as int,
        ;
        let col: usize = idx - (row * tw);
        Rect {
            x: col as i32 * TILE_SZ as i32,
            y: row as i32 * TILE_SZ as i32,
            w: TILE_SZ as u16,
            h: TILE_SZ as u16,
        }
    }

    /// Whether the set has a tile of this number.
    pub fn contains(&self, id: TileID) -> (found: bool)
        ensures
            found == (id.0 < self.tiles().len()),
    {
        id.0 < self.tiles.len()
    }

    /// The tile of this number.
    pub fn tile(&self, id: TileID) -> (tile: Tile)
        requires
            id.0 < self.tiles().len(),
        ensures
            tile == self.tiles()[id.0 as int],
    {
        self.tiles[id.0]
    }

    /// The image that the tiles are cut from.
    pub fn texture(&self) -> (texture: &Rc<Texture>)
        ensures
            **texture == self.image(),
    {
        &self.texture
    }

    /// How many tiles the set has.
    pub fn len(&self) -> (n: usize)
        ensures
            n == self.tiles().len(),
    {
        self.tiles.len()
    }

    /// Whether group `i` is the one called `name`.
    pub open spec fn is_group(self, i: int, name: Seq<char>) -> bool {
        0 <= i < self.groups().len() && self.groups()[i].0@ == name
    }

    /// The tile numbers of the group called `name`, if there is one. There
    /// is at most one.
    pub fn group(&self, name: &str) -> (found: Option<&Vec<usize>>)
        ensures
            match found {
                Some(ids) => exists|i: int|
                    {
                        &&& #[trigger] self.is_group(i, name@)
                        &&& self.groups()[i].1 == *ids
                        &&& forall|j: int| #[trigger] self.is_group(j, name@) ==> j == i
                    },
                None => forall|i: int| !#[trigger] self.is_group(i, name@),
            },
    {
        proof {
            use_type_invariant(self);
        }
        let wanted: String = name.to_owned();
        let mut i: usize = 0;
        while i < self.tile_ids.len()
            invariant
                i <= self.tile_ids.len(),
                wanted@ == name@,
                names_distinct(self.tile_ids@),
                forall|k: int| 0 <= k < i ==> !#[trigger] self.is_group(k, name@),
            decreases self.tile_ids.len() - i,
        {
            if self.tile_ids[i].0 == wanted {
                assert(self.is_group(i as int, name@));
                assert forall|j: int| #[trigger] self.is_group(j, name@) implies j == i by {
                    if j > i {
                        assert(self.tile_ids@[i as int].0@ != self.tile_ids@[j].0@);
                    }
                }
                return Some(&self.tile_ids[i].1);
            }
            i += 1;
        }
        None
    }
}

/// A grid of tiles at a place in the world. The grid is stored row by row,
/// and every tile number in it belongs to the tile set.
pub struct Tilemap {
    /// Where the tilemap is in space
    position: Vec2i,
    /// How big it is, in tiles
    dims: (usize, usize),
    /// Which tileset is used for this tilemap
    tileset: Rc<Tileset>,
    /// A row-major grid of tile IDs in tileset
    map: Vec<TileID>,
}

/// Row `y`, column `x` of a grid of `width` columns lies inside the grid
/// of `width * height` cells.
proof fn lemma_cell_in_grid(x: int, y: int, width: int, height: int)
    by (nonlinear_arith)
    requires
        0 <= x < width,
        0 <= y < height,
    ensures
        0 <= y * width + x < width * height,
        0 <= y * width <= width * height,
{
}

impl Tilemap {
    #[verifier::type_invariant]
    spec fn consistent(self) -> bool {
        Self::well_formed(self.dims, *self.tileset, self.map@)
    }

    /// The grid has one tile number for every cell, and the tile set has a
    /// tile of every number in it.
    pub open spec fn well_formed(dims: (usize, usize), tileset: Tileset, ids: Seq<TileID>) -> bool {
        &&& dims.0 * dims.1 == ids.len()
        &&& forall|i: int| 0 <= i < ids.len() ==> (#[trigger] ids[i]).0 < tileset.tiles().len()
    }

    /// Where the top-left corner of the map is.
    pub closed spec fn origin(self) -> Vec2i {
        self.position
    }

    /// Columns and rows of the grid.
    pub closed spec fn extent(self) -> (usize, usize) {
        self.dims
    }

    /// The tile set of the map.
    pub closed spec fn tiles(self) -> Tileset {
        *self.tileset
    }

    /// The tile numbers, row by row.
    pub closed spec fn ids(self) -> Seq<TileID> {
        self.map@
    }

    /// The column of the grid that holds pixel column `x`, counted from the
    /// map's left edge and rounded towards it.
    pub open spec fn column_of(self, x: int) -> int {
        tiles_across(x - self.origin().0)
    }

    /// The row of the grid that holds pixel row `y`, counted from the map's
    /// top edge and rounded towards it.
    pub open spec fn row_of(self, y: int) -> int {
        tiles_across(y - self.origin().1)
    }

    /// The first column of the grid that shows in `bounds`.
    pub open spec fn first_column(self, bounds: Rect) -> int {
        clamped(self.column_of(bounds.x as int), 0, self.extent().0 as int)
    }

    /// The column after the last one that shows in `bounds`; one tile of
    /// padding makes sure that a tile partly on screen is drawn.
    pub open spec fn end_column(self, bounds: Rect) -> int {
        clamped(self.column_of(bounds.x + bounds.w + 16), 0, self.extent().0 as int)
    }

    /// The first row of the grid that shows in `bounds`.
    pub open spec fn first_row(self, bounds: Rect) -> int {
        clamped(self.row_of(bounds.y as int), 0, self.extent().1 as int)
    }

    /// The row after the last one that shows in `bounds`.
    pub open spec fn end_row(self, bounds: Rect) -> int {
        clamped(self.row_of(bounds.y + bounds.h + 16), 0, self.extent().1 as int)
    }

    /// What is drawn for the cell in column `x` and row `y`.
    pub open spec fn blit_of(self, x: int, y: int) -> Blit {
        Blit {
            frame: self.tiles().frame_of(self.ids()[y * self.extent().0 + x]),
            at: Vec2i((x * 16 + self.origin().0) as i32, (y * 16 + self.origin().1) as i32),
        }
    }

    /// Whether the part of the map that shows in `bounds` can be drawn
    /// within the limits of the integer types.
    pub open spec fn drawable(self, bounds: Rect) -> bool {
        &&& 0 < self.extent().0 <= i32::MAX
        &&& self.extent().1 <= i32::MAX
        &&& bounds.w + 16 <= u16::MAX
        &&& bounds.h + 16 <= u16::MAX
        &&& i32::MIN <= bounds.x - self.origin().0 <= i32::MAX
        &&& i32::MIN <= bounds.y - self.origin().1 <= i32::MAX
        &&& bounds.x + bounds.w + 16 <= i32::MAX
        &&& bounds.y + bounds.h + 16 <= i32::MAX
        &&& i32::MIN <= bounds.x + bounds.w + 16 - self.origin().0 <= i32::MAX
        &&& i32::MIN <= bounds.y + bounds.h + 16 - self.origin().1 <= i32::MAX
        &&& forall|x: int, y: int|
            self.first_column(bounds) <= x < self.end_column(bounds) && self.first_row(bounds) <= y
                < self.end_row(bounds) ==> {
                &&& x * 16 + self.origin().0 <= i32::MAX
                &&& y * 16 + self.origin().1 <= i32::MAX
                &&& self.tiles().frame_fits(#[trigger] self.ids()[y * self.extent().0 + x])
            }
    }

    /// Whether `posn` lies on the map, and within reach of `i32`
    /// arithmetic from its origin.
    pub open spec fn on_map(self, posn: Vec2i) -> bool {
        &&& i32::MIN <= posn.0 - self.origin().0 <= i32::MAX
        &&& i32::MIN <= posn.1 - self.origin().1 <= i32::MAX
        &&& 0 <= self.column_of(posn.0 as int) < self.extent().0
        &&& 0 <= self.row_of(posn.1 as int) < self.extent().1
    }

    /// Whether the map, in pixels, touches the screen.
    pub open spec fn shows_on(self, screen_pos: Vec2i, screen_dim: Vec2i) -> bool {
        !(self.origin().0 + self.extent().0 * 16 < screen_pos.0 || self.origin().0 > screen_pos.0
            + screen_dim.0 || self.origin().1 + self.extent().1 * 16 < screen_pos.1
            || self.origin().1 > screen_pos.1 + screen_dim.1)
    }

    /// What is drawn of the map on a screen that shows `bounds`: the
    /// cells from the first to the last column and row that show, row by
    /// row from the top and from left to right within a row.
    pub open spec fn visible(self, bounds: Rect) -> Seq<Blit> {
        let width = self.end_column(bounds) - self.first_column(bounds);
        let height = self.end_row(bounds) - self.first_row(bounds);
        Seq::new(
            (width * height) as nat,
            |k: int|
                self.blit_of(self.first_column(bounds) + k % width, self.first_row(bounds) + k / width),
        )
    }

    /// Draws the portion of the map that appears on the screen.
    pub fn draw(&self, screen: &mut Screen)
        requires
            self.drawable(old(screen)@.bounds()),
        ensures
            final(screen)@ == old(screen)@.with_blits(
                self.tiles().image()@,
                self.visible(old(screen)@.bounds()),
            ),
    {
        let ghost given = screen@;
        let bounds: Rect = screen.bounds();
        let blits: Vec<Blit> = self.visible_tiles(bounds);
        let mut k: usize = 0;
        while k < blits.len()
            invariant
                k <= blits.len(),
                screen@ == given.with_blits(self.tiles().image()@, blits@.take(k as int)),
            decreases blits.len() - k,
        {
            let blit: Blit = blits[k];
            screen.bitblt(&self.tileset.texture(), blit.frame, blit.at);
            proof {
                assert(blits@.take(k + 1).drop_last() =~= blits@.take(k as int));
            }
            k += 1;
        }
        assert(blits@.take(k as int) =~= blits@);
    }

    /// The tiles of the map that show within `bounds`.
    pub fn visible_tiles(&self, bounds: Rect) -> (blits: Vec<Blit>)
        requires
            self.drawable(bounds),
        ensures
            blits@ == self.visible(bounds),
    {
        proof {
            use_type_invariant(self);
        }
        let sx: i32 = bounds.x;
        let sy: i32 = bounds.y;
        let sw: u16 = bounds.w;
        let sh: u16 = bounds.h;
        let columns: i32 = self.dims.0 as i32;
        let rows: i32 = self.dims.1 as i32;
        let left: usize = clamp((sx - self.position.0) / TILE_SZ as i32, columns) as usize;
        let right: usize = clamp(
            (sx + ((sw + TILE_SZ as u16) as i32) - self.position.0) / TILE_SZ as i32,
            columns,
        ) as usize;
        let top: usize = clamp((sy - self.position.1) / TILE_SZ as i32, rows) as usize;
        let bot: usize = clamp(
            (sy + ((sh + TILE_SZ as u16) as i32) - self.position.1) / TILE_SZ as i32,
            rows,
        ) as usize;
        let ghost width: int = right - left;
        let cells: usize = self.map.len();
        let mut blits: Vec<Blit> = Vec::new();
        let mut y: usize = top;
        while y < bot
            invariant
                top <= y <= bot || (bot < top && y == top),
                left <= right <= self.dims.0,
                bot <= self.dims.1,
                width == right - left,
                left == self.first_column(bounds),
                right == self.end_column(bounds),
                top == self.first_row(bounds),
                bot == self.end_row(bounds),
                self.drawable(bounds),
                Self::well_formed(self.dims, *self.tileset, self.map@),
                cells == self.map@.len(),
                blits.len() == (y - top) * width,
                forall|cx: int, cy: int|
                    left <= cx < right && top <= cy < y ==> blits[(cy - top) * width + (cx - left)]
                        == #[trigger] self.blit_of(cx, cy),
            decreases bot - y,
        {
            let ypx: i32 = (y * TILE_SZ) as i32 + self.position.1;
            let mut x: usize = left;
            while x < right
                invariant
                    left <= x <= right <= self.dims.0,
                    top <= y < bot <= self.dims.1,
                    width == right - left,
                    left == self.first_column(bounds),
                    right == self.end_column(bounds),
                    top == self.first_row(bounds),
                    bot == self.end_row(bounds),
                    self.drawable(bounds),
                    Self::well_formed(self.dims, *self.tileset, self.map@),
                    ypx == y * 16 + self.position.1,
                    cells == self.map@.len(),
                    blits.len() == (y - top) * width + (x - left),
                    forall|cx: int, cy: int|
                        left <= cx < right && top <= cy < y ==> blits[(cy - top) * width + (cx
                            - left)] == #[trigger] self.blit_of(cx, cy),
                    forall|cx: int|
                        left <= cx < x ==> blits[(y - top) * width + (cx - left)]
                            == #[trigger] self.blit_of(cx, y as int),
                decreases right - x,
            {
                proof {
                    lemma_cell_in_grid(x as int, y as int, self.dims.0 as int, self.dims.1 as int);
                    assert(y * self.dims.0 + x < self.map@.len());
                    assert(self.tiles().frame_fits(self.ids()[y * self.extent().0 + x]));
                }
                let xpx: i32 = (x * TILE_SZ) as i32 + self.position.0;
                let id: TileID = self.map[y * self.dims.0 + x];
                let frame: Rect = self.tileset.get_rect(id);
                let ghost before = blits@;
                blits.push(Blit { frame, at: Vec2i(xpx, ypx) });
                proof {
                    assert(blits[(y - top) * width + (x - left)] == self.blit_of(x as int, y as int));
                    assert forall|cx: int, cy: int| left <= cx < right && top <= cy < y implies blits[(
                    cy - top) * width + (cx - left)] == #[trigger] self.blit_of(cx, cy) by {
                        lemma_cell_in_grid(cx - left, cy - top, width, y - top);
                        assert(before[(cy - top) * width + (cx - left)] == self.blit_of(cx, cy));
                    }
                    assert forall|cx: int| left <= cx < x + 1 implies blits[(y - top) * width + (cx
                        - left)] == #[trigger] self.blit_of(cx, y as int) by {
                        if cx < x {
                            assert(before[(y - top) * width + (cx - left)] == self.blit_of(
                                cx,
                                y as int,
                            ));
                        }
                    }
                }
                x += 1;
            }
            proof {
                assert((y - top) * width + width == (y + 1 - top) * width) by (nonlinear_arith);
            }
            y += 1;
        }
        proof {
            let wanted = self.visible(bounds);
            let height = bot - top;
            assert(blits.len() == width * height) by (nonlinear_arith)
                requires
                    blits.len() == (bot - top) * width,
                    height == bot - top,
            ;
            assert forall|k: int| 0 <= k < blits.len() implies blits@[k] == wanted[k] by {
                vstd::arithmetic::div_mod::lemma_fundamental_div_mod(k, width);
                vstd::arithmetic::div_mod::lemma_mod_pos_bound(k, width);
                let x = k % width;
                let y = k / width;
                assert(0 <= y < height) by (nonlinear_arith)
                    requires
                        k == width * y + x,
                        0 <= x < width,
                        0 <= k < width * height,
                ;
                assert(y * width + x == k) by (nonlinear_arith)
                    requires
                        k == width * y + x,
                ;
                assert(blits@[(top + y - top) * width + (left + x - left)] == self.blit_of(
                    left + x,
                    top + y,
                ));
            }
            assert(blits@ =~= wanted);
        }
        blits
    }

    /// A map of `dims.0` columns and `dims.1` rows at `position`, whose
    /// cells show the tiles that `map` numbers, row by row.
    pub fn new(position: Vec2i, dims: (usize, usize), tileset: &Rc<Tileset>, map: Vec<usize>) -> (tilemap:
        Self)
        requires
            dims.0 * dims.1 == map.len(),
            forall|i: int| 0 <= i < map.len() ==> (#[trigger] map[i]) < tileset.tiles().len(),
        ensures
            tilemap.origin() == position,
            tilemap.extent() == dims,
            tilemap.tiles() == **tileset,
            tilemap.ids().len() == map.len(),
            forall|i: int| 0 <= i < map.len() ==> (#[trigger] tilemap.ids()[i]) == TileID(map[i]),
    {
        let mut ids: Vec<TileID> = Vec::new();
        let mut i: usize = 0;
        while i < map.len()
            invariant
                i <= map.len(),
                ids.len() == i,
                forall|k: int| 0 <= k < i ==> (#[trigger] ids[k]) == TileID(map[k]),
            decreases map.len() - i,
        {
            ids.push(TileID(map[i]));
            i += 1;
        }
        Self { position, dims, tileset: share(tileset), map: ids }
    }

    /// The number of the tile under the pixel `posn`.
    pub fn tile_id_at(&self, posn: Vec2i) -> (id: TileID)
        requires
            self.on_map(posn),
        ensures
            id == self.ids()[self.row_of(posn.1 as int) * self.extent().0 + self.column_of(
                posn.0 as int,
            )],
            id.0 < self.tiles().tiles().len(),
    {
        proof {
            use_type_invariant(self);
        }
        let Vec2i(x, y) = posn;
        // Into map coordinates
        let x: i32 = (x - self.position.0) / TILE_SZ as i32;
        let y: i32 = (y - self.position.1) / TILE_SZ as i32;
        let column: usize = x as usize;
        let row: usize = y as usize;
        let cells: usize = self.map.len();
        proof {
            lemma_cell_in_grid(column as int, row as int, self.dims.0 as int, self.dims.1 as int);
        }
        self.map[row * self.dims.0 + column]
    }

    /// Columns and rows of the grid.
    pub fn size(&self) -> (dims: (usize, usize))
        ensures
            dims == self.extent(),
    {
        self.dims
    }

    /// The tile under the pixel `posn`.
    pub fn tile_at(&self, posn: Vec2i) -> (tile: Tile)
        requires
            self.on_map(posn),
        ensures
            tile == self.tiles().tiles()[self.ids()[self.row_of(posn.1 as int) * self.extent().0
                + self.column_of(posn.0 as int)].0 as int],
    {
        self.tileset.tile(self.tile_id_at(posn))
    }

    /// Whether any part of the map lies on a screen at `screen_pos` of
    /// size `screen_dim`.
    pub fn is_visible(&self, screen_pos: Vec2i, screen_dim: Vec2i) -> (visible: bool)
        requires
            self.extent().0 * 16 <= i32::MAX,
            self.extent().1 * 16 <= i32::MAX,
        ensures
            visible == self.shows_on(screen_pos, screen_dim),
    {
        let dims_px: (i64, i64) = ((self.dims.0 * TILE_SZ) as i64, (self.dims.1 * TILE_SZ) as i64);
        !((self.position.0 as i64 + dims_px.0) < screen_pos.0 as i64 || self.position.0 as i64
            > screen_pos.0 as i64 + screen_dim.0 as i64 || (self.position.1 as i64 + dims_px.1)
            < screen_pos.1 as i64 || self.position.1 as i64 > screen_pos.1 as i64
            + screen_dim.1 as i64)
    }

    /// Where the top-left corner of the map is.
    pub fn position(&self) -> (position: Vec2i)
        ensures
            position == self.origin(),
    {
        self.position
    }

    /// The tile set of the map.
    pub fn tileset(&self) -> (tileset: &Rc<Tileset>)
        ensures
            **tileset == self.tiles(),
    {
        &self.tileset
    }
}

/// `v` held between zero and `hi`.
fn clamp(v: i32, hi: i32) -> (held: i32)
    requires
        0 <= hi,
    ensures
        held == clamped(v as int, 0, hi as int),
{
    if v < 0 {
        0
    } else if v > hi {
        hi
    } else {
        v
    }
}

} // verus!
