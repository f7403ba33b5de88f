//! The tile map renderer.
//!
//! Painting has two stages. Culling turns a camera, a grid and a tileset
//! into the list of tiles to draw, in drawing order. Blitting copies each of
//! them from the tileset into the target, clipped to both bitmaps.
//!
//! A tile index counts the sprites of the tileset row by row. A cell is drawn
//! when its tile is not `NO_TILE` and names a sprite that lies within the
//! tileset as a whole; every other cell is transparent.

use crate::camera::{Camera, CameraView};
use crate::arith::{
    ceil_div, div_ceil, div_floor, floor_div, lemma_ceil_div_bounds, lemma_floor_div_bounds,
    lemma_floor_div_in_range, lemma_floor_div_unique,
};
use crate::geometry::Rectangle;
use crate::image::{blank, lemma_offset_in_range, Image, Pixels, RenderTarget};
use crate::map::{TileMap, TileMapView, NO_TILE};
use vstd::prelude::*;

verus! {

/// The range of grid cells that a camera looks at: the columns from
/// `start_column` up to `end_column`, the rows from `start_row` up to
/// `end_row`, each without its end.
#[derive(Clone, Copy, Debug, PartialEq, Eq, Structural)]
pub struct TileWindow {
    pub start_column: i64,
    pub end_column: i64,
    pub start_row: i64,
    pub end_row: i64,
}

/// One tile to draw: the square of `size` pixels at `(src_x, src_y)` of the
/// tileset goes to `(dst_x, dst_y)` of the target. `layer`, `row` and
/// `column` name the cell that the tile belongs to.
#[derive(Clone, Copy, Debug, PartialEq, Eq, Structural)]
pub struct Blit {
    pub layer: usize,
    pub row: usize,
    pub column: usize,
    pub src_x: u32,
    pub src_y: u32,
    pub dst_x: i64,
    pub dst_y: i64,
    pub size: u32,
}

/// What a paint call looks at: where to draw, the camera, the grid and the
/// tileset.
pub struct Scene {
    pub bounds: Rectangle,
    pub camera: CameraView,
    pub map: TileMapView,
    pub sheet: Pixels,
}

impl Scene {
    /// The edge length of a tile in pixels.
    pub open spec fn tile_size(self) -> int {
        self.map.tile_size as int
    }

    /// The column that holds the left edge of the camera.
    pub open spec fn start_column(self) -> int {
        floor_div(self.camera.x, self.tile_size())
    }

    /// The column behind the columns that the camera's width spans.
    pub open spec fn end_column(self) -> int {
        self.start_column() + ceil_div(self.camera.width, self.tile_size())
    }

    /// The row that holds the top edge of the camera.
    pub open spec fn start_row(self) -> int {
        floor_div(self.camera.y, self.tile_size())
    }

    /// The row behind the rows that the camera's height spans.
    pub open spec fn end_row(self) -> int {
        self.start_row() + ceil_div(self.camera.height, self.tile_size())
    }

    /// The distance from the left edge of the target to the left edge of
    /// the column `start_column`.
    pub open spec fn offset_x(self) -> int {
        self.bounds.x - self.camera.x + self.start_column() * self.tile_size()
    }

    /// The distance from the top edge of the target to the top edge of the
    /// row `start_row`.
    pub open spec fn offset_y(self) -> int {
        self.bounds.y - self.camera.y + self.start_row() * self.tile_size()
    }

    /// Whether the camera and the tileset have positions and extents that
    /// a camera and a bitmap can hold.
    pub open spec fn in_range(self) -> bool {
        &&& self.camera.in_range()
        &&& self.sheet.in_range()
    }

    /// Whether there is anything to paint with: tiles and bounds have an
    /// extent.
    pub open spec fn paintable(self) -> bool {
        self.tile_size() > 0 && self.bounds.width > 0 && self.bounds.height > 0
    }

    /// The first row that is looked at.
    pub open spec fn first_row(self) -> int {
        within_grid(self.start_row(), self.map.row_count)
    }

    /// The row behind the last row that is looked at: one row more than the
    /// camera's window spans, as far as the grid reaches.
    pub open spec fn last_row(self) -> int {
        within_grid(self.end_row() + 1, self.map.row_count)
    }

    /// The first column that is looked at.
    pub open spec fn first_column(self) -> int {
        within_grid(self.start_column(), self.map.column_count)
    }

    /// The column behind the last column that is looked at: one column more
    /// than the camera's window spans, as far as the grid reaches.
    pub open spec fn last_column(self) -> int {
        within_grid(self.end_column() + 1, self.map.column_count)
    }

    /// Whether the cell in `row` and `column` is looked at.
    pub open spec fn visible(self, row: int, column: int) -> bool {
        &&& self.first_row() <= row < self.last_row()
        &&& self.first_column() <= column < self.last_column()
    }

    /// The number of sprites in a row of the tileset.
    pub open spec fn sheet_columns(self) -> int {
        self.sheet.width as int / self.tile_size()
    }

    /// The number of rows of sprites in the tileset.
    pub open spec fn sheet_rows(self) -> int {
        self.sheet.height as int / self.tile_size()
    }

    /// Whether `tile` names a sprite of the tileset.
    pub open spec fn in_sheet(self, tile: int) -> bool {
        0 <= tile < self.sheet_columns() * self.sheet_rows()
    }

    /// Whether the cell of `layer` in `row` and `column` is drawn.
    pub open spec fn drawn(self, layer: int, row: int, column: int) -> bool {
        &&& self.paintable()
        &&& 0 <= layer < self.map.layer_count
        &&& self.visible(row, column)
        &&& self.map.tile_at(layer, row, column) != NO_TILE
        &&& self.in_sheet(self.map.tile_at(layer, row, column) as int)
    }

    /// The left edge in the tileset of the sprite that `tile` names.
    pub open spec fn src_x(self, tile: int) -> int {
        (tile % self.sheet_columns()) * self.tile_size()
    }

    /// The top edge in the tileset of the sprite that `tile` names.
    pub open spec fn src_y(self, tile: int) -> int {
        (tile / self.sheet_columns()) * self.tile_size()
    }

    /// The left edge of `column` in the target.
    pub open spec fn dst_x(self, column: int) -> int {
        (column - self.start_column()) * self.tile_size() + self.offset_x()
    }

    /// The top edge of `row` in the target.
    pub open spec fn dst_y(self, row: int) -> int {
        (row - self.start_row()) * self.tile_size() + self.offset_y()
    }

    /// The world position of the column `x` of the target.
    pub open spec fn world_x(self, x: int) -> int {
        x - self.bounds.x + self.camera.x
    }

    /// The world position of the row `y` of the target.
    pub open spec fn world_y(self, y: int) -> int {
        y - self.bounds.y + self.camera.y
    }

    /// The grid column that shows in the column `x` of the target.
    pub open spec fn column_under(self, x: int) -> int {
        floor_div(self.world_x(x), self.tile_size())
    }

    /// The grid row that shows in the row `y` of the target.
    pub open spec fn row_under(self, y: int) -> int {
        floor_div(self.world_y(y), self.tile_size())
    }

    /// The topmost layer below `below` whose cell in `row` and `column` is
    /// drawn, or `-1` where there is none.
    pub open spec fn top_layer(self, row: int, column: int, below: int) -> int
        decreases below,
    {
        if below <= 0 {
            -1
        } else if self.drawn(below - 1, row, column) {
            below - 1
        } else {
            self.top_layer(row, column, below - 1)
        }
    }

    /// What the scene shows in the pixel `(x, y)` of the target: the pixel
    /// of the topmost tile that is drawn there, or nothing.
    pub open spec fn shown(self, x: int, y: int) -> Option<u32> {
        let row = self.row_under(y);
        let column = self.column_under(x);
        let layer = self.top_layer(row, column, self.map.layer_count as int);
        if layer < 0 {
            None
        } else {
            let tile = self.map.tile_at(layer, row, column) as int;
            Some(
                self.sheet.pixel(
                    self.src_x(tile) + self.world_x(x) % self.tile_size(),
                    self.src_y(tile) + self.world_y(y) % self.tile_size(),
                ),
            )
        }
    }

    /// The target after the scene was painted into it: each pixel has the
    /// value that the scene shows there, or its former value where the
    /// scene shows nothing.
    pub open spec fn composed(self, target: Pixels) -> Pixels {
        Pixels {
            data: Seq::new(
                target.data.len(),
                |i: int|
                    match self.shown(i % (target.width as int), i / (target.width as int)) {
                        Some(value) => value,
                        None => target.data[i],
                    },
            ),
            ..target
        }
    }

    /// Whether `blit` draws the tile of a drawn cell at that cell's place.
    pub open spec fn draws_cell(self, blit: Blit) -> bool {
        let tile = self.map.tile_at(blit.layer as int, blit.row as int, blit.column as int) as int;
        &&& self.drawn(blit.layer as int, blit.row as int, blit.column as int)
        &&& blit.size == self.tile_size()
        &&& blit.src_x == self.src_x(tile)
        &&& blit.src_y == self.src_y(tile)
        &&& blit.dst_x == self.dst_x(blit.column as int)
        &&& blit.dst_y == self.dst_y(blit.row as int)
    }

    /// Whether `blits` is the drawing list of the scene: one blit for each
    /// drawn cell, in drawing order.
    pub open spec fn is_draw_list(self, blits: Seq<Blit>) -> bool {
        &&& forall|i: int| 0 <= i < blits.len() ==> self.draws_cell(#[trigger] blits[i])
        &&& forall|i: int, j: int|
            0 <= i < j < blits.len() ==> drawn_before(#[trigger] blits[i], #[trigger] blits[j])
        &&& forall|layer: int, row: int, column: int| #[trigger]
            self.drawn(layer, row, column) ==> lists_cell(blits, layer, row, column)
    }
}

/// The cell index `cell` held to a grid of `count` cells.
pub open spec fn within_grid(cell: int, count: nat) -> int {
    if cell < 0 {
        0
    } else if cell > count {
        count as int
    } else {
        cell
    }
}

/// The drawing order of cells: layer by layer from the bottom, within a
/// layer row by row from the top, within a row from left to right.
pub open spec fn cell_before(
    layer: int,
    row: int,
    column: int,
    other_layer: int,
    other_row: int,
    other_column: int,
) -> bool {
    layer < other_layer || (layer == other_layer && (row < other_row || (row == other_row && column
        < other_column)))
}

/// Whether the cell of `first` comes before the cell of `second` in drawing
/// order.
pub open spec fn drawn_before(first: Blit, second: Blit) -> bool {
    cell_before(
        first.layer as int,
        first.row as int,
        first.column as int,
        second.layer as int,
        second.row as int,
        second.column as int,
    )
}

/// Whether `blits` holds a blit for the cell of `layer` in `row` and
/// `column`.
pub open spec fn lists_cell(blits: Seq<Blit>, layer: int, row: int, column: int) -> bool {
    exists|i: int|
        0 <= i < blits.len() && (#[trigger] blits[i]).layer == layer && blits[i].row == row
            && blits[i].column == column
}

/// Whether `blit` reaches the pixel `(x, y)` of a target: the pixel lies in
/// the square that the blit draws to, and the tileset has a pixel for it.
pub open spec fn blit_covers(blit: Blit, sheet: Pixels, x: int, y: int) -> bool {
    &&& blit.dst_x <= x < blit.dst_x + blit.size
    &&& blit.dst_y <= y < blit.dst_y + blit.size
    &&& sheet.contains(blit.src_x + (x - blit.dst_x), blit.src_y + (y - blit.dst_y))
}

/// The value that `blit` gives to the pixel `(x, y)` of a target.
pub open spec fn blit_color(blit: Blit, sheet: Pixels, x: int, y: int) -> u32
    recommends
        blit_covers(blit, sheet, x, y),
{
    sheet.pixel(blit.src_x + (x - blit.dst_x), blit.src_y + (y - blit.dst_y))
}

/// The target after `blit` was drawn: the pixels that the blit reaches
/// have their values from the tileset, all others are as before.
pub open spec fn blitted(target: Pixels, sheet: Pixels, blit: Blit) -> Pixels {
    Pixels {
        data: Seq::new(
            target.data.len(),
            |i: int|
                {
                    let x = i % (target.width as int);
                    let y = i / (target.width as int);
                    if blit_covers(blit, sheet, x, y) {
                        blit_color(blit, sheet, x, y)
                    } else {
                        target.data[i]
                    }
                },
        ),
        ..target
    }
}

/// The target after `blits` were drawn one after the other.
pub open spec fn painted(target: Pixels, sheet: Pixels, blits: Seq<Blit>) -> Pixels
    decreases blits.len(),
{
    if blits.len() == 0 {
        target
    } else {
        blitted(painted(target, sheet, blits.drop_last()), sheet, blits.last())
    }
}

/// The position in `blits` of the last blit that reaches the pixel
/// `(x, y)`, or `-1` where none does.
pub open spec fn last_covering(blits: Seq<Blit>, sheet: Pixels, x: int, y: int) -> int
    decreases blits.len(),
{
    if blits.len() == 0 {
        -1
    } else if blit_covers(blits.last(), sheet, x, y) {
        blits.len() - 1
    } else {
        last_covering(blits.drop_last(), sheet, x, y)
    }
}

/// `last_covering` names a blit that reaches the pixel, and no blit behind
/// it does.
pub proof fn lemma_last_covering(blits: Seq<Blit>, sheet: Pixels, x: int, y: int)
    ensures
        -1 <= last_covering(blits, sheet, x, y) < blits.len(),
        last_covering(blits, sheet, x, y) >= 0 ==> blit_covers(
            blits[last_covering(blits, sheet, x, y)],
            sheet,
            x,
            y,
        ),
        forall|k: int|
            last_covering(blits, sheet, x, y) < k < blits.len() ==> !blit_covers(
                #[trigger] blits[k],
                sheet,
                x,
                y,
            ),
    decreases blits.len(),
{
    if blits.len() > 0 && !blit_covers(blits.last(), sheet, x, y) {
        lemma_last_covering(blits.drop_last(), sheet, x, y);
        assert forall|k: int|
            last_covering(blits, sheet, x, y) < k < blits.len() implies !blit_covers(
            #[trigger] blits[k],
            sheet,
            x,
            y,
        ) by {
            if k < blits.len() - 1 {
                assert(blits[k] == blits.drop_last()[k]);
            }
        }
        let j = last_covering(blits, sheet, x, y);
        if j >= 0 {
            assert(blits[j] == blits.drop_last()[j]);
        }
    }
}

/// Painting keeps the extent of the target, and leaves in each pixel the
/// value of the last blit that reaches it.
pub proof fn lemma_painted_pixel(target: Pixels, sheet: Pixels, blits: Seq<Blit>, i: int)
    requires
        0 <= i < target.data.len(),
    ensures
        painted(target, sheet, blits).width == target.width,
        painted(target, sheet, blits).height == target.height,
        painted(target, sheet, blits).data.len() == target.data.len(),
        painted(target, sheet, blits).data[i] == ({
            let x = i % (target.width as int);
            let y = i / (target.width as int);
            let last = last_covering(blits, sheet, x, y);
            if last >= 0 {
                blit_color(blits[last], sheet, x, y)
            } else {
                target.data[i]
            }
        }),
    decreases blits.len(),
{
    if blits.len() > 0 {
        lemma_painted_pixel(target, sheet, blits.drop_last(), i);
        let x = i % (target.width as int);
        let y = i / (target.width as int);
        let last = last_covering(blits, sheet, x, y);
        if !blit_covers(blits.last(), sheet, x, y) && last >= 0 {
            lemma_last_covering(blits.drop_last(), sheet, x, y);
            assert(blits[last] == blits.drop_last()[last]);
        }
    }
}

/// The target while `blit` is being drawn row by row: the pixels that the
/// blit reaches above `row`, and left of `column` in `row`, are done.
spec fn blitted_until(target: Pixels, sheet: Pixels, blit: Blit, row: int, column: int) -> Pixels {
    Pixels {
        data: Seq::new(
            target.data.len(),
            |i: int|
                {
                    let x = i % (target.width as int);
                    let y = i / (target.width as int);
                    if blit_covers(blit, sheet, x, y) && (y < row || (y == row && x < column)) {
                        blit_color(blit, sheet, x, y)
                    } else {
                        target.data[i]
                    }
                },
        ),
        ..target
    }
}

/// Each position in the data of a well-formed grid belongs to one pixel.
proof fn lemma_pixel_of_offset(pixels: Pixels, i: int)
    requires
        pixels.wf(),
        0 <= i < pixels.data.len(),
    ensures
        pixels.contains(i % (pixels.width as int), i / (pixels.width as int)),
        pixels.offset(i % (pixels.width as int), i / (pixels.width as int)) == i,
{
    let w = pixels.width as int;
    let h = pixels.height as int;
    assert(w > 0) by (nonlinear_arith)
        requires
            0 <= i < w * h,
            w >= 0,
            h >= 0,
    ;
    lemma_floor_div_bounds(i, w);
    vstd::arithmetic::div_mod::lemma_fundamental_div_mod(i, w);
    vstd::arithmetic::div_mod::lemma_mod_bound(i, w);
    assert(w * (i / w) == (i / w) * w) by (nonlinear_arith);
    assert(i / w < h) by (nonlinear_arith)
        requires
            (i / w) * w <= i,
            i < w * h,
            w > 0,
    ;
    assert(0 <= i / w) by (nonlinear_arith)
        requires
            i < (i / w + 1) * w,
            0 <= i,
            w > 0,
    ;
}

/// The scene that a paint call with these arguments looks at.
pub open spec fn scene_of(
    bounds: Rectangle,
    camera: CameraView,
    map: TileMapView,
    sheet: Pixels,
) -> Scene {
    Scene { bounds, camera, map, sheet }
}

/// The left edge of a column is the distance of the column from the
/// camera, measured from the left edge of the bounds. For a column that is
/// looked at it lies less than a tile left of the bounds and no more than a
/// tile right of the camera's width.
pub proof fn lemma_dst_x(scene: Scene, column: int)
    requires
        scene.tile_size() > 0,
    ensures
        scene.dst_x(column) == scene.bounds.x + column * scene.tile_size() - scene.camera.x,
        scene.start_column() <= column <= scene.end_column() ==> -scene.tile_size()
            < scene.dst_x(column) - scene.bounds.x < scene.camera.width + scene.tile_size(),
{
    let ts = scene.tile_size();
    let start = scene.start_column();
    let span = ceil_div(scene.camera.width, ts);
    assert((column - start) * ts + start * ts == column * ts) by (nonlinear_arith);
    lemma_floor_div_bounds(scene.camera.x, ts);
    lemma_ceil_div_bounds(scene.camera.width, ts);
    if start <= column <= start + span {
        assert(start * ts <= column * ts <= (start + span) * ts) by (nonlinear_arith)
            requires
                start <= column <= start + span,
                ts > 0,
        ;
        assert((start + span) * ts == start * ts + (span - 1) * ts + ts) by (nonlinear_arith);
        assert((start + 1) * ts == start * ts + ts) by (nonlinear_arith);
    }
}

/// The top edge of a row is the distance of the row from the camera,
/// measured from the top edge of the bounds. For a row that is looked at it
/// lies less than a tile above the bounds and no more than a tile below the
/// camera's height.
pub proof fn lemma_dst_y(scene: Scene, row: int)
    requires
        scene.tile_size() > 0,
    ensures
        scene.dst_y(row) == scene.bounds.y + row * scene.tile_size() - scene.camera.y,
        scene.start_row() <= row <= scene.end_row() ==> -scene.tile_size() < scene.dst_y(row)
            - scene.bounds.y < scene.camera.height + scene.tile_size(),
{
    let ts = scene.tile_size();
    let start = scene.start_row();
    let span = ceil_div(scene.camera.height, ts);
    assert((row - start) * ts + start * ts == row * ts) by (nonlinear_arith);
    lemma_floor_div_bounds(scene.camera.y, ts);
    lemma_ceil_div_bounds(scene.camera.height, ts);
    if start <= row <= start + span {
        assert(start * ts <= row * ts <= (start + span) * ts) by (nonlinear_arith)
            requires
                start <= row <= start + span,
                ts > 0,
        ;
        assert((start + span) * ts == start * ts + (span - 1) * ts + ts) by (nonlinear_arith);
        assert((start + 1) * ts == start * ts + ts) by (nonlinear_arith);
    }
}

/// The sprite that a tile of the tileset names lies within the tileset.
pub proof fn lemma_sprite_in_sheet(scene: Scene, tile: int)
    requires
        scene.tile_size() > 0,
        scene.in_sheet(tile),
    ensures
        scene.sheet_columns() > 0,
        scene.sheet_rows() > 0,
        0 <= scene.src_x(tile),
        scene.src_x(tile) + scene.tile_size() <= scene.sheet.width,
        0 <= scene.src_y(tile),
        scene.src_y(tile) + scene.tile_size() <= scene.sheet.height,
{
    let ts = scene.tile_size();
    let columns = scene.sheet_columns();
    let rows = scene.sheet_rows();
    lemma_floor_div_bounds(scene.sheet.width as int, ts);
    lemma_floor_div_bounds(scene.sheet.height as int, ts);
    assert(columns > 0 && rows > 0) by (nonlinear_arith)
        requires
            0 <= tile < columns * rows,
            columns >= 0,
            rows >= 0,
    ;
    lemma_floor_div_bounds(tile, columns);
    let c = tile % columns;
    let r = tile / columns;
    vstd::arithmetic::div_mod::lemma_mod_bound(tile, columns);
    assert(r < rows) by (nonlinear_arith)
        requires
            r * columns <= tile,
            tile < columns * rows,
            columns > 0,
    ;
    assert(0 <= r) by (nonlinear_arith)
        requires
            tile < (r + 1) * columns,
            0 <= tile,
            columns > 0,
    ;
    assert(0 <= c * ts && c * ts + ts <= columns * ts) by (nonlinear_arith)
        requires
            0 <= c < columns,
            ts > 0,
    ;
    assert(0 <= r * ts && r * ts + ts <= rows * ts) by (nonlinear_arith)
        requires
            0 <= r < rows,
            ts > 0,
    ;
}

/// A blit of the drawing list reaches exactly the pixels that show its
/// cell, and gives each of them the pixel of its tile's sprite that lies
/// as far from the sprite's corner as the pixel lies from the cell's
/// corner.
pub proof fn lemma_blit_covers_cell(scene: Scene, blit: Blit, x: int, y: int)
    requires
        scene.draws_cell(blit),
    ensures
        blit_covers(blit, scene.sheet, x, y) <==> (scene.column_under(x) == blit.column
            && scene.row_under(y) == blit.row),
        blit_covers(blit, scene.sheet, x, y) ==> blit_color(blit, scene.sheet, x, y)
            == scene.sheet.pixel(
            blit.src_x + scene.world_x(x) % scene.tile_size(),
            blit.src_y + scene.world_y(y) % scene.tile_size(),
        ),
{
    let ts = scene.tile_size();
    let column = blit.column as int;
    let row = blit.row as int;
    let tile = scene.map.tile_at(blit.layer as int, row, column) as int;
    let wx = scene.world_x(x);
    let wy = scene.world_y(y);
    lemma_dst_x(scene, column);
    lemma_dst_y(scene, row);
    lemma_sprite_in_sheet(scene, tile);
    lemma_floor_div_bounds(wx, ts);
    lemma_floor_div_bounds(wy, ts);
    vstd::arithmetic::div_mod::lemma_fundamental_div_mod(wx, ts);
    vstd::arithmetic::div_mod::lemma_fundamental_div_mod(wy, ts);
    assert(ts * (wx / ts) == (wx / ts) * ts) by (nonlinear_arith);
    assert(ts * (wy / ts) == (wy / ts) * ts) by (nonlinear_arith);
    assert((column + 1) * ts == column * ts + ts) by (nonlinear_arith);
    assert((row + 1) * ts == row * ts + ts) by (nonlinear_arith);
    if column * ts <= wx < (column + 1) * ts {
        lemma_floor_div_unique(wx, ts, column);
    }
    if row * ts <= wy < (row + 1) * ts {
        lemma_floor_div_unique(wy, ts, row);
    }
}

/// `top_layer` names a layer whose cell is drawn, and no cell above it, up
/// to `below`, is drawn.
pub proof fn lemma_top_layer(scene: Scene, row: int, column: int, below: int)
    ensures
        -1 <= scene.top_layer(row, column, below),
        scene.top_layer(row, column, below) < below || below <= 0,
        scene.top_layer(row, column, below) >= 0 ==> scene.drawn(
            scene.top_layer(row, column, below),
            row,
            column,
        ),
        forall|layer: int|
            scene.top_layer(row, column, below) < layer < below ==> !#[trigger] scene.drawn(
                layer,
                row,
                column,
            ),
    decreases below,
{
    if below > 0 && !scene.drawn(below - 1, row, column) {
        lemma_top_layer(scene, row, column, below - 1);
    }
}

/// Drawing the blits of the drawing list one after the other paints the
/// scene: each pixel of the target ends up with what the scene shows there.
pub proof fn lemma_painted_is_composed(scene: Scene, target: Pixels, blits: Seq<Blit>)
    requires
        scene.is_draw_list(blits),
    ensures
        painted(target, scene.sheet, blits) == scene.composed(target),
{
    let sheet = scene.sheet;
    let result = painted(target, sheet, blits);
    if target.data.len() == 0 {
        lemma_painted_shape(target, sheet, blits);
        assert(result.data =~= scene.composed(target).data);
    } else {
        assert forall|i: int| 0 <= i < target.data.len() implies result.data[i] == scene.composed(
            target,
        ).data[i] by {
            lemma_painted_pixel(target, sheet, blits, i);
            let x = i % (target.width as int);
            let y = i / (target.width as int);
            let row = scene.row_under(y);
            let column = scene.column_under(x);
            let last = last_covering(blits, sheet, x, y);
            let top = scene.top_layer(row, column, scene.map.layer_count as int);
            lemma_last_covering(blits, sheet, x, y);
            lemma_top_layer(scene, row, column, scene.map.layer_count as int);
            if top >= 0 {
                assert(scene.drawn(top, row, column));
                assert(lists_cell(blits, top, row, column));
                let k = choose|k: int|
                    0 <= k < blits.len() && (#[trigger] blits[k]).layer == top && blits[k].row
                        == row && blits[k].column == column;
                lemma_blit_covers_cell(scene, blits[k], x, y);
                assert(last >= k);
                lemma_blit_covers_cell(scene, blits[last], x, y);
                if last > k {
                    assert(drawn_before(blits[k], blits[last]));
                    assert(scene.draws_cell(blits[last]));
                    assert(false);
                }
            } else {
                if last >= 0 {
                    lemma_blit_covers_cell(scene, blits[last], x, y);
                    assert(scene.draws_cell(blits[last]));
                    assert(scene.drawn(blits[last].layer as int, row, column));
                    assert(false);
                }
            }
        }
        lemma_painted_pixel(target, sheet, blits, 0);
        assert(result.data =~= scene.composed(target).data);
    }
}

/// Painting keeps the extent of the target.
pub proof fn lemma_painted_shape(target: Pixels, sheet: Pixels, blits: Seq<Blit>)
    ensures
        painted(target, sheet, blits).width == target.width,
        painted(target, sheet, blits).height == target.height,
        painted(target, sheet, blits).data.len() == target.data.len(),
    decreases blits.len(),
{
    if blits.len() > 0 {
        lemma_painted_shape(target, sheet, blits.drop_last());
    }
}

/// Two drawing lists of a scene agree in their first `count` blits.
proof fn lemma_draw_list_prefix(scene: Scene, first: Seq<Blit>, second: Seq<Blit>, count: int)
    requires
        scene.is_draw_list(first),
        scene.is_draw_list(second),
        0 <= count <= first.len(),
    ensures
        count <= second.len(),
        forall|i: int| 0 <= i < count ==> first[i] == second[i],
    decreases count,
{
    if count > 0 {
        lemma_draw_list_prefix(scene, first, second, count - 1);
        let k = count - 1;
        let blit = first[k];
        assert(scene.draws_cell(blit));
        assert(lists_cell(second, blit.layer as int, blit.row as int, blit.column as int));
        let j = choose|j: int|
            0 <= j < second.len() && (#[trigger] second[j]).layer == blit.layer && second[j].row
                == blit.row && second[j].column == blit.column;
        if j < k {
            assert(first[j] == second[j]);
            assert(drawn_before(first[j], first[k]));
            assert(false);
        }
        if j > k {
            let other = second[k];
            assert(scene.draws_cell(other));
            assert(drawn_before(second[k], second[j]));
            assert(lists_cell(first, other.layer as int, other.row as int, other.column as int));
            let i = choose|i: int|
                0 <= i < first.len() && (#[trigger] first[i]).layer == other.layer && first[i].row
                    == other.row && first[i].column == other.column;
            if i < k {
                assert(first[i] == second[i]);
                assert(drawn_before(second[i], second[k]));
            } else if i > k {
                assert(drawn_before(first[k], first[i]));
            }
            assert(false);
        }
        assert(scene.draws_cell(second[k]));
        assert(first[k] == second[k]);
    }
}

/// A scene has one drawing list: two lists that both are drawing lists of
/// the scene are equal.
pub proof fn lemma_draw_list_unique(scene: Scene, first: Seq<Blit>, second: Seq<Blit>)
    requires
        scene.is_draw_list(first),
        scene.is_draw_list(second),
    ensures
        first == second,
{
    lemma_draw_list_prefix(scene, first, second, first.len() as int);
    lemma_draw_list_prefix(scene, second, first, second.len() as int);
    assert(first =~= second);
}

/// A cell without a tile has no blit in the drawing list.
pub proof fn lemma_empty_cell_not_listed(
    scene: Scene,
    blits: Seq<Blit>,
    layer: int,
    row: int,
    column: int,
)
    requires
        scene.is_draw_list(blits),
        scene.map.tile_at(layer, row, column) == NO_TILE,
    ensures
        !lists_cell(blits, layer, row, column),
{
    if lists_cell(blits, layer, row, column) {
        let i = choose|i: int|
            0 <= i < blits.len() && (#[trigger] blits[i]).layer == layer && blits[i].row == row
                && blits[i].column == column;
        assert(scene.draws_cell(blits[i]));
    }
}

/// Where the cell under a pixel has no tile on any layer, the scene shows
/// nothing in that pixel.
pub proof fn lemma_empty_cell_shows_nothing(scene: Scene, x: int, y: int)
    requires
        forall|layer: int| #[trigger]
            scene.map.tile_at(layer, scene.row_under(y), scene.column_under(x)) == NO_TILE,
    ensures
        scene.shown(x, y).is_none(),
{
    lemma_top_layer(
        scene,
        scene.row_under(y),
        scene.column_under(x),
        scene.map.layer_count as int,
    );
}

/// Only cells of the grid are drawn, and only with sprites that lie within
/// the tileset.
pub proof fn lemma_drawn_in_grid(scene: Scene, layer: int, row: int, column: int)
    requires
        scene.drawn(layer, row, column),
    ensures
        0 <= layer < scene.map.layer_count,
        0 <= row < scene.map.row_count,
        0 <= column < scene.map.column_count,
        scene.start_row() <= row <= scene.end_row(),
        scene.start_column() <= column <= scene.end_column(),
        scene.sheet.contains(
            scene.src_x(scene.map.tile_at(layer, row, column) as int),
            scene.src_y(scene.map.tile_at(layer, row, column) as int),
        ),
        scene.sheet.contains(
            scene.src_x(scene.map.tile_at(layer, row, column) as int) + scene.tile_size() - 1,
            scene.src_y(scene.map.tile_at(layer, row, column) as int) + scene.tile_size() - 1,
        ),
{
    lemma_sprite_in_sheet(scene, scene.map.tile_at(layer, row, column) as int);
}

/// Painting a scene keeps the extent of the target and every pixel in
/// which the scene shows nothing.
pub proof fn lemma_composed_frame(scene: Scene, target: Pixels, i: int)
    requires
        0 <= i < target.data.len(),
    ensures
        scene.composed(target).width == target.width,
        scene.composed(target).height == target.height,
        scene.composed(target).data.len() == target.data.len(),
        scene.shown(i % (target.width as int), i / (target.width as int)).is_none()
            ==> scene.composed(target).data[i] == target.data[i],
        !scene.paintable() ==> scene.composed(target).data[i] == target.data[i],
{
    if !scene.paintable() {
        lemma_top_layer(
            scene,
            scene.row_under(i / (target.width as int)),
            scene.column_under(i % (target.width as int)),
            scene.map.layer_count as int,
        );
    }
}

/// A blit keeps the extent of the target and every pixel that it does not
/// reach.
pub proof fn lemma_blitted_frame(target: Pixels, sheet: Pixels, blit: Blit, i: int)
    requires
        0 <= i < target.data.len(),
    ensures
        blitted(target, sheet, blit).width == target.width,
        blitted(target, sheet, blit).height == target.height,
        blitted(target, sheet, blit).data.len() == target.data.len(),
        !blit_covers(blit, sheet, i % (target.width as int), i / (target.width as int))
            ==> blitted(target, sheet, blit).data[i] == target.data[i],
{
}

/// Paints tile maps.
#[derive(Clone, Copy, Debug, Default, PartialEq, Eq)]
pub struct TileMapRenderObject;

impl TileMapRenderObject {
    /// The range of cells that `camera` looks at when tiles have
    /// `tile_size` pixels, or `None` for tiles without extent.
    pub fn visible_window(&self, camera: &Camera, tile_size: u32) -> (window: Option<TileWindow>)
        ensures
            window.is_some() == (tile_size > 0),
            window matches Some(w) ==> {
                &&& w.start_column == floor_div(camera@.x, tile_size as int)
                &&& w.end_column == w.start_column + ceil_div(camera@.width, tile_size as int)
                &&& w.start_row == floor_div(camera@.y, tile_size as int)
                &&& w.end_row == w.start_row + ceil_div(camera@.height, tile_size as int)
            },
    {
        if tile_size == 0 {
            return None;
        }
        let ts: i64 = tile_size as i64;
        let start_column = div_floor(camera.x() as i64, ts);
        let start_row = div_floor(camera.y() as i64, ts);
        proof {
            lemma_floor_div_in_range(camera@.x, ts as int);
            lemma_floor_div_in_range(camera@.y, ts as int);
        }
        let end_column = start_column + div_ceil(camera.width() as i64, ts);
        let end_row = start_row + div_ceil(camera.height() as i64, ts);
        Some(TileWindow { start_column, end_column, start_row, end_row })
    }

    /// Draws `blit`: copies a square of `image` into `render_target`. What
    /// lies outside of either bitmap is left out.
    pub fn draw_render_target(&self, render_target: &mut RenderTarget, image: &Image, blit: &Blit)
        ensures
            final(render_target)@ == blitted(old(render_target)@, image@, *blit),
    {
        let width: u32 = render_target.width();
        let height: u32 = render_target.height();
        let sheet_width: u32 = image.width();
        let sheet_height: u32 = image.height();
        let ghost before = render_target@;
        let ghost sheet = image@;
        proof {
            use_type_invariant(&*render_target);
            use_type_invariant(image);
        }
        let dst_x: i128 = blit.dst_x as i128;
        let dst_y: i128 = blit.dst_y as i128;
        let size: i128 = blit.size as i128;
        // The columns and rows of the target that the blit reaches.
        let x_start: u32 = if dst_x < 0 {
            0
        } else if dst_x > width as i128 {
            width
        } else {
            dst_x as u32
        };
        let x_end: u32 = clip_end(
            dst_x + size,
            width as i128,
            dst_x + sheet_width as i128 - blit.src_x as i128,
        );
        let y_start: u32 = if dst_y < 0 {
            0
        } else if dst_y > height as i128 {
            height
        } else {
            dst_y as u32
        };
        let y_end: u32 = clip_end(
            dst_y + size,
            height as i128,
            dst_y + sheet_height as i128 - blit.src_y as i128,
        );
        proof {
            assert forall|x: int, y: int| before.contains(x, y) implies (blit_covers(
                *blit,
                sheet,
                x,
                y,
            ) <==> x_start <= x < x_end && y_start <= y < y_end) by {}
            assert(render_target@.data =~= blitted_until(
                before,
                sheet,
                *blit,
                y_start as int,
                0,
            ).data) by {
                assert forall|i: int| 0 <= i < before.data.len() implies before.data[i]
                    == blitted_until(before, sheet, *blit, y_start as int, 0).data[i] by {
                    lemma_pixel_of_offset(before, i);
                }
            }
        }
        let mut y: u32 = y_start;
        while y < y_end
            invariant
                before.wf(),
                sheet.wf(),
                sheet == image@,
                width == before.width,
                height == before.height,
                sheet_width == sheet.width,
                sheet_height == sheet.height,
                dst_x == blit.dst_x,
                dst_y == blit.dst_y,
                size == blit.size,
                x_end <= width,
                y_end <= height,
                y_start <= y,
                forall|x: int, y: int|
                    before.contains(x, y) ==> (blit_covers(*blit, sheet, x, y) <==> x_start <= x
                        < x_end && y_start <= y < y_end),
                render_target@ == blitted_until(before, sheet, *blit, y as int, 0),
            decreases y_end - y,
        {
            let mut x: u32 = x_start;
            proof {
                assert(render_target@.data =~= blitted_until(
                    before,
                    sheet,
                    *blit,
                    y as int,
                    x_start as int,
                ).data) by {
                    assert forall|i: int| 0 <= i < before.data.len() implies blitted_until(
                        before,
                        sheet,
                        *blit,
                        y as int,
                        0,
                    ).data[i] == blitted_until(before, sheet, *blit, y as int, x_start as int).data[i] by {
                        lemma_pixel_of_offset(before, i);
                    }
                }
            }
            while x < x_end
                invariant
                    before.wf(),
                    sheet.wf(),
                    sheet == image@,
                    width == before.width,
                    height == before.height,
                    sheet_width == sheet.width,
                    sheet_height == sheet.height,
                    dst_x == blit.dst_x,
                    dst_y == blit.dst_y,
                    size == blit.size,
                    x_end <= width,
                    y_end <= height,
                    y_start <= y < y_end,
                    x_start <= x,
                    forall|x: int, y: int|
                        before.contains(x, y) ==> (blit_covers(*blit, sheet, x, y) <==> x_start
                            <= x < x_end && y_start <= y < y_end),
                    render_target@ == blitted_until(before, sheet, *blit, y as int, x as int),
                decreases x_end - x,
            {
                assert(before.contains(x as int, y as int));
                assert(blit_covers(*blit, sheet, x as int, y as int));
                let src_x: u32 = (blit.src_x as i128 + (x as i128 - dst_x)) as u32;
                let src_y: u32 = (blit.src_y as i128 + (y as i128 - dst_y)) as u32;
                let color = image.pixel(src_x, src_y);
                let ghost current = render_target@;
                render_target.set_pixel(x, y, color);
                proof {
                    lemma_offset_in_range(before, x as int, y as int);
                    assert(render_target@.data =~= blitted_until(
                        before,
                        sheet,
                        *blit,
                        y as int,
                        x + 1,
                    ).data) by {
                        assert forall|i: int| 0 <= i < before.data.len() implies (
                        #[trigger] render_target@.data[i]) == blitted_until(
                            before,
                            sheet,
                            *blit,
                            y as int,
                            x + 1,
                        ).data[i] by {
                            lemma_pixel_of_offset(before, i);
                        }
                    }
                }
                x += 1;
            }
            proof {
                assert(render_target@.data =~= blitted_until(before, sheet, *blit, y + 1, 0).data)
                    by {
                    assert forall|i: int| 0 <= i < before.data.len() implies blitted_until(
                        before,
                        sheet,
                        *blit,
                        y as int,
                        x as int,
                    ).data[i] == blitted_until(before, sheet, *blit, y + 1, 0).data[i] by {
                        lemma_pixel_of_offset(before, i);
                    }
                }
            }
            y += 1;
        }
        proof {
            assert(render_target@.data =~= blitted(before, sheet, *blit).data) by {
                assert forall|i: int| 0 <= i < before.data.len() implies blitted_until(
                    before,
                    sheet,
                    *blit,
                    y as int,
                    0,
                ).data[i] == blitted(before, sheet, *blit).data[i] by {
                    lemma_pixel_of_offset(before, i);
                }
            }
        }
    }

    /// The tiles to draw, in drawing order, when `camera` looks at `map`
    /// and the result goes to `bounds`. Nothing is drawn with bounds or
    /// tiles that have no extent.
    pub fn visible_tiles(
        &self,
        bounds: &Rectangle,
        camera: &Camera,
        map: &TileMap,
        image: &Image,
    ) -> (blits: Vec<Blit>)
        ensures
            scene_of(*bounds, camera@, map@, image@).is_draw_list(blits@),
    {
        let ghost scene = scene_of(*bounds, camera@, map@, image@);
        let mut blits: Vec<Blit> = Vec::new();
        let tile_size = map.tile_size;
        if bounds.width == 0 || bounds.height == 0 {
            return blits;
        }
        let window = match self.visible_window(camera, tile_size) {
            Some(window) => window,
            None => {
                return blits;
            },
        };
        let camera_x: i32 = camera.x();
        let camera_y: i32 = camera.y();
        let sheet_columns: u32 = image.width() / tile_size;
        let sheet_rows: u32 = image.height() / tile_size;
        proof {
            camera.lemma_view_in_range();
            image.lemma_view_in_range();
        }
        assert(sheet_columns * sheet_rows <= 0xffff_ffff * 0xffff_ffff) by (nonlinear_arith)
            requires
                sheet_columns <= 0xffff_ffff,
                sheet_rows <= 0xffff_ffff,
        ;
        let sprites: u64 = sheet_columns as u64 * sheet_rows as u64;
        let first_row = clamp_to_grid(window.start_row as i128, map.row_count);
        let last_row = clamp_to_grid(window.end_row as i128 + 1, map.row_count);
        let first_column = clamp_to_grid(window.start_column as i128, map.column_count);
        let last_column = clamp_to_grid(window.end_column as i128 + 1, map.column_count);
        // Layers that the grid counts but does not hold have no tiles.
        let layers: usize = if map.layer_count < map.layers.len() {
            map.layer_count
        } else {
            map.layers.len()
        };
        let mut layer: usize = 0;
        while layer < layers
            invariant
                scene == scene_of(*bounds, camera@, map@, image@),
                scene.paintable(),
                tile_size == scene.tile_size(),
                scene.in_range(),
                camera_x == scene.camera.x,
                camera_y == scene.camera.y,
                sheet_columns == scene.sheet_columns(),
                sheet_rows == scene.sheet_rows(),
                sprites == sheet_columns * sheet_rows,
                first_row == scene.first_row(),
                last_row == scene.last_row(),
                first_column == scene.first_column(),
                last_column == scene.last_column(),
                layer <= layers <= map.layer_count,
                layers <= map@.layers.len(),
                forall|i: int| 0 <= i < blits@.len() ==> scene.draws_cell(#[trigger] blits@[i]),
                forall|i: int, j: int|
                    0 <= i < j < blits@.len() ==> drawn_before(
                        #[trigger] blits@[i],
                        #[trigger] blits@[j],
                    ),
                forall|i: int| 0 <= i < blits@.len() ==> (#[trigger] blits@[i]).layer < layer,
                forall|l: int, r: int, c: int| #[trigger]
                    scene.drawn(l, r, c) && l < layer ==> lists_cell(blits@, l, r, c),
            decreases layers - layer,
        {
            let mut row: usize = first_row;
            while row < last_row
                invariant
                    scene == scene_of(*bounds, camera@, map@, image@),
                    scene.paintable(),
                    tile_size == scene.tile_size(),
                    scene.in_range(),
                    camera_x == scene.camera.x,
                    camera_y == scene.camera.y,
                    sheet_columns == scene.sheet_columns(),
                    sheet_rows == scene.sheet_rows(),
                    sprites == sheet_columns * sheet_rows,
                    first_row == scene.first_row(),
                    last_row == scene.last_row(),
                    first_column == scene.first_column(),
                    last_column == scene.last_column(),
                    layer < layers <= map.layer_count,
                    first_row <= row,
                    forall|i: int| 0 <= i < blits@.len() ==> scene.draws_cell(#[trigger] blits@[i]),
                    forall|i: int, j: int|
                        0 <= i < j < blits@.len() ==> drawn_before(
                            #[trigger] blits@[i],
                            #[trigger] blits@[j],
                        ),
                    forall|i: int|
                        0 <= i < blits@.len() ==> cell_before(
                            (#[trigger] blits@[i]).layer as int,
                            blits@[i].row as int,
                            blits@[i].column as int,
                            layer as int,
                            row as int,
                            first_column as int,
                        ),
                    forall|l: int, r: int, c: int| #[trigger]
                        scene.drawn(l, r, c) && cell_before(
                            l,
                            r,
                            c,
                            layer as int,
                            row as int,
                            first_column as int,
                        ) ==> lists_cell(blits@, l, r, c),
                decreases last_row - row,
            {
                let mut column: usize = first_column;
                while column < last_column
                    invariant
                        scene == scene_of(*bounds, camera@, map@, image@),
                        scene.paintable(),
                        tile_size == scene.tile_size(),
                        scene.in_range(),
                        camera_x == scene.camera.x,
                        camera_y == scene.camera.y,
                        sheet_columns == scene.sheet_columns(),
                        sheet_rows == scene.sheet_rows(),
                        sprites == sheet_columns * sheet_rows,
                        first_row == scene.first_row(),
                        last_row == scene.last_row(),
                        first_column == scene.first_column(),
                        last_column == scene.last_column(),
                        layer < layers <= map.layer_count,
                        first_row <= row < last_row,
                        first_column <= column,
                        forall|i: int|
                            0 <= i < blits@.len() ==> scene.draws_cell(#[trigger] blits@[i]),
                        forall|i: int, j: int|
                            0 <= i < j < blits@.len() ==> drawn_before(
                                #[trigger] blits@[i],
                                #[trigger] blits@[j],
                            ),
                        forall|i: int|
                            0 <= i < blits@.len() ==> cell_before(
                                (#[trigger] blits@[i]).layer as int,
                                blits@[i].row as int,
                                blits@[i].column as int,
                                layer as int,
                                row as int,
                                column as int,
                            ),
                        forall|l: int, r: int, c: int| #[trigger]
                            scene.drawn(l, r, c) && cell_before(
                                l,
                                r,
                                c,
                                layer as int,
                                row as int,
                                column as int,
                            ) ==> lists_cell(blits@, l, r, c),
                    decreases last_column - column,
                {
                    let tile = map.get_tile(layer, row, column);
                    let ghost before = blits@;
                    if tile != NO_TILE && tile >= 0 && (tile as u64) < sprites {
                        proof {
                            lemma_sprite_in_sheet(scene, tile as int);
                            lemma_dst_x(scene, column as int);
                            lemma_dst_y(scene, row as int);
                        }
                        let sprite: u32 = tile as u32;
                        assert((sprite % sheet_columns) * tile_size == scene.src_x(tile as int));
                        assert((sprite / sheet_columns) * tile_size == scene.src_y(tile as int));
                        let src_x: u32 = (sprite % sheet_columns) * tile_size;
                        let src_y: u32 = (sprite / sheet_columns) * tile_size;
                        let size: i128 = tile_size as i128;
                        assert(0 <= column * size <= 0xffff_ffff_ffff_ffff * 0xffff_ffff)
                            by (nonlinear_arith)
                            requires
                                0 <= column <= 0xffff_ffff_ffff_ffff,
                                0 <= size <= 0xffff_ffff,
                        ;
                        assert(0 <= row * size <= 0xffff_ffff_ffff_ffff * 0xffff_ffff)
                            by (nonlinear_arith)
                            requires
                                0 <= row <= 0xffff_ffff_ffff_ffff,
                                0 <= size <= 0xffff_ffff,
                        ;
                        let dst_x: i128 = bounds.x as i128 + column as i128 * size
                            - camera_x as i128;
                        let dst_y: i128 = bounds.y as i128 + row as i128 * size
                            - camera_y as i128;
                        let blit = Blit {
                            layer,
                            row,
                            column,
                            src_x,
                            src_y,
                            dst_x: dst_x as i64,
                            dst_y: dst_y as i64,
                            size: tile_size,
                        };
                        blits.push(blit);
                        assert(scene.draws_cell(blit));
                        assert(blits@[blits@.len() - 1] == blit);
                    }
                    proof {
                        assert forall|l: int, r: int, c: int| #[trigger]
                            scene.drawn(l, r, c) && cell_before(
                                l,
                                r,
                                c,
                                layer as int,
                                row as int,
                                column + 1,
                            ) implies lists_cell(blits@, l, r, c) by {
                            if cell_before(l, r, c, layer as int, row as int, column as int) {
                                assert(lists_cell(before, l, r, c));
                                let i = choose|i: int|
                                    0 <= i < before.len() && (#[trigger] before[i]).layer == l
                                        && before[i].row == r && before[i].column == c;
                                assert(blits@[i] == before[i]);
                            } else {
                                assert(l == layer && r == row && c == column);
                                assert(blits@.len() == before.len() + 1);
                                assert(blits@[before.len() as int].layer == l);
                            }
                        }
                    }
                    column += 1;
                }
                row += 1;
            }
            layer += 1;
        }
        blits
    }
}

impl TileMapRenderObject {
    /// Paints what `camera` sees of `map` into `render_target`, with the
    /// tiles of `image`. The top-left corner of `bounds` is where the
    /// camera's top-left corner goes. Layers are painted one over the
    /// other, the first one at the bottom. Nothing is painted with bounds or
    /// tiles that have no extent.
    pub fn paint(
        &self,
        render_target: &mut RenderTarget,
        bounds: &Rectangle,
        camera: &Camera,
        map: &TileMap,
        image: &Image,
    )
        ensures
            final(render_target)@ == scene_of(*bounds, camera@, map@, image@).composed(
                old(render_target)@,
            ),
            final(render_target)@.width == old(render_target)@.width,
            final(render_target)@.height == old(render_target)@.height,
            final(render_target)@.data.len() == old(render_target)@.data.len(),
    {
        let blits = self.visible_tiles(bounds, camera, map, image);
        let mut i: usize = 0;
        while i < blits.len()
            invariant
                i <= blits@.len(),
                render_target@ == painted(old(render_target)@, image@, blits@.take(i as int)),
            decreases blits@.len() - i,
        {
            self.draw_render_target(render_target, image, &blits[i]);
            proof {
                assert(blits@.take(i + 1).drop_last() =~= blits@.take(i as int));
            }
            i += 1;
        }
        proof {
            assert(blits@.take(i as int) =~= blits@);
            lemma_painted_is_composed(
                scene_of(*bounds, camera@, map@, image@),
                old(render_target)@,
                blits@,
            );
        }
    }

    /// Renders what `camera` sees of `map` into a new target of the extent
    /// of `bounds`, with the camera's top-left corner in the target's
    /// top-left corner. Pixels that show no tile are zero. Returns `None`
    /// for bounds without extent.
    pub fn render_self(
        &self,
        bounds: &Rectangle,
        camera: &Camera,
        map: &TileMap,
        image: &Image,
    ) -> (rendered: Option<RenderTarget>)
        ensures
            rendered.is_some() == (bounds.width > 0 && bounds.height > 0),
            rendered matches Some(target) ==> target@ == scene_of(
                at_origin(*bounds),
                camera@,
                map@,
                image@,
            ).composed(blank(bounds.width as nat, bounds.height as nat)),
    {
        if bounds.width == 0 || bounds.height == 0 {
            return None;
        }
        let mut target = RenderTarget::new(bounds.width, bounds.height);
        let frame = Rectangle { x: 0, y: 0, width: bounds.width, height: bounds.height };
        self.paint(&mut target, &frame, camera, map, image);
        Some(target)
    }
}

/// The rectangle of the extent of `bounds` at the origin.
pub open spec fn at_origin(bounds: Rectangle) -> Rectangle {
    Rectangle { x: 0, y: 0, width: bounds.width, height: bounds.height }
}

/// The least of three numbers, and zero if that is negative.
fn clip_end(a: i128, b: i128, c: i128) -> (end: u32)
    requires
        b <= u32::MAX,
    ensures
        end as int == {
            let least = if a <= b && a <= c {
                a as int
            } else if b <= c {
                b as int
            } else {
                c as int
            };
            if least < 0 {
                0
            } else {
                least
            }
        },
{
    let least = if a <= b && a <= c {
        a
    } else if b <= c {
        b
    } else {
        c
    };
    if least < 0 {
        0
    } else {
        least as u32
    }
}

/// Holds the cell index `cell` to a grid of `count` cells.
fn clamp_to_grid(cell: i128, count: usize) -> (clamped: usize)
    ensures
        clamped == within_grid(cell as int, count as nat),
{
    if cell < 0 {
        0
    } else if cell > count as i128 {
        count
    } else {
        cell as usize
    }
}

} // verus!
