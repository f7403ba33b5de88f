//! The layered tile grid.
//!
//! A [`TileMap`] stacks layers of tile indices. Each layer stores its cells
//! in row-major order, so the cell in row `r` and column `c` lives at
//! position `r * column_count + c`. The value `-1` stands for "no tile".

use vstd::arithmetic::div_mod::lemma_fundamental_div_mod_converse;
use crate::arith::{
    div_floor, floor_div, lemma_floor_div_bounds, lemma_floor_div_in_range, lemma_floor_div_unique,
};
use vstd::prelude::*;

verus! {

/// The tile index that marks a cell without a tile.
pub const NO_TILE: i32 = -1;

/// The tile stored at `index` of a row-major cell sequence, or `NO_TILE`
/// where the sequence has no such position.
pub open spec fn cell_or_empty(tiles: Seq<i32>, index: int) -> i32 {
    if 0 <= index < tiles.len() {
        tiles[index]
    } else {
        NO_TILE
    }
}

/// A cell sequence of `len` cells that keeps the leading cells of `tiles` and
/// is empty behind them.
pub open spec fn resized(tiles: Seq<i32>, len: nat) -> Seq<i32> {
    Seq::new(len, |i: int| cell_or_empty(tiles, i))
}

/// The cell at position `index` of a grid whose rows went from `from` to `to`
/// columns each: a leading cell of its row is kept, another one is empty.
pub open spec fn recolumned_cell(tiles: Seq<i32>, from: nat, to: nat, index: int) -> i32 {
    let row = index / (to as int);
    let column = index % (to as int);
    if column < from {
        cell_or_empty(tiles, row * from + column)
    } else {
        NO_TILE
    }
}

/// The cells of a grid with `rows` rows whose rows went from `from` to `to`
/// columns each: every row keeps its leading cells and is empty behind them.
pub open spec fn recolumned(tiles: Seq<i32>, rows: nat, from: nat, to: nat) -> Seq<i32> {
    Seq::new(rows * to, |i: int| recolumned_cell(tiles, from, to, i))
}

/// A cell sequence of `len` empty cells.
pub open spec fn empty_cells(len: nat) -> Seq<i32> {
    Seq::new(len, |i: int| NO_TILE)
}

/// One full grid of tile indices in row-major order.
#[derive(Clone, Debug, PartialEq, Eq)]
pub struct Layer {
    pub tiles: Vec<i32>,
}

impl View for Layer {
    type V = Seq<i32>;

    open spec fn view(&self) -> Seq<i32> {
        self.tiles@
    }
}

impl Default for Layer {
    /// A layer without cells.
    fn default() -> (layer: Layer)
        ensures
            layer@ == Seq::<i32>::empty(),
    {
        Layer { tiles: Vec::new() }
    }
}

impl Layer {
    /// Appends a cell at the end of the layer.
    pub fn push(&mut self, tile: i32)
        ensures
            final(self)@ == old(self)@.push(tile),
    {
        self.tiles.push(tile);
    }

    /// Removes the last cell and returns it, or returns `None` for a layer
    /// without cells.
    pub fn pop(&mut self) -> (tile: Option<i32>)
        ensures
            old(self)@.len() == 0 ==> tile.is_none() && final(self)@ == old(self)@,
            old(self)@.len() > 0 ==> tile == Some(old(self)@.last()) && final(self)@ == old(
                self,
            )@.drop_last(),
    {
        self.tiles.pop()
    }

    /// Removes the cell at `index` and returns it; the cells behind it move
    /// one position to the front.
    pub fn remove(&mut self, index: usize) -> (tile: i32)
        requires
            index < old(self)@.len(),
        ensures
            tile == old(self)@[index as int],
            final(self)@ == old(self)@.remove(index as int),
    {
        self.tiles.remove(index)
    }

    /// Stores `tile` at `index`. A layer without such a position stays as it
    /// is.
    pub fn set_tile(&mut self, index: usize, tile: i32)
        ensures
            index < old(self)@.len() ==> final(self)@ == old(self)@.update(index as int, tile),
            index >= old(self)@.len() ==> final(self)@ == old(self)@,
    {
        if index < self.tiles.len() {
            self.tiles[index] = tile;
        }
    }
}

/// The mathematical content of a [`TileMap`].
pub struct TileMapView {
    pub layer_count: nat,
    pub row_count: nat,
    pub column_count: nat,
    pub tile_size: nat,
    pub blocked_tiles: Seq<i32>,
    pub layers: Seq<Seq<i32>>,
}

impl TileMapView {
    /// The grid is consistent: there are `layer_count` layers, and each of
    /// them holds exactly `row_count * column_count` cells.
    pub open spec fn wf(self) -> bool {
        &&& self.layers.len() == self.layer_count
        &&& forall|l: int|
            0 <= l < self.layers.len() ==> (#[trigger] self.layers[l]).len() == self.row_count
                * self.column_count
    }

    /// The row-major position of the cell in `row` and `column`.
    pub open spec fn cell_index(self, row: int, column: int) -> int {
        row * self.column_count + column
    }

    /// The grid column that holds the world position `x`.
    pub open spec fn column_of(self, x: int) -> int
        recommends
            self.tile_size > 0,
    {
        floor_div(x, self.tile_size as int)
    }

    /// The grid row that holds the world position `y`.
    pub open spec fn row_of(self, y: int) -> int
        recommends
            self.tile_size > 0,
    {
        floor_div(y, self.tile_size as int)
    }

    /// The world position of the left edge of `column`.
    pub open spec fn x_of(self, column: int) -> int {
        column * self.tile_size
    }

    /// The world position of the top edge of `row`.
    pub open spec fn y_of(self, row: int) -> int {
        row * self.tile_size
    }

    /// Whether `layer` stores a cell for `row` and `column`.
    pub open spec fn has_tile(self, layer: int, row: int, column: int) -> bool {
        &&& 0 <= layer < self.layers.len()
        &&& 0 <= row < self.row_count
        &&& 0 <= column < self.column_count
        &&& self.cell_index(row, column) < self.layers[layer].len()
    }

    /// The tile that `layer` stores for `row` and `column`, or `NO_TILE`
    /// where it stores none.
    pub open spec fn tile_at(self, layer: int, row: int, column: int) -> i32 {
        if self.has_tile(layer, row, column) {
            self.layers[layer][self.cell_index(row, column)]
        } else {
            NO_TILE
        }
    }

    /// Whether some layer stores, for `row` and `column`, a tile that is
    /// listed as blocked.
    pub open spec fn blocked_at(self, column: int, row: int) -> bool {
        exists|layer: int|
            self.has_tile(layer, row, column) && self.blocked_tiles.contains(
                #[trigger] self.tile_at(layer, row, column),
            )
    }

    /// The grid after `tile` was stored in `layer` for `row` and `column`.
    /// A grid without such a cell stays as it is.
    pub open spec fn with_tile(self, layer: int, row: int, column: int, tile: i32) -> TileMapView {
        if self.has_tile(layer, row, column) {
            TileMapView {
                layers: self.layers.update(
                    layer,
                    self.layers[layer].update(self.cell_index(row, column), tile),
                ),
                ..self
            }
        } else {
            self
        }
    }

    /// The grid with `layer_count` layers: the leading layers are kept, and
    /// layers of empty cells are added behind them.
    pub open spec fn with_layer_count(self, layer_count: nat) -> TileMapView {
        TileMapView {
            layer_count,
            layers: Seq::new(
                layer_count,
                |l: int|
                    if l < self.layers.len() {
                        self.layers[l]
                    } else {
                        empty_cells(self.row_count * self.column_count)
                    },
            ),
            ..self
        }
    }

    /// The grid with `row_count` rows: in every layer the leading rows are
    /// kept, and rows of empty cells are added below them.
    pub open spec fn with_row_count(self, row_count: nat) -> TileMapView {
        TileMapView {
            row_count,
            layers: Seq::new(
                self.layers.len(),
                |l: int| resized(self.layers[l], row_count * self.column_count),
            ),
            ..self
        }
    }

    /// The grid with `column_count` columns: in every row of every layer the
    /// leading cells are kept, and empty cells are added behind them.
    pub open spec fn with_column_count(self, column_count: nat) -> TileMapView {
        TileMapView {
            column_count,
            layers: Seq::new(
                self.layers.len(),
                |l: int|
                    recolumned(self.layers[l], self.row_count, self.column_count, column_count),
            ),
            ..self
        }
    }
}

/// The cells of a consistent grid have positions of their own in their
/// layer: a position belongs to one row and one column.
pub proof fn lemma_cell_index(view: TileMapView, row: int, column: int)
    requires
        0 <= row < view.row_count,
        0 <= column < view.column_count,
    ensures
        0 <= view.cell_index(row, column) < view.row_count * view.column_count,
        view.cell_index(row, column) / (view.column_count as int) == row,
        view.cell_index(row, column) % (view.column_count as int) == column,
{
    let columns = view.column_count as int;
    let rows = view.row_count as int;
    assert(0 <= row * columns && row * columns + column < rows * columns) by (nonlinear_arith)
        requires
            0 <= row < rows,
            0 <= column < columns,
    ;
    lemma_fundamental_div_mod_converse(row * columns + column, columns, row, column);
}

/// A tile that was stored in a cell is the tile that is found there. The
/// tiles of all other cells are as before.
pub proof fn lemma_set_then_get(
    view: TileMapView,
    layer: int,
    row: int,
    column: int,
    tile: i32,
    other_layer: int,
    other_row: int,
    other_column: int,
)
    requires
        view.has_tile(layer, row, column),
    ensures
        view.with_tile(layer, row, column, tile).tile_at(layer, row, column) == tile,
        (other_layer != layer || other_row != row || other_column != column) ==> view.with_tile(
            layer,
            row,
            column,
            tile,
        ).tile_at(other_layer, other_row, other_column) == view.tile_at(
            other_layer,
            other_row,
            other_column,
        ),
        view.wf() ==> view.with_tile(layer, row, column, tile).wf(),
{
    let after = view.with_tile(layer, row, column, tile);
    lemma_cell_index(view, row, column);
    if 0 <= other_row < view.row_count && 0 <= other_column < view.column_count {
        lemma_cell_index(view, other_row, other_column);
    }
    if view.wf() {
        assert forall|l: int| 0 <= l < after.layers.len() implies (#[trigger] after.layers[l]).len()
            == after.row_count * after.column_count by {
            assert(view.layers[l].len() == view.row_count * view.column_count);
        }
    }
}

/// Where a cell is out of range, no tile is found.
pub proof fn lemma_get_out_of_range(view: TileMapView, layer: int, row: int, column: int)
    requires
        view.wf(),
        !(0 <= layer < view.layer_count && 0 <= row < view.row_count && 0 <= column
            < view.column_count),
    ensures
        view.tile_at(layer, row, column) == NO_TILE,
{
}

/// In a consistent grid every cell within the counts has a tile of its own.
pub proof fn lemma_has_tile(view: TileMapView, layer: int, row: int, column: int)
    requires
        view.wf(),
    ensures
        view.has_tile(layer, row, column) <==> (0 <= layer < view.layer_count && 0 <= row
            < view.row_count && 0 <= column < view.column_count),
{
    if 0 <= layer < view.layer_count && 0 <= row < view.row_count && 0 <= column
        < view.column_count {
        lemma_cell_index(view, row, column);
        assert(view.layers[layer].len() == view.row_count * view.column_count);
    }
}

/// A world position lies in the column that `column_of` names, within
/// one tile from that column's left edge; and the left edge of a column
/// lies in that column.
pub proof fn lemma_column_of(view: TileMapView, x: int, column: int)
    requires
        view.tile_size > 0,
    ensures
        view.x_of(view.column_of(x)) <= x < view.x_of(view.column_of(x)) + view.tile_size,
        view.column_of(view.x_of(column)) == column,
{
    let ts = view.tile_size as int;
    lemma_floor_div_bounds(x, ts);
    assert((floor_div(x, ts) + 1) * ts == floor_div(x, ts) * ts + ts) by (nonlinear_arith);
    assert((column + 1) * ts == column * ts + ts) by (nonlinear_arith);
    lemma_floor_div_unique(column * ts, ts, column);
}

/// A world position lies in the row that `row_of` names, within one tile
/// from that row's top edge; and the top edge of a row lies in that row.
pub proof fn lemma_row_of(view: TileMapView, y: int, row: int)
    requires
        view.tile_size > 0,
    ensures
        view.y_of(view.row_of(y)) <= y < view.y_of(view.row_of(y)) + view.tile_size,
        view.row_of(view.y_of(row)) == row,
{
    lemma_column_of(view, y, row);
}

/// A grid that lists no blocked tile has no impassable cell.
pub proof fn lemma_nothing_blocked(view: TileMapView, column: int, row: int)
    requires
        view.blocked_tiles.len() == 0,
    ensures
        !view.blocked_at(column, row),
{
}

/// After the number of layers was set, the layers that were kept hold
/// their tiles, and no other layer holds any.
pub proof fn lemma_with_layer_count(
    view: TileMapView,
    layer_count: nat,
    layer: int,
    row: int,
    column: int,
)
    requires
        view.wf(),
    ensures
        view.with_layer_count(layer_count).wf(),
        view.with_layer_count(layer_count).tile_at(layer, row, column) == if layer < layer_count {
            view.tile_at(layer, row, column)
        } else {
            NO_TILE
        },
{
    let after = view.with_layer_count(layer_count);
    lemma_has_tile(view, layer, row, column);
    assert forall|l: int| 0 <= l < after.layers.len() implies (#[trigger] after.layers[l]).len()
        == after.row_count * after.column_count by {
        if l < view.layers.len() {
            assert(view.layers[l].len() == view.row_count * view.column_count);
        }
    }
    lemma_has_tile(after, layer, row, column);
    if after.has_tile(layer, row, column) {
        lemma_cell_index(view, row, column);
    }
}

/// After the number of rows was set, the rows that were kept hold their
/// tiles, and no other row holds any.
pub proof fn lemma_with_row_count(
    view: TileMapView,
    row_count: nat,
    layer: int,
    row: int,
    column: int,
)
    requires
        view.wf(),
    ensures
        view.with_row_count(row_count).wf(),
        view.with_row_count(row_count).tile_at(layer, row, column) == if row < row_count {
            view.tile_at(layer, row, column)
        } else {
            NO_TILE
        },
{
    let after = view.with_row_count(row_count);
    lemma_has_tile(view, layer, row, column);
    lemma_has_tile(after, layer, row, column);
    if after.has_tile(layer, row, column) {
        lemma_cell_index(after, row, column);
        if row < view.row_count {
            lemma_cell_index(view, row, column);
        } else {
            assert(row * view.column_count >= view.row_count * view.column_count)
                by (nonlinear_arith)
                requires
                    row >= view.row_count,
                    view.column_count >= 0,
            ;
        }
        assert(view.layers[layer].len() == view.row_count * view.column_count);
    }
}

/// After the number of columns was set, the columns that were kept hold
/// their tiles, and no other column holds any.
pub proof fn lemma_with_column_count(
    view: TileMapView,
    column_count: nat,
    layer: int,
    row: int,
    column: int,
)
    requires
        view.wf(),
    ensures
        view.with_column_count(column_count).wf(),
        view.with_column_count(column_count).tile_at(layer, row, column) == if column
            < column_count {
            view.tile_at(layer, row, column)
        } else {
            NO_TILE
        },
{
    let after = view.with_column_count(column_count);
    lemma_has_tile(view, layer, row, column);
    lemma_has_tile(after, layer, row, column);
    if after.has_tile(layer, row, column) {
        lemma_cell_index(after, row, column);
        if column < view.column_count {
            lemma_cell_index(view, row, column);
        }
        assert(view.layers[layer].len() == view.row_count * view.column_count);
    }
}

/// Setting the number of rows a second time to the same number changes
/// nothing.
pub proof fn lemma_row_count_twice(view: TileMapView, row_count: nat)
    ensures
        view.with_row_count(row_count).with_row_count(row_count) == view.with_row_count(row_count),
{
    let once = view.with_row_count(row_count);
    let twice = once.with_row_count(row_count);
    assert forall|l: int| 0 <= l < once.layers.len() implies #[trigger] twice.layers[l]
        =~= once.layers[l] by {}
    assert(twice.layers =~= once.layers);
}

/// Adding rows and then going back to the former number of rows restores
/// the grid.
pub proof fn lemma_row_count_restored(view: TileMapView, row_count: nat)
    requires
        view.wf(),
        row_count >= view.row_count,
    ensures
        view.with_row_count(row_count).with_row_count(view.row_count) == view,
{
    let grown = view.with_row_count(row_count);
    let back = grown.with_row_count(view.row_count);
    assert(view.row_count * view.column_count <= row_count * view.column_count)
        by (nonlinear_arith)
        requires
            view.row_count <= row_count,
    ;
    assert forall|l: int| 0 <= l < view.layers.len() implies #[trigger] back.layers[l]
        =~= view.layers[l] by {
        assert(view.layers[l].len() == view.row_count * view.column_count);
    }
    assert(back.layers =~= view.layers);
}

/// A layered grid of tiles.
///
/// The layers are painted in order, the first one at the bottom. Tiles are
/// squares of `tile_size` pixels. A cell is impassable when one of its layers
/// carries a tile that `blocked_tiles` lists.
#[derive(Clone, Debug, PartialEq, Eq)]
pub struct TileMap {
    pub layer_count: usize,
    pub row_count: usize,
    pub column_count: usize,
    pub tile_size: u32,
    pub blocked_tiles: Vec<i32>,
    pub layers: Vec<Layer>,
}

impl View for TileMap {
    type V = TileMapView;

    open spec fn view(&self) -> TileMapView {
        TileMapView {
            layer_count: self.layer_count as nat,
            row_count: self.row_count as nat,
            column_count: self.column_count as nat,
            tile_size: self.tile_size as nat,
            blocked_tiles: self.blocked_tiles@,
            layers: Seq::new(self.layers@.len(), |l: int| self.layers@[l]@),
        }
    }
}

impl Default for TileMap {
    /// A grid without layers, rows or columns.
    fn default() -> (map: TileMap)
        ensures
            map@.wf(),
            map@.layer_count == 0,
            map@.row_count == 0,
            map@.column_count == 0,
            map@.tile_size == 0,
            map@.blocked_tiles == Seq::<i32>::empty(),
    {
        TileMap {
            layer_count: 0,
            row_count: 0,
            column_count: 0,
            tile_size: 0,
            blocked_tiles: Vec::new(),
            layers: Vec::new(),
        }
    }
}

/// Whether `tiles` lists `tile`.
fn lists_tile(tiles: &Vec<i32>, tile: i32) -> (found: bool)
    ensures
        found == tiles@.contains(tile),
{
    let mut i: usize = 0;
    while i < tiles.len()
        invariant
            i <= tiles@.len(),
            forall|k: int| 0 <= k < i ==> tiles@[k] != tile,
        decreases tiles@.len() - i,
    {
        if tiles[i] == tile {
            return true;
        }
        i += 1;
    }
    false
}

/// Copies the cells of a grid with `rows` rows of `from` columns into a grid
/// with rows of `to` columns.
fn recolumn(tiles: &Vec<i32>, rows: usize, from: usize, to: usize) -> (cells: Vec<i32>)
    ensures
        cells@ == recolumned(tiles@, rows as nat, from as nat, to as nat),
{
    let mut cells: Vec<i32> = Vec::new();
    let mut r: usize = 0;
    while r < rows
        invariant
            r <= rows,
            cells@.len() == r * to,
            forall|i: int|
                0 <= i < cells@.len() ==> cells@[i] == recolumned_cell(
                    tiles@,
                    from as nat,
                    to as nat,
                    i,
                ),
        decreases rows - r,
    {
        let mut c: usize = 0;
        while c < to
            invariant
                r < rows,
                c <= to,
                cells@.len() == r * to + c,
                forall|i: int|
                    0 <= i < cells@.len() ==> cells@[i] == recolumned_cell(
                        tiles@,
                        from as nat,
                        to as nat,
                        i,
                    ),
            decreases to - c,
        {
            let tile = if c < from {
                let row: u128 = r as u128;
                let columns: u128 = from as u128;
                assert(row * columns <= 0xffff_ffff_ffff_ffff * 0xffff_ffff_ffff_ffff)
                    by (nonlinear_arith)
                    requires
                        0 <= row <= 0xffff_ffff_ffff_ffff,
                        0 <= columns <= 0xffff_ffff_ffff_ffff,
                ;
                let index: u128 = row * columns + c as u128;
                if index < tiles.len() as u128 {
                    tiles[index as usize]
                } else {
                    NO_TILE
                }
            } else {
                NO_TILE
            };
            proof {
                lemma_fundamental_div_mod_converse(r * to + c, to as int, r as int, c as int);
            }
            cells.push(tile);
            c += 1;
        }
        assert((r + 1) * to == r * to + to) by (nonlinear_arith);
        r += 1;
    }
    cells
}

impl TileMap {
    /// The number of layers.
    pub fn layer_count(&self) -> (n: usize)
        ensures
            n == self@.layer_count,
    {
        self.layer_count
    }

    /// The number of rows.
    pub fn row_count(&self) -> (n: usize)
        ensures
            n == self@.row_count,
    {
        self.row_count
    }

    /// The number of columns.
    pub fn column_count(&self) -> (n: usize)
        ensures
            n == self@.column_count,
    {
        self.column_count
    }

    /// The edge length of a tile in pixels.
    pub fn tile_size(&self) -> (n: u32)
        ensures
            n == self@.tile_size,
    {
        self.tile_size
    }

    /// Whether the grid is consistent.
    pub fn is_well_formed(&self) -> (ok: bool)
        ensures
            ok == self@.wf(),
    {
        if self.layers.len() != self.layer_count {
            return false;
        }
        let cells: u128 = self.cell_count();
        let mut l: usize = 0;
        while l < self.layers.len()
            invariant
                l <= self.layers@.len(),
                cells == self@.row_count * self@.column_count,
                forall|k: int| 0 <= k < l ==> (#[trigger] self@.layers[k]).len() == cells,
            decreases self.layers@.len() - l,
        {
            if self.layers[l].tiles.len() as u128 != cells {
                assert(self@.layers[l as int].len() != cells);
                return false;
            }
            l += 1;
        }
        true
    }

    /// The number of cells that a layer of a consistent grid holds.
    fn cell_count(&self) -> (cells: u128)
        ensures
            cells == self@.row_count * self@.column_count,
    {
        let rows: u128 = self.row_count as u128;
        let columns: u128 = self.column_count as u128;
        assert(rows * columns <= 0xffff_ffff_ffff_ffff * 0xffff_ffff_ffff_ffff) by (nonlinear_arith)
            requires
                0 <= rows <= 0xffff_ffff_ffff_ffff,
                0 <= columns <= 0xffff_ffff_ffff_ffff,
        ;
        rows * columns
    }

    /// Sets the number of layers. Layers are removed from the top, or layers
    /// of empty cells are added on top.
    pub fn set_layer_count(&mut self, layer_count: usize)
        ensures
            final(self)@ == old(self)@.with_layer_count(layer_count as nat),
            old(self)@.wf() ==> final(self)@.wf(),
    {
        let cells: u128 = self.cell_count();
        while self.layers.len() > layer_count
            invariant
                self.layer_count == old(self).layer_count,
                self.row_count == old(self).row_count,
                self.column_count == old(self).column_count,
                self.tile_size == old(self).tile_size,
                self.blocked_tiles == old(self).blocked_tiles,
                self.layers@.len() <= old(self).layers@.len(),
                self.layers@.len() >= layer_count || self.layers@.len() == old(self).layers@.len(),
                self.layers@ == old(self).layers@.take(self.layers@.len() as int),
            decreases self.layers@.len(),
        {
            self.layers.pop();
        }
        while self.layers.len() < layer_count
            invariant
                self.layer_count == old(self).layer_count,
                self.row_count == old(self).row_count,
                self.column_count == old(self).column_count,
                self.tile_size == old(self).tile_size,
                self.blocked_tiles == old(self).blocked_tiles,
                cells == self@.row_count * self@.column_count,
                self.layers@.len() <= layer_count,
                self.layers@.len() == layer_count || self.layers@.len() >= old(self).layers@.len(),
                forall|l: int|
                    0 <= l < self.layers@.len() ==> (#[trigger] self.layers@[l])@ == old(
                        self,
                    )@.with_layer_count(layer_count as nat).layers[l],
            decreases layer_count - self.layers@.len(),
        {
            let mut layer = Layer::default();
            while (layer.tiles.len() as u128) < cells
                invariant
                    layer@.len() <= cells,
                    layer@ == empty_cells(layer@.len()),
                decreases cells - layer@.len(),
            {
                layer.push(NO_TILE);
            }
            self.layers.push(layer);
        }
        self.layer_count = layer_count;
        assert(self@.layers =~~= old(self)@.with_layer_count(layer_count as nat).layers);
    }

    /// Sets the number of rows. In every layer rows are removed from the
    /// bottom, or rows of empty cells are added at the bottom.
    pub fn set_row_count(&mut self, row_count: usize)
        ensures
            final(self)@ == old(self)@.with_row_count(row_count as nat),
            old(self)@.wf() ==> final(self)@.wf(),
    {
        self.row_count = row_count;
        let cells: u128 = self.cell_count();
        let mut l: usize = 0;
        while l < self.layers.len()
            invariant
                self.layer_count == old(self).layer_count,
                self.row_count == row_count,
                self.column_count == old(self).column_count,
                self.tile_size == old(self).tile_size,
                self.blocked_tiles == old(self).blocked_tiles,
                cells == row_count * self.column_count,
                l <= self.layers@.len(),
                self.layers@.len() == old(self).layers@.len(),
                forall|k: int|
                    0 <= k < l ==> (#[trigger] self.layers@[k])@ == resized(
                        old(self).layers@[k]@,
                        cells as nat,
                    ),
                forall|k: int|
                    l <= k < self.layers@.len() ==> (#[trigger] self.layers@[k])@ == old(
                        self,
                    ).layers@[k]@,
            decreases self.layers@.len() - l,
        {
            if self.layers[l].tiles.len() as u128 > cells {
                self.layers[l].tiles.truncate(cells as usize);
                assert(self.layers@[l as int]@ =~= resized(
                    old(self).layers@[l as int]@,
                    cells as nat,
                ));
            } else {
                while (self.layers[l].tiles.len() as u128) < cells
                    invariant
                        self.layer_count == old(self).layer_count,
                        self.row_count == row_count,
                        self.column_count == old(self).column_count,
                        self.tile_size == old(self).tile_size,
                        self.blocked_tiles == old(self).blocked_tiles,
                        l < self.layers@.len(),
                        self.layers@.len() == old(self).layers@.len(),
                        old(self).layers@[l as int]@.len() <= self.layers@[l as int]@.len() <= cells,
                        self.layers@[l as int]@ == resized(
                            old(self).layers@[l as int]@,
                            self.layers@[l as int]@.len(),
                        ),
                        forall|k: int|
                            0 <= k < l ==> (#[trigger] self.layers@[k])@ == resized(
                                old(self).layers@[k]@,
                                cells as nat,
                            ),
                        forall|k: int|
                            l < k < self.layers@.len() ==> (#[trigger] self.layers@[k])@ == old(
                                self,
                            ).layers@[k]@,
                    decreases cells - self.layers@[l as int]@.len(),
                {
                    self.layers[l].push(NO_TILE);
                }
            }
            l += 1;
        }
        assert(self@.layers =~~= old(self)@.with_row_count(row_count as nat).layers);
    }

    /// Sets the number of columns. In every row of every layer cells are
    /// removed from the end, or empty cells are added at the end.
    pub fn set_column_count(&mut self, column_count: usize)
        ensures
            final(self)@ == old(self)@.with_column_count(column_count as nat),
            old(self)@.wf() ==> final(self)@.wf(),
    {
        let from: usize = self.column_count;
        let rows: usize = self.row_count;
        let mut l: usize = 0;
        while l < self.layers.len()
            invariant
                self.layer_count == old(self).layer_count,
                self.row_count == rows == old(self).row_count,
                self.column_count == from == old(self).column_count,
                self.tile_size == old(self).tile_size,
                self.blocked_tiles == old(self).blocked_tiles,
                l <= self.layers@.len(),
                self.layers@.len() == old(self).layers@.len(),
                forall|k: int|
                    0 <= k < l ==> (#[trigger] self.layers@[k])@ == recolumned(
                        old(self).layers@[k]@,
                        rows as nat,
                        from as nat,
                        column_count as nat,
                    ),
                forall|k: int|
                    l <= k < self.layers@.len() ==> (#[trigger] self.layers@[k])@ == old(
                        self,
                    ).layers@[k]@,
            decreases self.layers@.len() - l,
        {
            let tiles = recolumn(&self.layers[l].tiles, rows, from, column_count);
            self.layers[l].tiles = tiles;
            l += 1;
        }
        self.column_count = column_count;
        assert(self@.layers =~~= old(self)@.with_column_count(column_count as nat).layers);
        assert(old(self)@.wf() ==> self@.wf()) by {
            assert forall|k: int| 0 <= k < self@.layers.len() implies (
            #[trigger] self@.layers[k]).len() == self@.row_count * self@.column_count by {
                assert(self@.layers[k] == self.layers@[k]@);
            }
        }
    }

    /// The grid column that holds the world position `x`.
    pub fn get_column(&self, x: i32) -> (column: i32)
        requires
            self@.tile_size > 0,
        ensures
            column == self@.column_of(x as int),
    {
        let column = div_floor(x as i64, self.tile_size as i64);
        proof {
            lemma_floor_div_in_range(x as int, self.tile_size as int);
        }
        column as i32
    }

    /// The grid row that holds the world position `y`.
    pub fn get_row(&self, y: i32) -> (row: i32)
        requires
            self@.tile_size > 0,
        ensures
            row == self@.row_of(y as int),
    {
        let row = div_floor(y as i64, self.tile_size as i64);
        proof {
            lemma_floor_div_in_range(y as int, self.tile_size as int);
        }
        row as i32
    }

    /// The world position of the left edge of `column`.
    pub fn get_x(&self, column: i32) -> (x: i64)
        ensures
            x == self@.x_of(column as int),
    {
        let size: i64 = self.tile_size as i64;
        assert(-0x8000_0000 * 0xffff_ffff <= column * size <= 0x8000_0000 * 0xffff_ffff)
            by (nonlinear_arith)
            requires
                -0x8000_0000 <= column <= 0x8000_0000,
                0 <= size <= 0xffff_ffff,
        ;
        column as i64 * size
    }

    /// The world position of the top edge of `row`.
    pub fn get_y(&self, row: i32) -> (y: i64)
        ensures
            y == self@.y_of(row as int),
    {
        self.get_x(row)
    }

    /// Whether the cell that holds the world position `(x, y)` is
    /// impassable. A position outside of the grid is not.
    pub fn is_tile_blocked(&self, x: i32, y: i32) -> (blocked: bool)
        requires
            self@.tile_size > 0,
        ensures
            blocked == self@.blocked_at(self@.column_of(x as int), self@.row_of(y as int)),
    {
        let column = self.get_column(x);
        let row = self.get_row(y);
        if column < 0 || row < 0 {
            return false;
        }
        self.is_blocked(column as usize, row as usize)
    }

    /// The row-major position of an existing cell, or `None` where `layer`
    /// stores no cell for `row` and `column`.
    fn locate(&self, layer: usize, row: usize, column: usize) -> (index: Option<usize>)
        ensures
            index.is_some() == self@.has_tile(layer as int, row as int, column as int),
            index matches Some(i) ==> i == self@.cell_index(row as int, column as int),
    {
        if layer >= self.layers.len() || row >= self.row_count || column >= self.column_count {
            return None;
        }
        let r: u128 = row as u128;
        let columns: u128 = self.column_count as u128;
        assert(r * columns <= 0xffff_ffff_ffff_ffff * 0xffff_ffff_ffff_ffff) by (nonlinear_arith)
            requires
                0 <= r <= 0xffff_ffff_ffff_ffff,
                0 <= columns <= 0xffff_ffff_ffff_ffff,
        ;
        let index: u128 = r * columns + column as u128;
        if index < self.layers[layer].tiles.len() as u128 {
            Some(index as usize)
        } else {
            None
        }
    }

    /// The tile that `layer` stores for `row` and `column`, or `NO_TILE`
    /// where one of the three is out of range.
    pub fn get_tile(&self, layer: usize, row: usize, column: usize) -> (tile: i32)
        ensures
            tile == self@.tile_at(layer as int, row as int, column as int),
    {
        match self.locate(layer, row, column) {
            Some(index) => self.layers[layer].tiles[index],
            None => NO_TILE,
        }
    }

    /// Stores `tile` in `layer` for `row` and `column`. Nothing changes where
    /// one of the three is out of range.
    pub fn set_tile(&mut self, layer: usize, column: usize, row: usize, tile: i32)
        ensures
            final(self)@ == old(self)@.with_tile(layer as int, row as int, column as int, tile),
    {
        match self.locate(layer, row, column) {
            Some(index) => {
                self.layers[layer].set_tile(index, tile);
                assert(self@.layers =~~= old(self)@.with_tile(
                    layer as int,
                    row as int,
                    column as int,
                    tile,
                ).layers);
            },
            None => {},
        }
    }

    /// Whether the cell in `column` and `row` is impassable: whether one of
    /// its layers carries a tile that `blocked_tiles` lists.
    pub fn is_blocked(&self, column: usize, row: usize) -> (blocked: bool)
        ensures
            blocked == self@.blocked_at(column as int, row as int),
    {
        let mut l: usize = 0;
        while l < self.layers.len()
            invariant
                l <= self.layers@.len(),
                forall|k: int|
                    0 <= k < l && self@.has_tile(k, row as int, column as int)
                        ==> !self@.blocked_tiles.contains(
                        #[trigger] self@.tile_at(k, row as int, column as int),
                    ),
            decreases self.layers@.len() - l,
        {
            match self.locate(l, row, column) {
                Some(index) => {
                    if lists_tile(&self.blocked_tiles, self.layers[l].tiles[index]) {
                        assert(self@.has_tile(l as int, row as int, column as int)
                            && self@.blocked_tiles.contains(
                            self@.tile_at(l as int, row as int, column as int),
                        ));
                        return true;
                    }
                },
                None => {},
            }
            l += 1;
        }
        false
    }
}

} // verus!
