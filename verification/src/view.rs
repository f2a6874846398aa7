//! A tile map that is drawn straight from its grid, without entities.
//!
//! The map keeps, for every cell of the first layer, the rectangle of the
//! tile sheet that the cell shows, and draws each at its place in the grid:
//! the cell in column `x` and row `y` at `x` tile widths and `y` tile
//! heights from the top left.

use vstd::prelude::*;
use crate::components::AtlasId;
use crate::fixed::Fixed;
use crate::render::DrawCommand;
use crate::tiles::{
    atlas_offset,
    best_tileset,
    map_error,
    sheet_of,
    spec_atlas_offset,
    tileset_by_gid,
    LoadError,
    MapAsset,
    Sheet,
    Tileset,
};

verus! {

/// A rectangle of the tile sheet, in pixels.
#[derive(Clone, Copy, Debug, PartialEq, Eq, Structural)]
pub struct Tile {
    pub tilesheet_x: u64,
    pub tilesheet_y: u64,
    pub width: u64,
    pub height: u64,
}

impl Tile {
    /// The rectangle of the given size with its top left corner at
    /// `(tilesheet_x, tilesheet_y)`.
    pub fn new(tilesheet_x: u64, tilesheet_y: u64, width: u64, height: u64) -> (tile: Tile)
        ensures
            tile == (Tile { tilesheet_x, tilesheet_y, width, height }),
    {
        Tile { tilesheet_x, tilesheet_y, width, height }
    }

    /// The rectangle as left, top, width and height.
    pub fn src_rect(&self) -> (rect: [u64; 4])
        ensures
            rect@ == seq![self.tilesheet_x, self.tilesheet_y, self.width, self.height],
    {
        let rect: [u64; 4] = [self.tilesheet_x, self.tilesheet_y, self.width, self.height];
        assert(rect@ =~= seq![self.tilesheet_x, self.tilesheet_y, self.width, self.height]);
        rect
    }
}

/// What a cell with tile index `index` shows: nothing for index zero.
pub open spec fn sheet_tile(index: u32, sheet: Sheet) -> Option<Tile> {
    if index == 0 {
        None
    } else {
        let offset = spec_atlas_offset(index, sheet.per_row, sheet.tile_width, sheet.tile_height);
        Some(
            Tile {
                tilesheet_x: offset.0 as u64,
                tilesheet_y: offset.1 as u64,
                width: sheet.tile_width as u64,
                height: sheet.tile_height as u64,
            },
        )
    }
}

/// What the cells of a grid show, row by row.
pub open spec fn sheet_tiles(grid: Seq<Vec<u32>>, sheet: Sheet) -> Seq<Seq<Option<Tile>>> {
    Seq::new(
        grid.len(),
        |r: int| Seq::new(grid[r]@.len(), |c: int| sheet_tile(grid[r]@[c], sheet)),
    )
}

/// The command that draws `tile` for the cell in column `col` and row
/// `row` of a map with tiles of the given size.
pub open spec fn cell_command(
    tile: Tile,
    col: int,
    row: int,
    atlas: AtlasId,
    tile_width: usize,
    tile_height: usize,
) -> DrawCommand {
    DrawCommand::Sprite {
        atlas,
        source: crate::components::Tile {
            x: tile.tilesheet_x,
            y: tile.tilesheet_y,
            width: tile.width,
            height: tile.height,
            atlas,
        },
        x: Fixed::units(col * tile_width),
        y: Fixed::units(row * tile_height),
    }
}

/// The commands for the first `n` cells of row `row`, left to right.
pub open spec fn row_commands(
    cells: Seq<Option<Tile>>,
    row: int,
    n: int,
    atlas: AtlasId,
    tile_width: usize,
    tile_height: usize,
) -> Seq<DrawCommand>
    decreases n,
{
    if n <= 0 {
        Seq::empty()
    } else {
        let before = row_commands(cells, row, n - 1, atlas, tile_width, tile_height);
        match cells[n - 1] {
            Some(tile) => before.push(
                cell_command(tile, n - 1, row, atlas, tile_width, tile_height),
            ),
            None => before,
        }
    }
}

/// The commands for the first `n` rows of a map, row by row.
pub open spec fn map_commands(
    cells: Seq<Seq<Option<Tile>>>,
    n: int,
    atlas: AtlasId,
    tile_width: usize,
    tile_height: usize,
) -> Seq<DrawCommand>
    decreases n,
{
    if n <= 0 {
        Seq::empty()
    } else {
        map_commands(cells, n - 1, atlas, tile_width, tile_height) + row_commands(
            cells[n - 1],
            n - 1,
            cells[n - 1].len() as int,
            atlas,
            tile_width,
            tile_height,
        )
    }
}

/// A tile map with the tile sheet that it is drawn from.
#[derive(Debug)]
pub struct TileMap {
    /// What each cell shows, row by row.
    pub tiles: Vec<Vec<Option<Tile>>>,
    /// The handle of the tile sheet.
    pub tilesheet: AtlasId,
    /// Width of a tile in pixels.
    pub tile_width: usize,
    /// Height of a tile in pixels.
    pub tile_height: usize,
}

impl TileMap {
    /// What the cells of the map show, row by row.
    pub open spec fn cells(&self) -> Seq<Seq<Option<Tile>>> {
        Seq::new(self.tiles@.len(), |r: int| self.tiles@[r]@)
    }

    /// The tile map of the first layer of `map`, drawn from the tile sheet
    /// `tilesheet`, or what is wrong with the map.
    #[verifier::loop_isolation(false)]
    pub fn new(map: &MapAsset, tilesheet: AtlasId) -> (result: Result<TileMap, LoadError>)
        ensures
            match result {
                Ok(tile_map) => {
                    let k = best_tileset(map.tilesets@, 1, map.tilesets@.len() as int).unwrap();
                    let tileset = map.tilesets@[k];
                    &&& map_error(*map).is_none()
                    &&& tile_map.tilesheet == tilesheet
                    &&& tile_map.tile_width == tileset.tile_width
                    &&& tile_map.tile_height == tileset.tile_height
                    &&& tile_map.cells() == sheet_tiles(
                        map.layers@[0].tiles@,
                        sheet_of(tileset, tilesheet),
                    )
                },
                Err(error) => map_error(*map) == Some(error),
            },
    {
        let k: usize = match tileset_by_gid(&map.tilesets, 1) {
            Some(k) => k,
            None => {
                return Err(LoadError::NoTileset);
            },
        };
        let tileset: &Tileset = &map.tilesets[k];
        if tileset.images.len() == 0 {
            return Err(LoadError::NoImage);
        }
        if tileset.tile_width == 0 {
            return Err(LoadError::ZeroTileWidth);
        }
        if map.layers.len() == 0 {
            return Err(LoadError::NoLayer);
        }
        let sheet = Sheet {
            tile_width: tileset.tile_width,
            tile_height: tileset.tile_height,
            per_row: tileset.images[0].width / tileset.tile_width,
            atlas: tilesheet,
        };
        let grid: &Vec<Vec<u32>> = &map.layers[0].tiles;
        let mut tiles: Vec<Vec<Option<Tile>>> = Vec::new();
        let mut row: usize = 0;
        while row < grid.len()
            invariant
                row <= grid@.len(),
                tiles@.len() == row,
                forall|r: int|
                    0 <= r < row ==> (#[trigger] tiles@[r])@ == sheet_tiles(grid@, sheet)[r],
                sheet.per_row == 0 ==> forall|r: int, c: int|
                    0 <= r < row && 0 <= c < grid@[r]@.len() ==> #[trigger] grid@[r]@[c] == 0,
            decreases grid.len() - row,
        {
            let cells: &Vec<u32> = &grid[row];
            let mut shown: Vec<Option<Tile>> = Vec::new();
            let mut col: usize = 0;
            while col < cells.len()
                invariant
                    col <= cells@.len(),
                    shown@.len() == col,
                    forall|c: int|
                        0 <= c < col ==> #[trigger] shown@[c] == sheet_tile(cells@[c], sheet),
                    sheet.per_row == 0 ==> forall|c: int|
                        0 <= c < col ==> #[trigger] cells@[c] == 0,
                decreases cells.len() - col,
            {
                let index: u32 = cells[col];
                if index == 0 {
                    shown.push(None);
                } else {
                    if sheet.per_row == 0 {
                        assert(grid@[row as int]@[col as int] != 0);
                        assert(crate::tiles::has_tiles(grid@));
                        return Err(LoadError::AtlasTooNarrow);
                    }
                    let offset: (u64, u64) = atlas_offset(
                        index,
                        sheet.per_row,
                        sheet.tile_width,
                        sheet.tile_height,
                    );
                    shown.push(
                        Some(
                            Tile::new(
                                offset.0,
                                offset.1,
                                sheet.tile_width as u64,
                                sheet.tile_height as u64,
                            ),
                        ),
                    );
                }
                col += 1;
            }
            assert(shown@ =~= sheet_tiles(grid@, sheet)[row as int]);
            tiles.push(shown);
            row += 1;
        }
        let tile_map = TileMap {
            tiles,
            tilesheet,
            tile_width: tileset.tile_width as usize,
            tile_height: tileset.tile_height as usize,
        };
        assert(tile_map.cells() =~= sheet_tiles(grid@, sheet));
        Ok(tile_map)
    }

    /// The commands that draw the map: one sprite for each cell that shows
    /// a tile, row by row and left to right.
    pub fn render(&self) -> (commands: Vec<DrawCommand>)
        ensures
            commands@ == map_commands(
                self.cells(),
                self.cells().len() as int,
                self.tilesheet,
                self.tile_width,
                self.tile_height,
            ),
    {
        let mut commands: Vec<DrawCommand> = Vec::new();
        let mut row: usize = 0;
        while row < self.tiles.len()
            invariant
                row <= self.tiles@.len(),
                self.cells().len() == self.tiles@.len(),
                commands@ == map_commands(
                    self.cells(),
                    row as int,
                    self.tilesheet,
                    self.tile_width,
                    self.tile_height,
                ),
            decreases self.tiles.len() - row,
        {
            let cells: &Vec<Option<Tile>> = &self.tiles[row];
            let ghost done = commands@;
            let mut col: usize = 0;
            while col < cells.len()
                invariant
                    col <= cells@.len(),
                    row < self.tiles@.len(),
                    cells@ == self.cells()[row as int],
                    commands@ == done + row_commands(
                        cells@,
                        row as int,
                        col as int,
                        self.tilesheet,
                        self.tile_width,
                        self.tile_height,
                    ),
                decreases cells.len() - col,
            {
                match cells[col] {
                    Some(tile) => {
                        commands.push(
                            DrawCommand::Sprite {
                                atlas: self.tilesheet,
                                source: crate::components::Tile {
                                    x: tile.tilesheet_x,
                                    y: tile.tilesheet_y,
                                    width: tile.width,
                                    height: tile.height,
                                    atlas: self.tilesheet,
                                },
                                x: Fixed::from_product(col, self.tile_width),
                                y: Fixed::from_product(row, self.tile_height),
                            },
                        );
                    },
                    None => {},
                }
                col += 1;
                assert(commands@ =~= done + row_commands(
                    cells@,
                    row as int,
                    col as int,
                    self.tilesheet,
                    self.tile_width,
                    self.tile_height,
                ));
            }
            row += 1;
        }
        commands
    }
}

} // verus!
