//! Tile maps: what a map asset provides, how a tile index maps to a
//! rectangle of the atlas, and how a map's first layer becomes entities.
//!
//! A cell of the grid holds a tile index, zero for an empty cell. Index `i`
//! names the atlas rectangle in column `(i - 1) mod n` and row
//! `(i - 1) div n`, where `n` is the number of tiles in one row of the atlas.

use vstd::prelude::*;
use vstd::string::*;
use crate::components::{AtlasId, RigidBodyDescriptor, Tile, Transform};
use crate::fixed::Fixed;
use crate::world::{EntityBuilder, World};

verus! {

/// The image that a tileset cuts its tiles from.
#[derive(Debug, PartialEq, Eq)]
pub struct TilesetImage {
    /// Where the image is found, relative to the assets.
    pub source: String,
    /// Width in pixels.
    pub width: u32,
    /// Height in pixels.
    pub height: u32,
}

/// What a tileset says of one of its tiles.
#[derive(Debug, PartialEq, Eq)]
pub struct TileInfo {
    pub id: u32,
    /// The shape that the tileset gives the tile, if it names one.
    pub shape: Option<String>,
}

/// A tileset of a map.
#[derive(Debug, PartialEq, Eq)]
pub struct Tileset {
    /// The first tile index that belongs to this tileset.
    pub first_gid: u32,
    /// Width of a tile in pixels.
    pub tile_width: u32,
    /// Height of a tile in pixels.
    pub tile_height: u32,
    pub images: Vec<TilesetImage>,
    pub tiles: Vec<TileInfo>,
}

/// A layer of a map: rows of tile indices.
#[derive(Debug, PartialEq, Eq)]
pub struct Layer {
    pub tiles: Vec<Vec<u32>>,
}

/// A tile map as the asset file describes it.
#[derive(Debug, PartialEq, Eq)]
pub struct MapAsset {
    pub tilesets: Vec<Tileset>,
    pub layers: Vec<Layer>,
}

/// Why a map could not be loaded.
#[derive(Clone, Copy, Debug, PartialEq, Eq, Structural)]
pub enum LoadError {
    /// No tileset of the map covers tile index 1.
    NoTileset,
    /// The tileset names no atlas image.
    NoImage,
    /// The tileset's tiles have no width.
    ZeroTileWidth,
    /// The map has no layer.
    NoLayer,
    /// The atlas is narrower than one tile, and the layer is not empty.
    AtlasTooNarrow,
    /// The registry cannot take one entity per tile.
    RegistryFull,
}

/// The measures of a tile sheet that place a tile in its atlas.
#[derive(Clone, Copy, Debug, PartialEq, Eq, Structural)]
pub struct Sheet {
    pub tile_width: u32,
    pub tile_height: u32,
    /// The number of tiles in one row of the atlas.
    pub per_row: u32,
    pub atlas: AtlasId,
}

/// The collider of a tile whose shape is a rectangle: a static box of one
/// tile, with restitution 0.3 and friction 0.6.
pub open spec fn spec_tile_box() -> RigidBodyDescriptor {
    RigidBodyDescriptor {
        half_width: Fixed { micros: 500_000 },
        half_height: Fixed { micros: 500_000 },
        density: None,
        restitution: Fixed { micros: 300_000 },
        friction: Fixed { micros: 600_000 },
    }
}

/// The collider of a tile whose shape is a rectangle.
pub fn tile_box() -> (body: RigidBodyDescriptor)
    ensures
        body == spec_tile_box(),
{
    RigidBodyDescriptor {
        half_width: Fixed { micros: 500_000 },
        half_height: Fixed { micros: 500_000 },
        density: None,
        restitution: Fixed { micros: 300_000 },
        friction: Fixed { micros: 600_000 },
    }
}

/// Among the first `n` tilesets, the index of the one that tile index `gid`
/// belongs to: the one with the greatest first index not above `gid`, and
/// of several such the earliest.
pub open spec fn best_tileset(tilesets: Seq<Tileset>, gid: u32, n: int) -> Option<int>
    decreases n,
{
    if n <= 0 {
        None
    } else {
        let before = best_tileset(tilesets, gid, n - 1);
        let candidate = tilesets[n - 1];
        if candidate.first_gid <= gid && (before.is_none() || tilesets[before.unwrap()].first_gid
            < candidate.first_gid) {
            Some(n - 1)
        } else {
            before
        }
    }
}

/// The tileset that tile index `gid` belongs to, by its position in
/// `tilesets`: the tileset with the greatest first index that is not above
/// `gid`, and of several such the earliest. `None` where every tileset
/// starts above `gid`.
pub fn tileset_by_gid(tilesets: &Vec<Tileset>, gid: u32) -> (found: Option<usize>)
    ensures
        match found {
            Some(k) => {
                &&& best_tileset(tilesets@, gid, tilesets@.len() as int) == Some(k as int)
                &&& k < tilesets@.len()
                &&& tilesets@[k as int].first_gid <= gid
                &&& forall|j: int|
                    0 <= j < tilesets@.len() && (#[trigger] tilesets@[j]).first_gid <= gid
                        ==> tilesets@[j].first_gid < tilesets@[k as int].first_gid || (
                    tilesets@[j].first_gid == tilesets@[k as int].first_gid && k <= j)
            },
            None => {
                &&& best_tileset(tilesets@, gid, tilesets@.len() as int).is_none()
                &&& forall|j: int|
                    0 <= j < tilesets@.len() ==> (#[trigger] tilesets@[j]).first_gid > gid
            },
        },
{
    proof {
        lemma_best_tileset(tilesets@, gid, tilesets@.len() as int);
    }
    let mut found: Option<usize> = None;
    let mut n: usize = 0;
    while n < tilesets.len()
        invariant
            n <= tilesets@.len(),
            match found {
                Some(k) => best_tileset(tilesets@, gid, n as int) == Some(k as int) && k < n,
                None => best_tileset(tilesets@, gid, n as int).is_none(),
            },
        decreases tilesets.len() - n,
    {
        let first_gid: u32 = tilesets[n].first_gid;
        if first_gid <= gid {
            let better: bool = match found {
                Some(k) => tilesets[k].first_gid < first_gid,
                None => true,
            };
            if better {
                found = Some(n);
            }
        }
        n += 1;
    }
    found
}

/// The tileset that [`best_tileset`] picks covers `gid`, and no tileset
/// that covers `gid` starts above it nor, starting with it, stands earlier.
pub proof fn lemma_best_tileset(tilesets: Seq<Tileset>, gid: u32, n: int)
    requires
        0 <= n <= tilesets.len(),
    ensures
        match best_tileset(tilesets, gid, n) {
            Some(k) => {
                &&& 0 <= k < n
                &&& tilesets[k].first_gid <= gid
                &&& forall|j: int|
                    0 <= j < n && (#[trigger] tilesets[j]).first_gid <= gid ==> tilesets[j].first_gid
                        < tilesets[k].first_gid || (tilesets[j].first_gid == tilesets[k].first_gid
                        && k <= j)
            },
            None => forall|j: int| 0 <= j < n ==> (#[trigger] tilesets[j]).first_gid > gid,
        },
    decreases n,
{
    if n > 0 {
        lemma_best_tileset(tilesets, gid, n - 1);
    }
}

/// Where tile index `index` lies in its atlas, in pixels from the top left.
pub open spec fn spec_atlas_offset(
    index: u32,
    tiles_per_row: u32,
    tile_width: u32,
    tile_height: u32,
) -> (int, int) {
    (
        ((index - 1) % (tiles_per_row as int)) * tile_width,
        ((index - 1) / (tiles_per_row as int)) * tile_height,
    )
}

/// Where the non-empty tile index `index` lies in an atlas with
/// `tiles_per_row` tiles in a row.
pub fn atlas_offset(index: u32, tiles_per_row: u32, tile_width: u32, tile_height: u32) -> (offset: (
    u64,
    u64,
))
    requires
        index != 0,
        tiles_per_row != 0,
    ensures
        offset.0 == ((index - 1) % (tiles_per_row as int)) * tile_width,
        offset.1 == ((index - 1) / (tiles_per_row as int)) * tile_height,
        (offset.0 as int, offset.1 as int) == spec_atlas_offset(
            index,
            tiles_per_row,
            tile_width,
            tile_height,
        ),
{
    let column: u32 = (index - 1) % tiles_per_row;
    let row: u32 = (index - 1) / tiles_per_row;
    assert(column * tile_width <= 0xffff_ffff * 0xffff_ffff) by (nonlinear_arith)
        requires
            0 <= column <= 0xffff_ffff,
            0 <= tile_width <= 0xffff_ffff,
    ;
    assert(row * tile_height <= 0xffff_ffff * 0xffff_ffff) by (nonlinear_arith)
        requires
            0 <= row <= 0xffff_ffff,
            0 <= tile_height <= 0xffff_ffff,
    ;
    ((column as u64) * (tile_width as u64), (row as u64) * (tile_height as u64))
}

/// Whether the first `n` tiles hold none with id `index`.
pub open spec fn none_with_id(tiles: Seq<TileInfo>, index: u32, n: int) -> bool {
    forall|j: int| 0 <= j < n ==> (#[trigger] tiles[j]).id != index
}

/// Whether the tileset gives tile index `index` a box collider: the first
/// of its tiles with that id has the shape `rect`.
pub open spec fn is_box_tile(tiles: Seq<TileInfo>, index: u32) -> bool {
    exists|k: int|
        0 <= k < tiles.len() && none_with_id(tiles, index, k) && (#[trigger] tiles[k]).id == index
            && tiles[k].shape.is_some() && tiles[k].shape.unwrap()@ == "rect"@
}

/// Whether the tileset gives tile index `index` a box collider.
pub fn has_box(tiles: &Vec<TileInfo>, index: u32) -> (found: bool)
    ensures
        found == is_box_tile(tiles@, index),
{
    let mut k: usize = 0;
    while k < tiles.len()
        invariant
            k <= tiles@.len(),
            none_with_id(tiles@, index, k as int),
        decreases tiles.len() - k,
    {
        if tiles[k].id == index {
            let found: bool = match &tiles[k].shape {
                Some(shape) => {
                    let rect: String = String::from_str("rect");
                    shape.eq(&rect)
                },
                None => false,
            };
            proof {
                if found {
                    assert(tiles@[k as int].id == index);
                } else {
                    assert forall|j: int|
                        0 <= j < tiles@.len() && none_with_id(tiles@, index, j) && (
                        #[trigger] tiles@[j]).id == index implies !(tiles@[j].shape.is_some()
                        && tiles@[j].shape.unwrap()@ == "rect"@) by {
                        if j < k {
                            assert(tiles@[j].id != index);
                        } else if j > k {
                            assert(tiles@[k as int].id != index);
                        }
                    }
                }
            }
            return found;
        }
        k += 1;
    }
    false
}

/// What the entity of the non-empty cell in column `col` and row `row`
/// starts with: its place in the grid, its rectangle of the atlas, and a
/// box collider where the tileset asks for one.
pub open spec fn cell_builder(
    col: int,
    row: int,
    index: u32,
    sheet: Sheet,
    tiles: Seq<TileInfo>,
) -> EntityBuilder {
    let offset = spec_atlas_offset(index, sheet.per_row, sheet.tile_width, sheet.tile_height);
    EntityBuilder {
        transform: Some(Transform { x: Fixed::units(col), y: Fixed::units(row) }),
        rect: None,
        tile: Some(
            Tile {
                x: offset.0 as u64,
                y: offset.1 as u64,
                width: sheet.tile_width as u64,
                height: sheet.tile_height as u64,
                atlas: sheet.atlas,
            },
        ),
        player: None,
        body: if is_box_tile(tiles, index) {
            Some(spec_tile_box())
        } else {
            None
        },
    }
}

/// The builders for the non-empty cells among the first `n` of row `row`,
/// left to right.
pub open spec fn row_builders(
    cells: Seq<u32>,
    row: int,
    n: int,
    sheet: Sheet,
    tiles: Seq<TileInfo>,
) -> Seq<EntityBuilder>
    decreases n,
{
    if n <= 0 {
        Seq::empty()
    } else {
        let before = row_builders(cells, row, n - 1, sheet, tiles);
        if cells[n - 1] != 0 {
            before.push(cell_builder(n - 1, row, cells[n - 1], sheet, tiles))
        } else {
            before
        }
    }
}

/// The builders for the non-empty cells of the first `n` rows, row by row.
pub open spec fn grid_builders(
    grid: Seq<Vec<u32>>,
    n: int,
    sheet: Sheet,
    tiles: Seq<TileInfo>,
) -> Seq<EntityBuilder>
    decreases n,
{
    if n <= 0 {
        Seq::empty()
    } else {
        grid_builders(grid, n - 1, sheet, tiles) + row_builders(
            grid[n - 1]@,
            n - 1,
            grid[n - 1]@.len() as int,
            sheet,
            tiles,
        )
    }
}

/// Every builder of a row comes from a non-empty cell of that row, and
/// every non-empty cell of the row has its builder; empty cells have none.
pub proof fn lemma_row_builders(
    cells: Seq<u32>,
    row: int,
    n: int,
    sheet: Sheet,
    tiles: Seq<TileInfo>,
)
    requires
        0 <= n <= cells.len(),
    ensures
        ({
            let builders = row_builders(cells, row, n, sheet, tiles);
            &&& builders.len() <= n
            &&& forall|k: int|
                0 <= k < builders.len() ==> exists|col: int|
                    0 <= col < n && cells[col] != 0 && #[trigger] builders[k] == cell_builder(
                        col,
                        row,
                        cells[col],
                        sheet,
                        tiles,
                    )
            &&& forall|col: int|
                0 <= col < n && cells[col] != 0 ==> builders.contains(
                    #[trigger] cell_builder(col, row, cells[col], sheet, tiles),
                )
        }),
    decreases n,
{
    let builders = row_builders(cells, row, n, sheet, tiles);
    if n > 0 {
        lemma_row_builders(cells, row, n - 1, sheet, tiles);
        let before = row_builders(cells, row, n - 1, sheet, tiles);
        if cells[n - 1] != 0 {
            let last = cell_builder(n - 1, row, cells[n - 1], sheet, tiles);
            assert(builders == before.push(last));
            assert(builders[before.len() as int] == last);
            assert forall|k: int| 0 <= k < builders.len() implies exists|col: int|
                0 <= col < n && cells[col] != 0 && #[trigger] builders[k] == cell_builder(
                    col,
                    row,
                    cells[col],
                    sheet,
                    tiles,
                ) by {
                if k < before.len() {
                    let col = choose|col: int|
                        0 <= col < n - 1 && cells[col] != 0 && before[k] == cell_builder(
                            col,
                            row,
                            cells[col],
                            sheet,
                            tiles,
                        );
                    assert(builders[k] == cell_builder(col, row, cells[col], sheet, tiles));
                } else {
                    assert(builders[k] == cell_builder(n - 1, row, cells[n - 1], sheet, tiles));
                }
            }
            assert forall|col: int| 0 <= col < n && cells[col] != 0 implies builders.contains(
                #[trigger] cell_builder(col, row, cells[col], sheet, tiles),
            ) by {
                if col < n - 1 {
                    let wanted = cell_builder(col, row, cells[col], sheet, tiles);
                    assert(before.contains(wanted));
                    let k = choose|k: int| 0 <= k < before.len() && before[k] == wanted;
                    assert(builders[k] == wanted);
                }
            }
        } else {
            assert forall|k: int| 0 <= k < builders.len() implies exists|col: int|
                0 <= col < n && cells[col] != 0 && #[trigger] builders[k] == cell_builder(
                    col,
                    row,
                    cells[col],
                    sheet,
                    tiles,
                ) by {
                let col = choose|col: int|
                    0 <= col < n - 1 && cells[col] != 0 && before[k] == cell_builder(
                        col,
                        row,
                        cells[col],
                        sheet,
                        tiles,
                    );
                assert(builders[k] == cell_builder(col, row, cells[col], sheet, tiles));
            }
        }
    }
}

/// Every builder of a grid comes from a non-empty cell, and every
/// non-empty cell has its builder; a grid of empty cells has none.
pub proof fn lemma_grid_builders(
    grid: Seq<Vec<u32>>,
    n: int,
    sheet: Sheet,
    tiles: Seq<TileInfo>,
)
    requires
        0 <= n <= grid.len(),
    ensures
        ({
            let builders = grid_builders(grid, n, sheet, tiles);
            &&& forall|k: int|
                0 <= k < builders.len() ==> exists|row: int, col: int|
                    0 <= row < n && 0 <= col < grid[row]@.len() && grid[row]@[col] != 0
                        && #[trigger] builders[k] == cell_builder(
                        col,
                        row,
                        grid[row]@[col],
                        sheet,
                        tiles,
                    )
            &&& forall|row: int, col: int|
                0 <= row < n && 0 <= col < grid[row]@.len() && grid[row]@[col] != 0
                    ==> builders.contains(
                    #[trigger] cell_builder(col, row, grid[row]@[col], sheet, tiles),
                )
            &&& !has_tiles(grid.subrange(0, n)) ==> builders.len() == 0
        }),
    decreases n,
{
    let builders = grid_builders(grid, n, sheet, tiles);
    if n > 0 {
        lemma_grid_builders(grid, n - 1, sheet, tiles);
        let before = grid_builders(grid, n - 1, sheet, tiles);
        let cells = grid[n - 1]@;
        let here = row_builders(cells, n - 1, cells.len() as int, sheet, tiles);
        lemma_row_builders(cells, n - 1, cells.len() as int, sheet, tiles);
        assert(builders == before + here);
        assert forall|k: int| 0 <= k < builders.len() implies exists|row: int, col: int|
            0 <= row < n && 0 <= col < grid[row]@.len() && grid[row]@[col] != 0
                && #[trigger] builders[k] == cell_builder(
                col,
                row,
                grid[row]@[col],
                sheet,
                tiles,
            ) by {
            if k < before.len() {
                assert(builders[k] == before[k]);
                let (row, col) = choose|row: int, col: int|
                    0 <= row < n - 1 && 0 <= col < grid[row]@.len() && grid[row]@[col] != 0
                        && before[k] == cell_builder(col, row, grid[row]@[col], sheet, tiles);
                assert(builders[k] == cell_builder(col, row, grid[row]@[col], sheet, tiles));
            } else {
                let j = k - before.len();
                assert(builders[k] == here[j]);
                let col = choose|col: int|
                    0 <= col < cells.len() && cells[col] != 0 && here[j] == cell_builder(
                        col,
                        n - 1,
                        cells[col],
                        sheet,
                        tiles,
                    );
                assert(builders[k] == cell_builder(
                    col,
                    n - 1,
                    grid[n - 1]@[col],
                    sheet,
                    tiles,
                ));
            }
        }
        assert forall|row: int, col: int|
            0 <= row < n && 0 <= col < grid[row]@.len() && grid[row]@[col]
                != 0 implies builders.contains(
            #[trigger] cell_builder(col, row, grid[row]@[col], sheet, tiles),
        ) by {
            let wanted = cell_builder(col, row, grid[row]@[col], sheet, tiles);
            if row < n - 1 {
                assert(before.contains(wanted));
                let k = choose|k: int| 0 <= k < before.len() && before[k] == wanted;
                assert(builders[k] == wanted);
            } else {
                assert(here.contains(wanted));
                let k = choose|k: int| 0 <= k < here.len() && here[k] == wanted;
                assert(builders[before.len() + k] == wanted);
            }
        }
        if !has_tiles(grid.subrange(0, n)) {
            if builders.len() > 0 {
                let (row, col) = choose|row: int, col: int|
                    0 <= row < n && 0 <= col < grid[row]@.len() && grid[row]@[col] != 0
                        && #[trigger] builders[0] == cell_builder(
                        col,
                        row,
                        grid[row]@[col],
                        sheet,
                        tiles,
                    );
                assert(grid.subrange(0, n)[row]@[col] != 0);
            }
        }
    }
}

/// Whether some cell of the grid is not empty.
pub open spec fn has_tiles(grid: Seq<Vec<u32>>) -> bool {
    exists|row: int, col: int|
        0 <= row < grid.len() && 0 <= col < grid[row]@.len() && #[trigger] grid[row]@[col] != 0
}

/// The tile sheet of a tileset that has an image and tiles with a width.
pub open spec fn sheet_of(tileset: Tileset, atlas: AtlasId) -> Sheet {
    Sheet {
        tile_width: tileset.tile_width,
        tile_height: tileset.tile_height,
        per_row: (tileset.images@[0].width as int / tileset.tile_width as int) as u32,
        atlas,
    }
}

/// What is wrong with a map, if anything, before the registry is asked:
/// the first of the errors that applies.
pub open spec fn map_error(map: MapAsset) -> Option<LoadError> {
    match best_tileset(map.tilesets@, 1, map.tilesets@.len() as int) {
        None => Some(LoadError::NoTileset),
        Some(k) => {
            let tileset = map.tilesets@[k];
            if tileset.images@.len() == 0 {
                Some(LoadError::NoImage)
            } else if tileset.tile_width == 0 {
                Some(LoadError::ZeroTileWidth)
            } else if map.layers@.len() == 0 {
                Some(LoadError::NoLayer)
            } else if tileset.images@[0].width as int / tileset.tile_width as int == 0
                && has_tiles(map.layers@[0].tiles@) {
                Some(LoadError::AtlasTooNarrow)
            } else {
                None
            }
        },
    }
}

/// The builders for the tile entities of a map without error: one for each
/// non-empty cell of the first layer, row by row, with the tileset that
/// covers tile index 1.
pub open spec fn map_builders(map: MapAsset, atlas: AtlasId) -> Seq<EntityBuilder> {
    let k = best_tileset(map.tilesets@, 1, map.tilesets@.len() as int).unwrap();
    let tileset = map.tilesets@[k];
    let grid = map.layers@[0].tiles@;
    grid_builders(grid, grid.len() as int, sheet_of(tileset, atlas), tileset.tiles@)
}

/// The builders for the tile entities of `map`, or what is wrong with it.
#[verifier::loop_isolation(false)]
pub fn tile_builders(map: &MapAsset, atlas: AtlasId) -> (result: Result<
    Vec<EntityBuilder>,
    LoadError,
>)
    ensures
        match result {
            Ok(builders) => map_error(*map).is_none() && builders@ == map_builders(*map, atlas),
            Err(error) => map_error(*map) == Some(error),
        },
{
    let k: usize = match tileset_by_gid(&map.tilesets, 1) {
        Some(k) => k,
        None => {
            return Err(LoadError::NoTileset);
        },
    };
    let tileset: &Tileset = &map.tilesets[k];
    if tileset.images.len() == 0 {
        return Err(LoadError::NoImage);
    }
    if tileset.tile_width == 0 {
        return Err(LoadError::ZeroTileWidth);
    }
    if map.layers.len() == 0 {
        return Err(LoadError::NoLayer);
    }
    let sheet = Sheet {
        tile_width: tileset.tile_width,
        tile_height: tileset.tile_height,
        per_row: tileset.images[0].width / tileset.tile_width,
        atlas,
    };
    let grid: &Vec<Vec<u32>> = &map.layers[0].tiles;
    let mut builders: Vec<EntityBuilder> = Vec::new();
    let mut row: usize = 0;
    while row < grid.len()
        invariant
            row <= grid@.len(),
            sheet == sheet_of(*tileset, atlas),
            builders@ == grid_builders(grid@, row as int, sheet, tileset.tiles@),
            sheet.per_row == 0 ==> forall|r: int, c: int|
                0 <= r < row && 0 <= c < grid@[r]@.len() ==> #[trigger] grid@[r]@[c] == 0,
        decreases grid.len() - row,
    {
        let cells: &Vec<u32> = &grid[row];
        let ghost done = builders@;
        let mut col: usize = 0;
        while col < cells.len()
            invariant
                col <= cells@.len(),
                row < grid@.len(),
                cells@ == grid@[row as int]@,
                builders@ == done + row_builders(cells@, row as int, col as int, sheet, tileset.tiles@),
                sheet.per_row == 0 ==> forall|c: int| 0 <= c < col ==> #[trigger] cells@[c] == 0,
            decreases cells.len() - col,
        {
            let index: u32 = cells[col];
            if index != 0 {
                if sheet.per_row == 0 {
                    assert(grid@[row as int]@[col as int] != 0);
                    assert(has_tiles(grid@));
                    return Err(LoadError::AtlasTooNarrow);
                }
                let offset: (u64, u64) = atlas_offset(
                    index,
                    sheet.per_row,
                    sheet.tile_width,
                    sheet.tile_height,
                );
                let body: Option<RigidBodyDescriptor> = if has_box(&tileset.tiles, index) {
                    Some(tile_box())
                } else {
                    None
                };
                let builder = EntityBuilder {
                    transform: Some(
                        Transform { x: Fixed::from_index(col), y: Fixed::from_index(row) },
                    ),
                    rect: None,
                    tile: Some(
                        Tile {
                            x: offset.0,
                            y: offset.1,
                            width: sheet.tile_width as u64,
                            height: sheet.tile_height as u64,
                            atlas: sheet.atlas,
                        },
                    ),
                    player: None,
                    body,
                };
                assert(builder == cell_builder(
                    col as int,
                    row as int,
                    index,
                    sheet,
                    tileset.tiles@,
                ));
                builders.push(builder);
            }
            col += 1;
            assert(builders@ =~= done + row_builders(
                cells@,
                row as int,
                col as int,
                sheet,
                tileset.tiles@,
            ));
        }
        row += 1;
    }
    Ok(builders)
}

/// Creates one entity for each non-empty cell of the first layer of `map`,
/// row by row: at its place in the grid, with its rectangle of atlas
/// `atlas`, and with a box collider where the tileset asks for one.
/// Returns the number of entities created. On an error the world is as it
/// was.
pub fn load_tiles_into_world(map: &MapAsset, atlas: AtlasId, world: &mut World) -> (result: Result<
    usize,
    LoadError,
>)
    requires
        old(world)@.wf(),
    ensures
        final(world)@.wf(),
        match result {
            Ok(count) => {
                &&& map_error(*map).is_none()
                &&& old(world)@.slots() + map_builders(*map, atlas).len() <= old(world)@.limit
                &&& count == map_builders(*map, atlas).len()
                &&& final(world)@ == old(world)@.spawn_all(map_builders(*map, atlas))
            },
            Err(error) => {
                &&& final(world)@ == old(world)@
                &&& match map_error(*map) {
                    Some(reason) => error == reason,
                    None => error == LoadError::RegistryFull && old(world)@.slots() + map_builders(
                        *map,
                        atlas,
                    ).len() > old(world)@.limit,
                }
            },
        },
{
    let builders: Vec<EntityBuilder> = match tile_builders(map, atlas) {
        Ok(builders) => builders,
        Err(error) => {
            return Err(error);
        },
    };
    match world.create_all(&builders) {
        Some(_) => Ok(builders.len()),
        None => Err(LoadError::RegistryFull),
    }
}

} // verus!
