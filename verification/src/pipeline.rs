//! The tile pipeline: render each level from the full-resolution source,
//! cut it into the level's grid, encode every tile, and collect the
//! descriptor — everything the run writes to disk, computed in memory.

use crate::codec::encode_jpeg;
use crate::codec::jpeg_of;
use crate::codec::resampled_of;
use crate::codec::resize_nearest;
use crate::descriptor::descriptor_xml;
use crate::descriptor::spec_descriptor;
use crate::error::DZIResult;
use crate::error::TilingError;
use crate::geometry::lemma_axis_coverage;
use crate::geometry::lemma_ceil_div_bounds;
use crate::geometry::lemma_grid_index;
use crate::geometry::lemma_tile_axis_bounds;
use crate::geometry::tile_end;
use crate::geometry::tile_start;
use crate::raster::RgbRaster;
use crate::text::decimal_digits;
use crate::text::spec_tile_file_name;
use crate::text::tile_file_name;
use crate::text::u32_to_decimal;
use crate::tiler::TileCreator;
use vstd::arithmetic::div_mod::lemma_fundamental_div_mod;
use vstd::arithmetic::div_mod::lemma_mod_bound;
use vstd::prelude::*;

verus! {

/// One encoded tile, ready to be written as `<col>_<row>.jpg`.
#[derive(Debug)]
pub struct TileImage {
    /// Grid column of the tile.
    pub col: u32,
    /// Grid row of the tile.
    pub row: u32,
    /// File name the tile is stored under: `<col>_<row>.jpg`.
    pub file_name: String,
    /// The encoded JPEG bytes.
    pub jpeg: Vec<u8>,
}

/// All tiles of one pyramid level, ready to be written into the
/// directory named after the level index.
#[derive(Debug)]
pub struct LevelTiles {
    /// The level index.
    pub level: u32,
    /// Directory name the level's tiles are stored under: the level
    /// index in decimal.
    pub dir_name: String,
    /// The encoded tiles, column by column, rows within a column.
    pub tiles: Vec<TileImage>,
}

/// The complete output of a run: every level's tiles plus the XML
/// descriptor.
#[derive(Debug)]
pub struct TileSet {
    /// One entry per level, in ascending level order.
    pub levels: Vec<LevelTiles>,
    /// The descriptor document.
    pub descriptor: String,
}

/// A byte-for-byte copy of an encoded buffer.
fn clone_bytes(v: &Vec<u8>) -> (r: Vec<u8>)
    ensures
        r@ == v@,
{
    let r = v.clone();
    proof {
        assert(r@ =~= v@);
    }
    r
}

impl TileCreator {
    /// `t` is the crop of `li` at the bounds of tile `(col, row)` of
    /// `level`.
    pub open spec fn tile_matches(
        self,
        level: int,
        li: RgbRaster,
        col: int,
        row: int,
        t: RgbRaster,
    ) -> bool {
        let ts = self.tile_size as int;
        let ov = self.tile_overlap as int;
        let x0 = tile_start(ts, ov, col);
        let y0 = tile_start(ts, ov, row);
        t.is_crop_of(
            li,
            x0,
            y0,
            tile_end(ts, ov, self.spec_level_width(level), col) - x0,
            tile_end(ts, ov, self.spec_level_height(level), row) - y0,
        )
    }

    /// `t` is the crop of `li` for flat grid index `k` (column by
    /// column, rows within a column).
    pub open spec fn tile_at_index_matches(
        self,
        level: int,
        li: RgbRaster,
        k: int,
        t: RgbRaster,
    ) -> bool {
        let rows = self.spec_rows(level);
        self.tile_matches(level, li, k / rows, k % rows, t)
    }

    /// The grid coordinates and file name of entry `k` of a level's
    /// tile list are the ones of its flat index.
    pub open spec fn tile_image_wf(self, level: int, k: int, t: TileImage) -> bool {
        let rows = self.spec_rows(level);
        &&& t.col as int == k / rows
        &&& t.row as int == k % rows
        &&& t.file_name@ == spec_tile_file_name(k / rows, k % rows)
    }

    /// The tiles of `lt` are the JPEG encodings of the grid crops
    /// (`rasters`) of the rendered raster `li` of `level`: `li` has
    /// exactly the level's computed dimensions and holds the named
    /// resample of the full-resolution source; at the full-resolution
    /// level it is the source raster itself.
    pub open spec fn level_content_matches(
        self,
        level: int,
        li: RgbRaster,
        rasters: Seq<RgbRaster>,
        lt: LevelTiles,
    ) -> bool {
        &&& li.wf()
        &&& li.width as int == self.spec_level_width(level)
        &&& li.height as int == self.spec_level_height(level)
        &&& li.data@ == resampled_of(
            self.image.data@,
            self.image.width as nat,
            self.image.height as nat,
            li.width as nat,
            li.height as nat,
        )
        &&& (level == self.levels - 1 ==> li.data@ == self.image.data@)
        &&& rasters.len() == lt.tiles@.len()
        &&& forall|k: int|
            0 <= k < rasters.len() ==> self.tile_at_index_matches(
                level,
                li,
                k,
                #[trigger] rasters[k],
            )
        &&& forall|k: int|
            0 <= k < rasters.len() ==> (#[trigger] lt.tiles@[k]).jpeg@ == jpeg_of(
                rasters[k].data@,
                rasters[k].width as nat,
                rasters[k].height as nat,
            )
    }

    /// Some rendered level raster and its grid crops explain every tile
    /// of `lt` as in [`TileCreator::level_content_matches`].
    pub open spec fn level_content_ok(self, level: int, lt: LevelTiles) -> bool {
        exists|li: RgbRaster, rasters: Seq<RgbRaster>|
            self.level_content_matches(level, li, rasters, lt)
    }

    /// A level's output carries the level index as its directory name
    /// and one correctly named tile per grid cell.
    pub open spec fn level_output_wf(self, lt: LevelTiles, level: int) -> bool {
        &&& lt.level as int == level
        &&& lt.dir_name@ == decimal_digits(level)
        &&& lt.tiles@.len() == self.spec_cols(level) * self.spec_rows(level)
        &&& forall|k: int|
            0 <= k < lt.tiles@.len() ==> self.tile_image_wf(level, k, #[trigger] lt.tiles@[k])
    }

    /// Render the raster for `level` by resampling the full-resolution
    /// source (never a coarser level) with the codec's fixed
    /// nearest-neighbour filter.  The result has exactly the level's
    /// computed dimensions and holds the named resample of the source;
    /// at the full-resolution level it is the source raster itself.
    pub fn get_level_image(&self, level: u32) -> (res: DZIResult<RgbRaster>)
        requires
            self.wf(),
            self.image.width >= 1,
            self.image.height >= 1,
        ensures
            res is Ok <==> level < self.levels,
            res is Err ==> res == Err::<RgbRaster, TilingError>(TilingError::InvalidLevel),
            res is Ok ==> {
                let li = res->Ok_0;
                &&& li.wf()
                &&& li.width as int == self.spec_level_width(level as int)
                &&& li.height as int == self.spec_level_height(level as int)
                &&& li.width >= 1
                &&& li.height >= 1
                &&& li.data@ == resampled_of(
                    self.image.data@,
                    self.image.width as nat,
                    self.image.height as nat,
                    li.width as nat,
                    li.height as nat,
                )
                &&& (level as int == self.levels - 1 ==> li.width == self.image.width && li.height
                    == self.image.height && li.data@ == self.image.data@)
            },
    {
        let (w, h) = self.get_dimensions(level)?;
        Ok(resize_nearest(&self.image, w, h))
    }

    /// Cut a rendered level raster into the level's tile grid, column by
    /// column: entry `col * rows + row` is the crop of `li` at the
    /// bounds of tile `(col, row)`.
    #[verifier::loop_isolation(false)]
    pub fn cut_tiles(&self, level: u32, li: &RgbRaster) -> (res: DZIResult<Vec<RgbRaster>>)
        requires
            self.wf(),
            self.config_ok(),
            li.wf(),
        ensures
            res is Ok <==> level < self.levels,
            res is Err ==> res == Err::<Vec<RgbRaster>, TilingError>(TilingError::InvalidLevel),
            res is Ok ==> {
                let v = res->Ok_0@;
                &&& v.len() == self.spec_cols(level as int) * self.spec_rows(level as int)
                &&& forall|k: int|
                    0 <= k < v.len() ==> self.tile_at_index_matches(
                        level as int,
                        *li,
                        k,
                        #[trigger] v[k],
                    )
            },
    {
        let (cols, rows) = self.get_tile_count(level)?;
        let mut out: Vec<RgbRaster> = Vec::new();
        let mut col: u32 = 0;
        while col < cols
            invariant
                col <= cols,
                out@.len() == col as int * rows as int,
                forall|k: int|
                    0 <= k < out@.len() ==> self.tile_at_index_matches(
                        level as int,
                        *li,
                        k,
                        #[trigger] out@[k],
                    ),
            decreases cols - col,
        {
            let mut row: u32 = 0;
            while row < rows
                invariant
                    col < cols,
                    row <= rows,
                    out@.len() == col as int * rows as int + row as int,
                    forall|k: int|
                        0 <= k < out@.len() ==> self.tile_at_index_matches(
                            level as int,
                            *li,
                            k,
                            #[trigger] out@[k],
                        ),
                decreases rows - row,
            {
                let (x0, y0, x1, y1) = self.get_tile_bounds(level, col, row).unwrap();
                let tile = li.crop(x0, y0, x1 - x0, y1 - y0);
                proof {
                    lemma_grid_index(cols as int, rows as int, col as int, row as int);
                }
                out.push(tile);
                row = row + 1;
            }
            col = col + 1;
            proof {
                assert((col - 1) * rows as int + rows as int == col as int * rows as int)
                    by (nonlinear_arith);
            }
        }
        Ok(out)
    }

    /// JPEG-encode every tile raster: on success entry `k` holds exactly
    /// the encoding of input `k`.  A codec failure aborts the whole run;
    /// it cannot occur while every tile's edges fit in 16 bits.
    pub fn encode_tiles(tiles: &Vec<RgbRaster>) -> (res: DZIResult<Vec<Vec<u8>>>)
        requires
            forall|k: int| 0 <= k < tiles@.len() ==> (#[trigger] tiles@[k]).wf(),
        ensures
            res is Err ==> res == Err::<Vec<Vec<u8>>, TilingError>(TilingError::CodecError),
            (forall|k: int|
                0 <= k < tiles@.len() ==> (#[trigger] tiles@[k]).width <= 65535
                    && tiles@[k].height <= 65535) ==> res is Ok,
            res is Ok ==> {
                let v = res->Ok_0@;
                &&& v.len() == tiles@.len()
                &&& forall|k: int|
                    0 <= k < v.len() ==> (#[trigger] v[k])@ == jpeg_of(
                        tiles@[k].data@,
                        tiles@[k].width as nat,
                        tiles@[k].height as nat,
                    )
            },
    {
        let mut out: Vec<Vec<u8>> = Vec::new();
        let mut i: usize = 0;
        while i < tiles.len()
            invariant
                i <= tiles@.len(),
                out@.len() == i,
                forall|k: int| 0 <= k < tiles@.len() ==> (#[trigger] tiles@[k]).wf(),
                forall|k: int|
                    0 <= k < out@.len() ==> (#[trigger] out@[k])@ == jpeg_of(
                        tiles@[k].data@,
                        tiles@[k].width as nat,
                        tiles@[k].height as nat,
                    ),
            decreases tiles@.len() - i,
        {
            match encode_jpeg(&tiles[i]) {
                Ok(b) => out.push(b),
                Err(_) => {
                    return Err(TilingError::CodecError);
                },
            }
            i = i + 1;
        }
        Ok(out)
    }

    /// Produce the complete output of one level: render it, cut the
    /// grid, encode every tile and attach the directory and file names.
    #[verifier::loop_isolation(false)]
    pub fn create_level(&self, level: u32) -> (res: DZIResult<LevelTiles>)
        requires
            self.wf(),
            self.config_ok(),
            self.image.width >= 1,
            self.image.height >= 1,
        ensures
            level >= self.levels ==> res == Err::<LevelTiles, TilingError>(
                TilingError::InvalidLevel,
            ),
            res is Err ==> res == Err::<LevelTiles, TilingError>(TilingError::InvalidLevel) || res
                == Err::<LevelTiles, TilingError>(TilingError::CodecError),
            level < self.levels && self.tile_size as int + 2 * self.tile_overlap as int <= 65535
                ==> res is Ok,
            res is Ok ==> level < self.levels && self.level_output_wf(res->Ok_0, level as int),
            res is Ok ==> self.level_content_ok(level as int, res->Ok_0),
    {
        let li = self.get_level_image(level)?;
        let tiles = self.cut_tiles(level, &li)?;
        let jpegs = match Self::encode_tiles(&tiles) {
            Ok(j) => j,
            Err(_) => {
                proof {
                    if self.tile_size as int + 2 * self.tile_overlap as int <= 65535 {
                        assert forall|k: int|
                            0 <= k < tiles@.len() implies (#[trigger] tiles@[k]).width <= 65535
                            && tiles@[k].height <= 65535 by {
                            lemma_tile_dims_at_index(*self, level as int, li, tiles@, k);
                        }
                        assert(false);
                    }
                }
                return Err(TilingError::CodecError);
            },
        };
        let (cols, rows) = self.get_tile_count(level).unwrap();
        // Pins the tile count to a machine word, so the flat index below
        // cannot overflow.
        let n = jpegs.len();
        let mut out: Vec<TileImage> = Vec::new();
        let mut col: u32 = 0;
        while col < cols
            invariant
                col <= cols,
                out@.len() == col as int * rows as int,
                forall|k: int|
                    0 <= k < out@.len() ==> self.tile_image_wf(
                        level as int,
                        k,
                        #[trigger] out@[k],
                    ),
                jpegs@.len() == cols as int * rows as int,
                forall|k: int|
                    0 <= k < out@.len() ==> (#[trigger] out@[k]).jpeg@ == jpegs@[k]@,
            decreases cols - col,
        {
            let mut row: u32 = 0;
            while row < rows
                invariant
                    col < cols,
                    row <= rows,
                    out@.len() == col as int * rows as int + row as int,
                    forall|k: int|
                        0 <= k < out@.len() ==> self.tile_image_wf(
                            level as int,
                            k,
                            #[trigger] out@[k],
                        ),
                    jpegs@.len() == cols as int * rows as int,
                    forall|k: int|
                        0 <= k < out@.len() ==> (#[trigger] out@[k]).jpeg@ == jpegs@[k]@,
                decreases rows - row,
            {
                proof {
                    lemma_grid_index(cols as int, rows as int, col as int, row as int);
                }
                let k: usize = col as usize * rows as usize + row as usize;
                let name = tile_file_name(col, row);
                let jpeg = clone_bytes(&jpegs[k]);
                out.push(TileImage { col, row, file_name: name, jpeg });
                row = row + 1;
            }
            col = col + 1;
            proof {
                assert((col - 1) * rows as int + rows as int == col as int * rows as int)
                    by (nonlinear_arith);
            }
        }
        let dir_name = u32_to_decimal(level);
        let lt = LevelTiles { level, dir_name, tiles: out };
        proof {
            assert(self.level_content_ok(level as int, lt)) by {
                assert(self.level_content_matches(level as int, li, tiles@, lt));
            }
        }
        Ok(lt)
    }

    /// Produce everything one run writes: the tiles of every level, in
    /// ascending level order, and the descriptor built from the
    /// configured tile size and overlap and the source's full size.
    #[verifier::loop_isolation(false)]
    pub fn create_tiles(&self) -> (res: DZIResult<TileSet>)
        requires
            self.wf(),
            self.config_ok(),
            self.image.width >= 1,
            self.image.height >= 1,
        ensures
            res is Err ==> res == Err::<TileSet, TilingError>(TilingError::CodecError),
            self.tile_size as int + 2 * self.tile_overlap as int <= 65535 ==> res is Ok,
            res is Ok ==> {
                let out = res->Ok_0;
                &&& out.levels@.len() == self.levels
                &&& forall|l: int|
                    0 <= l < out.levels@.len() ==> self.level_output_wf(
                        #[trigger] out.levels@[l],
                        l,
                    )
                &&& forall|l: int|
                    0 <= l < out.levels@.len() ==> self.level_content_ok(
                        l,
                        #[trigger] out.levels@[l],
                    )
                &&& out.descriptor@ == spec_descriptor(
                    self.tile_size as int,
                    self.tile_overlap as int,
                    self.image.width as int,
                    self.image.height as int,
                )
            },
    {
        let mut levels_out: Vec<LevelTiles> = Vec::new();
        let mut l: u32 = 0;
        while l < self.levels
            invariant
                l <= self.levels,
                levels_out@.len() == l,
                forall|j: int|
                    0 <= j < levels_out@.len() ==> self.level_output_wf(
                        #[trigger] levels_out@[j],
                        j,
                    ),
                forall|j: int|
                    0 <= j < levels_out@.len() ==> self.level_content_ok(
                        j,
                        #[trigger] levels_out@[j],
                    ),
            decreases self.levels - l,
        {
            let lt = match self.create_level(l) {
                Ok(lt) => lt,
                Err(_) => {
                    return Err(TilingError::CodecError);
                },
            };
            levels_out.push(lt);
            l = l + 1;
        }
        let descriptor = descriptor_xml(
            self.tile_size,
            self.tile_overlap,
            self.image.width,
            self.image.height,
        );
        Ok(TileSet { levels: levels_out, descriptor })
    }
}

/// Every tile of a level's grid has the dimensions of its bounds
/// rectangle: at least one pixel each way, and no more than
/// `tile_size + 2 * tile_overlap` (the nominal tile plus overlap on both
/// sides), so in particular each edge is bounded by the level's extent.
pub proof fn lemma_tile_dims_at_index(
    tc: TileCreator,
    level: int,
    li: RgbRaster,
    tiles: Seq<RgbRaster>,
    k: int,
)
    requires
        tc.wf(),
        tc.config_ok(),
        0 <= level < tc.levels,
        li.wf(),
        li.width as int == tc.spec_level_width(level),
        li.height as int == tc.spec_level_height(level),
        tiles.len() == tc.spec_cols(level) * tc.spec_rows(level),
        forall|m: int|
            0 <= m < tiles.len() ==> tc.tile_at_index_matches(level, li, m, #[trigger] tiles[m]),
        0 <= k < tiles.len(),
    ensures
        ({
            let ts = tc.tile_size as int;
            let ov = tc.tile_overlap as int;
            let rows = tc.spec_rows(level);
            let x0 = tile_start(ts, ov, k / rows);
            let y0 = tile_start(ts, ov, k % rows);
            &&& 0 <= k / rows < tc.spec_cols(level)
            &&& 0 <= k % rows < rows
            &&& li.width >= 1
            &&& li.height >= 1
            &&& tiles[k].width as int == tile_end(ts, ov, li.width as int, k / rows) - x0
            &&& tiles[k].height as int == tile_end(ts, ov, li.height as int, k % rows) - y0
            &&& 1 <= tiles[k].width as int <= ts + 2 * ov
            &&& 1 <= tiles[k].height as int <= ts + 2 * ov
        }),
{
    let ts = tc.tile_size as int;
    let ov = tc.tile_overlap as int;
    let lw = li.width as int;
    let lh = li.height as int;
    let cols = tc.spec_cols(level);
    let rows = tc.spec_rows(level);
    lemma_ceil_div_bounds(lw, ts);
    lemma_ceil_div_bounds(lh, ts);
    assert(rows >= 1 && cols >= 1) by (nonlinear_arith)
        requires 0 <= k < cols * rows && cols >= 0 && rows >= 0;
    let col = k / rows;
    let row = k % rows;
    lemma_mod_bound(k, rows);
    lemma_fundamental_div_mod(k, rows);
    if col >= cols {
        assert(rows * col >= rows * cols) by (nonlinear_arith)
            requires rows >= 1 && col >= cols;
        assert(rows * cols == cols * rows) by (nonlinear_arith);
        assert(false);
    }
    if col < 0 {
        assert(rows * col <= -rows) by (nonlinear_arith)
            requires rows >= 1 && col <= -1;
        assert(false);
    }
    if lw == 0 {
        lemma_ceil_div_bounds(0, ts);
        assert(false);
    }
    if lh == 0 {
        lemma_ceil_div_bounds(0, ts);
        assert(false);
    }
    lemma_tile_axis_bounds(ts, ov, lw, col);
    lemma_tile_axis_bounds(ts, ov, lh, row);
    assert(tc.tile_at_index_matches(level, li, k, tiles[k]));
    let x0 = tile_start(ts, ov, col);
    let y0 = tile_start(ts, ov, row);
    let x1 = tile_end(ts, ov, lw, col);
    let y1 = tile_end(ts, ov, lh, row);
    assert(tiles[k].is_crop_of(li, x0, y0, x1 - x0, y1 - y0));
}

/// The other half of the stitching law: every byte a tile holds is the
/// level raster's byte at the tile's offset plus the position within the
/// tile.  So when the tiles are laid back at their offsets, tiles that
/// overlap agree on every shared pixel, and nothing but the raster's own
/// bytes is ever written.
pub proof fn lemma_tile_pixels_match_level(
    tc: TileCreator,
    level: int,
    li: RgbRaster,
    tiles: Seq<RgbRaster>,
    k: int,
    i: int,
    j: int,
    c: int,
)
    requires
        tc.wf(),
        tc.config_ok(),
        0 <= level < tc.levels,
        li.wf(),
        li.width as int == tc.spec_level_width(level),
        li.height as int == tc.spec_level_height(level),
        tiles.len() == tc.spec_cols(level) * tc.spec_rows(level),
        forall|m: int|
            0 <= m < tiles.len() ==> tc.tile_at_index_matches(level, li, m, #[trigger] tiles[m]),
        0 <= k < tiles.len(),
        0 <= i < tiles[k].width,
        0 <= j < tiles[k].height,
        0 <= c < 3,
    ensures
        ({
            let ts = tc.tile_size as int;
            let ov = tc.tile_overlap as int;
            let rows = tc.spec_rows(level);
            let x0 = tile_start(ts, ov, k / rows);
            let y0 = tile_start(ts, ov, k % rows);
            &&& tiles[k].width == tile_end(ts, ov, li.width as int, k / rows) - x0
            &&& tiles[k].height == tile_end(ts, ov, li.height as int, k % rows) - y0
            &&& 0 <= x0 + i < li.width
            &&& 0 <= y0 + j < li.height
            &&& tiles[k].pixel_byte(i, j, c) == li.pixel_byte(x0 + i, y0 + j, c)
        }),
{
    let ts = tc.tile_size as int;
    let ov = tc.tile_overlap as int;
    let lw = li.width as int;
    let lh = li.height as int;
    let rows = tc.spec_rows(level);
    lemma_tile_dims_at_index(tc, level, li, tiles, k);
    let col = k / rows;
    let row = k % rows;
    lemma_tile_axis_bounds(ts, ov, lw, col);
    lemma_tile_axis_bounds(ts, ov, lh, row);
    assert(tc.tile_at_index_matches(level, li, k, tiles[k]));
    let x0 = tile_start(ts, ov, col);
    let y0 = tile_start(ts, ov, row);
    let x1 = tile_end(ts, ov, lw, col);
    let y1 = tile_end(ts, ov, lh, row);
    assert(tiles[k].is_crop_of(li, x0, y0, x1 - x0, y1 - y0));
    assert(tiles[k].pixel_byte(i, j, c) == li.pixel_byte(x0 + i, y0 + j, c));
}

/// The stitching law: lay every tile of a level at its computed offset
/// and the level's raster is reproduced exactly.  For any pixel of the
/// raster, the tile whose grid cell contains it (column `px / ts`, row
/// `py / ts`) covers that pixel, and the byte the tile holds at the
/// corresponding position is the raster's own byte — so overlapping
/// tiles agree everywhere and together they write back the raster.
/// At the full-resolution level the rendered raster is the source
/// itself, so the tiles reproduce the source.
pub proof fn lemma_stitch_reproduces_level(
    tc: TileCreator,
    level: int,
    li: RgbRaster,
    tiles: Seq<RgbRaster>,
    px: int,
    py: int,
)
    requires
        tc.wf(),
        tc.config_ok(),
        0 <= level < tc.levels,
        li.wf(),
        li.width as int == tc.spec_level_width(level),
        li.height as int == tc.spec_level_height(level),
        tiles.len() == tc.spec_cols(level) * tc.spec_rows(level),
        forall|k: int|
            0 <= k < tiles.len() ==> tc.tile_at_index_matches(level, li, k, #[trigger] tiles[k]),
        0 <= px < li.width,
        0 <= py < li.height,
    ensures
        ({
            let ts = tc.tile_size as int;
            let ov = tc.tile_overlap as int;
            let col = px / ts;
            let row = py / ts;
            let k = col * tc.spec_rows(level) + row;
            let x0 = tile_start(ts, ov, col);
            let y0 = tile_start(ts, ov, row);
            &&& 0 <= col < tc.spec_cols(level)
            &&& 0 <= row < tc.spec_rows(level)
            &&& 0 <= k < tiles.len()
            &&& x0 <= px < tile_end(ts, ov, li.width as int, col)
            &&& y0 <= py < tile_end(ts, ov, li.height as int, row)
            &&& forall|c: int|
                0 <= c < 3 ==> #[trigger] tiles[k].pixel_byte(px - x0, py - y0, c)
                    == li.pixel_byte(px, py, c)
        }),
{
    let ts = tc.tile_size as int;
    let ov = tc.tile_overlap as int;
    let lw = li.width as int;
    let lh = li.height as int;
    let col = px / ts;
    let row = py / ts;
    let rows = tc.spec_rows(level);
    let cols = tc.spec_cols(level);
    lemma_axis_coverage(ts, ov, lw, px);
    lemma_axis_coverage(ts, ov, lh, py);
    lemma_grid_index(cols, rows, col, row);
    let k = col * rows + row;
    assert(tc.tile_at_index_matches(level, li, k, tiles[k]));
    let x0 = tile_start(ts, ov, col);
    let y0 = tile_start(ts, ov, row);
    let x1 = tile_end(ts, ov, lw, col);
    let y1 = tile_end(ts, ov, lh, row);
    assert(tiles[k].is_crop_of(li, x0, y0, x1 - x0, y1 - y0));
    assert(forall|c: int|
        0 <= c < 3 ==> #[trigger] tiles[k].pixel_byte(px - x0, py - y0, c) == li.pixel_byte(
            px,
            py,
            c,
        ));
}

} // verus!
