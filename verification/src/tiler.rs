//! The tile creator: holds the decoded source and the configuration, and
//! derives the pyramid geometry with exact integer arithmetic.

use crate::error::DZIResult;
use crate::error::TilingError;
use crate::geometry::ceil_div;
use crate::geometry::lemma_ceil_div_bounds;
use crate::geometry::lemma_col_start_in_range;
use crate::geometry::lemma_log2_ceil_bounds;
use crate::geometry::lemma_log2_ceil_unique;
use crate::geometry::lemma_pow2_word_bounds;
use crate::geometry::lemma_tile_axis_bounds;
use crate::geometry::level_extent;
use crate::geometry::log2_ceil;
use crate::geometry::pow2_u64;
use crate::geometry::spec_levels;
use crate::geometry::tile_end;
use crate::geometry::tile_start;
use crate::raster::RgbRaster;
use vstd::arithmetic::power2::lemma2_to64;
use vstd::arithmetic::power2::lemma_pow2_strictly_increases;
use vstd::arithmetic::power2::pow2;
use vstd::prelude::*;
use vstd::slice::slice_to_vec;
use vstd::string::StringExecFns;

verus! {

/// For source extents that fit in 32 bits the level count stays in
/// `[1, 33]`.
pub proof fn lemma_levels_range(width: int, height: int)
    requires
        0 <= width < 0x1_0000_0000,
        0 <= height < 0x1_0000_0000,
    ensures
        1 <= spec_levels(width, height) <= 33,
{
    let m = if width >= height {
        width
    } else {
        height
    };
    let k = log2_ceil(m);
    lemma_log2_ceil_bounds(m);
    if k > 32 {
        if k - 1 > 32 {
            lemma_pow2_strictly_increases(32, (k - 1) as nat);
        }
        lemma2_to64();
        assert(pow2((k - 1) as nat) >= pow2(32));
        assert(false);
    }
}

/// A tile creator: this struct and its associated functions implement the
/// DZI tiler.
#[derive(Debug)]
pub struct TileCreator {
    /// Path of the destination directory where tiles are stored.
    pub dest_path: String,
    /// Path of the `.dzi` descriptor file to be created.
    pub dzi_file_path: String,
    /// The decoded source image.
    pub image: RgbRaster,
    /// Size of individual tiles in pixels.
    pub tile_size: u32,
    /// Number of pixels neighbouring tiles overlap.
    pub tile_overlap: u32,
    /// Total number of levels of tiles.
    pub levels: u32,
}

impl TileCreator {
    /// The raster is well-formed and `levels` matches the source size.
    pub open spec fn wf(self) -> bool {
        &&& self.image.wf()
        &&& self.levels as int == spec_levels(self.image.width as int, self.image.height as int)
    }

    /// The configuration the tile grid needs: a positive tile size, and
    /// an overlap no larger than it (a larger one would push a tile's
    /// start past the left edge of its grid cell).
    pub open spec fn config_ok(self) -> bool {
        &&& self.tile_size >= 1
        &&& self.tile_overlap <= self.tile_size
    }

    /// Halving steps between `level` and the full-resolution level.
    pub open spec fn level_shift(self, level: int) -> nat {
        (self.levels - 1 - level) as nat
    }

    /// Width of the raster at `level`.
    pub open spec fn spec_level_width(self, level: int) -> int {
        level_extent(self.image.width as int, self.level_shift(level))
    }

    /// Height of the raster at `level`.
    pub open spec fn spec_level_height(self, level: int) -> int {
        level_extent(self.image.height as int, self.level_shift(level))
    }

    /// Number of tile columns at `level`.
    pub open spec fn spec_cols(self, level: int) -> int {
        ceil_div(self.spec_level_width(level), self.tile_size as int)
    }

    /// Number of tile rows at `level`.
    pub open spec fn spec_rows(self, level: int) -> int {
        ceil_div(self.spec_level_height(level), self.tile_size as int)
    }

    /// Number of pyramid levels for a source of the given size: one more
    /// than the number of halvings that bring the larger extent to 1.
    #[verifier::loop_isolation(false)]
    pub fn calculate_levels(src_image_width: u32, src_image_height: u32) -> (levels: u32)
        ensures
            levels as int == spec_levels(src_image_width as int, src_image_height as int),
            1 <= levels <= 33,
    {
        let m: u32 = if src_image_width >= src_image_height {
            src_image_width
        } else {
            src_image_height
        };
        let mut k: u32 = 0;
        let mut p: u64 = 1;
        proof {
            lemma2_to64();
        }
        while p < m as u64
            invariant
                p as int == pow2(k as nat),
                k == 0 || pow2((k - 1) as nat) < m as int,
                k <= 32,
            decreases 32 - k,
        {
            proof {
                if k >= 32 {
                    lemma2_to64();
                    assert(false);
                }
                lemma_pow2_word_bounds(k as nat);
                vstd::arithmetic::power2::lemma_pow2_unfold((k + 1) as nat);
            }
            p = p * 2;
            k = k + 1;
        }
        proof {
            lemma_log2_ceil_unique(m as int, k as nat);
        }
        k + 1
    }

    /// Build a creator from a raw RGB buffer (row-major, unpadded
    /// triples).  Fails with [`TilingError::DimensionMismatch`] exactly
    /// when the buffer length is not `width * height * 3`.
    pub fn new_from_rgb(
        rgb_data: &[u8],
        width: u32,
        height: u32,
        tile_size: u32,
        tile_overlap: u32,
        dest_path: String,
        dzi_file_path: String,
    ) -> (res: DZIResult<Self>)
        ensures
            res is Ok <==> rgb_data@.len() == width as int * height as int * 3,
            res is Err ==> res == Err::<Self, TilingError>(TilingError::DimensionMismatch),
            res is Ok ==> {
                let tc = res->Ok_0;
                &&& tc.wf()
                &&& tc.image.width == width
                &&& tc.image.height == height
                &&& tc.image.data@ == rgb_data@
                &&& tc.tile_size == tile_size
                &&& tc.tile_overlap == tile_overlap
                &&& tc.levels as int == spec_levels(width as int, height as int)
                &&& tc.dest_path@ == dest_path@
                &&& tc.dzi_file_path@ == dzi_file_path@
            },
    {
        proof {
            assert(width as int * height as int * 3 < 0x1_0000_0000_0000_0000_0000) by (nonlinear_arith)
                requires width <= 0xffff_ffffu32 && height <= 0xffff_ffffu32;
        }
        let expected: u128 = width as u128 * height as u128 * 3;
        if rgb_data.len() as u128 != expected {
            return Err(TilingError::DimensionMismatch);
        }
        let data = slice_to_vec(rgb_data);
        let levels = Self::calculate_levels(width, height);
        Ok(
            TileCreator {
                dest_path,
                dzi_file_path,
                image: RgbRaster { width, height, data },
                tile_size,
                tile_overlap,
                levels,
            },
        )
    }

    /// The output names derived from a source file's stem, to be placed
    /// next to it: the tile directory `<stem>_files` and the descriptor
    /// file `<stem>.dzi`.
    pub fn derive_output_names(stem: &str) -> (r: (String, String))
        ensures
            r.0@ == stem@ + "_files"@,
            r.1@ == stem@ + ".dzi"@,
    {
        let mut tile_dir = stem.to_owned();
        tile_dir.append("_files");
        let mut dzi_file = stem.to_owned();
        dzi_file.append(".dzi");
        (tile_dir, dzi_file)
    }

    /// Check that `l` is a valid level index.
    pub fn check_level(&self, l: u32) -> (res: DZIResult<()>)
        ensures
            res is Ok <==> l < self.levels,
            res is Err ==> res == Err::<(), TilingError>(TilingError::InvalidLevel),
    {
        if l >= self.levels {
            return Err(TilingError::InvalidLevel);
        }
        Ok(())
    }

    /// Dimensions `(width, height)` in pixels of the raster for `level`:
    /// the source size scaled by `2^-(levels-1-level)`, rounded up so no
    /// partial pixel is lost.
    pub fn get_dimensions(&self, level: u32) -> (res: DZIResult<(u32, u32)>)
        requires
            self.wf(),
        ensures
            res is Ok <==> level < self.levels,
            res is Err ==> res == Err::<(u32, u32), TilingError>(TilingError::InvalidLevel),
            res is Ok ==> {
                let (w, h) = res->Ok_0;
                &&& w as int == self.spec_level_width(level as int)
                &&& h as int == self.spec_level_height(level as int)
                &&& w <= self.image.width
                &&& h <= self.image.height
                &&& (self.image.width >= 1 ==> w >= 1)
                &&& (self.image.height >= 1 ==> h >= 1)
                &&& (level as int == self.levels - 1 ==> w == self.image.width && h
                    == self.image.height)
            },
    {
        self.check_level(level)?;
        let d: u32 = self.levels - 1 - level;
        proof {
            lemma_levels_range(self.image.width as int, self.image.height as int);
        }
        let p: u64 = pow2_u64(d);
        proof {
            lemma2_to64();
            lemma_pow2_word_bounds(d as nat);
            lemma_ceil_div_bounds(self.image.width as int, p as int);
            lemma_ceil_div_bounds(self.image.height as int, p as int);
        }
        let w: u32 = ((self.image.width as u64 + p - 1) / p) as u32;
        let h: u32 = ((self.image.height as u64 + p - 1) / p) as u32;
        Ok((w, h))
    }

    /// Number of tile columns and rows for `level`: each extent divided
    /// by the tile size, rounded up.
    pub fn get_tile_count(&self, l: u32) -> (res: DZIResult<(u32, u32)>)
        requires
            self.wf(),
            self.config_ok(),
        ensures
            res is Ok <==> l < self.levels,
            res is Err ==> res == Err::<(u32, u32), TilingError>(TilingError::InvalidLevel),
            res is Ok ==> {
                let (cols, rows) = res->Ok_0;
                &&& cols as int == self.spec_cols(l as int)
                &&& rows as int == self.spec_rows(l as int)
            },
    {
        let (w, h) = self.get_dimensions(l)?;
        proof {
            lemma_ceil_div_bounds(w as int, self.tile_size as int);
            lemma_ceil_div_bounds(h as int, self.tile_size as int);
        }
        let ts = self.tile_size as u64;
        let cols = ((w as u64 + ts - 1) / ts) as u32;
        let rows = ((h as u64 + ts - 1) / ts) as u32;
        Ok((cols, rows))
    }

    /// Pixel bounds `(x0, y0, x1, y1)` of the tile at `(col, row)` of
    /// `level`.  Tiles in column (row) 0 start flush at the image edge
    /// and carry no leading overlap; all later tiles reach back
    /// `tile_overlap` pixels; every tile is clipped flush to the level's
    /// edges, so `0 <= x0 < x1 <= level_width` and likewise for `y`.
    pub fn get_tile_bounds(&self, level: u32, col: u32, row: u32) -> (res: DZIResult<
        (u32, u32, u32, u32),
    >)
        requires
            self.wf(),
            self.config_ok(),
            level < self.levels ==> (col as int) < self.spec_cols(level as int) && (row as int)
                < self.spec_rows(level as int),
        ensures
            res is Ok <==> level < self.levels,
            res is Err ==> res == Err::<(u32, u32, u32, u32), TilingError>(
                TilingError::InvalidLevel,
            ),
            res is Ok ==> {
                let (x0, y0, x1, y1) = res->Ok_0;
                let ts = self.tile_size as int;
                let ov = self.tile_overlap as int;
                let lw = self.spec_level_width(level as int);
                let lh = self.spec_level_height(level as int);
                &&& x0 as int == tile_start(ts, ov, col as int)
                &&& y0 as int == tile_start(ts, ov, row as int)
                &&& x1 as int == tile_end(ts, ov, lw, col as int)
                &&& y1 as int == tile_end(ts, ov, lh, row as int)
                &&& 0 <= (x0 as int) < (x1 as int) <= lw
                &&& 0 <= (y0 as int) < (y1 as int) <= lh
            },
    {
        let (lw, lh) = self.get_dimensions(level)?;
        let ts = self.tile_size as u64;
        let ov = self.tile_overlap as u64;
        proof {
            if lw == 0 {
                lemma_ceil_div_bounds(0, ts as int);
                assert(false);
            }
            if lh == 0 {
                lemma_ceil_div_bounds(0, ts as int);
                assert(false);
            }
            lemma_tile_axis_bounds(ts as int, ov as int, lw as int, col as int);
            lemma_tile_axis_bounds(ts as int, ov as int, lh as int, row as int);
            lemma_col_start_in_range(lw as int, ts as int, col as int);
            lemma_col_start_in_range(lh as int, ts as int, row as int);
        }
        let x0: u64 = if col == 0 {
            0
        } else {
            col as u64 * ts - ov
        };
        let y0: u64 = if row == 0 {
            0
        } else {
            row as u64 * ts - ov
        };
        let xe: u64 = col as u64 * ts + ts + ov;
        let ye: u64 = row as u64 * ts + ts + ov;
        let x1: u64 = if xe <= lw as u64 {
            xe
        } else {
            lw as u64
        };
        let y1: u64 = if ye <= lh as u64 {
            ye
        } else {
            lh as u64
        };
        Ok((x0 as u32, y0 as u32, x1 as u32, y1 as u32))
    }
}

} // verus!
