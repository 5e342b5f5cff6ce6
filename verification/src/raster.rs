//! The in-memory raster model: row-major, unpadded RGB triples.
//!
//! Cropping is implemented and verified here; it mirrors the clamping
//! behaviour of the external codec's crop (the rectangle is clipped flush
//! to the image edges, never read out of bounds).

use vstd::prelude::*;

verus! {

/// The smaller of two integers.
pub open spec fn min_int(a: int, b: int) -> int {
    if a <= b {
        a
    } else {
        b
    }
}

/// A decoded image: `data` holds `width * height` RGB triples, row-major.
#[derive(Debug)]
pub struct RgbRaster {
    /// Width in pixels.
    pub width: u32,
    /// Height in pixels.
    pub height: u32,
    /// Row-major, unpadded RGB bytes; length is exactly `width * height * 3`.
    pub data: Vec<u8>,
}

impl RgbRaster {
    /// The buffer length matches the dimensions.
    pub open spec fn wf(self) -> bool {
        self.data@.len() == self.width as int * self.height as int * 3
    }

    /// Byte `c` (0 = red, 1 = green, 2 = blue) of the pixel at `(x, y)`.
    pub open spec fn pixel_byte(self, x: int, y: int, c: int) -> u8 {
        self.data@[(y * self.width as int + x) * 3 + c]
    }

    /// `self` is the cut-out of `src` whose top-left corner is `(x, y)` and
    /// whose nominal size is `w` by `h`, clipped flush to the edges of
    /// `src`: exactly what [`RgbRaster::crop`] returns.
    pub open spec fn is_crop_of(self, src: Self, x: int, y: int, w: int, h: int) -> bool {
        let cx = min_int(x, src.width as int);
        let cy = min_int(y, src.height as int);
        let cw = min_int(w, src.width as int - cx);
        let ch = min_int(h, src.height as int - cy);
        &&& self.width == cw
        &&& self.height == ch
        &&& self.wf()
        &&& forall|i: int, j: int, c: int|
            0 <= i < cw && 0 <= j < ch && 0 <= c < 3 ==> self.pixel_byte(i, j, c)
                == src.pixel_byte(cx + i, cy + j, c)
    }

    /// Cut the rectangle with top-left corner `(x, y)` and size `w` by `h`
    /// out of this raster, clipping it flush to the image edges.
    #[verifier::loop_isolation(false)]
    pub fn crop(&self, x: u32, y: u32, w: u32, h: u32) -> (r: RgbRaster)
        requires
            self.wf(),
        ensures
            r.is_crop_of(*self, x as int, y as int, w as int, h as int),
    {
        let cx: u32 = if x <= self.width {
            x
        } else {
            self.width
        };
        let cy: u32 = if y <= self.height {
            y
        } else {
            self.height
        };
        let cw: u32 = if w <= self.width - cx {
            w
        } else {
            self.width - cx
        };
        let ch: u32 = if h <= self.height - cy {
            h
        } else {
            self.height - cy
        };
        // Pins the buffer length to a machine word, so the flat indices
        // below cannot overflow.
        let n = self.data.len();
        let mut out: Vec<u8> = Vec::new();
        let mut j: u32 = 0;
        while j < ch
            invariant
                0 <= j <= ch,
                out@.len() == j as int * cw as int * 3,
                flat_matches(out@, *self, cx as int, cy as int, cw as int),
            decreases ch - j,
        {
            let mut i: u32 = 0;
            while i < cw
                invariant
                    0 <= i <= cw,
                    j < ch,
                    out@.len() == j as int * cw as int * 3 + i as int * 3,
                    flat_matches(out@, *self, cx as int, cy as int, cw as int),
                decreases cw - i,
            {
                let sx = cx + i;
                let sy = cy + j;
                proof {
                    lemma_pixel_index_bound(
                        self.width as int,
                        self.height as int,
                        sx as int,
                        sy as int,
                    );
                    lemma_row_major_flat(j as int, i as int, cw as int);
                }
                let base: usize = (sy as usize * self.width as usize + sx as usize) * 3;
                let ghost prev = out@;
                out.push(self.data[base]);
                out.push(self.data[base + 1]);
                out.push(self.data[base + 2]);
                proof {
                    lemma_flat_round_trip(j as int, i as int, 0, cw as int);
                    lemma_flat_round_trip(j as int, i as int, 1, cw as int);
                    lemma_flat_round_trip(j as int, i as int, 2, cw as int);
                    assert forall|k: int| 0 <= k < out@.len() implies out@[k] == self.pixel_byte(
                        cx as int + ((k / 3) % cw as int),
                        cy as int + ((k / 3) / cw as int),
                        k % 3,
                    ) by {
                        if k < prev.len() {
                            assert(out@[k] == prev[k]);
                        }
                    }
                }
                i = i + 1;
            }
            j = j + 1;
            proof {
                assert(out@.len() == j as int * cw as int * 3) by (nonlinear_arith)
                    requires out@.len() == (j - 1) * cw as int * 3 + cw as int * 3;
            }
        }
        let r = RgbRaster { width: cw, height: ch, data: out };
        proof {
            assert(r.wf()) by (nonlinear_arith)
                requires r.data@.len() == ch as int * cw as int * 3 && r.width == cw && r.height
                    == ch;
            assert forall|i: int, jj: int, c: int|
                0 <= i < cw && 0 <= jj < ch && 0 <= c < 3 implies r.pixel_byte(i, jj, c)
                == self.pixel_byte(cx + i, cy + jj, c) by {
                lemma_flat_round_trip(jj, i, c, cw as int);
                lemma_row_major_flat(jj, i, cw as int);
                assert((jj + 1) * (cw as int * 3) <= ch as int * cw as int * 3) by (nonlinear_arith)
                    requires jj + 1 <= ch as int && 0 <= cw as int * 3;
                assert(r.pixel_byte(i, jj, c) == r.data@[(jj * cw as int + i) * 3 + c]);
            }
        }
        r
    }
}

/// Every byte written so far is the right source byte, stated over the
/// flat buffer index so the quantifier has a plain trigger.
pub open spec fn flat_matches(out: Seq<u8>, src: RgbRaster, cx: int, cy: int, cw: int) -> bool {
    forall|k: int|
        0 <= k < out.len() ==> out[k] == src.pixel_byte(
            cx + ((k / 3) % cw),
            cy + ((k / 3) / cw),
            k % 3,
        )
}

/// Row-major coordinates survive the round trip through the flat index.
proof fn lemma_flat_round_trip(j: int, i: int, c: int, cw: int)
    requires
        0 <= j,
        0 <= i < cw,
        0 <= c < 3,
    ensures
        ((j * cw + i) * 3 + c) / 3 == j * cw + i,
        ((j * cw + i) * 3 + c) % 3 == c,
        (j * cw + i) % cw == i,
        (j * cw + i) / cw == j,
{
    assert(0 <= j * cw + i) by (nonlinear_arith)
        requires 0 <= j && 0 <= i && 0 < cw;
    vstd::arithmetic::div_mod::lemma_fundamental_div_mod_converse(
        (j * cw + i) * 3 + c,
        3,
        j * cw + i,
        c,
    );
    vstd::arithmetic::div_mod::lemma_fundamental_div_mod_converse(j * cw + i, cw, j, i);
}

/// Flattened row-major indices stay inside the buffer.
proof fn lemma_pixel_index_bound(w: int, h: int, x: int, y: int)
    requires
        0 <= x < w,
        0 <= y < h,
    ensures
        0 <= (y * w + x) * 3,
        (y * w + x) * 3 + 2 < w * h * 3,
        y * w + x < w * h,
{
    assert(0 <= y * w + x && y * w + x < w * h) by (nonlinear_arith)
        requires 0 <= x < w && 0 <= y < h;
    assert((y * w + x) * 3 + 2 < w * h * 3) by (nonlinear_arith)
        requires y * w + x < w * h && 0 <= y * w + x;
}

/// Appending three bytes to `j * (cw * 3) + i * 3` lands them at the
/// row-major position of pixel `(i, j)` in a `cw`-wide raster.
proof fn lemma_row_major_flat(j: int, i: int, cw: int)
    requires
        0 <= j,
        0 <= i < cw,
    ensures
        (j * cw + i) * 3 == j * (cw * 3) + i * 3,
        (j * cw + i) * 3 + 2 < (j + 1) * (cw * 3),
{
    assert((j * cw + i) * 3 == j * (cw * 3) + i * 3) by (nonlinear_arith);
    assert((j * cw + i) * 3 + 2 < (j + 1) * (cw * 3)) by (nonlinear_arith)
        requires 0 <= j && 0 <= i < cw;
}

} // verus!
