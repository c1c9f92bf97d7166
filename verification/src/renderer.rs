//! The renderer's bookkeeping: camera rays, the rows that each worker
//! renders, the framebuffer, and the encoding of a channel.

use vstd::prelude::*;
use crate::material::COLOR_SCALE;
use crate::ray::Ray;
use crate::scene::Scene;
use crate::vector::{Int3, Vector3, COORD_LIMIT, lemma_product_bound, shorten, spec_shortened};

verus! {

/// The rows `start, .., end - 1` of the image.
#[derive(Clone, Copy, Debug, PartialEq, Eq, Structural)]
pub struct Tile {
    pub start: u32,
    pub end: u32,
}

/// The first row of tile `k` where `height` rows are dealt out to
/// `workers` workers: every worker gets `height / workers` rows, and the
/// first `height % workers` workers one more.
pub open spec fn tile_start(height: int, workers: int, k: int) -> int {
    let q = height / workers;
    let r = height % workers;
    k * q + if k < r {
        k
    } else {
        r
    }
}

/// Deals the rows of the image out to the workers, one tile each, in
/// order. Without workers there are no tiles.
pub fn tile_ranges(height: u32, workers: u32) -> (tiles: Vec<Tile>)
    ensures
        tiles.len() == workers,
        forall|k: int|
            0 <= k < workers ==> (#[trigger] tiles[k]).start == tile_start(
                height as int,
                workers as int,
                k,
            ) && tiles[k].end == tile_start(height as int, workers as int, k + 1),
{
    let mut tiles: Vec<Tile> = Vec::new();
    if workers == 0 {
        return tiles;
    }
    let q = height / workers;
    let r = height % workers;
    let mut start: u32 = 0;
    let mut k: u32 = 0;
    proof {
        lemma_tiles_partition(height as int, workers as int);
        assert(0 * (q as int) == 0) by (nonlinear_arith);
    }
    while k < workers
        invariant
            k <= workers,
            workers > 0,
            q == height / workers,
            r == height % workers,
            tiles.len() == k,
            start == tile_start(height as int, workers as int, k as int),
            forall|j: int|
                0 <= j < k ==> (#[trigger] tiles[j]).start == tile_start(
                    height as int,
                    workers as int,
                    j,
                ) && tiles[j].end == tile_start(height as int, workers as int, j + 1),
        decreases workers - k,
    {
        proof {
            lemma_tile_step(height as int, workers as int, k as int);
            lemma_tile_monotonic(height as int, workers as int, k + 1, workers as int);
            lemma_tiles_partition(height as int, workers as int);
        }
        let size = if k < r {
            q + 1
        } else {
            q
        };
        let end = start + size;
        tiles.push(Tile { start, end });
        start = end;
        k += 1;
    }
    tiles
}

/// A tile is as long as the quotient, or one longer.
pub proof fn lemma_tile_step(height: int, workers: int, k: int)
    requires
        workers > 0,
        0 <= k,
    ensures
        tile_start(height, workers, k + 1) - tile_start(height, workers, k) == height / workers
            + if k < height % workers {
            1int
        } else {
            0int
        },
{
    let q = height / workers;
    assert((k + 1) * q == k * q + q) by (nonlinear_arith);
}

/// The tiles are in order.
pub proof fn lemma_tile_monotonic(height: int, workers: int, j: int, k: int)
    requires
        workers > 0,
        0 <= height,
        0 <= j <= k,
    ensures
        tile_start(height, workers, j) <= tile_start(height, workers, k),
    decreases k - j,
{
    if j < k {
        lemma_tile_monotonic(height, workers, j, k - 1);
        lemma_tile_step(height, workers, k - 1);
        vstd::arithmetic::div_mod::lemma_div_pos_is_pos(height, workers);
        assert(height / workers >= 0);
    }
}

/// The tiles start at the first row and end after the last.
pub proof fn lemma_tiles_partition(height: int, workers: int)
    requires
        workers > 0,
        0 <= height,
    ensures
        tile_start(height, workers, 0) == 0,
        tile_start(height, workers, workers) == height,
{
    let q = height / workers;
    let r = height % workers;
    vstd::arithmetic::div_mod::lemma_fundamental_div_mod(height, workers);
    vstd::arithmetic::div_mod::lemma_mod_bound(height, workers);
    assert(0 * q == 0) by (nonlinear_arith);
}

/// Every row of the image lies in a tile, and in one only: the tiles are
/// disjoint and cover the image.
pub proof fn lemma_row_in_one_tile(height: int, workers: int, row: int) -> (k: int)
    requires
        workers > 0,
        0 <= row < height,
    ensures
        0 <= k < workers,
        tile_start(height, workers, k) <= row < tile_start(height, workers, k + 1),
        forall|j: int|
            0 <= j < workers && (#[trigger] tile_start(height, workers, j)) <= row < tile_start(
                height,
                workers,
                j + 1,
            ) ==> j == k,
{
    lemma_tiles_partition(height, workers);
    let k = find_tile(height, workers, row, 0);
    assert forall|j: int|
        0 <= j < workers && (#[trigger] tile_start(height, workers, j)) <= row < tile_start(
            height,
            workers,
            j + 1,
        ) implies j == k by {
        if j < k {
            lemma_tile_monotonic(height, workers, j + 1, k);
        } else if k < j {
            lemma_tile_monotonic(height, workers, k + 1, j);
        }
    }
    k
}

/// Finds the tile of a row that does not lie before tile `from`.
proof fn find_tile(height: int, workers: int, row: int, from: int) -> (k: int)
    requires
        workers > 0,
        0 <= from < workers,
        tile_start(height, workers, from) <= row < height,
        tile_start(height, workers, workers) == height,
    ensures
        from <= k < workers,
        tile_start(height, workers, k) <= row < tile_start(height, workers, k + 1),
    decreases workers - from,
{
    if row < tile_start(height, workers, from + 1) {
        from
    } else {
        find_tile(height, workers, row, from + 1)
    }
}

/// The image: one radiance per pixel, row by row.
pub struct Framebuffer {
    pub width: u32,
    pub height: u32,
    pub pixels: Vec<Vector3>,
}

impl Framebuffer {
    /// There is one entry per pixel.
    pub open spec fn wf(self) -> bool {
        self.pixels.len() == self.width * self.height
    }

    /// The index of the pixel in column `col` of row `row`.
    pub open spec fn spec_index(self, row: int, col: int) -> int {
        row * self.width + col
    }

    /// An image of the given size with every pixel set to `fill`; none
    /// where the number of pixels is beyond what can be addressed.
    pub fn new(width: u32, height: u32, fill: Vector3) -> (r: Option<Framebuffer>)
        ensures
            r.is_some() == (width * height <= usize::MAX),
            r.is_some() ==> {
                let fb = r.unwrap();
                &&& fb.wf()
                &&& fb.width == width
                &&& fb.height == height
                &&& forall|i: int| 0 <= i < fb.pixels.len() ==> fb.pixels[i] == fill
            },
    {
        let total = match (width as usize).checked_mul(height as usize) {
            None => {
                return None;
            },
            Some(total) => total,
        };
        let mut pixels: Vec<Vector3> = Vec::new();
        let mut i: usize = 0;
        while i < total
            invariant
                i <= total,
                pixels.len() == i,
                forall|j: int| 0 <= j < i ==> pixels[j] == fill,
            decreases total - i,
        {
            pixels.push(fill);
            i += 1;
        }
        Some(Framebuffer { width, height, pixels })
    }

    pub fn get(&self, row: u32, col: u32) -> (v: Vector3)
        requires
            self.wf(),
            row < self.height,
            col < self.width,
        ensures
            v == self.pixels[self.spec_index(row as int, col as int)],
    {
        proof {
            lemma_index_in_range(self.width as int, self.height as int, row as int, col as int);
        }
        self.pixels[row as usize * self.width as usize + col as usize]
    }

    pub fn set(&mut self, row: u32, col: u32, v: Vector3)
        requires
            old(self).wf(),
            row < old(self).height,
            col < old(self).width,
        ensures
            final(self).wf(),
            final(self).width == old(self).width,
            final(self).height == old(self).height,
            final(self).pixels@ == old(self).pixels@.update(
                old(self).spec_index(row as int, col as int),
                v,
            ),
    {
        proof {
            lemma_index_in_range(self.width as int, self.height as int, row as int, col as int);
        }
        let index = row as usize * self.width as usize + col as usize;
        self.pixels.set(index, v);
    }
}

/// The index of a pixel of the image lies within the image, and two pixels
/// have the same index only if they are the same.
pub proof fn lemma_index_in_range(width: int, height: int, row: int, col: int)
    requires
        0 <= row < height,
        0 <= col < width,
    ensures
        0 <= row * width <= row * width + col < width * height,
{
    assert(0 <= row * width && row * width + width <= height * width && height * width == width
        * height) by (nonlinear_arith)
        requires
            0 <= row < height,
            0 <= width,
    ;
}

/// Different pixels have different indices.
pub proof fn lemma_index_injective(width: int, r1: int, c1: int, r2: int, c2: int)
    requires
        0 <= c1 < width,
        0 <= c2 < width,
        r1 * width + c1 == r2 * width + c2,
    ensures
        r1 == r2,
        c1 == c2,
{
    assert(r1 == r2) by (nonlinear_arith)
        requires
            0 <= c1 < width,
            0 <= c2 < width,
            r1 * width + c1 == r2 * width + c2,
    ;
    assert(r1 * width == r2 * width);
}

/// A channel as it is written out: `value`, in units of `1 / COLOR_SCALE`,
/// clamped to `[0, 1]` and scaled to `[0, 255]`, rounded down.
pub open spec fn spec_encode(value: i64) -> int {
    if value <= 0 {
        0
    } else if value >= COLOR_SCALE {
        255
    } else {
        (255 * value) / (COLOR_SCALE as int)
    }
}

/// A channel as it is written out.
pub fn encode_channel(value: i64) -> (b: u8)
    ensures
        b == spec_encode(value),
{
    if value <= 0 {
        0
    } else if value >= COLOR_SCALE {
        255
    } else {
        ((255 * value) / COLOR_SCALE) as u8
    }
}

impl Scene {
    /// The direction from the eye through the centre of the pixel in
    /// column `col` of row `row`, not shortened: the image plane lies one
    /// unit before the eye along `z`, its height is twice `fov_scale`, and
    /// the camera looks along `z` with `x` to its left. In units of
    /// `1 / (height * fov_scale.den)`.
    pub open spec fn spec_camera_exact(self, col: u32, row: u32) -> Int3 {
        Int3 {
            x: -(2 * col + 1 - self.width) * self.fov_scale.num,
            y: (self.height - 2 * row - 1) * self.fov_scale.num,
            z: self.height * self.fov_scale.den,
        }
    }

    /// The direction of the camera ray through a pixel: the exact
    /// direction, shortened to the lattice.
    pub open spec fn spec_camera_direction(self, col: u32, row: u32) -> Int3 {
        spec_shortened(self.spec_camera_exact(col, row))
    }

    /// The camera ray from `eye` through the centre of a pixel; none where
    /// the eye lies outside the lattice or the direction vanishes.
    pub fn camera_ray(&self, eye: &Vector3, col: u32, row: u32) -> (r: Option<Ray>)
        requires
            self.wf(),
        ensures
            r.is_some() == (eye@.within(COORD_LIMIT as int) && !self.spec_camera_direction(
                col,
                row,
            ).is_zero()),
            r.is_some() ==> r.unwrap().origin == *eye && r.unwrap().direction@
                == self.spec_camera_direction(col, row),
    {
        let w = self.width as i128;
        let h = self.height as i128;
        let sn = self.fov_scale.num;
        let sd = self.fov_scale.den;
        let a: i128 = -(2 * (col as i128) + 1 - w);
        let b: i128 = h - 2 * (row as i128) - 1;
        proof {
            lemma_product_bound(a as int, sn as int, 8589934592, 9223372036854775808);
            lemma_product_bound(b as int, sn as int, 8589934592, 9223372036854775808);
            lemma_product_bound(h as int, sd as int, 8589934592, 9223372036854775808);
        }
        let direction = shorten(a * sn, b * sn, h * sd);
        Ray::new(*eye, direction)
    }
}

} // verus!
