//! Tile stamps: small blocks of terrain and collision painted onto a scene.
use vstd::prelude::*;
use crate::world::{Scene, same_except};

verus! {

/// A `width` × `height` block of tiles with their collision flags, row by row.
#[derive(Clone, Debug, PartialEq)]
pub struct TileStamp {
    pub width: usize,
    pub height: usize,
    pub tiles: Vec<u8>,
    pub collision: Vec<bool>,
}

/// Row-major order on stamp cells given as (row, column).
pub open spec fn cell_before(a: (int, int), b: (int, int)) -> bool {
    a.0 < b.0 || (a.0 == b.0 && a.1 < b.1)
}

impl TileStamp {
    /// A non-empty block with one tile and one collision flag per cell.
    pub open spec fn well_shaped(self) -> bool {
        &&& self.width > 0
        &&& self.height > 0
        &&& self.tiles@.len() == self.width * self.height
        &&& self.collision@.len() == self.tiles@.len()
    }

    /// Stamp cell (column `sx`, row `sy`) lands on the map and holds a tile
    /// value above 4.
    pub open spec fn bad_cell(self, origin: [usize; 2], sx: int, sy: int) -> bool {
        &&& origin[0] + sx < 16
        &&& origin[1] + sy < 16
        &&& self.tiles@[sy * self.width + sx] > 4
    }

    /// The first bad cell at or after (row `sy`, column `sx`) in row-major
    /// order, as (row, column); (height, 0) when there is none.
    pub open spec fn first_bad_from(self, origin: [usize; 2], sy: int, sx: int) -> (int, int)
        decreases self.height - sy, self.width - sx,
    {
        if sy < 0 || sx < 0 || sy >= self.height {
            (self.height as int, 0)
        } else if sx >= self.width {
            self.first_bad_from(origin, sy + 1, 0)
        } else if self.bad_cell(origin, sx, sy) {
            (sy, sx)
        } else {
            self.first_bad_from(origin, sy, sx + 1)
        }
    }

    /// Where painting stops: the first bad cell, or past the last row.
    pub open spec fn stop(self, origin: [usize; 2]) -> (int, int) {
        self.first_bad_from(origin, 0, 0)
    }

    /// The stamp cell that lands on map tile (`x`, `y`) and is painted before
    /// cell `limit`, as (column, row), if there is one.
    pub open spec fn painted_cell(self, origin: [usize; 2], x: int, y: int, limit: (int, int)) -> Option<
        (int, int),
    > {
        let cx = x - origin[0];
        let cy = y - origin[1];
        if 0 <= cx < self.width && 0 <= cy < self.height && cell_before((cy, cx), limit) {
            Some((cx, cy))
        } else {
            None
        }
    }

    /// The tile layer after painting every on-map cell before `limit`.
    pub open spec fn painted_tiles(self, before: Seq<u8>, origin: [usize; 2], limit: (int, int)) -> Seq<u8> {
        Seq::new(
            before.len(),
            |i: int|
                if i < 256 {
                    match self.painted_cell(origin, i % 16, i / 16, limit) {
                        Some(c) => self.tiles@[c.1 * self.width + c.0],
                        None => before[i],
                    }
                } else {
                    before[i]
                },
        )
    }

    /// The collision layer after painting every on-map cell before `limit`.
    pub open spec fn painted_collision(self, before: Seq<bool>, origin: [usize; 2], limit: (int, int)) -> Seq<
        bool,
    > {
        Seq::new(
            before.len(),
            |i: int|
                if i < 256 {
                    match self.painted_cell(origin, i % 16, i / 16, limit) {
                        Some(c) => self.collision@[c.1 * self.width + c.0],
                        None => before[i],
                    }
                } else {
                    before[i]
                },
        )
    }

    /// Paints the stamp with its top-left cell at `origin`, row by row;
    /// cells that fall off the 16 × 16 map are skipped. A malformed stamp
    /// changes nothing and is "Invalid tile stamp". Meeting an on-map cell
    /// with a tile value above 4 stops with "Stamp contains invalid tile",
    /// keeping the cells painted before it.
    pub fn apply(&self, scene: &mut Scene, origin: [usize; 2]) -> (r: Result<(), String>)
        requires
            self.well_shaped() && origin[0] < 16 && origin[1] < 16 ==> old(scene).tiles@.len() >= 256
                && old(scene).collision@.len() >= 256,
            self.width > 0 && self.height > 0 ==> self.width * self.height <= usize::MAX,
            self.well_shaped() ==> origin[0] + self.width <= usize::MAX + 1 && origin[1] + self.height
                <= usize::MAX + 1,
        ensures
            !self.well_shaped() ==> (r matches Err(e) && e@ == "Invalid tile stamp"@ && *final(scene)
                == *old(scene)),
            self.well_shaped() ==> {
                &&& (r is Ok <==> self.stop(origin).0 >= self.height)
                &&& (r matches Err(e) ==> e@ == "Stamp contains invalid tile"@)
                &&& final(scene).tiles@ == self.painted_tiles(old(scene).tiles@, origin, self.stop(origin))
                &&& final(scene).collision@ == self.painted_collision(
                    old(scene).collision@,
                    origin,
                    self.stop(origin),
                )
                &&& same_except(*old(scene), *final(scene), false, false, false, true, false)
                &&& final(scene).heights == old(scene).heights
            },
    {
        if self.width == 0 || self.height == 0 || self.tiles.len() != self.width * self.height
            || self.collision.len() != self.tiles.len() {
            return Err(String::from_str("Invalid tile stamp"));
        }
        let ghost stop = self.stop(origin);
        let ghost tiles0 = scene.tiles@;
        let ghost coll0 = scene.collision@;
        let w = self.width;
        let h = self.height;
        let mut sy: usize = 0;
        proof {
            assert(self.painted_tiles(tiles0, origin, (0, 0)) =~= tiles0);
            assert(self.painted_collision(coll0, origin, (0, 0)) =~= coll0);
        }
        while sy < h
            invariant
                self.well_shaped(),
                w == self.width,
                h == self.height,
                sy <= h,
                origin[0] + w <= usize::MAX + 1,
                origin[1] + h <= usize::MAX + 1,
                w * h <= usize::MAX,
                stop == self.stop(origin),
                self.first_bad_from(origin, sy as int, 0) == stop,
                scene.tiles@ == self.painted_tiles(tiles0, origin, (sy as int, 0)),
                scene.collision@ == self.painted_collision(coll0, origin, (sy as int, 0)),
                same_except(*old(scene), *scene, false, false, false, true, false),
                scene.heights == old(scene).heights,
                origin[0] < 16 && origin[1] < 16 ==> tiles0.len() >= 256 && coll0.len() >= 256,
                tiles0 == old(scene).tiles@,
                coll0 == old(scene).collision@,
            decreases h - sy,
        {
            let mut sx: usize = 0;
            while sx < w
                invariant
                    self.well_shaped(),
                    w == self.width,
                    h == self.height,
                    sy < h,
                    sx <= w,
                    origin[0] + w <= usize::MAX + 1,
                    origin[1] + h <= usize::MAX + 1,
                    w * h <= usize::MAX,
                    stop == self.stop(origin),
                    self.first_bad_from(origin, sy as int, sx as int) == stop,
                    scene.tiles@ == self.painted_tiles(tiles0, origin, (sy as int, sx as int)),
                    scene.collision@ == self.painted_collision(coll0, origin, (sy as int, sx as int)),
                    same_except(*old(scene), *scene, false, false, false, true, false),
                    scene.heights == old(scene).heights,
                    origin[0] < 16 && origin[1] < 16 ==> tiles0.len() >= 256 && coll0.len() >= 256,
                    tiles0 == old(scene).tiles@,
                    coll0 == old(scene).collision@,
                decreases w - sx,
            {
                let x = origin[0] + sx;
                let y = origin[1] + sy;
                let ghost t_before = scene.tiles@;
                let ghost c_before = scene.collision@;
                if x >= 16 || y >= 16 {
                    proof {
                        assert(!self.bad_cell(origin, sx as int, sy as int));
                        assert(self.painted_tiles(tiles0, origin, (sy as int, sx + 1)) =~= t_before);
                        assert(self.painted_collision(coll0, origin, (sy as int, sx + 1)) =~= c_before);
                    }
                    sx = sx + 1;
                    continue;
                }
                proof {
                    assert(sy * w + sx < w * h && sy * w <= sy * w + sx) by (nonlinear_arith)
                        requires
                            sy < h,
                            sx < w,
                            0 <= sx,
                            0 <= sy,
                    ;
                }
                let i = sy * w + sx;
                let d = y * 16 + x;
                if self.tiles[i] > 4 {
                    proof {
                        assert(self.bad_cell(origin, sx as int, sy as int));
                        assert(stop == (sy as int, sx as int));
                    }
                    return Err(String::from_str("Stamp contains invalid tile"));
                }
                scene.tiles.set(d, self.tiles[i]);
                scene.collision.set(d, self.collision[i]);
                proof {
                    assert(!self.bad_cell(origin, sx as int, sy as int));
                    assert forall|k: int| 0 <= k < tiles0.len() implies #[trigger] scene.tiles@[k]
                        == self.painted_tiles(tiles0, origin, (sy as int, sx + 1))[k] by {
                        if k == d {
                            assert(k % 16 == x && k / 16 == y);
                        }
                    }
                    assert forall|k: int| 0 <= k < coll0.len() implies #[trigger] scene.collision@[k]
                        == self.painted_collision(coll0, origin, (sy as int, sx + 1))[k] by {
                        if k == d {
                            assert(k % 16 == x && k / 16 == y);
                        }
                    }
                    assert(scene.tiles@ =~= self.painted_tiles(tiles0, origin, (sy as int, sx + 1)));
                    assert(scene.collision@ =~= self.painted_collision(coll0, origin, (sy as int, sx + 1)));
                }
                sx = sx + 1;
            }
            proof {
                assert(self.painted_tiles(tiles0, origin, (sy as int, w as int)) =~= self.painted_tiles(
                    tiles0,
                    origin,
                    (sy + 1, 0),
                ));
                assert(self.painted_collision(coll0, origin, (sy as int, w as int)) =~= self.painted_collision(
                    coll0,
                    origin,
                    (sy + 1, 0),
                ));
            }
            sy = sy + 1;
        }
        proof {
            assert(self.painted_tiles(tiles0, origin, (h as int, 0)) =~= self.painted_tiles(
                tiles0,
                origin,
                stop,
            ));
            assert(self.painted_collision(coll0, origin, (h as int, 0)) =~= self.painted_collision(
                coll0,
                origin,
                stop,
            ));
        }
        Ok(())
    }
}

} // verus!
