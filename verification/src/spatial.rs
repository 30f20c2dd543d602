//! Tile-index math: powers of two, coordinate validity, and enumeration of
//! the tile rectangle spanned by two projected corners.
//!
//! The projection between geographic coordinates and tile indices is
//! transcendental and runs on floating point outside this crate; everything
//! here works on the resulting integer indices.

use vstd::prelude::*;
use vstd::math::{min, max};
use vstd::arithmetic::div_mod::{lemma_fundamental_div_mod_converse, lemma_div_pos_is_pos};
use vstd::arithmetic::power2::{pow2, lemma2_to64, lemma_pow2_unfold, lemma_pow2_strictly_increases};

verus! {

/// The number of tiles per axis at a zoom level, as a run-time value.
/// Valid tile indices at zoom `z` are `0 <= x, y < 2^z`.
pub fn tiles_per_side(z: u8) -> (r: u32)
    requires
        z < 32,
    ensures
        r == pow2(z as nat),
{
    let mut m: u32 = 1;
    let mut i: u8 = 0;
    proof {
        lemma2_to64();
    }
    while i < z
        invariant
            i <= z < 32,
            m == pow2(i as nat),
        decreases z - i,
    {
        proof {
            lemma_pow2_unfold(i as nat + 1);
            if i as nat + 1 < 31 {
                lemma_pow2_strictly_increases(i as nat + 1, 31);
            }
            lemma2_to64();
        }
        m = m * 2;
        i = i + 1;
    }
    m
}

/// One tile index pair at a zoom level.
#[derive(Clone, Copy, Debug, PartialEq, Eq, Structural)]
pub struct TileCoordinate {
    pub x: u32,
    pub y: u32,
    pub z: u8,
}

/// A coordinate is valid when both indices lie below `2^z`.
pub open spec fn valid_coord(c: TileCoordinate) -> bool {
    c.x < pow2(c.z as nat) && c.y < pow2(c.z as nat)
}

/// The tiles of the closed rectangle `[min_x, min_x+cols) x [min_y,
/// min_y+rows)`, column by column: entry `i` is column `i / rows`, row
/// `i % rows`.
pub open spec fn spec_tiles_in_rect(
    min_x: int,
    min_y: int,
    cols: int,
    rows: int,
    zoom: u8,
) -> Seq<TileCoordinate> {
    Seq::new(
        (cols * rows) as nat,
        |i: int|
            TileCoordinate {
                x: (min_x + i / rows) as u32,
                y: (min_y + i % rows) as u32,
                z: zoom,
            },
    )
}

impl TileCoordinate {
    /// Enumerates every tile between two projected corner indices,
    /// inclusive on both axes.  The corners may come in any order; the
    /// rectangle is spanned by their minima and maxima, as a caller that
    /// projects a bounding box's north-west and south-east corners expects.
    pub fn tiles_in_rect(ax: u32, ay: u32, bx: u32, by: u32, zoom: u8) -> (r: Vec<
        TileCoordinate,
    >)
        requires
            (if ax <= bx { bx - ax + 1 } else { ax - bx + 1 }) * (if ay <= by {
                by - ay + 1
            } else {
                ay - by + 1
            }) <= usize::MAX,
        ensures
            r@ == spec_tiles_in_rect(
                min(ax as int, bx as int),
                min(ay as int, by as int),
                max(ax as int, bx as int) - min(ax as int, bx as int) + 1,
                max(ay as int, by as int) - min(ay as int, by as int) + 1,
                zoom,
            ),
    {
        let min_x: u32 = if ax <= bx {
            ax
        } else {
            bx
        };
        let max_x: u32 = if ax <= bx {
            bx
        } else {
            ax
        };
        let min_y: u32 = if ay <= by {
            ay
        } else {
            by
        };
        let max_y: u32 = if ay <= by {
            by
        } else {
            ay
        };
        let ghost cols: int = max_x - min_x + 1;
        let ghost rows: int = max_y - min_y + 1;
        let mut tiles: Vec<TileCoordinate> = Vec::new();
        let mut cx: u64 = min_x as u64;
        while cx <= max_x as u64
            invariant
                min_x <= max_x,
                min_y <= max_y,
                min_x as u64 <= cx <= max_x as u64 + 1,
                rows == max_y - min_y + 1,
                cols == max_x - min_x + 1,
                tiles@.len() == (cx - min_x) * rows,
                tiles@.len() <= cols * rows <= usize::MAX,
                forall|i: int|
                    0 <= i < tiles@.len() ==> tiles@[i] == spec_tiles_in_rect(
                        min_x as int,
                        min_y as int,
                        cols,
                        rows,
                        zoom,
                    )[i],
            decreases max_x as u64 + 1 - cx,
        {
            let mut cy: u64 = min_y as u64;
            let ghost base: int = (cx - min_x) * rows;
            proof {
                assert((cx + 1 - min_x) * rows == base + rows) by (nonlinear_arith)
                    requires
                        base == (cx - min_x) * rows,
                        rows == max_y - min_y + 1,
                ;
                assert(base + rows <= cols * rows) by (nonlinear_arith)
                    requires
                        base == (cx - min_x) * rows,
                        rows == max_y as int - min_y + 1,
                        cols == max_x as int - min_x + 1,
                        min_x as u64 <= cx <= max_x as u64,
                        min_y <= max_y,
                ;
            }
            while cy <= max_y as u64
                invariant
                    min_x <= max_x,
                    min_y <= max_y,
                    min_x as u64 <= cx <= max_x as u64,
                    min_y as u64 <= cy <= max_y as u64 + 1,
                    rows == max_y - min_y + 1,
                    cols == max_x - min_x + 1,
                    base == (cx - min_x) * rows,
                    base + rows <= cols * rows <= usize::MAX,
                    tiles@.len() == base + (cy - min_y),
                    forall|i: int|
                        0 <= i < tiles@.len() ==> tiles@[i] == spec_tiles_in_rect(
                            min_x as int,
                            min_y as int,
                            cols,
                            rows,
                            zoom,
                        )[i],
                decreases max_y as u64 + 1 - cy,
            {
                let coord = TileCoordinate { x: cx as u32, y: cy as u32, z: zoom };
                proof {
                    lemma_fundamental_div_mod_converse(
                        tiles@.len() as int,
                        rows,
                        cx - min_x,
                        cy - min_y,
                    );
                }
                tiles.push(coord);
                cy = cy + 1;
            }
            cx = cx + 1;
        }
        proof {
            assert(tiles@ =~= spec_tiles_in_rect(
                min_x as int,
                min_y as int,
                cols,
                rows,
                zoom,
            ));
        }
        tiles
    }
}

/// The rectangle enumeration yields exactly `cols * rows` coordinates and
/// covers the closed rectangle: a coordinate at the requested zoom appears
/// in the sequence exactly when it lies between the corner minima and
/// maxima on both axes.
pub proof fn lemma_tiles_in_rect_cover(min_x: int, min_y: int, cols: int, rows: int, zoom: u8)
    requires
        cols >= 1,
        rows >= 1,
        min_x >= 0,
        min_y >= 0,
        min_x + cols - 1 <= u32::MAX,
        min_y + rows - 1 <= u32::MAX,
    ensures
        spec_tiles_in_rect(min_x, min_y, cols, rows, zoom).len() == cols * rows,
        forall|c: TileCoordinate|
            spec_tiles_in_rect(min_x, min_y, cols, rows, zoom).contains(c) <==> (c.z == zoom
                && min_x <= c.x < min_x + cols && min_y <= c.y < min_y + rows),
{
    let s = spec_tiles_in_rect(min_x, min_y, cols, rows, zoom);
    assert(cols * rows >= 1) by (nonlinear_arith)
        requires
            cols >= 1,
            rows >= 1,
    ;
    assert forall|c: TileCoordinate|
        s.contains(c) implies (c.z == zoom && min_x <= c.x < min_x + cols && min_y <= c.y < min_y
        + rows) by {
        let i = choose|i: int| 0 <= i < s.len() && s[i] == c;
        lemma_div_pos_is_pos(i, rows);
        assert(i / rows < cols && 0 <= i % rows < rows) by (nonlinear_arith)
            requires
                0 <= i < cols * rows,
                rows >= 1,
        ;
    }
    assert forall|c: TileCoordinate|
        (c.z == zoom && min_x <= c.x < min_x + cols && min_y <= c.y < min_y + rows) implies s.contains(
        c,
    ) by {
        let dx = c.x - min_x;
        let dy = c.y - min_y;
        let i = dx * rows + dy;
        assert(0 <= i < cols * rows) by (nonlinear_arith)
            requires
                0 <= dx < cols,
                0 <= dy < rows,
                i == dx * rows + dy,
        ;
        lemma_fundamental_div_mod_converse(i, rows, dx, dy);
        assert(s[i] == c);
    }
}

} // verus!
