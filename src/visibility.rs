use vstd::prelude::*;
use vstd::arithmetic::div_mod::{lemma_div_by_multiple, lemma_div_is_ordered, lemma_fundamental_div_mod_converse};
use crate::map::{idx_of, GameMap, TileType};
use crate::world::{tile_of, EntityData, Viewshed, World};

verus! {

pub open spec fn abs(a: int) -> int {
    if a < 0 {
        -a
    } else {
        a
    }
}

pub open spec fn sgn(a: int) -> int {
    if a < 0 {
        -1
    } else if a > 0 {
        1
    } else {
        0
    }
}

/// Step `k` of `n` along one axis of the straight line from `o` to `o + d`.
pub open spec fn line_point(o: int, d: int, k: int, n: int) -> int {
    o + sgn(d) * ((abs(d) * k) / n)
}

/// The number of steps of the straight line from `(ox, oy)` to `(x, y)`.
pub open spec fn line_len(ox: int, oy: int, x: int, y: int) -> int {
    if abs(x - ox) > abs(y - oy) {
        abs(x - ox)
    } else {
        abs(y - oy)
    }
}

/// No cell strictly between `(ox, oy)` and `(x, y)` on the straight line is a wall.
pub open spec fn line_clear(m: GameMap, ox: int, oy: int, x: int, y: int) -> bool {
    let n = line_len(ox, oy, x, y);
    forall|k: int|
        0 < k < n ==> #[trigger] m.tile(line_point(ox, x - ox, k, n), line_point(oy, y - oy, k, n))
            != TileType::Wall
}

/// `(x, y)` is seen from `(ox, oy)` with range `r`: on the map, within Euclidean distance
/// `r`, and with the straight line between them clear when drawn from either end.
pub open spec fn sees(m: GameMap, ox: int, oy: int, r: int, x: int, y: int) -> bool {
    &&& m.in_bounds(x, y)
    &&& (x - ox) * (x - ox) + (y - oy) * (y - oy) <= r * r
    &&& (line_clear(m, ox, oy, x, y) || line_clear(m, x, y, ox, oy))
}

/// Seeing is symmetric: a cell seen from an origin on the map sees that origin back.
pub proof fn lemma_sees_symmetric(m: GameMap, ox: int, oy: int, r: int, x: int, y: int)
    requires
        m.in_bounds(ox, oy),
        sees(m, ox, oy, r, x, y),
    ensures
        sees(m, x, y, r, ox, oy),
{
    assert((ox - x) * (ox - x) == (x - ox) * (x - ox)) by (nonlinear_arith);
    assert((oy - y) * (oy - y) == (y - oy) * (y - oy)) by (nonlinear_arith);
}

/// The visible set from `(ox, oy)`, by tile index.
pub open spec fn fov(m: GameMap, ox: int, oy: int, r: int) -> Seq<bool> {
    Seq::new(
        m.n_tiles() as nat,
        |i: int| sees(m, ox, oy, r, i % (m.width as int), i / (m.width as int)),
    )
}

proof fn lemma_scaled_between(a: int, k: int, n: int)
    requires
        0 <= a <= n,
        0 <= k <= n,
        0 < n,
    ensures
        0 <= (a * k) / n <= a,
{
    assert(0 <= a * k <= a * n) by (nonlinear_arith)
        requires
            0 <= a,
            0 <= k <= n,
    ;
    lemma_div_is_ordered(0, a * k, n);
    lemma_div_is_ordered(a * k, a * n, n);
    lemma_div_by_multiple(a, n);
}

/// A cell's tile index decodes back to the cell.
pub proof fn lemma_idx_decode(width: int, x: int, y: int)
    requires
        0 <= x < width,
    ensures
        idx_of(width, x, y) % width == x,
        idx_of(width, x, y) / width == y,
{
    lemma_fundamental_div_mod_converse(idx_of(width, x, y), width, y, x);
}

fn line_point_exec(o: i64, d: i64, k: i64, n: i64) -> (r: i64)
    requires
        0 <= o < 1024,
        0 <= o + d < 1024,
        abs(d as int) <= n,
        0 <= k <= n,
        0 < n <= 1024,
    ensures
        r == line_point(o as int, d as int, k as int, n as int),
        o <= r <= o + d || o + d <= r <= o,
{
    let a = if d < 0 {
        -d
    } else {
        d
    };
    proof {
        lemma_scaled_between(a as int, k as int, n as int);
        assert(0 <= a * k <= 1024 * 1024) by (nonlinear_arith)
            requires
                0 <= a <= 1024,
                0 <= k <= 1024,
        ;
    }
    let t = (a * k) / n;
    if d < 0 {
        o - t
    } else if d > 0 {
        o + t
    } else {
        o
    }
}

fn line_clear_exec(m: &GameMap, ox: i32, oy: i32, x: i32, y: i32) -> (r: bool)
    requires
        m.wf(),
        m.in_bounds(ox as int, oy as int),
        m.in_bounds(x as int, y as int),
    ensures
        r == line_clear(*m, ox as int, oy as int, x as int, y as int),
{
    let dx = x as i64 - ox as i64;
    let dy = y as i64 - oy as i64;
    let adx = if dx < 0 {
        -dx
    } else {
        dx
    };
    let ady = if dy < 0 {
        -dy
    } else {
        dy
    };
    let n = if adx > ady {
        adx
    } else {
        ady
    };
    let mut k: i64 = 1;
    while k < n
        invariant
            m.wf(),
            m.in_bounds(ox as int, oy as int),
            m.in_bounds(x as int, y as int),
            dx == x - ox,
            dy == y - oy,
            n == line_len(ox as int, oy as int, x as int, y as int),
            1 <= k,
            forall|j: int|
                0 < j < k && j < n ==> #[trigger] m.tile(
                    line_point(ox as int, dx as int, j, n as int),
                    line_point(oy as int, dy as int, j, n as int),
                ) != TileType::Wall,
        decreases n - k,
    {
        let px = line_point_exec(ox as i64, dx, k, n);
        let py = line_point_exec(oy as i64, dy, k, n);
        let idx = m.xy_idx(px as i32, py as i32);
        if m.tiles[idx] == TileType::Wall {
            proof {
                assert(m.tile(
                    line_point(ox as int, x - ox, k as int, n as int),
                    line_point(oy as int, y - oy, k as int, n as int),
                ) == TileType::Wall);
            }
            return false;
        }
        k += 1;
    }
    true
}

/// Computes the set of tiles seen from `(ox, oy)` within `range`.
pub fn field_of_view(m: &GameMap, ox: i32, oy: i32, range: i32) -> (r: Vec<bool>)
    requires
        m.wf(),
        m.in_bounds(ox as int, oy as int),
    ensures
        r@ == fov(*m, ox as int, oy as int, range as int),
{
    let n = m.tiles.len();
    let w = m.width as usize;
    let mut r: Vec<bool> = Vec::new();
    let mut i: usize = 0;
    while i < n
        invariant
            m.wf(),
            m.in_bounds(ox as int, oy as int),
            n == m.n_tiles(),
            w == m.width,
            i <= n,
            r@.len() == i,
            forall|j: int| 0 <= j < i ==> r@[j] == fov(*m, ox as int, oy as int, range as int)[j],
        decreases n - i,
    {
        let x = (i % w) as i32;
        let y = (i / w) as i32;
        proof {
            vstd::arithmetic::div_mod::lemma_fundamental_div_mod(i as int, w as int);
            vstd::arithmetic::div_mod::lemma_div_is_ordered(i as int, n as int, w as int);
            lemma_div_by_multiple(m.height as int, w as int);
            assert(n as int == m.height * w) by (nonlinear_arith)
                requires
                    n == m.width * m.height,
                    w == m.width,
            ;
            assert((i as int) / (w as int) < m.height) by {
                if (i as int) / (w as int) >= m.height {
                    assert((w as int) * ((i as int) / (w as int)) >= (w as int) * m.height)
                        by (nonlinear_arith)
                        requires
                            (i as int) / (w as int) >= m.height,
                            w > 0,
                    ;
                }
            }
        }
        let ddx = x as i64 - ox as i64;
        let ddy = y as i64 - oy as i64;
        let rr = range as i64;
        proof {
            assert(ddx * ddx <= 1024 * 1024 && ddy * ddy <= 1024 * 1024) by (nonlinear_arith)
                requires
                    -1024 <= ddx <= 1024,
                    -1024 <= ddy <= 1024,
            ;
            assert(0 <= rr * rr <= 0x4000_0000_0000_0000) by (nonlinear_arith)
                requires
                    -0x8000_0000 <= rr <= 0x7fff_ffff,
            ;
            assert(0 <= ddx * ddx && 0 <= ddy * ddy) by (nonlinear_arith);
        }
        let seen = ddx * ddx + ddy * ddy <= rr * rr && (line_clear_exec(m, ox, oy, x, y)
            || line_clear_exec(m, x, y, ox, oy));
        r.push(seen);
        i += 1;
    }
    proof {
        assert(r@ =~= fov(*m, ox as int, oy as int, range as int));
    }
    r
}

proof fn lemma_line_same_tiles(a: GameMap, b: GameMap, ox: int, oy: int, x: int, y: int)
    requires
        a.tiles@ == b.tiles@,
        a.width == b.width,
    ensures
        line_clear(a, ox, oy, x, y) == line_clear(b, ox, oy, x, y),
{
    let n = line_len(ox, oy, x, y);
    if line_clear(a, ox, oy, x, y) {
        assert forall|k: int| 0 < k < n implies #[trigger] b.tile(
            line_point(ox, x - ox, k, n),
            line_point(oy, y - oy, k, n),
        ) != TileType::Wall by {
            assert(a.tile(line_point(ox, x - ox, k, n), line_point(oy, y - oy, k, n))
                != TileType::Wall);
        }
    }
    if line_clear(b, ox, oy, x, y) {
        assert forall|k: int| 0 < k < n implies #[trigger] a.tile(
            line_point(ox, x - ox, k, n),
            line_point(oy, y - oy, k, n),
        ) != TileType::Wall by {
            assert(b.tile(line_point(ox, x - ox, k, n), line_point(oy, y - oy, k, n))
                != TileType::Wall);
        }
    }
}

/// The visible set depends on the tiles and the dimensions alone.
pub proof fn lemma_fov_same_tiles(a: GameMap, b: GameMap, ox: int, oy: int, r: int)
    requires
        a.tiles@ == b.tiles@,
        a.width == b.width,
        a.height == b.height,
    ensures
        fov(a, ox, oy, r) == fov(b, ox, oy, r),
{
    assert forall|i: int| 0 <= i < a.n_tiles() implies #[trigger] fov(a, ox, oy, r)[i] == fov(b, ox, oy, r)[i] by {
        let x = i % (a.width as int);
        let y = i / (a.width as int);
        lemma_line_same_tiles(a, b, ox, oy, x, y);
        lemma_line_same_tiles(a, b, x, y, ox, oy);
    }
    assert(fov(a, ox, oy, r) =~= fov(b, ox, oy, r));
}

/// Within range and with a clear line, a cell is in the visible set.
pub proof fn lemma_clear_line_is_seen(m: GameMap, ox: int, oy: int, r: int, x: int, y: int)
    requires
        m.wf(),
        m.in_bounds(x, y),
        (x - ox) * (x - ox) + (y - oy) * (y - oy) <= r * r,
        line_clear(m, ox, oy, x, y),
    ensures
        fov(m, ox, oy, r)[idx_of(m.width as int, x, y)],
{
    crate::map::lemma_idx_bounds(m.width as int, m.height as int, x, y);
    lemma_idx_decode(m.width as int, x, y);
}

} // verus!
