use vstd::prelude::*;
use crate::map::{GameMap, TileType};
use crate::visibility::{abs, sgn};

verus! {

/// Two cells side by side, horizontally or vertically.
pub open spec fn adjacent4(a: (int, int), b: (int, int)) -> bool {
    abs(a.0 - b.0) + abs(a.1 - b.1) == 1
}

/// A non-empty walk over Floor cells of the map, each step to a 4-adjacent cell.
pub open spec fn floor_path(m: GameMap, p: Seq<(int, int)>) -> bool {
    &&& p.len() >= 1
    &&& forall|i: int|
        0 <= i < p.len() ==> m.in_bounds((#[trigger] p[i]).0, p[i].1) && m.tile(p[i].0, p[i].1)
            == TileType::Floor
    &&& forall|i: int| 0 <= i < p.len() - 1 ==> adjacent4(#[trigger] p[i], p[i + 1])
}

/// Cell `b` can be reached from cell `a` by walking over Floor.
pub open spec fn reachable(m: GameMap, a: (int, int), b: (int, int)) -> bool {
    exists|p: Seq<(int, int)>| floor_path(m, p) && p[0] == a && p.last() == b
}

pub open spec fn h_walk(xa: int, xb: int, y: int) -> Seq<(int, int)> {
    Seq::new((abs(xb - xa) + 1) as nat, |k: int| (xa + sgn(xb - xa) * k, y))
}

pub open spec fn v_walk(ya: int, yb: int, x: int) -> Seq<(int, int)> {
    Seq::new((abs(yb - ya) + 1) as nat, |k: int| (x, ya + sgn(yb - ya) * k))
}

proof fn lemma_h_walk(m: GameMap, xa: int, xb: int, y: int)
    requires
        m.h_run_floor(xa, xb, y),
        m.in_bounds(xa, y),
        m.in_bounds(xb, y),
    ensures
        floor_path(m, h_walk(xa, xb, y)),
        h_walk(xa, xb, y)[0] == (xa, y),
        h_walk(xa, xb, y).last() == (xb, y),
{
    let p = h_walk(xa, xb, y);
    assert forall|i: int| 0 <= i < p.len() implies m.in_bounds((#[trigger] p[i]).0, p[i].1)
        && m.tile(p[i].0, p[i].1) == TileType::Floor by {
        assert(xa <= p[i].0 <= xb || xb <= p[i].0 <= xa);
    }
}

proof fn lemma_v_walk(m: GameMap, ya: int, yb: int, x: int)
    requires
        m.v_run_floor(ya, yb, x),
        m.in_bounds(x, ya),
        m.in_bounds(x, yb),
    ensures
        floor_path(m, v_walk(ya, yb, x)),
        v_walk(ya, yb, x)[0] == (x, ya),
        v_walk(ya, yb, x).last() == (x, yb),
{
    let p = v_walk(ya, yb, x);
    assert forall|i: int| 0 <= i < p.len() implies m.in_bounds((#[trigger] p[i]).0, p[i].1)
        && m.tile(p[i].0, p[i].1) == TileType::Floor by {
        assert(ya <= p[i].1 <= yb || yb <= p[i].1 <= ya);
    }
}

/// Walking from `a` to `b` and then from `b` to `c` walks from `a` to `c`.
pub proof fn lemma_reachable_trans(m: GameMap, a: (int, int), b: (int, int), c: (int, int))
    requires
        reachable(m, a, b),
        reachable(m, b, c),
    ensures
        reachable(m, a, c),
{
    let p = choose|p: Seq<(int, int)>| floor_path(m, p) && p[0] == a && p.last() == b;
    let q = choose|q: Seq<(int, int)>| floor_path(m, q) && q[0] == b && q.last() == c;
    let r = p + q.drop_first();
    assert forall|i: int| 0 <= i < r.len() implies m.in_bounds((#[trigger] r[i]).0, r[i].1)
        && m.tile(r[i].0, r[i].1) == TileType::Floor by {
        if i < p.len() {
            assert(r[i] == p[i]);
        } else {
            assert(r[i] == q[i - p.len() + 1]);
        }
    }
    assert forall|i: int| 0 <= i < r.len() - 1 implies adjacent4(#[trigger] r[i], r[i + 1]) by {
        if i < p.len() - 1 {
            assert(r[i] == p[i] && r[i + 1] == p[i + 1]);
        } else if i == p.len() - 1 {
            assert(r[i] == p[i] && r[i + 1] == q[1]);
        } else {
            assert(r[i] == q[i - p.len() + 1] && r[i + 1] == q[i - p.len() + 2]);
        }
    }
    if q.len() == 1 {
        assert(r.last() == p.last());
    } else {
        assert(r.last() == q.last());
    }
    assert(floor_path(m, r) && r[0] == a && r.last() == c);
}

/// An L-shaped Floor corridor between two cells of the map joins them by a walk.
pub proof fn lemma_corridor_reachable(m: GameMap, a: (int, int), b: (int, int))
    requires
        m.corridor(a, b),
        m.in_bounds(a.0, a.1),
        m.in_bounds(b.0, b.1),
    ensures
        reachable(m, a, b),
{
    if m.h_run_floor(a.0, b.0, a.1) && m.v_run_floor(a.1, b.1, b.0) {
        lemma_h_walk(m, a.0, b.0, a.1);
        lemma_v_walk(m, a.1, b.1, b.0);
        lemma_reachable_trans(m, a, (b.0, a.1), b);
    } else {
        lemma_v_walk(m, a.1, b.1, a.0);
        lemma_h_walk(m, a.0, b.0, b.1);
        lemma_reachable_trans(m, a, (a.0, b.1), b);
    }
}

/// In a generated map, the center of every room can be reached from the center of the
/// first room by walking over Floor.
pub proof fn lemma_rooms_reachable(m: GameMap, i: int)
    requires
        m.generated(),
        0 <= i < m.rooms@.len(),
    ensures
        reachable(m, m.rooms@[0].center_spec(), m.rooms@[i].center_spec()),
    decreases i,
{
    let c = m.rooms@[i].center_spec();
    assert(m.room_fits(m.rooms@[i]));
    if i == 0 {
        let p = seq![c];
        assert(m.room_carved(m.rooms@[i]));
        assert(m.tile(c.0, c.1) == TileType::Floor);
        assert(floor_path(m, p) && p[0] == c && p.last() == c);
    } else {
        lemma_rooms_reachable(m, i - 1);
        assert(m.room_fits(m.rooms@[i - 1]));
        lemma_corridor_reachable(m, m.rooms@[i - 1].center_spec(), c);
        lemma_reachable_trans(m, m.rooms@[0].center_spec(), m.rooms@[i - 1].center_spec(), c);
    }
}

} // verus!
