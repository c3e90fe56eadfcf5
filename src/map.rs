use vstd::prelude::*;
use crate::rect::Rect;

verus! {

/// Largest width or height of a map.
pub const MAX_DIM: i32 = 1024;

#[derive(Clone, Copy, Debug, PartialEq, Eq, Structural)]
pub enum TileType {
    Wall,
    Floor,
}

/// The linear tile index of the grid cell `(x, y)`.
pub open spec fn idx_of(width: int, x: int, y: int) -> int {
    y * width + x
}

pub proof fn lemma_idx_bounds(width: int, height: int, x: int, y: int)
    requires
        0 <= x < width,
        0 <= y < height,
    ensures
        0 <= idx_of(width, x, y) < width * height,
{
    assert(0 <= y * width) by (nonlinear_arith)
        requires
            0 <= y,
            0 < width,
    ;
    assert(y * width + x < width * height) by (nonlinear_arith)
        requires
            0 <= x < width,
            0 <= y < height,
    ;
}

pub proof fn lemma_tiles_fit(width: int, height: int)
    requires
        0 <= width <= MAX_DIM,
        0 <= height <= MAX_DIM,
    ensures
        0 <= width * height <= 1048576,
{
    assert(0 <= width * height <= 1024 * 1024) by (nonlinear_arith)
        requires
            0 <= width <= 1024,
            0 <= height <= 1024,
    ;
}

/// Distinct cells have distinct tile indexes.
pub proof fn lemma_idx_injective(width: int, x1: int, y1: int, x2: int, y2: int)
    requires
        0 <= x1 < width,
        0 <= x2 < width,
        idx_of(width, x1, y1) == idx_of(width, x2, y2),
    ensures
        x1 == x2,
        y1 == y2,
{
    if y1 < y2 {
        assert(y1 * width + x1 < y2 * width + x2) by (nonlinear_arith)
            requires
                y1 < y2,
                0 <= x1 < width,
                0 <= x2,
        ;
    } else if y2 < y1 {
        assert(y2 * width + x2 < y1 * width + x1) by (nonlinear_arith)
            requires
                y2 < y1,
                0 <= x2 < width,
                0 <= x1,
        ;
    }
}

/// The dungeon grid, its rooms, and the per-tile indexes the systems keep.
pub struct GameMap {
    pub tiles: Vec<TileType>,
    pub rooms: Vec<Rect>,
    pub width: i32,
    pub height: i32,
    pub revealed_tiles: Vec<bool>,
    pub visible_tiles: Vec<bool>,
    pub blocked: Vec<bool>,
    pub tile_content: Vec<Vec<usize>>,
}

/// One sampled room placement: position, size, and which leg of the corridor comes first.
#[derive(Clone, Copy, Debug, PartialEq, Eq, Structural)]
pub struct RoomCandidate {
    pub x: i32,
    pub y: i32,
    pub w: i32,
    pub h: i32,
    pub horizontal_first: bool,
}

/// The room a candidate describes.
pub open spec fn room_of(c: RoomCandidate) -> Rect {
    Rect { x1: c.x, y1: c.y, x2: (c.x + c.w) as i32, y2: (c.y + c.h) as i32 }
}

/// No room of `rooms` touches or overlaps `r`.
pub open spec fn clear_of(rooms: Seq<Rect>, r: Rect) -> bool {
    forall|k: int| 0 <= k < rooms.len() ==> !r.intersects_spec(#[trigger] rooms[k])
}

/// The rooms kept from the first `n` candidates, in order: each candidate that fits and is
/// clear of every room kept before it.
pub open spec fn accepted(cands: Seq<RoomCandidate>, width: int, height: int, n: int) -> Seq<Rect>
    decreases n,
{
    if n <= 0 {
        Seq::empty()
    } else {
        let prev = accepted(cands, width, height, n - 1);
        if candidate_fits(cands[n - 1], width, height) && clear_of(prev, room_of(cands[n - 1])) {
            prev.push(room_of(cands[n - 1]))
        } else {
            prev
        }
    }
}

/// Keeping rooms never drops one, and a first candidate that fits is always kept.
pub proof fn lemma_accepted_nonempty(cands: Seq<RoomCandidate>, width: int, height: int, n: int)
    requires
        1 <= n <= cands.len(),
        candidate_fits(cands[0], width, height),
    ensures
        accepted(cands, width, height, n).len() >= 1,
    decreases n,
{
    if n > 1 {
        lemma_accepted_nonempty(cands, width, height, n - 1);
    } else {
        assert(accepted(cands, width, height, 0).len() == 0);
    }
}

/// A candidate fits when its interior is non-empty and lies off the border.
pub open spec fn candidate_fits(c: RoomCandidate, width: int, height: int) -> bool {
    &&& c.w >= 2
    &&& c.h >= 2
    &&& c.x >= 0
    &&& c.y >= 0
    &&& c.x + c.w <= width - 2
    &&& c.y + c.h <= height - 2
}

impl GameMap {
    pub open spec fn n_tiles(self) -> int {
        self.width * self.height
    }

    pub open spec fn wf(self) -> bool {
        &&& 2 <= self.width <= MAX_DIM
        &&& 2 <= self.height <= MAX_DIM
        &&& self.tiles@.len() == self.n_tiles()
        &&& self.revealed_tiles@.len() == self.n_tiles()
        &&& self.visible_tiles@.len() == self.n_tiles()
        &&& self.blocked@.len() == self.n_tiles()
        &&& self.tile_content@.len() == self.n_tiles()
    }

    pub open spec fn in_bounds(self, x: int, y: int) -> bool {
        0 <= x < self.width && 0 <= y < self.height
    }

    pub open spec fn tile(self, x: int, y: int) -> TileType {
        self.tiles@[idx_of(self.width as int, x, y)]
    }

    pub open spec fn on_border(self, x: int, y: int) -> bool {
        x == 0 || y == 0 || x == self.width - 1 || y == self.height - 1
    }

    pub open spec fn border_walls(self) -> bool {
        forall|x: int, y: int|
            self.in_bounds(x, y) && self.on_border(x, y) ==> #[trigger] self.tile(x, y)
                == TileType::Wall
    }

    /// The room lies inside the map with its interior off the border.
    pub open spec fn room_fits(self, r: Rect) -> bool {
        &&& 0 <= r.x1
        &&& r.x1 + 2 <= r.x2 <= self.width - 2
        &&& 0 <= r.y1
        &&& r.y1 + 2 <= r.y2 <= self.height - 2
    }

    pub open spec fn room_carved(self, r: Rect) -> bool {
        forall|x: int, y: int|
            r.x1 < x <= r.x2 && r.y1 < y <= r.y2 ==> #[trigger] self.tile(x, y) == TileType::Floor
    }

    pub open spec fn h_run_floor(self, xa: int, xb: int, y: int) -> bool {
        forall|x: int|
            (xa <= x <= xb || xb <= x <= xa) ==> #[trigger] self.tile(x, y) == TileType::Floor
    }

    pub open spec fn v_run_floor(self, ya: int, yb: int, x: int) -> bool {
        forall|y: int|
            (ya <= y <= yb || yb <= y <= ya) ==> #[trigger] self.tile(x, y) == TileType::Floor
    }

    /// An L-shaped run of Floor joins cell `a` to cell `b`, in either leg order.
    pub open spec fn corridor(self, a: (int, int), b: (int, int)) -> bool {
        (self.h_run_floor(a.0, b.0, a.1) && self.v_run_floor(a.1, b.1, b.0)) || (
        self.v_run_floor(a.1, b.1, a.0) && self.h_run_floor(a.0, b.0, b.1))
    }

    /// Every Floor tile of `self` is still Floor in `m`, and the border is kept.
    pub open spec fn floor_kept(self, m: GameMap) -> bool {
        &&& forall|x: int, y: int|
            self.in_bounds(x, y) && self.tile(x, y) == TileType::Floor ==> #[trigger] m.tile(x, y)
                == TileType::Floor
        &&& (self.border_walls() ==> m.border_walls())
    }

    /// Only `tiles` differs between the two maps.
    pub open spec fn same_but_tiles(self, m: GameMap) -> bool {
        &&& self.width == m.width
        &&& self.height == m.height
        &&& self.rooms@ == m.rooms@
        &&& self.revealed_tiles@ == m.revealed_tiles@
        &&& self.visible_tiles@ == m.visible_tiles@
        &&& self.blocked@ == m.blocked@
        &&& self.tile_content@ == m.tile_content@
    }

    /// Each room is the room of some candidate that fits.
    pub open spec fn rooms_from(self, cands: Seq<RoomCandidate>) -> bool {
        forall|i: int|
            0 <= i < self.rooms@.len() ==> exists|k: int|
                0 <= k < cands.len() && candidate_fits(cands[k], self.width as int, self.height as int)
                    && #[trigger] self.rooms@[i] == room_of(cands[k])
    }

    /// What the generator guarantees of the maps it builds.
    pub open spec fn generated(self) -> bool {
        &&& self.wf()
        &&& self.border_walls()
        &&& forall|i: int|
            0 <= i < self.rooms@.len() ==> self.room_fits(#[trigger] self.rooms@[i])
                && self.room_carved(self.rooms@[i])
        &&& forall|i: int, j: int|
            0 <= i < j < self.rooms@.len() ==> !(#[trigger] self.rooms@[j]).intersects_spec(
                #[trigger] self.rooms@[i],
            )
        &&& forall|i: int|
            0 < i < self.rooms@.len() ==> self.corridor(
                self.rooms@[i - 1].center_spec(),
                (#[trigger] self.rooms@[i]).center_spec(),
            )
    }

    pub fn xy_idx(&self, x: i32, y: i32) -> (r: usize)
        requires
            self.wf(),
            self.in_bounds(x as int, y as int),
        ensures
            r as int == idx_of(self.width as int, x as int, y as int),
            r < self.n_tiles(),
    {
        proof {
            lemma_idx_bounds(self.width as int, self.height as int, x as int, y as int);
            lemma_tiles_fit(self.width as int, self.height as int);
            assert(y * self.width <= y * self.width + x);
        }
        (y as usize) * (self.width as usize) + (x as usize)
    }

    fn set_floor(&mut self, x: i32, y: i32)
        requires
            old(self).wf(),
            1 <= x <= old(self).width - 2,
            1 <= y <= old(self).height - 2,
        ensures
            final(self).wf(),
            old(self).same_but_tiles(*final(self)),
            final(self).tile(x as int, y as int) == TileType::Floor,
            forall|a: int, b: int|
                final(self).in_bounds(a, b) && !(a == x && b == y) ==> #[trigger] final(self).tile(
                    a,
                    b,
                ) == old(self).tile(a, b),
            old(self).floor_kept(*final(self)),
    {
        let idx = self.xy_idx(x, y);
        self.tiles.set(idx, TileType::Floor);
        proof {
            let w = self.width as int;
            assert forall|a: int, b: int|
                self.in_bounds(a, b) && !(a == x && b == y) implies #[trigger] self.tile(a, b)
                == old(self).tile(a, b) by {
                lemma_idx_bounds(w, self.height as int, a, b);
                if idx_of(w, a, b) == idx as int {
                    lemma_idx_injective(w, a, b, x as int, y as int);
                }
            }
        }
    }
    pub fn apply_room_to_map(&mut self, room: &Rect)
        requires
            old(self).wf(),
            old(self).room_fits(*room),
        ensures
            final(self).wf(),
            old(self).same_but_tiles(*final(self)),
            old(self).floor_kept(*final(self)),
            final(self).room_carved(*room),
            forall|a: int, b: int|
                final(self).in_bounds(a, b) && !(room.x1 < a <= room.x2 && room.y1 < b <= room.y2)
                    ==> #[trigger] final(self).tile(a, b) == old(self).tile(a, b),
    {
        let mut y = room.y1 + 1;
        while y <= room.y2
            invariant
                self.wf(),
                old(self).same_but_tiles(*self),
                old(self).floor_kept(*self),
                self.room_fits(*room),
                room.y1 + 1 <= y <= room.y2 + 1,
                forall|a: int, b: int|
                    room.x1 < a <= room.x2 && room.y1 < b < y ==> #[trigger] self.tile(a, b)
                        == TileType::Floor,
                forall|a: int, b: int|
                    self.in_bounds(a, b) && !(room.x1 < a <= room.x2 && room.y1 < b < y)
                        ==> #[trigger] self.tile(a, b) == old(self).tile(a, b),
            decreases room.y2 + 1 - y,
        {
            let mut x = room.x1 + 1;
            while x <= room.x2
                invariant
                    self.wf(),
                    old(self).same_but_tiles(*self),
                    old(self).floor_kept(*self),
                    self.room_fits(*room),
                    room.y1 + 1 <= y <= room.y2,
                    room.x1 + 1 <= x <= room.x2 + 1,
                    forall|a: int, b: int|
                        room.x1 < a <= room.x2 && room.y1 < b < y ==> #[trigger] self.tile(a, b)
                            == TileType::Floor,
                    forall|a: int| room.x1 < a < x ==> #[trigger] self.tile(a, y as int)
                        == TileType::Floor,
                    forall|a: int, b: int|
                        self.in_bounds(a, b) && !(room.x1 < a <= room.x2 && room.y1 < b < y)
                            && !(b == y && room.x1 < a < x) ==> #[trigger] self.tile(a, b)
                            == old(self).tile(a, b),
                decreases room.x2 + 1 - x,
            {
                self.set_floor(x, y);
                x += 1;
            }
            y += 1;
        }
    }

    pub fn apply_horizontal_tunnel(&mut self, x1: i32, x2: i32, y: i32)
        requires
            old(self).wf(),
            1 <= x1 <= old(self).width - 2,
            1 <= x2 <= old(self).width - 2,
            1 <= y <= old(self).height - 2,
        ensures
            final(self).wf(),
            old(self).same_but_tiles(*final(self)),
            old(self).floor_kept(*final(self)),
            final(self).h_run_floor(x1 as int, x2 as int, y as int),
            forall|a: int, b: int|
                final(self).in_bounds(a, b) && !(b == y && (x1 <= a <= x2 || x2 <= a <= x1))
                    ==> #[trigger] final(self).tile(a, b) == old(self).tile(a, b),
    {
        let lo = if x1 < x2 { x1 } else { x2 };
        let hi = if x1 < x2 { x2 } else { x1 };
        let mut x = lo;
        while x <= hi
            invariant
                self.wf(),
                old(self).same_but_tiles(*self),
                old(self).floor_kept(*self),
                1 <= lo <= hi <= self.width - 2,
                1 <= y <= self.height - 2,
                lo <= x <= hi + 1,
                forall|a: int| lo <= a < x ==> #[trigger] self.tile(a, y as int) == TileType::Floor,
                forall|a: int, b: int|
                    self.in_bounds(a, b) && !(b == y && lo <= a < x) ==> #[trigger] self.tile(a, b)
                        == old(self).tile(a, b),
                lo == x1 || lo == x2,
                hi == x1 || hi == x2,
            decreases hi + 1 - x,
        {
            self.set_floor(x, y);
            x += 1;
        }
    }

    pub fn apply_vertical_tunnel(&mut self, y1: i32, y2: i32, x: i32)
        requires
            old(self).wf(),
            1 <= y1 <= old(self).height - 2,
            1 <= y2 <= old(self).height - 2,
            1 <= x <= old(self).width - 2,
        ensures
            final(self).wf(),
            old(self).same_but_tiles(*final(self)),
            old(self).floor_kept(*final(self)),
            final(self).v_run_floor(y1 as int, y2 as int, x as int),
            forall|a: int, b: int|
                final(self).in_bounds(a, b) && !(a == x && (y1 <= b <= y2 || y2 <= b <= y1))
                    ==> #[trigger] final(self).tile(a, b) == old(self).tile(a, b),
    {
        let lo = if y1 < y2 { y1 } else { y2 };
        let hi = if y1 < y2 { y2 } else { y1 };
        let mut y = lo;
        while y <= hi
            invariant
                self.wf(),
                old(self).same_but_tiles(*self),
                old(self).floor_kept(*self),
                1 <= lo <= hi <= self.height - 2,
                1 <= x <= self.width - 2,
                lo <= y <= hi + 1,
                forall|b: int| lo <= b < y ==> #[trigger] self.tile(x as int, b) == TileType::Floor,
                forall|a: int, b: int|
                    self.in_bounds(a, b) && !(a == x && lo <= b < y) ==> #[trigger] self.tile(a, b)
                        == old(self).tile(a, b),
                lo == y1 || lo == y2,
                hi == y1 || hi == y2,
            decreases hi + 1 - y,
        {
            self.set_floor(x, y);
            y += 1;
        }
    }
}

fn walls(n: usize) -> (r: Vec<TileType>)
    ensures
        r@ == Seq::new(n as nat, |i: int| TileType::Wall),
{
    let mut v: Vec<TileType> = Vec::new();
    while v.len() < n
        invariant
            v@.len() <= n,
            forall|i: int| 0 <= i < v@.len() ==> v@[i] == TileType::Wall,
        decreases n - v@.len(),
    {
        v.push(TileType::Wall);
    }
    assert(v@ =~= Seq::new(n as nat, |i: int| TileType::Wall));
    v
}

fn falses(n: usize) -> (r: Vec<bool>)
    ensures
        r@ == Seq::new(n as nat, |i: int| false),
{
    let mut v: Vec<bool> = Vec::new();
    while v.len() < n
        invariant
            v@.len() <= n,
            forall|i: int| 0 <= i < v@.len() ==> v@[i] == false,
        decreases n - v@.len(),
    {
        v.push(false);
    }
    assert(v@ =~= Seq::new(n as nat, |i: int| false));
    v
}

fn empty_lists(n: usize) -> (r: Vec<Vec<usize>>)
    ensures
        r@.len() == n,
        forall|i: int| 0 <= i < n ==> (#[trigger] r@[i])@.len() == 0,
{
    let mut v: Vec<Vec<usize>> = Vec::new();
    while v.len() < n
        invariant
            v@.len() <= n,
            forall|i: int| 0 <= i < v@.len() ==> (#[trigger] v@[i])@.len() == 0,
        decreases n - v@.len(),
    {
        v.push(Vec::new());
    }
    v
}

impl GameMap {
    /// A map of solid wall with no rooms.
    pub fn new_solid(width: i32, height: i32) -> (r: GameMap)
        requires
            2 <= width <= MAX_DIM,
            2 <= height <= MAX_DIM,
        ensures
            r.wf(),
            r.width == width,
            r.height == height,
            r.rooms@.len() == 0,
            r.border_walls(),
            forall|i: int| 0 <= i < r.n_tiles() ==> r.tiles@[i] == TileType::Wall,
            forall|i: int| 0 <= i < r.n_tiles() ==> !r.revealed_tiles@[i] && !r.visible_tiles@[i],
            forall|i: int| 0 <= i < r.n_tiles() ==> !r.blocked@[i],
            forall|i: int| 0 <= i < r.n_tiles() ==> (#[trigger] r.tile_content@[i])@.len() == 0,
    {
        proof {
            lemma_tiles_fit(width as int, height as int);
        }
        let n = (width as usize) * (height as usize);
        let r = GameMap {
            tiles: walls(n),
            rooms: Vec::new(),
            width,
            height,
            revealed_tiles: falses(n),
            visible_tiles: falses(n),
            blocked: falses(n),
            tile_content: empty_lists(n),
        };
        proof {
            assert forall|x: int, y: int|
                r.in_bounds(x, y) && r.on_border(x, y) implies #[trigger] r.tile(x, y)
                == TileType::Wall by {
                lemma_idx_bounds(width as int, height as int, x, y);
            }
        }
        r
    }

    /// Carves `room`, joins it to the previous room by a corridor, and records it.
    fn add_room(&mut self, room: &Rect, horizontal_first: bool)
        requires
            old(self).generated(),
            old(self).room_fits(*room),
            forall|k: int|
                0 <= k < old(self).rooms@.len() ==> !room.intersects_spec(
                    #[trigger] old(self).rooms@[k],
                ),
        ensures
            final(self).generated(),
            final(self).width == old(self).width,
            final(self).height == old(self).height,
            final(self).rooms@ == old(self).rooms@.push(*room),
    {
        let ghost before = *self;
        self.apply_room_to_map(room);
        let ghost m1 = *self;
        let n = self.rooms.len();
        if n > 0 {
            let (new_x, new_y) = room.center();
            proof {
                assert(before.room_fits(before.rooms@[n - 1]));
            }
            let (prev_x, prev_y) = self.rooms[n - 1].center();
            if horizontal_first {
                self.apply_horizontal_tunnel(prev_x, new_x, prev_y);
                let ghost m2 = *self;
                self.apply_vertical_tunnel(prev_y, new_y, new_x);
                proof {
                    lemma_floor_kept_trans(m1, m2, *self);
                    assert forall|x: int|
                        (prev_x <= x <= new_x || new_x <= x <= prev_x) implies #[trigger] self.tile(
                        x,
                        prev_y as int,
                    ) == TileType::Floor by {
                        assert(m2.tile(x, prev_y as int) == TileType::Floor);
                    }
                }
            } else {
                self.apply_vertical_tunnel(prev_y, new_y, prev_x);
                let ghost m2 = *self;
                self.apply_horizontal_tunnel(prev_x, new_x, new_y);
                proof {
                    lemma_floor_kept_trans(m1, m2, *self);
                    assert forall|y: int|
                        (prev_y <= y <= new_y || new_y <= y <= prev_y) implies #[trigger] self.tile(
                        prev_x as int,
                        y,
                    ) == TileType::Floor by {
                        assert(m2.tile(prev_x as int, y) == TileType::Floor);
                    }
                }
            }
            proof {
                assert(self.corridor((prev_x as int, prev_y as int), (new_x as int, new_y as int)));
            }
        }
        proof {
            lemma_floor_kept_trans(before, m1, *self);
            lemma_room_kept(m1, *self, *room);
        }
        let ghost carved = *self;
        self.rooms.push(*room);
        proof {
            lemma_generated_push(before, carved, *self, *room);
        }
    }

    /// Builds a dungeon from a sequence of sampled room placements, tried in order.
    ///
    /// A candidate becomes a room when it fits inside the map and does not touch or overlap
    /// an earlier room; each room after the first is joined to the one before it by an
    /// L-shaped corridor between their centers. Candidates that do not qualify are skipped,
    /// so the map may hold fewer rooms than there were candidates.
    pub fn new_map_rooms_and_corridors(
        width: i32,
        height: i32,
        candidates: &Vec<RoomCandidate>,
    ) -> (r: GameMap)
        requires
            2 <= width <= MAX_DIM,
            2 <= height <= MAX_DIM,
        ensures
            r.generated(),
            r.width == width,
            r.height == height,
            r.rooms@.len() <= candidates@.len(),
            r.rooms_from(candidates@),
            r.rooms@ == accepted(candidates@, width as int, height as int, candidates@.len() as int),
    {
        let mut map = GameMap::new_solid(width, height);
        let mut i: usize = 0;
        while i < candidates.len()
            invariant
                map.generated(),
                map.width == width,
                map.height == height,
                i <= candidates@.len(),
                map.rooms@.len() <= i,
                map.rooms_from(candidates@),
                map.rooms@ == accepted(candidates@, width as int, height as int, i as int),
            decreases candidates@.len() - i,
        {
            let c = candidates[i];
            if c.w >= 2 && c.h >= 2 && c.x >= 0 && c.y >= 0 && c.w <= width && c.h <= height
                && c.x <= width - 2 - c.w && c.y <= height - 2 - c.h {
                let room = Rect::new(c.x, c.y, c.w, c.h);
                let mut ok = true;
                let mut j: usize = 0;
                while j < map.rooms.len()
                    invariant
                        j <= map.rooms@.len(),
                        ok == forall|k: int|
                            0 <= k < j ==> !room.intersects_spec(#[trigger] map.rooms@[k]),
                    decreases map.rooms@.len() - j,
                {
                    if room.intersect(&map.rooms[j]) {
                        ok = false;
                    }
                    j += 1;
                }
                if ok {
                    map.add_room(&room, c.horizontal_first);
                    proof {
                        assert(map.rooms@[map.rooms@.len() - 1] == room);
                        assert(candidates@[i as int] == c);
                    }
                }
            }
            i += 1;
        }
        map
    }
}

pub proof fn lemma_floor_kept_trans(a: GameMap, b: GameMap, c: GameMap)
    requires
        a.floor_kept(b),
        b.floor_kept(c),
        a.same_but_tiles(b),
    ensures
        a.floor_kept(c),
{
    assert forall|x: int, y: int|
        a.in_bounds(x, y) && a.tile(x, y) == TileType::Floor implies #[trigger] c.tile(x, y)
        == TileType::Floor by {
        assert(b.tile(x, y) == TileType::Floor);
    }
}

pub proof fn lemma_room_kept(a: GameMap, b: GameMap, r: Rect)
    requires
        a.floor_kept(b),
        a.room_carved(r),
        a.room_fits(r),
    ensures
        b.room_carved(r),
{
    assert forall|x: int, y: int| r.x1 < x <= r.x2 && r.y1 < y <= r.y2 implies #[trigger] b.tile(
        x,
        y,
    ) == TileType::Floor by {
        assert(a.tile(x, y) == TileType::Floor);
    }
}

/// Recording a carved, non-overlapping room keeps the generator's guarantees.
proof fn lemma_generated_push(before: GameMap, carved: GameMap, after: GameMap, room: Rect)
    requires
        before.generated(),
        before.same_but_tiles(carved),
        before.floor_kept(carved),
        carved.wf(),
        carved.room_carved(room),
        before.room_fits(room),
        forall|k: int|
            0 <= k < before.rooms@.len() ==> !room.intersects_spec(#[trigger] before.rooms@[k]),
        before.rooms@.len() > 0 ==> carved.corridor(
            before.rooms@[before.rooms@.len() - 1].center_spec(),
            room.center_spec(),
        ),
        after.tiles@ == carved.tiles@,
        after.width == carved.width,
        after.height == carved.height,
        after.revealed_tiles@ == carved.revealed_tiles@,
        after.visible_tiles@ == carved.visible_tiles@,
        after.blocked@ == carved.blocked@,
        after.tile_content@ == carved.tile_content@,
        after.rooms@ == before.rooms@.push(room),
    ensures
        after.generated(),
{
    let n = before.rooms@.len();
    assert(after.border_walls()) by {
        assert forall|x: int, y: int|
            after.in_bounds(x, y) && after.on_border(x, y) implies #[trigger] after.tile(x, y)
            == TileType::Wall by {
            assert(carved.tile(x, y) == TileType::Wall);
        }
    }
    assert forall|a: int| 0 <= a < after.rooms@.len() implies after.room_fits(
        #[trigger] after.rooms@[a],
    ) && after.room_carved(after.rooms@[a]) by {
        if a < n {
            assert(after.rooms@[a] == before.rooms@[a]);
            lemma_room_kept(before, carved, before.rooms@[a]);
            assert forall|x: int, y: int|
                after.rooms@[a].x1 < x <= after.rooms@[a].x2 && after.rooms@[a].y1 < y
                    <= after.rooms@[a].y2 implies #[trigger] after.tile(x, y) == TileType::Floor by {
                assert(carved.tile(x, y) == TileType::Floor);
            }
        } else {
            assert forall|x: int, y: int|
                room.x1 < x <= room.x2 && room.y1 < y <= room.y2 implies #[trigger] after.tile(x, y)
                == TileType::Floor by {
                assert(carved.tile(x, y) == TileType::Floor);
            }
        }
    }
    assert forall|i: int, j: int| 0 <= i < j < after.rooms@.len() implies !(
    #[trigger] after.rooms@[j]).intersects_spec(#[trigger] after.rooms@[i]) by {
        if j < n {
            assert(after.rooms@[j] == before.rooms@[j]);
            assert(after.rooms@[i] == before.rooms@[i]);
        } else {
            assert(after.rooms@[i] == before.rooms@[i]);
        }
    }
    assert forall|a: int| 0 < a < after.rooms@.len() implies after.corridor(
        after.rooms@[a - 1].center_spec(),
        (#[trigger] after.rooms@[a]).center_spec(),
    ) by {
        let p = after.rooms@[a - 1].center_spec();
        let q = after.rooms@[a].center_spec();
        if a < n {
            assert(after.rooms@[a] == before.rooms@[a]);
            assert(after.rooms@[a - 1] == before.rooms@[a - 1]);
            assert(before.room_fits(before.rooms@[a]));
            assert(before.room_fits(before.rooms@[a - 1]));
            lemma_corridor_kept(before, carved, p, q);
        }
        lemma_corridor_same_tiles(carved, after, p, q);
    }
    assert(after.wf());
    assert(after.border_walls());
}

proof fn lemma_corridor_same_tiles(a: GameMap, b: GameMap, p: (int, int), q: (int, int))
    requires
        a.tiles@ == b.tiles@,
        a.width == b.width,
        a.corridor(p, q),
    ensures
        b.corridor(p, q),
{
    if a.h_run_floor(p.0, q.0, p.1) && a.v_run_floor(p.1, q.1, q.0) {
        assert forall|x: int| (p.0 <= x <= q.0 || q.0 <= x <= p.0) implies #[trigger] b.tile(x, p.1)
            == TileType::Floor by {
            assert(a.tile(x, p.1) == TileType::Floor);
        }
        assert forall|y: int| (p.1 <= y <= q.1 || q.1 <= y <= p.1) implies #[trigger] b.tile(q.0, y)
            == TileType::Floor by {
            assert(a.tile(q.0, y) == TileType::Floor);
        }
    } else {
        assert forall|y: int| (p.1 <= y <= q.1 || q.1 <= y <= p.1) implies #[trigger] b.tile(p.0, y)
            == TileType::Floor by {
            assert(a.tile(p.0, y) == TileType::Floor);
        }
        assert forall|x: int| (p.0 <= x <= q.0 || q.0 <= x <= p.0) implies #[trigger] b.tile(x, q.1)
            == TileType::Floor by {
            assert(a.tile(x, q.1) == TileType::Floor);
        }
    }
}

/// Floor runs survive any carving that keeps Floor tiles.
pub proof fn lemma_corridor_kept(a: GameMap, b: GameMap, p: (int, int), q: (int, int))
    requires
        a.floor_kept(b),
        a.width == b.width,
        a.corridor(p, q),
        a.in_bounds(p.0, p.1),
        a.in_bounds(q.0, q.1),
    ensures
        b.corridor(p, q),
{
    if a.h_run_floor(p.0, q.0, p.1) && a.v_run_floor(p.1, q.1, q.0) {
        assert forall|x: int| (p.0 <= x <= q.0 || q.0 <= x <= p.0) implies #[trigger] b.tile(x, p.1)
            == TileType::Floor by {
            assert(a.tile(x, p.1) == TileType::Floor);
        }
        assert forall|y: int| (p.1 <= y <= q.1 || q.1 <= y <= p.1) implies #[trigger] b.tile(q.0, y)
            == TileType::Floor by {
            assert(a.tile(q.0, y) == TileType::Floor);
        }
    } else {
        assert forall|y: int| (p.1 <= y <= q.1 || q.1 <= y <= p.1) implies #[trigger] b.tile(p.0, y)
            == TileType::Floor by {
            assert(a.tile(p.0, y) == TileType::Floor);
        }
        assert forall|x: int| (p.0 <= x <= q.0 || q.0 <= x <= p.0) implies #[trigger] b.tile(x, q.1)
            == TileType::Floor by {
            assert(a.tile(x, q.1) == TileType::Floor);
        }
    }
}

} // verus!
