use vstd::prelude::*;
use rltk::RandomNumberGenerator;
use crate::map::{accepted, candidate_fits, lemma_accepted_nonempty, GameMap, RoomCandidate, MAX_DIM};

verus! {

#[verifier::external_type_specification]
#[verifier::external_body]
pub struct ExRandomNumberGenerator(RandomNumberGenerator);

/// Relies on rltk's `RandomNumberGenerator::range`, which draws uniformly from `min..max`
/// and panics on an empty range.
#[verifier::external_body]
fn roll_range(rng: &mut RandomNumberGenerator, min: i32, max: i32) -> (r: i32)
    requires
        min < max,
    ensures
        min <= r < max,
{
    rng.range(min, max)
}

/// Smallest and largest room side drawn by `generate`.
pub const MIN_SIZE: i32 = 6;
pub const MAX_SIZE: i32 = 10;

/// Draws `attempts` room placements, each of which fits a `width` by `height` map.
pub fn draw_candidates(rng: &mut RandomNumberGenerator, width: i32, height: i32, attempts: usize) -> (r: Vec<RoomCandidate>)
    requires
        MAX_SIZE + 3 <= width <= MAX_DIM,
        MAX_SIZE + 3 <= height <= MAX_DIM,
    ensures
        r@.len() == attempts,
        forall|k: int| 0 <= k < r@.len() ==> candidate_fits(#[trigger] r@[k], width as int, height as int),
        forall|k: int| 0 <= k < r@.len() ==> MIN_SIZE <= (#[trigger] r@[k]).w < MAX_SIZE && MIN_SIZE <= r@[k].h < MAX_SIZE,
{
    let mut out: Vec<RoomCandidate> = Vec::new();
    while out.len() < attempts
        invariant
            MAX_SIZE + 3 <= width <= MAX_DIM,
            MAX_SIZE + 3 <= height <= MAX_DIM,
            out@.len() <= attempts,
            forall|k: int| 0 <= k < out@.len() ==> candidate_fits(#[trigger] out@[k], width as int, height as int),
            forall|k: int| 0 <= k < out@.len() ==> MIN_SIZE <= (#[trigger] out@[k]).w < MAX_SIZE && MIN_SIZE <= out@[k].h < MAX_SIZE,
        decreases attempts - out@.len(),
    {
        let w = roll_range(rng, MIN_SIZE, MAX_SIZE);
        let h = roll_range(rng, MIN_SIZE, MAX_SIZE);
        let x = roll_range(rng, 0, width - w - 2);
        let y = roll_range(rng, 0, height - h - 2);
        let horizontal_first = roll_range(rng, 0, 2) == 1;
        out.push(RoomCandidate { x, y, w, h, horizontal_first });
    }
    out
}

/// A random dungeon of up to `max_rooms` rooms, with the generator's guarantees.
pub fn generate(rng: &mut RandomNumberGenerator, width: i32, height: i32, max_rooms: usize) -> (r: GameMap)
    requires
        MAX_SIZE + 3 <= width <= MAX_DIM,
        MAX_SIZE + 3 <= height <= MAX_DIM,
    ensures
        r.generated(),
        r.width == width,
        r.height == height,
        r.rooms@.len() <= max_rooms,
        max_rooms >= 1 ==> r.rooms@.len() >= 1,
        exists|c: Seq<RoomCandidate>|
            #![trigger accepted(c, width as int, height as int, max_rooms as int)]
            c.len() == max_rooms && (forall|k: int|
                0 <= k < c.len() ==> candidate_fits(#[trigger] c[k], width as int, height as int)
                    && MIN_SIZE <= c[k].w < MAX_SIZE && MIN_SIZE <= c[k].h < MAX_SIZE) && r.rooms@
                == accepted(c, width as int, height as int, max_rooms as int),
{
    let candidates = draw_candidates(rng, width, height, max_rooms);
    let r = GameMap::new_map_rooms_and_corridors(width, height, &candidates);
    proof {
        if max_rooms >= 1 {
            lemma_accepted_nonempty(candidates@, width as int, height as int, max_rooms as int);
        }
    }
    r
}

} // verus!
