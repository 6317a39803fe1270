use vstd::prelude::*;
use bevy_turborand::prelude::GlobalRng;
use crate::geometry::{sq_dist, squared_distance, touching_sq};
use crate::rng::draw_in;

verus! {

/// Consecutive rejected draws after which placement gives up.
pub const MAX_FAILS: usize = 1000;

/// A point of the placement frame `[0, width) x [0, height)`.
#[derive(Clone, Copy, Debug, PartialEq, Eq, Structural)]
pub struct Point {
    pub x: u32,
    pub y: u32,
}

/// Circles of radius `radius` centred at `p` and `q` are strictly apart:
/// their distance exceeds `2 * radius`.
pub open spec fn apart(p: Point, q: Point, radius: int) -> bool {
    sq_dist(p.x as int, p.y as int, q.x as int, q.y as int) > 4 * radius * radius
}

/// `p` is apart from every point of `pts`.
pub open spec fn fits(pts: Seq<Point>, p: Point, radius: int) -> bool {
    forall|i: int| 0 <= i < pts.len() ==> apart(#[trigger] pts[i], p, radius)
}

/// Every two points of `pts` are apart.
pub open spec fn spread(pts: Seq<Point>, radius: int) -> bool {
    forall|i: int, j: int| 0 <= i < j < pts.len() ==> apart(#[trigger] pts[i], #[trigger] pts[j], radius)
}

pub open spec fn inside(p: Point, width: int, height: int) -> bool {
    p.x < width && p.y < height
}

/// Each point of `pts` is one of the first `n` candidates.
pub open spec fn drawn_from(pts: Seq<Point>, cands: Seq<Point>, n: int) -> bool {
    forall|i: int|
        0 <= i < pts.len() ==> exists|k: int| 0 <= k < n && #[trigger] cands[k] == #[trigger] pts[i]
}

/// Whether a circle at `p` overlaps none of the circles at `pts`.
pub fn fits_among(pts: &Vec<Point>, p: Point, radius: u32) -> (r: bool)
    ensures
        r == fits(pts@, p, radius as int),
{
    let limit = touching_sq(radius);
    let mut i: usize = 0;
    while i < pts.len()
        invariant
            0 <= i <= pts.len(),
            limit == 4 * radius * radius,
            forall|k: int| 0 <= k < i ==> apart(#[trigger] pts@[k], p, radius as int),
        decreases pts.len() - i,
    {
        let q = pts[i];
        let d = squared_distance(q.x as i64, q.y as i64, p.x as i64, p.y as i64);
        if d <= limit {
            return false;
        }
        i += 1;
    }
    true
}

/// One step of rejection sampling: `candidate` is accepted (appended, and the
/// rejection count reset) when it fits among `places`, else rejected (the
/// count grows by one). Sampling is done once `number` points are placed or
/// `MAX_FAILS` candidates in a row were rejected.
pub fn place_step(
    places: &mut Vec<Point>,
    fails: usize,
    candidate: Point,
    radius: u32,
    number: usize,
) -> (r: (usize, bool))
    requires
        fails < usize::MAX,
    ensures
        fits(old(places)@, candidate, radius as int) ==> final(places)@ == old(places)@.push(
            candidate,
        ) && r.0 == 0,
        !fits(old(places)@, candidate, radius as int) ==> final(places)@ == old(places)@ && r.0
            == fails + 1,
        r.1 == (final(places)@.len() >= number || r.0 >= MAX_FAILS),
{
    let fails_after = if fits_among(places, candidate, radius) {
        places.push(candidate);
        0
    } else {
        fails + 1
    };
    (fails_after, places.len() >= number || fails_after >= MAX_FAILS)
}

/// A point that fits among `s.push(p)` fits among `s`.
proof fn lemma_fits_prefix(s: Seq<Point>, p: Point, c: Point, radius: int)
    requires
        fits(s.push(p), c, radius),
    ensures
        fits(s, c, radius),
{
    assert forall|i: int| 0 <= i < s.len() implies apart(#[trigger] s[i], c, radius) by {
        assert(s.push(p)[i] == s[i]);
    }
}

/// Rejection sampling over given candidates, in order: returns the points
/// placed and how many candidates were looked at. It stops once `number`
/// points are placed, the candidates run out, or `MAX_FAILS` candidates in a
/// row were rejected; so it places fewer than `number` only when the
/// candidates ran out or the last `MAX_FAILS` looked at all overlap a placed
/// point.
pub fn place_among(number: usize, radius: u32, candidates: &Vec<Point>) -> (r: (Vec<Point>, usize))
    ensures
        r.0.len() <= number,
        r.1 <= candidates.len(),
        spread(r.0@, radius as int),
        drawn_from(r.0@, candidates@, r.1 as int),
        forall|k: int|
            0 <= k < r.1 && fits(r.0@, #[trigger] candidates@[k], radius as int) ==> r.0@.contains(
                candidates@[k],
            ),
        r.0.len() < number ==> r.1 == candidates.len() || (MAX_FAILS <= r.1 && forall|k: int|
            r.1 - MAX_FAILS <= k < r.1 ==> !fits(r.0@, #[trigger] candidates@[k], radius as int)),
{
    let mut res: Vec<Point> = Vec::new();
    let mut fails: usize = 0;
    let mut used: usize = 0;
    while res.len() < number && used < candidates.len()
        invariant_except_break
            fails < MAX_FAILS,
        invariant
            res.len() <= number,
            used <= candidates.len(),
            fails <= used,
            spread(res@, radius as int),
            drawn_from(res@, candidates@, used as int),
            forall|k: int|
                0 <= k < used && fits(res@, #[trigger] candidates@[k], radius as int) ==> res@.contains(
                    candidates@[k],
                ),
            forall|k: int|
                used - fails <= k < used ==> !fits(res@, #[trigger] candidates@[k], radius as int),
        ensures
            res.len() < number ==> used == candidates.len() || fails >= MAX_FAILS,
        decreases candidates.len() - used,
    {
        let point = candidates[used];
        let ghost before = res@;
        let (f, done) = place_step(&mut res, fails, point, radius, number);
        fails = f;
        used += 1;
        if fails == 0 {
            assert forall|k: int|
                0 <= k < used && fits(res@, #[trigger] candidates@[k], radius as int) implies res@.contains(
                candidates@[k],
            ) by {
                if k == used - 1 {
                    assert(res@[before.len() as int] == point);
                } else {
                    lemma_fits_prefix(before, point, candidates@[k], radius as int);
                    let w = choose|w: int| 0 <= w < before.len() && before[w] == candidates@[k];
                    assert(res@[w] == before[w]);
                }
            }
            assert forall|i: int, j: int| 0 <= i < j < res.len() implies apart(
                #[trigger] res@[i],
                #[trigger] res@[j],
                radius as int,
            ) by {
                if j == before.len() {
                    assert(apart(before[i], point, radius as int));
                } else {
                    assert(apart(before[i], before[j], radius as int));
                }
            }
            assert forall|i: int| 0 <= i < res.len() implies exists|k: int|
                0 <= k < used && #[trigger] candidates@[k] == #[trigger] res@[i] by {
                if i == before.len() {
                    assert(candidates@[used - 1] == res@[i]);
                } else {
                    assert(res@[i] == before[i]);
                }
            }
        }
        if done {
            break;
        }
    }
    assert(drawn_from(res@, candidates@, used as int));
    (res, used)
}

/// Scatters up to `number` points in `[0, width) x [0, height)` such that
/// circles of radius `radius` at them do not overlap. Points are drawn at
/// random and rejected while they overlap one already placed; after
/// `MAX_FAILS` consecutive rejections it stops with the points found so far.
pub fn generate_circle_places(
    number: usize,
    radius: u32,
    width: u32,
    height: u32,
    rng: &mut GlobalRng,
) -> (r: Vec<Point>)
    requires
        width > 0,
        height > 0,
    ensures
        r.len() <= number,
        number > 0 ==> r.len() > 0,
        number == 0 ==> *final(rng) == *old(rng),
        spread(r@, radius as int),
        forall|i: int| 0 <= i < r.len() ==> inside(#[trigger] r@[i], width as int, height as int),
{
    let mut res: Vec<Point> = Vec::new();
    let mut fails: usize = 0;
    while res.len() < number
        invariant_except_break
            fails < MAX_FAILS,
        invariant
            res.len() <= number,
            res.len() == 0 ==> fails == 0,
            number == 0 ==> *rng == *old(rng),
            width > 0,
            height > 0,
            spread(res@, radius as int),
            forall|i: int| 0 <= i < res.len() ==> inside(#[trigger] res@[i], width as int, height as int),
        ensures
            res.len() < number ==> fails >= MAX_FAILS,
        decreases (number - res.len()) * (MAX_FAILS + 1) + (MAX_FAILS - fails),
    {
        let x = draw_in(rng, 0, width as usize);
        let y = draw_in(rng, 0, height as usize);
        let point = Point { x: x as u32, y: y as u32 };
        let ghost before = res@;
        let (f, done) = place_step(&mut res, fails, point, radius, number);
        fails = f;
        if fails == 0 {
            assert forall|i: int, j: int| 0 <= i < j < res.len() implies apart(
                #[trigger] res@[i],
                #[trigger] res@[j],
                radius as int,
            ) by {
                if j == before.len() {
                    assert(apart(before[i], point, radius as int));
                } else {
                    assert(apart(before[i], before[j], radius as int));
                }
            }
            assert((number - res.len()) * (MAX_FAILS + 1) + MAX_FAILS < (number - before.len()) * (
            MAX_FAILS + 1)) by (nonlinear_arith)
                requires
                    res.len() == before.len() + 1,
                    before.len() < number,
            ;
        }
        if done {
            break;
        }
    }
    res
}

} // verus!
