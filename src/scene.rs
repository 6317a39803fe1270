use vstd::prelude::*;
use bevy_turborand::prelude::GlobalRng;
use crate::color::{combined, in_band, random_color, CircleGroup, Hsla};
use crate::geometry::{sq_dist, squared_distance, touching_sq};
use crate::placement::{apart, generate_circle_places, inside, Point};

verus! {

/// Radius of every circle.
pub const RADIUS: u32 = 40;
/// Number of circles scattered at the start.
pub const NUM: usize = 20;
/// Size of the area the circles are scattered in, centred on the origin.
pub const AREA_WIDTH: u32 = 600;
pub const AREA_HEIGHT: u32 = 400;

/// Largest value of a channel of a circle's own color.
pub const CHANNEL_LIMIT: u64 = 0xFFFF_FFFF;

/// An entity of the scene: a circle (it has a base color) or a group of two
/// circles (it has a `group`). Its position is relative to its parent.
#[derive(Clone, Copy, Debug)]
pub struct Node {
    pub x: i32,
    pub y: i32,
    pub parent: Option<usize>,
    pub draggable: bool,
    /// The circle's own color; `None` for a group.
    pub base_color: Option<Hsla>,
    /// The color the entity is drawn with.
    pub shown_color: Option<Hsla>,
    /// The colors of a group; `None` for a circle.
    pub group: Option<CircleGroup>,
    /// The two circles a group owns.
    pub members: Option<(usize, usize)>,
}

/// An arena of entities, identified by their index.
pub struct Scene {
    nodes: Vec<Node>,
}

impl View for Scene {
    type V = Seq<Node>;

    closed spec fn view(&self) -> Seq<Node> {
        self.nodes@
    }
}

/// Every channel is at most `CHANNEL_LIMIT`, so two such colors can be combined.
pub open spec fn channels_bounded(c: Hsla) -> bool {
    &&& c.hue <= CHANNEL_LIMIT
    &&& c.saturation <= CHANNEL_LIMIT
    &&& c.lightness <= CHANNEL_LIMIT
    &&& c.alpha <= CHANNEL_LIMIT
}

/// A circle that is free: draggable and in no group. Only these are checked
/// for overlap.
pub open spec fn eligible(n: Node) -> bool {
    n.base_color.is_some() && n.draggable && n.parent.is_none()
}

/// Two circles overlap when their distance is below twice the radius.
pub open spec fn overlapping(a: Node, b: Node) -> bool {
    sq_dist(a.x as int, a.y as int, b.x as int, b.y as int) < 4 * RADIUS * RADIUS
}

/// The group entity formed from circles `a` and `b`.
pub open spec fn group_node(a: usize, b: usize, ca: Hsla, cb: Hsla) -> Node {
    Node {
        x: 0,
        y: 0,
        parent: None,
        draggable: true,
        base_color: None,
        shown_color: Some(combined(ca, cb)),
        group: Some(CircleGroup { combined_color: combined(ca, cb), individual_colors: (ca, cb) }),
        members: Some((a, b)),
    }
}

/// After an overlap pass from `pre` to `post`, each group `g` that the pass
/// formed owns exactly its two circles; neither can be dragged any more, and
/// both show the group's color, the combination of their own colors.
pub proof fn lemma_pass_groups(pre: Seq<Node>, post: Scene, g: int)
    requires
        post.wf(),
        pass_effect(pre, post@),
        pre.len() <= g < post@.len(),
    ensures
        ({
            let (a, b) = post@[g].members.unwrap();
            let c = combined(pre[a as int].base_color.unwrap(), pre[b as int].base_color.unwrap());
            &&& post@[g].group.unwrap().combined_color == c
            &&& post@[g].group.unwrap().individual_colors == (
                pre[a as int].base_color.unwrap(),
                pre[b as int].base_color.unwrap(),
            )
            &&& post@[a as int].parent == Some(g as usize)
            &&& post@[b as int].parent == Some(g as usize)
            &&& !post@[a as int].draggable
            &&& !post@[b as int].draggable
            &&& post@[a as int].shown_color == Some(c)
            &&& post@[b as int].shown_color == Some(c)
            &&& forall|k: int|
                0 <= k < post@.len() ==> ((#[trigger] post@[k]).parent == Some(g as usize) <==> (k
                    == a || k == b))
        }),
{
    let s = post@;
    let (a, b) = s[g].members.unwrap();
    assert(s[g].members.is_some());
    assert(!eligible(s[a as int]));
    assert(!eligible(s[b as int]));
    assert forall|k: int| 0 <= k < s.len() implies ((#[trigger] s[k]).parent == Some(g as usize) <==> (
    k == a || k == b)) by {
        if s[k].parent == Some(g as usize) {
            assert(s[g].members.unwrap().0 == k || s[g].members.unwrap().1 == k);
        }
    }
}

/// When `a` and `b` are the only free circles that overlap, an overlap pass
/// forms exactly one group, of `a` and `b`, and leaves every other entity as
/// it was.
pub proof fn lemma_single_overlap(pre: Seq<Node>, post: Scene, a: int, b: int)
    requires
        post.wf(),
        pass_effect(pre, post@),
        in_order(pre, post@),
        settled(post@, pre.len() as int),
        0 <= a < b < pre.len(),
        eligible(pre[a]),
        eligible(pre[b]),
        overlapping(pre[a], pre[b]),
        forall|i: int, j: int|
            0 <= i < j < pre.len() && eligible(#[trigger] pre[i]) && eligible(#[trigger] pre[j])
                && overlapping(pre[i], pre[j]) ==> i == a && j == b,
    ensures
        post@.len() == pre.len() + 1,
        post@[pre.len() as int].members == Some((a as usize, b as usize)),
        forall|k: int| 0 <= k < pre.len() && k != a && k != b ==> #[trigger] post@[k] == pre[k],
{
    let s = post@;
    let n = pre.len() as int;
    assert forall|g: int| n <= g < s.len() implies #[trigger] s[g].members == Some(
        (a as usize, b as usize),
    ) by {
        let (x, y) = s[g].members.unwrap();
        assert(x < y);
    }
    if eligible(s[a]) && eligible(s[b]) {
        assert(s[a] == pre[a] && s[b] == pre[b]);
        assert(!overlapping(s[a], s[b]));
    }
    let ga = s[a].parent.unwrap() as int;
    if !eligible(s[a]) {
        assert(s[ga].members == Some((a as usize, b as usize)));
    } else {
        let gb = s[b].parent.unwrap() as int;
        assert(!eligible(s[b]));
        assert(s[gb].members == Some((a as usize, b as usize)));
    }
    assert(s.len() > n);
    if s.len() > n + 1 {
        assert(s[n].members == Some((a as usize, b as usize)));
        assert(s[n + 1].members == Some((a as usize, b as usize)));
        assert(s[a].parent == Some(n as usize));
        assert(s[a].parent == Some((n + 1) as usize));
    }
    assert forall|k: int| 0 <= k < n && k != a && k != b implies #[trigger] s[k] == pre[k] by {
        if eligible(pre[k]) && !eligible(s[k]) {
            let g = s[k].parent.unwrap() as int;
            assert(s[g].members == Some((a as usize, b as usize)));
        }
    }
}

/// A free circle at `(x, y)` of color `c`.
pub open spec fn circle_at(x: int, y: int, c: Hsla) -> Node {
    Node {
        x: x as i32,
        y: y as i32,
        parent: None,
        draggable: true,
        base_color: Some(c),
        shown_color: Some(c),
        group: None,
        members: None,
    }
}

/// Circle `n` after joining group `g` of color `c`.
pub open spec fn joined(n: Node, g: usize, c: Hsla) -> Node {
    Node { parent: Some(g), draggable: false, shown_color: Some(c), ..n }
}

/// What a pass over the first `n` entities of `pre` may have done to reach
/// `post`: free circles either stay as they were or joined a group formed in
/// the pass; other entities are untouched; each new entity is the group of two
/// free circles of `pre` that overlapped.
pub open spec fn pass_effect(pre: Seq<Node>, post: Seq<Node>) -> bool {
    &&& post.len() >= pre.len()
    &&& forall|k: int|
        0 <= k < pre.len() && (eligible(#[trigger] post[k]) || !eligible(pre[k])) ==> post[k]
            == pre[k]
    &&& forall|k: int|
        0 <= k < pre.len() && eligible(pre[k]) && !eligible(#[trigger] post[k]) ==> {
            let g = post[k].parent.unwrap();
            &&& post[k].parent.is_some()
            &&& pre.len() <= g < post.len()
            &&& post[k] == joined(pre[k], g, post[g as int].shown_color.unwrap())
        }
    &&& forall|g: int|
        pre.len() <= g < post.len() ==> {
            let (a, b) = (#[trigger] post[g]).members.unwrap();
            &&& post[g].members.is_some()
            &&& a < pre.len()
            &&& b < pre.len()
            &&& eligible(pre[a as int])
            &&& eligible(pre[b as int])
            &&& overlapping(pre[a as int], pre[b as int])
            &&& post[g] == group_node(
                a,
                b,
                pre[a as int].base_color.unwrap(),
                pre[b as int].base_color.unwrap(),
            )
        }
}

/// Entity `k` of `post` belongs to a group that precedes entity `g`.
pub open spec fn grouped_before(post: Seq<Node>, k: int, g: int) -> bool {
    post[k].parent.is_some() && post[k].parent.unwrap() < g
}

/// Pair `(a, b)` comes before pair `(c, d)` in index order.
pub open spec fn pair_lt(a: usize, b: usize, c: usize, d: usize) -> bool {
    a < c || (a == c && b < d)
}

/// The pairs that a pass looked at before `(a, b)` and that held a circle
/// `p` other than `a` and `b` overlapping one of them.
pub open spec fn earlier_rival(pre: Seq<Node>, a: int, b: int, p: int) -> bool {
    &&& 0 <= p < b
    &&& p != a
    &&& eligible(pre[p])
    &&& ((p < a && overlapping(pre[p], pre[a])) || (a < p && overlapping(pre[a], pre[p])) || (p < a
        && overlapping(pre[p], pre[b])))
}

/// The groups of a pass were formed greedily over the pairs in index order:
/// each new group `(a, b)` has `a < b`; every free circle that overlapped `a`
/// or `b` in a pair looked at earlier had already joined an earlier group; and
/// the groups were appended in the order of their pairs.
pub open spec fn in_order(pre: Seq<Node>, post: Seq<Node>) -> bool {
    &&& forall|g: int|
        pre.len() <= g < post.len() ==> {
            let (a, b) = (#[trigger] post[g]).members.unwrap();
            &&& a < b
            &&& forall|p: int|
                earlier_rival(pre, a as int, b as int, p) ==> #[trigger] grouped_before(post, p, g)
        }
    &&& forall|g: int, h: int|
        pre.len() <= g < h < post.len() ==> pair_lt(
            (#[trigger] post[g]).members.unwrap().0,
            post[g].members.unwrap().1,
            (#[trigger] post[h]).members.unwrap().0,
            post[h].members.unwrap().1,
        )
}

/// No two free circles among the first `n` entities overlap.
pub open spec fn settled(s: Seq<Node>, n: int) -> bool {
    forall|i: int, j: int|
        0 <= i < j < n && eligible(#[trigger] s[i]) && eligible(#[trigger] s[j]) ==> !overlapping(
            s[i],
            s[j],
        )
}

/// The entities `s` after circles `a` and `b` joined a new group, appended
/// at the end.
pub open spec fn grouped(s: Seq<Node>, a: usize, b: usize) -> Seq<Node> {
    let ca = s[a as int].base_color.unwrap();
    let cb = s[b as int].base_color.unwrap();
    let g = s.len() as usize;
    s.update(a as int, joined(s[a as int], g, combined(ca, cb))).update(
        b as int,
        joined(s[b as int], g, combined(ca, cb)),
    ).push(group_node(a, b, ca, cb))
}

/// Once free circles `a` and `b` are grouped, neither can be dragged, both
/// show the combined color of their own colors, the new group can be dragged
/// and shows that color too, and it owns exactly `a` and `b`.
pub proof fn lemma_grouping_effects(pre: Scene, a: usize, b: usize)
    requires
        pre.wf(),
        a < pre@.len(),
        b < pre@.len(),
        a != b,
        eligible(pre@[a as int]),
        eligible(pre@[b as int]),
    ensures
        ({
            let post = grouped(pre@, a, b);
            let g = pre@.len() as usize;
            let c = combined(
                pre@[a as int].base_color.unwrap(),
                pre@[b as int].base_color.unwrap(),
            );
            &&& !post[a as int].draggable
            &&& !post[b as int].draggable
            &&& post[a as int].shown_color == Some(c)
            &&& post[b as int].shown_color == Some(c)
            &&& post[g as int].draggable
            &&& post[g as int].group.unwrap().combined_color == c
            &&& post[g as int].members == Some((a, b))
            &&& forall|k: int|
                0 <= k < post.len() ==> ((#[trigger] post[k]).parent == Some(g) <==> (k
                    == a || k == b))
        }),
{
    let post = grouped(pre@, a, b);
    let g = pre@.len() as usize;
    assert forall|k: int| 0 <= k < post.len() implies ((#[trigger] post[k]).parent == Some(g) <==> (k == a || k == b)) by {
        if k == g {
            assert(post[k].parent.is_none());
        } else if k != a && k != b {
            assert(post[k] == pre@[k]);
            if pre@[k].parent.is_some() {
                assert(pre@[k].parent.unwrap() < pre@.len());
                assert(pre@[k].parent.unwrap() < g);
            }
        }
    }
}

/// Circles at `a` and `b` are strictly apart: distance above twice the radius.
pub open spec fn clear_of(a: Node, b: Node) -> bool {
    sq_dist(a.x as int, a.y as int, b.x as int, b.y as int) > 4 * RADIUS * RADIUS
}

/// Two circles side by side overlap exactly when the gap between their
/// centres is below twice the radius: at `2 * RADIUS - eps` they overlap, at
/// `2 * RADIUS + eps` they do not. `eps` stays below `4 * RADIUS`: beyond it
/// the first centre lies `2 * RADIUS` or more to the other side.
pub proof fn lemma_overlap_threshold(a: Node, b: Node, eps: int)
    requires
        a.y == b.y,
        0 < eps < 4 * RADIUS,
    ensures
        b.x - a.x == 2 * RADIUS - eps ==> overlapping(a, b),
        b.x - a.x == 2 * RADIUS + eps ==> !overlapping(a, b),
{
    let d = b.x - a.x;
    assert(sq_dist(a.x as int, a.y as int, b.x as int, b.y as int) == d * d) by (nonlinear_arith)
        requires
            a.y == b.y,
            d == b.x - a.x,
    ;
    if d == 2 * RADIUS - eps {
        assert(d * d < 80 * 80) by (nonlinear_arith)
            requires
                -80 < d < 80,
        ;
    }
    if d == 2 * RADIUS + eps {
        assert(d * d > 80 * 80) by (nonlinear_arith)
            requires
                d > 80,
        ;
    }
}

/// One grouping of a pass keeps what the pass states: the pair `(i, j)` is
/// looked at, both are free and overlap, and every earlier pair is settled.
proof fn lemma_pass_step(pre: Seq<Node>, mid: Seq<Node>, i: usize, j: usize)
    requires
        i < j < pre.len(),
        mid.len() >= pre.len(),
        mid.len() <= usize::MAX,
        eligible(mid[i as int]),
        eligible(mid[j as int]),
        overlapping(mid[i as int], mid[j as int]),
        pass_effect(pre, mid),
        in_order(pre, mid),
        forall|g: int|
            pre.len() <= g < mid.len() ==> pair_lt(
                (#[trigger] mid[g]).members.unwrap().0,
                mid[g].members.unwrap().1,
                i,
                j,
            ),
        forall|p: int, q: int|
            0 <= p < i && p < q < pre.len() && eligible(#[trigger] mid[p]) && eligible(
                #[trigger] mid[q],
            ) ==> !overlapping(mid[p], mid[q]),
        forall|q: int|
            i < q < j && eligible(mid[i as int]) && eligible(#[trigger] mid[q]) ==> !overlapping(
                mid[i as int],
                mid[q],
            ),
    ensures
        ({
            let post = grouped(mid, i, j);
            &&& pass_effect(pre, post)
            &&& in_order(pre, post)
            &&& forall|g: int|
                pre.len() <= g < post.len() ==> pair_lt(
                    (#[trigger] post[g]).members.unwrap().0,
                    post[g].members.unwrap().1,
                    i,
                    (j + 1) as usize,
                )
            &&& forall|p: int, q: int|
                0 <= p < i && p < q < pre.len() && eligible(#[trigger] post[p]) && eligible(
                    #[trigger] post[q],
                ) ==> !overlapping(post[p], post[q])
            &&& !eligible(post[i as int])
        }),
{
    let post = grouped(mid, i, j);
    let g = mid.len() as int;
    let n = pre.len();
    assert forall|k: int|
        0 <= k < pre.len() && (eligible(#[trigger] post[k]) || !eligible(
            pre[k],
        )) implies post[k] == pre[k] by {
        if k != i && k != j {
            assert(post[k] == mid[k]);
        }
    }
    assert forall|k: int|
        0 <= k < pre.len() && eligible(pre[k]) && !eligible(
            #[trigger] post[k],
        ) implies {
        let g = post[k].parent.unwrap();
        &&& post[k].parent.is_some()
        &&& pre.len() <= g < post.len()
        &&& post[k] == joined(pre[k], g, post[g as int].shown_color.unwrap())
    } by {
        if k != i && k != j {
            assert(post[k] == mid[k]);
            assert(!eligible(mid[k]));
            let h = mid[k].parent.unwrap();
            assert(post[h as int] == mid[h as int]);
        } else {
            assert(mid[k] == pre[k]);
        }
    }
    assert forall|h: int| pre.len() <= h < post.len() implies {
        let (a, b) = (#[trigger] post[h]).members.unwrap();
        &&& post[h].members.is_some()
        &&& a < pre.len()
        &&& b < pre.len()
        &&& eligible(pre[a as int])
        &&& eligible(pre[b as int])
        &&& overlapping(pre[a as int], pre[b as int])
        &&& post[h] == group_node(
            a,
            b,
            pre[a as int].base_color.unwrap(),
            pre[b as int].base_color.unwrap(),
        )
    } by {
        if h != g {
            assert(post[h] == mid[h]);
        } else {
            assert(mid[i as int] == pre[i as int]);
            assert(mid[j as int] == pre[j as int]);
        }
    }
    assert forall|h: int| pre.len() <= h < post.len() implies {
        let (a, b) = (#[trigger] post[h]).members.unwrap();
        &&& a < b
        &&& forall|p: int|
            earlier_rival(pre, a as int, b as int, p) ==> #[trigger] grouped_before(
                post,
                p,
                h,
            )
    } by {
        let (a, b) = post[h].members.unwrap();
        assert forall|p: int| earlier_rival(pre, a as int, b as int, p) implies #[trigger] grouped_before(
            post,
            p,
            h,
        ) by {
            if h != g {
                assert(post[h] == mid[h]);
                assert(grouped_before(mid, p, h));
                assert(p != i && p != j);
                assert(post[p] == mid[p]);
            } else {
                assert(a == i && b == j);
                assert(mid[i as int] == pre[i as int]);
                assert(mid[j as int] == pre[j as int]);
                if p < i {
                    if overlapping(pre[p], pre[i as int]) {
                        assert(!eligible(mid[p]));
                    } else {
                        assert(!eligible(mid[p]));
                    }
                } else {
                    assert(!eligible(mid[p]));
                }
                let hp = mid[p].parent.unwrap();
                assert(post[p] == mid[p]);
                assert(hp < mid.len());
            }
        }
    }
    assert forall|x: int, y: int| pre.len() <= x < y < post.len() implies pair_lt(
        (#[trigger] post[x]).members.unwrap().0,
        post[x].members.unwrap().1,
        (#[trigger] post[y]).members.unwrap().0,
        post[y].members.unwrap().1,
    ) by {
        if y == g {
            assert(post[x] == mid[x]);
        } else {
            assert(post[x] == mid[x]);
            assert(post[y] == mid[y]);
        }
    }
    assert(!eligible(post[i as int]));
    assert forall|p: int, q: int|
        0 <= p < i && p < q < n && eligible(#[trigger] post[p]) && eligible(
            #[trigger] post[q],
        ) implies !overlapping(post[p], post[q]) by {
        assert(post[p] == mid[p]);
        assert(post[q] == mid[q]);
    }
    assert forall|h: int| pre.len() <= h < post.len() implies pair_lt(
        (#[trigger] post[h]).members.unwrap().0,
        post[h].members.unwrap().1,
        i,
        (j + 1) as usize,
    ) by {
        if h != g {
            assert(post[h] == mid[h]);
        }
    }
}

impl Scene {
    /// Well-formed: circles' colors are bounded, each group owns exactly its
    /// two members, and an entity with a parent is one of its parent's members.
    pub open spec fn wf(&self) -> bool {
        let n = self@;
        &&& n.len() <= usize::MAX
        &&& forall|i: int|
            0 <= i < n.len() && (#[trigger] n[i]).base_color.is_some() ==> channels_bounded(
                n[i].base_color.unwrap(),
            ) && n[i].members.is_none()
        &&& forall|i: int|
            0 <= i < n.len() && (#[trigger] n[i]).parent.is_some() ==> {
                let p = n[i].parent.unwrap() as int;
                &&& 0 <= p < n.len()
                &&& n[p].members.is_some()
                &&& (n[p].members.unwrap().0 == i || n[p].members.unwrap().1 == i)
            }
        &&& forall|g: int|
            0 <= g < n.len() && (#[trigger] n[g]).members.is_some() ==> {
                let (a, b) = n[g].members.unwrap();
                &&& a < n.len()
                &&& b < n.len()
                &&& a != b
                &&& n[a as int].parent == Some(g as usize)
                &&& n[b as int].parent == Some(g as usize)
            }
    }

    /// An empty scene.
    pub fn new() -> (r: Scene)
        ensures
            r.wf(),
            r@.len() == 0,
    {
        Scene { nodes: Vec::new() }
    }

    /// Adds a free circle of color `color` at `(x, y)` and returns its index.
    pub fn spawn_circle(&mut self, x: i32, y: i32, color: Hsla) -> (id: usize)
        requires
            old(self).wf(),
            channels_bounded(color),
        ensures
            final(self).wf(),
            id == old(self)@.len(),
            final(self)@ == old(self)@.push(
                Node {
                    x,
                    y,
                    parent: None,
                    draggable: true,
                    base_color: Some(color),
                    shown_color: Some(color),
                    group: None,
                    members: None,
                },
            ),
    {
        let id = self.nodes.len();
        self.nodes.push(
            Node {
                x,
                y,
                parent: None,
                draggable: true,
                base_color: Some(color),
                shown_color: Some(color),
                group: None,
                members: None,
            },
        );
        assert(self.nodes@.len() == self.nodes.len());
        id
    }

    /// Adds a free circle for each point of `places`, taken in the placement
    /// frame of the area and moved so that the area is centred on the origin,
    /// with the color of the same index in `colors`.
    pub fn spawn_circles(&mut self, places: &Vec<Point>, colors: &Vec<Hsla>)
        requires
            old(self).wf(),
            places.len() == colors.len(),
            forall|i: int|
                0 <= i < places.len() ==> inside(
                    #[trigger] places@[i],
                    AREA_WIDTH as int,
                    AREA_HEIGHT as int,
                ),
            forall|i: int| 0 <= i < colors.len() ==> channels_bounded(#[trigger] colors@[i]),
        ensures
            final(self).wf(),
            final(self)@.len() == old(self)@.len() + places.len(),
            final(self)@.subrange(0, old(self)@.len() as int) == old(self)@,
            forall|i: int|
                0 <= i < places.len() ==> #[trigger] final(self)@[old(self)@.len() + i]
                    == circle_at(
                    places@[i].x - AREA_WIDTH / 2,
                    places@[i].y - AREA_HEIGHT / 2,
                    colors@[i],
                ),
    {
        let ghost pre = self@;
        let start = self.nodes.len();
        let half_w: i32 = (AREA_WIDTH / 2) as i32;
        let half_h: i32 = (AREA_HEIGHT / 2) as i32;
        let mut k: usize = 0;
        while k < places.len()
            invariant
                self.wf(),
                0 <= k <= places.len(),
                places.len() == colors.len(),
                start == pre.len(),
                half_w == AREA_WIDTH / 2,
                half_h == AREA_HEIGHT / 2,
                self@.len() == start + k,
                self@.subrange(0, start as int) == pre,
                forall|i: int|
                    0 <= i < places.len() ==> inside(
                        #[trigger] places@[i],
                        AREA_WIDTH as int,
                        AREA_HEIGHT as int,
                    ),
                forall|i: int| 0 <= i < colors.len() ==> channels_bounded(#[trigger] colors@[i]),
                forall|i: int|
                    0 <= i < k ==> #[trigger] self@[start + i] == circle_at(
                        places@[i].x - AREA_WIDTH / 2,
                        places@[i].y - AREA_HEIGHT / 2,
                        colors@[i],
                    ),
            decreases places.len() - k,
        {
            let p = places[k];
            let ghost before = self@;
            self.spawn_circle(p.x as i32 - half_w, p.y as i32 - half_h, colors[k]);
            assert(self@.subrange(0, start as int) =~= pre);
            assert forall|i: int| 0 <= i < k + 1 implies #[trigger] self@[start + i] == circle_at(
                places@[i].x - AREA_WIDTH / 2,
                places@[i].y - AREA_HEIGHT / 2,
                colors@[i],
            ) by {
                if i < k {
                    assert(self@[start + i] == before[start + i]);
                }
            }
            k += 1;
        }
    }

    /// Scatters up to `NUM` free circles of random color over the area, centred
    /// on the origin, no two of them overlapping; existing entities are kept.
    /// The points are placed first, then one color is drawn for each.
    pub fn add_circles(&mut self, rng: &mut GlobalRng)
        requires
            old(self).wf(),
        ensures
            final(self).wf(),
            old(self)@.len() < final(self)@.len() <= old(self)@.len() + NUM,
            final(self)@.subrange(0, old(self)@.len() as int) == old(self)@,
            forall|i: int|
                old(self)@.len() <= i < final(self)@.len() ==> {
                    let c = (#[trigger] final(self)@[i]);
                    &&& c == circle_at(c.x as int, c.y as int, c.base_color.unwrap())
                    &&& in_band(c.base_color.unwrap())
                    &&& -(AREA_WIDTH / 2) <= c.x < AREA_WIDTH / 2
                    &&& -(AREA_HEIGHT / 2) <= c.y < AREA_HEIGHT / 2
                },
            forall|i: int, j: int|
                old(self)@.len() <= i < j < final(self)@.len() ==> clear_of(
                    #[trigger] final(self)@[i],
                    #[trigger] final(self)@[j],
                ),
    {
        let ghost pre = self@;
        let places = generate_circle_places(NUM, RADIUS, AREA_WIDTH, AREA_HEIGHT, rng);
        let mut colors: Vec<Hsla> = Vec::new();
        while colors.len() < places.len()
            invariant
                colors.len() <= places.len(),
                forall|i: int| 0 <= i < colors.len() ==> in_band(#[trigger] colors@[i]),
            decreases places.len() - colors.len(),
        {
            let c = random_color(rng);
            colors.push(c);
        }
        self.spawn_circles(&places, &colors);
        let ghost post = self@;
        let ghost start = pre.len();
        assert forall|i: int, j: int| start <= i < j < post.len() implies clear_of(
            #[trigger] post[i],
            #[trigger] post[j],
        ) by {
            assert(post[start + (i - start)] == post[i]);
            assert(post[start + (j - start)] == post[j]);
            assert(apart(places@[i - start], places@[j - start], RADIUS as int));
        }
        assert forall|i: int| start <= i < post.len() implies {
            let c = (#[trigger] post[i]);
            &&& c == circle_at(c.x as int, c.y as int, c.base_color.unwrap())
            &&& in_band(c.base_color.unwrap())
            &&& -(AREA_WIDTH / 2) <= c.x < AREA_WIDTH / 2
            &&& -(AREA_HEIGHT / 2) <= c.y < AREA_HEIGHT / 2
        } by {
            assert(post[start + (i - start)] == post[i]);
            assert(inside(places@[i - start], AREA_WIDTH as int, AREA_HEIGHT as int));
        }
    }

    /// Moves entity `i` to `(x, y)`, relative to its parent.
    pub fn move_to(&mut self, i: usize, x: i32, y: i32)
        requires
            old(self).wf(),
            i < old(self)@.len(),
        ensures
            final(self).wf(),
            final(self)@ == old(self)@.update(
                i as int,
                Node { x, y, ..old(self)@[i as int] },
            ),
    {
        let n = self.nodes[i];
        self.nodes.set(i, Node { x, y, ..n });
        assert forall|k: int| 0 <= k < self@.len() implies #[trigger] self@[k].parent
            == old(self)@[k].parent && self@[k].members == old(self)@[k].members
            && self@[k].base_color == old(self)@[k].base_color by {}
    }

    /// The number of entities.
    pub fn len(&self) -> (r: usize)
        ensures
            r == self@.len(),
    {
        self.nodes.len()
    }

    /// Entity `i`.
    pub fn node(&self, i: usize) -> (r: Node)
        requires
            i < self@.len(),
        ensures
            r == self@[i as int],
    {
        self.nodes[i]
    }

    /// Whether entity `i` is a free circle.
    pub fn is_eligible(&self, i: usize) -> (r: bool)
        requires
            i < self@.len(),
        ensures
            r == eligible(self@[i as int]),
    {
        let n = &self.nodes[i];
        n.base_color.is_some() && n.draggable && n.parent.is_none()
    }

    /// Whether entities `i` and `j` are close enough to overlap.
    pub fn overlap(&self, i: usize, j: usize) -> (r: bool)
        requires
            i < self@.len(),
            j < self@.len(),
        ensures
            r == overlapping(self@[i as int], self@[j as int]),
    {
        let a = self.nodes[i];
        let b = self.nodes[j];
        squared_distance(a.x as i64, a.y as i64, b.x as i64, b.y as i64) < touching_sq(RADIUS)
    }

    /// Groups free circles `a` and `b`: a new draggable group entity at the
    /// origin owns both; both stop being draggable and show the combined color.
    pub fn group_pair(&mut self, a: usize, b: usize) -> (g: usize)
        requires
            old(self).wf(),
            a < old(self)@.len(),
            b < old(self)@.len(),
            a != b,
            eligible(old(self)@[a as int]),
            eligible(old(self)@[b as int]),
        ensures
            final(self).wf(),
            g == old(self)@.len(),
            final(self)@ == grouped(old(self)@, a, b),
    {
        let ghost pre = self@;
        let g = self.nodes.len();
        let na = self.nodes[a];
        let nb = self.nodes[b];
        let ca = na.base_color.unwrap();
        let cb = nb.base_color.unwrap();
        let group = CircleGroup::from_colors(ca, cb);
        let c = group.combined_color;
        self.nodes.set(a, Node { parent: Some(g), draggable: false, shown_color: Some(c), ..na });
        self.nodes.set(b, Node { parent: Some(g), draggable: false, shown_color: Some(c), ..nb });
        self.nodes.push(
            Node {
                x: 0,
                y: 0,
                parent: None,
                draggable: true,
                base_color: None,
                shown_color: Some(c),
                group: Some(group),
                members: Some((a, b)),
            },
        );
        let ghost post = self@;
        assert(self.nodes@.len() == self.nodes.len());
        assert(post[g as int] == group_node(a, b, ca, cb));
        assert forall|i: int| 0 <= i < post.len() && (#[trigger] post[i]).parent.is_some() implies {
            let p = post[i].parent.unwrap() as int;
            &&& 0 <= p < post.len()
            &&& post[p].members.is_some()
            &&& (post[p].members.unwrap().0 == i || post[p].members.unwrap().1 == i)
        } by {
            if i != a && i != b && i != g {
                assert(post[i] == pre[i]);
                let p = pre[i].parent.unwrap() as int;
                assert(pre[p].members.is_some());
                assert(p != a && p != b);
            }
        }
        assert forall|h: int| 0 <= h < post.len() && (#[trigger] post[h]).members.is_some() implies {
            let (x, y) = post[h].members.unwrap();
            &&& x < post.len()
            &&& y < post.len()
            &&& x != y
            &&& post[x as int].parent == Some(h as usize)
            &&& post[y as int].parent == Some(h as usize)
        } by {
            if h != g {
                assert(post[h] == pre[h]);
                let (x, y) = pre[h].members.unwrap();
                assert(pre[x as int].parent.is_some());
                assert(pre[y as int].parent.is_some());
            }
        }
        g
    }

    /// One pass of overlap detection: every pair of free circles is looked at
    /// once, in index order; a pair that overlaps forms a group at once, so a
    /// circle grouped earlier in the pass is skipped for the rest of it.
    /// Afterwards no two free circles overlap.
    pub fn circles_intersect(&mut self)
        requires
            old(self).wf(),
        ensures
            final(self).wf(),
            pass_effect(old(self)@, final(self)@),
            in_order(old(self)@, final(self)@),
            settled(final(self)@, old(self)@.len() as int),
    {
        let ghost pre = self@;
        let n = self.nodes.len();
        let mut i: usize = 0;
        while i < n
            invariant
                self.wf(),
                n == pre.len(),
                0 <= i <= n,
                pass_effect(pre, self@),
                in_order(pre, self@),
                forall|g: int|
                    n <= g < self@.len() ==> (#[trigger] self@[g]).members.unwrap().0
                        < i,
                settled(self@, i as int),
                forall|p: int, q: int|
                    0 <= p < i && p < q < n && eligible(#[trigger] self@[p]) && eligible(
                        #[trigger] self@[q],
                    ) ==> !overlapping(self@[p], self@[q]),
            decreases n - i,
        {
            let mut j: usize = i + 1;
            while j < n
                invariant
                    self.wf(),
                    n == pre.len(),
                    0 <= i < n,
                    i < j <= n,
                    pass_effect(pre, self@),
                    in_order(pre, self@),
                    forall|g: int|
                        n <= g < self@.len() ==> pair_lt(
                            (#[trigger] self@[g]).members.unwrap().0,
                            self@[g].members.unwrap().1,
                            i,
                            j,
                        ),
                    forall|p: int, q: int|
                        0 <= p < i && p < q < n && eligible(#[trigger] self@[p]) && eligible(
                            #[trigger] self@[q],
                        ) ==> !overlapping(self@[p], self@[q]),
                    forall|q: int|
                        i < q < j && eligible(self@[i as int]) && eligible(
                            #[trigger] self@[q],
                        ) ==> !overlapping(self@[i as int], self@[q]),
                decreases n - j,
            {
                if self.is_eligible(i) && self.is_eligible(j) && self.overlap(i, j) {
                    let ghost mid = self@;
                    self.group_pair(i, j);
                    proof {
                        lemma_pass_step(pre, mid, i, j);
                    }
                }
                j += 1;
            }
            i += 1;
        }
    }
}

} // verus!
