use vstd::prelude::*;
use crate::scene::{in_order, pass_effect, settled, Node, Scene};

verus! {

/// The pointer drag in progress: the entity held, if any.
#[derive(Clone, Copy, Debug, PartialEq, Eq, Structural)]
pub struct Dragging {
    pub entity: Option<usize>,
}

/// The entities held by a drag session.
pub open spec fn held(d: Dragging) -> Set<usize> {
    match d.entity {
        Some(e) => set![e],
        None => Set::empty(),
    }
}

/// Whether entity `e` exists in `nodes` and is draggable.
pub open spec fn can_drag(nodes: Seq<Node>, e: int) -> bool {
    0 <= e < nodes.len() && nodes[e].draggable
}

/// The entity that a press over `hovered` picks: the first hovered entity
/// that can be dragged.
pub open spec fn first_draggable(nodes: Seq<Node>, hovered: Seq<usize>) -> Option<usize>
    decreases hovered.len(),
{
    if hovered.len() == 0 {
        None
    } else if can_drag(nodes, hovered[0] as int) {
        Some(hovered[0])
    } else {
        first_draggable(nodes, hovered.drop_first())
    }
}

/// The session after a press (or none) over `hovered`.
pub open spec fn started(d: Dragging, just_pressed: bool, nodes: Seq<Node>, hovered: Seq<usize>) -> Dragging {
    if just_pressed && first_draggable(nodes, hovered).is_some() {
        Dragging { entity: first_draggable(nodes, hovered) }
    } else {
        d
    }
}

/// The session after a release of the button (or none).
pub open spec fn released(d: Dragging, just_released: bool) -> Dragging {
    if just_released {
        Dragging { entity: None }
    } else {
        d
    }
}

/// The entities after a drag update: the held entity, if it can still be
/// dragged, is moved to the cursor while the button is held.
pub open spec fn dragged_to(
    d: Dragging,
    pressed: bool,
    cursor: Option<(i32, i32)>,
    nodes: Seq<Node>,
) -> Seq<Node> {
    let e = d.entity.unwrap() as int;
    let (x, y) = cursor.unwrap();
    if pressed && d.entity.is_some() && cursor.is_some() && can_drag(nodes, e) {
        nodes.update(e, Node { x, y, ..nodes[e] })
    } else {
        nodes
    }
}

/// State of the pointer's button in one step.
#[derive(Clone, Copy, Debug, PartialEq, Eq, Structural)]
pub struct PointerButton {
    pub just_pressed: bool,
    pub pressed: bool,
    pub just_released: bool,
}

/// At most one entity is held at any time.
pub proof fn lemma_drag_exclusive(d: Dragging)
    ensures
        held(d).finite(),
        held(d).len() <= 1,
{
    match d.entity {
        Some(e) => {
            assert(held(d) == Set::empty().insert(e));
        },
        None => {},
    }
}

impl Dragging {
    /// No drag in progress.
    pub fn new() -> (r: Dragging)
        ensures
            r.entity.is_none(),
    {
        Dragging { entity: None }
    }

    /// On a fresh press of the button, starts dragging the first entity of
    /// `hovered` (in the hit test's order) that can be dragged; with none, or
    /// without a press, the session is unchanged.
    pub fn drag_start(&mut self, just_pressed: bool, hovered: &Vec<usize>, scene: &Scene)
        ensures
            *final(self) == started(*old(self), just_pressed, scene@, hovered@),
    {
        if !just_pressed {
            return;
        }
        let mut k: usize = 0;
        assert(hovered@.subrange(0, hovered@.len() as int) =~= hovered@);
        while k < hovered.len()
            invariant
                0 <= k <= hovered.len(),
                just_pressed,
                *self == *old(self),
                first_draggable(scene@, hovered@) == first_draggable(
                    scene@,
                    hovered@.subrange(k as int, hovered@.len() as int),
                ),
            decreases hovered.len() - k,
        {
            let ghost rest = hovered@.subrange(k as int, hovered@.len() as int);
            assert(rest[0] == hovered@[k as int]);
            let e = hovered[k];
            if e < scene.len() && scene.node(e).draggable {
                self.entity = Some(e);
                return;
            }
            assert(rest.drop_first() =~= hovered@.subrange(k + 1, hovered@.len() as int));
            k += 1;
        }
    }

    /// On release of the button the drag ends, whatever else holds.
    pub fn dropped(&mut self, just_released: bool)
        ensures
            *final(self) == released(*old(self), just_released),
    {
        if just_released {
            self.entity = None;
        }
    }

    /// While the button is held, snaps the held entity to the cursor's world
    /// position. Nothing moves without a held entity that can still be
    /// dragged or without a cursor position; nothing else ever changes.
    pub fn drag(&self, pressed: bool, cursor: Option<(i32, i32)>, scene: &mut Scene)
        requires
            old(scene).wf(),
        ensures
            final(scene).wf(),
            final(scene)@ == dragged_to(*self, pressed, cursor, old(scene)@),
    {
        if !pressed {
            return;
        }
        let e = match self.entity {
            Some(e) => e,
            None => return,
        };
        if e >= scene.len() || !scene.node(e).draggable {
            return;
        }
        let (x, y) = match cursor {
            Some(p) => p,
            None => return,
        };
        scene.move_to(e, x, y);
    }

    /// One step of the simulation: a press picks the entity to drag, a held
    /// button moves it to the cursor, a release ends the drag; then the overlap
    /// pass groups the free circles that overlap.
    pub fn step(
        &mut self,
        button: PointerButton,
        hovered: &Vec<usize>,
        cursor: Option<(i32, i32)>,
        scene: &mut Scene,
    )
        requires
            old(scene).wf(),
        ensures
            ({
                let held = started(*old(self), button.just_pressed, old(scene)@, hovered@);
                let moved = dragged_to(held, button.pressed, cursor, old(scene)@);
                &&& *final(self) == released(held, button.just_released)
                &&& final(scene).wf()
                &&& pass_effect(moved, final(scene)@)
                &&& in_order(moved, final(scene)@)
                &&& settled(final(scene)@, moved.len() as int)
            }),
    {
        self.drag_start(button.just_pressed, hovered, scene);
        self.drag(button.pressed, cursor, scene);
        self.dropped(button.just_released);
        scene.circles_intersect();
    }
}

} // verus!
