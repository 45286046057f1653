//! Pointer interaction: cursor tracking, click edge detection, hit-testing,
//! and the drag state machine. At most one entity is dragged at a time, and
//! a drag can only begin while none is active.

use vstd::prelude::*;
use crate::physics::Position;
use crate::vec2::{Vec2i, clip, clip_i128, in_world};
use crate::world::{Entity, EntityId, World};

verus! {

/// World-space cursor position, or `None` while the cursor cannot be
/// projected into the world.
#[derive(Clone, Copy, Debug, PartialEq, Eq, Structural)]
pub struct MouseWorldPosition(pub Option<Position>);

/// Where the primary button went down this tick, or `None` on a tick
/// without a fresh press.
#[derive(Clone, Copy, Debug, PartialEq, Eq, Structural)]
pub struct LeftMouseClickPosition(pub Option<Position>);

/// Marker component: the entity reacts to clicks.
#[derive(Clone, Copy, Debug, PartialEq, Eq, Structural)]
pub struct Clickable;

/// Marker component: the entity can be dragged. Draggable entities also
/// need `Clickable`.
#[derive(Clone, Copy, Debug, PartialEq, Eq, Structural)]
pub struct DragAble;

/// The active drag, if any: the dragged entity and the fixed offset from
/// the cursor to the entity's position at acquisition time.
#[derive(Clone, Copy, Debug, PartialEq, Eq, Structural)]
pub struct Dragging {
    pub entity: Option<EntityId>,
    pub offset_pos: Option<Position>,
}

/// The clickable entity the cursor clicked this tick, if any.
#[derive(Clone, Copy, Debug, PartialEq, Eq, Structural)]
pub struct JustClicked(pub Option<EntityId>);

/// The clickable entity the cursor hovers, if any.
#[derive(Clone, Copy, Debug, PartialEq, Eq, Structural)]
pub struct OverClickableElement(pub Option<EntityId>);

/// The whole per-tick pointer state.
#[derive(Clone, Copy, Debug, PartialEq, Eq, Structural)]
pub struct PointerState {
    pub mouse: MouseWorldPosition,
    pub click: LeftMouseClickPosition,
    pub just_clicked: JustClicked,
    pub over_element: OverClickableElement,
    pub dragging: Dragging,
}

impl PointerState {
    /// Fresh state: no cursor, no click, no hover, no drag.
    pub fn new() -> (r: PointerState)
        ensures
            r == PointerState::spec_new(),
    {
        PointerState {
            mouse: MouseWorldPosition(None),
            click: LeftMouseClickPosition(None),
            just_clicked: JustClicked(None),
            over_element: OverClickableElement(None),
            dragging: Dragging { entity: None, offset_pos: None },
        }
    }

    /// The value `new` returns.
    pub open spec fn spec_new() -> PointerState {
        PointerState {
            mouse: MouseWorldPosition(None),
            click: LeftMouseClickPosition(None),
            just_clicked: JustClicked(None),
            over_element: OverClickableElement(None),
            dragging: Dragging { entity: None, offset_pos: None },
        }
    }

    /// Stored positions lie within the world bound.
    pub open spec fn wf(self) -> bool {
        &&& match self.mouse.0 {
            Some(p) => in_world(p.0),
            None => true,
        }
        &&& match self.click.0 {
            Some(p) => in_world(p.0),
            None => true,
        }
    }
}

/// Record where the cursor stands in the world this tick, or that it
/// cannot be projected. The stored point is cut to the world bound.
pub fn update_mouse_world_position(ps: &mut PointerState, cursor: Option<Position>)
    requires
        old(ps).wf(),
    ensures
        final(ps).wf(),
        final(ps).mouse.0 == (match cursor {
            None => None::<Position>,
            Some(p) => Some(Position(Vec2i {
                x: clip(p.0.x as int) as i64,
                y: clip(p.0.y as int) as i64,
            })),
        }),
        final(ps).click == old(ps).click,
        final(ps).just_clicked == old(ps).just_clicked,
        final(ps).over_element == old(ps).over_element,
        final(ps).dragging == old(ps).dragging,
{
    match cursor {
        None => {
            ps.mouse = MouseWorldPosition(None);
        },
        Some(p) => {
            let x = clip_i128(p.0.x as i128);
            let y = clip_i128(p.0.y as i128);
            ps.mouse = MouseWorldPosition(Some(Position(Vec2i { x, y })));
        },
    }
}

/// Capture the click position on the tick the primary button goes down,
/// and clear it on every other tick.
pub fn update_left_mouse_click_position(ps: &mut PointerState, just_pressed: bool)
    requires
        old(ps).wf(),
    ensures
        final(ps).wf(),
        final(ps).click.0 == (if just_pressed {
            old(ps).mouse.0
        } else {
            None::<Position>
        }),
        final(ps).mouse == old(ps).mouse,
        final(ps).just_clicked == old(ps).just_clicked,
        final(ps).over_element == old(ps).over_element,
        final(ps).dragging == old(ps).dragging,
{
    if just_pressed {
        ps.click = LeftMouseClickPosition(ps.mouse.0);
    } else {
        ps.click = LeftMouseClickPosition(None);
    }
}

/// The cursor at `m` stands inside the clickable entity's rendered box: a
/// box of the sprite's extent centred on the entity's position.
pub open spec fn hit_box_contains(e: Entity, m: Vec2i) -> bool {
    &&& e.alive
    &&& e.clickable is Some
    &&& e.view is Some
    &&& e.pos is Some
    &&& ({
        let p = (e.pos->0).0;
        let sc = (e.view->0).spec_scale();
        &&& p.x - sc.x as int / 2 <= m.x <= p.x + sc.x as int / 2
        &&& p.y - sc.y as int / 2 <= m.y <= p.y + sc.y as int / 2
    })
}

/// The first clickable entity from index `i` on whose box contains `m`.
pub open spec fn first_hit_from(s: Seq<Entity>, m: Vec2i, i: int) -> Option<int>
    decreases s.len() - i,
{
    if i < 0 || i >= s.len() {
        None
    } else if hit_box_contains(s[i], m) {
        Some(i)
    } else {
        first_hit_from(s, m, i + 1)
    }
}

/// The first clickable entity, in creation order, whose box contains `m`.
pub open spec fn first_hit(s: Seq<Entity>, m: Vec2i) -> Option<int> {
    first_hit_from(s, m, 0)
}

/// An index seen as an entity id.
pub open spec fn spec_hit_id(o: Option<int>) -> Option<EntityId> {
    match o {
        None => None,
        Some(i) => Some(i as usize),
    }
}

/// Skipping a miss-free prefix does not change the first hit.
proof fn lemma_first_hit_skip(s: Seq<Entity>, m: Vec2i, i: int)
    requires
        0 <= i <= s.len(),
        forall|j: int| 0 <= j < i ==> !hit_box_contains(#[trigger] s[j], m),
    ensures
        first_hit(s, m) == first_hit_from(s, m, i),
    decreases i,
{
    if i > 0 {
        lemma_first_hit_skip(s, m, i - 1);
        assert(first_hit_from(s, m, i - 1) == first_hit_from(s, m, i));
    }
}

/// Hit-test the cursor against every clickable entity in creation order:
/// the first whose box contains the cursor is hovered, and also clicked
/// when a click landed this tick. Without a cursor nothing is hovered.
pub fn update_just_clicked(ps: &mut PointerState, world: &World)
    requires
        old(ps).wf(),
        world.wf(),
    ensures
        final(ps).wf(),
        final(ps).mouse == old(ps).mouse,
        final(ps).click == old(ps).click,
        final(ps).dragging == old(ps).dragging,
        final(ps).over_element.0 == (match old(ps).mouse.0 {
            None => None::<EntityId>,
            Some(p) => spec_hit_id(first_hit(world.entities@, p.0)),
        }),
        final(ps).just_clicked.0 == (match (old(ps).mouse.0, old(ps).click.0) {
            (Some(p), Some(_)) => spec_hit_id(first_hit(world.entities@, p.0)),
            _ => None::<EntityId>,
        }),
{
    ps.just_clicked = JustClicked(None);
    ps.over_element = OverClickableElement(None);
    let m = match ps.mouse.0 {
        Some(p) => p,
        None => {
            return ;
        },
    };
    let n = world.entities.len();
    let mut i: usize = 0;
    while i < n
        invariant
            world.wf(),
            n == world.entities@.len(),
            0 <= i <= n,
            in_world(m.0),
            old(ps).mouse.0 == Some(m),
            forall|j: int| 0 <= j < i ==> !hit_box_contains(#[trigger] world.entities@[j], m.0),
            ps.just_clicked.0 is None,
            ps.over_element.0 is None,
            ps.mouse == old(ps).mouse,
            ps.click == old(ps).click,
            ps.dragging == old(ps).dragging,
            ps.wf(),
        decreases n - i,
    {
        let e = &world.entities[i];
        if e.alive && e.clickable.is_some() {
            if let (Some(vw), Some(p)) = (e.view, e.pos) {
                proof {
                    assert(world.entities@[i as int].wf());
                }
                let sc = vw.get_scale();
                let hx = sc.x / 2;
                let hy = sc.y / 2;
                if p.0.x - hx <= m.0.x && m.0.x <= p.0.x + hx && p.0.y - hy <= m.0.y
                    && m.0.y <= p.0.y + hy {
                    proof {
                        assert(hit_box_contains(world.entities@[i as int], m.0));
                        lemma_first_hit_skip(world.entities@, m.0, i as int);
                        assert(first_hit(world.entities@, m.0) == Some(i as int));
                    }
                    ps.over_element = OverClickableElement(Some(i));
                    if ps.click.0.is_some() {
                        ps.just_clicked = JustClicked(Some(i));
                    }
                    return ;
                }
            }
        }
        proof {
            assert(!hit_box_contains(world.entities@[i as int], m.0));
        }
        i = i + 1;
    }
    proof {
        lemma_first_hit_skip(world.entities@, m.0, n as int);
    }
}

/// While the primary button is not held, clear the drag unconditionally:
/// any release point is valid.
pub fn reset_dragging(ps: &mut PointerState, left_pressed: bool)
    requires
        old(ps).wf(),
    ensures
        final(ps).wf(),
        final(ps).dragging == (if left_pressed {
            old(ps).dragging
        } else {
            Dragging { entity: None, offset_pos: None }
        }),
        final(ps).mouse == old(ps).mouse,
        final(ps).click == old(ps).click,
        final(ps).just_clicked == old(ps).just_clicked,
        final(ps).over_element == old(ps).over_element,
{
    if !left_pressed {
        ps.dragging = Dragging { entity: None, offset_pos: None };
    }
}

/// The drag that clicking entity `e` of the world at cursor `m` acquires:
/// the entity and the cursor-to-entity offset at acquisition time.
pub open spec fn acquired_drag(s: Seq<Entity>, e: EntityId, m: Position) -> Dragging {
    let p = (s[e as int].pos->0).0;
    Dragging {
        entity: Some(e),
        offset_pos: Some(Position(Vec2i { x: (p.x - m.0.x) as i64, y: (p.y - m.0.y) as i64 })),
    }
}

/// The just-clicked entity may be picked up as a drag target, but only
/// while no drag is active: acquiring a drag while one is active is a
/// no-op, so at most one entity is ever dragged at a time.
pub fn set_dragging(ps: &mut PointerState, world: &World)
    requires
        old(ps).wf(),
        world.wf(),
    ensures
        final(ps).wf(),
        old(ps).dragging.entity is Some ==> *final(ps) == *old(ps),
        old(ps).dragging.entity is None ==> final(ps).dragging == (match (
            old(ps).just_clicked.0,
            old(ps).mouse.0,
        ) {
            (Some(e), Some(m)) => {
                if e < world.entities@.len() && world.entities@[e as int].alive
                    && world.entities@[e as int].draggable is Some
                    && world.entities@[e as int].pos is Some {
                    acquired_drag(world.entities@, e, m)
                } else {
                    old(ps).dragging
                }
            },
            _ => old(ps).dragging,
        }),
        final(ps).mouse == old(ps).mouse,
        final(ps).click == old(ps).click,
        final(ps).just_clicked == old(ps).just_clicked,
        final(ps).over_element == old(ps).over_element,
{
    if ps.dragging.entity.is_none() {
        if let (Some(e), Some(m)) = (ps.just_clicked.0, ps.mouse.0) {
            let n = world.entities.len();
            if e < n {
                let ent = &world.entities[e];
                if ent.alive && ent.draggable.is_some() {
                    if let Some(p) = ent.pos {
                        proof {
                            assert(world.entities@[e as int].wf());
                        }
                        ps.dragging = Dragging {
                            entity: Some(e),
                            offset_pos: Some(Position(Vec2i {
                                x: p.0.x - m.0.x,
                                y: p.0.y - m.0.y,
                            })),
                        };
                    }
                }
            }
        }
    }
}

/// The dragged entity moved to the cursor plus the stored offset.
pub open spec fn dragged_to(e: Entity, m: Position, off: Position) -> Entity {
    Entity {
        pos: Some(Position(Vec2i {
            x: clip(m.0.x + off.0.x) as i64,
            y: clip(m.0.y + off.0.y) as i64,
        })),
        position_changed: true,
        ..e
    }
}

/// While a drag is active and the cursor is in the world, pin the dragged
/// entity to the cursor plus the stored offset, bypassing physics for it
/// this tick.
pub fn update_dragged_object(world: &mut World, ps: &PointerState)
    requires
        old(world).wf(),
        ps.wf(),
    ensures
        final(world).wf(),
        final(world).entities@.len() == old(world).entities@.len(),
        forall|k: int|
            0 <= k < old(world).entities@.len() ==> final(world).entities@[k] == ({
                let e = #[trigger] old(world).entities@[k];
                if ps.dragging.entity == Some(k as usize) && ps.dragging.offset_pos is Some
                    && ps.mouse.0 is Some && e.alive && e.pos is Some {
                    dragged_to(e, ps.mouse.0->0, ps.dragging.offset_pos->0)
                } else {
                    e
                }
            }),
{
    if let (Some(id), Some(off), Some(m)) = (ps.dragging.entity, ps.dragging.offset_pos,
        ps.mouse.0) {
        let n = world.entities.len();
        if id < n {
            let alive = world.entities[id].alive;
            let has_pos = world.entities[id].pos.is_some();
            if alive && has_pos {
                let nx = clip_i128(m.0.x as i128 + off.0.x as i128);
                let ny = clip_i128(m.0.y as i128 + off.0.y as i128);
                let ent = &mut world.entities[id];
                ent.pos = Some(Position(Vec2i { x: nx, y: ny }));
                ent.position_changed = true;
                proof {
                    assert forall|k: int| 0 <= k < final(world).entities@.len()
                        implies (#[trigger] final(world).entities@[k]).wf() by {
                        assert(old(world).entities@[k].wf());
                    }
                }
            }
        }
    }
}

} // verus!
