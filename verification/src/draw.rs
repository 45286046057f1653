//! The draw tool: while it is selected and the cursor stands over open
//! ground, holding the primary button lays down one static circular
//! obstacle per tick — an intentional rapid-fire behaviour, not
//! edge-triggered.

use vstd::prelude::*;
use crate::input::PointerState;
use crate::levels::GameState;
use crate::physics::{CirclePhysics, Position};
use crate::ui::Tools;
use crate::world::{Entity, World};

verus! {

/// Where the draw indicator should stand after this tick: hidden off
/// screen, at the cursor, or wherever it already was.
#[derive(Clone, Copy, Debug, PartialEq, Eq, Structural)]
pub enum DrawIndicatorPlacement {
    Hidden,
    At(Position),
    Unchanged,
}

/// A drawn obstacle: a static circle of radius 12 at the cursor.
pub open spec fn obstacle_entity(p: Position) -> Entity {
    Entity { pos: Some(p), circle: Some(CirclePhysics { radius: 12 }), ..Entity::spec_blank() }
}

/// Drawing happens this tick: the draw tool is selected, the cursor is in
/// the world and over no clickable element, nothing is dragged, and the
/// button is held.
pub open spec fn draw_fires(state: GameState, ps: PointerState, left_pressed: bool) -> bool {
    &&& state.tool.0 == Tools::Draw
    &&& ps.over_element.0 is None
    &&& ps.dragging.entity is None
    &&& ps.mouse.0 is Some
    &&& left_pressed
}

/// Run the draw tool for one tick. While the draw tool is selected and
/// the cursor is free, the indicator follows the cursor and a held button
/// spawns one obstacle; over a clickable element, while dragging, or with
/// another tool the indicator hides and nothing spawns.
pub fn draw_obstacle(world: &mut World, state: &GameState, ps: &PointerState,
    left_pressed: bool) -> (r: DrawIndicatorPlacement)
    requires
        old(world).wf(),
        ps.wf(),
        old(world).entities@.len() < usize::MAX,
    ensures
        final(world).wf(),
        draw_fires(*state, *ps, left_pressed) ==> final(world).entities@
            == old(world).entities@.push(obstacle_entity(ps.mouse.0->0)),
        !draw_fires(*state, *ps, left_pressed) ==> *final(world) == *old(world),
        r == (if state.tool.0 != Tools::Draw || ps.over_element.0 is Some
            || ps.dragging.entity is Some {
            DrawIndicatorPlacement::Hidden
        } else {
            match ps.mouse.0 {
                Some(p) => DrawIndicatorPlacement::At(p),
                None => DrawIndicatorPlacement::Unchanged,
            }
        }),
{
    let is_draw = match state.tool.0 {
        Tools::Draw => true,
        Tools::Mouse => false,
    };
    if !is_draw || ps.over_element.0.is_some() || ps.dragging.entity.is_some() {
        return DrawIndicatorPlacement::Hidden;
    }
    match ps.mouse.0 {
        None => DrawIndicatorPlacement::Unchanged,
        Some(p) => {
            if left_pressed {
                let mut ob = Entity::blank();
                ob.pos = Some(p);
                ob.circle = Some(CirclePhysics { radius: 12 });
                world.spawn(ob);
            }
            DrawIndicatorPlacement::At(p)
        },
    }
}

} // verus!
