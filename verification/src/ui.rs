//! Shop windows and tool buttons: purchasing machines, selecting the
//! active tool, and the button layout constants.

use vstd::prelude::*;
use crate::input::{Clickable, PointerState};
use crate::levels::{GameState, Ledger};
use crate::machines::{Machine, machine_entity_shape, machine_icon_shape, spawn_duplicator,
    spawn_one_to_one_crafter};
use crate::physics::Position;
use crate::rng::random_in_range;
use crate::vec2::Vec2i;
use crate::view::SpriteView;
use crate::world::{Entity, EntityId, World};

verus! {

/// A shop slot: clicking it buys and spawns the held machine, if the
/// player can afford it.
#[derive(Clone, Copy, Debug, PartialEq, Eq, Structural)]
pub struct MachineWindow(pub Machine);

/// The globally selected tool.
#[derive(Clone, Copy, Debug, PartialEq, Eq, Structural)]
pub struct SelectedTool(pub Tools);

/// The closed family of tools a tool button can select.
#[derive(Clone, Copy, Debug, PartialEq, Eq, Structural)]
pub enum Tools {
    Mouse,
    Draw,
}

/// Position of the mouse-tool button.
pub const BUTTON_MOUSE_X: i64 = -740;
pub const BUTTON_MOUSE_Y: i64 = 200;

/// Position of the draw-tool button.
pub const BUTTON_DRAW_X: i64 = -740;
pub const BUTTON_DRAW_Y: i64 = 90;

/// Positions of the shop slots.
pub const MACHINE_BUTTON_1_X: i64 = 640;
pub const MACHINE_BUTTON_1_Y: i64 = 256;
pub const MACHINE_BUTTON_2_X: i64 = 640;
pub const MACHINE_BUTTON_2_Y: i64 = 118;

/// World position of a tool's button.
pub fn tool_button_position(tool: Tools) -> (r: Vec2i)
    ensures
        r == spec_tool_button_position(tool),
{
    match tool {
        Tools::Mouse => Vec2i { x: BUTTON_MOUSE_X, y: BUTTON_MOUSE_Y },
        Tools::Draw => Vec2i { x: BUTTON_DRAW_X, y: BUTTON_DRAW_Y },
    }
}

/// The value `tool_button_position` returns.
pub open spec fn spec_tool_button_position(tool: Tools) -> Vec2i {
    match tool {
        Tools::Mouse => Vec2i { x: BUTTON_MOUSE_X, y: BUTTON_MOUSE_Y },
        Tools::Draw => Vec2i { x: BUTTON_DRAW_X, y: BUTTON_DRAW_Y },
    }
}

/// The shop window the click landed on, if the clicked entity is a live
/// window.
pub open spec fn clicked_window(s: Seq<Entity>, clicked: Option<EntityId>) -> Option<EntityId> {
    match clicked {
        Some(e) => if e < s.len() && s[e as int].alive && s[e as int].machine_window is Some {
            Some(e)
        } else {
            None
        },
        None => None,
    }
}

/// Try to buy the machine of the shop window the player clicked. With
/// enough money the cost is deducted and booked as spending, the window
/// is destroyed, and a live machine is spawned at a random spot in the
/// middle of the playing field; with too little money the click is a
/// silent no-op and the window stays.
pub fn buy_machines(world: &mut World, state: &mut GameState, ps: &PointerState)
    requires
        old(world).wf(),
        old(state).wf(),
        old(world).entities@.len() + 3 <= usize::MAX,
    ensures
        final(world).wf(),
        final(state).wf(),
        clicked_window(old(world).entities@, ps.just_clicked.0) is None ==> {
            &&& *final(world) == *old(world)
            &&& *final(state) == *old(state)
        },
        clicked_window(old(world).entities@, ps.just_clicked.0) matches Some(e) ==> ({
            let s = old(world).entities@;
            let n = s.len() as int;
            let m = (s[e as int].machine_window->0).0;
            if old(state).money.0 >= m.spec_cost() {
                &&& final(state).money.0 == old(state).money.0 - m.spec_cost()
                &&& final(state).ledger@ == (Ledger {
                    spent: old(state).ledger@.spent + m.spec_cost(),
                    ..old(state).ledger@
                })
                &&& final(state).goal == old(state).goal
                &&& final(state).level == old(state).level
                &&& final(state).won == old(state).won
                &&& final(state).lost == old(state).lost
                &&& final(state).tool == old(state).tool
                &&& final(world).entities@[e as int] == (Entity {
                    alive: false,
                    ..s[e as int]
                })
                &&& forall|k: int| 0 <= k < n && k != e ==> final(world).entities@[k] == s[k]
                &&& (m is OneToOneCrafter ==> {
                    &&& final(world).entities@.len() == n + 3
                    &&& exists|pp: Position|
                        -200 <= pp.0.x < 200 && -100 <= pp.0.y < 100
                            && #[trigger] machine_entity_shape(final(world).entities@[n], pp, m)
                            && machine_icon_shape(final(world).entities@[n + 1],
                                m->OneToOneCrafter_input, n as EntityId,
                                (3 * m.spec_sprite_view().spec_scale().y as int) / 10)
                            && machine_icon_shape(final(world).entities@[n + 2],
                                m->OneToOneCrafter_output, n as EntityId,
                                -((3 * m.spec_sprite_view().spec_scale().y as int) / 10))
                })
                &&& (m is Duplicator ==> {
                    &&& final(world).entities@.len() == n + 1
                    &&& exists|pp: Position|
                        -200 <= pp.0.x < 200 && -100 <= pp.0.y < 100
                            && #[trigger] machine_entity_shape(final(world).entities@[n], pp, m)
                })
            } else {
                &&& *final(world) == *old(world)
                &&& *final(state) == *old(state)
            }
        }),
{
    if let Some(e) = ps.just_clicked.0 {
        let n = world.entities.len();
        if e < n {
            let alive = world.entities[e].alive;
            let wino = world.entities[e].machine_window;
            if alive {
                if let Some(win) = wino {
                    proof {
                        assert(old(world).entities@[e as int].wf());
                    }
                    let m = win.0;
                    let cost = m.get_cost();
                    if state.money.0 >= cost {
                        state.money.0 = state.money.0 - cost;
                        proof {
                            state.ledger@ = Ledger {
                                spent: state.ledger@.spent + cost,
                                ..state.ledger@
                            };
                        }
                        world.despawn(e);
                        let px = random_in_range(-200, 200);
                        let py = random_in_range(-100, 100);
                        let pos = Position(Vec2i { x: px, y: py });
                        match m {
                            Machine::OneToOneCrafter { .. } => {
                                spawn_one_to_one_crafter(world, pos, m);
                            },
                            Machine::Duplicator { .. } => {
                                spawn_duplicator(world, pos, m);
                            },
                        }
                    }
                }
            }
        }
    }
}

/// Spawn a shop window offering `machine` at `position`: a clickable
/// entity that `buy_machines` turns into a live machine.
pub fn spawn_machine_window(world: &mut World, position: Position, machine: Machine)
    -> (id: EntityId)
    requires
        old(world).wf(),
        crate::vec2::in_world(position.0),
        0 <= machine.spec_cost() <= crate::COST_LIMIT,
        old(world).entities@.len() < usize::MAX,
    ensures
        final(world).wf(),
        id == old(world).entities@.len(),
        final(world).entities@ == old(world).entities@.push(
            Entity {
                pos: Some(position),
                view: Some(SpriteView::MachineWindow),
                machine_window: Some(MachineWindow(machine)),
                clickable: Some(Clickable),
                ..Entity::spec_blank()
            },
        ),
{
    let mut w = Entity::blank();
    w.pos = Some(position);
    w.view = Some(SpriteView::MachineWindow);
    w.machine_window = Some(MachineWindow(machine));
    w.clickable = Some(Clickable);
    world.spawn(w)
}

/// The tool of the clicked entity, if the click landed on a live tool
/// button.
pub open spec fn clicked_tool(s: Seq<Entity>, clicked: Option<EntityId>) -> Option<Tools> {
    match clicked {
        Some(e) => if e < s.len() && s[e as int].alive && s[e as int].tool is Some {
            Some(s[e as int].tool->0)
        } else {
            None
        },
        None => None,
    }
}

/// Some live tool button exists in the world.
pub open spec fn any_tool_button(s: Seq<Entity>) -> bool {
    exists|k: int| 0 <= k < s.len() && (#[trigger] s[k]).alive && s[k].tool is Some
}

/// Clicking a tool button selects its tool. Returns where the selection
/// indicator stands: beside the selected tool's button, or nowhere when
/// the level has no tool buttons.
pub fn tool_selection(world: &World, state: &mut GameState, ps: &PointerState)
    -> (indicator: Option<Vec2i>)
    requires
        world.wf(),
        old(state).wf(),
    ensures
        final(state).wf(),
        final(state).tool.0 == (match clicked_tool(world.entities@, ps.just_clicked.0) {
            Some(t) => t,
            None => old(state).tool.0,
        }),
        final(state).money == old(state).money,
        final(state).ledger == old(state).ledger,
        final(state).goal == old(state).goal,
        final(state).level == old(state).level,
        final(state).won == old(state).won,
        final(state).lost == old(state).lost,
        indicator == (if any_tool_button(world.entities@) {
            Some(Vec2i {
                x: (spec_tool_button_position(final(state).tool.0).x + 80) as i64,
                y: spec_tool_button_position(final(state).tool.0).y,
            })
        } else {
            None::<Vec2i>
        }),
{
    let n = world.entities.len();
    let mut any: bool = false;
    let mut i: usize = 0;
    while i < n
        invariant
            world.wf(),
            n == world.entities@.len(),
            0 <= i <= n,
            any <==> exists|k: int|
                0 <= k < i && (#[trigger] world.entities@[k]).alive
                    && world.entities@[k].tool is Some,
        decreases n - i,
    {
        let alive = world.entities[i].alive;
        let toolo = world.entities[i].tool;
        if alive && toolo.is_some() {
            any = true;
            proof {
                assert(world.entities@[i as int].alive && world.entities@[i as int].tool is Some);
            }
        }
        i = i + 1;
    }
    if let Some(e) = ps.just_clicked.0 {
        if e < n {
            let alive = world.entities[e].alive;
            let toolo = world.entities[e].tool;
            if alive {
                if let Some(t) = toolo {
                    state.tool = SelectedTool(t);
                }
            }
        }
    }
    if any {
        let bp = tool_button_position(state.tool.0);
        Some(Vec2i { x: bp.x + 80, y: bp.y })
    } else {
        None
    }
}

/// What the system cursor should look like this tick.
#[derive(Clone, Copy, Debug, PartialEq, Eq, Structural)]
pub enum CursorKind {
    Default,
    Pointer,
    Grab,
}

/// Pick the cursor icon: a grab hand while dragging, a pointer over a
/// clickable element, the default otherwise.
pub fn update_mouse_pointer(ps: &PointerState) -> (r: CursorKind)
    ensures
        r == (if ps.dragging.entity is Some {
            CursorKind::Grab
        } else if ps.over_element.0 is Some {
            CursorKind::Pointer
        } else {
            CursorKind::Default
        }),
{
    if ps.dragging.entity.is_some() {
        CursorKind::Grab
    } else if ps.over_element.0.is_some() {
        CursorKind::Pointer
    } else {
        CursorKind::Default
    }
}

/// Spawn the mouse-tool button.
pub fn setup_mouse_button(world: &mut World) -> (id: EntityId)
    requires
        old(world).wf(),
        old(world).entities@.len() < usize::MAX,
    ensures
        final(world).wf(),
        id == old(world).entities@.len(),
        final(world).entities@ == old(world).entities@.push(
            Entity {
                pos: Some(Position(Vec2i { x: BUTTON_MOUSE_X, y: BUTTON_MOUSE_Y })),
                view: Some(SpriteView::ButtonMouse),
                clickable: Some(Clickable),
                tool: Some(Tools::Mouse),
                ..Entity::spec_blank()
            },
        ),
{
    let mut b = Entity::blank();
    b.pos = Some(Position(Vec2i { x: BUTTON_MOUSE_X, y: BUTTON_MOUSE_Y }));
    b.view = Some(SpriteView::ButtonMouse);
    b.clickable = Some(Clickable);
    b.tool = Some(Tools::Mouse);
    world.spawn(b)
}

/// Spawn the draw-tool button.
pub fn setup_draw_button(world: &mut World) -> (id: EntityId)
    requires
        old(world).wf(),
        old(world).entities@.len() < usize::MAX,
    ensures
        final(world).wf(),
        id == old(world).entities@.len(),
        final(world).entities@ == old(world).entities@.push(
            Entity {
                pos: Some(Position(Vec2i { x: BUTTON_DRAW_X, y: BUTTON_DRAW_Y })),
                view: Some(SpriteView::ButtonDraw),
                clickable: Some(Clickable),
                tool: Some(Tools::Draw),
                ..Entity::spec_blank()
            },
        ),
{
    let mut b = Entity::blank();
    b.pos = Some(Position(Vec2i { x: BUTTON_DRAW_X, y: BUTTON_DRAW_Y }));
    b.view = Some(SpriteView::ButtonDraw);
    b.clickable = Some(Clickable);
    b.tool = Some(Tools::Draw);
    world.spawn(b)
}

} // verus!
