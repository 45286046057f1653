use assembly_anarchy::draw::{DrawIndicatorPlacement, draw_obstacle};
use assembly_anarchy::input::{Clickable, DragAble, Dragging, JustClicked, PointerState,
    reset_dragging, set_dragging, update_dragged_object, update_just_clicked,
    update_left_mouse_click_position, update_mouse_world_position};
use assembly_anarchy::levels::GameState;
use assembly_anarchy::physics::Position;
use assembly_anarchy::ui::{CursorKind, SelectedTool, Tools, setup_draw_button,
    setup_mouse_button, tool_selection, update_mouse_pointer};
use assembly_anarchy::vec2::Vec2i;
use assembly_anarchy::view::SpriteView;
use assembly_anarchy::world::{Entity, World};

fn clickable_button(x: i64, y: i64) -> Entity {
    let mut e = Entity::blank();
    e.pos = Some(Position(Vec2i { x, y }));
    e.view = Some(SpriteView::ButtonMouse);
    e.clickable = Some(Clickable);
    e
}

fn draggable_box(x: i64, y: i64) -> Entity {
    let mut e = clickable_button(x, y);
    e.draggable = Some(DragAble);
    e
}

#[test]
fn cursor_and_click_are_tracked_per_tick() {
    let mut ps = PointerState::new();
    update_mouse_world_position(&mut ps, Some(Position(Vec2i { x: 7, y: -3 })));
    assert_eq!(ps.mouse.0, Some(Position(Vec2i { x: 7, y: -3 })));
    update_left_mouse_click_position(&mut ps, true);
    assert_eq!(ps.click.0, Some(Position(Vec2i { x: 7, y: -3 })));
    update_left_mouse_click_position(&mut ps, false);
    assert_eq!(ps.click.0, None);
    update_mouse_world_position(&mut ps, None);
    assert_eq!(ps.mouse.0, None);
}

#[test]
fn hit_test_picks_first_entity_in_creation_order() {
    let mut world = World::new();
    world.spawn(clickable_button(0, 0));
    world.spawn(clickable_button(10, 0));
    let mut ps = PointerState::new();
    update_mouse_world_position(&mut ps, Some(Position(Vec2i { x: 5, y: 5 })));
    update_left_mouse_click_position(&mut ps, true);
    update_just_clicked(&mut ps, &world);
    // both 100-unit boxes contain the cursor; the first wins
    assert_eq!(ps.over_element.0, Some(0));
    assert_eq!(ps.just_clicked.0, Some(0));
}

#[test]
fn hover_without_click_reports_no_click() {
    let mut world = World::new();
    world.spawn(clickable_button(0, 0));
    let mut ps = PointerState::new();
    update_mouse_world_position(&mut ps, Some(Position(Vec2i { x: 0, y: 0 })));
    update_left_mouse_click_position(&mut ps, false);
    update_just_clicked(&mut ps, &world);
    assert_eq!(ps.over_element.0, Some(0));
    assert_eq!(ps.just_clicked.0, None);
}

#[test]
fn drag_is_acquired_with_cursor_offset() {
    let mut world = World::new();
    world.spawn(draggable_box(30, 40));
    let mut ps = PointerState::new();
    ps.mouse.0 = Some(Position(Vec2i { x: 25, y: 33 }));
    ps.just_clicked = JustClicked(Some(0));
    set_dragging(&mut ps, &world);
    assert_eq!(ps.dragging.entity, Some(0));
    assert_eq!(ps.dragging.offset_pos, Some(Position(Vec2i { x: 5, y: 7 })));
}

#[test]
fn acquiring_a_drag_while_one_is_active_is_a_noop() {
    let mut world = World::new();
    world.spawn(draggable_box(30, 40));
    world.spawn(draggable_box(90, 90));
    let mut ps = PointerState::new();
    ps.mouse.0 = Some(Position(Vec2i { x: 0, y: 0 }));
    ps.dragging = Dragging {
        entity: Some(1),
        offset_pos: Some(Position(Vec2i { x: 2, y: 2 })),
    };
    ps.just_clicked = JustClicked(Some(0));
    set_dragging(&mut ps, &world);
    assert_eq!(ps.dragging.entity, Some(1));
    assert_eq!(ps.dragging.offset_pos, Some(Position(Vec2i { x: 2, y: 2 })));
}

#[test]
fn dragged_entity_follows_the_cursor() {
    let mut world = World::new();
    world.spawn(draggable_box(30, 40));
    let mut ps = PointerState::new();
    ps.mouse.0 = Some(Position(Vec2i { x: 100, y: 200 }));
    ps.dragging = Dragging {
        entity: Some(0),
        offset_pos: Some(Position(Vec2i { x: 5, y: 7 })),
    };
    update_dragged_object(&mut world, &ps);
    assert_eq!(world.entities[0].pos.unwrap(), Position(Vec2i { x: 105, y: 207 }));
    assert!(world.entities[0].position_changed);
}

#[test]
fn releasing_the_button_clears_the_drag() {
    let mut ps = PointerState::new();
    ps.dragging = Dragging {
        entity: Some(0),
        offset_pos: Some(Position(Vec2i { x: 5, y: 7 })),
    };
    reset_dragging(&mut ps, true);
    assert_eq!(ps.dragging.entity, Some(0));
    reset_dragging(&mut ps, false);
    assert_eq!(ps.dragging.entity, None);
    assert_eq!(ps.dragging.offset_pos, None);
}

#[test]
fn cursor_icon_reflects_hover_and_drag() {
    let mut ps = PointerState::new();
    assert_eq!(update_mouse_pointer(&ps), CursorKind::Default);
    ps.over_element.0 = Some(4);
    assert_eq!(update_mouse_pointer(&ps), CursorKind::Pointer);
    ps.dragging.entity = Some(4);
    assert_eq!(update_mouse_pointer(&ps), CursorKind::Grab);
}

#[test]
fn clicking_a_tool_button_selects_its_tool() {
    let mut world = World::new();
    setup_mouse_button(&mut world);
    let draw_id = setup_draw_button(&mut world);
    let mut state = GameState::new(100, 120, 2);
    let mut ps = PointerState::new();
    ps.just_clicked = JustClicked(Some(draw_id));
    let indicator = tool_selection(&world, &mut state, &ps);
    assert_eq!(state.tool, SelectedTool(Tools::Draw));
    // the indicator stands 80 units right of the draw button
    assert_eq!(indicator, Some(Vec2i { x: -660, y: 90 }));
}

#[test]
fn tool_indicator_hides_without_buttons() {
    let world = World::new();
    let mut state = GameState::new(100, 120, 1);
    let ps = PointerState::new();
    let indicator = tool_selection(&world, &mut state, &ps);
    assert_eq!(indicator, None);
    assert_eq!(state.tool, SelectedTool(Tools::Mouse));
}

#[test]
fn draw_tool_lays_an_obstacle_while_held() {
    let mut world = World::new();
    let mut state = GameState::new(100, 120, 2);
    state.tool = SelectedTool(Tools::Draw);
    let mut ps = PointerState::new();
    ps.mouse.0 = Some(Position(Vec2i { x: 42, y: -17 }));
    let placement = draw_obstacle(&mut world, &state, &ps, true);
    assert_eq!(placement, DrawIndicatorPlacement::At(Position(Vec2i { x: 42, y: -17 })));
    assert_eq!(world.entities.len(), 1);
    let ob = &world.entities[0];
    assert_eq!(ob.pos.unwrap(), Position(Vec2i { x: 42, y: -17 }));
    assert_eq!(ob.circle.unwrap().radius, 12);
    assert!(ob.vel.is_none());
}

#[test]
fn draw_tool_respects_hover_drag_and_tool() {
    let mut world = World::new();
    let state_mouse = GameState::new(100, 120, 2);
    let mut state_draw = GameState::new(100, 120, 2);
    state_draw.tool = SelectedTool(Tools::Draw);
    let mut ps = PointerState::new();
    ps.mouse.0 = Some(Position(Vec2i { x: 0, y: 0 }));
    // wrong tool hides the indicator and draws nothing
    assert_eq!(draw_obstacle(&mut world, &state_mouse, &ps, true),
        DrawIndicatorPlacement::Hidden);
    // hovering a clickable element blocks drawing
    ps.over_element.0 = Some(3);
    assert_eq!(draw_obstacle(&mut world, &state_draw, &ps, true),
        DrawIndicatorPlacement::Hidden);
    ps.over_element.0 = None;
    // an active drag blocks drawing
    ps.dragging.entity = Some(3);
    assert_eq!(draw_obstacle(&mut world, &state_draw, &ps, true),
        DrawIndicatorPlacement::Hidden);
    ps.dragging.entity = None;
    // no cursor leaves the indicator alone
    ps.mouse.0 = None;
    assert_eq!(draw_obstacle(&mut world, &state_draw, &ps, true),
        DrawIndicatorPlacement::Unchanged);
    assert_eq!(world.entities.len(), 0);
}
