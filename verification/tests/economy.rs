use assembly_anarchy::input::{Clickable, JustClicked, PointerState};
use assembly_anarchy::item::Item;
use assembly_anarchy::levels::GameState;
use assembly_anarchy::machines::Machine;
use assembly_anarchy::physics::Position;
use assembly_anarchy::pipes::{InputPipe, OutputPipe, input_pipe_spawn_item,
    output_pipe_consume_item, toggle_input_pipe};
use assembly_anarchy::ui::{buy_machines, spawn_machine_window};
use assembly_anarchy::vec2::Vec2i;
use assembly_anarchy::view::SpriteView;
use assembly_anarchy::world::{Entity, World};

fn input_pipe_entity(item: Item, rate: u32, cost: i64, enabled: bool, x: i64, y: i64) -> Entity {
    let mut e = Entity::blank();
    e.pos = Some(Position(Vec2i { x, y }));
    e.view = Some(SpriteView::InputPipe);
    e.clickable = Some(Clickable);
    e.input_pipe = Some(InputPipe {
        item,
        spawn_rate: rate,
        time_elapsed: 0,
        cost,
        enabled,
    });
    e
}

fn output_pipe_entity(item: Item, reward: i64, x: i64, y: i64) -> Entity {
    let mut e = Entity::blank();
    e.pos = Some(Position(Vec2i { x, y }));
    e.view = Some(SpriteView::OutputPipe);
    e.output_pipe = Some(OutputPipe { item, reward });
    e
}

fn item_entity(item: Item, x: i64, y: i64) -> Entity {
    let mut e = Entity::blank();
    e.pos = Some(Position(Vec2i { x, y }));
    e.item = Some(item);
    e
}

#[test]
fn pipe_spawns_five_items_and_pays_five_units() {
    let mut world = World::new();
    world.spawn(input_pipe_entity(Item::Bolt, 5, 1, true, 0, 400));
    let mut state = GameState::new(100, 120, 1);
    input_pipe_spawn_item(&mut world, &mut state, 1_000_000);
    assert_eq!(world.entities.len(), 6);
    assert_eq!(state.money.0, 95);
    let pipe = world.entities[0].input_pipe.unwrap();
    assert_eq!(pipe.time_elapsed, 0);
    for i in 1..6 {
        let it = &world.entities[i];
        assert!(it.alive);
        assert_eq!(it.item, Some(Item::Bolt));
        assert_eq!(it.pos.unwrap(), Position(Vec2i { x: 0, y: 400 }));
        assert_eq!(it.circle.unwrap().radius, 14);
        let v = it.vel.unwrap().0;
        assert!(-50 <= v.x && v.x < 50);
        assert_eq!(v.y, 0);
    }
}

#[test]
fn pipe_accumulator_keeps_fractional_interval() {
    let mut world = World::new();
    world.spawn(input_pipe_entity(Item::Steel, 5, 2, true, 0, 400));
    let mut state = GameState::new(50, 100, 1);
    // 0.3 s at 5 per second: one spawn, 0.1 s left over
    input_pipe_spawn_item(&mut world, &mut state, 300_000);
    assert_eq!(world.entities.len(), 2);
    assert_eq!(state.money.0, 48);
    assert_eq!(world.entities[0].input_pipe.unwrap().time_elapsed, 100_000);
}

#[test]
fn spawns_over_many_ticks_follow_the_accumulated_time() {
    let mut world = World::new();
    world.spawn(input_pipe_entity(Item::Bolt, 5, 1, true, 0, 400));
    let mut state = GameState::new(100, 1000, 1);
    // ten ticks of 0.13 s at 5 per second: 1.3 s accumulated,
    // floor(5 * 1.3) = 6 items, 0.1 s left in the accumulator
    for _ in 0..10 {
        input_pipe_spawn_item(&mut world, &mut state, 130_000);
    }
    assert_eq!(world.entities.len(), 7);
    assert_eq!(state.money.0, 94);
    assert_eq!(world.entities[0].input_pipe.unwrap().time_elapsed, 100_000);
}

#[test]
fn disabled_pipe_spawns_nothing_and_holds_time() {
    let mut world = World::new();
    world.spawn(input_pipe_entity(Item::Bolt, 5, 1, false, 0, 400));
    let mut state = GameState::new(10, 120, 1);
    input_pipe_spawn_item(&mut world, &mut state, 1_000_000);
    assert_eq!(world.entities.len(), 1);
    assert_eq!(state.money.0, 10);
    assert_eq!(world.entities[0].input_pipe.unwrap().time_elapsed, 0);
}

#[test]
fn zero_rate_pipe_only_accumulates() {
    let mut world = World::new();
    world.spawn(input_pipe_entity(Item::Bolt, 0, 1, true, 0, 400));
    let mut state = GameState::new(10, 120, 1);
    input_pipe_spawn_item(&mut world, &mut state, 700_000);
    assert_eq!(world.entities.len(), 1);
    assert_eq!(state.money.0, 10);
    assert_eq!(world.entities[0].input_pipe.unwrap().time_elapsed, 700_000);
}

#[test]
fn click_toggles_pipe_without_cost() {
    let mut world = World::new();
    world.spawn(input_pipe_entity(Item::Bolt, 5, 1, false, 0, 400));
    toggle_input_pipe(&mut world, &JustClicked(Some(0)));
    assert!(world.entities[0].input_pipe.unwrap().enabled);
    toggle_input_pipe(&mut world, &JustClicked(Some(0)));
    assert!(!world.entities[0].input_pipe.unwrap().enabled);
    toggle_input_pipe(&mut world, &JustClicked(None));
    assert!(!world.entities[0].input_pipe.unwrap().enabled);
}

#[test]
fn output_pipe_collects_matching_item() {
    let mut world = World::new();
    world.spawn(output_pipe_entity(Item::Bolt, 5, 0, -350));
    // collection point: 100 below the pipe, tolerance 50
    world.spawn(item_entity(Item::Bolt, 10, -460));
    let mut state = GameState::new(100, 120, 1);
    output_pipe_consume_item(&mut world, &mut state);
    assert_eq!(state.money.0, 105);
    assert!(!world.entities[1].alive);
    assert!(world.entities[0].alive);
}

#[test]
fn output_pipe_ignores_mismatched_and_distant_items() {
    let mut world = World::new();
    world.spawn(output_pipe_entity(Item::Bolt, 5, 0, -350));
    world.spawn(item_entity(Item::Steel, 0, -450));
    world.spawn(item_entity(Item::Bolt, 0, -250));
    let mut state = GameState::new(100, 120, 1);
    output_pipe_consume_item(&mut world, &mut state);
    assert_eq!(state.money.0, 100);
    assert!(world.entities[1].alive);
    assert!(world.entities[2].alive);
}

#[test]
fn purchase_rejected_when_money_is_short() {
    let mut world = World::new();
    let machine = Machine::OneToOneCrafter { input: Item::Steel, output: Item::Bolt, cost: 15 };
    spawn_machine_window(&mut world, Position(Vec2i { x: 640, y: 256 }), machine);
    let mut state = GameState::new(10, 120, 1);
    let mut ps = PointerState::new();
    ps.just_clicked = JustClicked(Some(0));
    buy_machines(&mut world, &mut state, &ps);
    assert_eq!(state.money.0, 10);
    assert_eq!(world.entities.len(), 1);
    assert!(world.entities[0].alive);
    assert!(world.entities[0].machine_window.is_some());
}

#[test]
fn purchase_spawns_machine_and_destroys_window() {
    let mut world = World::new();
    let machine = Machine::OneToOneCrafter { input: Item::Steel, output: Item::Bolt, cost: 15 };
    spawn_machine_window(&mut world, Position(Vec2i { x: 640, y: 256 }), machine);
    let mut state = GameState::new(20, 120, 1);
    let mut ps = PointerState::new();
    ps.just_clicked = JustClicked(Some(0));
    buy_machines(&mut world, &mut state, &ps);
    assert_eq!(state.money.0, 5);
    assert!(!world.entities[0].alive);
    // the machine entity and its two icon followers
    assert_eq!(world.entities.len(), 4);
    let m = &world.entities[1];
    assert!(m.alive);
    assert_eq!(m.machine, Some(machine));
    assert!(m.clickable.is_some());
    assert!(m.draggable.is_some());
    let p = m.pos.unwrap().0;
    assert!(-200 <= p.x && p.x < 200);
    assert!(-100 <= p.y && p.y < 100);
    assert!(world.entities[2].follow.is_some());
    assert!(world.entities[3].follow.is_some());
}

#[test]
fn money_decomposes_into_spends_and_earnings() {
    let mut world = World::new();
    world.spawn(input_pipe_entity(Item::Bolt, 5, 1, true, 0, 400));
    world.spawn(output_pipe_entity(Item::Bolt, 5, 0, -350));
    world.spawn(item_entity(Item::Bolt, 0, -450));
    let machine = Machine::Duplicator { cost: 3 };
    spawn_machine_window(&mut world, Position(Vec2i { x: 640, y: 256 }), machine);
    let mut state = GameState::new(100, 1000, 1);
    // one spawn at cost 1
    input_pipe_spawn_item(&mut world, &mut state, 200_000);
    assert_eq!(state.money.0, 99);
    // one collection at reward 5
    output_pipe_consume_item(&mut world, &mut state);
    assert_eq!(state.money.0, 104);
    // one purchase at cost 3
    let mut ps = PointerState::new();
    ps.just_clicked = JustClicked(Some(3));
    buy_machines(&mut world, &mut state, &ps);
    assert_eq!(state.money.0, 100 - 1 + 5 - 3);
}
