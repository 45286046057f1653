use assembly_anarchy::input::Clickable;
use assembly_anarchy::item::Item;
use assembly_anarchy::levels::{CurrentLevel, CurrentMoney, GameState, LevelRegistry, LevelSpec,
    MoneyGoal, level_management, load_initial_level};
use assembly_anarchy::machines::{FollowWithOffset, follow_relative_position, one_to_one_crafter,
    duplicator, spawn_one_to_one_crafter, Machine};
use assembly_anarchy::physics::Position;
use assembly_anarchy::pipes::{InputPipe, on_add_input_pipe, on_add_output_pipe, OutputPipe};
use assembly_anarchy::ui::Tools;
use assembly_anarchy::vec2::Vec2i;
use assembly_anarchy::view::SpriteView;
use assembly_anarchy::world::{Entity, World};

fn pipe_level(start_money: i64, goal: i64) -> LevelSpec {
    let mut pipe = Entity::blank();
    pipe.pos = Some(Position(Vec2i { x: 0, y: 400 }));
    pipe.view = Some(SpriteView::InputPipe);
    pipe.clickable = Some(Clickable);
    pipe.input_pipe = Some(InputPipe {
        item: Item::Bolt,
        spawn_rate: 5,
        time_elapsed: 0,
        cost: 1,
        enabled: false,
    });
    LevelSpec { start_money, goal, entities: vec![pipe] }
}

#[test]
fn initial_level_sets_money_and_spawns_content() {
    let registry = LevelRegistry(vec![pipe_level(100, 120)]);
    let mut world = World::new();
    let mut state = GameState::new(0, 0, 0);
    load_initial_level(&mut world, &mut state, &registry);
    assert_eq!(state.money, CurrentMoney(100));
    assert_eq!(state.goal, MoneyGoal(120));
    assert_eq!(world.entities.len(), 1);
    assert!(world.entities[0].input_pipe.is_some());
}

#[test]
fn unregistered_initial_level_changes_nothing() {
    let registry = LevelRegistry(vec![pipe_level(100, 120)]);
    let mut world = World::new();
    let mut state = GameState::new(55, 66, 7);
    load_initial_level(&mut world, &mut state, &registry);
    assert_eq!(state.money, CurrentMoney(55));
    assert_eq!(world.entities.len(), 0);
}

#[test]
fn reaching_the_goal_latches_the_win_once() {
    let registry = LevelRegistry(vec![]);
    let mut world = World::new();
    let mut state = GameState::new(120, 120, 1);
    level_management(&mut world, &mut state, &registry, false);
    assert!(state.won.0);
    assert!(!state.lost.0);
    // the latch holds; nothing re-triggers
    level_management(&mut world, &mut state, &registry, false);
    assert!(state.won.0);
    assert!(!state.lost.0);
}

#[test]
fn winning_and_advancing_loads_the_next_level() {
    let registry = LevelRegistry(vec![pipe_level(100, 120), pipe_level(200, 300)]);
    let mut world = World::new();
    let mut state = GameState::new(0, 0, 0);
    load_initial_level(&mut world, &mut state, &registry);
    state.money = CurrentMoney(120);
    level_management(&mut world, &mut state, &registry, true);
    assert_eq!(state.level, CurrentLevel(1));
    assert_eq!(state.money, CurrentMoney(200));
    assert_eq!(state.goal, MoneyGoal(300));
    assert!(!state.won.0);
    assert!(!state.lost.0);
    assert_eq!(state.tool.0, Tools::Mouse);
    // the old level's pipe is destroyed, the new one spawned at the end
    assert!(!world.entities[0].alive);
    assert!(world.entities[1].alive);
    assert!(world.entities[1].input_pipe.is_some());
}

#[test]
fn losing_resets_the_same_level_to_its_start() {
    let registry = LevelRegistry(vec![pipe_level(100, 120), pipe_level(200, 300)]);
    let mut world = World::new();
    let mut state = GameState::new(0, 0, 0);
    load_initial_level(&mut world, &mut state, &registry);
    // win into level one, then lose it: money must come back to 200,
    // never accumulate from the failed attempt
    state.money = CurrentMoney(120);
    level_management(&mut world, &mut state, &registry, true);
    assert_eq!(state.money, CurrentMoney(200));
    state.money = CurrentMoney(-3);
    level_management(&mut world, &mut state, &registry, true);
    assert_eq!(state.level, CurrentLevel(1));
    assert_eq!(state.money, CurrentMoney(200));
    assert_eq!(state.goal, MoneyGoal(300));
    assert!(!state.won.0);
    assert!(!state.lost.0);
}

#[test]
fn advancing_past_the_last_level_spawns_nothing() {
    let registry = LevelRegistry(vec![pipe_level(100, 120)]);
    let mut world = World::new();
    let mut state = GameState::new(0, 0, 0);
    load_initial_level(&mut world, &mut state, &registry);
    state.money = CurrentMoney(500);
    level_management(&mut world, &mut state, &registry, true);
    assert_eq!(state.level, CurrentLevel(1));
    // the defaults, since no content is registered
    assert_eq!(state.money, CurrentMoney(123));
    assert_eq!(state.goal, MoneyGoal(1234));
    assert!(!world.entities[0].alive);
    assert_eq!(world.entities.len(), 1);
}

fn item_entity(item: Item, x: i64, y: i64) -> Entity {
    let mut e = Entity::blank();
    e.pos = Some(Position(Vec2i { x, y }));
    e.item = Some(item);
    e
}

#[test]
fn crafter_turns_input_items_into_outputs() {
    let mut world = World::new();
    let machine = Machine::OneToOneCrafter { input: Item::Steel, output: Item::Bolt, cost: 100 };
    spawn_one_to_one_crafter(&mut world, Position(Vec2i { x: 0, y: 0 }), machine);
    // intake reach: within 9/32 of the 200-unit sprite width, so 56 units
    world.spawn(item_entity(Item::Steel, 10, 0));
    world.spawn(item_entity(Item::Gold, 0, 10));
    world.spawn(item_entity(Item::Steel, 300, 0));
    one_to_one_crafter(&mut world);
    // both items in reach are destroyed, matching or not
    assert!(!world.entities[3].alive);
    assert!(!world.entities[4].alive);
    assert!(world.entities[5].alive);
    // exactly one product, for the matching input, at the machine's base
    let product = &world.entities[6];
    assert_eq!(world.entities.len(), 7);
    assert!(product.alive);
    assert_eq!(product.item, Some(Item::Bolt));
    assert_eq!(product.pos.unwrap(), Position(Vec2i { x: 0, y: -60 }));
}

#[test]
fn duplicator_emits_two_copies_of_any_item() {
    let mut world = World::new();
    let mut m = Entity::blank();
    m.pos = Some(Position(Vec2i { x: 0, y: 0 }));
    m.machine = Some(Machine::Duplicator { cost: 200 });
    world.spawn(m);
    world.spawn(item_entity(Item::Crystal, 10, 0));
    duplicator(&mut world);
    assert!(!world.entities[1].alive);
    assert_eq!(world.entities.len(), 4);
    for k in 2..4 {
        assert!(world.entities[k].alive);
        assert_eq!(world.entities[k].item, Some(Item::Crystal));
        assert_eq!(world.entities[k].pos.unwrap(), Position(Vec2i { x: 0, y: -60 }));
    }
}

#[test]
fn followers_track_their_target_and_die_with_it() {
    let mut world = World::new();
    let mut target = Entity::blank();
    target.pos = Some(Position(Vec2i { x: 50, y: 60 }));
    world.spawn(target);
    let mut icon = Entity::blank();
    icon.pos = Some(Position(Vec2i { x: 0, y: 0 }));
    icon.follow = Some(FollowWithOffset {
        relative_pos: Position(Vec2i { x: 0, y: 30 }),
        entity: 0,
    });
    world.spawn(icon);
    follow_relative_position(&mut world);
    assert_eq!(world.entities[1].pos.unwrap(), Position(Vec2i { x: 50, y: 90 }));
    world.despawn(0);
    follow_relative_position(&mut world);
    assert!(!world.entities[1].alive);
}

#[test]
fn pipe_decorations_are_spawned_beside_their_pipes() {
    let mut world = World::new();
    let mut inp = Entity::blank();
    inp.pos = Some(Position(Vec2i { x: 0, y: 400 }));
    inp.input_pipe = Some(InputPipe {
        item: Item::Bolt,
        spawn_rate: 5,
        time_elapsed: 0,
        cost: 1,
        enabled: false,
    });
    world.spawn(inp);
    on_add_input_pipe(&mut world, 0);
    assert_eq!(world.entities.len(), 2);
    assert_eq!(world.entities[1].pos.unwrap(), Position(Vec2i { x: 0, y: 415 }));
    assert_eq!(world.entities[1].view,
        Some(SpriteView::Item { item: Item::Bolt, ui_element: true }));

    let mut out = Entity::blank();
    out.pos = Some(Position(Vec2i { x: 0, y: -350 }));
    out.view = Some(SpriteView::OutputPipe);
    out.output_pipe = Some(OutputPipe { item: Item::Bolt, reward: 5 });
    world.spawn(out);
    on_add_output_pipe(&mut world, 2);
    assert_eq!(world.entities.len(), 6);
    // two ledges at 56 aside and 50 below, then the icon 50 below
    assert_eq!(world.entities[3].pos.unwrap(), Position(Vec2i { x: 56, y: -400 }));
    assert_eq!(world.entities[4].pos.unwrap(), Position(Vec2i { x: -56, y: -400 }));
    let ledge = world.entities[3].colliders.as_ref().unwrap();
    assert_eq!(ledge.0.len(), 1);
    assert_eq!(ledge.0[0].width, 20);
    assert_eq!(ledge.0[0].height, 100);
    assert_eq!(world.entities[5].pos.unwrap(), Position(Vec2i { x: 0, y: -400 }));
}
