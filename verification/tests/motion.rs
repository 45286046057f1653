use assembly_anarchy::physics::{CirclePhysics, ColliderCollection, Position, RectanglePhysics,
    Velocity, add_gravity, collision_with_static_circles, collision_with_static_rectangles,
    on_changed_position, resolve_circle_circle, resolve_circle_rect, update_position};
use assembly_anarchy::vec2::{Vec2i, isqrt_u64};
use assembly_anarchy::view::{SpriteView, remove_escaped_items};
use assembly_anarchy::world::{Entity, World};

fn dynamic_circle(x: i64, y: i64, vx: i64, vy: i64, radius: i64) -> Entity {
    let mut e = Entity::blank();
    e.pos = Some(Position(Vec2i { x, y }));
    e.vel = Some(Velocity(Vec2i { x: vx, y: vy }));
    e.circle = Some(CirclePhysics { radius });
    e
}

fn static_circle(x: i64, y: i64, radius: i64) -> Entity {
    let mut e = Entity::blank();
    e.pos = Some(Position(Vec2i { x, y }));
    e.circle = Some(CirclePhysics { radius });
    e
}

#[test]
fn integer_square_roots_are_floors() {
    assert_eq!(isqrt_u64(0), 0);
    assert_eq!(isqrt_u64(1), 1);
    assert_eq!(isqrt_u64(24), 4);
    assert_eq!(isqrt_u64(25), 5);
    assert_eq!(isqrt_u64(1_000_000), 1000);
}

#[test]
fn gravity_lowers_vertical_velocity() {
    let mut world = World::new();
    world.spawn(dynamic_circle(0, 100, 3, 0, 12));
    // 784 units per second squared for an eighth of a second
    add_gravity(&mut world, 125_000);
    let v = world.entities[0].vel.unwrap().0;
    assert_eq!(v, Vec2i { x: 3, y: -98 });
}

#[test]
fn integration_moves_by_velocity_times_time() {
    let mut world = World::new();
    world.spawn(dynamic_circle(10, 20, 40, -80, 12));
    update_position(&mut world, 500_000);
    let p = world.entities[0].pos.unwrap().0;
    assert_eq!(p, Vec2i { x: 30, y: -20 });
    assert!(world.entities[0].position_changed);
}

#[test]
fn resting_circle_is_pushed_out_and_reflected() {
    // a dynamic circle of radius 12 exactly 10 units above a static
    // circle of radius 12 at the origin, for one tick of gravity
    let mut world = World::new();
    world.spawn(dynamic_circle(0, 10, 0, 0, 12));
    world.spawn(static_circle(0, 0, 12));
    add_gravity(&mut world, 125_000);
    collision_with_static_circles(&mut world);
    collision_with_static_rectangles(&mut world);
    update_position(&mut world, 125_000);
    let p = world.entities[0].pos.unwrap().0;
    assert!(p.x * p.x + p.y * p.y >= 24 * 24);
    let v = world.entities[0].vel.unwrap().0;
    assert!(v.y >= 0);
}

#[test]
fn coincident_centres_fall_back_to_x_axis() {
    let (np, _nv) = resolve_circle_circle(
        Position(Vec2i { x: 5, y: 5 }),
        Velocity(Vec2i { x: 0, y: 0 }),
        10,
        Position(Vec2i { x: 5, y: 5 }),
        10,
    );
    assert_eq!(np.0, Vec2i { x: 25, y: 5 });
}

#[test]
fn separated_circles_are_untouched() {
    let (np, nv) = resolve_circle_circle(
        Position(Vec2i { x: 0, y: 100 }),
        Velocity(Vec2i { x: 7, y: -9 }),
        12,
        Position(Vec2i { x: 0, y: 0 }),
        12,
    );
    assert_eq!(np.0, Vec2i { x: 0, y: 100 });
    assert_eq!(nv.0, Vec2i { x: 7, y: -9 });
}

#[test]
fn circle_is_pushed_off_rectangle_edge() {
    // circle centre 5 above the top edge of a 100 x 20 rectangle, radius 12
    let (np, nv) = resolve_circle_rect(
        Position(Vec2i { x: 0, y: 15 }),
        Velocity(Vec2i { x: 0, y: -60 }),
        12,
        0,
        0,
        100,
        20,
    );
    // closest point (0, 10); pushed 12 up from it
    assert_eq!(np.0, Vec2i { x: 0, y: 22 });
    // closing velocity reflected with restitution 7/10
    assert_eq!(nv.0, Vec2i { x: 0, y: 42 });
}

#[test]
fn ledge_colliders_stop_a_falling_item() {
    let mut world = World::new();
    world.spawn(dynamic_circle(0, 12, 0, -50, 14));
    let mut ledge = Entity::blank();
    ledge.pos = Some(Position(Vec2i { x: 0, y: -20 }));
    ledge.colliders = Some(ColliderCollection(vec![RectanglePhysics {
        width: 20,
        height: 40,
        offset_x: 0,
        offset_y: 0,
    }]));
    world.spawn(ledge);
    collision_with_static_rectangles(&mut world);
    let p = world.entities[0].pos.unwrap().0;
    // the circle sat 12 above the rectangle top (0); now at least 14
    assert!(p.y >= 14);
    let v = world.entities[0].vel.unwrap().0;
    assert!(v.y >= 0);
}

#[test]
fn resolution_is_stable_over_repeated_passes() {
    let mut world = World::new();
    world.spawn(dynamic_circle(3, 20, 0, -40, 12));
    world.spawn(static_circle(0, 0, 12));
    collision_with_static_circles(&mut world);
    let first = world.entities[0].pos.unwrap().0;
    assert!(first.x * first.x + first.y * first.y >= 24 * 24);
    // a second pass finds no penetration and changes nothing
    collision_with_static_circles(&mut world);
    let second = world.entities[0].pos.unwrap().0;
    assert_eq!(first, second);
}

#[test]
fn escaped_entities_are_removed() {
    let mut world = World::new();
    world.spawn(dynamic_circle(0, -1500, 0, 0, 14));
    world.spawn(dynamic_circle(0, 100, 0, 0, 14));
    remove_escaped_items(&mut world);
    assert!(!world.entities[0].alive);
    assert!(world.entities[1].alive);
}

#[test]
fn changed_positions_are_reported_once() {
    let mut world = World::new();
    let mut e = dynamic_circle(10, 20, 5, 0, 14);
    e.view = Some(SpriteView::Item { item: assembly_anarchy::item::Item::Bolt,
        ui_element: false });
    world.spawn(e);
    update_position(&mut world, 1_000_000);
    let changed = on_changed_position(&mut world);
    assert_eq!(changed.len(), 1);
    assert_eq!(changed[0].0, 0);
    assert_eq!(changed[0].1, Position(Vec2i { x: 15, y: 20 }));
    let again = on_changed_position(&mut world);
    assert_eq!(again.len(), 0);
}
