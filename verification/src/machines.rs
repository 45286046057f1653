//! Machines transform items on contact. A one-to-one crafter turns items of
//! its input kind into items of its output kind; a duplicator emits two
//! copies of whatever kind entered. Both destroy every item that enters,
//! matching or not.

use vstd::prelude::*;
use vstd::string::StringExecFns;
use crate::item::Item;
use crate::physics::{CirclePhysics, ColliderCollection, Position, RectanglePhysics, Velocity};
use crate::pipes::spawned_item_shape;
use crate::rng::random_in_range;
use crate::vec2::{Vec2i, clip, clip_i128, in_world};
use crate::view::SpriteView;
use crate::world::{Entity, EntityId, World};
use crate::input::{Clickable, DragAble};

verus! {

/// A decorative entity that tracks another entity's position at a fixed
/// offset, and despawns when the tracked entity is gone.
#[derive(Clone, Copy, Debug, PartialEq, Eq, Structural)]
pub struct FollowWithOffset {
    pub relative_pos: Position,
    pub entity: EntityId,
}

/// A kind of machine, with its purchase cost.
#[derive(Clone, Copy, Debug, PartialEq, Eq, Structural)]
pub enum Machine {
    OneToOneCrafter { input: Item, output: Item, cost: i64 },
    Duplicator { cost: i64 },
}

impl Machine {
    /// One-line description for the shop window.
    pub fn get_description(&self) -> (r: String)
        ensures
            r@ == self.spec_description(),
    {
        match self {
            Machine::OneToOneCrafter { input, output, cost: _ } => {
                let d = String::from_str("crafts ");
                let d = d.concat(input.get_name());
                let d = d.concat(" into ");
                d.concat(output.get_name())
            },
            Machine::Duplicator { cost: _ } => String::from_str("duplicates items"),
        }
    }

    /// Display name for the shop window.
    pub fn get_name(&self) -> (r: String)
        ensures
            r@ == self.spec_display_name(),
    {
        match self {
            Machine::OneToOneCrafter { .. } => String::from_str("Crafter"),
            Machine::Duplicator { .. } => String::from_str("Duplicator"),
        }
    }

    /// Purchase cost.
    pub fn get_cost(&self) -> (r: i64)
        ensures
            r == self.spec_cost(),
    {
        match self {
            Machine::OneToOneCrafter { input: _, output: _, cost } => *cost,
            Machine::Duplicator { cost } => *cost,
        }
    }

    /// The sprite that depicts a live machine of this kind.
    pub fn get_sprite_view(&self) -> (r: SpriteView)
        ensures
            r == self.spec_sprite_view(),
    {
        match self {
            Machine::OneToOneCrafter { .. } => SpriteView::OneToOneCrafter,
            Machine::Duplicator { .. } => SpriteView::Duplicator,
        }
    }

    /// The characters `get_description` returns.
    pub open spec fn spec_description(&self) -> Seq<char> {
        match self {
            Machine::OneToOneCrafter { input, output, cost: _ } =>
                "crafts "@ + input.spec_name() + " into "@ + output.spec_name(),
            Machine::Duplicator { cost: _ } => "duplicates items"@,
        }
    }

    /// The characters `get_name` returns.
    pub open spec fn spec_display_name(&self) -> Seq<char> {
        match self {
            Machine::OneToOneCrafter { .. } => "Crafter"@,
            Machine::Duplicator { .. } => "Duplicator"@,
        }
    }

    /// The value `get_cost` returns.
    pub open spec fn spec_cost(&self) -> i64 {
        match self {
            Machine::OneToOneCrafter { input: _, output: _, cost } => *cost,
            Machine::Duplicator { cost } => *cost,
        }
    }

    /// The value `get_sprite_view` returns.
    pub open spec fn spec_sprite_view(&self) -> SpriteView {
        match self {
            Machine::OneToOneCrafter { .. } => SpriteView::OneToOneCrafter,
            Machine::Duplicator { .. } => SpriteView::Duplicator,
        }
    }
}

/// The record is a live machine with a position.
pub open spec fn is_live_machine(e: Entity) -> bool {
    e.alive && e.machine is Some && e.pos is Some
}

/// The footprint of the machine's own sprite.
pub open spec fn machine_scale(e: Entity) -> Vec2i {
    (e.machine->0).spec_sprite_view().spec_scale()
}

/// The item stands inside the machine's intake: within 9/32 of the
/// machine's sprite width of its centre.
pub open spec fn in_intake(m: Entity, it: Entity) -> bool {
    &&& is_live_machine(m)
    &&& it.is_live_item()
    &&& ({
        let sx = machine_scale(m).x as int;
        let mp = (m.pos->0).0;
        let ip = (it.pos->0).0;
        let dx = ip.x - mp.x;
        let dy = ip.y - mp.y;
        1024 * (dx * dx + dy * dy) < 81 * sx * sx
    })
}

/// Where a machine drops its products: 3/10 of its sprite height below
/// its centre.
pub open spec fn machine_out_pos(m: Entity) -> Position {
    let mp = (m.pos->0).0;
    let sy = machine_scale(m).y as int;
    Position(Vec2i { x: mp.x, y: clip(mp.y - (3 * sy) / 10) as i64 })
}

/// The record is a live one-to-one crafter.
pub open spec fn is_crafter(e: Entity) -> bool {
    is_live_machine(e) && e.machine->0 is OneToOneCrafter
}

/// The record is a live duplicator.
pub open spec fn is_duplicator(e: Entity) -> bool {
    is_live_machine(e) && e.machine->0 is Duplicator
}

/// A crafter destroys every item in its intake, matching or not.
pub open spec fn crafter_consumes(m: Entity, it: Entity) -> bool {
    is_crafter(m) && in_intake(m, it)
}

/// The item at index `k` stands in the intake of some crafter.
pub open spec fn consumed_by_crafter(s: Seq<Entity>, k: int) -> bool {
    exists|m: int| 0 <= m < s.len() && crafter_consumes(#[trigger] s[m], s[k])
}

/// The products one crafter emits for the items of `items`: one item of
/// its output kind per consumed item of its input kind.
pub open spec fn crafter_spawns_for(m: Entity, items: Seq<Entity>) -> Seq<(Item, Position)>
    decreases items.len(),
{
    if items.len() == 0 {
        Seq::empty()
    } else {
        let rest = crafter_spawns_for(m, items.drop_last());
        let it = items.last();
        if crafter_consumes(m, it) && it.item->0 == (m.machine->0)->OneToOneCrafter_input {
            rest.push(((m.machine->0)->OneToOneCrafter_output, machine_out_pos(m)))
        } else {
            rest
        }
    }
}

/// The products all crafters of the world emit, in entity order.
pub open spec fn crafter_spawn_list(machines: Seq<Entity>, items: Seq<Entity>) -> Seq<
    (Item, Position),
>
    decreases machines.len(),
{
    if machines.len() == 0 {
        Seq::empty()
    } else {
        crafter_spawn_list(machines.drop_last(), items)
            + crafter_spawns_for(machines.last(), items)
    }
}

/// A duplicator destroys every item in its intake.
pub open spec fn duplicator_consumes(m: Entity, it: Entity) -> bool {
    is_duplicator(m) && in_intake(m, it)
}

/// The item at index `k` stands in the intake of some duplicator.
pub open spec fn consumed_by_duplicator(s: Seq<Entity>, k: int) -> bool {
    exists|m: int| 0 <= m < s.len() && duplicator_consumes(#[trigger] s[m], s[k])
}

/// The products one duplicator emits: two copies of each consumed item's
/// own kind.
pub open spec fn duplicator_spawns_for(m: Entity, items: Seq<Entity>) -> Seq<(Item, Position)>
    decreases items.len(),
{
    if items.len() == 0 {
        Seq::empty()
    } else {
        let rest = duplicator_spawns_for(m, items.drop_last());
        let it = items.last();
        if duplicator_consumes(m, it) {
            rest.push((it.item->0, machine_out_pos(m))).push((it.item->0, machine_out_pos(m)))
        } else {
            rest
        }
    }
}

/// The products all duplicators of the world emit, in entity order.
pub open spec fn duplicator_spawn_list(machines: Seq<Entity>, items: Seq<Entity>) -> Seq<
    (Item, Position),
>
    decreases machines.len(),
{
    if machines.len() == 0 {
        Seq::empty()
    } else {
        duplicator_spawn_list(machines.drop_last(), items)
            + duplicator_spawns_for(machines.last(), items)
    }
}

/// A record that is no crafter emits nothing.
proof fn lemma_crafter_spawns_empty(m: Entity, items: Seq<Entity>)
    requires
        !is_crafter(m),
    ensures
        crafter_spawns_for(m, items) =~= Seq::<(Item, Position)>::empty(),
    decreases items.len(),
{
    if items.len() > 0 {
        lemma_crafter_spawns_empty(m, items.drop_last());
    }
}

/// A record that is no duplicator emits nothing.
proof fn lemma_duplicator_spawns_empty(m: Entity, items: Seq<Entity>)
    requires
        !is_duplicator(m),
    ensures
        duplicator_spawns_for(m, items) =~= Seq::<(Item, Position)>::empty(),
    decreases items.len(),
{
    if items.len() > 0 {
        lemma_duplicator_spawns_empty(m, items.drop_last());
    }
}

/// The record is a live follower: it tracks another entity.
pub open spec fn is_follower(e: Entity) -> bool {
    e.alive && e.follow is Some && e.pos is Some
}

/// The follower's target is usable: a live, positioned entity that is not
/// itself a follower.
pub open spec fn follow_target_ok(s: Seq<Entity>, e: Entity) -> bool {
    let t = (e.follow->0).entity as int;
    &&& 0 <= t < s.len()
    &&& s[t].alive
    &&& s[t].pos is Some
    &&& s[t].follow is None
}

/// The follower moved to its target's position plus its fixed offset.
pub open spec fn followed(s: Seq<Entity>, e: Entity) -> Entity {
    let f = e.follow->0;
    let tp = (s[f.entity as int].pos->0).0;
    let rel = f.relative_pos.0;
    Entity {
        pos: Some(Position(Vec2i {
            x: clip(tp.x + rel.x) as i64,
            y: clip(tp.y + rel.y) as i64,
        })),
        position_changed: true,
        ..e
    }
}

/// Keep every follower at its target's position plus its offset; a
/// follower whose target is gone despawns.
pub fn follow_relative_position(world: &mut World)
    requires
        old(world).wf(),
    ensures
        final(world).wf(),
        final(world).entities@.len() == old(world).entities@.len(),
        forall|k: int|
            0 <= k < old(world).entities@.len() ==> final(world).entities@[k] == ({
                let e = #[trigger] old(world).entities@[k];
                if is_follower(e) {
                    if follow_target_ok(old(world).entities@, e) {
                        followed(old(world).entities@, e)
                    } else {
                        Entity { alive: false, ..e }
                    }
                } else {
                    e
                }
            }),
{
    let ghost s0 = old(world).entities@;
    let n = world.entities.len();
    let mut i: usize = 0;
    while i < n
        invariant
            s0 == old(world).entities@,
            world.entities@.len() == n,
            n == s0.len(),
            0 <= i <= n,
            forall|k: int|
                0 <= k < i ==> world.entities@[k] == ({
                    let e = #[trigger] s0[k];
                    if is_follower(e) {
                        if follow_target_ok(s0, e) {
                            followed(s0, e)
                        } else {
                            Entity { alive: false, ..e }
                        }
                    } else {
                        e
                    }
                }),
            forall|k: int| i <= k < n ==> world.entities@[k] == s0[k],
            forall|k: int| 0 <= k < n ==> (#[trigger] world.entities@[k]).follow == s0[k].follow,
            forall|k: int|
                0 <= k < n && s0[k].follow is None ==> world.entities@[k] == s0[k],
            forall|k: int| 0 <= k < n ==> (#[trigger] world.entities@[k]).wf(),
            forall|k: int| 0 <= k < n ==> (#[trigger] s0[k]).wf(),
        decreases n - i,
    {
        let alive = world.entities[i].alive;
        let followo = world.entities[i].follow;
        let poso = world.entities[i].pos;
        if alive {
            if let (Some(f), Some(_)) = (followo, poso) {
                let t = f.entity;
                let mut ok = false;
                let mut target_pos = Position(Vec2i { x: 0, y: 0 });
                if t < n {
                    let t_alive = world.entities[t].alive;
                    let t_pos = world.entities[t].pos;
                    let t_follow_none = world.entities[t].follow.is_none();
                    if t_alive && t_follow_none {
                        if let Some(tp) = t_pos {
                            ok = true;
                            target_pos = tp;
                            proof {
                                assert(world.entities@[t as int] == s0[t as int]);
                                assert(follow_target_ok(s0, s0[i as int]));
                            }
                        }
                    }
                }
                if ok {
                    let nx = clip_i128(
                        target_pos.0.x as i128 + f.relative_pos.0.x as i128);
                    let ny = clip_i128(
                        target_pos.0.y as i128 + f.relative_pos.0.y as i128);
                    let ent = &mut world.entities[i];
                    ent.pos = Some(Position(Vec2i { x: nx, y: ny }));
                    ent.position_changed = true;
                    proof {
                        assert(world.entities@[i as int] == followed(s0, s0[i as int]));
                    }
                } else {
                    proof {
                        assert(!follow_target_ok(s0, s0[i as int]));
                    }
                    let ent = &mut world.entities[i];
                    ent.alive = false;
                }
            }
        }
        i = i + 1;
    }
}

/// The side wall of a machine's sprite: a thin full-height rectangle at
/// 9/32 of the sprite width from the centre. `right` picks the side.
pub open spec fn machine_wall(m: Machine, right: bool) -> RectanglePhysics {
    let sc = m.spec_sprite_view().spec_scale();
    RectanglePhysics {
        width: (sc.x as int / 16) as i64,
        height: sc.y,
        offset_x: if right {
            ((9 * sc.x as int) / 32) as i64
        } else {
            (-((9 * sc.x as int) / 32)) as i64
        },
        offset_y: 0,
    }
}

/// A live machine entity as the shop spawns it: positioned, rendered with
/// the machine's sprite, clickable, draggable, with its two side walls as
/// static colliders.
pub open spec fn machine_entity_shape(e: Entity, pos: Position, m: Machine) -> bool {
    &&& e.colliders is Some
    &&& (e.colliders->0).0@ =~= seq![machine_wall(m, false), machine_wall(m, true)]
    &&& e == (Entity {
        pos: Some(pos),
        view: Some(m.spec_sprite_view()),
        machine: Some(m),
        clickable: Some(Clickable),
        draggable: Some(DragAble),
        colliders: e.colliders,
        ..Entity::spec_blank()
    })
}

/// A decorative item icon tracking a machine at a vertical offset.
pub open spec fn machine_icon_shape(e: Entity, kind: Item, target: EntityId, dy: int) -> bool {
    e == (Entity {
        pos: Some(Position(Vec2i { x: 0, y: 0 })),
        view: Some(SpriteView::Item { item: kind, ui_element: true }),
        follow: Some(FollowWithOffset {
            relative_pos: Position(Vec2i { x: 0, y: dy as i64 }),
            entity: target,
        }),
        ..Entity::spec_blank()
    })
}

/// Spawn a live one-to-one crafter at `position`: the machine entity with
/// its side-wall colliders, then two icon entities that follow it showing
/// its input above and its output below. A machine of another kind is
/// ignored.
pub fn spawn_one_to_one_crafter(world: &mut World, position: Position, crafter: Machine)
    requires
        old(world).wf(),
        in_world(position.0),
        0 <= crafter.spec_cost() <= crate::COST_LIMIT,
        old(world).entities@.len() + 3 <= usize::MAX,
    ensures
        final(world).wf(),
        crafter is OneToOneCrafter ==> {
            let n = old(world).entities@.len() as int;
            &&& final(world).entities@.len() == n + 3
            &&& forall|k: int| 0 <= k < n ==> final(world).entities@[k]
                == old(world).entities@[k]
            &&& machine_entity_shape(final(world).entities@[n], position, crafter)
            &&& machine_icon_shape(final(world).entities@[n + 1],
                crafter->OneToOneCrafter_input, n as EntityId,
                (3 * crafter.spec_sprite_view().spec_scale().y as int) / 10)
            &&& machine_icon_shape(final(world).entities@[n + 2],
                crafter->OneToOneCrafter_output, n as EntityId,
                -((3 * crafter.spec_sprite_view().spec_scale().y as int) / 10))
        },
        !(crafter is OneToOneCrafter) ==> *final(world) == *old(world),
{
    if let Machine::OneToOneCrafter { input, output, cost: _ } = crafter {
        let sc = crafter.get_sprite_view().get_scale();
        let wall_w = sc.x / 16;
        let wall_off = (9 * sc.x) / 32;
        let mut walls: Vec<RectanglePhysics> = Vec::new();
        walls.push(RectanglePhysics {
            width: wall_w,
            height: sc.y,
            offset_x: -wall_off,
            offset_y: 0,
        });
        walls.push(RectanglePhysics {
            width: wall_w,
            height: sc.y,
            offset_x: wall_off,
            offset_y: 0,
        });
        proof {
            assert(walls@ =~= seq![machine_wall(crafter, false), machine_wall(crafter, true)]);
        }
        let mut machine_ent = Entity::blank();
        machine_ent.pos = Some(position);
        machine_ent.view = Some(crafter.get_sprite_view());
        machine_ent.machine = Some(crafter);
        machine_ent.clickable = Some(Clickable);
        machine_ent.draggable = Some(DragAble);
        machine_ent.colliders = Some(ColliderCollection(walls));
        let machine_id = world.spawn(machine_ent);
        let icon_dy = (3 * sc.y) / 10;
        let mut icon_in = Entity::blank();
        icon_in.pos = Some(Position(Vec2i { x: 0, y: 0 }));
        icon_in.view = Some(SpriteView::Item { item: input, ui_element: true });
        icon_in.follow = Some(FollowWithOffset {
            relative_pos: Position(Vec2i { x: 0, y: icon_dy }),
            entity: machine_id,
        });
        world.spawn(icon_in);
        let mut icon_out = Entity::blank();
        icon_out.pos = Some(Position(Vec2i { x: 0, y: 0 }));
        icon_out.view = Some(SpriteView::Item { item: output, ui_element: true });
        icon_out.follow = Some(FollowWithOffset {
            relative_pos: Position(Vec2i { x: 0, y: -icon_dy }),
            entity: machine_id,
        });
        world.spawn(icon_out);
    }
}

/// Spawn a live duplicator at `position`: the machine entity with its
/// side-wall colliders. A machine of another kind is ignored.
pub fn spawn_duplicator(world: &mut World, position: Position, machine: Machine)
    requires
        old(world).wf(),
        in_world(position.0),
        0 <= machine.spec_cost() <= crate::COST_LIMIT,
        old(world).entities@.len() + 1 <= usize::MAX,
    ensures
        final(world).wf(),
        machine is Duplicator ==> {
            let n = old(world).entities@.len() as int;
            &&& final(world).entities@.len() == n + 1
            &&& forall|k: int| 0 <= k < n ==> final(world).entities@[k]
                == old(world).entities@[k]
            &&& machine_entity_shape(final(world).entities@[n], position, machine)
        },
        !(machine is Duplicator) ==> *final(world) == *old(world),
{
    if let Machine::Duplicator { cost: _ } = machine {
        let sc = machine.get_sprite_view().get_scale();
        let wall_w = sc.x / 16;
        let wall_off = (9 * sc.x) / 32;
        let mut walls: Vec<RectanglePhysics> = Vec::new();
        walls.push(RectanglePhysics {
            width: wall_w,
            height: sc.y,
            offset_x: -wall_off,
            offset_y: 0,
        });
        walls.push(RectanglePhysics {
            width: wall_w,
            height: sc.y,
            offset_x: wall_off,
            offset_y: 0,
        });
        proof {
            assert(walls@ =~= seq![machine_wall(machine, false), machine_wall(machine, true)]);
        }
        let mut machine_ent = Entity::blank();
        machine_ent.pos = Some(position);
        machine_ent.view = Some(machine.get_sprite_view());
        machine_ent.machine = Some(machine);
        machine_ent.clickable = Some(Clickable);
        machine_ent.draggable = Some(DragAble);
        machine_ent.colliders = Some(ColliderCollection(walls));
        world.spawn(machine_ent);
    }
}

/// Let every crafter consume the items inside its footprint: each such
/// item is destroyed, and each one of the crafter's input kind is
/// replaced by a fresh item of its output kind at the crafter's base. An
/// item inside two crafters yields a product for both. Money is not
/// touched.
#[verifier::rlimit(50)]
pub fn one_to_one_crafter(world: &mut World)
    requires
        old(world).wf(),
        old(world).entities@.len() + crafter_spawn_list(old(world).entities@,
            old(world).entities@).len() <= usize::MAX,
    ensures
        final(world).wf(),
        final(world).entities@.len() == old(world).entities@.len()
            + crafter_spawn_list(old(world).entities@, old(world).entities@).len(),
        forall|k: int|
            0 <= k < old(world).entities@.len() ==> final(world).entities@[k] == ({
                let e = #[trigger] old(world).entities@[k];
                if consumed_by_crafter(old(world).entities@, k) {
                    Entity { alive: false, ..e }
                } else {
                    e
                }
            }),
        forall|t: int|
            0 <= t < crafter_spawn_list(old(world).entities@, old(world).entities@).len()
                ==> spawned_item_shape(
                    #[trigger] final(world).entities@[old(world).entities@.len() + t],
                    crafter_spawn_list(old(world).entities@, old(world).entities@)[t].0,
                    crafter_spawn_list(old(world).entities@, old(world).entities@)[t].1,
                ),
{
    let ghost s0 = old(world).entities@;
    let n = world.entities.len();
    let mut flagged: Vec<bool> = Vec::new();
    let mut t: usize = 0;
    while t < n
        invariant
            0 <= t <= n,
            flagged@.len() == t,
            forall|k: int| 0 <= k < t ==> !(#[trigger] flagged@[k]),
        decreases n - t,
    {
        flagged.push(false);
        t = t + 1;
    }
    let mut descs: Vec<(Item, Position)> = Vec::new();
    let mut i: usize = 0;
    proof {
        assert(s0.take(0) =~= Seq::<Entity>::empty());
    }
    while i < n
        invariant
            s0 == old(world).entities@,
            world.entities@ == s0,
            world.wf(),
            0 <= i <= n,
            n == s0.len(),
            flagged@.len() == n,
            forall|k: int|
                0 <= k < n ==> ((#[trigger] flagged@[k]) <==> (exists|m: int|
                    0 <= m < i && crafter_consumes(#[trigger] s0[m], s0[k]))),
            descs@ == crafter_spawn_list(s0.take(i as int), s0),
            forall|d: int| 0 <= d < descs@.len() ==> in_world((#[trigger] descs@[d]).1.0),
        decreases n - i,
    {
        proof {
            let pre = s0.take(i as int);
            let cur = s0.take(i as int + 1);
            assert(cur.drop_last() =~= pre);
            assert(cur.last() == s0[i as int]);
        }
        let alive = world.entities[i].alive;
        let macho = world.entities[i].machine;
        let poso = world.entities[i].pos;
        let mut is_cr = false;
        if alive {
            if let (Some(mac), Some(mpos)) = (macho, poso) {
                if let Machine::OneToOneCrafter { input, output, cost: _ } = mac {
                    is_cr = true;
                    proof {
                        assert(s0[i as int].wf());
                        assert(is_crafter(s0[i as int]));
                    }
                    let sc = mac.get_sprite_view().get_scale();
                    let sx = sc.x;
                    let out_y = clip_i128(mpos.0.y as i128 - (3 * sc.y as i128) / 10);
                    let out_pos = Position(Vec2i { x: mpos.0.x, y: out_y });
                    proof {
                        assert(out_pos == machine_out_pos(s0[i as int]));
                        assert(crafter_spawns_for(s0[i as int], s0.take(0))
                            =~= Seq::<(Item, Position)>::empty());
                    }
                    let mut k: usize = 0;
                    while k < n
                        invariant
                            0 <= k <= n,
                            n == s0.len(),
                            world.entities@ == s0,
                            world.wf(),
                            0 <= i < n,
                            is_crafter(s0[i as int]),
                            s0[i as int].wf(),
                            s0[i as int].machine == Some(mac),
                            s0[i as int].pos == Some(mpos),
                            mac == (Machine::OneToOneCrafter {
                                input: input,
                                output: output,
                                cost: mac->OneToOneCrafter_cost,
                            }),
                            sx == machine_scale(s0[i as int]).x,
                            0 < sx <= 1600,
                            out_pos == machine_out_pos(s0[i as int]),
                            in_world(out_pos.0),
                            flagged@.len() == n,
                            forall|k2: int|
                                0 <= k2 < n ==> ((#[trigger] flagged@[k2]) <==> ((exists|m: int|
                                    0 <= m < i && crafter_consumes(#[trigger] s0[m], s0[k2]))
                                    || (k2 < k && crafter_consumes(s0[i as int], s0[k2])))),
                            descs@ == crafter_spawn_list(s0.take(i as int), s0)
                                + crafter_spawns_for(s0[i as int], s0.take(k as int)),
                            forall|d: int|
                                0 <= d < descs@.len() ==> in_world((#[trigger] descs@[d]).1.0),
                        decreases n - k,
                    {
                        proof {
                            let pre = s0.take(k as int);
                            let cur = s0.take(k as int + 1);
                            assert(cur.drop_last() =~= pre);
                            assert(cur.last() == s0[k as int]);
                        }
                        let it_alive = world.entities[k].alive;
                        let it_item = world.entities[k].item;
                        let it_pos = world.entities[k].pos;
                        let mut matched = false;
                        if it_alive {
                            if let (Some(kind), Some(ip)) = (it_item, it_pos) {
                                proof {
                                    assert(s0[k as int].wf());
                                }
                                let dx: i128 = ip.0.x as i128 - mpos.0.x as i128;
                                let dy: i128 = ip.0.y as i128 - mpos.0.y as i128;
                                proof {
                                    assert(0 <= dx * dx <= 0x1_0000_0000_0000_0000
                                        && 0 <= dy * dy <= 0x1_0000_0000_0000_0000)
                                        by (nonlinear_arith)
                                        requires
                                            -4_000_000_000 <= dx <= 4_000_000_000,
                                            -4_000_000_000 <= dy <= 4_000_000_000,
                                    ;
                                    assert(81 * (sx as i128) * (sx as i128) <= 0x1000_0000)
                                        by (nonlinear_arith)
                                        requires 0 < sx <= 1600;
                                }
                                if 1024 * (dx * dx + dy * dy) < 81 * (sx as i128) * (sx as i128) {
                                    matched = true;
                                    proof {
                                        assert(in_intake(s0[i as int], s0[k as int]));
                                        assert(crafter_consumes(s0[i as int], s0[k as int]));
                                    }
                                    flagged[k] = true;
                                    if kind == input {
                                        descs.push((output, out_pos));
                                    }
                                }
                            }
                        }
                        proof {
                            if !matched {
                                assert(!crafter_consumes(s0[i as int], s0[k as int]));
                            }
                        }
                        k = k + 1;
                    }
                    proof {
                        assert(s0.take(n as int) =~= s0);
                        assert forall|k2: int| 0 <= k2 < n implies ((#[trigger] flagged@[k2])
                            <==> (exists|m: int| 0 <= m < i + 1
                                && crafter_consumes(#[trigger] s0[m], s0[k2]))) by {
                            if flagged@[k2] {
                                if crafter_consumes(s0[i as int], s0[k2]) {
                                    assert(crafter_consumes(s0[i as int], s0[k2]));
                                }
                            } else {
                                assert(!crafter_consumes(s0[i as int], s0[k2]));
                            }
                        }
                    }
                }
            }
        }
        proof {
            if !is_cr {
                assert(!is_crafter(s0[i as int]));
                lemma_crafter_spawns_empty(s0[i as int], s0);
                assert(descs@ =~= crafter_spawn_list(s0.take(i as int + 1), s0));
                assert forall|k2: int| 0 <= k2 < n implies ((#[trigger] flagged@[k2]) <==> (
                    exists|m: int| 0 <= m < i + 1 && crafter_consumes(#[trigger] s0[m], s0[k2])))
                    by {
                    assert(!crafter_consumes(s0[i as int], s0[k2]));
                }
            }
        }
        i = i + 1;
    }
    proof {
        assert(s0.take(n as int) =~= s0);
    }
    let mut t2: usize = 0;
    while t2 < n
        invariant
            0 <= t2 <= n,
            n == s0.len(),
            s0 == old(world).entities@,
            flagged@.len() == n,
            forall|k: int|
                0 <= k < n ==> ((#[trigger] flagged@[k]) <==> consumed_by_crafter(s0, k)),
            world.entities@.len() == n,
            forall|k: int|
                0 <= k < t2 ==> world.entities@[k] == ({
                    let e = #[trigger] s0[k];
                    if consumed_by_crafter(s0, k) {
                        Entity { alive: false, ..e }
                    } else {
                        e
                    }
                }),
            forall|k: int| t2 <= k < n ==> world.entities@[k] == s0[k],
            forall|k: int| 0 <= k < n ==> (#[trigger] world.entities@[k]).wf(),
        decreases n - t2,
    {
        if flagged[t2] {
            world.despawn(t2);
        }
        t2 = t2 + 1;
    }
    let m = descs.len();
    let ghost killed_view = world.entities@;
    let mut t3: usize = 0;
    while t3 < m
        invariant
            0 <= t3 <= m,
            n == s0.len(),
            descs@.len() == m,
            descs@ == crafter_spawn_list(s0, s0),
            forall|d: int| 0 <= d < descs@.len() ==> in_world((#[trigger] descs@[d]).1.0),
            n + m <= usize::MAX,
            killed_view.len() == n,
            world.entities@.len() == n + t3,
            forall|k: int| 0 <= k < n ==> world.entities@[k] == killed_view[k],
            forall|t4: int|
                0 <= t4 < t3 ==> spawned_item_shape(
                    #[trigger] world.entities@[n + t4], descs@[t4].0, descs@[t4].1),
            forall|k: int| 0 <= k < world.entities@.len()
                ==> (#[trigger] world.entities@[k]).wf(),
        decreases m - t3,
    {
        let d = descs[t3];
        let vx = random_in_range(-50, 50);
        let mut item_ent = Entity::blank();
        item_ent.pos = Some(d.1);
        item_ent.vel = Some(Velocity(Vec2i { x: vx, y: 0 }));
        item_ent.item = Some(d.0);
        item_ent.circle = Some(CirclePhysics { radius: 14 });
        item_ent.view = Some(SpriteView::Item { item: d.0, ui_element: false });
        let ghost pre_spawn = world.entities@;
        world.spawn(item_ent);
        proof {
            assert(spawned_item_shape(item_ent, d.0, d.1));
            assert(world.entities@ == pre_spawn.push(item_ent));
            assert forall|k: int| 0 <= k < pre_spawn.len()
                implies #[trigger] world.entities@[k] == pre_spawn[k] by {
                assert(pre_spawn.push(item_ent)[k] == pre_spawn[k]);
            }
        }
        t3 = t3 + 1;
    }
}

/// Let every duplicator consume the items inside its footprint: each such
/// item is destroyed and replaced by two fresh items of its own kind at
/// the duplicator's base. Money is not touched.
#[verifier::rlimit(50)]
pub fn duplicator(world: &mut World)
    requires
        old(world).wf(),
        old(world).entities@.len() + duplicator_spawn_list(old(world).entities@,
            old(world).entities@).len() <= usize::MAX,
    ensures
        final(world).wf(),
        final(world).entities@.len() == old(world).entities@.len()
            + duplicator_spawn_list(old(world).entities@, old(world).entities@).len(),
        forall|k: int|
            0 <= k < old(world).entities@.len() ==> final(world).entities@[k] == ({
                let e = #[trigger] old(world).entities@[k];
                if consumed_by_duplicator(old(world).entities@, k) {
                    Entity { alive: false, ..e }
                } else {
                    e
                }
            }),
        forall|t: int|
            0 <= t < duplicator_spawn_list(old(world).entities@, old(world).entities@).len()
                ==> spawned_item_shape(
                    #[trigger] final(world).entities@[old(world).entities@.len() + t],
                    duplicator_spawn_list(old(world).entities@, old(world).entities@)[t].0,
                    duplicator_spawn_list(old(world).entities@, old(world).entities@)[t].1,
                ),
{
    let ghost s0 = old(world).entities@;
    let n = world.entities.len();
    let mut flagged: Vec<bool> = Vec::new();
    let mut t: usize = 0;
    while t < n
        invariant
            0 <= t <= n,
            flagged@.len() == t,
            forall|k: int| 0 <= k < t ==> !(#[trigger] flagged@[k]),
        decreases n - t,
    {
        flagged.push(false);
        t = t + 1;
    }
    let mut descs: Vec<(Item, Position)> = Vec::new();
    let mut i: usize = 0;
    proof {
        assert(s0.take(0) =~= Seq::<Entity>::empty());
    }
    while i < n
        invariant
            s0 == old(world).entities@,
            world.entities@ == s0,
            world.wf(),
            0 <= i <= n,
            n == s0.len(),
            flagged@.len() == n,
            forall|k: int|
                0 <= k < n ==> ((#[trigger] flagged@[k]) <==> (exists|m: int|
                    0 <= m < i && duplicator_consumes(#[trigger] s0[m], s0[k]))),
            descs@ == duplicator_spawn_list(s0.take(i as int), s0),
            forall|d: int| 0 <= d < descs@.len() ==> in_world((#[trigger] descs@[d]).1.0),
        decreases n - i,
    {
        proof {
            let pre = s0.take(i as int);
            let cur = s0.take(i as int + 1);
            assert(cur.drop_last() =~= pre);
            assert(cur.last() == s0[i as int]);
        }
        let alive = world.entities[i].alive;
        let macho = world.entities[i].machine;
        let poso = world.entities[i].pos;
        let mut is_dup = false;
        if alive {
            if let (Some(mac), Some(mpos)) = (macho, poso) {
                if let Machine::Duplicator { cost: _ } = mac {
                    is_dup = true;
                    proof {
                        assert(s0[i as int].wf());
                        assert(is_duplicator(s0[i as int]));
                    }
                    let sc = mac.get_sprite_view().get_scale();
                    let sx = sc.x;
                    let out_y = clip_i128(mpos.0.y as i128 - (3 * sc.y as i128) / 10);
                    let out_pos = Position(Vec2i { x: mpos.0.x, y: out_y });
                    proof {
                        assert(out_pos == machine_out_pos(s0[i as int]));
                        assert(duplicator_spawns_for(s0[i as int], s0.take(0))
                            =~= Seq::<(Item, Position)>::empty());
                    }
                    let mut k: usize = 0;
                    while k < n
                        invariant
                            0 <= k <= n,
                            n == s0.len(),
                            world.entities@ == s0,
                            world.wf(),
                            0 <= i < n,
                            is_duplicator(s0[i as int]),
                            s0[i as int].wf(),
                            s0[i as int].machine == Some(mac),
                            s0[i as int].pos == Some(mpos),
                            sx == machine_scale(s0[i as int]).x,
                            0 < sx <= 1600,
                            out_pos == machine_out_pos(s0[i as int]),
                            in_world(out_pos.0),
                            flagged@.len() == n,
                            forall|k2: int|
                                0 <= k2 < n ==> ((#[trigger] flagged@[k2]) <==> ((exists|m: int|
                                    0 <= m < i && duplicator_consumes(#[trigger] s0[m], s0[k2]))
                                    || (k2 < k && duplicator_consumes(s0[i as int], s0[k2])))),
                            descs@ == duplicator_spawn_list(s0.take(i as int), s0)
                                + duplicator_spawns_for(s0[i as int], s0.take(k as int)),
                            forall|d: int|
                                0 <= d < descs@.len() ==> in_world((#[trigger] descs@[d]).1.0),
                        decreases n - k,
                    {
                        proof {
                            let pre = s0.take(k as int);
                            let cur = s0.take(k as int + 1);
                            assert(cur.drop_last() =~= pre);
                            assert(cur.last() == s0[k as int]);
                        }
                        let it_alive = world.entities[k].alive;
                        let it_item = world.entities[k].item;
                        let it_pos = world.entities[k].pos;
                        let mut matched = false;
                        if it_alive {
                            if let (Some(kind), Some(ip)) = (it_item, it_pos) {
                                proof {
                                    assert(s0[k as int].wf());
                                }
                                let dx: i128 = ip.0.x as i128 - mpos.0.x as i128;
                                let dy: i128 = ip.0.y as i128 - mpos.0.y as i128;
                                proof {
                                    assert(0 <= dx * dx <= 0x1_0000_0000_0000_0000
                                        && 0 <= dy * dy <= 0x1_0000_0000_0000_0000)
                                        by (nonlinear_arith)
                                        requires
                                            -4_000_000_000 <= dx <= 4_000_000_000,
                                            -4_000_000_000 <= dy <= 4_000_000_000,
                                    ;
                                    assert(81 * (sx as i128) * (sx as i128) <= 0x1000_0000)
                                        by (nonlinear_arith)
                                        requires 0 < sx <= 1600;
                                }
                                if 1024 * (dx * dx + dy * dy) < 81 * (sx as i128) * (sx as i128) {
                                    matched = true;
                                    proof {
                                        assert(in_intake(s0[i as int], s0[k as int]));
                                        assert(duplicator_consumes(s0[i as int], s0[k as int]));
                                    }
                                    flagged[k] = true;
                                    descs.push((kind, out_pos));
                                    descs.push((kind, out_pos));
                                }
                            }
                        }
                        proof {
                            if !matched {
                                assert(!duplicator_consumes(s0[i as int], s0[k as int]));
                            }
                        }
                        k = k + 1;
                    }
                    proof {
                        assert(s0.take(n as int) =~= s0);
                        assert forall|k2: int| 0 <= k2 < n implies ((#[trigger] flagged@[k2])
                            <==> (exists|m: int| 0 <= m < i + 1
                                && duplicator_consumes(#[trigger] s0[m], s0[k2]))) by {
                            if flagged@[k2] {
                                if duplicator_consumes(s0[i as int], s0[k2]) {
                                    assert(duplicator_consumes(s0[i as int], s0[k2]));
                                }
                            } else {
                                assert(!duplicator_consumes(s0[i as int], s0[k2]));
                            }
                        }
                    }
                }
            }
        }
        proof {
            if !is_dup {
                assert(!is_duplicator(s0[i as int]));
                lemma_duplicator_spawns_empty(s0[i as int], s0);
                assert(descs@ =~= duplicator_spawn_list(s0.take(i as int + 1), s0));
                assert forall|k2: int| 0 <= k2 < n implies ((#[trigger] flagged@[k2]) <==> (
                    exists|m: int| 0 <= m < i + 1
                        && duplicator_consumes(#[trigger] s0[m], s0[k2]))) by {
                    assert(!duplicator_consumes(s0[i as int], s0[k2]));
                }
            }
        }
        i = i + 1;
    }
    proof {
        assert(s0.take(n as int) =~= s0);
    }
    let mut t2: usize = 0;
    while t2 < n
        invariant
            0 <= t2 <= n,
            n == s0.len(),
            s0 == old(world).entities@,
            flagged@.len() == n,
            forall|k: int|
                0 <= k < n ==> ((#[trigger] flagged@[k]) <==> consumed_by_duplicator(s0, k)),
            world.entities@.len() == n,
            forall|k: int|
                0 <= k < t2 ==> world.entities@[k] == ({
                    let e = #[trigger] s0[k];
                    if consumed_by_duplicator(s0, k) {
                        Entity { alive: false, ..e }
                    } else {
                        e
                    }
                }),
            forall|k: int| t2 <= k < n ==> world.entities@[k] == s0[k],
            forall|k: int| 0 <= k < n ==> (#[trigger] world.entities@[k]).wf(),
        decreases n - t2,
    {
        if flagged[t2] {
            world.despawn(t2);
        }
        t2 = t2 + 1;
    }
    let m = descs.len();
    let ghost killed_view = world.entities@;
    let mut t3: usize = 0;
    while t3 < m
        invariant
            0 <= t3 <= m,
            n == s0.len(),
            descs@.len() == m,
            descs@ == duplicator_spawn_list(s0, s0),
            forall|d: int| 0 <= d < descs@.len() ==> in_world((#[trigger] descs@[d]).1.0),
            n + m <= usize::MAX,
            killed_view.len() == n,
            world.entities@.len() == n + t3,
            forall|k: int| 0 <= k < n ==> world.entities@[k] == killed_view[k],
            forall|t4: int|
                0 <= t4 < t3 ==> spawned_item_shape(
                    #[trigger] world.entities@[n + t4], descs@[t4].0, descs@[t4].1),
            forall|k: int| 0 <= k < world.entities@.len()
                ==> (#[trigger] world.entities@[k]).wf(),
        decreases m - t3,
    {
        let d = descs[t3];
        let vx = random_in_range(-50, 50);
        let mut item_ent = Entity::blank();
        item_ent.pos = Some(d.1);
        item_ent.vel = Some(Velocity(Vec2i { x: vx, y: 0 }));
        item_ent.item = Some(d.0);
        item_ent.circle = Some(CirclePhysics { radius: 14 });
        item_ent.view = Some(SpriteView::Item { item: d.0, ui_element: false });
        let ghost pre_spawn = world.entities@;
        world.spawn(item_ent);
        proof {
            assert(spawned_item_shape(item_ent, d.0, d.1));
            assert(world.entities@ == pre_spawn.push(item_ent));
            assert forall|k: int| 0 <= k < pre_spawn.len()
                implies #[trigger] world.entities@[k] == pre_spawn[k] by {
                assert(pre_spawn.push(item_ent)[k] == pre_spawn[k]);
            }
        }
        t3 = t3 + 1;
    }
}

} // verus!
