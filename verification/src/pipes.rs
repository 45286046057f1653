//! Input pipes spawn items for a price; output pipes consume matching items
//! for a reward. An input pipe accumulates elapsed time and spawns one item
//! per full interval, subtracting the interval (not resetting) so that a
//! long tick catches up.

use vstd::prelude::*;
use vstd::arithmetic::div_mod::{lemma_fundamental_div_mod_converse, lemma_div_is_ordered,
    lemma_div_by_self, lemma_div_pos_is_pos, lemma_remainder_lower, lemma_remainder_upper};
use vstd::arithmetic::mul::{lemma_mul_inequality, lemma_mul_nonnegative};
use crate::input::JustClicked;
use crate::item::Item;
use crate::levels::{GameState, Ledger};
use crate::physics::{CirclePhysics, Position, RectanglePhysics, Velocity};
use crate::rng::random_in_range;
use crate::vec2::{Vec2i, clip, clip_i128, in_world};
use crate::view::SpriteView;
use crate::world::{Entity, EntityId, World};
use crate::{COST_LIMIT, RATE_LIMIT, TIME_SCALE};

verus! {

/// A paid spawner. `spawn_rate` is items per second; `time_elapsed` is the
/// accumulated time in microseconds; `cost` is charged per spawned item.
#[derive(Clone, Copy, Debug, PartialEq, Eq, Structural)]
pub struct InputPipe {
    pub item: Item,
    pub spawn_rate: u32,
    pub time_elapsed: u64,
    pub cost: i64,
    pub enabled: bool,
}

/// A paid consumer: items of `item` kind near its collection point are
/// destroyed and `reward` is credited.
#[derive(Clone, Copy, Debug, PartialEq, Eq, Structural)]
pub struct OutputPipe {
    pub item: Item,
    pub reward: i64,
}

/// Microseconds between two spawns of a pipe running at `rate` items per
/// second. Meaningful only for a positive rate.
pub open spec fn spawn_interval(rate: u32) -> int {
    TIME_SCALE as int / rate as int
}

impl InputPipe {
    /// Rate and cost are small against the model limits, and a running
    /// pipe's accumulator stays below one interval between ticks.
    pub open spec fn wf(self) -> bool {
        &&& self.spawn_rate <= RATE_LIMIT
        &&& 0 <= self.cost <= COST_LIMIT
        &&& self.spawn_rate > 0 ==> (self.time_elapsed as int) < spawn_interval(self.spawn_rate)
    }
}

impl OutputPipe {
    pub open spec fn wf(self) -> bool {
        0 <= self.reward <= COST_LIMIT
    }
}

/// The record is a live input pipe with a position.
pub open spec fn is_live_pipe(e: Entity) -> bool {
    e.alive && e.input_pipe is Some && e.pos is Some
}

/// The record is a live, enabled input pipe: it accumulates time and
/// spawns.
pub open spec fn pipe_active(e: Entity) -> bool {
    is_live_pipe(e) && (e.input_pipe->0).enabled
}

/// How many items a pipe spawns when its accumulator holds `elapsed` and
/// `dt` arrives: one per full interval. A rate of zero never spawns.
pub open spec fn spawn_count(elapsed: int, dt: int, rate: int) -> int {
    if rate <= 0 {
        0
    } else {
        (elapsed + dt) / (TIME_SCALE as int / rate)
    }
}

/// The accumulator after the spawns: the interval is subtracted once per
/// spawn, never reset, so long ticks catch up exactly.
pub open spec fn elapsed_after(elapsed: int, dt: int, rate: int) -> int {
    if rate <= 0 {
        elapsed + dt
    } else {
        (elapsed + dt) % (TIME_SCALE as int / rate)
    }
}

/// The record `e` after its accumulator has taken `dt` microseconds.
pub open spec fn pipe_stepped(e: Entity, dt: int) -> Entity {
    if pipe_active(e) {
        let p = e.input_pipe->0;
        Entity {
            input_pipe: Some(InputPipe {
                time_elapsed: elapsed_after(
                    p.time_elapsed as int, dt, p.spawn_rate as int) as u64,
                ..p
            }),
            ..e
        }
    } else {
        e
    }
}

/// How many items the record spawns this tick.
pub open spec fn pipe_spawn_count_of(e: Entity, dt: int) -> int {
    if pipe_active(e) {
        let p = e.input_pipe->0;
        spawn_count(p.time_elapsed as int, dt, p.spawn_rate as int)
    } else {
        0
    }
}

/// What the record's spawns cost this tick.
pub open spec fn pipe_cost_of(e: Entity, dt: int) -> int {
    if pipe_active(e) {
        pipe_spawn_count_of(e, dt) * (e.input_pipe->0).cost
    } else {
        0
    }
}

/// The kind and position of every item the world's pipes spawn this tick,
/// in entity order, one entry per spawned item.
pub open spec fn pipe_spawn_list(s: Seq<Entity>, dt: int) -> Seq<(Item, Position)>
    decreases s.len(),
{
    if s.len() == 0 {
        Seq::empty()
    } else {
        let e = s.last();
        pipe_spawn_list(s.drop_last(), dt) + Seq::new(
            pipe_spawn_count_of(e, dt) as nat,
            |i: int| ((e.input_pipe->0).item, e.pos->0),
        )
    }
}

/// The total cost of every item the world's pipes spawn this tick.
pub open spec fn total_pipe_cost(s: Seq<Entity>, dt: int) -> int
    decreases s.len(),
{
    if s.len() == 0 {
        0
    } else {
        total_pipe_cost(s.drop_last(), dt) + pipe_cost_of(s.last(), dt)
    }
}

/// Every pipe's accumulator can take `dt` more microseconds.
pub open spec fn pipes_fit(s: Seq<Entity>, dt: int) -> bool {
    forall|k: int|
        0 <= k < s.len() && (#[trigger] s[k]).input_pipe is Some
            ==> (s[k].input_pipe->0).time_elapsed + dt <= u64::MAX
}

/// A freshly spawned item entity: the pipe's kind at the pipe's position,
/// a 14-unit circle body, and a small sideways velocity.
pub open spec fn spawned_item_shape(e: Entity, kind: Item, pos: Position) -> bool {
    &&& e.vel is Some
    &&& -50 <= (e.vel->0).0.x < 50
    &&& (e.vel->0).0.y == 0
    &&& e == (Entity {
        pos: Some(pos),
        vel: e.vel,
        item: Some(kind),
        circle: Some(CirclePhysics { radius: 14 }),
        view: Some(SpriteView::Item { item: kind, ui_element: false }),
        ..Entity::spec_blank()
    })
}

/// A well-formed pipe spawns a non-negative number of items this tick, at
/// a non-negative cost.
proof fn lemma_pipe_cost_nonneg(e: Entity, dt: int)
    requires
        e.wf(),
        dt >= 0,
    ensures
        pipe_spawn_count_of(e, dt) >= 0,
        pipe_cost_of(e, dt) >= 0,
{
    if pipe_active(e) {
        let p = e.input_pipe->0;
        if p.spawn_rate > 0 {
            lemma_div_is_ordered(p.spawn_rate as int, TIME_SCALE as int, p.spawn_rate as int);
            lemma_div_by_self(p.spawn_rate as int);
            lemma_div_pos_is_pos(
                p.time_elapsed + dt, TIME_SCALE as int / p.spawn_rate as int);
        }
        lemma_mul_nonnegative(pipe_spawn_count_of(e, dt), p.cost as int);
    }
}

/// Taking a prefix of the world never increases the total spawn cost.
proof fn lemma_total_cost_mono(s: Seq<Entity>, dt: int, k: int)
    requires
        0 <= k <= s.len(),
        dt >= 0,
        forall|i: int| 0 <= i < s.len() ==> (#[trigger] s[i]).wf(),
    ensures
        total_pipe_cost(s.take(k), dt) <= total_pipe_cost(s, dt),
        total_pipe_cost(s, dt) >= 0,
    decreases s.len(),
{
    if s.len() == 0 {
        assert(s.take(k) =~= s);
    } else {
        lemma_pipe_cost_nonneg(s.last(), dt);
        assert(forall|i: int|
            0 <= i < s.drop_last().len() ==> (#[trigger] s.drop_last()[i]).wf());
        if k == s.len() {
            assert(s.take(k) =~= s);
            lemma_total_cost_mono(s.drop_last(), dt, s.drop_last().len() as int);
        } else {
            assert(s.take(k) =~= s.drop_last().take(k));
            lemma_total_cost_mono(s.drop_last(), dt, k);
        }
    }
}

/// Taking a prefix of the world never increases the number of spawns.
proof fn lemma_spawn_list_mono(s: Seq<Entity>, dt: int, k: int)
    requires
        0 <= k <= s.len(),
        dt >= 0,
        forall|i: int| 0 <= i < s.len() ==> (#[trigger] s[i]).wf(),
    ensures
        pipe_spawn_list(s.take(k), dt).len() <= pipe_spawn_list(s, dt).len(),
    decreases s.len(),
{
    if s.len() == 0 {
        assert(s.take(k) =~= s);
    } else {
        lemma_pipe_cost_nonneg(s.last(), dt);
        assert(forall|i: int|
            0 <= i < s.drop_last().len() ==> (#[trigger] s.drop_last()[i]).wf());
        if k == s.len() {
            assert(s.take(k) =~= s);
            lemma_spawn_list_mono(s.drop_last(), dt, s.drop_last().len() as int);
        } else {
            assert(s.take(k) =~= s.drop_last().take(k));
            lemma_spawn_list_mono(s.drop_last(), dt, k);
        }
    }
}

/// Clicking a pipe flips its `enabled` flag; the click costs nothing.
pub fn toggle_input_pipe(world: &mut World, clicked_resource: &JustClicked)
    requires
        old(world).wf(),
    ensures
        final(world).wf(),
        final(world).entities@.len() == old(world).entities@.len(),
        forall|k: int|
            0 <= k < old(world).entities@.len() ==> final(world).entities@[k] == ({
                let e = #[trigger] old(world).entities@[k];
                if e.alive && e.input_pipe is Some && clicked_resource.0 == Some(k as usize) {
                    let p = e.input_pipe->0;
                    Entity { input_pipe: Some(InputPipe { enabled: !p.enabled, ..p }), ..e }
                } else {
                    e
                }
            }),
{
    if let Some(clicked) = clicked_resource.0 {
        let n = world.entities.len();
        if clicked < n {
            let alive = world.entities[clicked].alive;
            let pipeo = world.entities[clicked].input_pipe;
            if alive {
                if let Some(p) = pipeo {
                    let ent = &mut world.entities[clicked];
                    ent.input_pipe = Some(InputPipe { enabled: !p.enabled, ..p });
                    proof {
                        assert forall|k: int| 0 <= k < final(world).entities@.len()
                            implies (#[trigger] final(world).entities@[k]).wf() by {
                            assert(old(world).entities@[k].wf());
                        }
                    }
                }
            }
        }
    }
}

/// Run every enabled pipe for `dt` microseconds: accumulate time, spawn
/// one item per full interval, and pay the pipe's cost per item, even
/// into the negative.
///
/// Afterwards the world holds every old record with its pipe accumulator
/// stepped, then one new item entity per entry of `pipe_spawn_list`; the
/// balance has dropped by exactly `total_pipe_cost`, booked as spending.
#[verifier::rlimit(50)]
pub fn input_pipe_spawn_item(world: &mut World, state: &mut GameState, dt: u64)
    requires
        old(world).wf(),
        old(state).wf(),
        pipes_fit(old(world).entities@, dt as int),
        i64::MIN <= old(state).money.0 - total_pipe_cost(old(world).entities@, dt as int),
        old(world).entities@.len() + pipe_spawn_list(old(world).entities@, dt as int).len()
            <= usize::MAX,
    ensures
        final(world).wf(),
        final(state).wf(),
        final(state).money.0 == old(state).money.0
            - total_pipe_cost(old(world).entities@, dt as int),
        final(state).ledger@ == (Ledger {
            spent: old(state).ledger@.spent + total_pipe_cost(old(world).entities@, dt as int),
            ..old(state).ledger@
        }),
        final(state).goal == old(state).goal,
        final(state).level == old(state).level,
        final(state).won == old(state).won,
        final(state).lost == old(state).lost,
        final(state).tool == old(state).tool,
        final(world).entities@.len() == old(world).entities@.len()
            + pipe_spawn_list(old(world).entities@, dt as int).len(),
        forall|k: int|
            0 <= k < old(world).entities@.len() ==> final(world).entities@[k]
                == pipe_stepped(#[trigger] old(world).entities@[k], dt as int),
        forall|t: int|
            0 <= t < pipe_spawn_list(old(world).entities@, dt as int).len()
                ==> spawned_item_shape(
                    #[trigger] final(world).entities@[old(world).entities@.len() + t],
                    pipe_spawn_list(old(world).entities@, dt as int)[t].0,
                    pipe_spawn_list(old(world).entities@, dt as int)[t].1,
                ),
{
    let ghost s0 = old(world).entities@;
    let ghost dti = dt as int;
    let n = world.entities.len();
    let mut i: usize = 0;
    proof {
        assert(s0.take(0) =~= Seq::<Entity>::empty());
        lemma_total_cost_mono(s0, dti, 0);
        lemma_spawn_list_mono(s0, dti, 0);
    }
    while i < n
        invariant
            old(state).wf(),
            pipes_fit(s0, dti),
            i64::MIN <= old(state).money.0 - total_pipe_cost(s0, dti),
            s0.len() + pipe_spawn_list(s0, dti).len() <= usize::MAX,
            s0 == old(world).entities@,
            dti == dt as int,
            0 <= i <= n,
            n == s0.len(),
            forall|k: int| 0 <= k < n ==> (#[trigger] s0[k]).wf(),
            world.entities@.len() == n + pipe_spawn_list(s0.take(i as int), dti).len(),
            forall|k: int|
                0 <= k < i ==> world.entities@[k] == pipe_stepped(#[trigger] s0[k], dti),
            forall|k: int| i <= k < n ==> world.entities@[k] == s0[k],
            forall|t: int|
                0 <= t < pipe_spawn_list(s0.take(i as int), dti).len()
                    ==> spawned_item_shape(
                        #[trigger] world.entities@[s0.len() + t],
                        pipe_spawn_list(s0.take(i as int), dti)[t].0,
                        pipe_spawn_list(s0.take(i as int), dti)[t].1,
                    ),
            forall|k: int|
                0 <= k < world.entities@.len() ==> (#[trigger] world.entities@[k]).wf(),
            state.money.0 == old(state).money.0 - total_pipe_cost(s0.take(i as int), dti),
            state.ledger@ == (Ledger {
                spent: old(state).ledger@.spent + total_pipe_cost(s0.take(i as int), dti),
                ..old(state).ledger@
            }),
            state.wf(),
            state.goal == old(state).goal,
            state.level == old(state).level,
            state.won == old(state).won,
            state.lost == old(state).lost,
            state.tool == old(state).tool,
        decreases n - i,
    {
        proof {
            let pre = s0.take(i as int);
            let cur = s0.take(i as int + 1);
            assert(cur.drop_last() =~= pre);
            assert(cur.last() == s0[i as int]);
            lemma_total_cost_mono(s0, dti, i as int + 1);
            lemma_spawn_list_mono(s0, dti, i as int + 1);
            lemma_pipe_cost_nonneg(s0[i as int], dti);
        }
        let alive = world.entities[i].alive;
        let pipeo = world.entities[i].input_pipe;
        let poso = world.entities[i].pos;
        let mut skipped = true;
        if alive {
            if let (Some(p), Some(pos)) = (pipeo, poso) {
                if p.enabled {
                    skipped = false;
                    proof {
                        assert(s0[i as int].wf());
                        assert(pipe_active(s0[i as int]));
                    }
                    let elapsed0: u64 = p.time_elapsed + dt;
                    let ghost e0 = elapsed0 as int;
                    if p.spawn_rate > 0 {
                        let interval: u64 = TIME_SCALE / (p.spawn_rate as u64);
                        proof {
                            lemma_div_is_ordered(
                                p.spawn_rate as int, TIME_SCALE as int, p.spawn_rate as int);
                            lemma_div_by_self(p.spawn_rate as int);
                            assert(interval >= 1);
                            lemma_div_pos_is_pos(e0, interval as int);
                            lemma_remainder_lower(e0, interval as int);
                            lemma_remainder_upper(e0, interval as int);
                        }
                        let ghost total_n = e0 / (interval as int);
                        proof {
                            vstd::arithmetic::div_mod::lemma_div_nonincreasing(
                                e0, interval as int);
                        }
                        let ghost w1 = world.entities@;
                        let ghost len1 = world.entities@.len() as int;
                        let ghost money1 = state.money.0 as int;
                        let ghost ledger1 = state.ledger@;
                        let ghost st1_goal = state.goal;
                        let ghost st1_level = state.level;
                        let ghost st1_won = state.won;
                        let ghost st1_lost = state.lost;
                        let ghost st1_tool = state.tool;
                        proof {
                            assert(pipe_spawn_count_of(s0[i as int], dti) == total_n);
                            assert(pipe_cost_of(s0[i as int], dti) == total_n * p.cost);
                            assert(total_pipe_cost(s0.take(i as int + 1), dti)
                                == total_pipe_cost(s0.take(i as int), dti) + total_n * p.cost);
                            assert(pipe_spawn_list(s0.take(i as int + 1), dti).len()
                                == pipe_spawn_list(s0.take(i as int), dti).len() + total_n);
                            assert(len1 + total_n <= usize::MAX);
                            assert(i64::MIN <= money1 - total_n * p.cost);
                        }
                        let mut elapsed = elapsed0;
                        let mut j: u64 = 0;
                        while elapsed >= interval
                            invariant
                                1 <= interval,
                                interval == TIME_SCALE as int / (p.spawn_rate as int),
                                p.spawn_rate > 0,
                                0 <= p.cost <= COST_LIMIT,
                                in_world(pos.0),
                                e0 == j * interval + elapsed,
                                0 <= j <= total_n,
                                total_n == e0 / (interval as int),
                                total_n <= e0 <= u64::MAX,
                                0 <= len1,
                                len1 + total_n <= usize::MAX,
                                i64::MIN <= money1 - total_n * p.cost,
                                world.entities@.len() == len1 + j,
                                forall|k: int| 0 <= k < len1 ==> world.entities@[k] == w1[k],
                                forall|t: int|
                                    len1 <= t < len1 + j ==> spawned_item_shape(
                                        #[trigger] world.entities@[t], p.item, pos),
                                forall|k: int|
                                    0 <= k < world.entities@.len()
                                        ==> (#[trigger] world.entities@[k]).wf(),
                                state.money.0 == money1 - j * p.cost,
                                state.ledger@ == (Ledger {
                                    spent: ledger1.spent + j * p.cost,
                                    ..ledger1
                                }),
                                state.wf(),
                                state.goal == st1_goal,
                                state.level == st1_level,
                                state.won == st1_won,
                                state.lost == st1_lost,
                                state.tool == st1_tool,
                            decreases elapsed,
                        {
                            proof {
                                assert((j as int + 1) * interval as int
                                    == j as int * interval as int + interval as int)
                                    by (nonlinear_arith);
                                assert((j as int + 1) * interval <= e0);
                                lemma_div_is_ordered(
                                    (j as int + 1) * interval as int, e0, interval as int);
                                vstd::arithmetic::div_mod::lemma_div_by_multiple(
                                    j as int + 1, interval as int);
                                assert(j < total_n);
                                assert((j as int + 1) * p.cost
                                    == j as int * p.cost + p.cost) by (nonlinear_arith);
                                lemma_mul_inequality(j as int + 1, total_n, p.cost as int);
                                lemma_mul_nonnegative(j as int, p.cost as int);
                            }
                            let vx = random_in_range(-50, 50);
                            let mut item_ent = Entity::blank();
                            item_ent.pos = Some(pos);
                            item_ent.vel = Some(Velocity(Vec2i { x: vx, y: 0 }));
                            item_ent.item = Some(p.item);
                            item_ent.circle = Some(CirclePhysics { radius: 14 });
                            item_ent.view = Some(SpriteView::Item {
                                item: p.item,
                                ui_element: false,
                            });
                            proof {
                                assert(spawned_item_shape(item_ent, p.item, pos));
                            }
                            let ghost pre_spawn = world.entities@;
                            world.spawn(item_ent);
                            proof {
                                assert(world.entities@ == pre_spawn.push(item_ent));
                                assert(world.entities@[len1 + j] == item_ent);
                                assert forall|t: int| len1 <= t < len1 + j
                                    implies spawned_item_shape(
                                        #[trigger] world.entities@[t], p.item, pos) by {
                                    assert(pre_spawn.push(item_ent)[t] == pre_spawn[t]);
                                    assert(world.entities@[t] == pre_spawn[t]);
                                }
                            }
                            state.money.0 = state.money.0 - p.cost;
                            proof {
                                state.ledger@ = Ledger {
                                    spent: state.ledger@.spent + p.cost,
                                    ..state.ledger@
                                };
                            }
                            elapsed = elapsed - interval;
                            j = j + 1;
                        }
                        proof {
                            lemma_fundamental_div_mod_converse(
                                e0, interval as int, j as int, elapsed as int);
                            assert(j == total_n);
                            assert(elapsed as int == e0 % (interval as int));
                        }
                        let ent = &mut world.entities[i];
                        ent.input_pipe = Some(InputPipe { time_elapsed: elapsed, ..p });
                        proof {
                            assert(world.entities@[i as int]
                                == pipe_stepped(s0[i as int], dti));
                            assert(world.entities@[i as int].wf());
                            assert forall|t: int|
                                0 <= t < pipe_spawn_list(s0.take(i as int + 1), dti).len()
                                implies spawned_item_shape(
                                    #[trigger] world.entities@[s0.len() + t],
                                    pipe_spawn_list(s0.take(i as int + 1), dti)[t].0,
                                    pipe_spawn_list(s0.take(i as int + 1), dti)[t].1,
                                ) by {
                                let pre_list = pipe_spawn_list(s0.take(i as int), dti);
                                assert(world.entities@[s0.len() + t] == w1[s0.len() + t]
                                    || s0.len() + t >= len1);
                                if t < pre_list.len() {
                                    assert(pipe_spawn_list(s0.take(i as int + 1), dti)[t]
                                        == pre_list[t]);
                                    assert(s0.len() + t < len1);
                                    assert(world.entities@[s0.len() + t] == w1[s0.len() + t]);
                                } else {
                                    assert(pipe_spawn_list(s0.take(i as int + 1), dti)[t]
                                        == (p.item, pos));
                                    assert(len1 <= s0.len() + t < len1 + total_n);
                                }
                            }
                        }
                    } else {
                        let ent = &mut world.entities[i];
                        ent.input_pipe = Some(InputPipe { time_elapsed: elapsed0, ..p });
                        proof {
                            assert(world.entities@[i as int]
                                == pipe_stepped(s0[i as int], dti));
                            assert(world.entities@[i as int].wf());
                            assert(pipe_spawn_count_of(s0[i as int], dti) == 0);
                            assert(pipe_cost_of(s0[i as int], dti) == 0) by {
                                assert(0 * ((s0[i as int].input_pipe->0).cost as int) == 0)
                                    by (nonlinear_arith);
                            };
                            assert(pipe_spawn_list(s0.take(i as int + 1), dti)
                                =~= pipe_spawn_list(s0.take(i as int), dti));
                        }
                    }
                }
            }
        }
        proof {
            if skipped {
                assert(!pipe_active(s0[i as int]));
                assert(pipe_stepped(s0[i as int], dti) == s0[i as int]);
                assert(pipe_spawn_count_of(s0[i as int], dti) == 0);
                assert(pipe_cost_of(s0[i as int], dti) == 0);
                assert(pipe_spawn_list(s0.take(i as int + 1), dti)
                    =~= pipe_spawn_list(s0.take(i as int), dti));
            }
        }
        i = i + 1;
    }
    proof {
        assert(s0.take(n as int) =~= s0);
    }
}

/// The record is a live output pipe with a position and a sprite.
pub open spec fn is_live_out_pipe(e: Entity) -> bool {
    e.alive && e.output_pipe is Some && e.pos is Some && e.view is Some
}

/// The output pipe collects the item: the item is live, its kind matches,
/// and it lies within a quarter sprite-height of the collection point one
/// half sprite-height below the pipe.
pub open spec fn collects(pipe: Entity, item: Entity) -> bool {
    &&& is_live_out_pipe(pipe)
    &&& item.is_live_item()
    &&& item.item->0 == (pipe.output_pipe->0).item
    &&& ({
        let sy = (pipe.view->0).spec_scale().y as int;
        let pp = (pipe.pos->0).0;
        let ip = (item.pos->0).0;
        let dx = ip.x - pp.x;
        let dy = ip.y - (pp.y - sy / 2);
        16 * (dx * dx + dy * dy) < sy * sy
    })
}

/// The item at index `k` is collected by some output pipe of the world.
pub open spec fn collected_by_some(s: Seq<Entity>, k: int) -> bool {
    exists|m: int| 0 <= m < s.len() && collects(#[trigger] s[m], s[k])
}

/// The reward one pipe earns from the items of `items` this tick.
pub open spec fn pipe_reward_sum(pipe: Entity, items: Seq<Entity>) -> int
    decreases items.len(),
{
    if items.len() == 0 {
        0
    } else {
        pipe_reward_sum(pipe, items.drop_last()) + if collects(pipe, items.last()) {
            (pipe.output_pipe->0).reward as int
        } else {
            0
        }
    }
}

/// The reward all pipes of the prefix `pipes` earn from `items` this tick.
pub open spec fn total_reward_of(pipes: Seq<Entity>, items: Seq<Entity>) -> int
    decreases pipes.len(),
{
    if pipes.len() == 0 {
        0
    } else {
        total_reward_of(pipes.drop_last(), items) + pipe_reward_sum(pipes.last(), items)
    }
}

/// The reward all output pipes of the world earn this tick.
pub open spec fn total_reward(s: Seq<Entity>) -> int {
    total_reward_of(s, s)
}

/// One pipe's reward from a prefix of items never exceeds its reward from
/// all of them, and rewards are never negative.
proof fn lemma_reward_sum_mono(pipe: Entity, items: Seq<Entity>, k: int)
    requires
        0 <= k <= items.len(),
        pipe.wf(),
    ensures
        0 <= pipe_reward_sum(pipe, items.take(k)) <= pipe_reward_sum(pipe, items),
    decreases items.len(),
{
    if items.len() == 0 {
        assert(items.take(k) =~= items);
    } else {
        if k == items.len() {
            assert(items.take(k) =~= items);
            lemma_reward_sum_mono(pipe, items.drop_last(), items.drop_last().len() as int);
        } else {
            assert(items.take(k) =~= items.drop_last().take(k));
            lemma_reward_sum_mono(pipe, items.drop_last(), k);
        }
    }
}

/// A prefix of the pipes never earns more than all of them, and the total
/// is never negative.
proof fn lemma_total_reward_mono(pipes: Seq<Entity>, items: Seq<Entity>, k: int)
    requires
        0 <= k <= pipes.len(),
        forall|i: int| 0 <= i < pipes.len() ==> (#[trigger] pipes[i]).wf(),
    ensures
        0 <= total_reward_of(pipes.take(k), items) <= total_reward_of(pipes, items),
    decreases pipes.len(),
{
    if pipes.len() == 0 {
        assert(pipes.take(k) =~= pipes);
    } else {
        lemma_reward_sum_mono(pipes.last(), items, items.len() as int);
        assert(items.take(items.len() as int) =~= items);
        assert(forall|i: int|
            0 <= i < pipes.drop_last().len() ==> (#[trigger] pipes.drop_last()[i]).wf());
        if k == pipes.len() {
            assert(pipes.take(k) =~= pipes);
            lemma_total_reward_mono(pipes.drop_last(), items, pipes.drop_last().len() as int);
        } else {
            assert(pipes.take(k) =~= pipes.drop_last().take(k));
            lemma_total_reward_mono(pipes.drop_last(), items, k);
        }
    }
}

/// Let every output pipe collect the matching items near its collection
/// point: each collected item is destroyed and its pipe's reward is
/// credited, booked as earnings. An item standing in reach of two pipes
/// pays both before it disappears.
pub fn output_pipe_consume_item(world: &mut World, state: &mut GameState)
    requires
        old(world).wf(),
        old(state).wf(),
        old(state).money.0 + total_reward(old(world).entities@) <= i64::MAX,
    ensures
        final(world).wf(),
        final(state).wf(),
        final(state).money.0 == old(state).money.0 + total_reward(old(world).entities@),
        final(state).ledger@ == (Ledger {
            earned: old(state).ledger@.earned + total_reward(old(world).entities@),
            ..old(state).ledger@
        }),
        final(state).goal == old(state).goal,
        final(state).level == old(state).level,
        final(state).won == old(state).won,
        final(state).lost == old(state).lost,
        final(state).tool == old(state).tool,
        final(world).entities@.len() == old(world).entities@.len(),
        forall|k: int|
            0 <= k < old(world).entities@.len() ==> final(world).entities@[k] == ({
                let e = #[trigger] old(world).entities@[k];
                if collected_by_some(old(world).entities@, k) {
                    Entity { alive: false, ..e }
                } else {
                    e
                }
            }),
{
    let ghost s0 = old(world).entities@;
    let n = world.entities.len();
    let mut flagged: Vec<bool> = Vec::new();
    let mut t: usize = 0;
    while t < n
        invariant
            0 <= t <= n,
            flagged@.len() == t,
            forall|k: int| 0 <= k < t ==> !(#[trigger] flagged@[k]),
        decreases n - t,
    {
        flagged.push(false);
        t = t + 1;
    }
    let mut i: usize = 0;
    proof {
        assert(s0.take(0) =~= Seq::<Entity>::empty());
        lemma_total_reward_mono(s0, s0, 0);
    }
    while i < n
        invariant
            old(state).wf(),
            old(state).money.0 + total_reward(s0) <= i64::MAX,
            s0 == old(world).entities@,
            world.entities@ == s0,
            world.wf(),
            0 <= i <= n,
            n == s0.len(),
            flagged@.len() == n,
            forall|k: int|
                0 <= k < n ==> ((#[trigger] flagged@[k]) <==> (exists|m: int|
                    0 <= m < i && collects(#[trigger] s0[m], s0[k]))),
            state.money.0 == old(state).money.0 + total_reward_of(s0.take(i as int), s0),
            state.ledger@ == (Ledger {
                earned: old(state).ledger@.earned + total_reward_of(s0.take(i as int), s0),
                ..old(state).ledger@
            }),
            state.wf(),
            state.goal == old(state).goal,
            state.level == old(state).level,
            state.won == old(state).won,
            state.lost == old(state).lost,
            state.tool == old(state).tool,
        decreases n - i,
    {
        proof {
            let pre = s0.take(i as int);
            let cur = s0.take(i as int + 1);
            assert(cur.drop_last() =~= pre);
            assert(cur.last() == s0[i as int]);
            lemma_total_reward_mono(s0, s0, i as int + 1);
        }
        let alive = world.entities[i].alive;
        let pipeo = world.entities[i].output_pipe;
        let poso = world.entities[i].pos;
        let viewo = world.entities[i].view;
        let mut live_pipe = false;
        if alive {
            if let (Some(pipe), Some(pos), Some(vw)) = (pipeo, poso, viewo) {
                live_pipe = true;
                proof {
                    assert(s0[i as int].wf());
                    assert(is_live_out_pipe(s0[i as int]));
                }
                let sy = vw.get_scale().y;
                let cpy_off = sy / 2;
                let ghost money1 = state.money.0 as int;
                let ghost earned1 = state.ledger@.earned;
                let ghost ledger1 = state.ledger@;
                let ghost reward_total = pipe_reward_sum(s0[i as int], s0);
                proof {
                    lemma_reward_sum_mono(s0[i as int], s0, 0);
                    assert(s0.take(0) =~= Seq::<Entity>::empty());
                    assert(total_reward_of(s0.take(i as int + 1), s0)
                        == total_reward_of(s0.take(i as int), s0) + reward_total);
                    assert(money1 + reward_total <= i64::MAX);
                }
                let mut k: usize = 0;
                while k < n
                    invariant
                        0 <= k <= n,
                        n == s0.len(),
                        world.entities@ == s0,
                        world.wf(),
                        0 <= i < n,
                        is_live_out_pipe(s0[i as int]),
                        s0[i as int].wf(),
                        sy == (s0[i as int].view->0).spec_scale().y,
                        0 < sy <= 1600,
                        cpy_off == sy / 2,
                        s0[i as int].output_pipe == Some(pipe),
                        s0[i as int].pos == Some(pos),
                        flagged@.len() == n,
                        forall|k2: int|
                            0 <= k2 < n ==> ((#[trigger] flagged@[k2]) <==> ((exists|m: int|
                                0 <= m < i && collects(#[trigger] s0[m], s0[k2]))
                                || (k2 < k && collects(s0[i as int], s0[k2])))),
                        money1 + reward_total <= i64::MAX,
                        reward_total == pipe_reward_sum(s0[i as int], s0),
                        state.money.0 == money1 + pipe_reward_sum(s0[i as int], s0.take(k as int)),
                        state.ledger@ == (Ledger {
                            earned: earned1 + pipe_reward_sum(s0[i as int], s0.take(k as int)),
                            ..ledger1
                        }),
                        state.wf(),
                        state.goal == old(state).goal,
                        state.level == old(state).level,
                        state.won == old(state).won,
                        state.lost == old(state).lost,
                        state.tool == old(state).tool,
                    decreases n - k,
                {
                    proof {
                        let pre = s0.take(k as int);
                        let cur = s0.take(k as int + 1);
                        assert(cur.drop_last() =~= pre);
                        assert(cur.last() == s0[k as int]);
                        lemma_reward_sum_mono(s0[i as int], s0, k as int + 1);
                        lemma_reward_sum_mono(s0[i as int], s0, k as int);
                    }
                    let it_alive = world.entities[k].alive;
                    let it_item = world.entities[k].item;
                    let it_pos = world.entities[k].pos;
                    let mut matched = false;
                    if it_alive {
                        if let (Some(kind), Some(ip)) = (it_item, it_pos) {
                            if kind == pipe.item {
                                proof {
                                    assert(s0[k as int].wf());
                                }
                                let dx: i128 = ip.0.x as i128 - pos.0.x as i128;
                                let dy: i128 = ip.0.y as i128 - (pos.0.y as i128 - cpy_off as i128);
                                proof {
                                    assert(0 <= dx * dx <= 0x1_0000_0000_0000_0000
                                        && 0 <= dy * dy <= 0x1_0000_0000_0000_0000)
                                        by (nonlinear_arith)
                                        requires
                                            -4_000_000_000 <= dx <= 4_000_000_000,
                                            -4_000_000_000 <= dy <= 4_000_000_000,
                                    ;
                                    assert(sy as i128 * sy as i128 <= 0x1000_0000)
                                        by (nonlinear_arith)
                                        requires 0 < sy <= 1600;
                                }
                                if 16 * (dx * dx + dy * dy) < (sy as i128) * (sy as i128) {
                                    matched = true;
                                    proof {
                                        assert(collects(s0[i as int], s0[k as int]));
                                    }
                                    flagged[k] = true;
                                    state.money.0 = state.money.0 + pipe.reward;
                                    proof {
                                        state.ledger@ = Ledger {
                                            earned: state.ledger@.earned + pipe.reward,
                                            ..state.ledger@
                                        };
                                    }
                                }
                            }
                        }
                    }
                    proof {
                        if !matched {
                            assert(!collects(s0[i as int], s0[k as int]));
                        }
                    }
                    k = k + 1;
                }
                proof {
                    assert(s0.take(n as int) =~= s0);
                    assert forall|k2: int| 0 <= k2 < n implies ((#[trigger] flagged@[k2]) <==> (
                        exists|m: int| 0 <= m < i + 1 && collects(#[trigger] s0[m], s0[k2])))
                        by {
                        if flagged@[k2] {
                            if collects(s0[i as int], s0[k2]) {
                                assert(collects(s0[i as int], s0[k2]));
                            }
                        } else {
                            assert(!collects(s0[i as int], s0[k2]));
                        }
                    }
                }
            }
        }
        proof {
            if !live_pipe {
                assert(!is_live_out_pipe(s0[i as int]));
                assert(pipe_reward_sum(s0[i as int], s0) == 0) by {
                    lemma_reward_sum_zero(s0[i as int], s0);
                };
                assert forall|k2: int| 0 <= k2 < n implies ((#[trigger] flagged@[k2]) <==> (
                    exists|m: int| 0 <= m < i + 1 && collects(#[trigger] s0[m], s0[k2]))) by {
                    assert(!collects(s0[i as int], s0[k2]));
                }
            }
        }
        i = i + 1;
    }
    proof {
        assert(s0.take(n as int) =~= s0);
    }
    let mut t2: usize = 0;
    while t2 < n
        invariant
            0 <= t2 <= n,
            n == s0.len(),
            s0 == old(world).entities@,
            flagged@.len() == n,
            forall|k: int|
                0 <= k < n ==> ((#[trigger] flagged@[k]) <==> collected_by_some(s0, k)),
            world.entities@.len() == n,
            forall|k: int|
                0 <= k < t2 ==> world.entities@[k] == ({
                    let e = #[trigger] s0[k];
                    if collected_by_some(s0, k) {
                        Entity { alive: false, ..e }
                    } else {
                        e
                    }
                }),
            forall|k: int| t2 <= k < n ==> world.entities@[k] == s0[k],
            forall|k: int| 0 <= k < n ==> (#[trigger] world.entities@[k]).wf(),
        decreases n - t2,
    {
        if flagged[t2] {
            world.despawn(t2);
        }
        t2 = t2 + 1;
    }
}

/// The item icon shown beside a pipe: a interface-sized item sprite.
pub open spec fn pipe_icon_shape(e: Entity, kind: Item, px: int, py: int) -> bool {
    e == (Entity {
        pos: Some(Position(Vec2i { x: clip(px) as i64, y: clip(py) as i64 })),
        view: Some(SpriteView::Item { item: kind, ui_element: true }),
        ..Entity::spec_blank()
    })
}

/// A ledge: a static entity carrying one upright rectangle collider.
pub open spec fn ledge_shape(e: Entity, px: int, py: int, half: int) -> bool {
    &&& e.colliders is Some
    &&& (e.colliders->0).0@ =~= seq![RectanglePhysics {
        width: (half / 5) as i64,
        height: half as i64,
        offset_x: 0,
        offset_y: 0,
    }]
    &&& e == (Entity {
        pos: Some(Position(Vec2i { x: clip(px) as i64, y: clip(py) as i64 })),
        colliders: e.colliders,
        ..Entity::spec_blank()
    })
}

/// Decorate a freshly added input pipe: its item's icon floats just above
/// it. Any other id is ignored.
pub fn on_add_input_pipe(world: &mut World, pipe_id: EntityId)
    requires
        old(world).wf(),
        old(world).entities@.len() < usize::MAX,
    ensures
        final(world).wf(),
        ({
            let s = old(world).entities@;
            if pipe_id < s.len() && is_live_pipe(s[pipe_id as int]) {
                let p = (s[pipe_id as int].pos->0).0;
                &&& final(world).entities@.len() == s.len() + 1
                &&& forall|k: int| 0 <= k < s.len() ==> final(world).entities@[k] == s[k]
                &&& pipe_icon_shape(final(world).entities@[s.len() as int],
                    (s[pipe_id as int].input_pipe->0).item, p.x as int, p.y + 15)
            } else {
                *final(world) == *old(world)
            }
        }),
{
    let n = world.entities.len();
    if pipe_id < n {
        let alive = world.entities[pipe_id].alive;
        let pipeo = world.entities[pipe_id].input_pipe;
        let poso = world.entities[pipe_id].pos;
        if alive {
            if let (Some(p), Some(pos)) = (pipeo, poso) {
                proof {
                    assert(old(world).entities@[pipe_id as int].wf());
                }
                let iy = clip_i128(pos.0.y as i128 + 15);
                let ix = clip_i128(pos.0.x as i128);
                let mut icon = Entity::blank();
                icon.pos = Some(Position(Vec2i { x: ix, y: iy }));
                icon.view = Some(SpriteView::Item { item: p.item, ui_element: true });
                let ghost pre_spawn = world.entities@;
                world.spawn(icon);
                proof {
                    assert forall|k: int| 0 <= k < pre_spawn.len()
                        implies #[trigger] world.entities@[k] == pre_spawn[k] by {
                        assert(pre_spawn.push(icon)[k] == pre_spawn[k]);
                    }
                }
            }
        }
    }
}

/// Decorate a freshly added output pipe: two ledge colliders at its
/// mouth, and its item's icon just below it. Any other id is ignored.
pub fn on_add_output_pipe(world: &mut World, pipe_id: EntityId)
    requires
        old(world).wf(),
        old(world).entities@.len() + 3 <= usize::MAX,
    ensures
        final(world).wf(),
        ({
            let s = old(world).entities@;
            if pipe_id < s.len() && is_live_out_pipe(s[pipe_id as int]) {
                let p = (s[pipe_id as int].pos->0).0;
                let half = (s[pipe_id as int].view->0).spec_scale().x as int / 2;
                &&& final(world).entities@.len() == s.len() + 3
                &&& forall|k: int| 0 <= k < s.len() ==> final(world).entities@[k] == s[k]
                &&& ledge_shape(final(world).entities@[s.len() as int],
                    p.x + (14 * half) / 25, p.y - half / 2, half)
                &&& ledge_shape(final(world).entities@[s.len() as int + 1],
                    p.x - (14 * half) / 25, p.y - half / 2, half)
                &&& pipe_icon_shape(final(world).entities@[s.len() as int + 2],
                    (s[pipe_id as int].output_pipe->0).item, p.x as int, p.y - 50)
            } else {
                *final(world) == *old(world)
            }
        }),
{
    let n = world.entities.len();
    if pipe_id < n {
        let alive = world.entities[pipe_id].alive;
        let pipeo = world.entities[pipe_id].output_pipe;
        let poso = world.entities[pipe_id].pos;
        let viewo = world.entities[pipe_id].view;
        if alive {
            if let (Some(p), Some(pos), Some(vw)) = (pipeo, poso, viewo) {
                proof {
                    assert(old(world).entities@[pipe_id as int].wf());
                }
                let half = vw.get_scale().x / 2;
                let off = (14 * half) / 25;
                let ly = clip_i128(pos.0.y as i128 - (half / 2) as i128);
                let mut walls_r: Vec<RectanglePhysics> = Vec::new();
                walls_r.push(RectanglePhysics {
                    width: half / 5,
                    height: half,
                    offset_x: 0,
                    offset_y: 0,
                });
                let mut ledge_r = Entity::blank();
                ledge_r.pos = Some(Position(Vec2i {
                    x: clip_i128(pos.0.x as i128 + off as i128),
                    y: ly,
                }));
                ledge_r.colliders = Some(crate::physics::ColliderCollection(walls_r));
                let ghost pre1 = world.entities@;
                world.spawn(ledge_r);
                proof {
                    assert forall|k: int| 0 <= k < pre1.len()
                        implies #[trigger] world.entities@[k] == pre1[k] by {
                        assert(pre1.push(ledge_r)[k] == pre1[k]);
                    }
                }
                let mut walls_l: Vec<RectanglePhysics> = Vec::new();
                walls_l.push(RectanglePhysics {
                    width: half / 5,
                    height: half,
                    offset_x: 0,
                    offset_y: 0,
                });
                let mut ledge_l = Entity::blank();
                ledge_l.pos = Some(Position(Vec2i {
                    x: clip_i128(pos.0.x as i128 - off as i128),
                    y: ly,
                }));
                ledge_l.colliders = Some(crate::physics::ColliderCollection(walls_l));
                let ghost pre2 = world.entities@;
                world.spawn(ledge_l);
                proof {
                    assert forall|k: int| 0 <= k < pre2.len()
                        implies #[trigger] world.entities@[k] == pre2[k] by {
                        assert(pre2.push(ledge_l)[k] == pre2[k]);
                    }
                }
                let mut icon = Entity::blank();
                icon.pos = Some(Position(Vec2i {
                    x: clip_i128(pos.0.x as i128),
                    y: clip_i128(pos.0.y as i128 - 50),
                }));
                icon.view = Some(SpriteView::Item { item: p.item, ui_element: true });
                let ghost pre3 = world.entities@;
                world.spawn(icon);
                proof {
                    assert forall|k: int| 0 <= k < pre3.len()
                        implies #[trigger] world.entities@[k] == pre3[k] by {
                        assert(pre3.push(icon)[k] == pre3[k]);
                    }
                }
            }
        }
    }
}

/// A record that is not a live output pipe earns nothing.
proof fn lemma_reward_sum_zero(pipe: Entity, items: Seq<Entity>)
    requires
        !is_live_out_pipe(pipe),
    ensures
        pipe_reward_sum(pipe, items) == 0,
    decreases items.len(),
{
    if items.len() > 0 {
        lemma_reward_sum_zero(pipe, items.drop_last());
    }
}

} // verus!
