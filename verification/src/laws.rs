//! The laws the simulation keeps across ticks, stated once and proved
//! from what the subsystem contracts say.

use vstd::prelude::*;
use vstd::arithmetic::div_mod::{lemma_mod_multiples_vanish, lemma_div_is_ordered,
    lemma_div_by_self};
use crate::input::PointerState;
use crate::levels::{GameState, LevelRegistry, reset_state};
use crate::world::EntityId;
use crate::pipes::{elapsed_after, spawn_count, spawn_interval};
use crate::TIME_SCALE;

verus! {

/// Money conservation: in every well-formed state the balance is exactly
/// the ledger's starting value, minus everything spent on pipe spawns and
/// machine purchases, plus everything earned from collected items. Each
/// economy function books its exact delta in the ledger, and every other
/// system leaves the state untouched, so this holds after any sequence of
/// spawns, collections and purchases.
pub proof fn lemma_money_conservation(st: GameState)
    requires
        st.wf(),
    ensures
        st.money.0 as int == st.ledger@.initial - st.ledger@.spent + st.ledger@.earned,
{
}

/// Drag exclusivity: the drag state names at most one entity, so two
/// simultaneously dragged entities are the same entity. The other half
/// of the law — acquiring a drag while one is active is a no-op — is the
/// first postcondition of `set_dragging`, the only function that ever
/// starts a drag.
pub proof fn lemma_drag_exclusive(ps: PointerState, a: EntityId, b: EntityId)
    requires
        ps.dragging.entity == Some(a),
        ps.dragging.entity == Some(b),
    ensures
        a == b,
{
}

/// Idempotent level reset: the state a level transition produces is a
/// function of the registry and the level index alone. `level_management`
/// ends every advance, win or loss, in exactly `reset_state`, so
/// re-entering the same index twice always restores the level's defined
/// starting balance and goal, never values accumulated by the previous
/// attempt.
pub proof fn lemma_level_reset_idempotent(registry: LevelRegistry, l: u32)
    ensures
        reset_state(registry, l).money.0 == registry.start_money_of(l as int),
        reset_state(registry, l).goal.0 == registry.goal_of(l as int),
        reset_state(registry, l).level.0 == l,
        !reset_state(registry, l).won.0,
        !reset_state(registry, l).lost.0,
        reset_state(registry, l).ledger@.spent == 0,
        reset_state(registry, l).ledger@.earned == 0,
        reset_state(registry, l).ledger@.initial == registry.start_money_of(l as int) as int,
        reset_state(registry, l).wf(),
{
}

/// The accumulator after a run of ticks, starting from `e0`.
pub open spec fn run_elapsed(e0: int, dts: Seq<int>, rate: int) -> int
    decreases dts.len(),
{
    if dts.len() == 0 {
        e0
    } else {
        elapsed_after(run_elapsed(e0, dts.drop_last(), rate), dts.last(), rate)
    }
}

/// The number of items spawned over a run of ticks, starting from `e0`.
pub open spec fn run_spawns(e0: int, dts: Seq<int>, rate: int) -> int
    decreases dts.len(),
{
    if dts.len() == 0 {
        0
    } else {
        run_spawns(e0, dts.drop_last(), rate) + spawn_count(
            run_elapsed(e0, dts.drop_last(), rate), dts.last(), rate)
    }
}

/// The total duration of a run of ticks.
pub open spec fn total_time(dts: Seq<int>) -> int
    decreases dts.len(),
{
    if dts.len() == 0 {
        0
    } else {
        total_time(dts.drop_last()) + dts.last()
    }
}

/// Spawn accounting: a pipe with positive rate, enabled for any run of
/// ticks with no resets, spawns exactly the accumulated duration divided
/// by the spawn interval, and its accumulator ends at the division's
/// remainder — always below one interval.
pub proof fn lemma_spawn_accounting(e0: int, dts: Seq<int>, rate: int)
    requires
        0 < rate <= crate::RATE_LIMIT,
        0 <= e0 < spawn_interval(rate as u32),
        forall|i: int| 0 <= i < dts.len() ==> #[trigger] dts[i] >= 0,
    ensures
        run_spawns(e0, dts, rate) == (e0 + total_time(dts)) / spawn_interval(rate as u32),
        run_elapsed(e0, dts, rate) == (e0 + total_time(dts)) % spawn_interval(rate as u32),
        0 <= run_elapsed(e0, dts, rate) < spawn_interval(rate as u32),
    decreases dts.len(),
{
    let iv = spawn_interval(rate as u32);
    lemma_div_is_ordered(rate, TIME_SCALE as int, rate);
    lemma_div_by_self(rate);
    assert(iv >= 1);
    if dts.len() == 0 {
        assert(total_time(dts) == 0);
        vstd::arithmetic::div_mod::lemma_basic_div(e0, iv);
        vstd::arithmetic::div_mod::lemma_small_mod(e0 as nat, iv as nat);
    } else {
        let pre = dts.drop_last();
        let d = dts.last();
        assert(forall|i: int| 0 <= i < pre.len() ==> #[trigger] pre[i] >= 0);
        lemma_spawn_accounting(e0, pre, rate);
        let acc = e0 + total_time(pre);
        let q = acc / iv;
        let r = acc % iv;
        vstd::arithmetic::div_mod::lemma_fundamental_div_mod(acc, iv);
        // the step starts at the remainder; adding the multiple of the
        // interval back changes neither quotient increment nor remainder
        lemma_mod_multiples_vanish(q, r + d, iv);
        assert(iv * q + (r + d) == acc + d);
        assert((r + d) % iv == (acc + d) % iv);
        vstd::arithmetic::div_mod::lemma_hoist_over_denominator(r + d, q, iv as nat);
        assert((r + d) / iv + q == (r + d + q * iv) / iv);
        assert(r + d + q * iv == acc + d) by (nonlinear_arith)
            requires
                acc == iv * q + r,
        ;
        assert(run_elapsed(e0, dts, rate) == (r + d) % iv);
        assert(run_spawns(e0, dts, rate) == q + (r + d) / iv);
        vstd::arithmetic::div_mod::lemma_mod_division_less_than_divisor(acc + d, iv);
    }
}

} // verus!
