//! Level lifecycle: the process-wide game state with its money ledger, the
//! registry that maps a level index to its content, win/lose latching, and
//! the transition that tears a level down and loads the next.

use vstd::prelude::*;
use crate::ui::{SelectedTool, Tools};
use crate::world::{Entity, World};

verus! {

/// Default balance and goal a transition resets to while no level content
/// overrides them.
pub const DEFAULT_MONEY: i64 = 123;
pub const DEFAULT_GOAL: i64 = 1234;

/// The active level's index.
#[derive(Clone, Copy, Debug, PartialEq, Eq, Structural)]
pub struct CurrentLevel(pub u32);

/// The player's balance. It may go negative, which loses the level.
#[derive(Clone, Copy, Debug, PartialEq, Eq, Structural)]
pub struct CurrentMoney(pub i64);

/// The balance at which the level is won.
#[derive(Clone, Copy, Debug, PartialEq, Eq, Structural)]
pub struct MoneyGoal(pub i64);

/// Latched when the goal is reached; blocks re-triggering until cleared.
#[derive(Clone, Copy, Debug, PartialEq, Eq, Structural)]
pub struct LevelWon(pub bool);

/// Latched when the balance goes negative; blocks re-triggering until
/// cleared.
#[derive(Clone, Copy, Debug, PartialEq, Eq, Structural)]
pub struct LevelLost(pub bool);

/// The money ledger: how the balance decomposes into its starting value,
/// everything spent, and everything earned since the last reset. Ghost
/// bookkeeping only; it exists to state that nothing else moves money.
pub ghost struct Ledger {
    pub initial: int,
    pub spent: int,
    pub earned: int,
}

/// The process-wide simulation state the level controller owns and resets
/// on level transitions.
pub struct GameState {
    pub money: CurrentMoney,
    pub goal: MoneyGoal,
    pub level: CurrentLevel,
    pub won: LevelWon,
    pub lost: LevelLost,
    pub tool: SelectedTool,
    pub ledger: Ghost<Ledger>,
}

impl GameState {
    /// Money conservation: the balance is exactly the ledger's starting
    /// value minus everything spent plus everything earned.
    pub open spec fn wf(self) -> bool {
        self.money.0 as int == self.ledger@.initial - self.ledger@.spent + self.ledger@.earned
    }

    /// A fresh state for level `level` with balance `money` and goal
    /// `goal`: nothing spent, nothing earned, no latch, mouse tool.
    pub fn new(money: i64, goal: i64, level: u32) -> (r: GameState)
        ensures
            r == GameState::spec_new(money, goal, level),
            r.wf(),
    {
        GameState {
            money: CurrentMoney(money),
            goal: MoneyGoal(goal),
            level: CurrentLevel(level),
            won: LevelWon(false),
            lost: LevelLost(false),
            tool: SelectedTool(Tools::Mouse),
            ledger: Ghost(Ledger { initial: money as int, spent: 0, earned: 0 }),
        }
    }

    /// The value `new` returns.
    pub open spec fn spec_new(money: i64, goal: i64, level: u32) -> GameState {
        GameState {
            money: CurrentMoney(money),
            goal: MoneyGoal(goal),
            level: CurrentLevel(level),
            won: LevelWon(false),
            lost: LevelLost(false),
            tool: SelectedTool(Tools::Mouse),
            ledger: Ghost(Ledger { initial: money as int, spent: 0, earned: 0 }),
        }
    }
}

/// One level's content: the starting balance, the goal, and the entities
/// to spawn on entry.
pub struct LevelSpec {
    pub start_money: i64,
    pub goal: i64,
    pub entities: Vec<Entity>,
}

impl LevelSpec {
    /// Every entity the level spawns is a well-formed, live, level-scoped
    /// record.
    pub open spec fn wf(self) -> bool {
        forall|i: int|
            0 <= i < self.entities@.len() ==> (#[trigger] self.entities@[i]).wf()
                && self.entities@[i].alive && self.entities@[i].level_scoped
    }
}

/// The mapping from level index to level content: explicit configuration
/// data, not function storage.
pub struct LevelRegistry(pub Vec<LevelSpec>);

impl LevelRegistry {
    pub open spec fn wf(self) -> bool {
        forall|i: int| 0 <= i < self.0@.len() ==> (#[trigger] self.0@[i]).wf()
    }

    /// The starting balance of level `l`: its content's, or the default
    /// while no content is registered.
    pub open spec fn start_money_of(self, l: int) -> i64 {
        if 0 <= l < self.0@.len() {
            self.0@[l].start_money
        } else {
            DEFAULT_MONEY
        }
    }

    /// The goal of level `l`, or the default.
    pub open spec fn goal_of(self, l: int) -> i64 {
        if 0 <= l < self.0@.len() {
            self.0@[l].goal
        } else {
            DEFAULT_GOAL
        }
    }

    /// The entities level `l` spawns: none while unregistered.
    pub open spec fn entities_of(self, l: int) -> Seq<Entity> {
        if 0 <= l < self.0@.len() {
            self.0@[l].entities@
        } else {
            Seq::empty()
        }
    }
}

/// The world's records appended with copies of the level's entities.
pub open spec fn entities_appended(
    pre: Seq<Entity>, post: Seq<Entity>, spawned: Seq<Entity>,
) -> bool {
    &&& post.len() == pre.len() + spawned.len()
    &&& forall|k: int| 0 <= k < pre.len() ==> post[k] == pre[k]
    &&& forall|t: int|
        0 <= t < spawned.len() ==> (#[trigger] post[pre.len() + t]).same_components(spawned[t])
}

/// Append copies of every entity of level `l` to the world.
fn spawn_level_entities(world: &mut World, registry: &LevelRegistry, l: usize)
    requires
        old(world).wf(),
        registry.wf(),
        old(world).entities@.len() + registry.entities_of(l as int).len() <= usize::MAX,
    ensures
        final(world).wf(),
        entities_appended(old(world).entities@, final(world).entities@,
            registry.entities_of(l as int)),
{
    if l >= registry.0.len() {
        return ;
    }
    let spec = &registry.0[l];
    let n = spec.entities.len();
    let mut i: usize = 0;
    while i < n
        invariant
            world.wf(),
            registry.wf(),
            0 <= l < registry.0@.len(),
            n == registry.entities_of(l as int).len(),
            spec == &registry.0@[l as int],
            0 <= i <= n,
            world.entities@.len() == old(world).entities@.len() + i,
            old(world).entities@.len() + n <= usize::MAX,
            forall|k: int|
                0 <= k < old(world).entities@.len() ==> world.entities@[k]
                    == old(world).entities@[k],
            forall|t: int|
                0 <= t < i ==> (#[trigger] world.entities@[old(world).entities@.len() + t])
                    .same_components(registry.entities_of(l as int)[t]),
        decreases n - i,
    {
        let copy = spec.entities[i].duplicate();
        proof {
            assert(registry.0@[l as int].entities@[i as int].wf());
        }
        let ghost pre_spawn = world.entities@;
        world.spawn(copy);
        proof {
            assert forall|k: int| 0 <= k < pre_spawn.len()
                implies #[trigger] world.entities@[k] == pre_spawn[k] by {
                assert(pre_spawn.push(copy)[k] == pre_spawn[k]);
            }
        }
        i = i + 1;
    }
}

/// Enter the starting level: with content registered for the current
/// index, set its balance and goal (restarting the ledger) and spawn its
/// entities; otherwise leave everything as it stands.
pub fn load_initial_level(world: &mut World, state: &mut GameState, registry: &LevelRegistry)
    requires
        old(world).wf(),
        old(state).wf(),
        registry.wf(),
        old(world).entities@.len() + registry.entities_of(old(state).level.0 as int).len()
            <= usize::MAX,
    ensures
        final(world).wf(),
        final(state).wf(),
        old(state).level.0 < registry.0@.len() ==> {
            let l = old(state).level.0 as int;
            &&& *final(state) == (GameState {
                money: CurrentMoney(registry.start_money_of(l)),
                goal: MoneyGoal(registry.goal_of(l)),
                ledger: Ghost(Ledger {
                    initial: registry.start_money_of(l) as int,
                    spent: 0,
                    earned: 0,
                }),
                ..*old(state)
            })
            &&& entities_appended(old(world).entities@, final(world).entities@,
                registry.entities_of(l))
        },
        old(state).level.0 >= registry.0@.len() ==> {
            &&& *final(state) == *old(state)
            &&& *final(world) == *old(world)
        },
{
    let l = state.level.0 as usize;
    if l < registry.0.len() {
        let start = registry.0[l].start_money;
        let goal = registry.0[l].goal;
        state.money = CurrentMoney(start);
        state.goal = MoneyGoal(goal);
        proof {
            state.ledger@ = Ledger { initial: start as int, spent: 0, earned: 0 };
        }
        spawn_level_entities(world, registry, l);
    }
}

/// The state a transition into level `l` resets to: the level's starting
/// balance and goal (or the defaults while unregistered), no latch, the
/// mouse tool, and a fresh ledger.
pub open spec fn reset_state(registry: LevelRegistry, l: u32) -> GameState {
    GameState::spec_new(registry.start_money_of(l as int), registry.goal_of(l as int), l)
}

/// Whether this tick latches the win: the goal is reached and no latch is
/// set yet.
pub open spec fn latch_won(st: GameState) -> bool {
    st.money.0 >= st.goal.0 && !st.won.0 && !st.lost.0
}

/// The state after the win/lose evaluation: the win latches first; the
/// loss only latches when the balance is negative and the win did not
/// latch.
pub open spec fn latched(st: GameState) -> GameState {
    let w = st.won.0 || latch_won(st);
    GameState {
        won: LevelWon(w),
        lost: LevelLost(st.lost.0 || (st.money.0 < 0 && !w && !st.lost.0)),
        ..st
    }
}

/// The world with every level-scoped record destroyed.
pub open spec fn level_cleared(s: Seq<Entity>) -> Seq<Entity> {
    Seq::new(s.len(), |i: int| if s[i].level_scoped {
        Entity { alive: false, ..s[i] }
    } else {
        s[i]
    })
}

/// Evaluate win and loss, and advance on a key press.
///
/// Each tick: reaching the goal latches the win, a negative balance
/// latches the loss, and neither re-triggers while a latch stands. While
/// a latch stands, any key press advances: a win moves to the next level
/// index, a loss stays; either way every level-scoped entity is
/// destroyed, the state is reset — balance and goal from the new level's
/// content or the defaults, mouse tool, a fresh ledger — and the new
/// level's entities are spawned. An unregistered index simply spawns
/// nothing: the game is complete, not in error.
pub fn level_management(
    world: &mut World, state: &mut GameState, registry: &LevelRegistry, any_key_pressed: bool,
)
    requires
        old(world).wf(),
        old(state).wf(),
        registry.wf(),
        old(state).level.0 < u32::MAX,
        old(world).entities@.len() + registry.entities_of(old(state).level.0 as int).len()
            <= usize::MAX,
        old(world).entities@.len() + registry.entities_of(old(state).level.0 as int + 1).len()
            <= usize::MAX,
    ensures
        final(world).wf(),
        final(state).wf(),
        !((latched(*old(state)).won.0 || latched(*old(state)).lost.0) && any_key_pressed) ==> {
            &&& *final(state) == latched(*old(state))
            &&& *final(world) == *old(world)
        },
        ((latched(*old(state)).won.0 || latched(*old(state)).lost.0) && any_key_pressed) ==> ({
            let nl = if latched(*old(state)).won.0 {
                old(state).level.0 + 1
            } else {
                old(state).level.0 as int
            };
            &&& *final(state) == reset_state(*registry, nl as u32)
            &&& entities_appended(level_cleared(old(world).entities@), final(world).entities@,
                registry.entities_of(nl))
        }),
{
    if state.money.0 >= state.goal.0 && !state.won.0 && !state.lost.0 {
        state.won = LevelWon(true);
    }
    if state.money.0 < 0 && !state.won.0 && !state.lost.0 {
        state.lost = LevelLost(true);
    }
    proof {
        assert(*state == latched(*old(state)));
    }
    if (state.won.0 || state.lost.0) && any_key_pressed {
        let next_level: u32 = if state.won.0 {
            state.level.0 + 1
        } else {
            state.level.0
        };
        let n = world.entities.len();
        let mut i: usize = 0;
        while i < n
            invariant
                0 <= i <= n,
                n == old(world).entities@.len(),
                world.entities@.len() == n,
                forall|k: int|
                    0 <= k < i ==> world.entities@[k] == level_cleared(old(world).entities@)[k],
                forall|k: int| i <= k < n ==> world.entities@[k] == old(world).entities@[k],
                forall|k: int| 0 <= k < n ==> (#[trigger] world.entities@[k]).wf(),
                forall|k: int| 0 <= k < n ==> (#[trigger] old(world).entities@[k]).wf(),
            decreases n - i,
        {
            let scoped = world.entities[i].level_scoped;
            if scoped {
                world.despawn(i);
            }
            i = i + 1;
        }
        let l = next_level as usize;
        let start = if l < registry.0.len() {
            registry.0[l].start_money
        } else {
            DEFAULT_MONEY
        };
        let goal = if l < registry.0.len() {
            registry.0[l].goal
        } else {
            DEFAULT_GOAL
        };
        let fresh = GameState::new(start, goal, next_level);
        state.money = fresh.money;
        state.goal = fresh.goal;
        state.level = fresh.level;
        state.won = fresh.won;
        state.lost = fresh.lost;
        state.tool = fresh.tool;
        proof {
            state.ledger@ = Ledger { initial: start as int, spent: 0, earned: 0 };
        }
        spawn_level_entities(world, registry, l);
    }
}

} // verus!
