//! The world store: one growable table of entity records. An entity is an
//! index into the table; components are optional fields of its record.
//! Despawning clears the `alive` flag and leaves the slot in place, so
//! indices stay stable for the whole level.

use vstd::prelude::*;
use crate::input::{Clickable, DragAble};
use crate::item::Item;
use crate::machines::{FollowWithOffset, Machine};
use crate::physics::{CirclePhysics, ColliderCollection, Position, Velocity};
use crate::pipes::{InputPipe, OutputPipe};
use crate::ui::{MachineWindow, Tools};
use crate::vec2::in_world;
use crate::view::SpriteView;

verus! {

/// Index of an entity record in the world table.
pub type EntityId = usize;

/// One entity record: every component the simulation knows, each optional.
#[derive(Clone, Debug)]
pub struct Entity {
    pub alive: bool,
    /// Destroyed in bulk on a level transition.
    pub level_scoped: bool,
    pub pos: Option<Position>,
    pub vel: Option<Velocity>,
    pub circle: Option<CirclePhysics>,
    pub colliders: Option<ColliderCollection>,
    pub item: Option<Item>,
    pub input_pipe: Option<InputPipe>,
    pub output_pipe: Option<OutputPipe>,
    pub machine: Option<Machine>,
    pub machine_window: Option<MachineWindow>,
    pub tool: Option<Tools>,
    pub view: Option<SpriteView>,
    pub clickable: Option<Clickable>,
    pub draggable: Option<DragAble>,
    pub follow: Option<FollowWithOffset>,
    /// Set whenever a system writes the position this tick; cleared when
    /// the presentation layer collects the change.
    pub position_changed: bool,
}

impl Entity {
    /// A live, level-scoped record with no components attached.
    pub fn blank() -> (r: Entity)
        ensures
            r == Entity::spec_blank(),
    {
        Entity {
            alive: true,
            level_scoped: true,
            pos: None,
            vel: None,
            circle: None,
            colliders: None,
            item: None,
            input_pipe: None,
            output_pipe: None,
            machine: None,
            machine_window: None,
            tool: None,
            view: None,
            clickable: None,
            draggable: None,
            follow: None,
            position_changed: false,
        }
    }

    /// The value `blank` returns.
    pub open spec fn spec_blank() -> Entity {
        Entity {
            alive: true,
            level_scoped: true,
            pos: None,
            vel: None,
            circle: None,
            colliders: None,
            item: None,
            input_pipe: None,
            output_pipe: None,
            machine: None,
            machine_window: None,
            tool: None,
            view: None,
            clickable: None,
            draggable: None,
            follow: None,
            position_changed: false,
        }
    }

    /// Every attached component is within the model limits.
    pub open spec fn wf(self) -> bool {
        &&& match self.pos {
            Some(p) => in_world(p.0),
            None => true,
        }
        &&& match self.vel {
            Some(v) => in_world(v.0),
            None => true,
        }
        &&& match self.circle {
            Some(c) => c.wf(),
            None => true,
        }
        &&& match self.colliders {
            Some(c) => c.wf(),
            None => true,
        }
        &&& match self.input_pipe {
            Some(p) => p.wf(),
            None => true,
        }
        &&& match self.output_pipe {
            Some(p) => p.wf(),
            None => true,
        }
        &&& match self.machine {
            Some(m) => 0 <= m.spec_cost() <= crate::COST_LIMIT,
            None => true,
        }
        &&& match self.machine_window {
            Some(w) => 0 <= w.0.spec_cost() <= crate::COST_LIMIT,
            None => true,
        }
    }

    /// The record is a live item entity: an item body that physics moves
    /// and pipes or machines may consume.
    pub open spec fn is_live_item(self) -> bool {
        self.alive && self.item is Some && self.pos is Some
    }

    /// The records agree on every component; a collider collection may be
    /// a different vector with the same contents.
    pub open spec fn same_components(self, other: Entity) -> bool {
        &&& self == (Entity { colliders: self.colliders, ..other })
        &&& (self.colliders is Some <==> other.colliders is Some)
        &&& self.colliders is Some ==> (self.colliders->0).0@ =~= (other.colliders->0).0@
    }

    /// An exact copy of the record, component for component.
    pub fn duplicate(&self) -> (r: Entity)
        ensures
            r.same_components(*self),
            r.wf() <==> self.wf(),
    {
        let colliders = match &self.colliders {
            Some(c) => {
                let n = c.0.len();
                let mut v: Vec<crate::physics::RectanglePhysics> = Vec::new();
                let mut i: usize = 0;
                while i < n
                    invariant
                        0 <= i <= n,
                        n == c.0@.len(),
                        v@ =~= c.0@.take(i as int),
                    decreases n - i,
                {
                    v.push(c.0[i]);
                    proof {
                        assert(v@ =~= c.0@.take(i as int + 1));
                    }
                    i = i + 1;
                }
                proof {
                    assert(c.0@.take(n as int) =~= c.0@);
                }
                Some(ColliderCollection(v))
            },
            None => None,
        };
        Entity {
            alive: self.alive,
            level_scoped: self.level_scoped,
            pos: self.pos,
            vel: self.vel,
            circle: self.circle,
            colliders,
            item: self.item,
            input_pipe: self.input_pipe,
            output_pipe: self.output_pipe,
            machine: self.machine,
            machine_window: self.machine_window,
            tool: self.tool,
            view: self.view,
            clickable: self.clickable,
            draggable: self.draggable,
            follow: self.follow,
            position_changed: self.position_changed,
        }
    }
}

/// The entity table.
#[derive(Clone, Debug)]
pub struct World {
    pub entities: Vec<Entity>,
}

impl World {
    /// An empty world.
    pub fn new() -> (r: World)
        ensures
            r.entities@ =~= Seq::<Entity>::empty(),
    {
        World { entities: Vec::new() }
    }

    /// Every record is within the model limits.
    pub open spec fn wf(self) -> bool {
        forall|i: int| 0 <= i < self.entities@.len() ==> (#[trigger] self.entities@[i]).wf()
    }

    /// Number of records, live or not.
    pub fn len(&self) -> (r: usize)
        ensures
            r == self.entities@.len(),
    {
        self.entities.len()
    }

    /// Append a record; its index is the new entity's id.
    pub fn spawn(&mut self, e: Entity) -> (id: EntityId)
        requires
            e.wf(),
            old(self).entities@.len() < usize::MAX,
        ensures
            final(self).entities@ == old(self).entities@.push(e),
            id == old(self).entities@.len(),
            old(self).wf() ==> final(self).wf(),
    {
        let id = self.entities.len();
        self.entities.push(e);
        proof {
            assert forall|i: int| 0 <= i < self.entities@.len() && old(self).wf()
                implies (#[trigger] self.entities@[i]).wf() by {
                if i < old(self).entities@.len() {
                    assert(self.entities@[i] == old(self).entities@[i]);
                }
            }
        }
        id
    }

    /// Mark a record dead. The slot stays, so other ids are unchanged.
    pub fn despawn(&mut self, id: EntityId)
        requires
            id < old(self).entities@.len(),
        ensures
            final(self).entities@.len() == old(self).entities@.len(),
            final(self).entities@[id as int]
                == (Entity { alive: false, ..old(self).entities@[id as int] }),
            forall|i: int|
                0 <= i < old(self).entities@.len() && i != id ==> final(self).entities@[i]
                    == old(self).entities@[i],
            old(self).wf() ==> final(self).wf(),
    {
        let e = &mut self.entities[id];
        e.alive = false;
    }
}

} // verus!
