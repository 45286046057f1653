//! The render-facing description of an entity: which sprite stands for it
//! and at which size. The presentation layer consumes these values; the
//! simulation reads the size for hit-testing and machine footprints.

use vstd::prelude::*;
use crate::item::Item;
use crate::vec2::{Vec2i, dist_sq, dist_sq_i128};
use crate::world::{Entity, World};

verus! {

/// What an entity looks like. The variant also fixes the rendered extent
/// that hit-testing uses.
#[derive(Clone, Copy, Debug, PartialEq, Eq, Structural)]
pub enum SpriteView {
    InputPipe,
    OutputPipe,
    CursorPointLeft,
    CursorPointRight,
    BackgroundIndustry,
    BackgroundIndustry2,
    BackgroundCity,
    BackgroundCity2,
    ButtonMouse,
    ButtonDraw,
    ArrowLeft,
    OneToOneCrafter,
    Duplicator,
    MachineWindow,
    Item { item: Item, ui_element: bool },
}

impl SpriteView {
    /// Path of the sprite.
    pub fn get_sprite(&self) -> (r: &'static str)
        ensures
            r@ == self.spec_sprite(),
    {
        match self {
            SpriteView::InputPipe => "input_pipe.png",
            SpriteView::OutputPipe => "output_pipe.png",
            SpriteView::BackgroundIndustry => "Backgrounds/industry.png",
            SpriteView::BackgroundIndustry2 => "Backgrounds/industry2.png",
            SpriteView::BackgroundCity => "Backgrounds/city.png",
            SpriteView::BackgroundCity2 => "Backgrounds/city2.png",
            SpriteView::CursorPointLeft => "UI/cursor_point_left.png",
            SpriteView::CursorPointRight => "UI/cursor_point_right.png",
            SpriteView::ButtonMouse => "UI/button_mouse.png",
            SpriteView::ButtonDraw => "UI/button_draw.png",
            SpriteView::ArrowLeft => "UI/arrow_left.png",
            SpriteView::OneToOneCrafter => "Machines/1_1_crafter.png",
            SpriteView::Duplicator => "Machines/duplicator.png",
            SpriteView::MachineWindow => "UI/machine_window_empty.png",
            SpriteView::Item { item, ui_element: _ } => item.get_sprite(),
        }
    }

    /// Short display name.
    pub fn get_name(&self) -> (r: &'static str)
        ensures
            r@ == self.spec_name(),
    {
        match self {
            SpriteView::InputPipe => "pipe",
            SpriteView::OutputPipe => "pipe",
            SpriteView::CursorPointLeft => "pointer",
            SpriteView::CursorPointRight => "pointer",
            SpriteView::BackgroundIndustry => "Background",
            SpriteView::BackgroundIndustry2 => "Background",
            SpriteView::BackgroundCity => "Background",
            SpriteView::BackgroundCity2 => "Background",
            SpriteView::ButtonMouse => "mouse",
            SpriteView::ButtonDraw => "draw",
            SpriteView::ArrowLeft => "arrow",
            SpriteView::OneToOneCrafter => "crafter",
            SpriteView::Duplicator => "duplicator",
            SpriteView::MachineWindow => "window",
            SpriteView::Item { item, ui_element: _ } => item.get_name(),
        }
    }

    /// Rendered extent in world units: width, then height. Hit-testing
    /// centres a box of this size on the entity's position.
    pub fn get_scale(&self) -> (r: Vec2i)
        ensures
            r == self.spec_scale(),
            0 < r.x <= 1600,
            0 < r.y <= 1600,
    {
        match self {
            SpriteView::InputPipe => Vec2i { x: 150, y: 100 },
            SpriteView::OutputPipe => Vec2i { x: 200, y: 200 },
            SpriteView::CursorPointLeft => Vec2i { x: 100, y: 100 },
            SpriteView::CursorPointRight => Vec2i { x: 100, y: 100 },
            SpriteView::BackgroundIndustry => Vec2i { x: 1600, y: 900 },
            SpriteView::BackgroundIndustry2 => Vec2i { x: 1600, y: 900 },
            SpriteView::BackgroundCity => Vec2i { x: 1600, y: 900 },
            SpriteView::BackgroundCity2 => Vec2i { x: 1600, y: 900 },
            SpriteView::ButtonMouse => Vec2i { x: 100, y: 100 },
            SpriteView::ButtonDraw => Vec2i { x: 100, y: 100 },
            SpriteView::ArrowLeft => Vec2i { x: 70, y: 70 },
            SpriteView::OneToOneCrafter => Vec2i { x: 200, y: 200 },
            SpriteView::Duplicator => Vec2i { x: 400, y: 200 },
            SpriteView::MachineWindow => Vec2i { x: 320, y: 128 },
            SpriteView::Item { item: _, ui_element } => {
                if *ui_element {
                    Vec2i { x: 64, y: 64 }
                } else {
                    Vec2i { x: 32, y: 32 }
                }
            },
        }
    }

    /// The characters `get_sprite` returns.
    pub open spec fn spec_sprite(&self) -> Seq<char> {
        match self {
            SpriteView::InputPipe => "input_pipe.png"@,
            SpriteView::OutputPipe => "output_pipe.png"@,
            SpriteView::BackgroundIndustry => "Backgrounds/industry.png"@,
            SpriteView::BackgroundIndustry2 => "Backgrounds/industry2.png"@,
            SpriteView::BackgroundCity => "Backgrounds/city.png"@,
            SpriteView::BackgroundCity2 => "Backgrounds/city2.png"@,
            SpriteView::CursorPointLeft => "UI/cursor_point_left.png"@,
            SpriteView::CursorPointRight => "UI/cursor_point_right.png"@,
            SpriteView::ButtonMouse => "UI/button_mouse.png"@,
            SpriteView::ButtonDraw => "UI/button_draw.png"@,
            SpriteView::ArrowLeft => "UI/arrow_left.png"@,
            SpriteView::OneToOneCrafter => "Machines/1_1_crafter.png"@,
            SpriteView::Duplicator => "Machines/duplicator.png"@,
            SpriteView::MachineWindow => "UI/machine_window_empty.png"@,
            SpriteView::Item { item, ui_element: _ } => item.spec_sprite(),
        }
    }

    /// The characters `get_name` returns.
    pub open spec fn spec_name(&self) -> Seq<char> {
        match self {
            SpriteView::InputPipe => "pipe"@,
            SpriteView::OutputPipe => "pipe"@,
            SpriteView::CursorPointLeft => "pointer"@,
            SpriteView::CursorPointRight => "pointer"@,
            SpriteView::BackgroundIndustry => "Background"@,
            SpriteView::BackgroundIndustry2 => "Background"@,
            SpriteView::BackgroundCity => "Background"@,
            SpriteView::BackgroundCity2 => "Background"@,
            SpriteView::ButtonMouse => "mouse"@,
            SpriteView::ButtonDraw => "draw"@,
            SpriteView::ArrowLeft => "arrow"@,
            SpriteView::OneToOneCrafter => "crafter"@,
            SpriteView::Duplicator => "duplicator"@,
            SpriteView::MachineWindow => "window"@,
            SpriteView::Item { item, ui_element: _ } => item.spec_name(),
        }
    }

    /// The value `get_scale` returns.
    pub open spec fn spec_scale(&self) -> Vec2i {
        match self {
            SpriteView::InputPipe => Vec2i { x: 150, y: 100 },
            SpriteView::OutputPipe => Vec2i { x: 200, y: 200 },
            SpriteView::CursorPointLeft => Vec2i { x: 100, y: 100 },
            SpriteView::CursorPointRight => Vec2i { x: 100, y: 100 },
            SpriteView::BackgroundIndustry => Vec2i { x: 1600, y: 900 },
            SpriteView::BackgroundIndustry2 => Vec2i { x: 1600, y: 900 },
            SpriteView::BackgroundCity => Vec2i { x: 1600, y: 900 },
            SpriteView::BackgroundCity2 => Vec2i { x: 1600, y: 900 },
            SpriteView::ButtonMouse => Vec2i { x: 100, y: 100 },
            SpriteView::ButtonDraw => Vec2i { x: 100, y: 100 },
            SpriteView::ArrowLeft => Vec2i { x: 70, y: 70 },
            SpriteView::OneToOneCrafter => Vec2i { x: 200, y: 200 },
            SpriteView::Duplicator => Vec2i { x: 400, y: 200 },
            SpriteView::MachineWindow => Vec2i { x: 320, y: 128 },
            SpriteView::Item { item: _, ui_element } => {
                if *ui_element {
                    Vec2i { x: 64, y: 64 }
                } else {
                    Vec2i { x: 32, y: 32 }
                }
            },
        }
    }
}

/// The positioned record has fallen out of the playable space: more than
/// a thousand units from the origin.
pub open spec fn escaped(e: Entity) -> bool {
    e.alive && e.pos is Some && dist_sq((e.pos->0).0, Vec2i { x: 0, y: 0 }) > 1_000_000
}

/// Destroy every positioned entity that has fallen more than a thousand
/// units from the origin, to bound the live object count.
pub fn remove_escaped_items(world: &mut World)
    requires
        old(world).wf(),
    ensures
        final(world).wf(),
        final(world).entities@.len() == old(world).entities@.len(),
        forall|k: int|
            0 <= k < old(world).entities@.len() ==> final(world).entities@[k] == ({
                let e = #[trigger] old(world).entities@[k];
                if escaped(e) {
                    Entity { alive: false, ..e }
                } else {
                    e
                }
            }),
{
    let ghost s0 = old(world).entities@;
    let n = world.entities.len();
    let mut i: usize = 0;
    while i < n
        invariant
            s0 == old(world).entities@,
            n == s0.len(),
            world.entities@.len() == n,
            0 <= i <= n,
            forall|k: int|
                0 <= k < i ==> world.entities@[k] == ({
                    let e = #[trigger] s0[k];
                    if escaped(e) {
                        Entity { alive: false, ..e }
                    } else {
                        e
                    }
                }),
            forall|k: int| i <= k < n ==> world.entities@[k] == s0[k],
            forall|k: int| 0 <= k < n ==> (#[trigger] world.entities@[k]).wf(),
            forall|k: int| 0 <= k < n ==> (#[trigger] s0[k]).wf(),
        decreases n - i,
    {
        let alive = world.entities[i].alive;
        let poso = world.entities[i].pos;
        if alive {
            if let Some(p) = poso {
                proof {
                    assert(s0[i as int].wf());
                }
                let d = dist_sq_i128(p.0, Vec2i { x: 0, y: 0 });
                if d > 1_000_000 {
                    world.despawn(i);
                }
            }
        }
        i = i + 1;
    }
}

} // verus!
