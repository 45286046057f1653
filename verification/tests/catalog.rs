use assembly_anarchy::item::Item;
use assembly_anarchy::machines::Machine;
use assembly_anarchy::vec2::Vec2i;
use assembly_anarchy::view::SpriteView;

#[test]
fn items_name_their_sprites() {
    assert_eq!(Item::Bolt.get_sprite(), "Items/bolt.png");
    assert_eq!(Item::Steel.get_sprite(), "Items/steel.png");
    assert_eq!(Item::Gold.get_sprite(), "Items/gold.png");
    assert_eq!(Item::Jewelry.get_sprite(), "Items/jewelry.png");
    assert_eq!(Item::Iron.get_sprite(), "Items/iron.png");
    assert_eq!(Item::Wrench.get_sprite(), "Items/wrench.png");
    assert_eq!(Item::Crystal.get_sprite(), "Items/crystal.png");
}

#[test]
fn items_have_display_names() {
    assert_eq!(Item::Bolt.get_name(), "bolts");
    assert_eq!(Item::Steel.get_name(), "steel");
    assert_eq!(Item::Jewelry.get_name(), "jewelry");
    assert_eq!(Item::Crystal.get_name(), "crystal");
}

#[test]
fn machines_describe_themselves() {
    let crafter = Machine::OneToOneCrafter { input: Item::Steel, output: Item::Bolt, cost: 100 };
    assert_eq!(crafter.get_description(), "crafts steel into bolts");
    assert_eq!(crafter.get_name(), "Crafter");
    assert_eq!(crafter.get_cost(), 100);
    assert_eq!(crafter.get_sprite_view(), SpriteView::OneToOneCrafter);
    let dup = Machine::Duplicator { cost: 200 };
    assert_eq!(dup.get_description(), "duplicates items");
    assert_eq!(dup.get_name(), "Duplicator");
    assert_eq!(dup.get_cost(), 200);
    assert_eq!(dup.get_sprite_view(), SpriteView::Duplicator);
}

#[test]
fn sprites_know_their_paths_names_and_sizes() {
    assert_eq!(SpriteView::InputPipe.get_sprite(), "input_pipe.png");
    assert_eq!(SpriteView::OutputPipe.get_sprite(), "output_pipe.png");
    assert_eq!(SpriteView::MachineWindow.get_sprite(), "UI/machine_window_empty.png");
    assert_eq!(SpriteView::OneToOneCrafter.get_sprite(), "Machines/1_1_crafter.png");
    assert_eq!(SpriteView::InputPipe.get_name(), "pipe");
    assert_eq!(SpriteView::BackgroundCity.get_name(), "Background");
    assert_eq!(SpriteView::Duplicator.get_name(), "duplicator");
    assert_eq!(SpriteView::InputPipe.get_scale(), Vec2i { x: 150, y: 100 });
    assert_eq!(SpriteView::OutputPipe.get_scale(), Vec2i { x: 200, y: 200 });
    assert_eq!(SpriteView::Duplicator.get_scale(), Vec2i { x: 400, y: 200 });
    assert_eq!(SpriteView::BackgroundIndustry.get_scale(), Vec2i { x: 1600, y: 900 });
    let ui_item = SpriteView::Item { item: Item::Gold, ui_element: true };
    let world_item = SpriteView::Item { item: Item::Gold, ui_element: false };
    assert_eq!(ui_item.get_scale(), Vec2i { x: 64, y: 64 });
    assert_eq!(world_item.get_scale(), Vec2i { x: 32, y: 32 });
    assert_eq!(world_item.get_sprite(), "Items/gold.png");
    assert_eq!(world_item.get_name(), "gold");
}
