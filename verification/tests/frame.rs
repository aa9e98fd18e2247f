use radiance::frame::{
    auto_dj_slot_action, autosave_tick, bg_target_needs_rebuild, ui_bg_layers, AutoDjSlotAction, LibraryAnswer,
    LibraryPanel,
};

#[test]
fn autosave_countdown() {
    assert_eq!(autosave_tick(0), (true, 600));
    assert_eq!(autosave_tick(600), (false, 599));
    assert_eq!(autosave_tick(1), (false, 0));
    // One save every 601 frames.
    let mut timer = 0;
    let mut saves = 0;
    for _ in 0..1202 {
        let (save, next) = autosave_tick(timer);
        if save {
            saves += 1;
        }
        timer = next;
    }
    assert_eq!(saves, 2);
}

#[test]
fn auto_dj_slots() {
    assert_eq!(auto_dj_slot_action(true, false), AutoDjSlotAction::Create);
    assert_eq!(auto_dj_slot_action(false, true), AutoDjSlotAction::Drop);
    assert_eq!(auto_dj_slot_action(true, true), AutoDjSlotAction::Keep);
    assert_eq!(auto_dj_slot_action(false, false), AutoDjSlotAction::Keep);
}

#[test]
fn bg_render_target_size() {
    assert!(bg_target_needs_rebuild(None, 800, 600));
    assert!(!bg_target_needs_rebuild(Some((800, 600)), 800, 600));
    assert!(bg_target_needs_rebuild(Some((800, 600)), 801, 600));
}

#[test]
fn library_panel_keys() {
    let mut panel = LibraryPanel::new();
    panel.key_escape();
    assert_eq!(panel, LibraryPanel { expanded: false, newly_opened: false });
    panel.key_a();
    assert_eq!(panel, LibraryPanel { expanded: true, newly_opened: true });
    panel.answered(LibraryAnswer::Nothing);
    assert_eq!(panel, LibraryPanel { expanded: true, newly_opened: false });
    panel.key_a();
    assert_eq!(panel, LibraryPanel { expanded: true, newly_opened: false });
    panel.answered(LibraryAnswer::Added);
    assert!(!panel.expanded);
    panel.toggle();
    assert_eq!(panel, LibraryPanel { expanded: true, newly_opened: true });
    panel.answered(LibraryAnswer::Closed);
    assert!(!panel.expanded);
    panel.toggle();
    panel.toggle();
    assert_eq!(panel, LibraryPanel { expanded: false, newly_opened: false });
    panel.key_a();
    panel.key_escape();
    assert_eq!(panel, LibraryPanel { expanded: false, newly_opened: false });
}

#[test]
fn ui_background_layers_by_node_id() {
    let results = vec![(30u128, true, "c"), (10u128, false, "a"), (20u128, true, "b"), (5u128, true, "z")];
    let layers = ui_bg_layers(results);
    let ids: Vec<u128> = layers.iter().map(|l| l.node_id).collect();
    let textures: Vec<&str> = layers.iter().map(|l| l.texture).collect();
    assert_eq!(ids, vec![5, 20, 30]);
    assert_eq!(textures, vec!["z", "b", "c"]);
    assert!(ui_bg_layers::<u8>(vec![(1, false, 0)]).is_empty());
}

#[test]
fn autosave_countdown_from_mid_cycle() {
    // From 5, the saves come after 5 frames and then every 601.
    let mut timer = 5;
    let mut saving_frames = Vec::new();
    for frame in 0..1300usize {
        let (save, next) = autosave_tick(timer);
        assert!(next <= 600);
        if save {
            saving_frames.push(frame);
        }
        timer = next;
    }
    assert_eq!(saving_frames, vec![5, 606, 1207]);
}
