use omasprite::model::{play_frame, play_keys};
use omasprite::model::{creator_levels, CreatorMode, MapStyle, Project, Tool, Workspace};

#[test]
fn workstation_uses_short_picotron_labels() {
    let labels = [
        Workspace::Home.label(),
        Workspace::Sprite.label(),
        Workspace::World.label(),
        Workspace::Logic.label(),
        Workspace::Character.label(),
        Workspace::Effects.label(),
    ];
    assert_eq!(labels, ["HOME", "GFX", "MAP", "LOGIC", "CHARACTER", "FX"]);
}

#[test]
fn other_labels_and_details() {
    assert_eq!(MapStyle::Town.label(), "TOWN MAP");
    assert_eq!(CreatorMode::Advanced.label(), "Advanced");
    assert_eq!(Tool::Path.label(), "Path / collision");
    assert_eq!(
        Workspace::Effects.detail(),
        "Shape light, shadow, weather, and particles"
    );
    let p = Project::default();
    assert_eq!(p.name, "little-adventure");
    assert_eq!(p.path, "~/Games/little-adventure");
    assert_eq!(p.level, 3);
}

#[test]
fn creator_levels_unlock_in_order() {
    let levels = creator_levels();
    let numbers: Vec<u8> = levels.iter().map(|l| l.level).collect();
    assert_eq!(numbers, vec![1, 2, 3, 5, 10, 20]);
    assert_eq!(levels[0].title, "MAKE A SPRITE");
    assert_eq!(levels[5].unlocks, "Visual logic, Lua, plugins");
}

#[test]
fn play_keys_toggle_start_and_stop() {
    assert_eq!(play_keys(false, true, false, false), (true, true));
    assert_eq!(play_keys(true, true, false, false), (false, false));
    assert_eq!(play_keys(false, true, true, false), (false, false));
    assert_eq!(play_keys(true, false, false, true), (false, false));
    assert_eq!(play_keys(false, true, false, true), (false, true));
    assert_eq!(play_keys(true, false, false, false), (true, false));
}

#[test]
fn play_frames_count_round_while_playing() {
    assert_eq!(play_frame(true, 23), 24);
    assert_eq!(play_frame(true, 59), 0);
    assert_eq!(play_frame(false, 23), 23);
}
