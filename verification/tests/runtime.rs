use omasprite::names::NameMap;
use omasprite::runtime::{Portal, Runtime, Save};
use omasprite::world::Scene;
use serde_json::Value;

fn one(s: Scene) -> NameMap<Scene> {
    let mut m = NameMap::new();
    m.insert("main".to_string(), s);
    m
}

fn save_to_json(s: &Save) -> String {
    let mut m = serde_json::Map::new();
    m.insert("version".into(), Value::from(s.version));
    m.insert("map".into(), Value::from(s.map.clone()));
    m.insert(
        "position".into(),
        Value::Array(vec![Value::from(s.position[0]), Value::from(s.position[1])]),
    );
    m.insert("completed".into(), Value::from(s.completed));
    serde_json::to_string(&Value::Object(m)).unwrap()
}

fn save_from_json(text: &str) -> Save {
    let v: Value = serde_json::from_str(text).unwrap();
    Save {
        version: v["version"].as_u64().unwrap() as u32,
        map: v["map"].as_str().unwrap().to_string(),
        position: [
            v["position"][0].as_u64().unwrap() as usize,
            v["position"][1].as_u64().unwrap() as usize,
        ],
        completed: v["completed"].as_bool().unwrap(),
    }
}

#[test]
fn dialogue_blocks_movement_and_advances() {
    let s = Scene {
        spawn: [8, 8],
        dialogue: "Hello|Goodbye".into(),
        ..Default::default()
    };
    let mut r = Runtime::new(one(s), "main").unwrap();
    r.interact();
    assert_eq!(r.line(), Some("Hello"));
    assert!(!r.step(1, 0));
    r.interact();
    assert_eq!(r.line(), Some("Goodbye"));
    r.interact();
    assert!(r.step(1, 0));
}

#[test]
fn transition_objective_save_restore() {
    let mut a = Scene::default();
    a.portals.push(Portal {
        at: [9, 9],
        map: "path".into(),
        spawn: [2, 2],
    });
    let b = Scene {
        objective: Some([3, 2]),
        ..Default::default()
    };
    let mut maps = NameMap::new();
    maps.insert("main".to_string(), a.clone());
    maps.insert("path".to_string(), b.clone());
    let mut r = Runtime::new(maps, "main").unwrap();
    assert!(r.step(1, 0));
    assert_eq!(r.state.map, "path");
    assert!(r.step(1, 0));
    assert!(r.state.completed);
    let save: Save = save_from_json(&save_to_json(&r.state));
    let mut maps = NameMap::new();
    maps.insert("main".to_string(), a);
    maps.insert("path".to_string(), b);
    let mut fresh = Runtime::new(maps, "main").unwrap();
    fresh.restore(save).unwrap();
    assert_eq!(fresh.state, r.state);
}

#[test]
fn collision_and_boundary() {
    let mut s = Scene {
        spawn: [0, 0],
        ..Default::default()
    };
    s.tiles[1] = 4;
    let mut r = Runtime::new(one(s), "main").unwrap();
    assert!(!r.step(-1, 0));
    assert!(!r.step(1, 0));
    assert!(r.step(0, 1));
}

#[test]
fn authored_collision_layer_blocks_walkable_tile() {
    let mut s = Scene::default();
    s.collision[9 * 16 + 9] = true;
    let mut r = Runtime::new(one(s), "main").unwrap();
    assert!(!r.step(1, 0));
}

#[test]
fn multiple_npcs_are_blocking_and_interactable() {
    let mut scene = Scene::default();
    scene.npcs = vec![[8, 7], [10, 9]];
    scene.npc = [8, 7];
    let mut runtime = Runtime::new(one(scene), "main").unwrap();
    assert!(runtime.step(0, -1));
    assert!(runtime.step(1, 0));
    assert!(runtime.step(0, 1));
    assert!(!runtime.step(1, 0));
    runtime.interact();
    assert!(runtime.line().is_some());
}

#[test]
fn start_errors_come_in_map_order() {
    let mut maps = NameMap::new();
    let mut broken = Scene::default();
    broken.version = 3;
    maps.insert("b".to_string(), broken);
    let mut a = Scene::default();
    a.portals.push(Portal {
        at: [1, 1],
        map: "nowhere".into(),
        spawn: [0, 0],
    });
    maps.insert("a".to_string(), a);
    assert_eq!(
        Runtime::new(maps, "a").err(),
        Some("Portal destination map missing".to_string())
    );
    let mut a = Scene::default();
    a.portals.push(Portal {
        at: [1, 1],
        map: "a".into(),
        spawn: [1, 1],
    });
    let mut maps = NameMap::new();
    maps.insert("a".to_string(), a);
    assert_eq!(
        Runtime::new(maps, "a").err(),
        Some("Portal destination is blocked".to_string())
    );
    assert_eq!(
        Runtime::new(one(Scene::default()), "lodge").err(),
        Some("Entry map missing".to_string())
    );
    let s = Scene {
        spawn: [8, 7],
        ..Default::default()
    };
    assert_eq!(
        Runtime::new(one(s), "main").err(),
        Some("Player spawn is blocked".to_string())
    );
    let mut bad = Scene::default();
    bad.version = 3;
    assert_eq!(
        Runtime::new(one(bad), "main").err(),
        Some("Invalid scene data".to_string())
    );
}

#[test]
fn steps_turn_the_player_and_log_events() {
    let mut s = Scene::default();
    s.objective = Some([8, 8]);
    let mut r = Runtime::new(one(s), "main").unwrap();
    assert_eq!(r.direction, [0, 1]);
    assert!(!r.step(1, 1));
    assert_eq!(r.direction, [0, 1]);
    assert!(r.step(0, -1));
    assert_eq!(r.direction, [0, -1]);
    assert!(r.state.completed);
    assert_eq!(r.log, vec!["Game started".to_string(), "Objective completed".to_string()]);
    // A step blocked by the NPC still turns the player.
    assert!(!r.step(0, -1));
    assert_eq!(r.direction, [0, -1]);
    assert_eq!(r.state.position, [8, 8]);
}

#[test]
fn height_steps_of_more_than_one_block() {
    let mut s = Scene::default();
    s.heights[9 * 16 + 9] = 2;
    let mut r = Runtime::new(one(s.clone()), "main").unwrap();
    assert!(!r.step(1, 0));
    s.heights[9 * 16 + 9] = 1;
    let mut r = Runtime::new(one(s), "main").unwrap();
    assert!(r.step(1, 0));
}

#[test]
fn restore_checks_map_version_and_tile() {
    let mut r = Runtime::new(one(Scene::default()), "main").unwrap();
    let save = Save {
        version: 1,
        map: "cellar".into(),
        position: [8, 9],
        completed: false,
    };
    assert_eq!(
        r.restore(save),
        Err("Save references unknown map".to_string())
    );
    let save = Save {
        version: 2,
        map: "main".into(),
        position: [8, 9],
        completed: false,
    };
    assert_eq!(
        r.restore(save),
        Err("Invalid game save position/version".to_string())
    );
    let save = Save {
        version: 1,
        map: "main".into(),
        position: [5, 6],
        completed: false,
    };
    assert!(r.restore(save).is_err());
    let save = Save {
        version: 1,
        map: "main".into(),
        position: [0, 0],
        completed: true,
    };
    assert!(r.restore(save.clone()).is_ok());
    assert_eq!(r.state, save);
    assert!(r.scene().validate().is_ok());
}

#[test]
fn dialogue_pages_split_at_bars() {
    let s = Scene {
        spawn: [8, 8],
        dialogue: "|Second||".into(),
        ..Default::default()
    };
    let mut r = Runtime::new(one(s), "main").unwrap();
    assert_eq!(r.line(), None);
    r.interact();
    assert_eq!(r.line(), Some(""));
    r.interact();
    assert_eq!(r.line(), Some("Second"));
    r.interact();
    assert_eq!(r.line(), Some(""));
    r.interact();
    assert_eq!(r.line(), Some(""));
    r.interact();
    assert_eq!(r.line(), None);
    assert_eq!(r.page, None);
}

#[test]
fn portal_checks_come_before_later_maps_are_validated() {
    let mut a = Scene::default();
    a.portals.push(Portal {
        at: [9, 9],
        map: "b".into(),
        spawn: [0, 0],
    });
    // "b" is invalid, but its tile under the portal spawn is a tree, so the
    // portal from "a" is refused before "b" itself is checked.
    let b = Scene {
        tiles: vec![3; 256],
        collision: vec![],
        ..Default::default()
    };
    let mut maps = NameMap::new();
    maps.insert("a".to_string(), a);
    maps.insert("b".to_string(), b);
    assert_eq!(
        Runtime::new(maps, "a").err(),
        Some("Portal destination is blocked".to_string())
    );
}

fn open_map(spawn: [usize; 2], npc: [usize; 2], dialogue: &str) -> Scene {
    Scene {
        tiles: vec![0; 256],
        collision: vec![false; 256],
        heights: vec![0; 256],
        decorations: vec![],
        portals: vec![],
        objective: None,
        npcs: vec![npc],
        npc,
        spawn,
        dialogue: dialogue.into(),
        ..Default::default()
    }
}

/// The three maps of the courier route: the village, a lodge entered from
/// it, and the path east that ends at the objective.
fn courier_maps() -> NameMap<Scene> {
    let mut main = open_map([8, 9], [8, 7], "Take this parcel to the end of the path.|Mind the ice!");
    main.portals.push(Portal {
        at: [5, 7],
        map: "interior".into(),
        spawn: [5, 5],
    });
    main.portals.push(Portal {
        at: [14, 9],
        map: "path".into(),
        spawn: [1, 5],
    });
    let mut interior = open_map([5, 5], [0, 0], "Warm in here.");
    interior.portals.push(Portal {
        at: [5, 6],
        map: "main".into(),
        spawn: [5, 8],
    });
    let mut path = open_map([1, 5], [0, 0], "Almost there.");
    path.objective = Some([13, 5]);
    let mut maps = NameMap::new();
    maps.insert("main".to_string(), main);
    maps.insert("interior".to_string(), interior);
    maps.insert("path".to_string(), path);
    maps
}

#[test]
fn original_example_complete_route() {
    let mut r = Runtime::new(courier_maps(), "main").unwrap();
    assert!(r.step(0, -1));
    r.interact();
    assert!(r.line().is_some());
    r.interact();
    assert!(r.line().is_some());
    r.interact();
    assert!(r.line().is_none());
    // Visit the lodge and leave through its data-authored portal.
    for _ in 0..3 {
        assert!(r.step(-1, 0));
    }
    assert!(r.step(0, -1));
    assert_eq!(r.state.map, "interior");
    assert!(r.step(0, 1));
    assert_eq!(r.state.map, "main");
    assert!(r.step(0, 1));
    for _ in 0..9 {
        assert!(r.step(1, 0));
    }
    assert_eq!(r.state.map, "path");
    for _ in 0..12 {
        assert!(r.step(1, 0));
    }
    assert!(r.state.completed);
    let encoded = save_to_json(&r.state);
    let mut reopened = Runtime::new(courier_maps(), "main").unwrap();
    reopened.restore(save_from_json(&encoded)).unwrap();
    assert_eq!(reopened.state, r.state);
}
