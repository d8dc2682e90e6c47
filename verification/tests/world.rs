use omasprite::world::{
    undo_map_edit,
    default_collision, default_light, default_light_radius, Decoration, DecorationKind, Scene,
};
use omasprite::advanced::{CharacterSet, Choice, DialogueNode, DirectionFrames};
use omasprite::runtime::Portal;
use omasprite::sprite::Sprite;
use serde_json::Value;

fn cell_json(p: [usize; 2]) -> Value {
    Value::Array(vec![Value::from(p[0]), Value::from(p[1])])
}

fn cell_from(v: &Value) -> [usize; 2] {
    [v[0].as_u64().unwrap() as usize, v[1].as_u64().unwrap() as usize]
}

fn list<T>(items: &[T], f: impl Fn(&T) -> Value) -> Value {
    Value::Array(items.iter().map(f).collect())
}

fn items<T>(v: &Value, f: impl Fn(&Value) -> T) -> Vec<T> {
    v.as_array().unwrap().iter().map(f).collect()
}

fn text(v: &Value) -> String {
    v.as_str().unwrap().to_string()
}

fn opt_text(v: &Value) -> Option<String> {
    v.as_str().map(|t| t.to_string())
}

fn colour_json(c: &[u8; 4]) -> Value {
    list(c, |b| Value::from(*b))
}

fn colour_from(v: &Value) -> [u8; 4] {
    let c = items(v, |b| b.as_u64().unwrap() as u8);
    [c[0], c[1], c[2], c[3]]
}

fn frames_json(d: &DirectionFrames) -> Value {
    let mut m = serde_json::Map::new();
    m.insert("up".into(), list(&d.up, |i| Value::from(*i)));
    m.insert("down".into(), list(&d.down, |i| Value::from(*i)));
    m.insert("left".into(), list(&d.left, |i| Value::from(*i)));
    m.insert("right".into(), list(&d.right, |i| Value::from(*i)));
    Value::Object(m)
}

fn frames_from(v: &Value) -> DirectionFrames {
    let idx = |w: &Value| items(w, |i| i.as_u64().unwrap() as usize);
    DirectionFrames {
        up: idx(&v["up"]),
        down: idx(&v["down"]),
        left: idx(&v["left"]),
        right: idx(&v["right"]),
    }
}

/// A scene written as JSON, field by field, with the light radius and the
/// daylight level as numbers.
fn scene_to_json(s: &Scene) -> String {
    let mut character = serde_json::Map::new();
    character.insert("idle".into(), frames_json(&s.character.idle));
    character.insert("walk".into(), frames_json(&s.character.walk));
    character.insert("palette".into(), list(&s.character.palette, colour_json));
    character.insert("portrait".into(), s.character.portrait.clone().map_or(Value::Null, Value::from));
    let mut sprite = serde_json::Map::new();
    sprite.insert("frames".into(), list(&s.sprite.frames, |f| list(f, colour_json)));
    sprite.insert("frame_ms".into(), Value::from(s.sprite.frame_ms));
    let mut m = serde_json::Map::new();
    m.insert("character".into(), Value::Object(character));
    m.insert("sprite".into(), Value::Object(sprite));
    m.insert(
        "portals".into(),
        list(&s.portals, |p| {
            let mut o = serde_json::Map::new();
            o.insert("at".into(), cell_json(p.at));
            o.insert("map".into(), Value::from(p.map.clone()));
            o.insert("spawn".into(), cell_json(p.spawn));
            Value::Object(o)
        }),
    );
    m.insert("objective".into(), s.objective.map_or(Value::Null, cell_json));
    m.insert("light".into(), cell_json(s.light));
    m.insert("light_radius".into(), Value::from(f32::from_bits(s.light_radius_bits) as f64));
    m.insert("version".into(), Value::from(s.version));
    m.insert("tiles".into(), list(&s.tiles, |t| Value::from(*t)));
    m.insert("collision".into(), list(&s.collision, |c| Value::from(*c)));
    m.insert("heights".into(), list(&s.heights, |h| Value::from(*h)));
    m.insert("npc".into(), cell_json(s.npc));
    m.insert("npcs".into(), list(&s.npcs, |n| cell_json(*n)));
    m.insert(
        "decorations".into(),
        list(&s.decorations, |d| {
            let mut o = serde_json::Map::new();
            o.insert("position".into(), cell_json(d.position));
            let kind = match d.kind {
                DecorationKind::Fence => "Fence",
                DecorationKind::Lamp => "Lamp",
                DecorationKind::Flower => "Flower",
                DecorationKind::Snowman => "Snowman",
            };
            o.insert("kind".into(), Value::from(kind));
            Value::Object(o)
        }),
    );
    m.insert("spawn".into(), cell_json(s.spawn));
    m.insert("dialogue".into(), Value::from(s.dialogue.clone()));
    m.insert(
        "dialogue_nodes".into(),
        list(&s.dialogue_nodes, |n| {
            let mut o = serde_json::Map::new();
            o.insert("speaker".into(), Value::from(n.speaker.clone()));
            o.insert("text".into(), Value::from(n.text.clone()));
            o.insert(
                "choices".into(),
                list(&n.choices, |c| {
                    let mut q = serde_json::Map::new();
                    q.insert("label".into(), Value::from(c.label.clone()));
                    q.insert("next".into(), Value::from(c.next));
                    q.insert("condition".into(), c.condition.clone().map_or(Value::Null, Value::from));
                    Value::Object(q)
                }),
            );
            o.insert("hooks".into(), list(&n.hooks, |h| Value::from(h.clone())));
            Value::Object(o)
        }),
    );
    m.insert("ambient".into(), Value::from(f32::from_bits(s.ambient_bits) as f64));
    serde_json::to_string(&Value::Object(m)).unwrap()
}

/// A scene read back from `scene_to_json`.
fn scene_from_json(t: &str) -> Scene {
    let v: Value = serde_json::from_str(t).unwrap();
    let c = &v["character"];
    Scene {
        character: CharacterSet {
            idle: frames_from(&c["idle"]),
            walk: frames_from(&c["walk"]),
            palette: items(&c["palette"], colour_from),
            portrait: opt_text(&c["portrait"]),
        },
        sprite: Sprite {
            frames: items(&v["sprite"]["frames"], |f| items(f, colour_from)),
            frame_ms: v["sprite"]["frame_ms"].as_u64().unwrap() as u32,
        },
        portals: items(&v["portals"], |p| Portal {
            at: cell_from(&p["at"]),
            map: text(&p["map"]),
            spawn: cell_from(&p["spawn"]),
        }),
        objective: if v["objective"].is_null() {
            None
        } else {
            Some(cell_from(&v["objective"]))
        },
        light: cell_from(&v["light"]),
        light_radius_bits: (v["light_radius"].as_f64().unwrap() as f32).to_bits(),
        version: v["version"].as_u64().unwrap() as u32,
        tiles: items(&v["tiles"], |t| t.as_u64().unwrap() as u8),
        collision: items(&v["collision"], |c| c.as_bool().unwrap()),
        heights: items(&v["heights"], |h| h.as_u64().unwrap() as u8),
        npc: cell_from(&v["npc"]),
        npcs: items(&v["npcs"], cell_from),
        decorations: items(&v["decorations"], |d| Decoration {
            position: cell_from(&d["position"]),
            kind: match d["kind"].as_str().unwrap() {
                "Fence" => DecorationKind::Fence,
                "Lamp" => DecorationKind::Lamp,
                "Flower" => DecorationKind::Flower,
                _ => DecorationKind::Snowman,
            },
        }),
        spawn: cell_from(&v["spawn"]),
        dialogue: text(&v["dialogue"]),
        dialogue_nodes: items(&v["dialogue_nodes"], |n| DialogueNode {
            speaker: text(&n["speaker"]),
            text: text(&n["text"]),
            choices: items(&n["choices"], |c| Choice {
                label: text(&c["label"]),
                next: c["next"].as_u64().unwrap() as usize,
                condition: opt_text(&c["condition"]),
            }),
            hooks: items(&n["hooks"], text),
        }),
        ambient_bits: (v["ambient"].as_f64().unwrap() as f32).to_bits(),
    }
}

#[test]
fn invalid_scene_rejected() {
    let mut s = Scene::default();
    s.tiles.clear();
    assert!(s.validate().is_err());
}

#[test]
fn roundtrip_and_collision() {
    let mut s = Scene::default();
    s.tiles[0] = 4;
    let restored: Scene = scene_from_json(&scene_to_json(&s));
    assert!(restored == s);
    assert!(restored.validate().is_ok());
    assert!(!restored.walkable(0, 0));
    assert!(!restored.walkable(16, 0));
    assert!(restored.walkable(1, 0));
}

#[test]
fn default_scene_is_a_playable_snow_village() {
    let scene = Scene::default();
    assert!(scene.validate().is_ok());
    assert_eq!(scene.tiles[3 * 16 + 5], 4);
    assert_eq!(scene.tiles[1 * 16 + 1], 3);
    assert!(scene
        .decorations
        .iter()
        .any(|d| d.kind == DecorationKind::Fence));
    assert!(scene
        .decorations
        .iter()
        .any(|d| d.kind == DecorationKind::Snowman));
    assert!(scene.walkable(scene.spawn[0], scene.spawn[1]));
    assert!(!scene.walkable(5, 6));
}

#[test]
fn validation_rejects_each_broken_layer() {
    let base = Scene::default();
    let mut s = base.clone();
    s.version = 2;
    assert_eq!(s.validate(), Err("Invalid scene data".to_string()));
    let mut s = base.clone();
    s.heights[17] = 5;
    assert!(s.validate().is_err());
    let mut s = base.clone();
    s.npcs.push([3, 16]);
    assert!(s.validate().is_err());
    let mut s = base.clone();
    s.ambient_bits = 0.1f32.to_bits();
    assert!(s.validate().is_err());
    s.ambient_bits = 1.0f32.to_bits();
    assert!(s.validate().is_ok());
    s.ambient_bits = f32::NAN.to_bits();
    assert!(s.validate().is_err());
    let mut s = base.clone();
    s.light_radius_bits = 32.5f32.to_bits();
    assert!(s.validate().is_err());
    s.light_radius_bits = (-4.0f32).to_bits();
    assert!(s.validate().is_err());
    s.light_radius_bits = 32.0f32.to_bits();
    assert!(s.validate().is_ok());
    let mut s = base.clone();
    s.objective = Some([0, 16]);
    assert!(s.validate().is_err());
    let mut s = base.clone();
    s.sprite.frame_ms = 5;
    assert!(s.validate().is_err());
}

#[test]
fn defaults_match_the_format_fallbacks() {
    assert_eq!(default_collision(), vec![false; 256]);
    assert_eq!(default_light(), [8, 8]);
    assert_eq!(f32::from_bits(default_light_radius()), 8.0);
    assert_eq!(f32::from_bits(Scene::default().ambient_bits), 0.85);
    assert!(DecorationKind::Fence.blocks());
    assert!(!DecorationKind::Lamp.blocks());
    assert!(!DecorationKind::Flower.blocks());
    assert!(DecorationKind::Snowman.blocks());
}

#[test]
fn brushes_paint_the_scene() {
    let mut s = Scene::default();
    s.apply_brush(2, [0, 0], 3, "main", [8, 9]);
    assert_eq!(s.tiles[0], 2);
    assert_eq!(s.heights[0], 3);
    s.apply_brush(5, [4, 4], 0, "main", [8, 9]);
    assert_eq!(s.npc, [4, 4]);
    assert_eq!(s.npcs, vec![[4, 4]]);
    s.apply_brush(6, [1, 2], 0, "main", [8, 9]);
    assert_eq!(s.spawn, [1, 2]);
    s.apply_brush(7, [9, 9], 0, "path", [2, 2]);
    s.apply_brush(7, [9, 9], 0, "lodge", [3, 3]);
    assert_eq!(s.portals.len(), 1);
    assert_eq!(s.portals[0].map, "lodge");
    assert_eq!(s.portals[0].spawn, [3, 3]);
    s.apply_brush(9, [9, 9], 0, "main", [8, 9]);
    assert!(s.portals.is_empty());
    s.apply_brush(8, [3, 2], 0, "main", [8, 9]);
    assert_eq!(s.objective, Some([3, 2]));
    s.apply_brush(10, [7, 7], 0, "main", [8, 9]);
    assert!(s.collision[7 * 16 + 7]);
    s.apply_brush(10, [7, 7], 0, "main", [8, 9]);
    assert!(!s.collision[7 * 16 + 7]);
    s.apply_brush(11, [2, 14], 0, "main", [8, 9]);
    assert_eq!(s.light, [2, 14]);
    s.apply_brush(12, [15, 0], 0, "main", [8, 9]);
    assert_eq!(s.tiles[15], 1);
    assert_eq!(s.tiles[16 + 15], 1);
    s.apply_brush(16, [5, 6], 0, "main", [8, 9]);
    assert_eq!(
        s.decorations.last(),
        Some(&Decoration {
            position: [5, 6],
            kind: DecorationKind::Snowman
        })
    );
    assert_eq!(s.decorations.len(), 11);
}

#[test]
fn scenes_compare_light_levels_as_numbers() {
    let a = Scene::default();
    assert!(a == a.clone());
    let mut plus = a.clone();
    let mut minus = a.clone();
    plus.ambient_bits = 0.0f32.to_bits();
    minus.ambient_bits = (-0.0f32).to_bits();
    assert!(plus == minus);
    let mut nan = a.clone();
    nan.light_radius_bits = f32::NAN.to_bits();
    assert!(nan != nan.clone());
    let mut d = a.clone();
    d.tiles[3] = 2;
    assert!(a != d);
    let mut e = a.clone();
    e.dialogue.push('!');
    assert!(a != e);
}

#[test]
fn scene_light_roundtrips_and_validates_radius() {
    let mut scene = Scene::default();
    scene.light = [3, 4];
    scene.light_radius_bits = 12.0f32.to_bits();
    let copy: Scene = scene_from_json(&scene_to_json(&scene));
    assert_eq!(copy.light, [3, 4]);
    assert!(copy.validate().is_ok());
    scene.light_radius_bits = 0.0f32.to_bits();
    assert!(scene.validate().is_err());
}

#[test]
fn full_scene_survives_a_json_round_trip() {
    let mut scene = Scene::default();
    scene.portals.push(Portal {
        at: [9, 9],
        map: "lodge".into(),
        spawn: [2, 3],
    });
    scene.objective = Some([4, 4]);
    scene.npcs = vec![[1, 2], [3, 4]];
    scene.character.portrait = Some("face.png".into());
    scene.dialogue_nodes.push(DialogueNode {
        speaker: "Oma".into(),
        text: "Hi".into(),
        choices: vec![Choice {
            label: "Bye".into(),
            next: 0,
            condition: Some("flag".into()),
        }],
        hooks: vec!["wave".into()],
    });
    scene.sprite.frames[0][5] = [1, 2, 3, 4];
    scene.ambient_bits = 0.5f32.to_bits();
    let copy = scene_from_json(&scene_to_json(&scene));
    assert!(copy == scene);
    assert!(copy.validate().is_ok());
}

#[test]
fn undoing_a_map_edit_brings_back_the_last_scene() {
    let mut history = Vec::new();
    let mut scene = Scene::default();
    undo_map_edit(&mut history, &mut scene);
    assert!(scene == Scene::default());
    let mut edited = scene.clone();
    edited.tiles[0] = 2;
    history.push(edited.clone());
    undo_map_edit(&mut history, &mut scene);
    assert!(scene == edited);
    assert!(history.is_empty());
}
