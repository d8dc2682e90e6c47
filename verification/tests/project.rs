use omasprite::names::NameMap;
use omasprite::project::{revision_path, scene_path_inside, valid_scene_id, Manifest, ProjectStore};
use omasprite::world::Scene;

#[test]
fn revision_names_are_zero_padded() {
    assert_eq!(revision_path("main", 1), "scenes/main-000001.json");
    assert_eq!(revision_path("lodge", 1234567), "scenes/lodge-1234567.json");
}

#[test]
fn scene_paths_must_stay_inside() {
    assert!(scene_path_inside("scenes/main-000001.json"));
    assert!(scene_path_inside("scenes/./main.json"));
    assert!(scene_path_inside("scenes/..main.json"));
    assert!(!scene_path_inside("../escape.json"));
    assert!(!scene_path_inside("scenes/../../escape.json"));
    assert!(!scene_path_inside("scenes/.."));
    assert!(!scene_path_inside("/etc/passwd"));
    assert!(!scene_path_inside("./main.json"));
    assert!(!scene_path_inside("."));
}

#[test]
fn scene_ids_are_plain() {
    assert!(valid_scene_id("main"));
    assert!(valid_scene_id("snow_path-2"));
    assert!(!valid_scene_id(""));
    assert!(!valid_scene_id("a/b"));
    assert!(!valid_scene_id("café"));
}

#[test]
fn new_projects_and_manifest_checks() {
    assert_eq!(
        Manifest::new_project(" \n").err(),
        Some("Enter a project name".to_string())
    );
    let mut m = Manifest::new_project("  Snow Village ").unwrap();
    assert_eq!(m.name, "Snow Village");
    assert_eq!(m.entry_scene, "main");
    assert_eq!(m.version, 1);
    assert_eq!(
        m.check(),
        Err("Project needs a name and scene".to_string())
    );
    m = m.with_scene("main", "scenes/main-000001.json".to_string());
    assert_eq!(m.check(), Ok(()));
    m.version = 99;
    assert_eq!(
        m.check(),
        Err("Unsupported project version 99; expected 1".to_string())
    );
}

#[test]
fn saving_and_locating_scenes() {
    let m = Manifest::new_project("Original")
        .unwrap()
        .with_scene("main", "../escape.json".to_string())
        .with_scene("lodge", "scenes/lodge-000002.json".to_string());
    let store = ProjectStore {
        root: "/tmp/project".into(),
        manifest: m,
    };
    assert_eq!(
        store.scene_path("lodge"),
        Ok("scenes/lodge-000002.json".to_string())
    );
    assert_eq!(
        store.scene_path("main").err(),
        Some("Scene path must stay inside project".to_string())
    );
    assert_eq!(
        store.scene_path("cellar").err(),
        Some("Unknown scene ID".to_string())
    );
    let mut scene = Scene::default();
    assert_eq!(ProjectStore::check_save("main", &scene), Ok(()));
    assert_eq!(
        ProjectStore::check_save("../x", &scene),
        Err("Invalid scene ID".to_string())
    );
    scene.tiles.clear();
    assert_eq!(
        ProjectStore::check_save("../x", &scene),
        Err("Invalid scene data".to_string())
    );
}

#[test]
fn name_maps_keep_names_sorted_and_unique() {
    let mut m: NameMap<u32> = NameMap::new();
    m.insert("path".to_string(), 2);
    m.insert("main".to_string(), 1);
    m.insert("interior".to_string(), 3);
    m.insert("main".to_string(), 4);
    assert_eq!(m.len(), 3);
    assert_eq!(m.key_at(0), "interior");
    assert_eq!(m.key_at(1), "main");
    assert_eq!(m.key_at(2), "path");
    assert_eq!(m.get("main"), Some(&4));
    assert_eq!(m.get("lodge"), None);
    assert!(m.contains_key("path"));
    assert_eq!(*m.value_at(0), 3);
}

#[test]
fn each_revision_gets_its_own_file_inside_the_project() {
    let names: Vec<String> = (1..=12).map(|r| revision_path("snow_1-b", r)).collect();
    for (i, a) in names.iter().enumerate() {
        assert!(scene_path_inside(a));
        for b in &names[i + 1..] {
            assert_ne!(a, b);
        }
    }
    assert_ne!(revision_path("main", 999999), revision_path("main", 1000000));
    assert!(scene_path_inside(&revision_path("-", 0)));
}
