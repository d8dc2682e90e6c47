use omasprite::advanced::PluginManifest;
use omasprite::plugins::sort_by_id;

fn plugin(id: &str, entry: &str) -> PluginManifest {
    PluginManifest {
        id: id.into(),
        version: "1".into(),
        capabilities: vec!["palette".into()],
        entry: entry.into(),
    }
}

#[test]
fn plugins_sort_by_id_stably() {
    let sorted = sort_by_id(vec![
        plugin("tiles", "a"),
        plugin("safe", "b"),
        plugin("tiles", "c"),
        plugin("Zed", "d"),
    ]);
    let order: Vec<(String, String)> = sorted.into_iter().map(|p| (p.id, p.entry)).collect();
    assert_eq!(
        order,
        vec![
            ("Zed".to_string(), "d".to_string()),
            ("safe".to_string(), "b".to_string()),
            ("tiles".to_string(), "a".to_string()),
            ("tiles".to_string(), "c".to_string()),
        ]
    );
    assert!(sort_by_id(vec![]).is_empty());
}
