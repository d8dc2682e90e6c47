use omasprite::advanced::{
    lua_export, validate_dialogue, validate_plugin, CharacterSet, Choice, DialogueNode,
    DirectionFrames, LogicNode, PluginManifest,
};

#[test]
fn dialogue_choices_validate_and_reject_bad_edges() {
    let nodes = vec![DialogueNode {
        speaker: "Mira".into(),
        text: "Go?".into(),
        choices: vec![Choice {
            label: "Yes".into(),
            next: 0,
            condition: Some("beacon == false".into()),
        }],
        hooks: vec!["open_gate".into()],
    }];
    assert!(validate_dialogue(&nodes).is_ok());
    let mut bad = nodes;
    bad[0].choices[0].next = 9;
    assert!(validate_dialogue(&bad).is_err());
}

#[test]
fn plugin_validation_blocks_privileged_capabilities() {
    let plugin = PluginManifest {
        id: "demo".into(),
        version: "1".into(),
        capabilities: vec!["network".into()],
        entry: "main".into(),
    };
    assert!(validate_plugin(&plugin).is_err());
}

#[test]
fn lua_export_is_deterministic_and_reviewable() {
    let lua = lua_export(&[LogicNode {
        id: "start".into(),
        kind: "event".into(),
        inputs: vec![],
        outputs: vec![],
    }]);
    assert!(lua.contains("Generated by OMASPRITE"));
    assert!(lua.contains("start"));
}

#[test]
fn directional_frames_and_layers_are_deterministic() {
    let set = CharacterSet {
        walk: DirectionFrames {
            right: vec![2, 3],
            ..Default::default()
        },
        ..Default::default()
    };
    assert_eq!(set.frame([1, 0], true, 3), Some(3));
}

fn node(choices: Vec<Choice>) -> DialogueNode {
    DialogueNode {
        speaker: "Mira".into(),
        text: "Hi".into(),
        choices,
        hooks: vec![],
    }
}

fn choice(label: &str, next: usize) -> Choice {
    Choice {
        label: label.into(),
        next,
        condition: None,
    }
}

#[test]
fn dialogue_errors_name_the_first_problem() {
    let nodes = vec![
        node(vec![choice("Yes", 1)]),
        node(vec![choice(" \t", 0), choice("No", 7)]),
    ];
    assert_eq!(
        validate_dialogue(&nodes),
        Err("Dialogue choice label is empty".to_string())
    );
    let nodes = vec![
        node(vec![choice("Yes", 1)]),
        node(vec![choice("Go", 5), choice("", 0)]),
    ];
    assert_eq!(
        validate_dialogue(&nodes),
        Err("Dialogue node 1 points outside graph".to_string())
    );
    assert!(validate_dialogue(&[]).is_ok());
    let wide: Vec<DialogueNode> = (0..12).map(|_| node(vec![])).collect();
    let mut wide = wide;
    wide[11].choices.push(choice("Onward", 12));
    assert_eq!(
        validate_dialogue(&wide),
        Err("Dialogue node 11 points outside graph".to_string())
    );
}

#[test]
fn plugin_manifest_needs_identity_and_plain_capabilities() {
    let mut plugin = PluginManifest {
        id: "tiles".into(),
        version: "2".into(),
        capabilities: vec!["palette".into(), "tiles".into()],
        entry: "entry.json".into(),
    };
    assert_eq!(validate_plugin(&plugin), Ok(()));
    plugin.capabilities.push("filesystem".into());
    assert_eq!(
        validate_plugin(&plugin),
        Err("Privileged plugin capabilities require explicit host approval".to_string())
    );
    plugin.version = String::new();
    assert_eq!(
        validate_plugin(&plugin),
        Err("Plugin manifest needs id, version, and entry".to_string())
    );
}

#[test]
fn lua_export_lists_every_node_in_order() {
    let nodes = [
        LogicNode {
            id: "start".into(),
            kind: "event".into(),
            inputs: vec![],
            outputs: vec!["next".into()],
        },
        LogicNode {
            id: "gate".into(),
            kind: "action".into(),
            inputs: vec![],
            outputs: vec![],
        },
    ];
    assert_eq!(
        lua_export(&nodes),
        "-- Generated by OMASPRITE; review before running\nreturn function(event)\n  -- node start (event)\n  -- node gate (action)\nend\n"
    );
    assert_eq!(
        lua_export(&[]),
        "-- Generated by OMASPRITE; review before running\nreturn function(event)\nend\n"
    );
}

#[test]
fn frames_follow_direction_and_motion() {
    let set = CharacterSet::default();
    assert_eq!(set.frame([0, -1], true, 5), Some(1));
    assert_eq!(set.frame([-1, 0], true, 4), Some(2));
    assert_eq!(set.frame([0, 1], false, 9), Some(0));
    assert_eq!(set.frame([1, -1], true, 2), Some(0));
    let empty = CharacterSet {
        idle: DirectionFrames::default(),
        ..CharacterSet::default()
    };
    assert_eq!(empty.frame([0, 1], false, 0), None);
}
