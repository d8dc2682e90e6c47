use omasprite::tilemap::TileStamp;
use omasprite::world::Scene;

#[test]
fn stamp_paints_tiles_and_collision_with_clipping() {
    let mut scene = Scene::default();
    let stamp = TileStamp {
        width: 2,
        height: 2,
        tiles: vec![1, 3, 4, 0],
        collision: vec![false, true, true, false],
    };
    stamp.apply(&mut scene, [15, 15]).unwrap();
    assert_eq!(scene.tiles[15 * 16 + 15], 1);
    assert!(!scene.collision[15 * 16 + 15]);
    assert!(stamp.apply(&mut scene, [0, 0]).is_ok());
}

#[test]
fn malformed_or_invalid_stamps_are_refused() {
    let mut scene = Scene::default();
    let before = scene.clone();
    let ragged = TileStamp {
        width: 2,
        height: 2,
        tiles: vec![1, 1, 1],
        collision: vec![false; 3],
    };
    assert_eq!(
        ragged.apply(&mut scene, [0, 0]),
        Err("Invalid tile stamp".to_string())
    );
    assert!(scene == before);
    let bad = TileStamp {
        width: 2,
        height: 2,
        tiles: vec![2, 2, 9, 2],
        collision: vec![true; 4],
    };
    assert_eq!(
        bad.apply(&mut scene, [0, 0]),
        Err("Stamp contains invalid tile".to_string())
    );
    // The first row was painted before the bad cell was met.
    assert_eq!(scene.tiles[0], 2);
    assert_eq!(scene.tiles[1], 2);
    assert!(scene.collision[1]);
    assert_eq!(scene.tiles[16], before.tiles[16]);
    // Off-map bad cells are skipped.
    let mut scene = before.clone();
    assert!(bad.apply(&mut scene, [0, 15]).is_ok());
    assert_eq!(scene.tiles[15 * 16], 2);
}

#[test]
fn malformed_stamp_never_reads_the_scene() {
    let mut scene = Scene {
        tiles: vec![],
        collision: vec![],
        ..Default::default()
    };
    let stamp = TileStamp {
        width: 2,
        height: 2,
        tiles: vec![1; 3],
        collision: vec![false; 3],
    };
    assert_eq!(
        stamp.apply(&mut scene, [0, 0]),
        Err("Invalid tile stamp".to_string())
    );
    assert!(scene.tiles.is_empty());
}

#[test]
fn stamp_entirely_off_the_map_paints_nothing() {
    let mut scene = Scene {
        tiles: vec![],
        collision: vec![],
        ..Default::default()
    };
    let stamp = TileStamp {
        width: 2,
        height: 2,
        tiles: vec![1; 4],
        collision: vec![false; 4],
    };
    assert_eq!(stamp.apply(&mut scene, [16, 0]), Ok(()));
    assert_eq!(stamp.apply(&mut scene, [3, 20]), Ok(()));
    assert!(scene.tiles.is_empty());
}
