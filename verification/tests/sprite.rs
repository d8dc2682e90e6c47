use omasprite::sprite::{onion_skin, palette, Editor, Sprite};
use serde_json::Value;

fn sprite_to_json(s: &Sprite) -> Value {
    let frames: Vec<Value> = s
        .frames
        .iter()
        .map(|f| {
            Value::Array(
                f.iter()
                    .map(|c| Value::Array(c.iter().map(|b| Value::from(*b)).collect()))
                    .collect(),
            )
        })
        .collect();
    let mut m = serde_json::Map::new();
    m.insert("frames".to_string(), Value::Array(frames));
    m.insert("frame_ms".to_string(), Value::from(s.frame_ms));
    Value::Object(m)
}

fn sprite_from_json(v: &Value) -> Sprite {
    let frames = v["frames"]
        .as_array()
        .unwrap()
        .iter()
        .map(|f| {
            f.as_array()
                .unwrap()
                .iter()
                .map(|c| {
                    let c = c.as_array().unwrap();
                    [
                        c[0].as_u64().unwrap() as u8,
                        c[1].as_u64().unwrap() as u8,
                        c[2].as_u64().unwrap() as u8,
                        c[3].as_u64().unwrap() as u8,
                    ]
                })
                .collect()
        })
        .collect();
    Sprite {
        frames,
        frame_ms: v["frame_ms"].as_u64().unwrap() as u32,
    }
}

#[test]
fn fill_respects_connected_boundary_and_roundtrips() {
    let mut s = Sprite::default();
    for y in 0..24 {
        s.frames[0][y * 16 + 8] = [1, 2, 3, 255];
    }
    s.fill(0, 0, 0, [7, 8, 9, 255]);
    assert_eq!(s.frames[0][23 * 16], [7, 8, 9, 255]);
    assert_eq!(s.frames[0][9], [0; 4]);
    assert_eq!(s.frames[0][8], [1, 2, 3, 255]);
    let bytes = serde_json::to_vec(&sprite_to_json(&s)).unwrap();
    let restored = sprite_from_json(&serde_json::from_slice::<Value>(&bytes).unwrap());
    assert!(restored.validate());
    assert_eq!(restored.frames, s.frames);
}

#[test]
fn fill_stops_at_diagonals_and_other_colours() {
    let mut s = Sprite::default();
    // A closed ring of ink around (2, 2); diagonal gaps do not connect.
    for &(x, y) in &[(1, 1), (2, 1), (3, 1), (1, 2), (3, 2), (1, 3), (2, 3), (3, 3)] {
        s.frames[0][y * 16 + x] = [9, 9, 9, 255];
    }
    s.fill(0, 2, 2, [5, 5, 5, 255]);
    assert_eq!(s.frames[0][2 * 16 + 2], [5, 5, 5, 255]);
    assert_eq!(s.frames[0][0], [0; 4]);
    assert_eq!(s.frames[0][1 * 16 + 1], [9, 9, 9, 255]);
    let filled = s.frames[0].iter().filter(|c| **c == [5, 5, 5, 255]).count();
    assert_eq!(filled, 1);
    // Filling with the same colour changes nothing; outside positions are ignored.
    let before = s.frames.clone();
    s.fill(0, 2, 2, [5, 5, 5, 255]);
    s.fill(0, 16, 0, [1, 1, 1, 1]);
    s.fill(3, 0, 0, [1, 1, 1, 1]);
    assert_eq!(s.frames, before);
    // The outer area covers everything but the ring and its centre.
    s.fill(0, 15, 23, [4, 4, 4, 4]);
    let outer = s.frames[0].iter().filter(|c| **c == [4, 4, 4, 4]).count();
    assert_eq!(outer, 384 - 9);
}

#[test]
fn sprite_validation_bounds() {
    let mut s = Sprite::default();
    assert!(s.validate());
    s.frame_ms = 39;
    assert!(!s.validate());
    s.frame_ms = 2000;
    assert!(s.validate());
    s.frames.push(vec![[0; 4]; 383]);
    assert!(!s.validate());
    s.frames.pop();
    s.frames.clear();
    assert!(!s.validate());
}

#[test]
fn undo_and_redo_restore_each_other() {
    let mut e = Editor::default();
    let mut s = Sprite::default();
    e.begin_stroke(&s);
    e.paint(&mut s, 3, 4);
    assert_eq!(s.frames[0][4 * 16 + 3], [225, 70, 134, 255]);
    let painted = s.clone();
    e.undo(&mut s);
    assert_eq!(s.frames[0][4 * 16 + 3], [0; 4]);
    assert_eq!(e.redo_len(), 1);
    e.redo(&mut s);
    assert!(s == painted);
    assert_eq!(e.history_len(), 1);
    // Undo with nothing recorded changes nothing.
    let mut fresh = Editor::default();
    let copy = s.clone();
    fresh.undo(&mut s);
    assert!(s == copy);
}

#[test]
fn eraser_fill_and_frame_management() {
    let mut e = Editor::default();
    let mut s = Sprite::default();
    e.fill = true;
    e.paint(&mut s, 0, 0);
    assert!(s.frames[0].iter().all(|c| *c == [225, 70, 134, 255]));
    e.fill = false;
    e.eraser = true;
    e.paint(&mut s, 5, 5);
    assert_eq!(s.frames[0][5 * 16 + 5], [0; 4]);
    e.duplicate_frame(&mut s);
    assert_eq!(s.frames.len(), 2);
    assert_eq!(e.frame, 1);
    assert_eq!(s.frames[1], s.frames[0]);
    e.frame = 7;
    e.delete_frame(&mut s);
    assert_eq!(s.frames.len(), 1);
    e.clamp_frame(&s);
    assert_eq!(e.frame, 0);
    e.delete_frame(&mut s);
    assert_eq!(s.frames.len(), 1);
    assert_eq!(e.history_len(), 2);
}

#[test]
fn history_keeps_the_last_32_strokes() {
    let mut e = Editor::default();
    let mut s = Sprite::default();
    for i in 0..40u32 {
        s.frame_ms = 40 + i;
        e.begin_stroke(&s);
    }
    assert_eq!(e.history_len(), 32);
    e.undo(&mut s);
    assert_eq!(s.frame_ms, 79);
}

#[test]
fn onion_skin_and_palette() {
    let f = vec![[10, 20, 30, 255], [1, 2, 3, 5]];
    assert_eq!(onion_skin(&f), vec![[10, 20, 30, 85], [1, 2, 3, 1]]);
    assert_eq!(palette(3), [74, 138, 201, 255]);
}

#[test]
fn fill_works_on_a_short_frame_it_does_not_overrun() {
    let mut frame = vec![[0u8, 0, 0, 0]; 40];
    for px in frame.iter_mut().skip(16).take(16) {
        *px = [1, 1, 1, 1];
    }
    let mut s = Sprite {
        frames: vec![frame],
        frame_ms: 160,
    };
    s.fill(0, 3, 0, [5, 5, 5, 5]);
    assert_eq!(s.frames[0].len(), 40);
    assert!(s.frames[0][..16].iter().all(|c| *c == [5, 5, 5, 5]));
    assert!(s.frames[0][16..32].iter().all(|c| *c == [1, 1, 1, 1]));
    assert!(s.frames[0][32..].iter().all(|c| *c == [0, 0, 0, 0]));
    let once = s.frames.clone();
    s.fill(0, 3, 0, [5, 5, 5, 5]);
    assert_eq!(s.frames, once);
}

#[test]
fn editor_actions_keep_brush_settings() {
    let mut e = Editor::default();
    e.eraser = true;
    e.fill = true;
    e.onion = false;
    e.preview = true;
    e.color = [1, 2, 3, 4];
    let mut s = Sprite::default();
    e.begin_stroke(&s);
    e.duplicate_frame(&mut s);
    e.undo(&mut s);
    e.redo(&mut s);
    e.delete_frame(&mut s);
    e.clamp_frame(&s);
    assert!(e.eraser && e.fill && !e.onion && e.preview);
    assert_eq!(e.color, [1, 2, 3, 4]);
    assert!(s.frames.iter().all(|f| f.len() == 384));
    assert_eq!(e.history_len(), 3);
}

#[test]
fn fill_fits_tells_when_a_fill_would_run_past_the_frame() {
    let mut frame = vec![[0u8, 0, 0, 0]; 40];
    for px in frame.iter_mut().skip(16).take(16) {
        *px = [1, 1, 1, 1];
    }
    let s = Sprite {
        frames: vec![frame],
        frame_ms: 160,
    };
    // The top row is closed off by the second; the bottom area reaches row 3.
    assert!(s.fill_fits(0, 3, 0, [5, 5, 5, 5]));
    assert!(!s.fill_fits(0, 3, 2, [5, 5, 5, 5]));
    assert!(s.fill_fits(0, 3, 2, [0, 0, 0, 0]));
    assert!(s.fill_fits(1, 3, 2, [5, 5, 5, 5]));
    assert!(s.fill_fits(0, 16, 0, [5, 5, 5, 5]));
    assert!(Sprite::default().fill_fits(0, 7, 7, [5, 5, 5, 5]));
}
