# omasprite

The logic of a small pixel-art RPG editor, written in Verus and proved
against its contracts, with the desktop shell around it in ordinary Rust.

- `src/` — the verified library:
  - `sprite` — 16 × 24 sprite frames, flood fill, painting, undo/redo, onion skin;
  - `world` — 16 × 16 scenes, their validation, walkability and map brushes;
  - `equality` — scene equality, with light levels compared as numbers;
  - `tilemap` — tile stamps;
  - `runtime` — the grid game: movement, portals, dialogue pages, saves;
  - `project` — project manifests, scene IDs, scene paths and revision names;
  - `advanced` — character animation sets, dialogue graphs, plugins, Lua export;
  - `plugins` — plugin ordering; `names` — a sorted name-keyed map;
  - `text` — string helpers (trimming, ordering, decimal numerals); `model` — labels.
- `tests/` — tests of the library on concrete values.
- `app/` — the `eframe`/`egui` editor, file and JSON I/O, and the floating-point
  parts (camera, particles, layer compositing).
