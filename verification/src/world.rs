//! The editable 16 × 16 height-field scene: terrain, collision, decorations,
//! actors, portals, lighting and dialogue, with its validity rules.
use vstd::prelude::*;
use crate::advanced::{CharacterSet, DialogueNode, dialogue_valid, validate_dialogue};
use crate::runtime::Portal;
use crate::sprite::Sprite;
use crate::tilemap::TileStamp;

verus! {

/// Tiles per map side.
pub const MAP_SIDE: usize = 16;
/// Tiles per map.
pub const MAP_LEN: usize = 256;

/// Bits of the IEEE-754 single `1.0`, the least light radius.
pub const RADIUS_MIN_BITS: u32 = 0x3F80_0000;
/// Bits of the IEEE-754 single `32.0`, the greatest light radius.
pub const RADIUS_MAX_BITS: u32 = 0x4200_0000;
/// Bits of the IEEE-754 single nearest `0.2`, the darkest daylight.
pub const AMBIENT_MIN_BITS: u32 = 0x3E4C_CCCD;
/// Bits of the IEEE-754 single `1.0`, full daylight.
pub const AMBIENT_MAX_BITS: u32 = 0x3F80_0000;

/// A decoration placed on a tile.
#[derive(Clone, Copy, Debug, PartialEq, Eq, Structural)]
pub enum DecorationKind {
    Fence,
    Lamp,
    Flower,
    Snowman,
}

impl DecorationKind {
    /// Fences and snowmen block the tile they stand on.
    pub open spec fn blocks_spec(self) -> bool {
        self is Fence || self is Snowman
    }

    pub fn blocks(self) -> (r: bool)
        ensures
            r == self.blocks_spec(),
    {
        match self {
            DecorationKind::Fence | DecorationKind::Snowman => true,
            _ => false,
        }
    }
}

/// A decoration and the tile it stands on.
#[derive(Clone, Copy, Debug, PartialEq)]
pub struct Decoration {
    pub position: [usize; 2],
    pub kind: DecorationKind,
}

/// A tile position `[x, y]` inside the map.
pub open spec fn on_map(p: [usize; 2]) -> bool {
    p[0] < 16 && p[1] < 16
}

/// Two tile positions are the same.
pub open spec fn same_pos(a: [usize; 2], b: [usize; 2]) -> bool {
    a[0] == b[0] && a[1] == b[1]
}

/// Index of tile `[x, y]` in the row-major layers.
pub open spec fn tile_index(x: int, y: int) -> int {
    y * 16 + x
}

/// One map of the game, with every layer the editor paints.
///
/// `light_radius_bits` and `ambient_bits` hold the IEEE-754 single-precision
/// bit patterns of the light radius and the daylight level. For a valid
/// scene both are positive finite numbers, and on those the order of the bit
/// patterns is the order of the numbers.
#[derive(Clone)]
pub struct Scene {
    pub character: CharacterSet,
    pub sprite: Sprite,
    pub portals: Vec<Portal>,
    pub objective: Option<[usize; 2]>,
    pub light: [usize; 2],
    pub light_radius_bits: u32,
    pub version: u32,
    pub tiles: Vec<u8>,
    pub collision: Vec<bool>,
    pub heights: Vec<u8>,
    pub npc: [usize; 2],
    pub npcs: Vec<[usize; 2]>,
    pub decorations: Vec<Decoration>,
    pub spawn: [usize; 2],
    pub dialogue: String,
    pub dialogue_nodes: Vec<DialogueNode>,
    pub ambient_bits: u32,
}

/// The collision layer of a scene that has none: every tile passable.
pub fn default_collision() -> (c: Vec<bool>)
    ensures
        c@.len() == 256,
        forall|i: int| 0 <= i < 256 ==> !#[trigger] c@[i],
{
    let mut c: Vec<bool> = Vec::new();
    let mut i: usize = 0;
    while i < MAP_LEN
        invariant
            i <= 256,
            c@.len() == i,
            forall|k: int| 0 <= k < i ==> !#[trigger] c@[k],
        decreases 256 - i,
    {
        c.push(false);
        i = i + 1;
    }
    c
}

/// Where the light stands in a scene that names none.
pub fn default_light() -> (p: [usize; 2])
    ensures
        p == [8usize, 8],
{
    [8, 8]
}

/// The light radius of a scene that names none: the bits of `8.0`.
pub fn default_light_radius() -> (bits: u32)
    ensures
        bits == 0x4100_0000,
{
    0x4100_0000
}

/// The starter village's terrain: a two-row road with a lane north from it,
/// ten trees, and a building block; snow elsewhere.
pub open spec fn default_tile(x: int, y: int) -> u8 {
    if 3 <= y <= 5 && 5 <= x <= 10 {
        4
    } else if (x == 1 && y == 1) || (x == 3 && y == 1) || (x == 12 && y == 1) || (x == 14 && y
        == 1) || (x == 1 && y == 5) || (x == 14 && y == 5) || (x == 2 && y == 13) || (x == 5 && y
        == 14) || (x == 12 && y == 13) || (x == 14 && y == 14) {
        3
    } else if y == 10 || y == 11 || (x == 8 && y >= 6) {
        1
    } else {
        0
    }
}

fn starter_tile(x: usize, y: usize) -> (t: u8)
    ensures
        t == default_tile(x as int, y as int),
{
    if 3 <= y && y <= 5 && 5 <= x && x <= 10 {
        4
    } else if (x == 1 && y == 1) || (x == 3 && y == 1) || (x == 12 && y == 1) || (x == 14 && y
        == 1) || (x == 1 && y == 5) || (x == 14 && y == 5) || (x == 2 && y == 13) || (x == 5 && y
        == 14) || (x == 12 && y == 13) || (x == 14 && y == 14) {
        3
    } else if y == 10 || y == 11 || (x == 8 && y >= 6) {
        1
    } else {
        0
    }
}

/// The starter village's decorations, in placement order.
pub open spec fn default_decorations() -> Seq<Decoration> {
    seq![
        Decoration { position: [5, 6], kind: DecorationKind::Fence },
        Decoration { position: [6, 6], kind: DecorationKind::Fence },
        Decoration { position: [10, 6], kind: DecorationKind::Fence },
        Decoration { position: [11, 6], kind: DecorationKind::Fence },
        Decoration { position: [4, 10], kind: DecorationKind::Fence },
        Decoration { position: [13, 10], kind: DecorationKind::Fence },
        Decoration { position: [3, 10], kind: DecorationKind::Lamp },
        Decoration { position: [12, 10], kind: DecorationKind::Lamp },
        Decoration { position: [2, 9], kind: DecorationKind::Flower },
        Decoration { position: [14, 9], kind: DecorationKind::Flower },
        Decoration { position: [2, 11], kind: DecorationKind::Snowman },
    ]
}

impl Default for Scene {
    fn default() -> (s: Self)
        ensures
            s.portals@.len() == 0,
            s.objective.is_none(),
            s.light == [8usize, 8],
            s.light_radius_bits == 0x4100_0000,
            s.version == 1,
            s.tiles@.len() == 256,
            forall|x: int, y: int|
                0 <= x < 16 && 0 <= y < 16 ==> #[trigger] s.tiles@[tile_index(x, y)] == default_tile(
                    x,
                    y,
                ),
            s.collision@.len() == 256,
            forall|i: int| 0 <= i < 256 ==> !#[trigger] s.collision@[i],
            s.heights@.len() == 256,
            forall|i: int| 0 <= i < 256 ==> #[trigger] s.heights@[i] == 0,
            s.npc == [8usize, 7],
            s.npcs@ == seq![[8usize, 7]],
            s.decorations@ == default_decorations(),
            s.spawn == [8usize, 9],
            s.dialogue@ == "Welcome! Build your village and tell its story."@,
            s.dialogue_nodes@.len() == 0,
            s.ambient_bits == 0x3F59_999A,
            s.sprite.valid(),
            s.sprite.frames@.len() == 1,
            forall|i: int| 0 <= i < 384 ==> #[trigger] s.sprite.frames@[0]@[i] == [0u8, 0, 0, 0],
            s.sprite.frame_ms == 160,
            s.character.is_starter(),
            s.valid(),
            s.walkable_spec(8, 9),
            !s.walkable_spec(5, 6),
    {
        let mut tiles: Vec<u8> = Vec::new();
        let mut heights: Vec<u8> = Vec::new();
        let mut y: usize = 0;
        while y < MAP_SIDE
            invariant
                y <= 16,
                tiles@.len() == y * 16,
                heights@.len() == y * 16,
                forall|a: int, b: int|
                    0 <= a < 16 && 0 <= b < y ==> #[trigger] tiles@[tile_index(a, b)] == default_tile(a, b),
                forall|i: int| 0 <= i < heights@.len() ==> #[trigger] heights@[i] == 0,
            decreases 16 - y,
        {
            let mut x: usize = 0;
            while x < MAP_SIDE
                invariant
                    y < 16,
                    x <= 16,
                    tiles@.len() == y * 16 + x,
                    heights@.len() == y * 16 + x,
                    forall|a: int, b: int|
                        0 <= a < 16 && 0 <= b < y ==> #[trigger] tiles@[tile_index(a, b)] == default_tile(a, b),
                    forall|a: int| 0 <= a < x ==> #[trigger] tiles@[tile_index(a, y as int)] == default_tile(a, y as int),
                    forall|i: int| 0 <= i < heights@.len() ==> #[trigger] heights@[i] == 0,
                decreases 16 - x,
            {
                tiles.push(starter_tile(x, y));
                heights.push(0);
                x = x + 1;
            }
            proof {
                assert forall|a: int, b: int|
                    0 <= a < 16 && 0 <= b < y + 1 implies #[trigger] tiles@[tile_index(a, b)] == default_tile(a, b) by {
                    if b == y {
                    }
                }
            }
            y = y + 1;
        }
        let mut npcs: Vec<[usize; 2]> = Vec::new();
        npcs.push([8, 7]);
        let mut decorations: Vec<Decoration> = Vec::new();
        decorations.push(Decoration { position: [5, 6], kind: DecorationKind::Fence });
        decorations.push(Decoration { position: [6, 6], kind: DecorationKind::Fence });
        decorations.push(Decoration { position: [10, 6], kind: DecorationKind::Fence });
        decorations.push(Decoration { position: [11, 6], kind: DecorationKind::Fence });
        decorations.push(Decoration { position: [4, 10], kind: DecorationKind::Fence });
        decorations.push(Decoration { position: [13, 10], kind: DecorationKind::Fence });
        decorations.push(Decoration { position: [3, 10], kind: DecorationKind::Lamp });
        decorations.push(Decoration { position: [12, 10], kind: DecorationKind::Lamp });
        decorations.push(Decoration { position: [2, 9], kind: DecorationKind::Flower });
        decorations.push(Decoration { position: [14, 9], kind: DecorationKind::Flower });
        decorations.push(Decoration { position: [2, 11], kind: DecorationKind::Snowman });
        let s = Scene {
            character: CharacterSet::default(),
            sprite: Sprite::default(),
            portals: Vec::new(),
            objective: None,
            light: default_light(),
            light_radius_bits: default_light_radius(),
            version: 1,
            tiles,
            collision: default_collision(),
            heights,
            npc: [8, 7],
            npcs,
            decorations,
            spawn: [8, 9],
            dialogue: String::from_str("Welcome! Build your village and tell its story."),
            dialogue_nodes: Vec::new(),
            ambient_bits: 0x3F59_999A,
        };
        assert(s.decorations@ =~= default_decorations());
        assert(s.npcs@ =~= seq![[8usize, 7]]);
        proof {
            assert forall|i: int| 0 <= i < 256 implies #[trigger] s.tiles@[i] <= 4 by {
                assert(s.tiles@[tile_index(i % 16, i / 16)] == default_tile(i % 16, i / 16));
            }
            assert(s.tiles@[tile_index(8, 9)] == default_tile(8, 9));
            assert(!s.blocked_by_decoration(8, 9));
            assert(s.decorations@[0].position[0] == 5 && s.decorations@[0].position[1] == 6);
        }
        s
    }
}

impl Scene {
    /// Everything the editor and the runtime rely on: version 1, a valid
    /// sprite, positions on the map, portals naming a map, light radius in
    /// 1..=32 and daylight in 0.2..=1.0 (as finite numbers), 256-tile layers,
    /// tile and height values 0..=4, and a sound dialogue graph.
    pub open spec fn valid(self) -> bool {
        &&& self.version == 1
        &&& self.sprite.valid()
        &&& forall|i: int|
            0 <= i < self.portals@.len() ==> on_map(#[trigger] self.portals@[i].at) && on_map(
                self.portals@[i].spawn,
            ) && self.portals@[i].map@.len() > 0
        &&& (self.objective matches Some(p) ==> on_map(p))
        &&& on_map(self.light)
        &&& RADIUS_MIN_BITS <= self.light_radius_bits <= RADIUS_MAX_BITS
        &&& self.tiles@.len() == 256
        &&& self.collision@.len() == 256
        &&& self.heights@.len() == 256
        &&& forall|i: int| 0 <= i < 256 ==> #[trigger] self.tiles@[i] <= 4
        &&& forall|i: int| 0 <= i < 256 ==> #[trigger] self.heights@[i] <= 4
        &&& on_map(self.npc)
        &&& on_map(self.spawn)
        &&& forall|i: int| 0 <= i < self.npcs@.len() ==> on_map(#[trigger] self.npcs@[i])
        &&& forall|i: int|
            0 <= i < self.decorations@.len() ==> on_map(#[trigger] self.decorations@[i].position)
        &&& AMBIENT_MIN_BITS <= self.ambient_bits <= AMBIENT_MAX_BITS
        &&& dialogue_valid(self.dialogue_nodes@)
    }

    /// Accepts a scene that can be saved and played; anything else is
    /// "Invalid scene data".
    pub fn validate(&self) -> (r: Result<(), String>)
        ensures
            r is Ok <==> self.valid(),
            r matches Err(e) ==> e@ == "Invalid scene data"@,
    {
        if self.scan() && validate_dialogue(self.dialogue_nodes.as_slice()).is_ok() {
            Ok(())
        } else {
            Err(String::from_str("Invalid scene data"))
        }
    }

    fn scan(&self) -> (r: bool)
        ensures
            r == (self.valid_layers() && self.valid_positions()),
    {
        self.scan_positions() && self.scan_layers()
    }

    /// The numeric and layer parts of validity.
    pub open spec fn valid_layers(self) -> bool {
        &&& self.version == 1
        &&& self.sprite.valid()
        &&& RADIUS_MIN_BITS <= self.light_radius_bits <= RADIUS_MAX_BITS
        &&& self.tiles@.len() == 256
        &&& self.collision@.len() == 256
        &&& self.heights@.len() == 256
        &&& forall|i: int| 0 <= i < 256 ==> #[trigger] self.tiles@[i] <= 4
        &&& forall|i: int| 0 <= i < 256 ==> #[trigger] self.heights@[i] <= 4
        &&& AMBIENT_MIN_BITS <= self.ambient_bits <= AMBIENT_MAX_BITS
    }

    /// The position parts of validity.
    pub open spec fn valid_positions(self) -> bool {
        &&& forall|i: int|
            0 <= i < self.portals@.len() ==> on_map(#[trigger] self.portals@[i].at) && on_map(
                self.portals@[i].spawn,
            ) && self.portals@[i].map@.len() > 0
        &&& (self.objective matches Some(p) ==> on_map(p))
        &&& on_map(self.light)
        &&& on_map(self.npc)
        &&& on_map(self.spawn)
        &&& forall|i: int| 0 <= i < self.npcs@.len() ==> on_map(#[trigger] self.npcs@[i])
        &&& forall|i: int|
            0 <= i < self.decorations@.len() ==> on_map(#[trigger] self.decorations@[i].position)
    }

    fn scan_layers(&self) -> (r: bool)
        ensures
            r == self.valid_layers(),
    {
        if self.version != 1 || !self.sprite.validate() || self.light_radius_bits < RADIUS_MIN_BITS
            || self.light_radius_bits > RADIUS_MAX_BITS || self.tiles.len() != MAP_LEN
            || self.collision.len() != MAP_LEN || self.heights.len() != MAP_LEN
            || self.ambient_bits < AMBIENT_MIN_BITS || self.ambient_bits > AMBIENT_MAX_BITS {
            return false;
        }
        let mut i: usize = 0;
        while i < MAP_LEN
            invariant
                self.tiles@.len() == 256,
                self.heights@.len() == 256,
                i <= 256,
                forall|k: int| 0 <= k < i ==> #[trigger] self.tiles@[k] <= 4,
                forall|k: int| 0 <= k < i ==> #[trigger] self.heights@[k] <= 4,
            decreases 256 - i,
        {
            if self.tiles[i] > 4 || self.heights[i] > 4 {
                return false;
            }
            i = i + 1;
        }
        true
    }

    fn scan_positions(&self) -> (r: bool)
        ensures
            r == self.valid_positions(),
    {
        let n = self.portals.len();
        let mut i: usize = 0;
        while i < n
            invariant
                n == self.portals@.len(),
                i <= n,
                forall|k: int|
                    0 <= k < i ==> on_map(#[trigger] self.portals@[k].at) && on_map(
                        self.portals@[k].spawn,
                    ) && self.portals@[k].map@.len() > 0,
            decreases n - i,
        {
            let p = &self.portals[i];
            if p.at[0] >= 16 || p.at[1] >= 16 || p.spawn[0] >= 16 || p.spawn[1] >= 16
                || p.map.as_str().is_empty() {
                return false;
            }
            i = i + 1;
        }
        if let Some(p) = self.objective {
            if p[0] >= 16 || p[1] >= 16 {
                return false;
            }
        }
        if self.light[0] >= 16 || self.light[1] >= 16 || self.npc[0] >= 16 || self.npc[1] >= 16
            || self.spawn[0] >= 16 || self.spawn[1] >= 16 {
            return false;
        }
        let n = self.npcs.len();
        let mut i: usize = 0;
        while i < n
            invariant
                n == self.npcs@.len(),
                i <= n,
                forall|k: int| 0 <= k < i ==> on_map(#[trigger] self.npcs@[k]),
            decreases n - i,
        {
            if self.npcs[i][0] >= 16 || self.npcs[i][1] >= 16 {
                return false;
            }
            i = i + 1;
        }
        let n = self.decorations.len();
        let mut i: usize = 0;
        while i < n
            invariant
                n == self.decorations@.len(),
                i <= n,
                forall|k: int| 0 <= k < i ==> on_map(#[trigger] self.decorations@[k].position),
            decreases n - i,
        {
            let d = self.decorations[i].position;
            if d[0] >= 16 || d[1] >= 16 {
                return false;
            }
            i = i + 1;
        }
        true
    }

    /// A blocking decoration stands on tile (`x`, `y`).
    pub open spec fn blocked_by_decoration(self, x: int, y: int) -> bool {
        exists|i: int|
            0 <= i < self.decorations@.len() && (#[trigger] self.decorations@[i]).position[0] == x
                && self.decorations@[i].position[1] == y && self.decorations@[i].kind.blocks_spec()
    }

    /// Tile (`x`, `y`) is on the map, is snow or path, has no authored
    /// collision and no fence or snowman.
    pub open spec fn walkable_spec(self, x: int, y: int) -> bool {
        &&& 0 <= x < 16
        &&& 0 <= y < 16
        &&& self.tiles@[tile_index(x, y)] < 2
        &&& !self.collision@[tile_index(x, y)]
        &&& !self.blocked_by_decoration(x, y)
    }

    /// Deciding whether tile (`x`, `y`) is walkable reads only entries that
    /// the layers have: the tile entry of a position on the map, and its
    /// collision entry where that tile is snow or path.
    pub open spec fn walk_safe(self, x: int, y: int) -> bool {
        0 <= x < 16 && 0 <= y < 16 ==> {
            &&& tile_index(x, y) < self.tiles@.len()
            &&& self.tiles@[tile_index(x, y)] < 2 ==> tile_index(x, y) < self.collision@.len()
        }
    }

    /// Whether the player may stand on tile (`x`, `y`).
    pub fn walkable(&self, x: usize, y: usize) -> (r: bool)
        requires
            self.walk_safe(x as int, y as int),
        ensures
            r == self.walkable_spec(x as int, y as int),
    {
        if x >= MAP_SIDE || y >= MAP_SIDE || self.tiles[y * 16 + x] >= 2 || self.collision[y * 16
            + x] {
            return false;
        }
        let n = self.decorations.len();
        let mut i: usize = 0;
        while i < n
            invariant
                n == self.decorations@.len(),
                i <= n,
                forall|k: int|
                    0 <= k < i ==> !((#[trigger] self.decorations@[k]).position[0] == x
                        && self.decorations@[k].position[1] == y
                        && self.decorations@[k].kind.blocks_spec()),
            decreases n - i,
        {
            let d = self.decorations[i];
            if d.position[0] == x && d.position[1] == y && d.kind.blocks() {
                return false;
            }
            i = i + 1;
        }
        true
    }
}


/// `ps` without the portals that stand on `xy`, in order.
pub open spec fn portals_not_at(ps: Seq<Portal>, xy: [usize; 2]) -> Seq<Portal>
    decreases ps.len(),
{
    if ps.len() == 0 {
        Seq::empty()
    } else if same_pos(ps.last().at, xy) {
        portals_not_at(ps.drop_last(), xy)
    } else {
        portals_not_at(ps.drop_last(), xy).push(ps.last())
    }
}

/// `ds` without the decorations that stand on `xy`, in order.
pub open spec fn decorations_not_at(ds: Seq<Decoration>, xy: [usize; 2]) -> Seq<Decoration>
    decreases ds.len(),
{
    if ds.len() == 0 {
        Seq::empty()
    } else if same_pos(ds.last().position, xy) {
        decorations_not_at(ds.drop_last(), xy)
    } else {
        decorations_not_at(ds.drop_last(), xy).push(ds.last())
    }
}

fn portals_without(ps: &Vec<Portal>, xy: [usize; 2]) -> (r: Vec<Portal>)
    ensures
        r@ == portals_not_at(ps@, xy),
{
    let mut r: Vec<Portal> = Vec::new();
    let n = ps.len();
    let mut i: usize = 0;
    while i < n
        invariant
            n == ps@.len(),
            i <= n,
            r@ == portals_not_at(ps@.subrange(0, i as int), xy),
        decreases n - i,
    {
        let p = &ps[i];
        proof {
            let s = ps@.subrange(0, i + 1);
            assert(s.drop_last() =~= ps@.subrange(0, i as int));
            assert(s.last() == ps@[i as int]);
        }
        if !(p.at[0] == xy[0] && p.at[1] == xy[1]) {
            r.push(p.copy());
        }
        i = i + 1;
    }
    assert(ps@.subrange(0, n as int) =~= ps@);
    r
}

fn decorations_without(ds: &Vec<Decoration>, xy: [usize; 2]) -> (r: Vec<Decoration>)
    ensures
        r@ == decorations_not_at(ds@, xy),
{
    let mut r: Vec<Decoration> = Vec::new();
    let n = ds.len();
    let mut i: usize = 0;
    while i < n
        invariant
            n == ds@.len(),
            i <= n,
            r@ == decorations_not_at(ds@.subrange(0, i as int), xy),
        decreases n - i,
    {
        let d = ds[i];
        proof {
            let s = ds@.subrange(0, i + 1);
            assert(s.drop_last() =~= ds@.subrange(0, i as int));
            assert(s.last() == ds@[i as int]);
        }
        if !(d.position[0] == xy[0] && d.position[1] == xy[1]) {
            r.push(d);
        }
        i = i + 1;
    }
    assert(ds@.subrange(0, n as int) =~= ds@);
    r
}

/// The decoration a brush places: 13 fence, 14 lamp, 15 flower, 16 snowman.
pub open spec fn brush_decoration(brush: u8) -> DecorationKind {
    if brush == 13 {
        DecorationKind::Fence
    } else if brush == 14 {
        DecorationKind::Lamp
    } else if brush == 15 {
        DecorationKind::Flower
    } else {
        DecorationKind::Snowman
    }
}

/// `b` equals `a` in every field, except those flagged as painted.
pub open spec fn same_except(
    a: Scene,
    b: Scene,
    actors: bool,
    portals: bool,
    marks: bool,
    layers: bool,
    decorations: bool,
) -> bool {
    &&& b.character == a.character
    &&& b.sprite == a.sprite
    &&& b.light_radius_bits == a.light_radius_bits
    &&& b.version == a.version
    &&& b.dialogue == a.dialogue
    &&& b.dialogue_nodes == a.dialogue_nodes
    &&& b.ambient_bits == a.ambient_bits
    &&& (!actors ==> b.npc == a.npc && b.npcs == a.npcs && b.spawn == a.spawn)
    &&& (!portals ==> b.portals == a.portals)
    &&& (!marks ==> b.objective == a.objective && b.light == a.light)
    &&& (!layers ==> b.tiles == a.tiles && b.collision == a.collision && b.heights == a.heights)
    &&& (!decorations ==> b.decorations == a.decorations)
}

impl Scene {
    /// Paints tile `xy` with world-builder brush `brush`: 5 moves the first
    /// NPC, 6 the spawn, 7 places a portal to `portal_target` / `portal_spawn`
    /// (replacing one on the tile), 8 sets the objective, 9 removes the
    /// tile's portals, 10 toggles collision, 11 moves the light, 12 stamps a
    /// 2 × 2 path block, 13..=16 place a decoration (replacing one on the
    /// tile); any other brush sets the tile value to `brush` and its height to
    /// `elevation`.
    pub fn apply_brush(
        &mut self,
        brush: u8,
        xy: [usize; 2],
        elevation: u8,
        portal_target: &str,
        portal_spawn: [usize; 2],
    )
        requires
            on_map(xy),
            old(self).tiles@.len() >= 256,
            old(self).collision@.len() >= 256,
            old(self).heights@.len() >= 256,
        ensures
            brush == 5 ==> same_except(*old(self), *final(self), true, false, false, false, false)
                && final(self).npc == xy && final(self).spawn == old(self).spawn && final(self).npcs@
                == (if old(self).npcs@.len() == 0 {
                seq![xy]
            } else {
                old(self).npcs@.update(0, xy)
            }),
            brush == 6 ==> same_except(*old(self), *final(self), true, false, false, false, false)
                && final(self).spawn == xy && final(self).npc == old(self).npc && final(self).npcs
                == old(self).npcs,
            brush == 7 ==> same_except(*old(self), *final(self), false, true, false, false, false)
                && final(self).portals@ == portals_not_at(old(self).portals@, xy).push(
                Portal { at: xy, map: final(self).portals@.last().map, spawn: portal_spawn },
            ) && final(self).portals@.last().map@ == portal_target@,
            brush == 8 ==> same_except(*old(self), *final(self), false, false, true, false, false)
                && final(self).objective == Some(xy) && final(self).light == old(self).light,
            brush == 9 ==> same_except(*old(self), *final(self), false, true, false, false, false)
                && final(self).portals@ == portals_not_at(old(self).portals@, xy),
            brush == 10 ==> same_except(*old(self), *final(self), false, false, false, true, false)
                && final(self).tiles == old(self).tiles && final(self).heights == old(self).heights
                && final(self).collision@ == old(self).collision@.update(
                tile_index(xy[0] as int, xy[1] as int),
                !old(self).collision@[tile_index(xy[0] as int, xy[1] as int)],
            ),
            brush == 11 ==> same_except(*old(self), *final(self), false, false, true, false, false)
                && final(self).light == xy && final(self).objective == old(self).objective,
            brush == 12 ==> same_except(*old(self), *final(self), false, false, false, true, false)
                && final(self).heights == old(self).heights && final(self).tiles@.len()
                == old(self).tiles@.len() && final(self).collision@.len()
                == old(self).collision@.len() && (forall|x: int, y: int|
                0 <= x < 16 && 0 <= y < 16 ==> {
                    let under = xy[0] <= x <= xy[0] + 1 && xy[1] <= y <= xy[1] + 1;
                    &&& #[trigger] final(self).tiles@[tile_index(x, y)] == if under {
                        1u8
                    } else {
                        old(self).tiles@[tile_index(x, y)]
                    }
                    &&& final(self).collision@[tile_index(x, y)] == if under {
                        false
                    } else {
                        old(self).collision@[tile_index(x, y)]
                    }
                }) && (forall|i: int|
                256 <= i < old(self).tiles@.len() ==> #[trigger] final(self).tiles@[i] == old(
                    self,
                ).tiles@[i]) && (forall|i: int|
                256 <= i < old(self).collision@.len() ==> #[trigger] final(self).collision@[i]
                    == old(self).collision@[i]),
            13 <= brush <= 16 ==> same_except(*old(self), *final(self), false, false, false, false, true)
                && final(self).decorations@ == decorations_not_at(old(self).decorations@, xy).push(
                Decoration { position: xy, kind: brush_decoration(brush) },
            ),
            (brush < 5 || brush > 16) ==> same_except(*old(self), *final(self), false, false, false, true, false)
                && final(self).collision == old(self).collision && final(self).tiles@ == old(
                self,
            ).tiles@.update(tile_index(xy[0] as int, xy[1] as int), brush) && final(self).heights@
                == old(self).heights@.update(tile_index(xy[0] as int, xy[1] as int), elevation),
    {
        let idx = xy[1] * 16 + xy[0];
        if brush == 5 {
            self.npc = xy;
            if self.npcs.len() == 0 {
                self.npcs.push(xy);
                assert(self.npcs@ =~= seq![xy]);
            } else {
                self.npcs.set(0, xy);
            }
        } else if brush == 6 {
            self.spawn = xy;
        } else if brush == 7 {
            let mut kept = portals_without(&self.portals, xy);
            kept.push(Portal { at: xy, map: String::from_str(portal_target), spawn: portal_spawn });
            self.portals = kept;
        } else if brush == 8 {
            self.objective = Some(xy);
        } else if brush == 9 {
            self.portals = portals_without(&self.portals, xy);
        } else if brush == 10 {
            let c = self.collision[idx];
            self.collision.set(idx, !c);
        } else if brush == 11 {
            self.light = xy;
        } else if brush == 12 {
            let mut tiles: Vec<u8> = Vec::new();
            tiles.push(1);
            tiles.push(1);
            tiles.push(1);
            tiles.push(1);
            let mut collision: Vec<bool> = Vec::new();
            collision.push(false);
            collision.push(false);
            collision.push(false);
            collision.push(false);
            let stamp = TileStamp { width: 2, height: 2, tiles, collision };
            let ghost before = *self;
            proof {
                assert(stamp.well_shaped());
                assert(!stamp.bad_cell(xy, 0, 0) && !stamp.bad_cell(xy, 1, 0));
                assert(!stamp.bad_cell(xy, 0, 1) && !stamp.bad_cell(xy, 1, 1));
                assert(stamp.first_bad_from(xy, 2, 0) == (2int, 0int));
                assert(stamp.first_bad_from(xy, 1, 2) == (2int, 0int));
                assert(stamp.first_bad_from(xy, 1, 1) == (2int, 0int));
                assert(stamp.first_bad_from(xy, 1, 0) == (2int, 0int));
                assert(stamp.first_bad_from(xy, 0, 2) == (2int, 0int));
                assert(stamp.first_bad_from(xy, 0, 1) == (2int, 0int));
                assert(stamp.stop(xy) == (2int, 0int));
            }
            let r = stamp.apply(self, xy);
            proof {
                assert forall|x: int, y: int| 0 <= x < 16 && 0 <= y < 16 implies {
                    let under = xy[0] <= x <= xy[0] + 1 && xy[1] <= y <= xy[1] + 1;
                    &&& #[trigger] self.tiles@[tile_index(x, y)] == if under {
                        1u8
                    } else {
                        before.tiles@[tile_index(x, y)]
                    }
                    &&& self.collision@[tile_index(x, y)] == if under {
                        false
                    } else {
                        before.collision@[tile_index(x, y)]
                    }
                } by {
                    let i = tile_index(x, y);
                    assert(i % 16 == x && i / 16 == y);
                    assert(self.tiles@[i] == stamp.painted_tiles(before.tiles@, xy, (2, 0))[i]);
                    assert(self.collision@[i] == stamp.painted_collision(before.collision@, xy, (2, 0))[i]);
                }
                assert forall|i: int| 256 <= i < before.tiles@.len() implies #[trigger] self.tiles@[i]
                    == before.tiles@[i] by {
                    assert(self.tiles@[i] == stamp.painted_tiles(before.tiles@, xy, (2, 0))[i]);
                }
                assert forall|i: int| 256 <= i < before.collision@.len() implies #[trigger] self.collision@[i]
                    == before.collision@[i] by {
                    assert(self.collision@[i] == stamp.painted_collision(before.collision@, xy, (2, 0))[i]);
                }
            }
        } else if 13 <= brush && brush <= 16 {
            let kind = if brush == 13 {
                DecorationKind::Fence
            } else if brush == 14 {
                DecorationKind::Lamp
            } else if brush == 15 {
                DecorationKind::Flower
            } else {
                DecorationKind::Snowman
            };
            let mut kept = decorations_without(&self.decorations, xy);
            kept.push(Decoration { position: xy, kind });
            self.decorations = kept;
        } else {
            self.tiles.set(idx, brush);
            self.heights.set(idx, elevation);
        }
    }
}

/// Records `scene` as the latest map edit that can be undone, dropping the
/// oldest when 32 are kept.
pub fn record_history(history: &mut Vec<Scene>, scene: Scene)
    ensures
        final(history)@ == (if old(history)@.len() == 32 {
            old(history)@.drop_first()
        } else {
            old(history)@
        }).push(scene),
{
    if history.len() == 32 {
        history.remove(0);
    }
    history.push(scene);
}

/// Undoes the last map edit: the last recorded scene, if any, comes back.
pub fn undo_map_edit(history: &mut Vec<Scene>, scene: &mut Scene)
    ensures
        old(history)@.len() == 0 ==> final(history)@ == old(history)@ && *final(scene) == *old(scene),
        old(history)@.len() > 0 ==> final(history)@ == old(history)@.drop_last() && *final(scene)
            == old(history)@.last(),
{
    if let Some(previous) = history.pop() {
        *scene = previous;
    }
}

/// The decoration brushes place, in the order of their labels, a fence
/// (13), a lamp (14), a flower (15) and a snowman (16).
pub proof fn decoration_brushes_follow_their_labels(brush: u8)
    requires
        13 <= brush <= 16,
    ensures
        brush_decoration(brush) == seq![
            DecorationKind::Fence,
            DecorationKind::Lamp,
            DecorationKind::Flower,
            DecorationKind::Snowman,
        ][brush - 13],
{
}

/// Water, trees and buildings (tile values 2 and up), tiles the collision
/// layer marks and tiles off the 16 × 16 map are never walkable.
pub proof fn blocked_tiles_are_not_walkable(s: Scene, x: int, y: int)
    ensures
        s.walkable_spec(x, y) ==> {
            &&& 0 <= x < 16 && 0 <= y < 16
            &&& s.tiles@[y * 16 + x] <= 1
            &&& !s.collision@[y * 16 + x]
        },
        0 <= x < 16 && 0 <= y < 16 && s.tiles@[y * 16 + x] >= 2 ==> !s.walkable_spec(x, y),
{
}

} // verus!
