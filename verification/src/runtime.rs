//! The deterministic grid runtime: movement, collision, portals, objectives,
//! paged dialogue and game saves. No rendering or windowing.
use vstd::prelude::*;
use crate::names::{NameMap, position, lemma_position};
use crate::world::{Scene, same_pos, tile_index};

verus! {

/// A tile that sends the player to `spawn` on map `map`.
#[derive(Clone, Debug, PartialEq)]
pub struct Portal {
    pub at: [usize; 2],
    pub map: String,
    pub spawn: [usize; 2],
}

impl Portal {
    /// An identical portal.
    pub fn copy(&self) -> (r: Portal)
        ensures
            r == *self,
    {
        Portal { at: self.at, map: self.map.clone(), spawn: self.spawn }
    }
}

/// Game progress: the map and tile of the player and whether the objective
/// was reached.
#[derive(Clone, Debug, PartialEq)]
pub struct Save {
    pub version: u32,
    pub map: String,
    pub position: [usize; 2],
    pub completed: bool,
}

impl Save {
    /// An identical save.
    pub fn copy(&self) -> (r: Save)
        ensures
            r == *self,
    {
        Save {
            version: self.version,
            map: self.map.clone(),
            position: self.position,
            completed: self.completed,
        }
    }
}

/// An NPC stands on `pos`: one of the listed NPCs, or the single legacy NPC
/// when the list is empty.
pub open spec fn npc_at(scene: Scene, pos: [usize; 2]) -> bool {
    (exists|i: int| 0 <= i < scene.npcs@.len() && same_pos(#[trigger] scene.npcs@[i], pos)) || (
    scene.npcs@.len() == 0 && same_pos(scene.npc, pos))
}

/// The player may stand on `pos`: it is walkable and no NPC is there.
pub open spec fn free_tile(scene: Scene, pos: [usize; 2]) -> bool {
    scene.walkable_spec(pos[0] as int, pos[1] as int) && !npc_at(scene, pos)
}

/// Whether an NPC of `scene` stands on `pos`.
pub fn npc_on(scene: &Scene, pos: [usize; 2]) -> (r: bool)
    ensures
        r == npc_at(*scene, pos),
{
    let n = scene.npcs.len();
    let mut i: usize = 0;
    while i < n
        invariant
            n == scene.npcs@.len(),
            i <= n,
            forall|k: int| 0 <= k < i ==> !same_pos(#[trigger] scene.npcs@[k], pos),
        decreases n - i,
    {
        let q = scene.npcs[i];
        if q[0] == pos[0] && q[1] == pos[1] {
            return true;
        }
        i = i + 1;
    }
    n == 0 && scene.npc[0] == pos[0] && scene.npc[1] == pos[1]
}

fn free_on(scene: &Scene, pos: [usize; 2]) -> (r: bool)
    requires
        scene.walk_safe(pos[0] as int, pos[1] as int),
    ensures
        r == free_tile(*scene, pos),
{
    scene.walkable(pos[0], pos[1]) && !npc_on(scene, pos)
}

/// The first reason a portal of `ps`, from the `j`-th on, cannot be used.
pub open spec fn portal_error_from(maps: NameMap<Scene>, ps: Seq<Portal>, j: int) -> Option<Seq<char>>
    decreases ps.len() - j,
{
    if j < 0 || j >= ps.len() {
        None
    } else {
        match maps.lookup(ps[j].map@) {
            None => Some("Portal destination map missing"@),
            Some(d) => if !free_tile(d, ps[j].spawn) {
                Some("Portal destination is blocked"@)
            } else {
                portal_error_from(maps, ps, j + 1)
            },
        }
    }
}

/// Portal `p` leads to a free tile of a known map.
pub open spec fn portal_ok(maps: NameMap<Scene>, p: Portal) -> bool {
    maps.lookup(p.map@) matches Some(d) && free_tile(d, p.spawn)
}

/// Starting a game gets as far as the `j`-th portal of the `i`-th map: the
/// maps before it have no problem, it is valid, and its earlier portals lead
/// to free tiles of known maps.
pub open spec fn portal_reached(maps: NameMap<Scene>, i: int, j: int) -> bool {
    &&& forall|a: int| 0 <= a < i ==> #[trigger] map_error(maps, a).is_none()
    &&& maps.vals()[i].valid()
    &&& forall|k: int| 0 <= k < j ==> portal_ok(maps, #[trigger] maps.vals()[i].portals@[k])
}

/// The first problem of the `i`-th map: invalid data, else a bad portal.
pub open spec fn map_error(maps: NameMap<Scene>, i: int) -> Option<Seq<char>> {
    let s = maps.vals()[i];
    if !s.valid() {
        Some("Invalid scene data"@)
    } else {
        portal_error_from(maps, s.portals@, 0)
    }
}

/// The first problem among the maps from the `i`-th on, in name order.
pub open spec fn maps_error_from(maps: NameMap<Scene>, i: int) -> Option<Seq<char>>
    decreases maps.keys().len() - i,
{
    if i < 0 || i >= maps.keys().len() {
        None
    } else {
        match map_error(maps, i) {
            Some(e) => Some(e),
            None => maps_error_from(maps, i + 1),
        }
    }
}

/// Why a game cannot start on map `entry` of `maps`, if it cannot.
pub open spec fn start_error(maps: NameMap<Scene>, entry: Seq<char>) -> Option<Seq<char>> {
    match maps_error_from(maps, 0) {
        Some(e) => Some(e),
        None => match maps.lookup(entry) {
            None => Some("Entry map missing"@),
            Some(s) => if !free_tile(s, s.spawn) {
                Some("Player spawn is blocked"@)
            } else {
                None
            },
        },
    }
}

/// Every map is valid and every portal leads to a free tile of a known map.
pub open spec fn maps_playable(maps: NameMap<Scene>) -> bool {
    &&& maps.wf()
    &&& forall|i: int| 0 <= i < maps.keys().len() ==> (#[trigger] maps.vals()[i]).valid()
    &&& forall|i: int, j: int|
        0 <= i < maps.keys().len() && 0 <= j < maps.vals()[i].portals@.len() ==> {
            let p = #[trigger] maps.vals()[i].portals@[j];
            maps.lookup(p.map@) matches Some(d) && free_tile(d, p.spawn)
        }
}

proof fn lemma_portal_error_from(maps: NameMap<Scene>, ps: Seq<Portal>, j: int)
    requires
        0 <= j <= ps.len(),
    ensures
        portal_error_from(maps, ps, j).is_none() <==> (forall|k: int|
            j <= k < ps.len() ==> (maps.lookup((#[trigger] ps[k]).map@) matches Some(d) && free_tile(
                d,
                ps[k].spawn,
            ))),
    decreases ps.len() - j,
{
    if j < ps.len() {
        lemma_portal_error_from(maps, ps, j + 1);
    }
}

proof fn lemma_maps_error_from(maps: NameMap<Scene>, i: int)
    requires
        maps.wf(),
        0 <= i <= maps.keys().len(),
    ensures
        maps_error_from(maps, i).is_none() <==> (forall|a: int|
            i <= a < maps.keys().len() ==> #[trigger] map_error(maps, a).is_none()),
    decreases maps.keys().len() - i,
{
    if i < maps.keys().len() {
        lemma_maps_error_from(maps, i + 1);
    }
}

/// The maps have no first problem exactly when they are playable.
pub proof fn lemma_maps_error_iff(maps: NameMap<Scene>)
    requires
        maps.wf(),
    ensures
        maps_error_from(maps, 0).is_none() <==> maps_playable(maps),
{
    lemma_maps_error_from(maps, 0);
    assert forall|a: int| 0 <= a < maps.keys().len() implies #[trigger] map_error(maps, a).is_none()
        <==> (maps.vals()[a].valid() && forall|j: int|
        0 <= j < maps.vals()[a].portals@.len() ==> {
            let p = #[trigger] maps.vals()[a].portals@[j];
            maps.lookup(p.map@) matches Some(d) && free_tile(d, p.spawn)
        }) by {
        lemma_portal_error_from(maps, maps.vals()[a].portals@, 0);
    }
    if maps_playable(maps) {
        assert forall|a: int| 0 <= a < maps.keys().len() implies #[trigger] map_error(maps, a).is_none() by {
            assert forall|j: int| 0 <= j < maps.vals()[a].portals@.len() implies {
                let p = #[trigger] maps.vals()[a].portals@[j];
                maps.lookup(p.map@) matches Some(d) && free_tile(d, p.spawn)
            } by {
                let p = maps.vals()[a].portals@[j];
                assert(maps.lookup(p.map@) matches Some(d) && free_tile(d, p.spawn));
            }
        }
    }
    if maps_error_from(maps, 0).is_none() {
        assert forall|i: int, j: int|
            0 <= i < maps.keys().len() && 0 <= j < maps.vals()[i].portals@.len() implies {
            let p = #[trigger] maps.vals()[i].portals@[j];
            maps.lookup(p.map@) matches Some(d) && free_tile(d, p.spawn)
        } by {
            assert(map_error(maps, i).is_none());
        }
        assert forall|i: int| 0 <= i < maps.keys().len() implies (#[trigger] maps.vals()[i]).valid() by {
            assert(map_error(maps, i).is_none());
        }
    }
}

/// First position at or after `from` holding '|', or the length.
pub open spec fn next_bar(s: Seq<char>, from: int) -> int
    decreases s.len() - from,
{
    if from < 0 || from >= s.len() {
        s.len() as int
    } else if s[from] == '|' {
        from
    } else {
        next_bar(s, from + 1)
    }
}

/// Piece `k` of the '|'-separated text that starts at `from`.
pub open spec fn piece_from(s: Seq<char>, from: int, k: nat) -> Option<Seq<char>>
    decreases k,
{
    let e = next_bar(s, from);
    if k == 0 {
        Some(s.subrange(from, e))
    } else if e >= s.len() {
        None
    } else {
        piece_from(s, e + 1, (k - 1) as nat)
    }
}

/// Page `k` of a dialogue: the `k`-th piece of the text split at '|'.
pub open spec fn dialogue_page(s: Seq<char>, k: nat) -> Option<Seq<char>> {
    piece_from(s, 0, k)
}

proof fn lemma_next_bar(s: Seq<char>, from: int)
    requires
        0 <= from <= s.len(),
    ensures
        from <= next_bar(s, from) <= s.len(),
        next_bar(s, from) < s.len() ==> s[next_bar(s, from)] == '|',
    decreases s.len() - from,
{
    if from < s.len() && s[from] != '|' {
        lemma_next_bar(s, from + 1);
    }
}

proof fn lemma_piece_bound(s: Seq<char>, from: int, k: nat)
    requires
        0 <= from <= s.len(),
        piece_from(s, from, k).is_some(),
    ensures
        k <= s.len() - from,
    decreases k,
{
    lemma_next_bar(s, from);
    if k > 0 {
        lemma_piece_bound(s, next_bar(s, from) + 1, (k - 1) as nat);
    }
}

/// Character bounds of page `k` of `s`, if the page exists.
fn page_bounds(s: &str, k: usize) -> (r: Option<(usize, usize)>)
    ensures
        match r {
            Some((a, b)) => a <= b <= s@.len() && dialogue_page(s@, k as nat) == Some(
                s@.subrange(a as int, b as int),
            ),
            None => dialogue_page(s@, k as nat).is_none(),
        },
{
    let n = s.unicode_len();
    let mut from: usize = 0;
    let mut i: usize = 0;
    while i < k
        invariant
            n == s@.len(),
            from <= n,
            i <= k,
            piece_from(s@, from as int, (k - i) as nat) == dialogue_page(s@, k as nat),
        decreases k - i,
    {
        let mut e = from;
        while e < n && s.get_char(e) != '|'
            invariant
                n == s@.len(),
                from <= e <= n,
                next_bar(s@, e as int) == next_bar(s@, from as int),
            decreases n - e,
        {
            e = e + 1;
        }
        if e >= n {
            return None;
        }
        from = e + 1;
        i = i + 1;
    }
    let mut e = from;
    while e < n && s.get_char(e) != '|'
        invariant
            n == s@.len(),
            from <= e <= n,
            next_bar(s@, e as int) == next_bar(s@, from as int),
        decreases n - e,
    {
        e = e + 1;
    }
    Some((from, e))
}

/// Some NPC (listed, or the legacy one) is one step from `pos`.
pub open spec fn npc_adjacent(scene: Scene, pos: [usize; 2]) -> bool {
    let touching = |n: [usize; 2]|
        (if pos[0] >= n[0] {
            pos[0] - n[0]
        } else {
            n[0] - pos[0]
        }) + (if pos[1] >= n[1] {
            pos[1] - n[1]
        } else {
            n[1] - pos[1]
        }) == 1;
    (exists|i: int| 0 <= i < scene.npcs@.len() && touching(#[trigger] scene.npcs@[i])) || touching(
        scene.npc,
    )
}

fn touching(pos: [usize; 2], n: [usize; 2]) -> (r: bool)
    ensures
        r == ((if pos[0] >= n[0] {
            pos[0] - n[0]
        } else {
            n[0] - pos[0]
        }) + (if pos[1] >= n[1] {
            pos[1] - n[1]
        } else {
            n[1] - pos[1]
        }) == 1),
{
    let dx = if pos[0] >= n[0] {
        pos[0] - n[0]
    } else {
        n[0] - pos[0]
    };
    let dy = if pos[1] >= n[1] {
        pos[1] - n[1]
    } else {
        n[1] - pos[1]
    };
    dx <= 1 && dy <= 1 && dx + dy == 1
}

/// The first portal of `ps` standing on `at`.
pub open spec fn first_portal_at(ps: Seq<Portal>, at: [usize; 2], j: int) -> Option<Portal>
    decreases ps.len() - j,
{
    if j < 0 || j >= ps.len() {
        None
    } else if same_pos(ps[j].at, at) {
        Some(ps[j])
    } else {
        first_portal_at(ps, at, j + 1)
    }
}

/// The log's texts.
pub open spec fn log_texts(log: Seq<String>) -> Seq<Seq<char>> {
    log.map_values(|s: String| s@)
}

/// A log after adding `lines`, dropping the oldest entry once when it grows
/// past 64 entries.
pub open spec fn log_after(log: Seq<Seq<char>>, lines: Seq<Seq<char>>) -> Seq<Seq<char>> {
    let l = log + lines;
    if l.len() > 64 {
        l.drop_first()
    } else {
        l
    }
}

/// A save can be loaded into a game over `maps`: its map is known, its
/// version is 1, and its tile is free.
pub open spec fn restorable(maps: NameMap<Scene>, save: Save) -> bool {
    &&& maps.lookup(save.map@) matches Some(s)
    &&& save.version == 1
    &&& free_tile(s, save.position)
}

/// A running game over a set of named maps.
pub struct Runtime {
    pub maps: NameMap<Scene>,
    pub state: Save,
    pub page: Option<usize>,
    pub direction: [i32; 2],
    pub log: Vec<String>,
}

impl Runtime {
    /// The map the player is on.
    pub open spec fn current(self) -> Scene {
        self.maps.lookup(self.state.map@)->0
    }

    /// What every running game keeps: playable maps, progress that could be
    /// restored (a known map, version 1, a free tile), and an open dialogue
    /// page that exists.
    pub open spec fn wf(self) -> bool {
        &&& maps_playable(self.maps)
        &&& restorable(self.maps, self.state)
        &&& (self.page matches Some(k) ==> dialogue_page(self.current().dialogue@, k as nat).is_some())
    }

    /// Starts a game on map `entry`. Every map must be valid, every portal
    /// must lead to a free tile of a known map, and the entry map must exist
    /// with a free spawn; the first failure, in map-name order, is returned.
    pub fn new(maps: NameMap<Scene>, entry: &str) -> (r: Result<Runtime, String>)
        requires
            maps.wf(),
            forall|i: int, j: int|
                0 <= i < maps.keys().len() && 0 <= j < maps.vals()[i].portals@.len() && portal_reached(
                    maps,
                    i,
                    j,
                ) ==> (maps.lookup((#[trigger] maps.vals()[i].portals@[j]).map@) matches Some(d)
                    ==> d.walk_safe(
                    maps.vals()[i].portals@[j].spawn[0] as int,
                    maps.vals()[i].portals@[j].spawn[1] as int,
                )),
        ensures
            match r {
                Ok(rt) => {
                    &&& start_error(maps, entry@).is_none()
                    &&& rt.wf()
                    &&& rt.maps == maps
                    &&& rt.state.version == 1
                    &&& rt.state.map@ == entry@
                    &&& rt.state.position == maps.lookup(entry@)->0.spawn
                    &&& !rt.state.completed
                    &&& rt.page.is_none()
                    &&& rt.direction == [0i32, 1]
                    &&& log_texts(rt.log@) == seq!["Game started"@]
                },
                Err(e) => start_error(maps, entry@) == Some(e@),
            },
    {
        proof {
            lemma_maps_error_iff(maps);
        }
        let n = maps.len();
        let mut i: usize = 0;
        while i < n
            invariant
                n == maps.keys().len(),
                maps.wf(),
                i <= n,
                maps_error_from(maps, i as int) == maps_error_from(maps, 0),
                forall|a: int| 0 <= a < i ==> #[trigger] map_error(maps, a).is_none(),
                forall|i: int, j: int|
                    0 <= i < maps.keys().len() && 0 <= j < maps.vals()[i].portals@.len() && portal_reached(
                        maps,
                        i,
                        j,
                    ) ==> (maps.lookup((#[trigger] maps.vals()[i].portals@[j]).map@) matches Some(d)
                        ==> d.walk_safe(
                        maps.vals()[i].portals@[j].spawn[0] as int,
                        maps.vals()[i].portals@[j].spawn[1] as int,
                    )),
            decreases n - i,
        {
            let scene = maps.value_at(i);
            if let Err(e) = scene.validate() {
                return Err(e);
            }
            let m = scene.portals.len();
            let mut j: usize = 0;
            while j < m
                invariant
                    n == maps.keys().len(),
                    maps.wf(),
                    i < n,
                    *scene == maps.vals()[i as int],
                    scene.valid(),
                    m == scene.portals@.len(),
                    j <= m,
                    maps_error_from(maps, i as int) == maps_error_from(maps, 0),
                    portal_error_from(maps, scene.portals@, j as int) == portal_error_from(
                        maps,
                        scene.portals@,
                        0,
                    ),
                    forall|a: int| 0 <= a < i ==> #[trigger] map_error(maps, a).is_none(),
                    forall|k: int| 0 <= k < j ==> portal_ok(maps, #[trigger] scene.portals@[k]),
                    forall|i: int, j: int|
                        0 <= i < maps.keys().len() && 0 <= j < maps.vals()[i].portals@.len() && portal_reached(
                            maps,
                            i,
                            j,
                        ) ==> (maps.lookup((#[trigger] maps.vals()[i].portals@[j]).map@) matches Some(d)
                            ==> d.walk_safe(
                            maps.vals()[i].portals@[j].spawn[0] as int,
                            maps.vals()[i].portals@[j].spawn[1] as int,
                        )),
                decreases m - j,
            {
                let p = &scene.portals[j];
                proof {
                    assert(maps.vals()[i as int].portals@[j as int] == *p);
                    assert(portal_reached(maps, i as int, j as int));
                }
                match maps.get(p.map.as_str()) {
                    None => {
                        return Err(String::from_str("Portal destination map missing"));
                    },
                    Some(dest) => {
                        if !free_on(dest, p.spawn) {
                            return Err(String::from_str("Portal destination is blocked"));
                        }
                    },
                }
                j = j + 1;
            }
            assert(map_error(maps, i as int).is_none());
            i = i + 1;
        }
        let scene = match maps.get(entry) {
            None => {
                return Err(String::from_str("Entry map missing"));
            },
            Some(s) => s,
        };
        proof {
            lemma_position(maps.keys(), entry@);
        }
        if !free_on(scene, scene.spawn) {
            return Err(String::from_str("Player spawn is blocked"));
        }
        let position = scene.spawn;
        let mut log: Vec<String> = Vec::new();
        log.push(String::from_str("Game started"));
        let rt = Runtime {
            maps,
            state: Save { version: 1, map: String::from_str(entry), position, completed: false },
            page: None,
            direction: [0, 1],
            log,
        };
        assert(log_texts(rt.log@) =~= seq!["Game started"@]);
        Ok(rt)
    }

    /// The map the player is on.
    pub fn scene(&self) -> (s: &Scene)
        requires
            self.wf(),
        ensures
            *s == self.current(),
            s.valid(),
    {
        proof {
            lemma_position(self.maps.keys(), self.state.map@);
        }
        self.maps.get(self.state.map.as_str()).unwrap()
    }
}


/// Absolute value of a step component.
pub open spec fn step_len(d: i32) -> int {
    if d < 0 {
        -d
    } else {
        d as int
    }
}

/// The tile one step (`dx`, `dy`) away from `pos`, when it is not off the
/// top or left edge.
pub open spec fn step_target(pos: [usize; 2], dx: i32, dy: i32) -> Option<[usize; 2]> {
    let nx = pos[0] + dx;
    let ny = pos[1] + dy;
    if nx < 0 || ny < 0 {
        None
    } else {
        Some([nx as usize, ny as usize])
    }
}

/// Difference of two tile heights.
pub open spec fn height_gap(a: u8, b: u8) -> int {
    if a >= b {
        a - b
    } else {
        b - a
    }
}

/// The text of the log line recording entry into map `map`.
pub open spec fn entered_line(map: Seq<char>) -> Seq<char> {
    "Entered "@ + map
}

impl Runtime {
    /// A step is asked for: no dialogue is open and the step is one tile
    /// along one axis.
    pub open spec fn step_requested(self, dx: i32, dy: i32) -> bool {
        self.page.is_none() && step_len(dx) + step_len(dy) == 1
    }

    /// A step is taken: it is asked for, and its target is on the map, free,
    /// and at most one height level away.
    pub open spec fn step_allowed(self, dx: i32, dy: i32) -> bool {
        &&& self.step_requested(dx, dy)
        &&& step_target(self.state.position, dx, dy) matches Some(next)
        &&& free_tile(self.current(), next)
        &&& height_gap(
            self.current().heights@[tile_index(next[0] as int, next[1] as int)],
            self.current().heights@[tile_index(
                self.state.position[0] as int,
                self.state.position[1] as int,
            )],
        ) <= 1
    }

    /// Moves the player one tile by (`dx`, `dy`). Any requested step turns
    /// the player; the move happens only onto a free tile of the map within
    /// one height level. A portal on the target tile carries the player to
    /// its destination; reaching the current map's objective completes it.
    /// Returns whether the player moved.
    pub fn step(&mut self, dx: i32, dy: i32) -> (r: bool)
        requires
            old(self).wf(),
            old(self).page is None ==> dx != i32::MIN && dy != i32::MIN && step_len(dx) + step_len(dy)
                <= i32::MAX,
        ensures
            final(self).wf(),
            r == old(self).step_allowed(dx, dy),
            final(self).maps == old(self).maps,
            final(self).page == old(self).page,
            final(self).direction == if old(self).step_requested(dx, dy) {
                [dx, dy]
            } else {
                old(self).direction
            },
            final(self).state.version == old(self).state.version,
            old(self).state.completed ==> final(self).state.completed,
            !r ==> final(self).state == old(self).state && final(self).log == old(self).log,
            r ==> {
                let next = step_target(old(self).state.position, dx, dy)->0;
                let portal = first_portal_at(old(self).current().portals@, next, 0);
                &&& final(self).state.map@ == (match portal {
                    Some(p) => p.map@,
                    None => old(self).state.map@,
                })
                &&& final(self).state.position == (match portal {
                    Some(p) => p.spawn,
                    None => next,
                })
                &&& final(self).state.completed == (old(self).state.completed || (final(self).current().objective
                    matches Some(o) && same_pos(o, final(self).state.position)))
                &&& log_texts(final(self).log@) == log_after(
                    log_texts(old(self).log@),
                    (match portal {
                        Some(p) => seq![entered_line(p.map@)],
                        None => Seq::empty(),
                    }) + (if final(self).current().objective matches Some(o) && same_pos(
                        o,
                        final(self).state.position,
                    ) {
                        seq!["Objective completed"@]
                    } else {
                        Seq::empty()
                    }),
                )
            },
    {
        if self.page.is_some() {
            return false;
        }
        let adx = if dx < 0 {
            -dx
        } else {
            dx
        };
        let ady = if dy < 0 {
            -dy
        } else {
            dy
        };
        if adx + ady != 1 {
            return false;
        }
        self.direction = [dx, dy];
        let ghost before = *self;
        let x = self.state.position[0];
        let y = self.state.position[1];
        proof {
            lemma_position(self.maps.keys(), self.state.map@);
        }
        let nx = x as i32 + dx;
        let ny = y as i32 + dy;
        if nx < 0 || ny < 0 {
            return false;
        }
        let next = [nx as usize, ny as usize];
        let s = self.scene();
        if !s.walkable(next[0], next[1]) || npc_on(s, next) {
            return false;
        }
        let here = s.heights[y * 16 + x];
        let there = s.heights[next[1] * 16 + next[0]];
        let gap = if here >= there {
            here - there
        } else {
            there - here
        };
        if gap > 1 {
            return false;
        }
        let ghost cur = s.portals@;
        let portal = find_portal(&s.portals, next);
        self.state.position = next;
        let ghost old_log = log_texts(self.log@);
        let ghost mut lines: Seq<Seq<char>> = Seq::empty();
        if let Some(p) = portal {
            proof {
                let k = choose|k: int| 0 <= k < cur.len() && cur[k] == p;
                assert(first_portal_at(cur, next, 0) == Some(p));
                lemma_first_portal_in(cur, next, 0);
                let si = position(self.maps.keys(), before.state.map@);
                assert(self.maps.vals()[si].portals@ == cur);
            }
            self.state.map = p.map;
            self.state.position = p.spawn;
            let mut line = String::from_str("Entered ");
            line.append(self.state.map.as_str());
            self.log.push(line);
            proof {
                lines = seq![entered_line(self.state.map@)];
            }
        }
        proof {
            assert(log_texts(self.log@) =~= old_log + lines);
            lemma_position(self.maps.keys(), self.state.map@);
        }
        let reached = match self.scene().objective {
            Some(o) => o[0] == self.state.position[0] && o[1] == self.state.position[1],
            None => false,
        };
        if reached {
            self.state.completed = true;
            self.log.push(String::from_str("Objective completed"));
            proof {
                lines = lines + seq!["Objective completed"@];
            }
        }
        proof {
            assert(log_texts(self.log@) =~= old_log + lines);
        }
        if self.log.len() > 64 {
            self.log.remove(0);
        }
        proof {
            assert(log_texts(self.log@) =~= log_after(old_log, lines));
        }
        true
    }

    /// Talks: with a dialogue open, turns to the next page or closes the
    /// dialogue after the last one; otherwise opens the first page when an
    /// NPC stands one step away.
    pub fn interact(&mut self)
        requires
            old(self).wf(),
        ensures
            final(self).wf(),
            final(self).maps == old(self).maps,
            final(self).state == old(self).state,
            final(self).direction == old(self).direction,
            final(self).log == old(self).log,
            final(self).page == (match old(self).page {
                Some(k) => if dialogue_page(old(self).current().dialogue@, (k + 1) as nat).is_some() {
                    Some((k + 1) as usize)
                } else {
                    None
                },
                None => if npc_adjacent(old(self).current(), old(self).state.position) {
                    Some(0usize)
                } else {
                    None
                },
            }),
    {
        let s = self.scene();
        match self.page {
            Some(k) => {
                let len = s.dialogue.as_str().unicode_len();
                if k == usize::MAX {
                    proof {
                        if dialogue_page(s.dialogue@, (k + 1) as nat).is_some() {
                            lemma_piece_bound(s.dialogue@, 0, (k + 1) as nat);
                        }
                    }
                    self.page = None;
                } else {
                    let next = page_bounds(s.dialogue.as_str(), k + 1);
                    self.page = if next.is_some() {
                        Some(k + 1)
                    } else {
                        None
                    };
                }
            },
            None => {
                let p = self.state.position;
                let near = npc_nearby(s, p);
                if near || touching(p, s.npc) {
                    self.page = Some(0);
                }
            },
        }
    }

    /// The dialogue page on screen, if a dialogue is open.
    pub fn line(&self) -> (r: Option<&str>)
        requires
            self.wf(),
        ensures
            match self.page {
                None => r.is_none(),
                Some(k) => r matches Some(t) && dialogue_page(self.current().dialogue@, k as nat)
                    == Some(t@),
            },
    {
        match self.page {
            None => None,
            Some(k) => {
                let s = self.scene();
                match page_bounds(s.dialogue.as_str(), k) {
                    Some((a, b)) => Some(s.dialogue.as_str().substring_char(a, b)),
                    None => None,
                }
            },
        }
    }

    /// Loads saved progress. An unknown map is "Save references unknown map";
    /// another version or a tile the player may not stand on is "Invalid game
    /// save position/version". On success any open dialogue is closed.
    pub fn restore(&mut self, save: Save) -> (r: Result<(), String>)
        requires
            old(self).wf(),
        ensures
            final(self).wf(),
            final(self).maps == old(self).maps,
            r is Ok <==> restorable(old(self).maps, save),
            match r {
                Ok(_) => final(self).state == save && final(self).page.is_none(),
                Err(e) => *final(self) == *old(self) && e@ == (if old(self).maps.lookup(
                    save.map@,
                ).is_none() {
                    "Save references unknown map"@
                } else {
                    "Invalid game save position/version"@
                }),
            },
    {
        proof {
            lemma_position(self.maps.keys(), save.map@);
        }
        let scene = match self.maps.get(save.map.as_str()) {
            None => {
                return Err(String::from_str("Save references unknown map"));
            },
            Some(s) => s,
        };
        if save.version != 1 || !free_on(scene, save.position) {
            return Err(String::from_str("Invalid game save position/version"));
        }
        self.state = save;
        self.page = None;
        Ok(())
    }
}

fn find_portal(ps: &Vec<Portal>, at: [usize; 2]) -> (r: Option<Portal>)
    ensures
        r == first_portal_at(ps@, at, 0),
{
    let m = ps.len();
    let mut j: usize = 0;
    while j < m
        invariant
            m == ps@.len(),
            j <= m,
            first_portal_at(ps@, at, j as int) == first_portal_at(ps@, at, 0),
        decreases m - j,
    {
        let p = &ps[j];
        if p.at[0] == at[0] && p.at[1] == at[1] {
            return Some(p.copy());
        }
        j = j + 1;
    }
    None
}

fn npc_nearby(s: &Scene, p: [usize; 2]) -> (r: bool)
    ensures
        r == (exists|i: int| 0 <= i < s.npcs@.len() && (if p[0] >= (#[trigger] s.npcs@[i])[0] {
            p[0] - s.npcs@[i][0]
        } else {
            s.npcs@[i][0] - p[0]
        }) + (if p[1] >= s.npcs@[i][1] {
            p[1] - s.npcs@[i][1]
        } else {
            s.npcs@[i][1] - p[1]
        }) == 1),
{
    let n = s.npcs.len();
    let mut i: usize = 0;
    while i < n
        invariant
            n == s.npcs@.len(),
            i <= n,
            forall|k: int|
                0 <= k < i ==> !((if p[0] >= (#[trigger] s.npcs@[k])[0] {
                    p[0] - s.npcs@[k][0]
                } else {
                    s.npcs@[k][0] - p[0]
                }) + (if p[1] >= s.npcs@[k][1] {
                    p[1] - s.npcs@[k][1]
                } else {
                    s.npcs@[k][1] - p[1]
                }) == 1),
        decreases n - i,
    {
        if touching(p, s.npcs[i]) {
            return true;
        }
        i = i + 1;
    }
    false
}

proof fn lemma_first_portal_in(ps: Seq<Portal>, at: [usize; 2], j: int)
    requires
        0 <= j,
    ensures
        first_portal_at(ps, at, j) matches Some(p) ==> exists|k: int|
            j <= k < ps.len() && #[trigger] ps[k] == p,
    decreases ps.len() - j,
{
    if j < ps.len() && !same_pos(ps[j].at, at) {
        lemma_first_portal_in(ps, at, j + 1);
    }
}

/// Saved progress of a running game can always be loaded back into any game
/// over the same maps: restoring it succeeds and yields the same progress.
pub proof fn saved_progress_restores(game: Runtime, other: Runtime)
    requires
        game.wf(),
        other.wf(),
        other.maps == game.maps,
    ensures
        restorable(other.maps, game.state),
{
}

/// In a running game the player always stands on the map, on snow or path
/// (never water, a tree or a building), on a tile the collision layer
/// leaves free.
pub proof fn player_stands_on_open_ground(rt: Runtime)
    requires
        rt.wf(),
    ensures
        rt.state.position[0] < 16 && rt.state.position[1] < 16,
        rt.current().tiles@[rt.state.position[1] * 16 + rt.state.position[0]] <= 1,
        !rt.current().collision@[rt.state.position[1] * 16 + rt.state.position[0]],
{
    crate::world::blocked_tiles_are_not_walkable(
        rt.current(),
        rt.state.position[0] as int,
        rt.state.position[1] as int,
    );
}

} // verus!
