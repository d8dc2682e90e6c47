//! Workspaces, tools, creator modes and the starter project shown by the editor.
use vstd::prelude::*;

verus! {

/// The editor's top-level workspaces.
#[derive(Debug, Clone, Copy, PartialEq, Eq, Structural)]
pub enum Workspace {
    Home,
    Sprite,
    World,
    Logic,
    Character,
    Effects,
}

/// The three map presentations offered by the world builder.
#[derive(Debug, Clone, Copy, PartialEq, Eq, Structural)]
pub enum MapStyle {
    Overworld,
    Town,
    Interior,
}

impl MapStyle {
    /// The short upper-case tab label of a map style.
    pub open spec fn label_spec(self) -> Seq<char> {
        match self {
            MapStyle::Overworld => "OVERWORLD"@,
            MapStyle::Town => "TOWN MAP"@,
            MapStyle::Interior => "INTERIOR"@,
        }
    }

    pub fn label(self) -> (r: &'static str)
        ensures
            r@ == self.label_spec(),
    {
        match self {
            MapStyle::Overworld => "OVERWORLD",
            MapStyle::Town => "TOWN MAP",
            MapStyle::Interior => "INTERIOR",
        }
    }
}

impl Workspace {
    /// The short, console-style tab label of a workspace.
    pub open spec fn label_spec(self) -> Seq<char> {
        match self {
            Workspace::Home => "HOME"@,
            Workspace::Sprite => "GFX"@,
            Workspace::World => "MAP"@,
            Workspace::Logic => "LOGIC"@,
            Workspace::Character => "CHARACTER"@,
            Workspace::Effects => "FX"@,
        }
    }

    /// The one-line description shown under a workspace tab.
    pub open spec fn detail_spec(self) -> Seq<char> {
        match self {
            Workspace::Home => "Start a new game or continue a cartridge"@,
            Workspace::Sprite => "Paint sprites and build animation frames"@,
            Workspace::World => "Paint maps, objects, paths, and collision"@,
            Workspace::Logic => "Connect dialogue, choices, and events"@,
            Workspace::Character => "Build directional character sets"@,
            Workspace::Effects => "Shape light, shadow, weather, and particles"@,
        }
    }

    pub fn label(self) -> (r: &'static str)
        ensures
            r@ == self.label_spec(),
    {
        match self {
            Workspace::Home => "HOME",
            Workspace::Sprite => "GFX",
            Workspace::World => "MAP",
            Workspace::Logic => "LOGIC",
            Workspace::Character => "CHARACTER",
            Workspace::Effects => "FX",
        }
    }

    pub fn detail(self) -> (r: &'static str)
        ensures
            r@ == self.detail_spec(),
    {
        match self {
            Workspace::Home => "Start a new game or continue a cartridge",
            Workspace::Sprite => "Paint sprites and build animation frames",
            Workspace::World => "Paint maps, objects, paths, and collision",
            Workspace::Logic => "Connect dialogue, choices, and events",
            Workspace::Character => "Build directional character sets",
            Workspace::Effects => "Shape light, shadow, weather, and particles",
        }
    }
}

/// How much of the editor is shown at once.
#[derive(Debug, Clone, Copy, PartialEq, Eq, Structural)]
pub enum CreatorMode {
    Simple,
    Advanced,
}

impl CreatorMode {
    pub open spec fn label_spec(self) -> Seq<char> {
        match self {
            CreatorMode::Simple => "Simple"@,
            CreatorMode::Advanced => "Advanced"@,
        }
    }

    pub fn label(self) -> (r: &'static str)
        ensures
            r@ == self.label_spec(),
    {
        match self {
            CreatorMode::Simple => "Simple",
            CreatorMode::Advanced => "Advanced",
        }
    }
}

/// The painting and authoring tools of the tool rail.
#[derive(Debug, Clone, Copy, PartialEq, Eq, Structural)]
pub enum Tool {
    Pencil,
    Fill,
    Eraser,
    Select,
    Stamp,
    Light,
    Shadow,
    Path,
    Particle,
}

impl Tool {
    pub open spec fn label_spec(self) -> Seq<char> {
        match self {
            Tool::Pencil => "Pencil"@,
            Tool::Fill => "Fill"@,
            Tool::Eraser => "Eraser"@,
            Tool::Select => "Select"@,
            Tool::Stamp => "Stamp"@,
            Tool::Light => "Pixel light"@,
            Tool::Shadow => "Shadow brush"@,
            Tool::Path => "Path / collision"@,
            Tool::Particle => "Particles"@,
        }
    }

    pub fn label(self) -> (r: &'static str)
        ensures
            r@ == self.label_spec(),
    {
        match self {
            Tool::Pencil => "Pencil",
            Tool::Fill => "Fill",
            Tool::Eraser => "Eraser",
            Tool::Select => "Select",
            Tool::Stamp => "Stamp",
            Tool::Light => "Pixel light",
            Tool::Shadow => "Shadow brush",
            Tool::Path => "Path / collision",
            Tool::Particle => "Particles",
        }
    }
}

/// The project summary shown in the top bar.
#[derive(Debug, Clone)]
pub struct Project {
    pub name: String,
    pub path: String,
    pub level: u8,
}

impl Default for Project {
    fn default() -> (p: Self)
        ensures
            p.name@ == "little-adventure"@,
            p.path@ == "~/Games/little-adventure"@,
            p.level == 3,
    {
        Project {
            name: String::from_str("little-adventure"),
            path: String::from_str("~/Games/little-adventure"),
            level: 3,
        }
    }
}

/// One step of the creator progression: the level at which a group of
/// capabilities unlocks, its title and what it brings.
pub struct CreatorLevel {
    pub level: u8,
    pub title: &'static str,
    pub unlocks: &'static str,
}

/// The levels of the creator progression, as (level, title, unlocks).
pub open spec fn creator_levels_spec() -> Seq<(u8, Seq<char>, Seq<char>)> {
    seq![
        (1u8, "MAKE A SPRITE"@, "Pencil, fill, erase, play"@),
        (2u8, "BRING IT TO LIFE"@, "Layers, palettes, animation"@),
        (3u8, "BUILD A WORLD"@, "Tilemaps, collision, camera"@),
        (5u8, "SET THE MOOD"@, "Lighting, shadows, weather"@),
        (10u8, "MAKE IT REACT"@, "NPCs, dialogue, quests"@),
        (20u8, "GO DEEPER"@, "Visual logic, Lua, plugins"@),
    ]
}

/// The creator progression, from the first sprite to plugins, in unlock order.
pub fn creator_levels() -> (r: Vec<CreatorLevel>)
    ensures
        r@.len() == creator_levels_spec().len(),
        forall|i: int|
            0 <= i < r@.len() ==> {
                &&& #[trigger] r@[i].level == creator_levels_spec()[i].0
                &&& r@[i].title@ == creator_levels_spec()[i].1
                &&& r@[i].unlocks@ == creator_levels_spec()[i].2
            },
{
    let mut r: Vec<CreatorLevel> = Vec::new();
    r.push(CreatorLevel { level: 1, title: "MAKE A SPRITE", unlocks: "Pencil, fill, erase, play" });
    r.push(CreatorLevel { level: 2, title: "BRING IT TO LIFE", unlocks: "Layers, palettes, animation" });
    r.push(CreatorLevel { level: 3, title: "BUILD A WORLD", unlocks: "Tilemaps, collision, camera" });
    r.push(CreatorLevel { level: 5, title: "SET THE MOOD", unlocks: "Lighting, shadows, weather" });
    r.push(CreatorLevel { level: 10, title: "MAKE IT REACT", unlocks: "NPCs, dialogue, quests" });
    r.push(CreatorLevel { level: 20, title: "GO DEEPER", unlocks: "Visual logic, Lua, plugins" });
    r
}

/// The creator levels are strictly increasing, start at 1 and end at 20.
pub proof fn creator_levels_are_ordered()
    ensures
        forall|i: int, j: int|
            0 <= i < j < creator_levels_spec().len() ==> creator_levels_spec()[i].0
                < creator_levels_spec()[j].0,
        creator_levels_spec()[0].0 == 1,
        creator_levels_spec()[creator_levels_spec().len() - 1].0 == 20,
{
}

/// What the play keys of one frame do: Space (unless a text field has the
/// keyboard) switches play mode on or off, and a game starts when it
/// switches on; Escape, checked after it, always leaves play mode. Returns
/// whether the editor is playing afterwards and whether a game starts.
pub fn play_keys(playing: bool, space: bool, typing: bool, escape: bool) -> (r: (bool, bool))
    ensures
        r.1 == (space && !typing && !playing),
        r.0 == (!escape && if space && !typing {
            !playing
        } else {
            playing
        }),
{
    let mut now = playing;
    let mut start = false;
    if space && !typing {
        now = !now;
        if now {
            start = true;
        }
    }
    if escape {
        now = false;
    }
    (now, start)
}

/// The animation tick of the next frame: it counts 0 to 59 round while
/// playing and holds still otherwise.
pub fn play_frame(playing: bool, frame: usize) -> (r: usize)
    ensures
        r == if playing {
            (frame + 1) % 60
        } else {
            frame as int
        },
{
    if playing {
        (frame % 60 + 1) % 60
    } else {
        frame
    }
}

} // verus!
