//! Data-only authoring contracts: character direction sets, dialogue graphs,
//! scene hooks, visual logic, plugin manifests and accessibility records.
use vstd::prelude::*;
use crate::text::{is_blank, blank, decimal, push_decimal, same_text};

verus! {

/// Animation frame indices for each facing direction.
#[derive(Clone, Debug, PartialEq)]
pub struct DirectionFrames {
    pub up: Vec<usize>,
    pub down: Vec<usize>,
    pub left: Vec<usize>,
    pub right: Vec<usize>,
}

impl Default for DirectionFrames {
    fn default() -> (d: Self)
        ensures
            d.up@.len() == 0,
            d.down@.len() == 0,
            d.left@.len() == 0,
            d.right@.len() == 0,
    {
        DirectionFrames { up: Vec::new(), down: Vec::new(), left: Vec::new(), right: Vec::new() }
    }
}

/// A directional character: idle and walking frames, palette and portrait.
#[derive(Clone, Debug, PartialEq)]
pub struct CharacterSet {
    pub idle: DirectionFrames,
    pub walk: DirectionFrames,
    pub palette: Vec<[u8; 4]>,
    pub portrait: Option<String>,
}

impl CharacterSet {
    /// The starter character: one idle frame per direction, two walking
    /// frames per direction (0 and 1 vertically, 2 and 3 sideways), a
    /// three-colour palette and no portrait.
    pub open spec fn is_starter(self) -> bool {
        &&& self.idle.up@ == seq![0usize]
        &&& self.idle.down@ == seq![0usize]
        &&& self.idle.left@ == seq![0usize]
        &&& self.idle.right@ == seq![0usize]
        &&& self.walk.up@ == seq![0usize, 1]
        &&& self.walk.down@ == seq![0usize, 1]
        &&& self.walk.left@ == seq![2usize, 3]
        &&& self.walk.right@ == seq![2usize, 3]
        &&& self.palette@ == seq![[32u8, 28, 44, 255], [235u8, 243, 248, 255], [225u8, 70, 134, 255]]
        &&& self.portrait.is_none()
    }
}

impl Default for CharacterSet {
    fn default() -> (c: Self)
        ensures
            c.is_starter(),
    {
        let c = CharacterSet {
            idle: DirectionFrames { up: vec![0], down: vec![0], left: vec![0], right: vec![0] },
            walk: DirectionFrames {
                up: vec![0, 1],
                down: vec![0, 1],
                left: vec![2, 3],
                right: vec![2, 3],
            },
            palette: vec![[32, 28, 44, 255], [235, 243, 248, 255], [225, 70, 134, 255]],
            portrait: None,
        };
        assert(c.idle.up@ =~= seq![0usize] && c.idle.down@ =~= seq![0usize]);
        assert(c.idle.left@ =~= seq![0usize] && c.idle.right@ =~= seq![0usize]);
        assert(c.walk.up@ =~= seq![0usize, 1] && c.walk.down@ =~= seq![0usize, 1]);
        assert(c.walk.left@ =~= seq![2usize, 3] && c.walk.right@ =~= seq![2usize, 3]);
        assert(c.palette@ =~= seq![[32u8, 28, 44, 255], [235u8, 243, 248, 255], [225u8, 70, 134, 255]]);
        c
    }
}

impl CharacterSet {
    /// The frame list used when facing `direction`, walking or standing:
    /// up when the vertical component is negative, else left or right by the
    /// horizontal component, else down.
    pub open spec fn frames_for(self, direction: [i32; 2], moving: bool) -> Seq<usize> {
        let set = if moving {
            self.walk
        } else {
            self.idle
        };
        if direction[1] < 0 {
            set.up@
        } else if direction[0] < 0 {
            set.left@
        } else if direction[0] > 0 {
            set.right@
        } else {
            set.down@
        }
    }

    /// The frame to show at animation `tick`, cycling through the frames of
    /// the facing direction; `None` when that direction has no frames.
    pub fn frame(&self, direction: [i32; 2], moving: bool, tick: usize) -> (r: Option<usize>)
        ensures
            r == (if self.frames_for(direction, moving).len() == 0 {
                None
            } else {
                Some(
                    self.frames_for(direction, moving)[tick as int % self.frames_for(
                        direction,
                        moving,
                    ).len() as int],
                )
            }),
    {
        let set = if moving {
            &self.walk
        } else {
            &self.idle
        };
        let frames = if direction[1] < 0 {
            &set.up
        } else if direction[0] < 0 {
            &set.left
        } else if direction[0] > 0 {
            &set.right
        } else {
            &set.down
        };
        if frames.len() == 0 {
            None
        } else {
            Some(frames[tick % frames.len()])
        }
    }
}

/// One answer of a dialogue node, leading to node `next`.
#[derive(Clone, Debug, PartialEq)]
pub struct Choice {
    pub label: String,
    pub next: usize,
    pub condition: Option<String>,
}

/// A spoken line with its answers and the hooks it fires.
#[derive(Clone, Debug, PartialEq)]
pub struct DialogueNode {
    pub speaker: String,
    pub text: String,
    pub choices: Vec<Choice>,
    pub hooks: Vec<String>,
}

/// Actions run when a scene event happens, optionally under a condition.
#[derive(Clone, Debug, PartialEq)]
pub struct SceneHook {
    pub event: String,
    pub actions: Vec<String>,
    pub condition: Option<String>,
}

/// A node of the visual logic graph.
#[derive(Clone, Debug, PartialEq)]
pub struct LogicNode {
    pub id: String,
    pub kind: String,
    pub inputs: Vec<String>,
    pub outputs: Vec<String>,
}

/// A shader built from logic nodes, with its generated source.
#[derive(Clone, Debug, PartialEq)]
pub struct ShaderGraph {
    pub nodes: Vec<LogicNode>,
    pub source: String,
}

/// The declarative manifest of a project-local plugin.
#[derive(Clone, Debug, PartialEq)]
pub struct PluginManifest {
    pub id: String,
    pub version: String,
    pub capabilities: Vec<String>,
    pub entry: String,
}

/// Key names bound to the player's actions.
#[derive(Clone, Debug, PartialEq)]
pub struct KeyboardBindings {
    pub up: String,
    pub down: String,
    pub left: String,
    pub right: String,
    pub interact: String,
    pub play: String,
}

impl Default for KeyboardBindings {
    fn default() -> (k: Self)
        ensures
            k.up@.len() == 0,
            k.down@.len() == 0,
            k.left@.len() == 0,
            k.right@.len() == 0,
            k.interact@.len() == 0,
            k.play@.len() == 0,
    {
        KeyboardBindings {
            up: String::new(),
            down: String::new(),
            left: String::new(),
            right: String::new(),
            interact: String::new(),
            play: String::new(),
        }
    }
}

/// What an accessibility review recorded.
#[derive(Clone, Debug, PartialEq)]
pub struct AccessibilityAudit {
    pub labels: Vec<String>,
    pub keyboard_complete: bool,
    pub contrast_checked: bool,
}

impl Default for AccessibilityAudit {
    fn default() -> (a: Self)
        ensures
            a.labels@.len() == 0,
            !a.keyboard_complete,
            !a.contrast_checked,
    {
        AccessibilityAudit { labels: Vec::new(), keyboard_complete: false, contrast_checked: false }
    }
}

/// A choice is sound in a graph of `n` nodes when it leads to an existing
/// node and has a non-blank label.
pub open spec fn choice_ok(c: Choice, n: nat) -> bool {
    c.next < n && !is_blank(c.label@)
}

/// Every choice of every node is sound.
pub open spec fn dialogue_valid(nodes: Seq<DialogueNode>) -> bool {
    forall|i: int, j: int|
        0 <= i < nodes.len() && 0 <= j < nodes[i].choices@.len() ==> choice_ok(
            #[trigger] nodes[i].choices@[j],
            nodes.len(),
        )
}

/// The message for a choice of node `i` that leads outside the graph.
pub open spec fn outside_graph_message(i: nat) -> Seq<char> {
    "Dialogue node "@ + decimal(i) + " points outside graph"@
}

/// The first problem met scanning choices in order from choice `j` of node `i`.
pub open spec fn dialogue_error_from(nodes: Seq<DialogueNode>, i: int, j: int) -> Option<Seq<char>>
    decreases nodes.len() - i, nodes[i].choices@.len() - j,
{
    if i < 0 || i >= nodes.len() {
        None
    } else if j < 0 || j >= nodes[i].choices@.len() {
        dialogue_error_from(nodes, i + 1, 0)
    } else if nodes[i].choices@[j].next >= nodes.len() {
        Some(outside_graph_message(i as nat))
    } else if is_blank(nodes[i].choices@[j].label@) {
        Some("Dialogue choice label is empty"@)
    } else {
        dialogue_error_from(nodes, i, j + 1)
    }
}

/// The first problem of a dialogue graph, in node and choice order.
pub open spec fn dialogue_error(nodes: Seq<DialogueNode>) -> Option<Seq<char>> {
    dialogue_error_from(nodes, 0, 0)
}

proof fn lemma_dialogue_error_from(nodes: Seq<DialogueNode>, i: int, j: int)
    requires
        0 <= i <= nodes.len(),
        0 <= j,
    ensures
        dialogue_error_from(nodes, i, j).is_none() <==> (forall|a: int, b: int|
            (i < a < nodes.len() && 0 <= b < nodes[a].choices@.len()) || (a == i && i < nodes.len()
                && j <= b < nodes[a].choices@.len()) ==> choice_ok(
                #[trigger] nodes[a].choices@[b],
                nodes.len(),
            )),
    decreases nodes.len() - i, nodes[i].choices@.len() - j,
{
    if i >= nodes.len() {
    } else if j >= nodes[i].choices@.len() {
        lemma_dialogue_error_from(nodes, i + 1, 0);
    } else if nodes[i].choices@[j].next >= nodes.len() || is_blank(nodes[i].choices@[j].label@) {
        assert(!choice_ok(nodes[i].choices@[j], nodes.len()));
    } else {
        lemma_dialogue_error_from(nodes, i, j + 1);
    }
}

/// A graph has no first problem exactly when it is valid.
pub proof fn lemma_dialogue_error_iff_invalid(nodes: Seq<DialogueNode>)
    ensures
        dialogue_error(nodes).is_none() <==> dialogue_valid(nodes),
{
    lemma_dialogue_error_from(nodes, 0, 0);
}

/// Checks that every dialogue choice leads to an existing node and has a
/// label; the error names the first problem.
pub fn validate_dialogue(nodes: &[DialogueNode]) -> (r: Result<(), String>)
    ensures
        r is Ok <==> dialogue_valid(nodes@),
        match r {
            Ok(_) => dialogue_error(nodes@).is_none(),
            Err(e) => dialogue_error(nodes@) == Some(e@),
        },
{
    proof {
        lemma_dialogue_error_iff_invalid(nodes@);
    }
    let n = nodes.len();
    let mut i: usize = 0;
    while i < n
        invariant
            n == nodes@.len(),
            i <= n,
            dialogue_error_from(nodes@, i as int, 0) == dialogue_error(nodes@),
        decreases n - i,
    {
        let node = &nodes[i];
        let m = node.choices.len();
        let mut j: usize = 0;
        while j < m
            invariant
                n == nodes@.len(),
                i < n,
                *node == nodes@[i as int],
                m == node.choices@.len(),
                j <= m,
                dialogue_error_from(nodes@, i as int, j as int) == dialogue_error(nodes@),
            decreases m - j,
        {
            let choice = &node.choices[j];
            if choice.next >= n {
                let mut e = String::from_str("Dialogue node ");
                push_decimal(&mut e, i as u64);
                e.append(" points outside graph");
                return Err(e);
            }
            if blank(choice.label.as_str()) {
                return Err(String::from_str("Dialogue choice label is empty"));
            }
            j = j + 1;
        }
        i = i + 1;
    }
    Ok(())
}

/// Whether a capability needs privileges the host does not grant.
pub open spec fn privileged(c: Seq<char>) -> bool {
    c == "filesystem"@ || c == "network"@
}

/// Why a plugin manifest is refused, if it is.
pub open spec fn plugin_error(p: PluginManifest) -> Option<Seq<char>> {
    if p.id@.len() == 0 || p.version@.len() == 0 || p.entry@.len() == 0 {
        Some("Plugin manifest needs id, version, and entry"@)
    } else if exists|i: int| 0 <= i < p.capabilities@.len() && privileged(#[trigger] p.capabilities@[i]@) {
        Some("Privileged plugin capabilities require explicit host approval"@)
    } else {
        None
    }
}

/// Admits a plugin only when it names an id, version and entry and asks for
/// no `filesystem` or `network` capability.
pub fn validate_plugin(plugin: &PluginManifest) -> (r: Result<(), String>)
    ensures
        match r {
            Ok(_) => plugin_error(*plugin).is_none(),
            Err(e) => plugin_error(*plugin) == Some(e@),
        },
{
    if plugin.id.as_str().is_empty() || plugin.version.as_str().is_empty()
        || plugin.entry.as_str().is_empty() {
        return Err(String::from_str("Plugin manifest needs id, version, and entry"));
    }
    let n = plugin.capabilities.len();
    let mut i: usize = 0;
    while i < n
        invariant
            n == plugin.capabilities@.len(),
            i <= n,
            !(plugin.id@.len() == 0 || plugin.version@.len() == 0 || plugin.entry@.len() == 0),
            forall|k: int| 0 <= k < i ==> !privileged(#[trigger] plugin.capabilities@[k]@),
        decreases n - i,
    {
        let c = plugin.capabilities[i].as_str();
        if same_text(c, "filesystem") || same_text(c, "network") {
            assert(privileged(plugin.capabilities@[i as int]@));
            return Err(
                String::from_str("Privileged plugin capabilities require explicit host approval"),
            );
        }
        i = i + 1;
    }
    Ok(())
}

/// The reviewable comment line that stands for one logic node.
pub open spec fn lua_node_line(node: LogicNode) -> Seq<char> {
    "  -- node "@ + node.id@ + " ("@ + node.kind@ + ")\n"@
}

/// The comment lines of all nodes, in order.
pub open spec fn lua_node_lines(nodes: Seq<LogicNode>) -> Seq<char>
    decreases nodes.len(),
{
    if nodes.len() == 0 {
        Seq::empty()
    } else {
        lua_node_lines(nodes.drop_last()) + lua_node_line(nodes.last())
    }
}

/// The Lua text exported for a logic graph.
pub open spec fn lua_text(nodes: Seq<LogicNode>) -> Seq<char> {
    "-- Generated by OMASPRITE; review before running\nreturn function(event)\n"@ + lua_node_lines(
        nodes,
    ) + "end\n"@
}

/// Exports a logic graph as a reviewable Lua stub: a generated-by header, an
/// event function, one comment line per node in order, and `end`.
pub fn lua_export(nodes: &[LogicNode]) -> (r: String)
    ensures
        r@ == lua_text(nodes@),
{
    let mut out = String::from_str(
        "-- Generated by OMASPRITE; review before running\nreturn function(event)\n",
    );
    let n = nodes.len();
    let mut i: usize = 0;
    while i < n
        invariant
            n == nodes@.len(),
            i <= n,
            out@ == "-- Generated by OMASPRITE; review before running\nreturn function(event)\n"@
                + lua_node_lines(nodes@.subrange(0, i as int)),
        decreases n - i,
    {
        let node = &nodes[i];
        out.append("  -- node ");
        out.append(node.id.as_str());
        out.append(" (");
        out.append(node.kind.as_str());
        out.append(")\n");
        proof {
            let s = nodes@.subrange(0, i + 1);
            assert(s.drop_last() =~= nodes@.subrange(0, i as int));
            assert(s.last() == nodes@[i as int]);
        }
        i = i + 1;
    }
    out.append("end\n");
    assert(nodes@.subrange(0, n as int) =~= nodes@);
    out
}

/// A character facing up (a negative vertical component) shows its up
/// frames; otherwise a negative horizontal component shows the left frames,
/// a positive one the right frames, and no horizontal component (standing
/// still or facing down) the down frames. Walking takes the walk frames,
/// standing the idle ones.
pub proof fn frames_follow_facing(c: CharacterSet, d: [i32; 2], moving: bool)
    ensures
        moving && d[1] < 0 ==> c.frames_for(d, moving) == c.walk.up@,
        !moving && d[1] < 0 ==> c.frames_for(d, moving) == c.idle.up@,
        moving && d[1] >= 0 && d[0] == 0 ==> c.frames_for(d, moving) == c.walk.down@,
        !moving && d[1] >= 0 && d[0] == 0 ==> c.frames_for(d, moving) == c.idle.down@,
        moving && d[1] >= 0 && d[0] < 0 ==> c.frames_for(d, moving) == c.walk.left@,
        !moving && d[1] >= 0 && d[0] < 0 ==> c.frames_for(d, moving) == c.idle.left@,
        moving && d[1] >= 0 && d[0] > 0 ==> c.frames_for(d, moving) == c.walk.right@,
        !moving && d[1] >= 0 && d[0] > 0 ==> c.frames_for(d, moving) == c.idle.right@,
{
}

} // verus!
