//! Equality of scenes, field by field, with the light radius and the
//! daylight level compared as the single-precision numbers their bits hold.
use vstd::prelude::*;
use vstd::std_specs::cmp::PartialEqSpecImpl;
use crate::advanced::{CharacterSet, Choice, DialogueNode, DirectionFrames};
use crate::runtime::Portal;
use crate::sprite::{Sprite, same_color};
use crate::text::same_text;
use crate::world::{Decoration, Scene};

verus! {

/// The bits are those of a NaN: all exponent bits set and a non-zero fraction.
pub open spec fn float_bits_nan(b: u32) -> bool {
    (b & 0x7F80_0000u32) == 0x7F80_0000u32 && (b & 0x007F_FFFFu32) != 0
}

/// The single-precision numbers held by `a` and `b` are equal: neither is a
/// NaN, and the bits agree or both are zeros of either sign.
pub open spec fn float_bits_equal(a: u32, b: u32) -> bool {
    &&& !float_bits_nan(a)
    &&& !float_bits_nan(b)
    &&& (a == b || ((a & 0x7FFF_FFFFu32) == 0 && (b & 0x7FFF_FFFFu32) == 0))
}

/// Whether the numbers held by two bit patterns are equal.
pub fn same_float_bits(a: u32, b: u32) -> (r: bool)
    ensures
        r == float_bits_equal(a, b),
{
    let a_nan = (a & 0x7F80_0000u32) == 0x7F80_0000u32 && (a & 0x007F_FFFFu32) != 0;
    let b_nan = (b & 0x7F80_0000u32) == 0x7F80_0000u32 && (b & 0x007F_FFFFu32) != 0;
    !a_nan && !b_nan && (a == b || ((a & 0x7FFF_FFFFu32) == 0 && (b & 0x7FFF_FFFFu32) == 0))
}

/// Both absent, or both present with the same text.
pub open spec fn opt_text_equal(a: Option<String>, b: Option<String>) -> bool {
    match (a, b) {
        (None, None) => true,
        (Some(x), Some(y)) => x@ == y@,
        _ => false,
    }
}

/// The same texts in the same order.
pub open spec fn texts_equal(a: Seq<String>, b: Seq<String>) -> bool {
    a.len() == b.len() && forall|i: int| 0 <= i < a.len() ==> (#[trigger] a[i])@ == b[i]@
}

pub open spec fn choice_equal(a: Choice, b: Choice) -> bool {
    a.label@ == b.label@ && a.next == b.next && opt_text_equal(a.condition, b.condition)
}

pub open spec fn node_equal(a: DialogueNode, b: DialogueNode) -> bool {
    &&& a.speaker@ == b.speaker@
    &&& a.text@ == b.text@
    &&& a.choices@.len() == b.choices@.len()
    &&& forall|i: int| 0 <= i < a.choices@.len() ==> choice_equal(#[trigger] a.choices@[i], b.choices@[i])
    &&& texts_equal(a.hooks@, b.hooks@)
}

pub open spec fn portal_equal(a: Portal, b: Portal) -> bool {
    a.at == b.at && a.map@ == b.map@ && a.spawn == b.spawn
}

pub open spec fn direction_frames_equal(a: DirectionFrames, b: DirectionFrames) -> bool {
    a.up@ == b.up@ && a.down@ == b.down@ && a.left@ == b.left@ && a.right@ == b.right@
}

pub open spec fn character_equal(a: CharacterSet, b: CharacterSet) -> bool {
    &&& direction_frames_equal(a.idle, b.idle)
    &&& direction_frames_equal(a.walk, b.walk)
    &&& a.palette@ == b.palette@
    &&& opt_text_equal(a.portrait, b.portrait)
}

/// Two scenes are equal: every field is, the light radius and daylight level
/// as numbers.
pub open spec fn scene_equal(a: Scene, b: Scene) -> bool {
    &&& character_equal(a.character, b.character)
    &&& a.sprite@ == b.sprite@
    &&& a.portals@.len() == b.portals@.len()
    &&& forall|i: int| 0 <= i < a.portals@.len() ==> portal_equal(#[trigger] a.portals@[i], b.portals@[i])
    &&& a.objective == b.objective
    &&& a.light == b.light
    &&& float_bits_equal(a.light_radius_bits, b.light_radius_bits)
    &&& a.version == b.version
    &&& a.tiles@ == b.tiles@
    &&& a.collision@ == b.collision@
    &&& a.heights@ == b.heights@
    &&& a.npc == b.npc
    &&& a.npcs@ == b.npcs@
    &&& a.decorations@ == b.decorations@
    &&& a.spawn == b.spawn
    &&& a.dialogue@ == b.dialogue@
    &&& a.dialogue_nodes@.len() == b.dialogue_nodes@.len()
    &&& forall|i: int|
        0 <= i < a.dialogue_nodes@.len() ==> node_equal(#[trigger] a.dialogue_nodes@[i], b.dialogue_nodes@[i])
    &&& float_bits_equal(a.ambient_bits, b.ambient_bits)
}

fn same_cell(a: [usize; 2], b: [usize; 2]) -> (r: bool)
    ensures
        r == (a == b),
{
    let r = a[0] == b[0] && a[1] == b[1];
    proof {
        if r {
            assert(a =~= b);
        }
    }
    r
}

fn same_opt_text(a: &Option<String>, b: &Option<String>) -> (r: bool)
    ensures
        r == opt_text_equal(*a, *b),
{
    match (a, b) {
        (None, None) => true,
        (Some(x), Some(y)) => same_text(x.as_str(), y.as_str()),
        _ => false,
    }
}

fn same_texts(a: &Vec<String>, b: &Vec<String>) -> (r: bool)
    ensures
        r == texts_equal(a@, b@),
{
    if a.len() != b.len() {
        return false;
    }
    let mut i: usize = 0;
    while i < a.len()
        invariant
            a@.len() == b@.len(),
            i <= a@.len(),
            forall|k: int| 0 <= k < i ==> (#[trigger] a@[k])@ == b@[k]@,
        decreases a@.len() - i,
    {
        if !same_text(a[i].as_str(), b[i].as_str()) {
            return false;
        }
        i = i + 1;
    }
    true
}

fn same_indices(a: &Vec<usize>, b: &Vec<usize>) -> (r: bool)
    ensures
        r == (a@ == b@),
{
    if a.len() != b.len() {
        return false;
    }
    let mut i: usize = 0;
    while i < a.len()
        invariant
            a@.len() == b@.len(),
            i <= a@.len(),
            forall|k: int| 0 <= k < i ==> a@[k] == b@[k],
        decreases a@.len() - i,
    {
        if a[i] != b[i] {
            return false;
        }
        i = i + 1;
    }
    assert(a@ =~= b@);
    true
}

fn same_bytes(a: &Vec<u8>, b: &Vec<u8>) -> (r: bool)
    ensures
        r == (a@ == b@),
{
    if a.len() != b.len() {
        return false;
    }
    let mut i: usize = 0;
    while i < a.len()
        invariant
            a@.len() == b@.len(),
            i <= a@.len(),
            forall|k: int| 0 <= k < i ==> a@[k] == b@[k],
        decreases a@.len() - i,
    {
        if a[i] != b[i] {
            return false;
        }
        i = i + 1;
    }
    assert(a@ =~= b@);
    true
}

fn same_flags(a: &Vec<bool>, b: &Vec<bool>) -> (r: bool)
    ensures
        r == (a@ == b@),
{
    if a.len() != b.len() {
        return false;
    }
    let mut i: usize = 0;
    while i < a.len()
        invariant
            a@.len() == b@.len(),
            i <= a@.len(),
            forall|k: int| 0 <= k < i ==> a@[k] == b@[k],
        decreases a@.len() - i,
    {
        if a[i] != b[i] {
            return false;
        }
        i = i + 1;
    }
    assert(a@ =~= b@);
    true
}

fn same_cells(a: &Vec<[usize; 2]>, b: &Vec<[usize; 2]>) -> (r: bool)
    ensures
        r == (a@ == b@),
{
    if a.len() != b.len() {
        return false;
    }
    let mut i: usize = 0;
    while i < a.len()
        invariant
            a@.len() == b@.len(),
            i <= a@.len(),
            forall|k: int| 0 <= k < i ==> a@[k] == b@[k],
        decreases a@.len() - i,
    {
        if !same_cell(a[i], b[i]) {
            return false;
        }
        i = i + 1;
    }
    assert(a@ =~= b@);
    true
}

fn same_colors(a: &Vec<[u8; 4]>, b: &Vec<[u8; 4]>) -> (r: bool)
    ensures
        r == (a@ == b@),
{
    if a.len() != b.len() {
        return false;
    }
    let mut i: usize = 0;
    while i < a.len()
        invariant
            a@.len() == b@.len(),
            i <= a@.len(),
            forall|k: int| 0 <= k < i ==> a@[k] == b@[k],
        decreases a@.len() - i,
    {
        if !same_color(a[i], b[i]) {
            return false;
        }
        i = i + 1;
    }
    assert(a@ =~= b@);
    true
}

fn same_decorations(a: &Vec<Decoration>, b: &Vec<Decoration>) -> (r: bool)
    ensures
        r == (a@ == b@),
{
    if a.len() != b.len() {
        return false;
    }
    let mut i: usize = 0;
    while i < a.len()
        invariant
            a@.len() == b@.len(),
            i <= a@.len(),
            forall|k: int| 0 <= k < i ==> a@[k] == b@[k],
        decreases a@.len() - i,
    {
        let x = a[i];
        let y = b[i];
        if !same_cell(x.position, y.position) || x.kind != y.kind {
            return false;
        }
        i = i + 1;
    }
    assert(a@ =~= b@);
    true
}

fn same_sprite(a: &Sprite, b: &Sprite) -> (r: bool)
    ensures
        r == (a@ == b@),
{
    if a.frame_ms != b.frame_ms || a.frames.len() != b.frames.len() {
        proof {
            if a@ == b@ {
                assert(a@.0.len() == b@.0.len());
            }
        }
        return false;
    }
    let mut i: usize = 0;
    while i < a.frames.len()
        invariant
            a.frames@.len() == b.frames@.len(),
            i <= a.frames@.len(),
            forall|k: int| 0 <= k < i ==> (#[trigger] a.frames@[k])@ == b.frames@[k]@,
        decreases a.frames@.len() - i,
    {
        if !same_colors(&a.frames[i], &b.frames[i]) {
            proof {
                if a@ == b@ {
                    assert(a@.0[i as int] == b@.0[i as int]);
                }
            }
            return false;
        }
        i = i + 1;
    }
    assert(a@.0 =~= b@.0);
    true
}

fn same_direction_frames(a: &DirectionFrames, b: &DirectionFrames) -> (r: bool)
    ensures
        r == direction_frames_equal(*a, *b),
{
    same_indices(&a.up, &b.up) && same_indices(&a.down, &b.down) && same_indices(&a.left, &b.left)
        && same_indices(&a.right, &b.right)
}

fn same_character(a: &CharacterSet, b: &CharacterSet) -> (r: bool)
    ensures
        r == character_equal(*a, *b),
{
    same_direction_frames(&a.idle, &b.idle) && same_direction_frames(&a.walk, &b.walk)
        && same_colors(&a.palette, &b.palette) && same_opt_text(&a.portrait, &b.portrait)
}

fn same_portals(a: &Vec<Portal>, b: &Vec<Portal>) -> (r: bool)
    ensures
        r == (a@.len() == b@.len() && forall|i: int|
            0 <= i < a@.len() ==> portal_equal(#[trigger] a@[i], b@[i])),
{
    if a.len() != b.len() {
        return false;
    }
    let mut i: usize = 0;
    while i < a.len()
        invariant
            a@.len() == b@.len(),
            i <= a@.len(),
            forall|k: int| 0 <= k < i ==> portal_equal(#[trigger] a@[k], b@[k]),
        decreases a@.len() - i,
    {
        let p = &a[i];
        let q = &b[i];
        if !same_cell(p.at, q.at) || !same_text(p.map.as_str(), q.map.as_str()) || !same_cell(
            p.spawn,
            q.spawn,
        ) {
            return false;
        }
        i = i + 1;
    }
    true
}

fn same_choices(a: &Vec<Choice>, b: &Vec<Choice>) -> (r: bool)
    ensures
        r == (a@.len() == b@.len() && forall|i: int|
            0 <= i < a@.len() ==> choice_equal(#[trigger] a@[i], b@[i])),
{
    if a.len() != b.len() {
        return false;
    }
    let mut i: usize = 0;
    while i < a.len()
        invariant
            a@.len() == b@.len(),
            i <= a@.len(),
            forall|k: int| 0 <= k < i ==> choice_equal(#[trigger] a@[k], b@[k]),
        decreases a@.len() - i,
    {
        let p = &a[i];
        let q = &b[i];
        if !same_text(p.label.as_str(), q.label.as_str()) || p.next != q.next || !same_opt_text(
            &p.condition,
            &q.condition,
        ) {
            return false;
        }
        i = i + 1;
    }
    true
}

fn same_nodes(a: &Vec<DialogueNode>, b: &Vec<DialogueNode>) -> (r: bool)
    ensures
        r == (a@.len() == b@.len() && forall|i: int|
            0 <= i < a@.len() ==> node_equal(#[trigger] a@[i], b@[i])),
{
    if a.len() != b.len() {
        return false;
    }
    let mut i: usize = 0;
    while i < a.len()
        invariant
            a@.len() == b@.len(),
            i <= a@.len(),
            forall|k: int| 0 <= k < i ==> node_equal(#[trigger] a@[k], b@[k]),
        decreases a@.len() - i,
    {
        let p = &a[i];
        let q = &b[i];
        if !same_text(p.speaker.as_str(), q.speaker.as_str()) || !same_text(
            p.text.as_str(),
            q.text.as_str(),
        ) || !same_choices(&p.choices, &q.choices) || !same_texts(&p.hooks, &q.hooks) {
            return false;
        }
        i = i + 1;
    }
    true
}

impl Scene {
    /// Whether two scenes are equal, field by field; the light radius and
    /// the daylight level compare as numbers, so a NaN equals nothing and
    /// the two zeros are equal.
    pub fn same_as(&self, other: &Scene) -> (r: bool)
        ensures
            r == scene_equal(*self, *other),
    {
        same_character(&self.character, &other.character) && same_sprite(&self.sprite, &other.sprite)
            && same_portals(&self.portals, &other.portals) && (match (self.objective, other.objective) {
            (None, None) => true,
            (Some(p), Some(q)) => same_cell(p, q),
            _ => false,
        }) && same_cell(self.light, other.light) && same_float_bits(
            self.light_radius_bits,
            other.light_radius_bits,
        ) && self.version == other.version && same_bytes(&self.tiles, &other.tiles) && same_flags(
            &self.collision,
            &other.collision,
        ) && same_bytes(&self.heights, &other.heights) && same_cell(self.npc, other.npc)
            && same_cells(&self.npcs, &other.npcs) && same_decorations(
            &self.decorations,
            &other.decorations,
        ) && same_cell(self.spawn, other.spawn) && same_text(
            self.dialogue.as_str(),
            other.dialogue.as_str(),
        ) && same_nodes(&self.dialogue_nodes, &other.dialogue_nodes) && same_float_bits(
            self.ambient_bits,
            other.ambient_bits,
        )
    }
}

impl PartialEq for Scene {
    fn eq(&self, other: &Scene) -> (r: bool) {
        self.same_as(other)
    }
}

impl PartialEqSpecImpl for Scene {
    open spec fn obeys_eq_spec() -> bool {
        true
    }

    open spec fn eq_spec(&self, other: &Scene) -> bool {
        scene_equal(*self, *other)
    }
}

} // verus!
