//! Versioned project manifests and the checks made before a project's files
//! are read or written: names, scene IDs, scene paths and revision names.
use vstd::prelude::*;
use crate::names::{NameMap, position};
use crate::text::{is_blank, blank, trim, trimmed, decimal, decimal_padded, push_decimal,
    push_decimal_padded, numeral_char, lemma_decimal_padded_value};
use crate::world::Scene;

verus! {

/// A project's `project.json`: format version, display name, the scene the
/// game starts in, and the scene IDs with their relative file paths.
pub struct Manifest {
    pub version: u32,
    pub name: String,
    pub entry_scene: String,
    pub scenes: NameMap<String>,
}

/// An open project: its folder and its manifest.
pub struct ProjectStore {
    pub root: String,
    pub manifest: Manifest,
}

/// Why a manifest read from disk cannot be opened, if it cannot.
pub open spec fn manifest_error(m: Manifest) -> Option<Seq<char>> {
    if m.version != 1 {
        Some("Unsupported project version "@ + decimal(m.version as nat) + "; expected 1"@)
    } else if is_blank(m.name@) || m.scenes.keys().len() == 0 {
        Some("Project needs a name and scene"@)
    } else {
        None
    }
}

/// A scene ID: non-empty, made of ASCII letters and digits, `_` and `-`.
pub open spec fn scene_id_ok(id: Seq<char>) -> bool {
    &&& id.len() > 0
    &&& forall|i: int| 0 <= i < id.len() ==> id_char(#[trigger] id[i])
}

/// A character allowed in a scene ID.
pub open spec fn id_char(c: char) -> bool {
    ('0' <= c <= '9') || ('A' <= c <= 'Z') || ('a' <= c <= 'z') || c == '_' || c == '-'
}

/// A relative path whose components (split at `/`, as a Unix path is) are
/// all plain names: it does not start at the root, does not start with a
/// `.` component, and has no `..` component.
pub open spec fn path_inside(s: Seq<char>) -> bool {
    &&& !(s.len() > 0 && s[0] == '/')
    &&& !(s.len() > 0 && s[0] == '.' && (s.len() == 1 || s[1] == '/'))
    &&& !exists|i: int| 0 <= i && i + 1 < s.len() && #[trigger] parent_at(s, i)
}

/// A `..` component starts at position `i`.
pub open spec fn parent_at(s: Seq<char>, i: int) -> bool {
    (i == 0 || s[i - 1] == '/') && s[i] == '.' && s[i + 1] == '.' && (i + 2 == s.len() || s[i + 2]
        == '/')
}

/// The file name of revision `revision` of scene `id`.
pub open spec fn revision_name(id: Seq<char>, revision: nat) -> Seq<char> {
    "scenes/"@ + id + "-"@ + decimal_padded(revision, 6) + ".json"@
}

/// Two different revisions of one scene are stored under different file
/// names, so saving a new revision never replaces an earlier one.
pub proof fn revision_names_differ(id: Seq<char>, a: nat, b: nat)
    requires
        a != b,
    ensures
        revision_name(id, a) != revision_name(id, b),
{
    let pre = "scenes/"@ + id + "-"@;
    let pa = decimal_padded(a, 6);
    let pb = decimal_padded(b, 6);
    lemma_decimal_padded_value(a, 6);
    lemma_decimal_padded_value(b, 6);
    let na = revision_name(id, a);
    let nb = revision_name(id, b);
    assert(na == pre + pa + ".json"@);
    assert(nb == pre + pb + ".json"@);
    if na == nb {
        assert(pa.len() == pb.len());
        assert(pa =~= na.subrange(pre.len() as int, (pre.len() + pa.len()) as int));
        assert(pb =~= nb.subrange(pre.len() as int, (pre.len() + pb.len()) as int));
    }
}

/// Every revision file of a scene with a valid ID lies inside the project
/// folder, so the scene paths that a save writes pass the check made when
/// the project is opened again.
pub proof fn revision_names_stay_inside(id: Seq<char>, revision: nat)
    requires
        scene_id_ok(id),
    ensures
        path_inside(revision_name(id, revision)),
{
    reveal_strlit("scenes/");
    reveal_strlit("-");
    reveal_strlit(".json");
    let p = decimal_padded(revision, 6);
    lemma_decimal_padded_value(revision, 6);
    let s = revision_name(id, revision);
    let dash = 7 + id.len();
    let tail = dash + 1 + p.len();
    assert(s == "scenes/"@ + id + "-"@ + p + ".json"@);
    assert(s.len() == tail + 5);
    assert(s[0] == 's');
    assert forall|j: int| 0 <= j < s.len() && j != 6 implies #[trigger] s[j] != '/' by {
        if j < 7 {
            assert(s[j] == "scenes/"@[j]);
        } else if j < dash {
            assert(s[j] == id[j - 7]);
            assert(id_char(id[j - 7]));
        } else if j == dash {
            assert(s[j] == '-');
        } else if j < tail {
            assert(s[j] == p[j - dash - 1]);
            assert(numeral_char(p[j - dash - 1]));
        } else {
            assert(s[j] == ".json"@[j - tail]);
        }
    }
    assert(s[7] == id[0]);
    assert(id_char(id[0]));
    assert forall|i: int| 0 <= i && i + 1 < s.len() implies !#[trigger] parent_at(s, i) by {
        if i > 0 && i != 7 {
            assert(s[i - 1] != '/');
        }
    }
}

impl Manifest {
    /// The manifest of a new project named `name`, without its surrounding
    /// whitespace; a blank name is "Enter a project name".
    pub fn new_project(name: &str) -> (r: Result<Manifest, String>)
        ensures
            match r {
                Ok(m) => {
                    &&& !is_blank(name@)
                    &&& m.version == 1
                    &&& m.name@ == trimmed(name@)
                    &&& m.entry_scene@ == "main"@
                    &&& m.scenes.wf()
                    &&& m.scenes.keys().len() == 0
                },
                Err(e) => is_blank(name@) && e@ == "Enter a project name"@,
            },
    {
        if blank(name) {
            return Err(String::from_str("Enter a project name"));
        }
        Ok(Manifest {
            version: 1,
            name: String::from_str(trim(name)),
            entry_scene: String::from_str("main"),
            scenes: NameMap::new(),
        })
    }

    /// Accepts a manifest of format version 1 with a non-blank name and at
    /// least one scene; refuses others with the reason.
    pub fn check(&self) -> (r: Result<(), String>)
        requires
            self.scenes.wf(),
        ensures
            match r {
                Ok(_) => manifest_error(*self).is_none(),
                Err(e) => manifest_error(*self) == Some(e@),
            },
    {
        if self.version != 1 {
            let mut e = String::from_str("Unsupported project version ");
            push_decimal(&mut e, self.version as u64);
            e.append("; expected 1");
            return Err(e);
        }
        if blank(self.name.as_str()) || self.scenes.len() == 0 {
            return Err(String::from_str("Project needs a name and scene"));
        }
        Ok(())
    }

    /// A copy of this manifest with scene `id` stored at `rel`.
    pub fn with_scene(&self, id: &str, rel: String) -> (m: Manifest)
        requires
            self.scenes.wf(),
        ensures
            m.version == self.version,
            m.name == self.name,
            m.entry_scene == self.entry_scene,
            m.scenes.wf(),
            m.scenes.keys().to_set() == self.scenes.keys().to_set().insert(id@),
            m.scenes.lookup(id@) == Some(rel),
            forall|q: Seq<char>| q != id@ ==> #[trigger] m.scenes.lookup(q) == self.scenes.lookup(q),
    {
        let mut scenes = self.scenes.copy();
        scenes.insert(String::from_str(id), rel);
        Manifest {
            version: self.version,
            name: self.name.clone(),
            entry_scene: self.entry_scene.clone(),
            scenes,
        }
    }
}

/// Whether `id` may name a scene.
pub fn valid_scene_id(id: &str) -> (r: bool)
    ensures
        r == scene_id_ok(id@),
{
    let n = id.unicode_len();
    if n == 0 {
        return false;
    }
    let mut i: usize = 0;
    while i < n
        invariant
            n == id@.len(),
            i <= n,
            forall|k: int| 0 <= k < i ==> id_char(#[trigger] id@[k]),
        decreases n - i,
    {
        let c = id.get_char(i);
        if !(('0' <= c && c <= '9') || ('A' <= c && c <= 'Z') || ('a' <= c && c <= 'z') || c == '_'
            || c == '-') {
            return false;
        }
        i = i + 1;
    }
    true
}

/// Whether a manifest path stays inside the project folder.
pub fn scene_path_inside(rel: &str) -> (r: bool)
    ensures
        r == path_inside(rel@),
{
    let n = rel.unicode_len();
    if n > 0 && rel.get_char(0) == '/' {
        return false;
    }
    if n > 0 && rel.get_char(0) == '.' && (n == 1 || rel.get_char(1) == '/') {
        return false;
    }
    let mut i: usize = 0;
    while n > 0 && i < n - 1
        invariant
            n == rel@.len(),
            i <= n,
            forall|k: int| 0 <= k < i && k + 1 < n ==> !#[trigger] parent_at(rel@, k),
        decreases n - i,
    {
        let before_ok = i == 0 || rel.get_char(i - 1) == '/';
        let c0 = rel.get_char(i);
        let c1 = rel.get_char(i + 1);
        let after_ok = i + 2 == n || rel.get_char(i + 2) == '/';
        if before_ok && c0 == '.' && c1 == '.' && after_ok {
            assert(parent_at(rel@, i as int));
            return false;
        }
        assert(!parent_at(rel@, i as int));
        i = i + 1;
    }
    true
}

/// The file name of revision `revision` of scene `id`: the ID, a dash and
/// the revision with at least six digits, under `scenes/`.
pub fn revision_path(id: &str, revision: u64) -> (r: String)
    ensures
        r@ == revision_name(id@, revision as nat),
{
    let mut r = String::from_str("scenes/");
    r.append(id);
    r.append("-");
    push_decimal_padded(&mut r, revision, 6);
    r.append(".json");
    r
}

impl ProjectStore {
    /// The checks made before a scene is saved: the scene must be valid
    /// ("Invalid scene data"), then the ID ("Invalid scene ID").
    pub fn check_save(id: &str, scene: &Scene) -> (r: Result<(), String>)
        ensures
            match r {
                Ok(_) => scene.valid() && scene_id_ok(id@),
                Err(e) => if !scene.valid() {
                    e@ == "Invalid scene data"@
                } else {
                    !scene_id_ok(id@) && e@ == "Invalid scene ID"@
                },
            },
    {
        scene.validate()?;
        if !valid_scene_id(id) {
            return Err(String::from_str("Invalid scene ID"));
        }
        Ok(())
    }

    /// The relative file of scene `id`: "Unknown scene ID" when the manifest
    /// lists no such scene, "Scene path must stay inside project" when its
    /// path leaves the project folder.
    pub fn scene_path(&self, id: &str) -> (r: Result<String, String>)
        requires
            self.manifest.scenes.wf(),
        ensures
            match r {
                Ok(rel) => self.manifest.scenes.lookup(id@) == Some(rel) && path_inside(rel@),
                Err(e) => match self.manifest.scenes.lookup(id@) {
                    None => e@ == "Unknown scene ID"@,
                    Some(rel) => !path_inside(rel@) && e@ == "Scene path must stay inside project"@,
                },
            },
    {
        match self.manifest.scenes.get(id) {
            None => Err(String::from_str("Unknown scene ID")),
            Some(rel) => {
                if scene_path_inside(rel.as_str()) {
                    Ok(rel.clone())
                } else {
                    Err(String::from_str("Scene path must stay inside project"))
                }
            },
        }
    }
}

/// The top-bar label of a project: its name ("Untitled" without a project)
/// and whether the scene on screen is saved.
pub open spec fn label_text(name: Option<Seq<char>>, saved: bool) -> Seq<char> {
    (match name {
        Some(n) => n,
        None => "Untitled"@,
    }) + " · "@ + if saved {
        "saved"@
    } else {
        "unsaved"@
    }
}

/// Builds the top-bar label of a project.
pub fn project_label(name: Option<&str>, saved: bool) -> (r: String)
    ensures
        r@ == label_text(
            match name {
                Some(n) => Some(n@),
                None => None,
            },
            saved,
        ),
{
    let mut r = match name {
        Some(n) => String::from_str(n),
        None => String::from_str("Untitled"),
    };
    r.append(" · ");
    if saved {
        r.append("saved");
    } else {
        r.append("unsaved");
    }
    r
}

/// A scene ID is accepted exactly when it is non-empty and every character
/// is an ASCII letter of either case, a digit, `_` or `-`.
pub proof fn scene_ids_are_ascii_words(id: Seq<char>)
    ensures
        scene_id_ok(id) <==> id.len() > 0 && forall|i: int|
            0 <= i < id.len() ==> ('a' <= #[trigger] id[i] <= 'z' || 'A' <= id[i] <= 'Z' || '0'
                <= id[i] <= '9' || id[i] == '_' || id[i] == '-'),
{
    assert forall|i: int| 0 <= i < id.len() implies (#[trigger] id_char(id[i]) <==> ('a' <= id[i] <= 'z'
        || 'A' <= id[i] <= 'Z' || '0' <= id[i] <= '9' || id[i] == '_' || id[i] == '-')) by {
    }
}

} // verus!
