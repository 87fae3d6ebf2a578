//! Resolution of objects across model parts, and flattening of component trees into meshes.
//!
//! The parts of a package other than the root model are read and parsed by the caller
//! and handed to the resolver with the outcome of loading them; the resolver decides
//! which part an object lives in, follows component references, detects cycles and
//! enforces the depth limit.

use vstd::prelude::*;
use crate::error::Lib3mfError;
use crate::model::core_model::Model;
use crate::model::materials::{BaseMaterialsGroup, ColorGroup};
use crate::model::mesh::{BeamLattice, BeamSet, Component, Geometry, Mesh, Object, ObjectType, Transform};
use crate::model::resources::{first_with, ResourceId};
use crate::model::units::Unit;
use crate::text::{append_num, decimal, push_char, same_text};
use crate::model::build_section::BuildItem;

verus! {

// ---------------------------------------------------------------- part paths

/// `s` without its leading slashes.
pub open spec fn strip_slashes(s: Seq<char>) -> Seq<char>
    decreases s.len(),
{
    if s.len() > 0 && s[0] == '/' {
        strip_slashes(s.drop_first())
    } else {
        s
    }
}

/// The code of a character with ASCII capitals folded to small letters.
pub open spec fn folded(c: char) -> int {
    if 65 <= (c as int) <= 90 { (c as int) + 32 } else { c as int }
}

/// Whether two texts are equal when ASCII letters are compared without case.
pub open spec fn eq_ignore_ascii_case(a: Seq<char>, b: Seq<char>) -> bool {
    a.len() == b.len() && forall|i: int| 0 <= i < a.len() ==> folded(#[trigger] a[i]) == folded(b[i])
}

/// The key of the root model.
pub open spec fn root_key() -> Seq<char> {
    "ROOT"@
}

/// The part key of a path: the root for no path, an empty path or the main model part
/// (compared without case), else the path without leading slashes.
pub open spec fn canonical(path: Option<Seq<char>>) -> Seq<char> {
    match path {
        None => root_key(),
        Some(p) => {
            let t = strip_slashes(p);
            if t.len() == 0 || eq_ignore_ascii_case(t, "3D/3dmodel.model"@) { root_key() } else { t }
        },
    }
}

/// An optional text as a character sequence.
pub open spec fn opt_chars(p: Option<&str>) -> Option<Seq<char>> {
    match p {
        Some(s) => Some(s@),
        None => None,
    }
}

fn fold_code(c: char) -> (r: u32)
    ensures
        r == folded(c),
{
    let k = c as u32;
    if 65 <= k && k <= 90 { k + 32 } else { k }
}

pub(crate) fn same_ignoring_case(a: &str, b: &str) -> (r: bool)
    ensures
        r == eq_ignore_ascii_case(a@, b@),
{
    let n = a.unicode_len();
    if n != b.unicode_len() {
        return false;
    }
    let mut i: usize = 0;
    while i < n
        invariant
            n == a@.len(),
            n == b@.len(),
            i <= n,
            forall|k: int| 0 <= k < i ==> folded(#[trigger] a@[k]) == folded(b@[k]),
        decreases n - i,
    {
        if fold_code(a.get_char(i)) != fold_code(b.get_char(i)) {
            return false;
        }
        i = i + 1;
    }
    true
}

/// `p` without its leading slashes, as [`strip_slashes`] describes.
pub(crate) fn without_leading_slashes(p: &str) -> (r: String)
    ensures
        r@ == strip_slashes(p@),
{
    let n = p.unicode_len();
    let mut k: usize = 0;
    proof {
        assert(p@.skip(0) =~= p@);
    }
    while k < n && p.get_char(k) == '/'
        invariant
            n == p@.len(),
            k <= n,
            strip_slashes(p@) == strip_slashes(p@.skip(k as int)),
        decreases n - k,
    {
        proof {
            assert(p@.skip(k as int).drop_first() =~= p@.skip(k + 1));
        }
        k = k + 1;
    }
    let t = p.substring_char(k, n);
    proof {
        assert(t@ =~= p@.skip(k as int));
        assert(strip_slashes(t@) == t@);
    }
    String::from_str(t)
}

/// The part key of a path, as [`canonical`] describes.
pub fn canonical_path(path: Option<&str>) -> (r: String)
    ensures
        r@ == canonical(opt_chars(path)),
{
    match path {
        None => String::from_str("ROOT"),
        Some(p) => {
            let t = without_leading_slashes(p);
            if t.as_str().unicode_len() == 0 || same_ignoring_case(t.as_str(), "3D/3dmodel.model") {
                String::from_str("ROOT")
            } else {
                t
            }
        },
    }
}

// ---------------------------------------------------------------- copies

fn copy_vec<T: Copy>(v: &Vec<T>) -> (r: Vec<T>)
    ensures
        r@ == v@,
{
    let mut r: Vec<T> = Vec::new();
    let mut i: usize = 0;
    while i < v.len()
        invariant
            i <= v@.len(),
            r@ == v@.take(i as int),
        decreases v@.len() - i,
    {
        r.push(v[i]);
        proof {
            assert(v@.take(i + 1) =~= v@.take(i as int).push(v@[i as int]));
        }
        i = i + 1;
    }
    proof {
        assert(v@.take(v@.len() as int) =~= v@);
    }
    r
}

fn copy_opt_string(s: &Option<String>) -> (r: Option<String>)
    ensures
        r == *s,
{
    match s {
        Some(x) => Some(x.clone()),
        None => None,
    }
}

/// Whether two beam sets hold the same values.
pub open spec fn same_beam_set(a: BeamSet, b: BeamSet) -> bool {
    a.name == b.name && a.identifier == b.identifier && a.refs@ == b.refs@
}

/// Whether two beam lattices hold the same values.
pub open spec fn same_lattice(a: BeamLattice, b: BeamLattice) -> bool {
    &&& a.min_length == b.min_length
    &&& a.precision == b.precision
    &&& a.clipping_mode == b.clipping_mode
    &&& a.beams@ == b.beams@
    &&& a.beam_sets@.len() == b.beam_sets@.len()
    &&& forall|i: int| 0 <= i < a.beam_sets@.len() ==> same_beam_set(#[trigger] a.beam_sets@[i], b.beam_sets@[i])
}

/// Whether two meshes hold the same values.
pub open spec fn same_mesh(a: Mesh, b: Mesh) -> bool {
    &&& a.vertices@ == b.vertices@
    &&& a.triangles@ == b.triangles@
    &&& match (a.beam_lattice, b.beam_lattice) {
        (Some(x), Some(y)) => same_lattice(x, y),
        (None, None) => true,
        _ => false,
    }
}

impl BeamSet {
    /// A copy holding the same values.
    pub fn duplicate(&self) -> (r: Self)
        ensures
            same_beam_set(r, *self),
    {
        BeamSet { name: copy_opt_string(&self.name), identifier: copy_opt_string(&self.identifier), refs: copy_vec(&self.refs) }
    }
}

impl BeamLattice {
    /// A copy holding the same values.
    pub fn duplicate(&self) -> (r: Self)
        ensures
            same_lattice(r, *self),
    {
        let mut sets: Vec<BeamSet> = Vec::new();
        let mut i: usize = 0;
        while i < self.beam_sets.len()
            invariant
                i <= self.beam_sets@.len(),
                sets@.len() == i,
                forall|k: int| 0 <= k < i ==> same_beam_set(#[trigger] sets@[k], self.beam_sets@[k]),
            decreases self.beam_sets@.len() - i,
        {
            sets.push(self.beam_sets[i].duplicate());
            i = i + 1;
        }
        BeamLattice {
            min_length: self.min_length,
            precision: self.precision,
            clipping_mode: self.clipping_mode,
            beams: copy_vec(&self.beams),
            beam_sets: sets,
        }
    }
}

impl Mesh {
    /// A copy holding the same values.
    pub fn duplicate(&self) -> (r: Self)
        ensures
            same_mesh(r, *self),
    {
        let beam_lattice = match &self.beam_lattice {
            Some(b) => Some(b.duplicate()),
            None => None,
        };
        Mesh { vertices: copy_vec(&self.vertices), triangles: copy_vec(&self.triangles), beam_lattice }
    }
}

// ---------------------------------------------------------------- errors as values

/// An error as values: its kind (in declaration order) and its texts.
pub type ErrorKey = (nat, Seq<char>, Seq<char>);

/// The values of an error.
pub open spec fn error_key(e: Lib3mfError) -> ErrorKey {
    match e {
        Lib3mfError::Io(m) => (0, m@, Seq::empty()),
        Lib3mfError::Validation(m) => (1, m@, Seq::empty()),
        Lib3mfError::ResourceNotFound(id) => (2, decimal(id as nat), Seq::empty()),
        Lib3mfError::InvalidStructure(m) => (3, m@, Seq::empty()),
        Lib3mfError::EncryptionError(m) => (4, m@, Seq::empty()),
        Lib3mfError::FeatureNotEnabled(a, b) => (5, a@, b@),
    }
}

/// A structure error with the given message, as values.
pub open spec fn structure_error(msg: Seq<char>) -> ErrorKey {
    (3, msg, Seq::empty())
}

impl Lib3mfError {
    /// A copy holding the same values.
    pub fn duplicate(&self) -> (r: Self)
        ensures
            error_key(r) == error_key(*self),
    {
        match self {
            Lib3mfError::Io(m) => Lib3mfError::Io(m.clone()),
            Lib3mfError::Validation(m) => Lib3mfError::Validation(m.clone()),
            Lib3mfError::ResourceNotFound(id) => Lib3mfError::ResourceNotFound(*id),
            Lib3mfError::InvalidStructure(m) => Lib3mfError::InvalidStructure(m.clone()),
            Lib3mfError::EncryptionError(m) => Lib3mfError::EncryptionError(m.clone()),
            Lib3mfError::FeatureNotEnabled(a, b) => Lib3mfError::FeatureNotEnabled(a.clone(), b.clone()),
        }
    }
}

/// A character as it appears inside a quoted debug string.
pub open spec fn escaped(c: char) -> Seq<char> {
    if c == '"' {
        seq!['\\', '"']
    } else if c == '\\' {
        seq!['\\', '\\']
    } else if c == '\n' {
        seq!['\\', 'n']
    } else if c == '\r' {
        seq!['\\', 'r']
    } else if c == '\t' {
        seq!['\\', 't']
    } else if c == '\0' {
        seq!['\\', '0']
    } else {
        seq![c]
    }
}

/// The characters of `s` as they appear inside a quoted debug string.
pub open spec fn escape_all(s: Seq<char>) -> Seq<char>
    decreases s.len(),
{
    if s.len() == 0 {
        Seq::empty()
    } else {
        escape_all(s.drop_last()) + escaped(s.last())
    }
}

/// How an optional path prints in debug form: `None` or `Some("path")`.
pub open spec fn debug_path(p: Option<Seq<char>>) -> Seq<char> {
    match p {
        None => "None"@,
        Some(s) => "Some(\""@ + escape_all(s) + "\")"@,
    }
}

fn push_escaped(m: &mut String, c: char)
    ensures
        final(m)@ == old(m)@ + escaped(c),
{
    if c == '"' {
        push_char(m, '\\');
        push_char(m, '"');
    } else if c == '\\' {
        push_char(m, '\\');
        push_char(m, '\\');
    } else if c == '\n' {
        push_char(m, '\\');
        push_char(m, 'n');
    } else if c == '\r' {
        push_char(m, '\\');
        push_char(m, 'r');
    } else if c == '\t' {
        push_char(m, '\\');
        push_char(m, 't');
    } else if c == '\0' {
        push_char(m, '\\');
        push_char(m, '0');
    } else {
        push_char(m, c);
    }
    proof {
        assert(final(m)@ =~= old(m)@ + escaped(c));
    }
}

fn append_debug_path(m: &mut String, p: Option<&str>)
    ensures
        final(m)@ == old(m)@ + debug_path(opt_chars(p)),
{
    match p {
        None => m.append("None"),
        Some(s) => {
            let ghost m0 = m@;
            m.append("Some(\"");
            let ghost m1 = m@;
            let n = s.unicode_len();
            let mut i: usize = 0;
            while i < n
                invariant
                    n == s@.len(),
                    i <= n,
                    m@ == m1 + escape_all(s@.take(i as int)),
                decreases n - i,
            {
                push_escaped(m, s.get_char(i));
                proof {
                    assert(s@.take(i + 1).drop_last() =~= s@.take(i as int));
                }
                i = i + 1;
            }
            m.append("\")");
            proof {
                assert(s@.take(n as int) =~= s@);
                assert(m@ =~= m0 + debug_path(opt_chars(p)));
            }
        },
    }
}

// ---------------------------------------------------------------- resolution

/// Options of mesh resolution.
#[derive(Debug, Clone, Copy)]
pub struct ResolveOptions {
    /// Skip build items marked not printable.
    pub filter_non_printable: bool,
    /// Skip meshes of objects of type `other`.
    pub filter_other_objects: bool,
    /// Deepest component nesting accepted.
    pub max_depth: u32,
}

impl Default for ResolveOptions {
    fn default() -> (o: Self)
        ensures
            o.filter_non_printable,
            o.filter_other_objects,
            o.max_depth == 16,
    {
        ResolveOptions { filter_non_printable: true, filter_other_objects: true, max_depth: 16 }
    }
}

/// A mesh reached from the build, with the transforms that place it: the build item's first,
/// then each component's down to the mesh. Their product is the mesh's placement.
#[derive(Debug)]
pub struct ResolvedMesh {
    /// The mesh.
    pub mesh: Mesh,
    /// The transforms from the build item down to the mesh.
    pub transforms: Vec<Transform>,
    /// Type of the object holding the mesh.
    pub object_type: ObjectType,
    /// Name of that object.
    pub name: Option<String>,
    /// Unit of the model part holding it.
    pub unit: Unit,
}

/// A resolved mesh as values.
pub type MeshView = (Mesh, Seq<Transform>, ObjectType, Option<String>, Unit);

/// Whether a resolved mesh holds the values of `v`.
pub open spec fn resolved_as(r: ResolvedMesh, v: MeshView) -> bool {
    &&& same_mesh(r.mesh, v.0)
    &&& r.transforms@ == v.1
    &&& r.object_type == v.2
    &&& r.name == v.3
    &&& r.unit == v.4
}

/// The loaded model parts: a path key with the model read from it, or the error reading it.
pub type PartsView = Seq<(String, Result<Model, Lib3mfError>)>;

/// What was loaded under `key`, if anything (the first entry with that key).
pub open spec fn part_entry(parts: PartsView, key: Seq<char>) -> Option<Result<Model, Lib3mfError>>
    decreases parts.len(),
{
    if parts.len() == 0 {
        None
    } else if parts[0].0@ == key {
        Some(parts[0].1)
    } else {
        part_entry(parts.drop_first(), key)
    }
}

/// The part holding an object at `path`: the model, the error loading it, or (when nothing
/// was loaded under its key) an I/O error naming the key.
pub open spec fn part_at(parts: PartsView, path: Option<Seq<char>>) -> Result<Model, ErrorKey> {
    match part_entry(parts, canonical(path)) {
        Some(Ok(m)) => Ok(m),
        Some(Err(e)) => Err(error_key(e)),
        None => Err((0, canonical(path), Seq::empty())),
    }
}

/// The meshes reached from object `id` at `path`, or the error that stops the walk.
pub open spec fn resolve_spec(parts: PartsView, id: u32, path: Option<Seq<char>>, chain: Seq<Transform>, depth: int, anc: Seq<(u32, Seq<char>)>, opts: ResolveOptions) -> Result<Seq<MeshView>, ErrorKey>
    decreases opts.max_depth + 1 - depth, 1int, 0int,
{
    if depth > opts.max_depth {
        Err(structure_error("Component tree depth "@ + decimal(depth as nat) + " exceeds maximum of "@ + decimal(opts.max_depth as nat)))
    } else if anc.contains((id, canonical(path))) {
        Err(structure_error("Cycle detected: object "@ + decimal(id as nat) + " in path "@ + debug_path(path) + " appears in current ancestry"@))
    } else {
        match part_at(parts, path) {
            Err(e) => Err(e),
            Ok(m) => match first_with(m.resources.objects(), id) {
                None => Err(structure_error("Object "@ + decimal(id as nat) + " not found in path "@ + debug_path(path))),
                Some(obj) => match obj.geometry {
                    Geometry::Mesh(mesh) => if !opts.filter_other_objects || obj.object_type != ObjectType::Other {
                        Ok(seq![(mesh, chain, obj.object_type, obj.name, m.unit)])
                    } else {
                        Ok(Seq::empty())
                    },
                    Geometry::Components(cs) => {
                        let key = canonical(path);
                        resolve_list_spec(parts, cs.components@, 0, if key == root_key() { None } else { Some(key) }, chain, depth, anc.push((id, key)), opts)
                    },
                    _ => Ok(Seq::empty()),
                },
            },
        }
    }
}

/// The meshes reached from components `k..` of a list, in order, or the first error.
pub open spec fn resolve_list_spec(parts: PartsView, comps: Seq<Component>, k: int, inherited: Option<Seq<char>>, chain: Seq<Transform>, depth: int, anc: Seq<(u32, Seq<char>)>, opts: ResolveOptions) -> Result<Seq<MeshView>, ErrorKey>
    decreases opts.max_depth + 1 - depth, 0int, comps.len() - k,
{
    if k < 0 || k >= comps.len() || depth > opts.max_depth {
        Ok(Seq::empty())
    } else {
        let c = comps[k];
        let next = match c.path {
            Some(p) => Some(p@),
            None => inherited,
        };
        match resolve_spec(parts, c.object_id.0, next, chain.push(c.transform), depth + 1, anc, opts) {
            Err(e) => Err(e),
            Ok(r) => match resolve_list_spec(parts, comps, k + 1, inherited, chain, depth, anc, opts) {
                Err(e) => Err(e),
                Ok(rest) => Ok(r + rest),
            },
        }
    }
}

/// The meshes reached from build items `k..`, in order, or the first error.
pub open spec fn resolve_items_spec(parts: PartsView, items: Seq<BuildItem>, k: int, opts: ResolveOptions) -> Result<Seq<MeshView>, ErrorKey>
    decreases items.len() - k,
{
    if k < 0 || k >= items.len() {
        Ok(Seq::empty())
    } else {
        let it = items[k];
        if opts.filter_non_printable && it.printable == Some(false) {
            resolve_items_spec(parts, items, k + 1, opts)
        } else {
            let path = match it.path {
                Some(p) => Some(p@),
                None => None,
            };
            match resolve_spec(parts, it.object_id.0, path, seq![it.transform], 0, Seq::empty(), opts) {
                Err(e) => Err(e),
                Ok(r) => match resolve_items_spec(parts, items, k + 1, opts) {
                    Err(e) => Err(e),
                    Ok(rest) => Ok(r + rest),
                },
            }
        }
    }
}

/// Prepends `acc` to a successful result.
pub open spec fn prepend(acc: Seq<MeshView>, r: Result<Seq<MeshView>, ErrorKey>) -> Result<Seq<MeshView>, ErrorKey> {
    match r {
        Ok(v) => Ok(acc + v),
        Err(e) => Err(e),
    }
}

proof fn lemma_prepend_assoc(a: Seq<MeshView>, b: Seq<MeshView>, r: Result<Seq<MeshView>, ErrorKey>)
    ensures
        prepend(a, prepend(b, r)) == prepend(a + b, r),
{
    if let Ok(v) = r {
        assert(a + (b + v) =~= (a + b) + v);
    }
}

/// The ancestry stack as values.
pub open spec fn anc_view(v: Seq<(u32, String)>) -> Seq<(u32, Seq<char>)> {
    v.map_values(|e: (u32, String)| (e.0, e.1@))
}

/// Whether `out` is `before` followed by meshes holding the values `vs`.
pub open spec fn extended(before: Seq<ResolvedMesh>, out: Seq<ResolvedMesh>, vs: Seq<MeshView>) -> bool {
    &&& out.len() == before.len() + vs.len()
    &&& forall|k: int| 0 <= k < before.len() ==> out[k] == before[k]
    &&& forall|k: int| 0 <= k < vs.len() ==> resolved_as(#[trigger] out[before.len() + k], vs[k])
}

proof fn lemma_extended_trans(a: Seq<ResolvedMesh>, b: Seq<ResolvedMesh>, c: Seq<ResolvedMesh>, v1: Seq<MeshView>, v2: Seq<MeshView>)
    requires
        extended(a, b, v1),
        extended(b, c, v2),
    ensures
        extended(a, c, v1 + v2),
{
    assert forall|k: int| 0 <= k < (v1 + v2).len() implies resolved_as(#[trigger] c[a.len() + k], (v1 + v2)[k]) by {
        if k < v1.len() {
            assert(c[a.len() + k] == b[a.len() + k]);
            assert(resolved_as(b[a.len() + k], v1[k]));
        } else {
            assert(c[b.len() + (k - v1.len())] == c[a.len() + k]);
            assert(resolved_as(c[b.len() + (k - v1.len())], v2[k - v1.len()]));
        }
    }
}

fn in_ancestry(anc: &Vec<(u32, String)>, id: u32, key: &String) -> (r: bool)
    ensures
        r == anc_view(anc@).contains((id, key@)),
{
    let mut i: usize = 0;
    while i < anc.len()
        invariant
            i <= anc@.len(),
            forall|k: int| 0 <= k < i ==> anc_view(anc@)[k] != (id, key@),
        decreases anc@.len() - i,
    {
        if anc[i].0 == id && anc[i].1 == *key {
            proof {
                assert(anc_view(anc@)[i as int] == (id, key@));
            }
            return true;
        }
        i = i + 1;
    }
    false
}

/// Resolves objects across the model parts of a package.
pub struct PartResolver {
    parts: Vec<(String, Result<Model, Lib3mfError>)>,
}

impl PartResolver {
    /// The root model is the first part, under the root key.
    pub closed spec fn wf(&self) -> bool {
        &&& self.parts@.len() > 0
        &&& self.parts@[0].0@ == root_key()
        &&& self.parts@[0].1 is Ok
    }

    /// The loaded parts, in the order they were added; the root model comes first.
    pub closed spec fn parts_view(&self) -> PartsView {
        self.parts@
    }

    /// A resolver over a root model; other parts are added as they are loaded.
    pub fn new(root_model: Model) -> (r: Self)
        ensures
            r.wf(),
            r.parts_view().len() == 1,
            r.parts_view()[0].0@ == root_key(),
            r.parts_view()[0].1 == Ok::<Model, Lib3mfError>(root_model),
    {
        let mut parts: Vec<(String, Result<Model, Lib3mfError>)> = Vec::new();
        parts.push((String::from_str("ROOT"), Ok(root_model)));
        PartResolver { parts }
    }

    /// Records the outcome of loading the part with key `key` (see [`canonical_path`]).
    pub fn add_part(&mut self, key: String, loaded: Result<Model, Lib3mfError>)
        ensures
            old(self).wf() ==> final(self).wf(),
            final(self).parts_view() == old(self).parts_view().push((key, loaded)),
    {
        self.parts.push((key, loaded));
    }

    /// The root model.
    pub fn get_root_model(&self) -> (m: &Model)
        requires
            self.wf(),
        ensures
            self.parts_view()[0].1 == Ok::<Model, Lib3mfError>(*m),
    {
        match &self.parts[0].1 {
            Ok(m) => m,
            Err(_) => vstd::pervasive::unreached(),
        }
    }

    /// The model of the part at `path`, or why it is not available.
    pub fn get_model(&self, path: Option<&str>) -> (r: Result<&Model, Lib3mfError>)
        ensures
            match r {
                Ok(m) => part_at(self.parts_view(), opt_chars(path)) == Ok::<Model, ErrorKey>(*m),
                Err(e) => part_at(self.parts_view(), opt_chars(path)) == Err::<Model, ErrorKey>(error_key(e)),
            },
    {
        let key = canonical_path(path);
        let mut i: usize = 0;
        proof {
            assert(self.parts@.skip(0) =~= self.parts@);
        }
        while i < self.parts.len()
            invariant
                i <= self.parts@.len(),
                key@ == canonical(opt_chars(path)),
                part_entry(self.parts@, key@) == part_entry(self.parts@.skip(i as int), key@),
            decreases self.parts@.len() - i,
        {
            proof {
                assert(self.parts@.skip(i as int)[0] == self.parts@[i as int]);
                assert(self.parts@.skip(i as int).drop_first() =~= self.parts@.skip(i + 1));
            }
            if self.parts[i].0 == key {
                proof {
                    assert(part_entry(self.parts@.skip(i as int), key@) == Some(self.parts@[i as int].1));
                }
                return match &self.parts[i].1 {
                    Ok(m) => {
                        proof {
                            assert(self.parts@[i as int].1 == Ok::<Model, Lib3mfError>(*m));
                            assert(part_entry(self.parts@, canonical(opt_chars(path))) == Some(Ok::<Model, Lib3mfError>(*m)));
                        }
                        Ok(m)
                    },
                    Err(e) => Err(e.duplicate()),
                };
            }
            i = i + 1;
        }
        Err(Lib3mfError::Io(key))
    }

    /// The object `id` in the part at `path`, with its model; `None` when the part has no such object.
    pub fn resolve_object(&self, id: ResourceId, path: Option<&str>) -> (r: Result<Option<(&Model, &Object)>, Lib3mfError>)
        ensures
            match r {
                Ok(Some((m, o))) => part_at(self.parts_view(), opt_chars(path)) == Ok::<Model, ErrorKey>(*m)
                    && first_with(m.resources.objects(), id.0) == Some(*o),
                Ok(None) => part_at(self.parts_view(), opt_chars(path)) matches Ok(m)
                    && first_with(m.resources.objects(), id.0) is None,
                Err(e) => part_at(self.parts_view(), opt_chars(path)) == Err::<Model, ErrorKey>(error_key(e)),
            },
    {
        let model = self.get_model(path)?;
        match model.resources.get_object(id) {
            Some(o) => Ok(Some((model, o))),
            None => Ok(None),
        }
    }

    /// The base materials group `id` in the part at `path`.
    pub fn resolve_base_materials(&self, id: ResourceId, path: Option<&str>) -> (r: Result<Option<&BaseMaterialsGroup>, Lib3mfError>)
        ensures
            match r {
                Ok(g) => part_at(self.parts_view(), opt_chars(path)) matches Ok(m)
                    && first_with(m.resources.base_materials(), id.0) == match g { Some(x) => Some(*x), None => None::<BaseMaterialsGroup> },
                Err(e) => part_at(self.parts_view(), opt_chars(path)) == Err::<Model, ErrorKey>(error_key(e)),
            },
    {
        let model = self.get_model(path)?;
        Ok(model.resources.get_base_materials(id))
    }

    /// The color group `id` in the part at `path`.
    pub fn resolve_color_group(&self, id: ResourceId, path: Option<&str>) -> (r: Result<Option<&ColorGroup>, Lib3mfError>)
        ensures
            match r {
                Ok(g) => part_at(self.parts_view(), opt_chars(path)) matches Ok(m)
                    && first_with(m.resources.color_groups(), id.0) == match g { Some(x) => Some(*x), None => None::<ColorGroup> },
                Err(e) => part_at(self.parts_view(), opt_chars(path)) == Err::<Model, ErrorKey>(error_key(e)),
            },
    {
        let model = self.get_model(path)?;
        Ok(model.resources.get_color_group(id))
    }

    fn resolve_recursive(&self, id: u32, path: Option<&str>, chain: &Vec<Transform>, depth: u64, ancestry: &mut Vec<(u32, String)>, options: &ResolveOptions, out: &mut Vec<ResolvedMesh>) -> (r: Result<(), Lib3mfError>)
        requires
            depth <= options.max_depth as u64 + 1,
        ensures
            match r {
                Ok(()) => resolve_spec(self.parts_view(), id, opt_chars(path), chain@, depth as int, anc_view(old(ancestry)@), *options) matches Ok(v)
                    && extended(old(out)@, final(out)@, v)
                    && anc_view(final(ancestry)@) == anc_view(old(ancestry)@),
                Err(e) => resolve_spec(self.parts_view(), id, opt_chars(path), chain@, depth as int, anc_view(old(ancestry)@), *options)
                    == Err::<Seq<MeshView>, ErrorKey>(error_key(e)),
            },
        decreases options.max_depth + 1 - depth, 1int, 0int,
    {
        if depth > options.max_depth as u64 {
            let mut m = String::new();
            append_num(&mut m, "Component tree depth ", depth);
            append_num(&mut m, " exceeds maximum of ", options.max_depth as u64);
            return Err(Lib3mfError::InvalidStructure(m));
        }
        let key = canonical_path(path);
        if in_ancestry(ancestry, id, &key) {
            let mut m = String::new();
            append_num(&mut m, "Cycle detected: object ", id as u64);
            m.append(" in path ");
            append_debug_path(&mut m, path);
            m.append(" appears in current ancestry");
            proof {
                assert(m@ =~= "Cycle detected: object "@ + decimal(id as nat) + " in path "@ + debug_path(opt_chars(path)) + " appears in current ancestry"@);
            }
            return Err(Lib3mfError::InvalidStructure(m));
        }
        let model = self.get_model(path)?;
        match model.resources.get_object(ResourceId(id)) {
            None => {
                let mut m = String::new();
                append_num(&mut m, "Object ", id as u64);
                m.append(" not found in path ");
                append_debug_path(&mut m, path);
                proof {
                    assert(m@ =~= "Object "@ + decimal(id as nat) + " not found in path "@ + debug_path(opt_chars(path)));
                }
                Err(Lib3mfError::InvalidStructure(m))
            },
            Some(obj) => match &obj.geometry {
                Geometry::Mesh(mesh) => {
                    let keep = !options.filter_other_objects || match obj.object_type {
                        ObjectType::Other => false,
                        _ => true,
                    };
                    let ghost o0 = out@;
                    if keep {
                        out.push(ResolvedMesh {
                            mesh: mesh.duplicate(),
                            transforms: copy_vec(chain),
                            object_type: obj.object_type,
                            name: copy_opt_string(&obj.name),
                            unit: model.unit,
                        });
                        proof {
                            let v: Seq<MeshView> = seq![(*mesh, chain@, obj.object_type, obj.name, model.unit)];
                            assert(resolved_as(out@[o0.len() as int], v[0]));
                            assert(extended(o0, out@, v));
                        }
                    } else {
                        proof {
                            assert(extended(o0, out@, Seq::<MeshView>::empty()));
                        }
                    }
                    Ok(())
                },
                Geometry::Components(cs) => {
                    let root = String::from_str("ROOT");
                    let is_root = key == root;
                    let inherited: Option<String> = if is_root { None } else { Some(key.clone()) };
                    let ghost a0 = ancestry@;
                    ancestry.push((id, key));
                    proof {
                        assert(anc_view(ancestry@) =~= anc_view(a0).push((id, canonical(opt_chars(path)))));
                    }
                    let inherited_ref: Option<&str> = match &inherited {
                        Some(k) => Some(k.as_str()),
                        None => None,
                    };
                    let r = self.resolve_components(&cs.components, inherited_ref, chain, depth, ancestry, options, out);
                    match r {
                        Ok(()) => {
                            let ghost before_pop = ancestry@;
                            ancestry.pop();
                            proof {
                                assert(anc_view(ancestry@) =~= anc_view(before_pop).drop_last());
                                assert(anc_view(ancestry@) =~= anc_view(a0));
                            }
                            Ok(())
                        },
                        Err(e) => Err(e),
                    }
                },
                _ => {
                    proof {
                        assert(extended(out@, out@, Seq::<MeshView>::empty()));
                    }
                    Ok(())
                },
            },
        }
    }

    fn resolve_components(&self, comps: &Vec<Component>, inherited: Option<&str>, chain: &Vec<Transform>, depth: u64, ancestry: &mut Vec<(u32, String)>, options: &ResolveOptions, out: &mut Vec<ResolvedMesh>) -> (r: Result<(), Lib3mfError>)
        requires
            depth <= options.max_depth as u64,
        ensures
            match r {
                Ok(()) => resolve_list_spec(self.parts_view(), comps@, 0, opt_chars(inherited), chain@, depth as int, anc_view(old(ancestry)@), *options) matches Ok(v)
                    && extended(old(out)@, final(out)@, v)
                    && anc_view(final(ancestry)@) == anc_view(old(ancestry)@),
                Err(e) => resolve_list_spec(self.parts_view(), comps@, 0, opt_chars(inherited), chain@, depth as int, anc_view(old(ancestry)@), *options)
                    == Err::<Seq<MeshView>, ErrorKey>(error_key(e)),
            },
        decreases options.max_depth + 1 - depth, 0int, comps@.len(),
    {
        let ghost parts = self.parts_view();
        let ghost anc0 = anc_view(ancestry@);
        let ghost out0 = out@;
        let ghost inh = opt_chars(inherited);
        let ghost mut acc: Seq<MeshView> = Seq::empty();
        proof {
            assert(prepend(acc, resolve_list_spec(parts, comps@, 0, inh, chain@, depth as int, anc0, *options))
                =~= resolve_list_spec(parts, comps@, 0, inh, chain@, depth as int, anc0, *options)) by {
                if let Ok(v) = resolve_list_spec(parts, comps@, 0, inh, chain@, depth as int, anc0, *options) {
                    assert(acc + v =~= v);
                }
            }
            assert(extended(out0, out@, acc));
        }
        let mut k: usize = 0;
        while k < comps.len()
            invariant
                parts == self.parts_view(),
                depth <= options.max_depth as u64,
                k <= comps@.len(),
                anc_view(ancestry@) == anc0,
                anc0 == anc_view(old(ancestry)@),
                out0 == old(out)@,
                inh == opt_chars(inherited),
                resolve_list_spec(parts, comps@, 0, inh, chain@, depth as int, anc0, *options)
                    == prepend(acc, resolve_list_spec(parts, comps@, k as int, inh, chain@, depth as int, anc0, *options)),
                extended(out0, out@, acc),
            decreases comps@.len() - k,
        {
            let c = &comps[k];
            let mut child = copy_vec(chain);
            child.push(c.transform);
            let next: Option<&str> = match &c.path {
                Some(p) => Some(p.as_str()),
                None => inherited,
            };
            let ghost mid = out@;
            proof {
                assert(opt_chars(next) == match c.path { Some(p) => Some(p@), None => inh });
            }
            let r = self.resolve_recursive(c.object_id.0, next, &child, depth + 1, ancestry, options, out);
            proof {
                assert(child@ == chain@.push(c.transform));
                assert(comps@[k as int] == *c);
            }
            match r {
                Err(e) => {
                    proof {
                        assert(resolve_list_spec(parts, comps@, k as int, inh, chain@, depth as int, anc0, *options) == Err::<Seq<MeshView>, ErrorKey>(error_key(e)));
                        assert(resolve_list_spec(parts, comps@, 0, inh, chain@, depth as int, anc0, *options) == Err::<Seq<MeshView>, ErrorKey>(error_key(e)));
                        assert(inh == opt_chars(inherited));
                        assert(anc0 == anc_view(old(ancestry)@));
                    }
                    return Err(e);
                },
                Ok(()) => {
                    proof {
                        let v = resolve_spec(parts, c.object_id.0, opt_chars(next), child@, depth as int + 1, anc0, *options)->Ok_0;
                        lemma_extended_trans(out0, mid, out@, acc, v);
                        lemma_prepend_assoc(acc, v, resolve_list_spec(parts, comps@, k + 1, inh, chain@, depth as int, anc0, *options));
                        acc = acc + v;
                    }
                },
            }
            k = k + 1;
        }
        proof {
            assert(acc + Seq::<MeshView>::empty() =~= acc);
        }
        Ok(())
    }

    /// The meshes reached from the build of the root model, in build order, each with the
    /// transforms that place it; non-printable items and meshes of `other` objects are
    /// skipped as the options say. Fails on a missing object or part, a component cycle,
    /// or nesting deeper than the limit.
    pub fn resolve_meshes(&self, options: &ResolveOptions) -> (r: Result<Vec<ResolvedMesh>, Lib3mfError>)
        requires
            self.wf(),
        ensures
            match r {
                Ok(v) => resolve_items_spec(self.parts_view(), self.parts_view()[0].1->Ok_0.build.items@, 0, *options) matches Ok(vs)
                    && extended(Seq::empty(), v@, vs),
                Err(e) => resolve_items_spec(self.parts_view(), self.parts_view()[0].1->Ok_0.build.items@, 0, *options)
                    == Err::<Seq<MeshView>, ErrorKey>(error_key(e)),
            },
    {
        let root = self.get_root_model();
        let items = &root.build.items;
        let ghost parts = self.parts_view();
        let mut out: Vec<ResolvedMesh> = Vec::new();
        let mut ancestry: Vec<(u32, String)> = Vec::new();
        let ghost mut acc: Seq<MeshView> = Seq::empty();
        proof {
            assert(prepend(acc, resolve_items_spec(parts, items@, 0, *options)) =~= resolve_items_spec(parts, items@, 0, *options)) by {
                if let Ok(v) = resolve_items_spec(parts, items@, 0, *options) {
                    assert(acc + v =~= v);
                }
            }
            assert(anc_view(ancestry@) =~= Seq::empty());
        }
        let mut k: usize = 0;
        while k < items.len()
            invariant
                parts == self.parts_view(),
                items@ == self.parts_view()[0].1->Ok_0.build.items@,
                k <= items@.len(),
                anc_view(ancestry@) == Seq::<(u32, Seq<char>)>::empty(),
                resolve_items_spec(parts, items@, 0, *options) == prepend(acc, resolve_items_spec(parts, items@, k as int, *options)),
                extended(Seq::empty(), out@, acc),
            decreases items@.len() - k,
        {
            let it = &items[k];
            let skip = options.filter_non_printable && match it.printable {
                Some(false) => true,
                _ => false,
            };
            if !skip {
                let chain: Vec<Transform> = vec![it.transform];
                let p: Option<&str> = match &it.path {
                    Some(x) => Some(x.as_str()),
                    None => None,
                };
                let ghost mid = out@;
                proof {
                    assert(chain@ =~= seq![it.transform]);
                    assert(opt_chars(p) == match it.path { Some(x) => Some(x@), None => None::<Seq<char>> });
                }
                let r = self.resolve_recursive(it.object_id.0, p, &chain, 0, &mut ancestry, options, &mut out);
                match r {
                    Err(e) => {
                        return Err(e);
                    },
                    Ok(()) => {
                        proof {
                            let v = resolve_spec(parts, it.object_id.0, opt_chars(p), chain@, 0, Seq::empty(), *options)->Ok_0;
                            lemma_extended_trans(Seq::empty(), mid, out@, acc, v);
                            lemma_prepend_assoc(acc, v, resolve_items_spec(parts, items@, k + 1, *options));
                            acc = acc + v;
                        }
                    },
                }
            }
            k = k + 1;
        }
        proof {
            assert(acc + Seq::<MeshView>::empty() =~= acc);
        }
        Ok(out)
    }
}

// ---------------------------------------------------------------- statistics walk

/// Nesting depth at which the statistics walk stops with an error. It exists so that the
/// walk provably ends; a component graph with a cycle recurses until the stack is spent.
pub const WALK_DEPTH_LIMIT: u64 = 4294967295;

/// What the statistics walk records: the type of every object reached, in walk order, and
/// every mesh reached with the transforms that place it.
pub type WalkView = (Seq<ObjectType>, Seq<MeshView>);

/// The path that the components of an object at `path` inherit: none for the root part
/// (no path, `ROOT`, or the main model part written with or without a leading slash), else
/// `path` as written.
pub open spec fn inherited_path(path: Option<Seq<char>>) -> Option<Seq<char>> {
    match path {
        None => None,
        Some(p) => if p == "ROOT"@ || p == "/3D/3dmodel.model"@ || p == "3D/3dmodel.model"@ {
            None
        } else {
            Some(p)
        },
    }
}

/// Prepends `acc` to a successful walk.
pub open spec fn walk_prepend(acc: WalkView, r: Result<WalkView, ErrorKey>) -> Result<WalkView, ErrorKey> {
    match r {
        Ok(v) => Ok((acc.0 + v.0, acc.1 + v.1)),
        Err(e) => Err(e),
    }
}

/// The statistics walk of object `id` at `path`: the object's type, then for a mesh the
/// mesh with its placement, for components the walk of each component in order. A missing
/// object adds nothing; a part that is not available stops the walk.
pub open spec fn walk_spec(parts: PartsView, id: u32, path: Option<Seq<char>>, chain: Seq<Transform>, depth: int) -> Result<WalkView, ErrorKey>
    decreases WALK_DEPTH_LIMIT + 1 - depth, 1int, 0int,
{
    if depth > WALK_DEPTH_LIMIT {
        Err(structure_error("Component tree depth "@ + decimal(depth as nat) + " exceeds maximum of "@ + decimal(WALK_DEPTH_LIMIT as nat)))
    } else {
        match part_at(parts, path) {
            Err(e) => Err(e),
            Ok(m) => match first_with(m.resources.objects(), id) {
                None => Ok((Seq::empty(), Seq::empty())),
                Some(obj) => match obj.geometry {
                    Geometry::Mesh(mesh) => Ok((seq![obj.object_type], seq![(mesh, chain, obj.object_type, obj.name, m.unit)])),
                    Geometry::Components(cs) => walk_prepend(
                        (seq![obj.object_type], Seq::empty()),
                        walk_list_spec(parts, cs.components@, 0, inherited_path(path), chain, depth),
                    ),
                    _ => Ok((seq![obj.object_type], Seq::empty())),
                },
            },
        }
    }
}

/// The statistics walk of components `k..` of a list, in order, or the first error.
pub open spec fn walk_list_spec(parts: PartsView, comps: Seq<Component>, k: int, inherited: Option<Seq<char>>, chain: Seq<Transform>, depth: int) -> Result<WalkView, ErrorKey>
    decreases WALK_DEPTH_LIMIT + 1 - depth, 0int, comps.len() - k,
{
    if k < 0 || k >= comps.len() || depth > WALK_DEPTH_LIMIT {
        Ok((Seq::empty(), Seq::empty()))
    } else {
        let c = comps[k];
        let next = match c.path {
            Some(p) => Some(p@),
            None => inherited,
        };
        match walk_spec(parts, c.object_id.0, next, chain.push(c.transform), depth + 1) {
            Err(e) => Err(e),
            Ok(r) => walk_prepend(r, walk_list_spec(parts, comps, k + 1, inherited, chain, depth)),
        }
    }
}

/// The statistics walk of build items `k..`, in order, or the first error. Every item is
/// walked, printable or not.
pub open spec fn walk_items_spec(parts: PartsView, items: Seq<BuildItem>, k: int) -> Result<WalkView, ErrorKey>
    decreases items.len() - k,
{
    if k < 0 || k >= items.len() {
        Ok((Seq::empty(), Seq::empty()))
    } else {
        let it = items[k];
        let path = match it.path {
            Some(p) => Some(p@),
            None => None,
        };
        match walk_spec(parts, it.object_id.0, path, seq![it.transform], 0) {
            Err(e) => Err(e),
            Ok(r) => walk_prepend(r, walk_items_spec(parts, items, k + 1)),
        }
    }
}

proof fn lemma_walk_prepend_assoc(a: WalkView, b: WalkView, r: Result<WalkView, ErrorKey>)
    ensures
        walk_prepend(a, walk_prepend(b, r)) == walk_prepend((a.0 + b.0, a.1 + b.1), r),
{
    if let Ok(v) = r {
        assert(a.0 + (b.0 + v.0) =~= (a.0 + b.0) + v.0);
        assert(a.1 + (b.1 + v.1) =~= (a.1 + b.1) + v.1);
    }
}

proof fn lemma_walk_prepend_empty(r: Result<WalkView, ErrorKey>)
    ensures
        walk_prepend((Seq::empty(), Seq::empty()), r) == r,
{
    if let Ok(v) = r {
        assert(Seq::<ObjectType>::empty() + v.0 =~= v.0);
        assert(Seq::<MeshView>::empty() + v.1 =~= v.1);
    }
}

/// The inherited path of a written path, as [`inherited_path`] says.
fn inherit<'a>(path: Option<&'a str>) -> (r: Option<&'a str>)
    ensures
        opt_chars(r) == inherited_path(opt_chars(path)),
{
    match path {
        None => None,
        Some(p) => if same_text(p, "ROOT") || same_text(p, "/3D/3dmodel.model") || same_text(p, "3D/3dmodel.model") {
            None
        } else {
            Some(p)
        },
    }
}

impl PartResolver {
    /// Walks object `id` at `path` for the statistics, appending the type of every object
    /// reached to `types` and every mesh reached, with its placement, to `out`.
    fn accumulate_object_stats(&self, id: u32, path: Option<&str>, chain: &Vec<Transform>, depth: u64, types: &mut Vec<ObjectType>, out: &mut Vec<ResolvedMesh>) -> (r: Result<(), Lib3mfError>)
        requires
            depth <= WALK_DEPTH_LIMIT + 1,
        ensures
            match r {
                Ok(()) => walk_spec(self.parts_view(), id, opt_chars(path), chain@, depth as int) matches Ok(v)
                    && final(types)@ == old(types)@ + v.0
                    && extended(old(out)@, final(out)@, v.1),
                Err(e) => walk_spec(self.parts_view(), id, opt_chars(path), chain@, depth as int) == Err::<WalkView, ErrorKey>(error_key(e)),
            },
        decreases WALK_DEPTH_LIMIT + 1 - depth, 1int, 0int,
    {
        if depth > WALK_DEPTH_LIMIT {
            let mut m = String::new();
            append_num(&mut m, "Component tree depth ", depth);
            append_num(&mut m, " exceeds maximum of ", WALK_DEPTH_LIMIT);
            return Err(Lib3mfError::InvalidStructure(m));
        }
        let model = self.get_model(path)?;
        match model.resources.get_object(ResourceId(id)) {
            None => {
                proof {
                    assert(types@ =~= old(types)@ + Seq::<ObjectType>::empty());
                    assert(extended(out@, out@, Seq::<MeshView>::empty()));
                }
                Ok(())
            },
            Some(obj) => {
                types.push(obj.object_type);
                match &obj.geometry {
                    Geometry::Mesh(mesh) => {
                        let ghost o0 = out@;
                        out.push(ResolvedMesh {
                            mesh: mesh.duplicate(),
                            transforms: copy_vec(chain),
                            object_type: obj.object_type,
                            name: copy_opt_string(&obj.name),
                            unit: model.unit,
                        });
                        proof {
                            let v: Seq<MeshView> = seq![(*mesh, chain@, obj.object_type, obj.name, model.unit)];
                            assert(resolved_as(out@[o0.len() as int], v[0]));
                            assert(extended(o0, out@, v));
                            assert(types@ =~= old(types)@ + seq![obj.object_type]);
                        }
                        Ok(())
                    },
                    Geometry::Components(cs) => {
                        let ghost t1 = types@;
                        let inherited = inherit(path);
                        let r = self.accumulate_components(&cs.components, inherited, chain, depth, types, out);
                        proof {
                            if r is Ok {
                                let v = walk_list_spec(self.parts_view(), cs.components@, 0, inherited_path(opt_chars(path)), chain@, depth as int)->Ok_0;
                                assert(types@ =~= old(types)@ + (seq![obj.object_type] + v.0));
                                assert(Seq::<MeshView>::empty() + v.1 =~= v.1);
                            }
                        }
                        r
                    },
                    _ => {
                        proof {
                            assert(types@ =~= old(types)@ + seq![obj.object_type]);
                            assert(extended(out@, out@, Seq::<MeshView>::empty()));
                        }
                        Ok(())
                    },
                }
            },
        }
    }

    fn accumulate_components(&self, comps: &Vec<Component>, inherited: Option<&str>, chain: &Vec<Transform>, depth: u64, types: &mut Vec<ObjectType>, out: &mut Vec<ResolvedMesh>) -> (r: Result<(), Lib3mfError>)
        requires
            depth <= WALK_DEPTH_LIMIT,
        ensures
            match r {
                Ok(()) => walk_list_spec(self.parts_view(), comps@, 0, opt_chars(inherited), chain@, depth as int) matches Ok(v)
                    && final(types)@ == old(types)@ + v.0
                    && extended(old(out)@, final(out)@, v.1),
                Err(e) => walk_list_spec(self.parts_view(), comps@, 0, opt_chars(inherited), chain@, depth as int)
                    == Err::<WalkView, ErrorKey>(error_key(e)),
            },
        decreases WALK_DEPTH_LIMIT + 1 - depth, 0int, comps@.len(),
    {
        let ghost parts = self.parts_view();
        let ghost inh = opt_chars(inherited);
        let ghost mut acc: WalkView = (Seq::empty(), Seq::empty());
        proof {
            lemma_walk_prepend_empty(walk_list_spec(parts, comps@, 0, inh, chain@, depth as int));
            assert(types@ =~= old(types)@ + acc.0);
            assert(extended(old(out)@, out@, acc.1));
        }
        let mut k: usize = 0;
        while k < comps.len()
            invariant
                parts == self.parts_view(),
                depth <= WALK_DEPTH_LIMIT,
                k <= comps@.len(),
                inh == opt_chars(inherited),
                walk_list_spec(parts, comps@, 0, inh, chain@, depth as int)
                    == walk_prepend(acc, walk_list_spec(parts, comps@, k as int, inh, chain@, depth as int)),
                types@ == old(types)@ + acc.0,
                extended(old(out)@, out@, acc.1),
            decreases comps@.len() - k,
        {
            let c = &comps[k];
            let mut child = copy_vec(chain);
            child.push(c.transform);
            let next: Option<&str> = match &c.path {
                Some(p) => Some(p.as_str()),
                None => inherited,
            };
            let ghost mid = out@;
            let ghost tmid = types@;
            proof {
                assert(opt_chars(next) == match c.path { Some(p) => Some(p@), None => inh });
            }
            let r = self.accumulate_object_stats(c.object_id.0, next, &child, depth + 1, types, out);
            proof {
                assert(child@ == chain@.push(c.transform));
                assert(comps@[k as int] == *c);
            }
            match r {
                Err(e) => {
                    proof {
                        assert(walk_list_spec(parts, comps@, k as int, inh, chain@, depth as int) == Err::<WalkView, ErrorKey>(error_key(e)));
                    }
                    return Err(e);
                },
                Ok(()) => {
                    proof {
                        let v = walk_spec(parts, c.object_id.0, opt_chars(next), child@, depth as int + 1)->Ok_0;
                        lemma_extended_trans(old(out)@, mid, out@, acc.1, v.1);
                        lemma_walk_prepend_assoc(acc, v, walk_list_spec(parts, comps@, k + 1, inh, chain@, depth as int));
                        assert(types@ =~= old(types)@ + (acc.0 + v.0));
                        acc = (acc.0 + v.0, acc.1 + v.1);
                    }
                },
            }
            k = k + 1;
        }
        proof {
            assert(acc.0 + Seq::<ObjectType>::empty() =~= acc.0);
            assert(acc.1 + Seq::<MeshView>::empty() =~= acc.1);
        }
        Ok(())
    }

    /// The statistics walk of every build item of the root model, in build order: the
    /// types of all objects reached and all meshes reached with their placements.
    pub fn walk_build(&self) -> (r: Result<(Vec<ObjectType>, Vec<ResolvedMesh>), Lib3mfError>)
        requires
            self.wf(),
        ensures
            match r {
                Ok((t, v)) => walk_items_spec(self.parts_view(), self.parts_view()[0].1->Ok_0.build.items@, 0) matches Ok(w)
                    && t@ == w.0 && extended(Seq::empty(), v@, w.1),
                Err(e) => walk_items_spec(self.parts_view(), self.parts_view()[0].1->Ok_0.build.items@, 0)
                    == Err::<WalkView, ErrorKey>(error_key(e)),
            },
    {
        let root = self.get_root_model();
        let items = &root.build.items;
        let ghost parts = self.parts_view();
        let mut types: Vec<ObjectType> = Vec::new();
        let mut out: Vec<ResolvedMesh> = Vec::new();
        let ghost mut acc: WalkView = (Seq::empty(), Seq::empty());
        proof {
            lemma_walk_prepend_empty(walk_items_spec(parts, items@, 0));
            assert(types@ =~= acc.0);
            assert(extended(Seq::empty(), out@, acc.1));
        }
        let mut k: usize = 0;
        while k < items.len()
            invariant
                parts == self.parts_view(),
                items@ == self.parts_view()[0].1->Ok_0.build.items@,
                k <= items@.len(),
                walk_items_spec(parts, items@, 0) == walk_prepend(acc, walk_items_spec(parts, items@, k as int)),
                types@ == acc.0,
                extended(Seq::empty(), out@, acc.1),
            decreases items@.len() - k,
        {
            let it = &items[k];
            let chain: Vec<Transform> = vec![it.transform];
            let p: Option<&str> = match &it.path {
                Some(x) => Some(x.as_str()),
                None => None,
            };
            let ghost mid = out@;
            proof {
                assert(chain@ =~= seq![it.transform]);
                assert(opt_chars(p) == match it.path { Some(x) => Some(x@), None => None::<Seq<char>> });
            }
            let r = self.accumulate_object_stats(it.object_id.0, p, &chain, 0, &mut types, &mut out);
            match r {
                Err(e) => {
                    return Err(e);
                },
                Ok(()) => {
                    proof {
                        let v = walk_spec(parts, it.object_id.0, opt_chars(p), chain@, 0)->Ok_0;
                        lemma_extended_trans(Seq::empty(), mid, out@, acc.1, v.1);
                        lemma_walk_prepend_assoc(acc, v, walk_items_spec(parts, items@, k + 1));
                        acc = (acc.0 + v.0, acc.1 + v.1);
                    }
                },
            }
            k = k + 1;
        }
        proof {
            assert(acc.0 + Seq::<ObjectType>::empty() =~= acc.0);
            assert(acc.1 + Seq::<MeshView>::empty() =~= acc.1);
        }
        Ok((types, out))
    }
}

} // verus!
