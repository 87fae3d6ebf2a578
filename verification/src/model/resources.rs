//! The resource registry: every resource of a model under one ID namespace.

use vstd::prelude::*;
use crate::error::Lib3mfError;
use crate::model::materials::{
    BaseMaterialsGroup, ColorGroup, CompositeMaterials, Displacement2D, MultiProperties,
    Texture2DGroup,
};
use crate::model::mesh::Object;
use crate::model::secure_content::KeyStore;
use crate::model::slice::SliceStack;
use crate::model::volumetric::VolumetricStack;
use crate::text::{decimal, push_decimal};

verus! {

/// Identifier of a resource. All resources of a model share one ID namespace.
#[derive(Debug, Clone, Copy, PartialEq, Eq, Hash)]
pub struct ResourceId(pub u32);

/// A resource that carries a resource ID.
pub trait Identified {
    /// The resource ID, as a number.
    spec fn rid(&self) -> u32;

    /// The resource ID.
    fn resource_id(&self) -> (r: ResourceId)
        ensures
            r.0 == self.rid(),
    ;
}

impl Identified for Object {
    open spec fn rid(&self) -> u32 { self.id.0 }
    fn resource_id(&self) -> (r: ResourceId) { self.id }
}

impl Identified for BaseMaterialsGroup {
    open spec fn rid(&self) -> u32 { self.id.0 }
    fn resource_id(&self) -> (r: ResourceId) { self.id }
}

impl Identified for ColorGroup {
    open spec fn rid(&self) -> u32 { self.id.0 }
    fn resource_id(&self) -> (r: ResourceId) { self.id }
}

impl Identified for SliceStack {
    open spec fn rid(&self) -> u32 { self.id.0 }
    fn resource_id(&self) -> (r: ResourceId) { self.id }
}

impl Identified for VolumetricStack {
    open spec fn rid(&self) -> u32 { self.id.0 }
    fn resource_id(&self) -> (r: ResourceId) { self.id }
}

impl Identified for Texture2DGroup {
    open spec fn rid(&self) -> u32 { self.id.0 }
    fn resource_id(&self) -> (r: ResourceId) { self.id }
}

impl Identified for CompositeMaterials {
    open spec fn rid(&self) -> u32 { self.id.0 }
    fn resource_id(&self) -> (r: ResourceId) { self.id }
}

impl Identified for MultiProperties {
    open spec fn rid(&self) -> u32 { self.id.0 }
    fn resource_id(&self) -> (r: ResourceId) { self.id }
}

impl Identified for Displacement2D {
    open spec fn rid(&self) -> u32 { self.id.0 }
    fn resource_id(&self) -> (r: ResourceId) { self.id }
}

/// Whether some element of `s` has resource ID `id`.
pub open spec fn has_id<T: Identified>(s: Seq<T>, id: u32) -> bool {
    exists|i: int| 0 <= i < s.len() && (#[trigger] s[i]).rid() == id
}

/// The first element of `s` with resource ID `id`, if any.
pub open spec fn first_with<T: Identified>(s: Seq<T>, id: u32) -> Option<T>
    decreases s.len(),
{
    if s.len() == 0 {
        None
    } else if s[0].rid() == id {
        Some(s[0])
    } else {
        first_with(s.drop_first(), id)
    }
}

/// The resource IDs of a sequence of resources, in order.
pub open spec fn ids_of<T: Identified>(s: Seq<T>) -> Seq<u32> {
    s.map_values(|x: T| x.rid())
}

/// `first_with` finds an element exactly when one has the ID, and what it finds has the ID.
pub proof fn lemma_first_with<T: Identified>(s: Seq<T>, id: u32)
    ensures
        first_with(s, id) is Some <==> has_id(s, id),
        first_with(s, id) matches Some(x) ==> x.rid() == id && s.contains(x),
    decreases s.len(),
{
    if s.len() > 0 {
        lemma_first_with(s.drop_first(), id);
        if s[0].rid() != id {
            if has_id(s, id) {
                let i = choose|i: int| 0 <= i < s.len() && (#[trigger] s[i]).rid() == id;
                assert(s.drop_first()[i - 1] == s[i]);
            }
            if has_id(s.drop_first(), id) {
                let i = choose|i: int| 0 <= i < s.drop_first().len() && (#[trigger] s.drop_first()[i]).rid() == id;
                assert(s[i + 1] == s.drop_first()[i]);
            }
            if let Some(x) = first_with(s.drop_first(), id) {
                let k = choose|k: int| 0 <= k < s.drop_first().len() && s.drop_first()[k] == x;
                assert(s[k + 1] == x);
            }
        } else {
            assert(s[0] == s[0]);
        }
    }
}

/// Appending an element leaves earlier matches in place and makes the new element
/// the match for its ID when nothing earlier had that ID.
pub proof fn lemma_first_with_push<T: Identified>(s: Seq<T>, x: T, id: u32)
    ensures
        first_with(s.push(x), id) == (if first_with(s, id) is Some {
            first_with(s, id)
        } else if x.rid() == id {
            Some(x)
        } else {
            None
        }),
    decreases s.len(),
{
    if s.len() == 0 {
        let e = s.push(x).drop_first();
        assert(e.len() == 0);
        assert(first_with(e, id) is None);
        assert(s.push(x)[0] == x);
    } else {
        assert(s.push(x).drop_first() =~= s.drop_first().push(x));
        assert(s.push(x)[0] == s[0]);
        lemma_first_with_push(s.drop_first(), x, id);
    }
}

/// A resource added under an ID that none of its kind used is what a lookup of that ID then
/// finds, and lookups of every other ID find what they found before.
pub proof fn law_added_resource_found<T: Identified>(before: Seq<T>, x: T)
    requires
        !has_id(before, x.rid()),
    ensures
        first_with(before.push(x), x.rid()) == Some(x),
        has_id(before.push(x), x.rid()),
        forall|id: u32| id != x.rid() ==> #[trigger] first_with(before.push(x), id) == first_with(before, id),
{
    lemma_first_with(before, x.rid());
    lemma_first_with_push(before, x, x.rid());
    lemma_first_with(before.push(x), x.rid());
    assert forall|id: u32| id != x.rid() implies #[trigger] first_with(before.push(x), id) == first_with(before, id) by {
        lemma_first_with_push(before, x, id);
    }
}

/// How many elements of `s` have resource ID `id`.
pub open spec fn count_id<T: Identified>(s: Seq<T>, id: u32) -> nat
    decreases s.len(),
{
    if s.len() == 0 {
        0
    } else {
        count_id(s.drop_last(), id) + (if s.last().rid() == id { 1nat } else { 0nat })
    }
}

/// Appending an element adds one to the count of its ID only.
pub proof fn lemma_count_id_push<T: Identified>(s: Seq<T>, x: T, id: u32)
    ensures
        count_id(s.push(x), id) == count_id(s, id) + (if x.rid() == id { 1nat } else { 0nat }),
{
    assert(s.push(x).drop_last() =~= s);
}

/// An ID occurs in a sequence exactly when its count is positive.
pub proof fn lemma_count_id_has<T: Identified>(s: Seq<T>, id: u32)
    ensures
        count_id(s, id) > 0 <==> has_id(s, id),
    decreases s.len(),
{
    if s.len() > 0 {
        let t = s.drop_last();
        lemma_count_id_has(t, id);
        if has_id(t, id) {
            let i = choose|i: int| 0 <= i < t.len() && (#[trigger] t[i]).rid() == id;
            assert(s[i] == t[i]);
        }
        if has_id(s, id) && s.last().rid() != id {
            let i = choose|i: int| 0 <= i < s.len() && (#[trigger] s[i]).rid() == id;
            assert(t[i] == s[i]);
        }
    }
}

/// Index of the first element of `v` with ID `id`.
fn find_by_id<T: Identified>(v: &Vec<T>, id: u32) -> (r: Option<usize>)
    ensures
        match r {
            Some(i) => i < v@.len() && first_with(v@, id) == Some(v@[i as int]),
            None => first_with(v@, id) is None,
        },
{
    let mut i: usize = 0;
    assert(v@.skip(0) =~= v@);
    while i < v.len()
        invariant
            i <= v@.len(),
            first_with(v@, id) == first_with(v@.skip(i as int), id),
        decreases v@.len() - i,
    {
        proof {
            assert(v@.skip(i as int).drop_first() =~= v@.skip(i + 1));
            assert(v@.skip(i as int)[0] == v@[i as int]);
        }
        if v[i].resource_id().0 == id {
            return Some(i);
        }
        i = i + 1;
    }
    proof {
        assert(v@.skip(i as int).len() == 0);
    }
    None
}

/// The message of a duplicate-ID refusal.
pub open spec fn duplicate_message(id: u32) -> Seq<char> {
    "Duplicate resource ID: "@ + decimal(id as nat)
}

/// Whether `e` is the refusal of a duplicate resource ID.
pub open spec fn is_duplicate_error(e: Lib3mfError, id: u32) -> bool {
    e matches Lib3mfError::Validation(m) && m@ == duplicate_message(id)
}

fn duplicate_error(id: u32) -> (e: Lib3mfError)
    ensures
        is_duplicate_error(e, id),
{
    let mut s = String::from_str("Duplicate resource ID: ");
    push_decimal(&mut s, id as u64);
    Lib3mfError::Validation(s)
}

/// The registry of all resources of a model.
///
/// Every resource ID is used at most once across all resource kinds: adding a
/// resource whose ID is already used, by a resource of any kind, is refused.
#[derive(Debug, Clone)]
pub struct ResourceCollection {
    objects: Vec<Object>,
    base_materials: Vec<BaseMaterialsGroup>,
    color_groups: Vec<ColorGroup>,
    slice_stacks: Vec<SliceStack>,
    volumetric_stacks: Vec<VolumetricStack>,
    texture_2d_groups: Vec<Texture2DGroup>,
    composite_materials: Vec<CompositeMaterials>,
    multi_properties: Vec<MultiProperties>,
    displacement_2d: Vec<Displacement2D>,
    key_store: Option<KeyStore>,
}

impl ResourceCollection {
    /// The key store of the part, if any.
    pub closed spec fn stored_key_store(self) -> Option<KeyStore> { self.key_store }

    /// The key store of the part, if any.
    pub fn key_store(&self) -> (r: &Option<KeyStore>)
        ensures
            *r == self.stored_key_store(),
    {
        &self.key_store
    }

    /// The objects, in insertion order.
    pub closed spec fn objects(self) -> Seq<Object> { self.objects@ }

    /// The base material groups, in insertion order.
    pub closed spec fn base_materials(self) -> Seq<BaseMaterialsGroup> { self.base_materials@ }

    /// The color groups, in insertion order.
    pub closed spec fn color_groups(self) -> Seq<ColorGroup> { self.color_groups@ }

    /// The slice stacks, in insertion order.
    pub closed spec fn slice_stacks(self) -> Seq<SliceStack> { self.slice_stacks@ }

    /// The volumetric stacks, in insertion order.
    pub closed spec fn volumetric_stacks(self) -> Seq<VolumetricStack> { self.volumetric_stacks@ }

    /// The texture coordinate groups, in insertion order.
    pub closed spec fn texture_2d_groups(self) -> Seq<Texture2DGroup> { self.texture_2d_groups@ }

    /// The composite material groups, in insertion order.
    pub closed spec fn composite_materials(self) -> Seq<CompositeMaterials> { self.composite_materials@ }

    /// The multi-property groups, in insertion order.
    pub closed spec fn multi_properties(self) -> Seq<MultiProperties> { self.multi_properties@ }

    /// The displacement textures, in insertion order.
    pub closed spec fn displacement_2d(self) -> Seq<Displacement2D> { self.displacement_2d@ }

    /// Whether a resource of any kind has ID `id`.
    pub open spec fn spec_exists(self, id: u32) -> bool {
        ||| has_id(self.objects(), id)
        ||| has_id(self.base_materials(), id)
        ||| has_id(self.color_groups(), id)
        ||| has_id(self.slice_stacks(), id)
        ||| has_id(self.volumetric_stacks(), id)
        ||| has_id(self.texture_2d_groups(), id)
        ||| has_id(self.composite_materials(), id)
        ||| has_id(self.multi_properties(), id)
        ||| has_id(self.displacement_2d(), id)
    }

    /// How many resources, of all kinds together, use ID `id`.
    pub open spec fn id_count(self, id: u32) -> nat {
        count_id(self.objects(), id) + count_id(self.base_materials(), id)
            + count_id(self.color_groups(), id) + count_id(self.slice_stacks(), id)
            + count_id(self.volumetric_stacks(), id) + count_id(self.texture_2d_groups(), id)
            + count_id(self.composite_materials(), id) + count_id(self.multi_properties(), id)
            + count_id(self.displacement_2d(), id)
    }

    /// The registry's invariant: no resource ID is used twice, within or across kinds.
    pub open spec fn unique_ids(self) -> bool {
        forall|id: u32| #[trigger] self.id_count(id) <= 1
    }

    /// Whether `other` holds the same resources as `self`, kind by kind.
    pub open spec fn same_resources(self, other: Self) -> bool {
        &&& other.objects() == self.objects()
        &&& other.base_materials() == self.base_materials()
        &&& other.color_groups() == self.color_groups()
        &&& other.slice_stacks() == self.slice_stacks()
        &&& other.volumetric_stacks() == self.volumetric_stacks()
        &&& other.texture_2d_groups() == self.texture_2d_groups()
        &&& other.composite_materials() == self.composite_materials()
        &&& other.multi_properties() == self.multi_properties()
        &&& other.displacement_2d() == self.displacement_2d()
    }

    /// Creates an empty collection.
    pub fn new() -> (r: Self)
        ensures
            r.objects().len() == 0,
            r.base_materials().len() == 0,
            r.color_groups().len() == 0,
            r.slice_stacks().len() == 0,
            r.volumetric_stacks().len() == 0,
            r.texture_2d_groups().len() == 0,
            r.composite_materials().len() == 0,
            r.multi_properties().len() == 0,
            r.displacement_2d().len() == 0,
            r.stored_key_store() is None,
            r.unique_ids(),
            forall|id: u32| !r.spec_exists(id),
    {
        let r = ResourceCollection {
            objects: Vec::new(),
            base_materials: Vec::new(),
            color_groups: Vec::new(),
            slice_stacks: Vec::new(),
            volumetric_stacks: Vec::new(),
            texture_2d_groups: Vec::new(),
            composite_materials: Vec::new(),
            multi_properties: Vec::new(),
            displacement_2d: Vec::new(),
            key_store: None,
        };
        r
    }

    /// Checks whether a resource of any kind uses the given ID.
    pub fn id_exists(&self, id: ResourceId) -> (r: bool)
        ensures
            r == self.spec_exists(id.0),
    {
        let r = find_by_id(&self.objects, id.0).is_some()
            || find_by_id(&self.base_materials, id.0).is_some()
            || find_by_id(&self.color_groups, id.0).is_some()
            || find_by_id(&self.slice_stacks, id.0).is_some()
            || find_by_id(&self.volumetric_stacks, id.0).is_some()
            || find_by_id(&self.texture_2d_groups, id.0).is_some()
            || find_by_id(&self.composite_materials, id.0).is_some()
            || find_by_id(&self.multi_properties, id.0).is_some()
            || find_by_id(&self.displacement_2d, id.0).is_some();
        proof {
            lemma_first_with(self.objects@, id.0);
            lemma_first_with(self.base_materials@, id.0);
            lemma_first_with(self.color_groups@, id.0);
            lemma_first_with(self.slice_stacks@, id.0);
            lemma_first_with(self.volumetric_stacks@, id.0);
            lemma_first_with(self.texture_2d_groups@, id.0);
            lemma_first_with(self.composite_materials@, id.0);
            lemma_first_with(self.multi_properties@, id.0);
            lemma_first_with(self.displacement_2d@, id.0);
        }
        r
    }

    /// Adds an object. Refused, leaving the collection unchanged, when any resource
    /// already uses its ID.
    pub fn add_object(&mut self, res: Object) -> (r: Result<(), Lib3mfError>)
        ensures
            old(self).spec_exists(res.id.0) ==> {
                &&& r matches Err(e) && is_duplicate_error(e, res.id.0)
                &&& *final(self) == *old(self)
            },
            !old(self).spec_exists(res.id.0) ==> {
                &&& r is Ok
                &&& final(self).objects() == old(self).objects().push(res)
                &&& final(self).base_materials() == old(self).base_materials()
                &&& final(self).color_groups() == old(self).color_groups()
                &&& final(self).slice_stacks() == old(self).slice_stacks()
                &&& final(self).volumetric_stacks() == old(self).volumetric_stacks()
                &&& final(self).texture_2d_groups() == old(self).texture_2d_groups()
                &&& final(self).composite_materials() == old(self).composite_materials()
                &&& final(self).multi_properties() == old(self).multi_properties()
                &&& final(self).displacement_2d() == old(self).displacement_2d()
                &&& final(self).stored_key_store() == old(self).stored_key_store()
            },
            old(self).unique_ids() ==> final(self).unique_ids(),
    {
        if self.id_exists(res.id) {
            return Err(duplicate_error(res.id.0));
        }
        let ghost id = res.id.0;
        proof {
            lemma_count_id_has(old(self).objects@, id);
            lemma_count_id_has(old(self).base_materials@, id);
            lemma_count_id_has(old(self).color_groups@, id);
            lemma_count_id_has(old(self).slice_stacks@, id);
            lemma_count_id_has(old(self).volumetric_stacks@, id);
            lemma_count_id_has(old(self).texture_2d_groups@, id);
            lemma_count_id_has(old(self).composite_materials@, id);
            lemma_count_id_has(old(self).multi_properties@, id);
            lemma_count_id_has(old(self).displacement_2d@, id);
        }
        proof {
            assert forall|k: u32| #[trigger] count_id(old(self).objects@.push(res), k) == count_id(old(self).objects@, k) + (if k == id { 1nat } else { 0nat }) by {
                lemma_count_id_push(old(self).objects@, res, k);
            }
        }
        self.objects.push(res);
        proof {
            if old(self).unique_ids() {
                assert forall|k: u32| #[trigger] self.id_count(k) <= 1 by {
                    assert(old(self).id_count(k) <= 1);
                    assert(count_id(self.objects@, k) == count_id(old(self).objects@.push(res), k));
                }
            }
        }
        Ok(())
    }

    /// The Object with the given ID, if any.
    pub fn get_object(&self, id: ResourceId) -> (r: Option<&Object>)
        ensures
            match r {
                Some(x) => first_with(self.objects(), id.0) == Some(*x),
                None => first_with(self.objects(), id.0) is None,
            },
    {
        match find_by_id(&self.objects, id.0) {
            Some(i) => Some(&self.objects[i]),
            None => None,
        }
    }

    /// All Object resources, in insertion order.
    pub fn iter_objects(&self) -> (r: &[Object])
        ensures
            r@ == self.objects(),
    {
        self.objects.as_slice()
    }

    /// Adds a base materials group. Refused, leaving the collection unchanged, when any resource
    /// already uses its ID.
    pub fn add_base_materials(&mut self, res: BaseMaterialsGroup) -> (r: Result<(), Lib3mfError>)
        ensures
            old(self).spec_exists(res.id.0) ==> {
                &&& r matches Err(e) && is_duplicate_error(e, res.id.0)
                &&& *final(self) == *old(self)
            },
            !old(self).spec_exists(res.id.0) ==> {
                &&& r is Ok
                &&& final(self).base_materials() == old(self).base_materials().push(res)
                &&& final(self).objects() == old(self).objects()
                &&& final(self).color_groups() == old(self).color_groups()
                &&& final(self).slice_stacks() == old(self).slice_stacks()
                &&& final(self).volumetric_stacks() == old(self).volumetric_stacks()
                &&& final(self).texture_2d_groups() == old(self).texture_2d_groups()
                &&& final(self).composite_materials() == old(self).composite_materials()
                &&& final(self).multi_properties() == old(self).multi_properties()
                &&& final(self).displacement_2d() == old(self).displacement_2d()
                &&& final(self).stored_key_store() == old(self).stored_key_store()
            },
            old(self).unique_ids() ==> final(self).unique_ids(),
    {
        if self.id_exists(res.id) {
            return Err(duplicate_error(res.id.0));
        }
        let ghost id = res.id.0;
        proof {
            lemma_count_id_has(old(self).objects@, id);
            lemma_count_id_has(old(self).base_materials@, id);
            lemma_count_id_has(old(self).color_groups@, id);
            lemma_count_id_has(old(self).slice_stacks@, id);
            lemma_count_id_has(old(self).volumetric_stacks@, id);
            lemma_count_id_has(old(self).texture_2d_groups@, id);
            lemma_count_id_has(old(self).composite_materials@, id);
            lemma_count_id_has(old(self).multi_properties@, id);
            lemma_count_id_has(old(self).displacement_2d@, id);
        }
        proof {
            assert forall|k: u32| #[trigger] count_id(old(self).base_materials@.push(res), k) == count_id(old(self).base_materials@, k) + (if k == id { 1nat } else { 0nat }) by {
                lemma_count_id_push(old(self).base_materials@, res, k);
            }
        }
        self.base_materials.push(res);
        proof {
            if old(self).unique_ids() {
                assert forall|k: u32| #[trigger] self.id_count(k) <= 1 by {
                    assert(old(self).id_count(k) <= 1);
                    assert(count_id(self.base_materials@, k) == count_id(old(self).base_materials@.push(res), k));
                }
            }
        }
        Ok(())
    }

    /// The BaseMaterialsGroup with the given ID, if any.
    pub fn get_base_materials(&self, id: ResourceId) -> (r: Option<&BaseMaterialsGroup>)
        ensures
            match r {
                Some(x) => first_with(self.base_materials(), id.0) == Some(*x),
                None => first_with(self.base_materials(), id.0) is None,
            },
    {
        match find_by_id(&self.base_materials, id.0) {
            Some(i) => Some(&self.base_materials[i]),
            None => None,
        }
    }

    /// The number of BaseMaterialsGroup resources.
    pub fn base_material_groups_count(&self) -> (n: usize)
        ensures
            n == self.base_materials().len(),
    {
        self.base_materials.len()
    }

    /// All BaseMaterialsGroup resources, in insertion order.
    pub fn iter_base_materials(&self) -> (r: &[BaseMaterialsGroup])
        ensures
            r@ == self.base_materials(),
    {
        self.base_materials.as_slice()
    }

    /// Adds a color group. Refused, leaving the collection unchanged, when any resource
    /// already uses its ID.
    pub fn add_color_group(&mut self, res: ColorGroup) -> (r: Result<(), Lib3mfError>)
        ensures
            old(self).spec_exists(res.id.0) ==> {
                &&& r matches Err(e) && is_duplicate_error(e, res.id.0)
                &&& *final(self) == *old(self)
            },
            !old(self).spec_exists(res.id.0) ==> {
                &&& r is Ok
                &&& final(self).color_groups() == old(self).color_groups().push(res)
                &&& final(self).objects() == old(self).objects()
                &&& final(self).base_materials() == old(self).base_materials()
                &&& final(self).slice_stacks() == old(self).slice_stacks()
                &&& final(self).volumetric_stacks() == old(self).volumetric_stacks()
                &&& final(self).texture_2d_groups() == old(self).texture_2d_groups()
                &&& final(self).composite_materials() == old(self).composite_materials()
                &&& final(self).multi_properties() == old(self).multi_properties()
                &&& final(self).displacement_2d() == old(self).displacement_2d()
                &&& final(self).stored_key_store() == old(self).stored_key_store()
            },
            old(self).unique_ids() ==> final(self).unique_ids(),
    {
        if self.id_exists(res.id) {
            return Err(duplicate_error(res.id.0));
        }
        let ghost id = res.id.0;
        proof {
            lemma_count_id_has(old(self).objects@, id);
            lemma_count_id_has(old(self).base_materials@, id);
            lemma_count_id_has(old(self).color_groups@, id);
            lemma_count_id_has(old(self).slice_stacks@, id);
            lemma_count_id_has(old(self).volumetric_stacks@, id);
            lemma_count_id_has(old(self).texture_2d_groups@, id);
            lemma_count_id_has(old(self).composite_materials@, id);
            lemma_count_id_has(old(self).multi_properties@, id);
            lemma_count_id_has(old(self).displacement_2d@, id);
        }
        proof {
            assert forall|k: u32| #[trigger] count_id(old(self).color_groups@.push(res), k) == count_id(old(self).color_groups@, k) + (if k == id { 1nat } else { 0nat }) by {
                lemma_count_id_push(old(self).color_groups@, res, k);
            }
        }
        self.color_groups.push(res);
        proof {
            if old(self).unique_ids() {
                assert forall|k: u32| #[trigger] self.id_count(k) <= 1 by {
                    assert(old(self).id_count(k) <= 1);
                    assert(count_id(self.color_groups@, k) == count_id(old(self).color_groups@.push(res), k));
                }
            }
        }
        Ok(())
    }

    /// The ColorGroup with the given ID, if any.
    pub fn get_color_group(&self, id: ResourceId) -> (r: Option<&ColorGroup>)
        ensures
            match r {
                Some(x) => first_with(self.color_groups(), id.0) == Some(*x),
                None => first_with(self.color_groups(), id.0) is None,
            },
    {
        match find_by_id(&self.color_groups, id.0) {
            Some(i) => Some(&self.color_groups[i]),
            None => None,
        }
    }

    /// The number of ColorGroup resources.
    pub fn color_groups_count(&self) -> (n: usize)
        ensures
            n == self.color_groups().len(),
    {
        self.color_groups.len()
    }

    /// All ColorGroup resources, in insertion order.
    pub fn iter_color_groups(&self) -> (r: &[ColorGroup])
        ensures
            r@ == self.color_groups(),
    {
        self.color_groups.as_slice()
    }

    /// Adds a slice stack. Refused, leaving the collection unchanged, when any resource
    /// already uses its ID.
    pub fn add_slice_stack(&mut self, res: SliceStack) -> (r: Result<(), Lib3mfError>)
        ensures
            old(self).spec_exists(res.id.0) ==> {
                &&& r matches Err(e) && is_duplicate_error(e, res.id.0)
                &&& *final(self) == *old(self)
            },
            !old(self).spec_exists(res.id.0) ==> {
                &&& r is Ok
                &&& final(self).slice_stacks() == old(self).slice_stacks().push(res)
                &&& final(self).objects() == old(self).objects()
                &&& final(self).base_materials() == old(self).base_materials()
                &&& final(self).color_groups() == old(self).color_groups()
                &&& final(self).volumetric_stacks() == old(self).volumetric_stacks()
                &&& final(self).texture_2d_groups() == old(self).texture_2d_groups()
                &&& final(self).composite_materials() == old(self).composite_materials()
                &&& final(self).multi_properties() == old(self).multi_properties()
                &&& final(self).displacement_2d() == old(self).displacement_2d()
                &&& final(self).stored_key_store() == old(self).stored_key_store()
            },
            old(self).unique_ids() ==> final(self).unique_ids(),
    {
        if self.id_exists(res.id) {
            return Err(duplicate_error(res.id.0));
        }
        let ghost id = res.id.0;
        proof {
            lemma_count_id_has(old(self).objects@, id);
            lemma_count_id_has(old(self).base_materials@, id);
            lemma_count_id_has(old(self).color_groups@, id);
            lemma_count_id_has(old(self).slice_stacks@, id);
            lemma_count_id_has(old(self).volumetric_stacks@, id);
            lemma_count_id_has(old(self).texture_2d_groups@, id);
            lemma_count_id_has(old(self).composite_materials@, id);
            lemma_count_id_has(old(self).multi_properties@, id);
            lemma_count_id_has(old(self).displacement_2d@, id);
        }
        proof {
            assert forall|k: u32| #[trigger] count_id(old(self).slice_stacks@.push(res), k) == count_id(old(self).slice_stacks@, k) + (if k == id { 1nat } else { 0nat }) by {
                lemma_count_id_push(old(self).slice_stacks@, res, k);
            }
        }
        self.slice_stacks.push(res);
        proof {
            if old(self).unique_ids() {
                assert forall|k: u32| #[trigger] self.id_count(k) <= 1 by {
                    assert(old(self).id_count(k) <= 1);
                    assert(count_id(self.slice_stacks@, k) == count_id(old(self).slice_stacks@.push(res), k));
                }
            }
        }
        Ok(())
    }

    /// The SliceStack with the given ID, if any.
    pub fn get_slice_stack(&self, id: ResourceId) -> (r: Option<&SliceStack>)
        ensures
            match r {
                Some(x) => first_with(self.slice_stacks(), id.0) == Some(*x),
                None => first_with(self.slice_stacks(), id.0) is None,
            },
    {
        match find_by_id(&self.slice_stacks, id.0) {
            Some(i) => Some(&self.slice_stacks[i]),
            None => None,
        }
    }

    /// Adds a volumetric stack. Refused, leaving the collection unchanged, when any resource
    /// already uses its ID.
    pub fn add_volumetric_stack(&mut self, res: VolumetricStack) -> (r: Result<(), Lib3mfError>)
        ensures
            old(self).spec_exists(res.id.0) ==> {
                &&& r matches Err(e) && is_duplicate_error(e, res.id.0)
                &&& *final(self) == *old(self)
            },
            !old(self).spec_exists(res.id.0) ==> {
                &&& r is Ok
                &&& final(self).volumetric_stacks() == old(self).volumetric_stacks().push(res)
                &&& final(self).objects() == old(self).objects()
                &&& final(self).base_materials() == old(self).base_materials()
                &&& final(self).color_groups() == old(self).color_groups()
                &&& final(self).slice_stacks() == old(self).slice_stacks()
                &&& final(self).texture_2d_groups() == old(self).texture_2d_groups()
                &&& final(self).composite_materials() == old(self).composite_materials()
                &&& final(self).multi_properties() == old(self).multi_properties()
                &&& final(self).displacement_2d() == old(self).displacement_2d()
                &&& final(self).stored_key_store() == old(self).stored_key_store()
            },
            old(self).unique_ids() ==> final(self).unique_ids(),
    {
        if self.id_exists(res.id) {
            return Err(duplicate_error(res.id.0));
        }
        let ghost id = res.id.0;
        proof {
            lemma_count_id_has(old(self).objects@, id);
            lemma_count_id_has(old(self).base_materials@, id);
            lemma_count_id_has(old(self).color_groups@, id);
            lemma_count_id_has(old(self).slice_stacks@, id);
            lemma_count_id_has(old(self).volumetric_stacks@, id);
            lemma_count_id_has(old(self).texture_2d_groups@, id);
            lemma_count_id_has(old(self).composite_materials@, id);
            lemma_count_id_has(old(self).multi_properties@, id);
            lemma_count_id_has(old(self).displacement_2d@, id);
        }
        proof {
            assert forall|k: u32| #[trigger] count_id(old(self).volumetric_stacks@.push(res), k) == count_id(old(self).volumetric_stacks@, k) + (if k == id { 1nat } else { 0nat }) by {
                lemma_count_id_push(old(self).volumetric_stacks@, res, k);
            }
        }
        self.volumetric_stacks.push(res);
        proof {
            if old(self).unique_ids() {
                assert forall|k: u32| #[trigger] self.id_count(k) <= 1 by {
                    assert(old(self).id_count(k) <= 1);
                    assert(count_id(self.volumetric_stacks@, k) == count_id(old(self).volumetric_stacks@.push(res), k));
                }
            }
        }
        Ok(())
    }

    /// The VolumetricStack with the given ID, if any.
    pub fn get_volumetric_stack(&self, id: ResourceId) -> (r: Option<&VolumetricStack>)
        ensures
            match r {
                Some(x) => first_with(self.volumetric_stacks(), id.0) == Some(*x),
                None => first_with(self.volumetric_stacks(), id.0) is None,
            },
    {
        match find_by_id(&self.volumetric_stacks, id.0) {
            Some(i) => Some(&self.volumetric_stacks[i]),
            None => None,
        }
    }

    /// The number of VolumetricStack resources.
    pub fn volumetric_stacks_count(&self) -> (n: usize)
        ensures
            n == self.volumetric_stacks().len(),
    {
        self.volumetric_stacks.len()
    }

    /// Adds a texture coordinate group. Refused, leaving the collection unchanged, when any resource
    /// already uses its ID.
    pub fn add_texture_2d_group(&mut self, res: Texture2DGroup) -> (r: Result<(), Lib3mfError>)
        ensures
            old(self).spec_exists(res.id.0) ==> {
                &&& r matches Err(e) && is_duplicate_error(e, res.id.0)
                &&& *final(self) == *old(self)
            },
            !old(self).spec_exists(res.id.0) ==> {
                &&& r is Ok
                &&& final(self).texture_2d_groups() == old(self).texture_2d_groups().push(res)
                &&& final(self).objects() == old(self).objects()
                &&& final(self).base_materials() == old(self).base_materials()
                &&& final(self).color_groups() == old(self).color_groups()
                &&& final(self).slice_stacks() == old(self).slice_stacks()
                &&& final(self).volumetric_stacks() == old(self).volumetric_stacks()
                &&& final(self).composite_materials() == old(self).composite_materials()
                &&& final(self).multi_properties() == old(self).multi_properties()
                &&& final(self).displacement_2d() == old(self).displacement_2d()
                &&& final(self).stored_key_store() == old(self).stored_key_store()
            },
            old(self).unique_ids() ==> final(self).unique_ids(),
    {
        if self.id_exists(res.id) {
            return Err(duplicate_error(res.id.0));
        }
        let ghost id = res.id.0;
        proof {
            lemma_count_id_has(old(self).objects@, id);
            lemma_count_id_has(old(self).base_materials@, id);
            lemma_count_id_has(old(self).color_groups@, id);
            lemma_count_id_has(old(self).slice_stacks@, id);
            lemma_count_id_has(old(self).volumetric_stacks@, id);
            lemma_count_id_has(old(self).texture_2d_groups@, id);
            lemma_count_id_has(old(self).composite_materials@, id);
            lemma_count_id_has(old(self).multi_properties@, id);
            lemma_count_id_has(old(self).displacement_2d@, id);
        }
        proof {
            assert forall|k: u32| #[trigger] count_id(old(self).texture_2d_groups@.push(res), k) == count_id(old(self).texture_2d_groups@, k) + (if k == id { 1nat } else { 0nat }) by {
                lemma_count_id_push(old(self).texture_2d_groups@, res, k);
            }
        }
        self.texture_2d_groups.push(res);
        proof {
            if old(self).unique_ids() {
                assert forall|k: u32| #[trigger] self.id_count(k) <= 1 by {
                    assert(old(self).id_count(k) <= 1);
                    assert(count_id(self.texture_2d_groups@, k) == count_id(old(self).texture_2d_groups@.push(res), k));
                }
            }
        }
        Ok(())
    }

    /// The Texture2DGroup with the given ID, if any.
    pub fn get_texture_2d_group(&self, id: ResourceId) -> (r: Option<&Texture2DGroup>)
        ensures
            match r {
                Some(x) => first_with(self.texture_2d_groups(), id.0) == Some(*x),
                None => first_with(self.texture_2d_groups(), id.0) is None,
            },
    {
        match find_by_id(&self.texture_2d_groups, id.0) {
            Some(i) => Some(&self.texture_2d_groups[i]),
            None => None,
        }
    }

    /// The number of Texture2DGroup resources.
    pub fn texture_2d_groups_count(&self) -> (n: usize)
        ensures
            n == self.texture_2d_groups().len(),
    {
        self.texture_2d_groups.len()
    }

    /// All Texture2DGroup resources, in insertion order.
    pub fn iter_textures(&self) -> (r: &[Texture2DGroup])
        ensures
            r@ == self.texture_2d_groups(),
    {
        self.texture_2d_groups.as_slice()
    }

    /// Adds a composite materials group. Refused, leaving the collection unchanged, when any resource
    /// already uses its ID.
    pub fn add_composite_materials(&mut self, res: CompositeMaterials) -> (r: Result<(), Lib3mfError>)
        ensures
            old(self).spec_exists(res.id.0) ==> {
                &&& r matches Err(e) && is_duplicate_error(e, res.id.0)
                &&& *final(self) == *old(self)
            },
            !old(self).spec_exists(res.id.0) ==> {
                &&& r is Ok
                &&& final(self).composite_materials() == old(self).composite_materials().push(res)
                &&& final(self).objects() == old(self).objects()
                &&& final(self).base_materials() == old(self).base_materials()
                &&& final(self).color_groups() == old(self).color_groups()
                &&& final(self).slice_stacks() == old(self).slice_stacks()
                &&& final(self).volumetric_stacks() == old(self).volumetric_stacks()
                &&& final(self).texture_2d_groups() == old(self).texture_2d_groups()
                &&& final(self).multi_properties() == old(self).multi_properties()
                &&& final(self).displacement_2d() == old(self).displacement_2d()
                &&& final(self).stored_key_store() == old(self).stored_key_store()
            },
            old(self).unique_ids() ==> final(self).unique_ids(),
    {
        if self.id_exists(res.id) {
            return Err(duplicate_error(res.id.0));
        }
        let ghost id = res.id.0;
        proof {
            lemma_count_id_has(old(self).objects@, id);
            lemma_count_id_has(old(self).base_materials@, id);
            lemma_count_id_has(old(self).color_groups@, id);
            lemma_count_id_has(old(self).slice_stacks@, id);
            lemma_count_id_has(old(self).volumetric_stacks@, id);
            lemma_count_id_has(old(self).texture_2d_groups@, id);
            lemma_count_id_has(old(self).composite_materials@, id);
            lemma_count_id_has(old(self).multi_properties@, id);
            lemma_count_id_has(old(self).displacement_2d@, id);
        }
        proof {
            assert forall|k: u32| #[trigger] count_id(old(self).composite_materials@.push(res), k) == count_id(old(self).composite_materials@, k) + (if k == id { 1nat } else { 0nat }) by {
                lemma_count_id_push(old(self).composite_materials@, res, k);
            }
        }
        self.composite_materials.push(res);
        proof {
            if old(self).unique_ids() {
                assert forall|k: u32| #[trigger] self.id_count(k) <= 1 by {
                    assert(old(self).id_count(k) <= 1);
                    assert(count_id(self.composite_materials@, k) == count_id(old(self).composite_materials@.push(res), k));
                }
            }
        }
        Ok(())
    }

    /// The CompositeMaterials with the given ID, if any.
    pub fn get_composite_materials(&self, id: ResourceId) -> (r: Option<&CompositeMaterials>)
        ensures
            match r {
                Some(x) => first_with(self.composite_materials(), id.0) == Some(*x),
                None => first_with(self.composite_materials(), id.0) is None,
            },
    {
        match find_by_id(&self.composite_materials, id.0) {
            Some(i) => Some(&self.composite_materials[i]),
            None => None,
        }
    }

    /// The number of CompositeMaterials resources.
    pub fn composite_materials_count(&self) -> (n: usize)
        ensures
            n == self.composite_materials().len(),
    {
        self.composite_materials.len()
    }

    /// All CompositeMaterials resources, in insertion order.
    pub fn iter_composite_materials(&self) -> (r: &[CompositeMaterials])
        ensures
            r@ == self.composite_materials(),
    {
        self.composite_materials.as_slice()
    }

    /// Adds a multi-properties group. Refused, leaving the collection unchanged, when any resource
    /// already uses its ID.
    pub fn add_multi_properties(&mut self, res: MultiProperties) -> (r: Result<(), Lib3mfError>)
        ensures
            old(self).spec_exists(res.id.0) ==> {
                &&& r matches Err(e) && is_duplicate_error(e, res.id.0)
                &&& *final(self) == *old(self)
            },
            !old(self).spec_exists(res.id.0) ==> {
                &&& r is Ok
                &&& final(self).multi_properties() == old(self).multi_properties().push(res)
                &&& final(self).objects() == old(self).objects()
                &&& final(self).base_materials() == old(self).base_materials()
                &&& final(self).color_groups() == old(self).color_groups()
                &&& final(self).slice_stacks() == old(self).slice_stacks()
                &&& final(self).volumetric_stacks() == old(self).volumetric_stacks()
                &&& final(self).texture_2d_groups() == old(self).texture_2d_groups()
                &&& final(self).composite_materials() == old(self).composite_materials()
                &&& final(self).displacement_2d() == old(self).displacement_2d()
                &&& final(self).stored_key_store() == old(self).stored_key_store()
            },
            old(self).unique_ids() ==> final(self).unique_ids(),
    {
        if self.id_exists(res.id) {
            return Err(duplicate_error(res.id.0));
        }
        let ghost id = res.id.0;
        proof {
            lemma_count_id_has(old(self).objects@, id);
            lemma_count_id_has(old(self).base_materials@, id);
            lemma_count_id_has(old(self).color_groups@, id);
            lemma_count_id_has(old(self).slice_stacks@, id);
            lemma_count_id_has(old(self).volumetric_stacks@, id);
            lemma_count_id_has(old(self).texture_2d_groups@, id);
            lemma_count_id_has(old(self).composite_materials@, id);
            lemma_count_id_has(old(self).multi_properties@, id);
            lemma_count_id_has(old(self).displacement_2d@, id);
        }
        proof {
            assert forall|k: u32| #[trigger] count_id(old(self).multi_properties@.push(res), k) == count_id(old(self).multi_properties@, k) + (if k == id { 1nat } else { 0nat }) by {
                lemma_count_id_push(old(self).multi_properties@, res, k);
            }
        }
        self.multi_properties.push(res);
        proof {
            if old(self).unique_ids() {
                assert forall|k: u32| #[trigger] self.id_count(k) <= 1 by {
                    assert(old(self).id_count(k) <= 1);
                    assert(count_id(self.multi_properties@, k) == count_id(old(self).multi_properties@.push(res), k));
                }
            }
        }
        Ok(())
    }

    /// The MultiProperties with the given ID, if any.
    pub fn get_multi_properties(&self, id: ResourceId) -> (r: Option<&MultiProperties>)
        ensures
            match r {
                Some(x) => first_with(self.multi_properties(), id.0) == Some(*x),
                None => first_with(self.multi_properties(), id.0) is None,
            },
    {
        match find_by_id(&self.multi_properties, id.0) {
            Some(i) => Some(&self.multi_properties[i]),
            None => None,
        }
    }

    /// The number of MultiProperties resources.
    pub fn multi_properties_count(&self) -> (n: usize)
        ensures
            n == self.multi_properties().len(),
    {
        self.multi_properties.len()
    }

    /// All MultiProperties resources, in insertion order.
    pub fn iter_multi_properties(&self) -> (r: &[MultiProperties])
        ensures
            r@ == self.multi_properties(),
    {
        self.multi_properties.as_slice()
    }

    /// Adds a displacement texture. Refused, leaving the collection unchanged, when any resource
    /// already uses its ID.
    pub fn add_displacement_2d(&mut self, res: Displacement2D) -> (r: Result<(), Lib3mfError>)
        ensures
            old(self).spec_exists(res.id.0) ==> {
                &&& r matches Err(e) && is_duplicate_error(e, res.id.0)
                &&& *final(self) == *old(self)
            },
            !old(self).spec_exists(res.id.0) ==> {
                &&& r is Ok
                &&& final(self).displacement_2d() == old(self).displacement_2d().push(res)
                &&& final(self).objects() == old(self).objects()
                &&& final(self).base_materials() == old(self).base_materials()
                &&& final(self).color_groups() == old(self).color_groups()
                &&& final(self).slice_stacks() == old(self).slice_stacks()
                &&& final(self).volumetric_stacks() == old(self).volumetric_stacks()
                &&& final(self).texture_2d_groups() == old(self).texture_2d_groups()
                &&& final(self).composite_materials() == old(self).composite_materials()
                &&& final(self).multi_properties() == old(self).multi_properties()
                &&& final(self).stored_key_store() == old(self).stored_key_store()
            },
            old(self).unique_ids() ==> final(self).unique_ids(),
    {
        if self.id_exists(res.id) {
            return Err(duplicate_error(res.id.0));
        }
        let ghost id = res.id.0;
        proof {
            lemma_count_id_has(old(self).objects@, id);
            lemma_count_id_has(old(self).base_materials@, id);
            lemma_count_id_has(old(self).color_groups@, id);
            lemma_count_id_has(old(self).slice_stacks@, id);
            lemma_count_id_has(old(self).volumetric_stacks@, id);
            lemma_count_id_has(old(self).texture_2d_groups@, id);
            lemma_count_id_has(old(self).composite_materials@, id);
            lemma_count_id_has(old(self).multi_properties@, id);
            lemma_count_id_has(old(self).displacement_2d@, id);
        }
        proof {
            assert forall|k: u32| #[trigger] count_id(old(self).displacement_2d@.push(res), k) == count_id(old(self).displacement_2d@, k) + (if k == id { 1nat } else { 0nat }) by {
                lemma_count_id_push(old(self).displacement_2d@, res, k);
            }
        }
        self.displacement_2d.push(res);
        proof {
            if old(self).unique_ids() {
                assert forall|k: u32| #[trigger] self.id_count(k) <= 1 by {
                    assert(old(self).id_count(k) <= 1);
                    assert(count_id(self.displacement_2d@, k) == count_id(old(self).displacement_2d@.push(res), k));
                }
            }
        }
        Ok(())
    }

    /// The Displacement2D with the given ID, if any.
    pub fn get_displacement_2d(&self, id: ResourceId) -> (r: Option<&Displacement2D>)
        ensures
            match r {
                Some(x) => first_with(self.displacement_2d(), id.0) == Some(*x),
                None => first_with(self.displacement_2d(), id.0) is None,
            },
    {
        match find_by_id(&self.displacement_2d, id.0) {
            Some(i) => Some(&self.displacement_2d[i]),
            None => None,
        }
    }

    /// The number of Displacement2D resources.
    pub fn displacement_2d_count(&self) -> (n: usize)
        ensures
            n == self.displacement_2d().len(),
    {
        self.displacement_2d.len()
    }

    /// All Displacement2D resources, in insertion order.
    pub fn iter_displacement_2d(&self) -> (r: &[Displacement2D])
        ensures
            r@ == self.displacement_2d(),
    {
        self.displacement_2d.as_slice()
    }

    /// Sets the key store.
    pub fn set_key_store(&mut self, store: KeyStore)
        ensures
            final(self).stored_key_store() == Some(store),
            old(self).same_resources(*final(self)),
    {
        self.key_store = Some(store);
    }
}

impl Default for ResourceCollection {
    fn default() -> (r: Self)
        ensures
            forall|id: u32| !r.spec_exists(id),
            r.unique_ids(),
            r.stored_key_store() is None,
    {
        ResourceCollection::new()
    }
}

} // verus!
