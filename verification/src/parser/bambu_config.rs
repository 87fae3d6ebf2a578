//! Readers of the slicer configuration files of Bambu Studio packages: the slicing
//! results (`slice_info.config`) and the per-object settings (`model_settings.config`).
//!
//! Values that the slicer writes as decimal fractions are kept as the texts written;
//! their conversion to numbers lies with the caller.

use vstd::prelude::*;
use crate::error::Lib3mfError;
use crate::model::stats::{
    part_subtype_of, part_subtype_view, AssemblyItem, BambuMeshStat, BambuObjectMetadata, BambuPartMetadata,
    BambuPartSource, BambuProfileConfig, BambuProjectSettings, DecimalText, PartSubtype, PlateInfo,
    PlateModelInstance, SlicerWarning,
};
use crate::parser::json_value::{entries_view, json_object_entries, read_json_object, EntryView, JsonEntry, JsonItem};
use crate::parser::xml_parser::{
    attr_text, event_view, events_view, get_attribute, opt_view, parse_u32, parse_u64, read_xml_events, tag_view,
    unsigned_value, xml_events, AttrsView, EventView, TagView, XmlEvent, XmlTag,
};
use crate::text::{same_text, trim, trimmed};

verus! {

// ---------------------------------------------------------------- events

/// The tag of a start or empty-element event.
pub open spec fn tag_of(e: EventView) -> Option<TagView> {
    match e {
        EventView::Start(t) => Some(t),
        EventView::Empty(t) => Some(t),
        _ => None,
    }
}

/// Whether an event closes an element named `name`.
pub open spec fn closes(e: EventView, name: Seq<char>) -> bool {
    match e {
        EventView::End(n) => n == name,
        _ => false,
    }
}

/// The position just after the first event from `i` on that closes `name`, or the end.
pub open spec fn end_after(evs: Seq<EventView>, i: int, name: Seq<char>) -> int
    decreases evs.len() - i,
{
    if i < 0 || i >= evs.len() {
        evs.len() as int
    } else if closes(evs[i], name) {
        i + 1
    } else {
        end_after(evs, i + 1, name)
    }
}

/// The `u32` a text denotes.
pub open spec fn u32_of(t: Seq<char>) -> Option<u32> {
    match unsigned_value(t, u32::MAX as int) {
        Some(v) => Some(v as u32),
        None => None,
    }
}

/// The `u32` that attribute `key` denotes, if any.
pub open spec fn u32_attr(a: AttrsView, key: Seq<char>) -> Option<u32> {
    match attr_text(a, key) {
        Some(v) => u32_of(v),
        None => None,
    }
}

/// The `u32` that attribute `key` denotes, else `default`.
pub open spec fn u32_attr_or(a: AttrsView, key: Seq<char>, default: u32) -> u32 {
    match u32_attr(a, key) {
        Some(v) => v,
        None => default,
    }
}

/// The tag of an event that opens an element.
fn opened(e: &XmlEvent) -> (r: Option<&XmlTag>)
    ensures
        match r {
            Some(t) => tag_of(event_view(*e)) == Some(tag_view(*t)),
            None => tag_of(event_view(*e)) is None,
        },
{
    match e {
        XmlEvent::Start(t) => Some(t),
        XmlEvent::Empty(t) => Some(t),
        _ => None,
    }
}

/// Whether an event closes an element named `name`.
fn is_end(e: &XmlEvent, name: &str) -> (r: bool)
    ensures
        r == closes(event_view(*e), name@),
{
    match e {
        XmlEvent::End(n) => same_text(n.as_str(), name),
        _ => false,
    }
}

/// The `u32` attribute `key` of a tag denotes.
fn attr_u32(t: &XmlTag, key: &str) -> (r: Option<u32>)
    ensures
        r == u32_attr(tag_view(*t).1, key@),
{
    match get_attribute(t, key) {
        Some(v) => parse_u32(v.as_str()),
        None => None,
    }
}

/// The `u32` attribute `key` of a tag denotes, else `default`.
fn attr_u32_or(t: &XmlTag, key: &str, default: u32) -> (r: u32)
    ensures
        r == u32_attr_or(tag_view(*t).1, key@, default),
{
    match attr_u32(t, key) {
        Some(v) => v,
        None => default,
    }
}

/// The `key` and `value` attributes of a tag, when it has both.
pub open spec fn key_value(a: AttrsView) -> Option<(Seq<char>, Seq<char>)> {
    match (attr_text(a, "key"@), attr_text(a, "value"@)) {
        (Some(k), Some(v)) => Some((k, v)),
        _ => None,
    }
}

fn get_key_value(t: &XmlTag) -> (r: Option<(String, String)>)
    ensures
        match r {
            Some(p) => key_value(tag_view(*t).1) == Some((p.0@, p.1@)),
            None => key_value(tag_view(*t).1) is None,
        },
{
    match (get_attribute(t, "key"), get_attribute(t, "value")) {
        (Some(k), Some(v)) => Some((k, v)),
        _ => None,
    }
}

// ---------------------------------------------------------------- slice info

/// Slicing results of a package (`Metadata/slice_info.config`).
#[derive(Debug, Clone)]
pub struct SliceInfoData {
    /// Slicer client type, such as `slicer`.
    pub client_type: Option<String>,
    /// Slicer client version.
    pub client_version: Option<String>,
    /// Results per plate.
    pub plates: Vec<SlicePlateInfo>,
}

/// Slicing results of one plate.
#[derive(Debug, Clone)]
pub struct SlicePlateInfo {
    /// Plate index (from 1).
    pub id: u32,
    /// Estimated print time in seconds.
    pub prediction: Option<u32>,
    /// Estimated filament weight in grams, as written.
    pub weight: Option<String>,
    /// Filament usage.
    pub filaments: Vec<SliceFilamentUsage>,
    /// Slicer warnings.
    pub warnings: Vec<SlicerWarning>,
    /// Objects on the plate.
    pub objects: Vec<SliceObjectInfo>,
}

/// Usage of one filament on a plate.
#[derive(Debug, Clone)]
pub struct SliceFilamentUsage {
    /// Filament slot.
    pub id: u32,
    /// AMS tray index.
    pub tray_info_idx: Option<String>,
    /// Filament type, such as `PLA`.
    pub type_: Option<String>,
    /// Display color.
    pub color: Option<String>,
    /// Meters used, as written.
    pub used_m: Option<String>,
    /// Grams used, as written.
    pub used_g: Option<String>,
}

/// An object on a plate.
#[derive(Debug, Clone)]
pub struct SliceObjectInfo {
    /// Object identify ID.
    pub id: u32,
    /// Display name.
    pub name: Option<String>,
}

/// A filament usage as values.
pub type FilamentView = (u32, Option<Seq<char>>, Option<Seq<char>>, Option<Seq<char>>, Option<Seq<char>>, Option<Seq<char>>);

/// A warning as values.
pub type WarningView = (Seq<char>, Option<Seq<char>>, Option<Seq<char>>);

/// A plate's results as values: id, prediction, weight, filaments, warnings, objects.
pub type SlicePlateView = (u32, Option<u32>, Option<Seq<char>>, Seq<FilamentView>, Seq<WarningView>, Seq<(u32, Option<Seq<char>>)>);

/// Slicing results as values: client type, client version, plates.
pub type SliceInfoView = (Option<Seq<char>>, Option<Seq<char>>, Seq<SlicePlateView>);

/// A filament usage as values.
pub open spec fn filament_view(f: SliceFilamentUsage) -> FilamentView {
    (f.id, opt_view(f.tray_info_idx), opt_view(f.type_), opt_view(f.color), opt_view(f.used_m), opt_view(f.used_g))
}

/// A warning as values.
pub open spec fn warning_view(w: SlicerWarning) -> WarningView {
    (w.msg@, opt_view(w.level), opt_view(w.error_code))
}

/// Filament usages as values.
pub open spec fn filaments_view(v: Seq<SliceFilamentUsage>) -> Seq<FilamentView> {
    v.map_values(|f: SliceFilamentUsage| filament_view(f))
}

/// Warnings as values.
pub open spec fn warnings_view(v: Seq<SlicerWarning>) -> Seq<WarningView> {
    v.map_values(|w: SlicerWarning| warning_view(w))
}

/// Plate objects as values.
pub open spec fn slice_objects_view(v: Seq<SliceObjectInfo>) -> Seq<(u32, Option<Seq<char>>)> {
    v.map_values(|o: SliceObjectInfo| (o.id, opt_view(o.name)))
}

/// A plate's results as values.
pub open spec fn slice_plate_view(p: SlicePlateInfo) -> SlicePlateView {
    (p.id, p.prediction, opt_view(p.weight), filaments_view(p.filaments@), warnings_view(p.warnings@), slice_objects_view(p.objects@))
}

/// Plates' results as values.
pub open spec fn slice_plates_view(v: Seq<SlicePlateInfo>) -> Seq<SlicePlateView> {
    v.map_values(|p: SlicePlateInfo| slice_plate_view(p))
}

/// Slicing results as values.
pub open spec fn slice_info_view(d: SliceInfoData) -> SliceInfoView {
    (opt_view(d.client_type), opt_view(d.client_version), slice_plates_view(d.plates@))
}

/// A plate with no results yet.
pub open spec fn empty_slice_plate() -> SlicePlateView {
    (0, None, None, Seq::empty(), Seq::empty(), Seq::empty())
}

/// What one tag inside a plate adds: `metadata` with key `index` (when a number),
/// `prediction` or `weight`; a `filament`, `warning` or `object` entry.
pub open spec fn slice_plate_tag(p: SlicePlateView, t: TagView) -> SlicePlateView {
    let a = t.1;
    if t.0 == "metadata"@ {
        match key_value(a) {
            Some((k, v)) => if k == "index"@ {
                match u32_of(v) {
                    Some(id) => (id, p.1, p.2, p.3, p.4, p.5),
                    None => p,
                }
            } else if k == "prediction"@ {
                (p.0, u32_of(v), p.2, p.3, p.4, p.5)
            } else if k == "weight"@ {
                (p.0, p.1, Some(v), p.3, p.4, p.5)
            } else {
                p
            },
            None => p,
        }
    } else if t.0 == "filament"@ {
        (p.0, p.1, p.2, p.3.push((u32_attr_or(a, "id"@, 0), attr_text(a, "tray_info_idx"@), attr_text(a, "type"@),
            attr_text(a, "color"@), attr_text(a, "used_m"@), attr_text(a, "used_g"@))), p.4, p.5)
    } else if t.0 == "warning"@ {
        let msg = match attr_text(a, "msg"@) {
            Some(m) => m,
            None => Seq::empty(),
        };
        (p.0, p.1, p.2, p.3, p.4.push((msg, attr_text(a, "level"@), attr_text(a, "error_code"@))), p.5)
    } else if t.0 == "object"@ {
        (p.0, p.1, p.2, p.3, p.4, p.5.push((u32_attr_or(a, "identify_id"@, 0), attr_text(a, "name"@))))
    } else {
        p
    }
}

/// A plate read from position `i` on, starting from `p`, up to the end of the plate.
pub open spec fn slice_plate_scan(evs: Seq<EventView>, i: int, p: SlicePlateView) -> SlicePlateView
    decreases evs.len() - i,
{
    if i < 0 || i >= evs.len() || closes(evs[i], "plate"@) {
        p
    } else {
        slice_plate_scan(evs, i + 1, match tag_of(evs[i]) {
            Some(t) => slice_plate_tag(p, t),
            None => p,
        })
    }
}

/// What one tag at the top of the file sets: the client type and version from
/// `header_item` tags.
pub open spec fn slice_header_tag(d: SliceInfoView, t: TagView) -> SliceInfoView {
    if t.0 == "header_item"@ {
        match key_value(t.1) {
            Some((k, v)) => if k == "X-BBL-Client-Type"@ {
                (Some(v), d.1, d.2)
            } else if k == "X-BBL-Client-Version"@ {
                (d.0, Some(v), d.2)
            } else {
                d
            },
            None => d,
        }
    } else {
        d
    }
}

/// The results read from position `i` on, starting from `d`: header items, and each
/// `plate` element read as [`slice_plate_scan`] describes.
pub open spec fn slice_info_scan(evs: Seq<EventView>, i: int, d: SliceInfoView) -> SliceInfoView
    decreases evs.len() - i,
{
    if i < 0 || i >= evs.len() {
        d
    } else {
        match tag_of(evs[i]) {
            Some(t) => if t.0 == "plate"@ {
                let j = end_after(evs, i + 1, "plate"@);
                if i < j && j <= evs.len() {
                    slice_info_scan(evs, j, (d.0, d.1, d.2.push(slice_plate_scan(evs, i + 1, empty_slice_plate()))))
                } else {
                    d
                }
            } else {
                slice_info_scan(evs, i + 1, slice_header_tag(d, t))
            },
            None => slice_info_scan(evs, i + 1, d),
        }
    }
}

/// The slicing results of a `slice_info.config` file: nothing for empty or malformed
/// content (one whose reading ends in an XML error), else the results its events describe.
pub open spec fn slice_info_of(content: Seq<u8>) -> SliceInfoView {
    if content.len() == 0 {
        (None, None, Seq::empty())
    } else {
        let (evs, err) = xml_events(content, true);
        match err {
            Some(_) => (None, None, Seq::empty()),
            None => slice_info_scan(evs, 0, (None, None, Seq::empty())),
        }
    }
}

/// Reads one plate from position `start`, returning it and the position after its end.
fn parse_slice_plate(evs: &Vec<XmlEvent>, start: usize) -> (r: (SlicePlateInfo, usize))
    requires
        start <= evs@.len(),
    ensures
        slice_plate_view(r.0) == slice_plate_scan(events_view(evs@), start as int, empty_slice_plate()),
        r.1 == end_after(events_view(evs@), start as int, "plate"@),
        start <= r.1 <= evs@.len(),
{
    let ghost ev = events_view(evs@);
    let mut plate = SlicePlateInfo {
        id: 0,
        prediction: None,
        weight: None,
        filaments: Vec::new(),
        warnings: Vec::new(),
        objects: Vec::new(),
    };
    proof {
        assert(slice_plate_view(plate) =~= empty_slice_plate());
    }
    let mut i = start;
    while i < evs.len()
        invariant
            start <= i <= evs@.len(),
            ev == events_view(evs@),
            slice_plate_scan(ev, start as int, empty_slice_plate()) == slice_plate_scan(ev, i as int, slice_plate_view(plate)),
            end_after(ev, start as int, "plate"@) == end_after(ev, i as int, "plate"@),
        decreases evs@.len() - i,
    {
        let e = &evs[i];
        proof {
            assert(ev[i as int] == event_view(*e));
        }
        if is_end(e, "plate") {
            return (plate, i + 1);
        }
        if let Some(t) = opened(e) {
            let ghost before = slice_plate_view(plate);
            if same_text(t.name.as_str(), "metadata") {
                if let Some((k, v)) = get_key_value(t) {
                    if same_text(k.as_str(), "index") {
                        if let Some(id) = parse_u32(v.as_str()) {
                            plate.id = id;
                        }
                    } else if same_text(k.as_str(), "prediction") {
                        plate.prediction = parse_u32(v.as_str());
                    } else if same_text(k.as_str(), "weight") {
                        plate.weight = Some(v);
                    }
                }
            } else if same_text(t.name.as_str(), "filament") {
                let f = SliceFilamentUsage {
                    id: attr_u32_or(t, "id", 0),
                    tray_info_idx: get_attribute(t, "tray_info_idx"),
                    type_: get_attribute(t, "type"),
                    color: get_attribute(t, "color"),
                    used_m: get_attribute(t, "used_m"),
                    used_g: get_attribute(t, "used_g"),
                };
                plate.filaments.push(f);
                proof {
                    assert(filaments_view(plate.filaments@) =~= before.3.push(filament_view(f)));
                }
            } else if same_text(t.name.as_str(), "warning") {
                let msg = match get_attribute(t, "msg") {
                    Some(m) => m,
                    None => String::new(),
                };
                let w = SlicerWarning { msg, level: get_attribute(t, "level"), error_code: get_attribute(t, "error_code") };
                plate.warnings.push(w);
                proof {
                    assert(warnings_view(plate.warnings@) =~= before.4.push(warning_view(w)));
                }
            } else if same_text(t.name.as_str(), "object") {
                let o = SliceObjectInfo { id: attr_u32_or(t, "identify_id", 0), name: get_attribute(t, "name") };
                plate.objects.push(o);
                proof {
                    assert(slice_objects_view(plate.objects@) =~= before.5.push((o.id, opt_view(o.name))));
                }
            }
            proof {
                assert(slice_plate_view(plate) == slice_plate_tag(before, tag_view(*t)));
            }
        }
        i = i + 1;
    }
    (plate, i)
}

/// Reads `Metadata/slice_info.config`: the client type and version from the header items,
/// and the results of each plate, as [`slice_info_of`] describes. It never fails: empty or
/// malformed content gives empty results.
pub fn parse_slice_info(content: &[u8]) -> (r: Result<SliceInfoData, Lib3mfError>)
    ensures
        r matches Ok(v) && slice_info_view(v) == slice_info_of(content@),
{
    let mut data = SliceInfoData { client_type: None, client_version: None, plates: Vec::new() };
    proof {
        assert(slice_info_view(data) =~= (None::<Seq<char>>, None::<Seq<char>>, Seq::<SlicePlateView>::empty()));
    }
    if content.len() == 0 {
        return Ok(data);
    }
    let (evs, error) = read_xml_events(content, true);
    let ghost ev = events_view(evs@);
    let mut i: usize = 0;
    while i < evs.len()
        invariant
            i <= evs@.len(),
            ev == events_view(evs@),
            slice_info_scan(ev, 0, (None, None, Seq::empty())) == slice_info_scan(ev, i as int, slice_info_view(data)),
        decreases evs@.len() - i,
    {
        let e = &evs[i];
        proof {
            assert(ev[i as int] == event_view(*e));
        }
        match opened(e) {
            Some(t) => {
                if same_text(t.name.as_str(), "plate") {
                    let ghost before = slice_info_view(data);
                    let (plate, next) = parse_slice_plate(&evs, i + 1);
                    data.plates.push(plate);
                    proof {
                        assert(slice_plates_view(data.plates@) =~= before.2.push(slice_plate_view(plate)));
                    }
                    i = next;
                } else {
                    let ghost before = slice_info_view(data);
                    if same_text(t.name.as_str(), "header_item") {
                        if let Some((k, v)) = get_key_value(t) {
                            if same_text(k.as_str(), "X-BBL-Client-Type") {
                                data.client_type = Some(v);
                            } else if same_text(k.as_str(), "X-BBL-Client-Version") {
                                data.client_version = Some(v);
                            }
                        }
                    }
                    proof {
                        assert(slice_info_view(data) == slice_header_tag(before, tag_view(*t)));
                    }
                    i = i + 1;
                }
            },
            None => {
                i = i + 1;
            },
        }
    }
    proof {
        assert(xml_events(content@, true) == (ev, opt_view(error)));
    }
    match error {
        Some(_) => Ok(SliceInfoData { client_type: None, client_version: None, plates: Vec::new() }),
        None => Ok(data),
    }
}


// ---------------------------------------------------------------- model settings

/// Per-object settings of a package (`Metadata/model_settings.config`).
#[derive(Debug, Clone)]
pub struct ModelSettingsData {
    /// Plates with their object instances.
    pub plates: Vec<PlateInfo>,
    /// Object metadata and parts.
    pub objects: Vec<BambuObjectMetadata>,
    /// Assembly items.
    pub assembly: Vec<AssemblyItem>,
}

/// A part's source as values: volume ID and the three offsets as written.
pub type SourceView = (Option<u32>, Option<Seq<char>>, Option<Seq<char>>, Option<Seq<char>>);

/// A part as values: id, subtype, name, matrix, source, mesh statistics, overrides.
pub type PartView = (u32, (nat, Seq<char>), Option<Seq<char>>, Option<Seq<char>>, Option<SourceView>, Option<BambuMeshStat>, Seq<(Seq<char>, Seq<char>)>);

/// An object as values: id, name, extruder, face count, parts.
pub type ObjectView = (u32, Option<Seq<char>>, Option<u32>, Option<u64>, Seq<PartView>);

/// A plate as values: id, name, locked, G-code file, thumbnail file, instances.
pub type PlateView = (u32, Option<Seq<char>>, bool, Option<Seq<char>>, Option<Seq<char>>, Seq<PlateModelInstance>);

/// An assembly item as values.
pub type AssemblyView = (u32, u32, Option<Seq<char>>, Option<Seq<char>>);

/// Model settings as values: plates, objects, assembly.
pub type SettingsView = (Seq<PlateView>, Seq<ObjectView>, Seq<AssemblyView>);

/// Pairs as values.
pub open spec fn pairs_view(v: Seq<(String, String)>) -> Seq<(Seq<char>, Seq<char>)> {
    v.map_values(|p: (String, String)| (p.0@, p.1@))
}

/// A source as values.
pub open spec fn source_view(s: BambuPartSource) -> SourceView {
    (s.volume_id, opt_view(s.offset_x), opt_view(s.offset_y), opt_view(s.offset_z))
}

/// A part as values.
pub open spec fn part_view(p: BambuPartMetadata) -> PartView {
    (p.id, part_subtype_view(p.subtype), opt_view(p.name), opt_view(p.matrix),
        match p.source { Some(s) => Some(source_view(s)), None => None }, p.mesh_stat, pairs_view(p.print_overrides@))
}

/// Parts as values.
pub open spec fn parts_view(v: Seq<BambuPartMetadata>) -> Seq<PartView> {
    v.map_values(|p: BambuPartMetadata| part_view(p))
}

/// An object as values.
pub open spec fn object_view(o: BambuObjectMetadata) -> ObjectView {
    (o.id, opt_view(o.name), o.extruder, o.face_count, parts_view(o.parts@))
}

/// Objects as values.
pub open spec fn objects_view(v: Seq<BambuObjectMetadata>) -> Seq<ObjectView> {
    v.map_values(|o: BambuObjectMetadata| object_view(o))
}

/// A plate as values.
pub open spec fn plate_view(p: PlateInfo) -> PlateView {
    (p.id, opt_view(p.name), p.locked, opt_view(p.gcode_file), opt_view(p.thumbnail_file), p.items@)
}

/// Plates as values.
pub open spec fn plates_view(v: Seq<PlateInfo>) -> Seq<PlateView> {
    v.map_values(|p: PlateInfo| plate_view(p))
}

/// An assembly item as values.
pub open spec fn assembly_view(a: AssemblyItem) -> AssemblyView {
    (a.object_id, a.instance_count, opt_view(a.transform), opt_view(a.offset))
}

/// Assembly items as values.
pub open spec fn assemblies_view(v: Seq<AssemblyItem>) -> Seq<AssemblyView> {
    v.map_values(|a: AssemblyItem| assembly_view(a))
}

/// Model settings as values.
pub open spec fn settings_view(d: ModelSettingsData) -> SettingsView {
    (plates_view(d.plates@), objects_view(d.objects@), assemblies_view(d.assembly@))
}

/// `pairs` with the value of `k` set to `v`: replaced where `k` is present, else added.
pub open spec fn set_pair(pairs: Seq<(Seq<char>, Seq<char>)>, k: Seq<char>, v: Seq<char>) -> Seq<(Seq<char>, Seq<char>)>
    decreases pairs.len(),
{
    if pairs.len() == 0 {
        seq![(k, v)]
    } else if pairs[0].0 == k {
        pairs.update(0, (k, v))
    } else {
        seq![pairs[0]] + set_pair(pairs.drop_first(), k, v)
    }
}

/// The `u64` a text denotes.
pub open spec fn u64_of(t: Seq<char>) -> Option<u64> {
    match unsigned_value(t, u64::MAX as int) {
        Some(v) => Some(v as u64),
        None => None,
    }
}

/// Metadata keys of a part that have fields of their own or are dropped.
pub open spec fn known_part_key(k: Seq<char>) -> bool {
    k == "name"@ || k == "matrix"@ || k == "source_object_id"@ || k == "source_volume_id"@
        || k == "source_offset_x"@ || k == "source_offset_y"@ || k == "source_offset_z"@ || k == "source_in_inches"@
}

/// A source with nothing set.
pub open spec fn empty_source() -> SourceView {
    (None, None, None, None)
}

/// The part's source, or an empty one.
pub open spec fn source_or_empty(p: PartView) -> SourceView {
    match p.4 {
        Some(s) => s,
        None => empty_source(),
    }
}

/// What one tag inside a part adds: `metadata` (name, matrix, source volume and offsets,
/// or an override for other keys), `mesh_stat`.
pub open spec fn part_tag(p: PartView, t: TagView) -> PartView {
    let a = t.1;
    if t.0 == "metadata"@ {
        match key_value(a) {
            Some((k, v)) => {
                let s = source_or_empty(p);
                if k == "name"@ {
                    (p.0, p.1, Some(v), p.3, p.4, p.5, p.6)
                } else if k == "matrix"@ {
                    (p.0, p.1, p.2, Some(v), p.4, p.5, p.6)
                } else if k == "source_volume_id"@ {
                    (p.0, p.1, p.2, p.3, Some((u32_of(v), s.1, s.2, s.3)), p.5, p.6)
                } else if k == "source_offset_x"@ {
                    (p.0, p.1, p.2, p.3, Some((s.0, Some(v), s.2, s.3)), p.5, p.6)
                } else if k == "source_offset_y"@ {
                    (p.0, p.1, p.2, p.3, Some((s.0, s.1, Some(v), s.3)), p.5, p.6)
                } else if k == "source_offset_z"@ {
                    (p.0, p.1, p.2, p.3, Some((s.0, s.1, s.2, Some(v))), p.5, p.6)
                } else if known_part_key(k) {
                    p
                } else {
                    (p.0, p.1, p.2, p.3, p.4, p.5, set_pair(p.6, k, v))
                }
            },
            None => p,
        }
    } else if t.0 == "mesh_stat"@ {
        (p.0, p.1, p.2, p.3, p.4, Some(BambuMeshStat {
            edges_fixed: u32_attr(a, "edges_fixed"@),
            degenerate_facets: u32_attr(a, "degenerate_facets"@),
            facets_removed: u32_attr(a, "facets_removed"@),
            facets_reversed: u32_attr(a, "facets_reversed"@),
            backwards_edges: u32_attr(a, "backwards_edges"@),
        }), p.6)
    } else {
        p
    }
}

/// A part read from position `i` on, starting from `p`, up to the end of the part.
pub open spec fn part_scan(evs: Seq<EventView>, i: int, p: PartView) -> PartView
    decreases evs.len() - i,
{
    if i < 0 || i >= evs.len() || closes(evs[i], "part"@) {
        p
    } else {
        part_scan(evs, i + 1, match tag_of(evs[i]) {
            Some(t) => part_tag(p, t),
            None => p,
        })
    }
}

/// A part with its id and subtype (from the `part` tag) and nothing else.
pub open spec fn new_part(a: AttrsView) -> PartView {
    (u32_attr_or(a, "id"@, 0), match attr_text(a, "subtype"@) {
        Some(s) => part_subtype_of(s),
        None => (0, Seq::empty()),
    }, None, None, None, None, Seq::empty())
}

/// What one tag inside an object (outside its parts) sets: `metadata` with key `name` or
/// `extruder` and a value, or without key a `face_count`.
pub open spec fn object_tag(o: ObjectView, t: TagView) -> ObjectView {
    let a = t.1;
    if t.0 == "metadata"@ {
        match attr_text(a, "key"@) {
            Some(k) => match attr_text(a, "value"@) {
                Some(v) => if k == "name"@ {
                    (o.0, Some(v), o.2, o.3, o.4)
                } else if k == "extruder"@ {
                    (o.0, o.1, u32_of(v), o.3, o.4)
                } else {
                    o
                },
                None => o,
            },
            None => match attr_text(a, "face_count"@) {
                Some(fc) => (o.0, o.1, o.2, u64_of(fc), o.4),
                None => o,
            },
        }
    } else {
        o
    }
}

/// An object read from position `i` on, starting from `o`, up to the end of the object,
/// each `part` element read as [`part_scan`] describes; and the position after it.
pub open spec fn object_scan(evs: Seq<EventView>, i: int, o: ObjectView) -> (ObjectView, int)
    decreases evs.len() - i,
{
    if i < 0 || i >= evs.len() {
        (o, evs.len() as int)
    } else if closes(evs[i], "object"@) {
        (o, i + 1)
    } else {
        match tag_of(evs[i]) {
            Some(t) => if t.0 == "part"@ {
                let j = end_after(evs, i + 1, "part"@);
                if i < j && j <= evs.len() {
                    object_scan(evs, j, (o.0, o.1, o.2, o.3, o.4.push(part_scan(evs, i + 1, new_part(t.1)))))
                } else {
                    (o, evs.len() as int)
                }
            } else {
                object_scan(evs, i + 1, object_tag(o, t))
            },
            None => object_scan(evs, i + 1, o),
        }
    }
}

/// What one tag inside an object instance sets: `metadata` with key `object_id`,
/// `instance_id` (0 when not a number) or `identify_id`.
pub open spec fn instance_tag(m: PlateModelInstance, t: TagView) -> PlateModelInstance {
    if t.0 == "metadata"@ {
        match key_value(t.1) {
            Some((k, v)) => if k == "object_id"@ {
                PlateModelInstance { object_id: match u32_of(v) { Some(x) => x, None => 0 }, ..m }
            } else if k == "instance_id"@ {
                PlateModelInstance { instance_id: match u32_of(v) { Some(x) => x, None => 0 }, ..m }
            } else if k == "identify_id"@ {
                PlateModelInstance { identify_id: u32_of(v), ..m }
            } else {
                m
            },
            None => m,
        }
    } else {
        m
    }
}

/// An instance read from position `i` on, up to the end of the instance.
pub open spec fn instance_scan(evs: Seq<EventView>, i: int, m: PlateModelInstance) -> PlateModelInstance
    decreases evs.len() - i,
{
    if i < 0 || i >= evs.len() || closes(evs[i], "model_instance"@) {
        m
    } else {
        instance_scan(evs, i + 1, match tag_of(evs[i]) {
            Some(t) => instance_tag(m, t),
            None => m,
        })
    }
}

/// What one tag inside a plate (outside its instances) sets: `metadata` with key
/// `plater_id` (when a number), `plater_name` (when not empty), `locked`, `gcode_file`,
/// `thumbnail_file`.
pub open spec fn plate_tag(p: PlateView, t: TagView) -> PlateView {
    if t.0 == "metadata"@ {
        match key_value(t.1) {
            Some((k, v)) => if k == "plater_id"@ {
                match u32_of(v) {
                    Some(id) => (id, p.1, p.2, p.3, p.4, p.5),
                    None => p,
                }
            } else if k == "plater_name"@ {
                if v.len() > 0 { (p.0, Some(v), p.2, p.3, p.4, p.5) } else { p }
            } else if k == "locked"@ {
                (p.0, p.1, v == "true"@, p.3, p.4, p.5)
            } else if k == "gcode_file"@ {
                (p.0, p.1, p.2, Some(v), p.4, p.5)
            } else if k == "thumbnail_file"@ {
                (p.0, p.1, p.2, p.3, Some(v), p.5)
            } else {
                p
            },
            None => p,
        }
    } else {
        p
    }
}

/// An instance with all fields zero.
pub open spec fn empty_instance() -> PlateModelInstance {
    PlateModelInstance { object_id: 0, instance_id: 0, identify_id: None }
}

/// A plate read from position `i` on, up to the end of the plate, each `model_instance`
/// element read as [`instance_scan`] describes; and the position after it.
pub open spec fn plate_scan(evs: Seq<EventView>, i: int, p: PlateView) -> (PlateView, int)
    decreases evs.len() - i,
{
    if i < 0 || i >= evs.len() {
        (p, evs.len() as int)
    } else if closes(evs[i], "plate"@) {
        (p, i + 1)
    } else {
        match tag_of(evs[i]) {
            Some(t) => if t.0 == "model_instance"@ {
                let j = end_after(evs, i + 1, "model_instance"@);
                if i < j && j <= evs.len() {
                    plate_scan(evs, j, (p.0, p.1, p.2, p.3, p.4, p.5.push(instance_scan(evs, i + 1, empty_instance()))))
                } else {
                    (p, evs.len() as int)
                }
            } else {
                plate_scan(evs, i + 1, plate_tag(p, t))
            },
            None => plate_scan(evs, i + 1, p),
        }
    }
}

/// The assembly items read from position `i` on, up to the end of the `assemble` element:
/// one per `assemble_item` tag (object 0 and one instance when not given as numbers).
pub open spec fn assemble_scan(evs: Seq<EventView>, i: int, items: Seq<AssemblyView>) -> Seq<AssemblyView>
    decreases evs.len() - i,
{
    if i < 0 || i >= evs.len() || closes(evs[i], "assemble"@) {
        items
    } else {
        assemble_scan(evs, i + 1, match tag_of(evs[i]) {
            Some(t) => if t.0 == "assemble_item"@ {
                items.push((u32_attr_or(t.1, "object_id"@, 0), u32_attr_or(t.1, "instance_count"@, 1),
                    attr_text(t.1, "transform"@), attr_text(t.1, "offset"@)))
            } else {
                items
            },
            None => items,
        })
    }
}

/// A plate with nothing set.
pub open spec fn empty_plate() -> PlateView {
    (0, None, false, None, None, Seq::empty())
}

/// The settings read from position `i` on, starting from `d`: each `object`, `plate` and
/// `assemble` start tag opens an element read as the scans above describe.
pub open spec fn settings_scan(evs: Seq<EventView>, i: int, d: SettingsView) -> SettingsView
    decreases evs.len() - i,
{
    if i < 0 || i >= evs.len() {
        d
    } else {
        match evs[i] {
            EventView::Start(t) => if t.0 == "object"@ {
                let r = object_scan(evs, i + 1, (u32_attr_or(t.1, "id"@, 0), None, None, None, Seq::empty()));
                if i < r.1 && r.1 <= evs.len() {
                    settings_scan(evs, r.1, (d.0, d.1.push(r.0), d.2))
                } else {
                    d
                }
            } else if t.0 == "plate"@ {
                let r = plate_scan(evs, i + 1, empty_plate());
                if i < r.1 && r.1 <= evs.len() {
                    settings_scan(evs, r.1, (d.0.push(r.0), d.1, d.2))
                } else {
                    d
                }
            } else if t.0 == "assemble"@ {
                let j = end_after(evs, i + 1, "assemble"@);
                if i < j && j <= evs.len() {
                    settings_scan(evs, j, (d.0, d.1, d.2 + assemble_scan(evs, i + 1, Seq::empty())))
                } else {
                    d
                }
            } else {
                settings_scan(evs, i + 1, d)
            },
            _ => settings_scan(evs, i + 1, d),
        }
    }
}

/// The settings of a `model_settings.config` file: nothing for empty or malformed content
/// (one whose reading ends in an XML error), else the settings its events describe.
pub open spec fn model_settings_of(content: Seq<u8>) -> SettingsView {
    if content.len() == 0 {
        (Seq::empty(), Seq::empty(), Seq::empty())
    } else {
        let (evs, err) = xml_events(content, true);
        match err {
            Some(_) => (Seq::empty(), Seq::empty(), Seq::empty()),
            None => settings_scan(evs, 0, (Seq::empty(), Seq::empty(), Seq::empty())),
        }
    }
}

/// Sets `k` to `v` in a list of pairs, as [`set_pair`] describes.
fn set_override(pairs: &mut Vec<(String, String)>, k: String, v: String)
    ensures
        pairs_view(final(pairs)@) == set_pair(pairs_view(old(pairs)@), k@, v@),
{
    let ghost pv = pairs_view(pairs@);
    let mut i: usize = 0;
    proof {
        assert(pv.take(0) =~= Seq::<(Seq<char>, Seq<char>)>::empty());
        assert(pv.skip(0) =~= pv);
    }
    while i < pairs.len()
        invariant
            i <= pairs@.len(),
            pairs@ == old(pairs)@,
            pv == pairs_view(pairs@),
            set_pair(pv, k@, v@) == pv.take(i as int) + set_pair(pv.skip(i as int), k@, v@),
        decreases pairs@.len() - i,
    {
        proof {
            assert(pv.skip(i as int)[0] == pv[i as int]);
            assert(pv.skip(i as int).drop_first() =~= pv.skip(i + 1));
        }
        if same_text(pairs[i].0.as_str(), k.as_str()) {
            let ghost old_pairs = pairs@;
            pairs.set(i, (k, v));
            proof {
                assert(pairs_view(pairs@) =~= pv.take(i as int) + pv.skip(i as int).update(0, (k@, v@)));
            }
            return;
        }
        proof {
            assert(pv.take(i + 1) =~= pv.take(i as int) + seq![pv[i as int]]);
        }
        i = i + 1;
    }
    proof {
        assert(pv.skip(i as int) =~= Seq::<(Seq<char>, Seq<char>)>::empty());
        assert(pv.take(i as int) =~= pv);
    }
    pairs.push((k, v));
    proof {
        assert(pairs_view(pairs@) =~= pv + seq![(k@, v@)]);
    }
}

fn copy_text(s: &Option<String>) -> (r: Option<String>)
    ensures
        opt_view(r) == opt_view(*s),
{
    match s {
        Some(t) => Some(t.clone()),
        None => None,
    }
}

fn copy_source(s: &BambuPartSource) -> (r: BambuPartSource)
    ensures
        source_view(r) == source_view(*s),
{
    BambuPartSource {
        volume_id: s.volume_id,
        offset_x: copy_text(&s.offset_x),
        offset_y: copy_text(&s.offset_y),
        offset_z: copy_text(&s.offset_z),
    }
}

/// Reads one part from position `start`, returning it and the position after its end.
fn parse_part(evs: &Vec<XmlEvent>, start: usize, id: u32, subtype: PartSubtype) -> (r: (BambuPartMetadata, usize))
    requires
        start <= evs@.len(),
    ensures
        part_view(r.0) == part_scan(events_view(evs@), start as int,
            (id, part_subtype_view(subtype), None, None, None, None, Seq::empty())),
        r.1 == end_after(events_view(evs@), start as int, "part"@),
        start <= r.1 <= evs@.len(),
{
    let ghost ev = events_view(evs@);
    let ghost init: PartView = (id, part_subtype_view(subtype), None, None, None, None, Seq::empty());
    let mut part = BambuPartMetadata {
        id,
        subtype,
        name: None,
        matrix: None,
        source: None,
        mesh_stat: None,
        print_overrides: Vec::new(),
    };
    proof {
        assert(part_view(part) =~= init);
    }
    let mut i = start;
    while i < evs.len()
        invariant
            start <= i <= evs@.len(),
            ev == events_view(evs@),
            init == (id, part_subtype_view(subtype), None::<Seq<char>>, None::<Seq<char>>, None::<SourceView>, None::<BambuMeshStat>, Seq::<(Seq<char>, Seq<char>)>::empty()),
            part_scan(ev, start as int, init) == part_scan(ev, i as int, part_view(part)),
            end_after(ev, start as int, "part"@) == end_after(ev, i as int, "part"@),
        decreases evs@.len() - i,
    {
        let e = &evs[i];
        proof {
            assert(ev[i as int] == event_view(*e));
        }
        if is_end(e, "part") {
            return (part, i + 1);
        }
        if let Some(t) = opened(e) {
            let ghost before = part_view(part);
            if same_text(t.name.as_str(), "metadata") {
                if let Some((k, v)) = get_key_value(t) {
                    let mut src = match &part.source {
                        Some(s) => copy_source(s),
                        None => BambuPartSource { volume_id: None, offset_x: None, offset_y: None, offset_z: None },
                    };
                    if same_text(k.as_str(), "name") {
                        part.name = Some(v);
                    } else if same_text(k.as_str(), "matrix") {
                        part.matrix = Some(v);
                    } else if same_text(k.as_str(), "source_volume_id") {
                        src.volume_id = parse_u32(v.as_str());
                        part.source = Some(src);
                    } else if same_text(k.as_str(), "source_offset_x") {
                        src.offset_x = Some(v);
                        part.source = Some(src);
                    } else if same_text(k.as_str(), "source_offset_y") {
                        src.offset_y = Some(v);
                        part.source = Some(src);
                    } else if same_text(k.as_str(), "source_offset_z") {
                        src.offset_z = Some(v);
                        part.source = Some(src);
                    } else if !(same_text(k.as_str(), "source_object_id") || same_text(k.as_str(), "source_in_inches")) {
                        set_override(&mut part.print_overrides, k, v);
                    }
                }
            } else if same_text(t.name.as_str(), "mesh_stat") {
                part.mesh_stat = Some(BambuMeshStat {
                    edges_fixed: attr_u32(t, "edges_fixed"),
                    degenerate_facets: attr_u32(t, "degenerate_facets"),
                    facets_removed: attr_u32(t, "facets_removed"),
                    facets_reversed: attr_u32(t, "facets_reversed"),
                    backwards_edges: attr_u32(t, "backwards_edges"),
                });
            }
            proof {
                assert(part_view(part) == part_tag(before, tag_view(*t)));
            }
        }
        i = i + 1;
    }
    (part, i)
}

/// Reads one object from position `start`, returning it and the position after its end.
fn parse_model_object(evs: &Vec<XmlEvent>, start: usize, id: u32) -> (r: (BambuObjectMetadata, usize))
    requires
        start <= evs@.len(),
    ensures
        (object_view(r.0), r.1 as int) == object_scan(events_view(evs@), start as int, (id, None, None, None, Seq::empty())),
        start <= r.1 <= evs@.len(),
{
    let ghost ev = events_view(evs@);
    let mut obj = BambuObjectMetadata { id, name: None, extruder: None, face_count: None, parts: Vec::new() };
    proof {
        assert(object_view(obj) =~= (id, None::<Seq<char>>, None::<u32>, None::<u64>, Seq::<PartView>::empty()));
    }
    let mut i = start;
    while i < evs.len()
        invariant
            start <= i <= evs@.len(),
            ev == events_view(evs@),
            object_scan(ev, start as int, (id, None, None, None, Seq::empty())) == object_scan(ev, i as int, object_view(obj)),
        decreases evs@.len() - i,
    {
        let e = &evs[i];
        proof {
            assert(ev[i as int] == event_view(*e));
        }
        if is_end(e, "object") {
            return (obj, i + 1);
        }
        if let Some(t) = opened(e) {
            let ghost before = object_view(obj);
            if same_text(t.name.as_str(), "part") {
                let part_id = attr_u32_or(t, "id", 0);
                let subtype = match get_attribute(t, "subtype") {
                    Some(st) => PartSubtype::parse(st.as_str()),
                    None => PartSubtype::NormalPart,
                };
                let (part, next) = parse_part(evs, i + 1, part_id, subtype);
                obj.parts.push(part);
                proof {
                    assert(parts_view(obj.parts@) =~= before.4.push(part_view(part)));
                }
                i = next;
            } else {
                if same_text(t.name.as_str(), "metadata") {
                    match get_attribute(t, "key") {
                        Some(k) => {
                            if let Some(v) = get_attribute(t, "value") {
                                if same_text(k.as_str(), "name") {
                                    obj.name = Some(v);
                                } else if same_text(k.as_str(), "extruder") {
                                    obj.extruder = parse_u32(v.as_str());
                                }
                            }
                        },
                        None => {
                            if let Some(fc) = get_attribute(t, "face_count") {
                                obj.face_count = parse_u64(fc.as_str());
                            }
                        },
                    }
                }
                proof {
                    assert(object_view(obj) == object_tag(before, tag_view(*t)));
                }
                i = i + 1;
            }
        } else {
            i = i + 1;
        }
    }
    (obj, i)
}

/// Reads one object instance from position `start`, returning it and the position after
/// its end.
fn parse_model_instance(evs: &Vec<XmlEvent>, start: usize) -> (r: (PlateModelInstance, usize))
    requires
        start <= evs@.len(),
    ensures
        r.0 == instance_scan(events_view(evs@), start as int, empty_instance()),
        r.1 == end_after(events_view(evs@), start as int, "model_instance"@),
        start <= r.1 <= evs@.len(),
{
    let ghost ev = events_view(evs@);
    let mut m = PlateModelInstance { object_id: 0, instance_id: 0, identify_id: None };
    let mut i = start;
    while i < evs.len()
        invariant
            start <= i <= evs@.len(),
            ev == events_view(evs@),
            instance_scan(ev, start as int, empty_instance()) == instance_scan(ev, i as int, m),
            end_after(ev, start as int, "model_instance"@) == end_after(ev, i as int, "model_instance"@),
        decreases evs@.len() - i,
    {
        let e = &evs[i];
        proof {
            assert(ev[i as int] == event_view(*e));
        }
        if is_end(e, "model_instance") {
            return (m, i + 1);
        }
        if let Some(t) = opened(e) {
            let ghost before = m;
            if same_text(t.name.as_str(), "metadata") {
                if let Some((k, v)) = get_key_value(t) {
                    if same_text(k.as_str(), "object_id") {
                        m.object_id = match parse_u32(v.as_str()) {
                            Some(x) => x,
                            None => 0,
                        };
                    } else if same_text(k.as_str(), "instance_id") {
                        m.instance_id = match parse_u32(v.as_str()) {
                            Some(x) => x,
                            None => 0,
                        };
                    } else if same_text(k.as_str(), "identify_id") {
                        m.identify_id = parse_u32(v.as_str());
                    }
                }
            }
            proof {
                assert(m == instance_tag(before, tag_view(*t)));
            }
        }
        i = i + 1;
    }
    (m, i)
}

/// Reads one plate of the settings from position `start`, returning it and the position
/// after its end.
fn parse_model_plate(evs: &Vec<XmlEvent>, start: usize) -> (r: (PlateInfo, usize))
    requires
        start <= evs@.len(),
    ensures
        (plate_view(r.0), r.1 as int) == plate_scan(events_view(evs@), start as int, empty_plate()),
        start <= r.1 <= evs@.len(),
{
    let ghost ev = events_view(evs@);
    let mut plate = PlateInfo { id: 0, name: None, locked: false, gcode_file: None, thumbnail_file: None, items: Vec::new() };
    proof {
        assert(plate_view(plate) =~= empty_plate());
        reveal_strlit("true");
    }
    let mut i = start;
    while i < evs.len()
        invariant
            start <= i <= evs@.len(),
            ev == events_view(evs@),
            plate_scan(ev, start as int, empty_plate()) == plate_scan(ev, i as int, plate_view(plate)),
        decreases evs@.len() - i,
    {
        let e = &evs[i];
        proof {
            assert(ev[i as int] == event_view(*e));
        }
        if is_end(e, "plate") {
            return (plate, i + 1);
        }
        if let Some(t) = opened(e) {
            let ghost before = plate_view(plate);
            if same_text(t.name.as_str(), "model_instance") {
                let (m, next) = parse_model_instance(evs, i + 1);
                plate.items.push(m);
                proof {
                    assert(plate.items@ =~= before.5.push(m));
                }
                i = next;
            } else {
                if same_text(t.name.as_str(), "metadata") {
                    if let Some((k, v)) = get_key_value(t) {
                        if same_text(k.as_str(), "plater_id") {
                            if let Some(id) = parse_u32(v.as_str()) {
                                plate.id = id;
                            }
                        } else if same_text(k.as_str(), "plater_name") {
                            if v.as_str().unicode_len() > 0 {
                                plate.name = Some(v);
                            }
                        } else if same_text(k.as_str(), "locked") {
                            plate.locked = same_text(v.as_str(), "true");
                        } else if same_text(k.as_str(), "gcode_file") {
                            plate.gcode_file = Some(v);
                        } else if same_text(k.as_str(), "thumbnail_file") {
                            plate.thumbnail_file = Some(v);
                        }
                    }
                }
                proof {
                    assert(plate_view(plate) == plate_tag(before, tag_view(*t)));
                }
                i = i + 1;
            }
        } else {
            i = i + 1;
        }
    }
    (plate, i)
}

/// Reads the items of an `assemble` element from position `start` onto `items`,
/// returning the position after its end.
fn parse_assemble(evs: &Vec<XmlEvent>, start: usize, items: &mut Vec<AssemblyItem>) -> (next: usize)
    requires
        start <= evs@.len(),
    ensures
        assemblies_view(final(items)@) == assemblies_view(old(items)@) + assemble_scan(events_view(evs@), start as int, Seq::empty()),
        next == end_after(events_view(evs@), start as int, "assemble"@),
        start <= next <= evs@.len(),
{
    let ghost ev = events_view(evs@);
    let ghost base = assemblies_view(items@);
    let mut i = start;
    proof {
        assert(assemblies_view(items@).skip(base.len() as int) =~= Seq::<AssemblyView>::empty());
        assert(base + Seq::<AssemblyView>::empty() =~= assemblies_view(items@));
    }
    while i < evs.len()
        invariant
            start <= i <= evs@.len(),
            ev == events_view(evs@),
            base == assemblies_view(old(items)@),
            assemblies_view(items@).len() >= base.len(),
            assemble_scan(ev, start as int, Seq::empty()) == assemble_scan(ev, i as int, assemblies_view(items@).skip(base.len() as int)),
            assemblies_view(items@) == base + assemblies_view(items@).skip(base.len() as int),
            end_after(ev, start as int, "assemble"@) == end_after(ev, i as int, "assemble"@),
        decreases evs@.len() - i,
    {
        let e = &evs[i];
        proof {
            assert(ev[i as int] == event_view(*e));
        }
        if is_end(e, "assemble") {
            proof {
                assert(assemblies_view(items@) =~= base + assemble_scan(ev, start as int, Seq::empty()));
            }
            return i + 1;
        }
        if let Some(t) = opened(e) {
            if same_text(t.name.as_str(), "assemble_item") {
                let ghost before = assemblies_view(items@);
                let a = AssemblyItem {
                    object_id: attr_u32_or(t, "object_id", 0),
                    instance_count: attr_u32_or(t, "instance_count", 1),
                    transform: get_attribute(t, "transform"),
                    offset: get_attribute(t, "offset"),
                };
                items.push(a);
                proof {
                    assert(assemblies_view(items@) =~= before.push(assembly_view(a)));
                    assert(assemblies_view(items@).skip(base.len() as int) =~= before.skip(base.len() as int).push(assembly_view(a)));
                }
            }
        }
        i = i + 1;
    }
    proof {
        assert(assemblies_view(items@) =~= base + assemble_scan(ev, start as int, Seq::empty()));
    }
    i
}

/// Reads `Metadata/model_settings.config`: objects with their parts, plates with their
/// instances, and assembly items, as [`model_settings_of`] describes. It never fails:
/// empty or malformed content gives empty settings.
pub fn parse_model_settings(content: &[u8]) -> (r: Result<ModelSettingsData, Lib3mfError>)
    ensures
        r matches Ok(v) && settings_view(v) == model_settings_of(content@),
{
    let mut data = ModelSettingsData { plates: Vec::new(), objects: Vec::new(), assembly: Vec::new() };
    proof {
        assert(settings_view(data) =~= (Seq::<PlateView>::empty(), Seq::<ObjectView>::empty(), Seq::<AssemblyView>::empty()));
    }
    if content.len() == 0 {
        return Ok(data);
    }
    let (evs, error) = read_xml_events(content, true);
    let ghost ev = events_view(evs@);
    let mut i: usize = 0;
    while i < evs.len()
        invariant
            i <= evs@.len(),
            ev == events_view(evs@),
            settings_scan(ev, 0, (Seq::empty(), Seq::empty(), Seq::empty())) == settings_scan(ev, i as int, settings_view(data)),
        decreases evs@.len() - i,
    {
        let e = &evs[i];
        proof {
            assert(ev[i as int] == event_view(*e));
        }
        let ghost before = settings_view(data);
        match e {
            XmlEvent::Start(t) => {
                if same_text(t.name.as_str(), "object") {
                    let id = attr_u32_or(t, "id", 0);
                    let (obj, next) = parse_model_object(&evs, i + 1, id);
                    data.objects.push(obj);
                    proof {
                        assert(objects_view(data.objects@) =~= before.1.push(object_view(obj)));
                    }
                    i = next;
                } else if same_text(t.name.as_str(), "plate") {
                    let (plate, next) = parse_model_plate(&evs, i + 1);
                    data.plates.push(plate);
                    proof {
                        assert(plates_view(data.plates@) =~= before.0.push(plate_view(plate)));
                    }
                    i = next;
                } else if same_text(t.name.as_str(), "assemble") {
                    let next = parse_assemble(&evs, i + 1, &mut data.assembly);
                    i = next;
                } else {
                    i = i + 1;
                }
            },
            _ => {
                i = i + 1;
            },
        }
    }
    proof {
        assert(xml_events(content@, true) == (ev, opt_view(error)));
    }
    match error {
        Some(_) => {
            let empty = ModelSettingsData { plates: Vec::new(), objects: Vec::new(), assembly: Vec::new() };
            proof {
                assert(settings_view(empty) =~= (Seq::<PlateView>::empty(), Seq::<ObjectView>::empty(), Seq::<AssemblyView>::empty()));
            }
            Ok(empty)
        },
        None => Ok(data),
    }
}


// ---------------------------------------------------------------- project and profile settings

/// Keys of settings that hold G-code and are left out.
pub open spec fn gcode_key(k: Seq<char>) -> bool {
    k == "change_filament_gcode"@ || k == "machine_end_gcode"@ || k == "machine_start_gcode"@
        || k == "time_lapse_gcode"@ || k == "before_layer_change_gcode"@ || k == "layer_change_gcode"@
        || k == "printer_start_gcode"@ || k == "printer_end_gcode"@ || k == "toolchange_gcode"@
        || k == "gcode_end"@ || k == "gcode_start"@
}

fn is_gcode_key(k: &str) -> (r: bool)
    ensures
        r == gcode_key(k@),
{
    same_text(k, "change_filament_gcode") || same_text(k, "machine_end_gcode") || same_text(k, "machine_start_gcode")
        || same_text(k, "time_lapse_gcode") || same_text(k, "before_layer_change_gcode") || same_text(k, "layer_change_gcode")
        || same_text(k, "printer_start_gcode") || same_text(k, "printer_end_gcode") || same_text(k, "toolchange_gcode")
        || same_text(k, "gcode_end") || same_text(k, "gcode_start")
}

/// The last member with key `key`.
pub open spec fn member(es: Seq<EntryView>, key: Seq<char>) -> Option<EntryView>
    decreases es.len(),
{
    if es.len() == 0 {
        None
    } else if es.last().0 == key {
        Some(es.last())
    } else {
        member(es.drop_last(), key)
    }
}

/// The string value of member `key`, if it is one.
pub open spec fn member_text(es: Seq<EntryView>, key: Seq<char>) -> Option<Seq<char>> {
    match member(es, key) {
        Some(e) => e.2,
        None => None,
    }
}

/// A decimal text as values: whether it is a JSON number, and its text.
pub type DecimalView = (bool, Seq<char>);

/// A decimal text as values.
pub open spec fn decimal_view(d: DecimalText) -> DecimalView {
    match d {
        DecimalText::Number(t) => (true, t@),
        DecimalText::Text(t) => (false, t@),
    }
}

/// Decimal texts as values.
pub open spec fn decimals_view(v: Seq<DecimalText>) -> Seq<DecimalView> {
    v.map_values(|d: DecimalText| decimal_view(d))
}

/// The decimal a value gives: a number, or a string.
pub open spec fn value_decimal(e: EntryView) -> Option<DecimalView> {
    match e.3 {
        Some(n) => Some((true, n.0)),
        None => match e.2 {
            Some(s) => Some((false, s)),
            None => None,
        },
    }
}

/// The strings among array elements, in order.
pub open spec fn item_strings(items: Seq<(Option<Seq<char>>, Option<Seq<char>>)>) -> Seq<Seq<char>>
    decreases items.len(),
{
    if items.len() == 0 {
        Seq::empty()
    } else {
        item_strings(items.drop_last()) + match items.last().0 {
            Some(s) => seq![s],
            None => Seq::empty(),
        }
    }
}

/// The numbers and strings among array elements, in order, as decimals.
pub open spec fn item_decimals(items: Seq<(Option<Seq<char>>, Option<Seq<char>>)>) -> Seq<DecimalView>
    decreases items.len(),
{
    if items.len() == 0 {
        Seq::empty()
    } else {
        item_decimals(items.drop_last()) + match items.last().1 {
            Some(t) => seq![(true, t)],
            None => match items.last().0 {
                Some(s) => seq![(false, s)],
                None => Seq::empty(),
            },
        }
    }
}

/// The strings a value gives: an array's strings, or a single string.
pub open spec fn value_strings(e: EntryView) -> Seq<Seq<char>> {
    match e.4 {
        Some(items) => item_strings(items),
        None => match e.2 {
            Some(s) => seq![s],
            None => Seq::empty(),
        },
    }
}

/// The decimals a value gives: an array's numbers and strings, a single number, or a
/// single string.
pub open spec fn value_decimals(e: EntryView) -> Seq<DecimalView> {
    match e.4 {
        Some(items) => item_decimals(items),
        None => match value_decimal(e) {
            Some(d) => seq![d],
            None => Seq::empty(),
        },
    }
}

/// The `u32` a value gives: a whole number (cut to 32 bits), or a string holding one
/// (surrounding white space ignored).
pub open spec fn value_u32(e: EntryView) -> Option<u32> {
    match e.3 {
        Some(n) => match n.1 {
            Some(x) => Some(x as u32),
            None => None,
        },
        None => match e.2 {
            Some(s) => u32_of(trimmed(s)),
            None => None,
        },
    }
}

/// The first string a value gives: the string, or an array's first element when a string.
pub open spec fn value_first_string(e: EntryView) -> Option<Seq<char>> {
    match e.2 {
        Some(s) => Some(s),
        None => match e.4 {
            Some(items) => if items.len() > 0 { items[0].0 } else { None },
            None => None,
        },
    }
}

/// The bed type the members among the first `n` give: the first `bed_type` or
/// `curr_bed_type` member sets it while it is unset.
pub open spec fn bed_fold(es: Seq<EntryView>, n: nat) -> Option<Seq<char>>
    decreases n,
{
    if n == 0 || n > es.len() {
        None
    } else {
        let b = bed_fold(es, (n - 1) as nat);
        let e = es[n - 1];
        if (e.0 == "bed_type"@ || e.0 == "curr_bed_type"@) && b is None {
            value_first_string(e)
        } else {
            b
        }
    }
}

/// The bed type: a string `curr_bed_type` wins, else what [`bed_fold`] gives.
pub open spec fn bed_type_of(es: Seq<EntryView>) -> Option<Seq<char>> {
    match member_text(es, "curr_bed_type"@) {
        Some(s) => Some(s),
        None => bed_fold(es, es.len()),
    }
}

/// Keys of project settings with fields of their own.
pub open spec fn project_key(k: Seq<char>) -> bool {
    k == "printer_model"@ || k == "inherits"@ || k == "bed_type"@ || k == "curr_bed_type"@ || k == "layer_height"@
        || k == "first_layer_height"@ || k == "filament_type"@ || k == "filament_colour"@ || k == "nozzle_diameter"@
        || k == "print_sequence"@ || k == "wall_loops"@ || k == "sparse_infill_density"@ || k == "support_type"@
}

/// Keys of profile settings with fields of their own.
pub open spec fn profile_key(k: Seq<char>) -> bool {
    k == "inherits"@ || k == "name"@
}

/// The other settings among the first `n` members, each set as [`set_pair`] does, leaving
/// out G-code members and the keys `known` accepts.
pub open spec fn extras_fold(es: Seq<EntryView>, n: nat, known: spec_fn(Seq<char>) -> bool) -> Seq<(Seq<char>, Seq<char>)>
    decreases n,
{
    if n == 0 || n > es.len() {
        Seq::empty()
    } else {
        let x = extras_fold(es, (n - 1) as nat, known);
        let e = es[n - 1];
        if gcode_key(e.0) || known(e.0) { x } else { set_pair(x, e.0, e.1) }
    }
}

/// Whether `r` holds the project settings the members give.
pub open spec fn project_settings_from(r: BambuProjectSettings, es: Seq<EntryView>) -> bool {
    &&& opt_view(r.printer_model) == member_text(es, "printer_model"@)
    &&& opt_view(r.printer_inherits) == member_text(es, "inherits"@)
    &&& opt_view(r.bed_type) == bed_type_of(es)
    &&& match r.layer_height { Some(d) => Some(decimal_view(d)), None => None } == match member(es, "layer_height"@) {
        Some(e) => value_decimal(e),
        None => None,
    }
    &&& match r.first_layer_height { Some(d) => Some(decimal_view(d)), None => None } == match member(es, "first_layer_height"@) {
        Some(e) => value_decimal(e),
        None => None,
    }
    &&& r.filament_type@.map_values(|s: String| s@) == match member(es, "filament_type"@) {
        Some(e) => value_strings(e),
        None => Seq::empty(),
    }
    &&& r.filament_colour@.map_values(|s: String| s@) == match member(es, "filament_colour"@) {
        Some(e) => value_strings(e),
        None => Seq::empty(),
    }
    &&& decimals_view(r.nozzle_diameter@) == match member(es, "nozzle_diameter"@) {
        Some(e) => value_decimals(e),
        None => Seq::empty(),
    }
    &&& opt_view(r.print_sequence) == member_text(es, "print_sequence"@)
    &&& r.wall_loops == match member(es, "wall_loops"@) {
        Some(e) => value_u32(e),
        None => None,
    }
    &&& opt_view(r.infill_density) == member_text(es, "sparse_infill_density"@)
    &&& opt_view(r.support_type) == member_text(es, "support_type"@)
    &&& pairs_view(r.extras@) == extras_fold(es, es.len(), |k: Seq<char>| project_key(k))
}

/// The project settings of a `project_settings.config` file: as [`project_settings_from`]
/// describes for the members of its JSON object, and nothing set when the content is empty
/// or not a JSON object.
pub open spec fn project_settings_of(r: BambuProjectSettings, content: Seq<u8>) -> bool {
    match (if content.len() == 0 { None } else { json_object_entries(content) }) {
        Some(es) => project_settings_from(r, es),
        None => project_settings_from(r, Seq::empty()),
    }
}

fn copy_string_opt(s: &Option<String>) -> (r: Option<String>)
    ensures
        opt_view(r) == opt_view(*s),
{
    match s {
        Some(t) => Some(t.clone()),
        None => None,
    }
}

fn entry_decimal(e: &JsonEntry) -> (r: Option<DecimalText>)
    ensures
        match r { Some(d) => Some(decimal_view(d)), None => None } == value_decimal(crate::parser::json_value::entry_view(*e)),
{
    match &e.number {
        Some(n) => Some(DecimalText::Number(n.text.clone())),
        None => match &e.text {
            Some(s) => Some(DecimalText::Text(s.clone())),
            None => None,
        },
    }
}

fn entry_strings(e: &JsonEntry) -> (r: Vec<String>)
    ensures
        r@.map_values(|s: String| s@) == value_strings(crate::parser::json_value::entry_view(*e)),
{
    let mut out: Vec<String> = Vec::new();
    match &e.items {
        Some(items) => {
            let ghost iv = items@.map_values(|i: JsonItem| crate::parser::json_value::item_view(i));
            let mut k: usize = 0;
            while k < items.len()
                invariant
                    k <= items@.len(),
                    iv == items@.map_values(|i: JsonItem| crate::parser::json_value::item_view(i)),
                    out@.map_values(|s: String| s@) == item_strings(iv.take(k as int)),
                decreases items@.len() - k,
            {
                proof {
                    assert(iv.take(k + 1).drop_last() =~= iv.take(k as int));
                }
                let ghost before = out@;
                if let Some(s) = &items[k].text {
                    out.push(s.clone());
                    proof {
                        assert(out@.map_values(|s: String| s@) =~= before.map_values(|s: String| s@) + seq![s@]);
                    }
                } else {
                    proof {
                        assert(item_strings(iv.take(k + 1)) =~= item_strings(iv.take(k as int)));
                    }
                }
                k = k + 1;
            }
            proof {
                assert(iv.take(items@.len() as int) =~= iv);
            }
        },
        None => {
            if let Some(s) = &e.text {
                out.push(s.clone());
                proof {
                    assert(out@.map_values(|s: String| s@) =~= seq![s@]);
                }
            } else {
                proof {
                    assert(out@.map_values(|s: String| s@) =~= Seq::<Seq<char>>::empty());
                }
            }
        },
    }
    out
}

fn entry_decimals(e: &JsonEntry) -> (r: Vec<DecimalText>)
    ensures
        decimals_view(r@) == value_decimals(crate::parser::json_value::entry_view(*e)),
{
    let mut out: Vec<DecimalText> = Vec::new();
    match &e.items {
        Some(items) => {
            let ghost iv = items@.map_values(|i: JsonItem| crate::parser::json_value::item_view(i));
            let mut k: usize = 0;
            while k < items.len()
                invariant
                    k <= items@.len(),
                    iv == items@.map_values(|i: JsonItem| crate::parser::json_value::item_view(i)),
                    decimals_view(out@) == item_decimals(iv.take(k as int)),
                decreases items@.len() - k,
            {
                proof {
                    assert(iv.take(k + 1).drop_last() =~= iv.take(k as int));
                }
                let ghost before = out@;
                match &items[k].number {
                    Some(t) => {
                        let d = DecimalText::Number(t.clone());
                        out.push(d);
                        proof {
                            assert(decimals_view(out@) =~= decimals_view(before) + seq![decimal_view(d)]);
                        }
                    },
                    None => match &items[k].text {
                        Some(s) => {
                            let d = DecimalText::Text(s.clone());
                            out.push(d);
                            proof {
                                assert(decimals_view(out@) =~= decimals_view(before) + seq![decimal_view(d)]);
                            }
                        },
                        None => {
                            proof {
                                assert(item_decimals(iv.take(k + 1)) =~= item_decimals(iv.take(k as int)));
                            }
                        },
                    },
                }
                k = k + 1;
            }
            proof {
                assert(iv.take(items@.len() as int) =~= iv);
            }
        },
        None => {
            if let Some(d) = entry_decimal(e) {
                out.push(d);
                proof {
                    assert(decimals_view(out@) =~= seq![decimal_view(d)]);
                }
            } else {
                proof {
                    assert(decimals_view(out@) =~= Seq::<DecimalView>::empty());
                }
            }
        },
    }
    out
}

fn entry_u32(e: &JsonEntry) -> (r: Option<u32>)
    ensures
        r == value_u32(crate::parser::json_value::entry_view(*e)),
{
    match &e.number {
        Some(n) => match n.whole {
            Some(x) => Some(x as u32),
            None => None,
        },
        None => match &e.text {
            Some(s) => {
                let t = trim(s.as_str());
                parse_u32(t.as_str())
            },
            None => None,
        },
    }
}

fn entry_first_string(e: &JsonEntry) -> (r: Option<String>)
    ensures
        opt_view(r) == value_first_string(crate::parser::json_value::entry_view(*e)),
{
    match &e.text {
        Some(s) => Some(s.clone()),
        None => match &e.items {
            Some(items) => if items.len() > 0 { copy_string_opt(&items[0].text) } else { None },
            None => None,
        },
    }
}

/// Reads `Metadata/project_settings.config` (JSON): typed fields for the main settings and
/// the other members (G-code left out) as JSON texts, as [`project_settings_of`] describes.
/// Empty or unreadable content gives settings with nothing set.
pub fn parse_project_settings(content: &[u8]) -> (r: Result<BambuProjectSettings, Lib3mfError>)
    ensures
        r matches Ok(s) && project_settings_of(s, content@),
{
    let mut s = BambuProjectSettings {
        printer_model: None,
        printer_inherits: None,
        bed_type: None,
        layer_height: None,
        first_layer_height: None,
        filament_type: Vec::new(),
        filament_colour: Vec::new(),
        nozzle_diameter: Vec::new(),
        print_sequence: None,
        wall_loops: None,
        infill_density: None,
        support_type: None,
        extras: Vec::new(),
    };
    proof {
        assert(s.filament_type@.map_values(|s: String| s@) =~= Seq::<Seq<char>>::empty());
        assert(s.filament_colour@.map_values(|s: String| s@) =~= Seq::<Seq<char>>::empty());
        assert(decimals_view(s.nozzle_diameter@) =~= Seq::<DecimalView>::empty());
        assert(pairs_view(s.extras@) =~= Seq::<(Seq<char>, Seq<char>)>::empty());
        assert(project_settings_from(s, Seq::empty()));
    }
    if content.len() == 0 {
        return Ok(s);
    }
    let entries = match read_json_object(content) {
        Some(v) => v,
        None => return Ok(s),
    };
    let ghost es = entries_view(entries@);
    let mut bed_set_by_fold: Option<String> = None;
    let mut i: usize = 0;
    while i < entries.len()
        invariant
            i <= entries@.len(),
            es == entries_view(entries@),
            opt_view(s.printer_model) == member_text(es.take(i as int), "printer_model"@),
            opt_view(s.printer_inherits) == member_text(es.take(i as int), "inherits"@),
            opt_view(bed_set_by_fold) == bed_fold(es.take(i as int), i as nat),
            s.bed_type is None,
            match s.layer_height { Some(d) => Some(decimal_view(d)), None => None } == match member(es.take(i as int), "layer_height"@) {
                Some(e) => value_decimal(e),
                None => None,
            },
            match s.first_layer_height { Some(d) => Some(decimal_view(d)), None => None } == match member(es.take(i as int), "first_layer_height"@) {
                Some(e) => value_decimal(e),
                None => None,
            },
            s.filament_type@.map_values(|s: String| s@) == match member(es.take(i as int), "filament_type"@) {
                Some(e) => value_strings(e),
                None => Seq::empty(),
            },
            s.filament_colour@.map_values(|s: String| s@) == match member(es.take(i as int), "filament_colour"@) {
                Some(e) => value_strings(e),
                None => Seq::empty(),
            },
            decimals_view(s.nozzle_diameter@) == match member(es.take(i as int), "nozzle_diameter"@) {
                Some(e) => value_decimals(e),
                None => Seq::empty(),
            },
            opt_view(s.print_sequence) == member_text(es.take(i as int), "print_sequence"@),
            s.wall_loops == match member(es.take(i as int), "wall_loops"@) {
                Some(e) => value_u32(e),
                None => None,
            },
            opt_view(s.infill_density) == member_text(es.take(i as int), "sparse_infill_density"@),
            opt_view(s.support_type) == member_text(es.take(i as int), "support_type"@),
            pairs_view(s.extras@) == extras_fold(es.take(i as int), i as nat, |k: Seq<char>| project_key(k)),
        decreases entries@.len() - i,
    {
        let e = &entries[i];
        let k = e.key.as_str();
        proof {
            assert(es.take(i + 1).drop_last() =~= es.take(i as int));
            assert(es.take(i + 1).last() == crate::parser::json_value::entry_view(*e));
            assert(es.take(i + 1)[i as int] == es[i as int]);
            assert forall|j: int| 0 <= j < i implies es.take(i + 1)[j] == es.take(i as int)[j] by {}
            lemma_folds_prefix(es.take(i + 1), i as nat);
            lemma_key_shapes();
        }
        if same_text(k, "bed_type") || same_text(k, "curr_bed_type") {
            if bed_set_by_fold.is_none() {
                bed_set_by_fold = entry_first_string(e);
            }
        }
        if same_text(k, "printer_model") {
            s.printer_model = copy_string_opt(&e.text);
        } else if same_text(k, "inherits") {
            s.printer_inherits = copy_string_opt(&e.text);
        } else if same_text(k, "bed_type") || same_text(k, "curr_bed_type") {
        } else if same_text(k, "layer_height") {
            s.layer_height = entry_decimal(e);
        } else if same_text(k, "first_layer_height") {
            s.first_layer_height = entry_decimal(e);
        } else if same_text(k, "filament_type") {
            s.filament_type = entry_strings(e);
        } else if same_text(k, "filament_colour") {
            s.filament_colour = entry_strings(e);
        } else if same_text(k, "nozzle_diameter") {
            s.nozzle_diameter = entry_decimals(e);
        } else if same_text(k, "print_sequence") {
            s.print_sequence = copy_string_opt(&e.text);
        } else if same_text(k, "wall_loops") {
            s.wall_loops = entry_u32(e);
        } else if same_text(k, "sparse_infill_density") {
            s.infill_density = copy_string_opt(&e.text);
        } else if same_text(k, "support_type") {
            s.support_type = copy_string_opt(&e.text);
        } else if !is_gcode_key(k) {
            set_override(&mut s.extras, e.key.clone(), e.json.clone());
        }
        i = i + 1;
    }
    proof {
        assert(es.take(entries@.len() as int) =~= es);
    }
    let curr = find_text(&entries, "curr_bed_type");
    s.bed_type = match curr {
        Some(c) => Some(c),
        None => bed_set_by_fold,
    };
    Ok(s)
}

/// The folds over a prefix agree with the folds over the whole prefix sequence.
proof fn lemma_folds_prefix(es: Seq<EntryView>, n: nat)
    requires
        n + 1 == es.len(),
    ensures
        bed_fold(es, n) == bed_fold(es.drop_last(), n),
        extras_fold(es, n, |k: Seq<char>| project_key(k)) == extras_fold(es.drop_last(), n, |k: Seq<char>| project_key(k)),
        extras_fold(es, n, |k: Seq<char>| profile_key(k)) == extras_fold(es.drop_last(), n, |k: Seq<char>| profile_key(k)),
{
    lemma_folds_agree(es, es.drop_last(), n);
}

/// Folds over the first `n` members depend on those members only.
proof fn lemma_folds_agree(a: Seq<EntryView>, b: Seq<EntryView>, n: nat)
    requires
        n <= a.len(),
        n <= b.len(),
        forall|j: int| 0 <= j < n ==> a[j] == b[j],
    ensures
        bed_fold(a, n) == bed_fold(b, n),
        extras_fold(a, n, |k: Seq<char>| project_key(k)) == extras_fold(b, n, |k: Seq<char>| project_key(k)),
        extras_fold(a, n, |k: Seq<char>| profile_key(k)) == extras_fold(b, n, |k: Seq<char>| profile_key(k)),
    decreases n,
{
    if n > 0 {
        lemma_folds_agree(a, b, (n - 1) as nat);
    }
}

/// The lengths and first letters of the setting keys, which tell them apart.
proof fn lemma_key_shapes()
    ensures
        "printer_model"@.len() == 13,
        "printer_model"@[0] == 'p',
        "inherits"@.len() == 8,
        "inherits"@[0] == 'i',
        "bed_type"@.len() == 8,
        "bed_type"@[0] == 'b',
        "curr_bed_type"@.len() == 13,
        "curr_bed_type"@[0] == 'c',
        "layer_height"@.len() == 12,
        "layer_height"@[0] == 'l',
        "first_layer_height"@.len() == 18,
        "first_layer_height"@[0] == 'f',
        "filament_type"@.len() == 13,
        "filament_type"@[0] == 'f',
        "filament_colour"@.len() == 15,
        "filament_colour"@[0] == 'f',
        "nozzle_diameter"@.len() == 15,
        "nozzle_diameter"@[0] == 'n',
        "print_sequence"@.len() == 14,
        "print_sequence"@[0] == 'p',
        "wall_loops"@.len() == 10,
        "wall_loops"@[0] == 'w',
        "sparse_infill_density"@.len() == 21,
        "sparse_infill_density"@[0] == 's',
        "support_type"@.len() == 12,
        "support_type"@[0] == 's',
        "name"@.len() == 4,
        "name"@[0] == 'n',
{
    reveal_strlit("printer_model");
    reveal_strlit("inherits");
    reveal_strlit("bed_type");
    reveal_strlit("curr_bed_type");
    reveal_strlit("layer_height");
    reveal_strlit("first_layer_height");
    reveal_strlit("filament_type");
    reveal_strlit("filament_colour");
    reveal_strlit("nozzle_diameter");
    reveal_strlit("print_sequence");
    reveal_strlit("wall_loops");
    reveal_strlit("sparse_infill_density");
    reveal_strlit("support_type");
    reveal_strlit("name");
}

/// The string value of the last member with key `key`, if it is a string.
fn find_text(entries: &Vec<JsonEntry>, key: &str) -> (r: Option<String>)
    ensures
        opt_view(r) == member_text(entries_view(entries@), key@),
{
    let ghost es = entries_view(entries@);
    let mut i: usize = entries.len();
    proof {
        assert(es.take(i as int) =~= es);
    }
    while i > 0
        invariant
            i <= entries@.len(),
            es == entries_view(entries@),
            member(es, key@) == member(es.take(i as int), key@),
        decreases i,
    {
        proof {
            assert(es.take(i as int).drop_last() =~= es.take(i - 1));
            assert(es.take(i as int).last() == crate::parser::json_value::entry_view(entries@[i - 1]));
        }
        if same_text(entries[i - 1].key.as_str(), key) {
            return copy_string_opt(&entries[i - 1].text);
        }
        i = i - 1;
    }
    None
}

/// Whether `r` holds the profile settings the members give, for the given kind and index.
pub open spec fn profile_config_from(r: BambuProfileConfig, es: Seq<EntryView>, config_type: Seq<char>, index: u32) -> bool {
    &&& r.config_type@ == config_type
    &&& r.index == index
    &&& opt_view(r.inherits) == member_text(es, "inherits"@)
    &&& opt_view(r.name) == member_text(es, "name"@)
    &&& pairs_view(r.extras@) == extras_fold(es, es.len(), |k: Seq<char>| profile_key(k))
}

/// Reads a slicer profile (`filament_settings_N.config` and the like, JSON) of the given
/// kind and index: `inherits` and `name`, and the other members (G-code left out) as JSON
/// texts. Empty or unreadable content gives a profile with only kind and index.
pub fn parse_profile_config(content: &[u8], config_type: &str, index: u32) -> (r: Result<BambuProfileConfig, Lib3mfError>)
    ensures
        r matches Ok(p) && profile_config_from(p, match (if content@.len() == 0 { None } else { json_object_entries(content@) }) {
            Some(es) => es,
            None => Seq::empty(),
        }, config_type@, index),
{
    let mut p = BambuProfileConfig { config_type: String::from_str(config_type), index, inherits: None, name: None, extras: Vec::new() };
    proof {
        assert(pairs_view(p.extras@) =~= Seq::<(Seq<char>, Seq<char>)>::empty());
    }
    if content.len() == 0 {
        return Ok(p);
    }
    let entries = match read_json_object(content) {
        Some(v) => v,
        None => return Ok(p),
    };
    let ghost es = entries_view(entries@);
    let mut i: usize = 0;
    while i < entries.len()
        invariant
            i <= entries@.len(),
            es == entries_view(entries@),
            p.config_type@ == config_type@,
            p.index == index,
            opt_view(p.inherits) == member_text(es.take(i as int), "inherits"@),
            opt_view(p.name) == member_text(es.take(i as int), "name"@),
            pairs_view(p.extras@) == extras_fold(es.take(i as int), i as nat, |k: Seq<char>| profile_key(k)),
        decreases entries@.len() - i,
    {
        let e = &entries[i];
        let k = e.key.as_str();
        proof {
            assert(es.take(i + 1).drop_last() =~= es.take(i as int));
            assert(es.take(i + 1).last() == crate::parser::json_value::entry_view(*e));
            lemma_folds_prefix(es.take(i + 1), i as nat);
            lemma_key_shapes();
        }
        if same_text(k, "inherits") {
            p.inherits = copy_string_opt(&e.text);
        } else if same_text(k, "name") {
            p.name = copy_string_opt(&e.text);
        } else if !is_gcode_key(k) {
            set_override(&mut p.extras, e.key.clone(), e.json.clone());
        }
        i = i + 1;
    }
    proof {
        assert(es.take(entries@.len() as int) =~= es);
    }
    Ok(p)
}

} // verus!
