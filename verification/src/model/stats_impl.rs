//! Statistics helpers.

use vstd::prelude::*;
use crate::archive::ArchiveReader;
use crate::archive::opc::{RelView, Relationship, parse_relationships, rels_view};
use crate::error::Lib3mfError;
use crate::model::core_model::{Model, lookup_value};
use crate::model::mesh::{ObjectType, object_type_name};
use crate::model::resolver::{
    ErrorKey, MeshView, PartResolver, ResolvedMesh, WalkView, error_key, extended, resolved_as,
    walk_items_spec,
};
use crate::model::stats::{
    BambuProfileConfig, BambuProjectSettings, DecimalText, FilamentInfo, GeometryStats, ModelStats,
    ProductionStats, SlicerWarning, ThumbnailStats, VendorData, displacement_upto, thumbnails_upto,
};
use crate::utils::hardware::HardwareCapabilities;
use crate::parser::bambu_config::{
    ModelSettingsData, SliceFilamentUsage, SliceInfoData, SlicePlateInfo, WarningView, decimal_view,
    parse_model_settings, parse_profile_config, parse_project_settings, parse_slice_info, warning_view,
    warnings_view,
};
use crate::parser::xml_parser::{attrs_view, copy_pairs, opt_view};
use crate::parser::json_value::{EntryView, json_object_entries};
use crate::parser::bambu_config::{profile_config_from, slice_info_of, slice_info_view, model_settings_of, settings_view, project_settings_of};
use crate::archive::opc::relationships_of;
use crate::text::{decimal, push_char, push_decimal, same_text};

verus! {

/// The text of a duration of `t` seconds: hours, minutes and seconds, leaving out
/// zero parts after the first non-zero one ("31m 35s", "2h", "1h 1m 1s"); "0s" for zero.
pub open spec fn duration_text(t: nat) -> Seq<char> {
    let h = t / 3600;
    let m = (t % 3600) / 60;
    let s = t % 60;
    if h > 0 {
        if s > 0 {
            decimal(h) + "h "@ + decimal(m) + "m "@ + decimal(s) + "s"@
        } else if m > 0 {
            decimal(h) + "h "@ + decimal(m) + "m"@
        } else {
            decimal(h) + "h"@
        }
    } else if m > 0 {
        if s > 0 {
            decimal(m) + "m "@ + decimal(s) + "s"@
        } else {
            decimal(m) + "m"@
        }
    } else {
        decimal(s) + "s"@
    }
}

/// Formats seconds as a human-readable duration (e.g. "31m 35s", "2h 15m 3s").
pub fn format_duration(total_secs: u32) -> (r: String)
    ensures
        r@ == duration_text(total_secs as nat),
{
    let hours = total_secs / 3600;
    let minutes = (total_secs % 3600) / 60;
    let seconds = total_secs % 60;
    let mut s = String::new();
    if hours > 0 {
        push_decimal(&mut s, hours as u64);
        if seconds > 0 {
            s.append("h ");
            push_decimal(&mut s, minutes as u64);
            s.append("m ");
            push_decimal(&mut s, seconds as u64);
            s.append("s");
        } else if minutes > 0 {
            s.append("h ");
            push_decimal(&mut s, minutes as u64);
            s.append("m");
        } else {
            s.append("h");
        }
    } else if minutes > 0 {
        push_decimal(&mut s, minutes as u64);
        if seconds > 0 {
            s.append("m ");
            push_decimal(&mut s, seconds as u64);
            s.append("s");
        } else {
            s.append("m");
        }
    } else {
        push_decimal(&mut s, seconds as u64);
        s.append("s");
    }
    proof {
        let t = total_secs as nat;
        assert(Seq::<char>::empty() + decimal(hours as nat) =~= decimal(hours as nat));
        assert(Seq::<char>::empty() + decimal(minutes as nat) =~= decimal(minutes as nat));
        assert(Seq::<char>::empty() + decimal(seconds as nat) =~= decimal(seconds as nat));
        assert(s@ =~= duration_text(t));
    }
    s
}

/// The text without its space characters.
pub open spec fn unspaced_text(s: Seq<char>) -> Seq<char> {
    s.filter(|c: char| c != ' ')
}

/// The text with its space characters removed (`str::replace(' ', "")`).
fn remove_spaces(s: &str) -> (r: String)
    ensures
        r@ == unspaced_text(s@),
{
    let n = s.unicode_len();
    let mut r = String::new();
    let mut i: usize = 0;
    proof {
        reveal(Seq::filter);
        assert(s@.take(0) =~= Seq::<char>::empty());
    }
    while i < n
        invariant
            n == s@.len(),
            i <= n,
            r@ == unspaced_text(s@.take(i as int)),
        decreases n - i,
    {
        let c = s.get_char(i);
        proof {
            reveal(Seq::filter);
            assert(s@.take(i + 1).drop_last() =~= s@.take(i as int));
            assert(s@.take(i + 1).last() == c);
        }
        if c != ' ' {
            push_char(&mut r, c);
        }
        i = i + 1;
    }
    proof {
        assert(s@.take(n as int) =~= s@);
    }
    r
}

/// The slicer version of slice info: the client type (`BambuStudio` when not given)
/// without spaces, a hyphen and the client version.
pub open spec fn slicer_version_text(client_type: Option<Seq<char>>, version: Seq<char>) -> Seq<char> {
    unspaced_text(match client_type {
        Some(t) => t,
        None => "BambuStudio"@,
    }) + "-"@ + version
}

/// The sum of the plates' print time predictions, in seconds.
pub open spec fn prediction_total(plates: Seq<SlicePlateInfo>) -> nat
    decreases plates.len(),
{
    if plates.len() == 0 {
        0
    } else {
        prediction_total(plates.drop_last()) + match plates.last().prediction {
            Some(p) => p as nat,
            None => 0,
        }
    }
}

/// The plates' slicer warnings, plate by plate.
pub open spec fn plate_warnings(plates: Seq<SlicePlateInfo>) -> Seq<WarningView>
    decreases plates.len(),
{
    if plates.len() == 0 {
        Seq::empty()
    } else {
        plate_warnings(plates.drop_last()) + warnings_view(plates.last().warnings@)
    }
}

/// A filament as values.
pub type FilamentInfoView = (u32, Option<Seq<char>>, Seq<char>, Option<Seq<char>>, Option<Seq<char>>, Option<Seq<char>>);

/// The filament a usage of slice info describes (an absent type is empty).
pub open spec fn filament_of_usage(f: SliceFilamentUsage) -> FilamentInfoView {
    (f.id, opt_view(f.tray_info_idx), match f.type_ {
        Some(t) => t@,
        None => Seq::empty(),
    }, opt_view(f.color), opt_view(f.used_m), opt_view(f.used_g))
}

/// A filament as values.
pub open spec fn filament_info_view(f: FilamentInfo) -> FilamentInfoView {
    (f.id, opt_view(f.tray_info_idx), f.type_@, opt_view(f.color), opt_view(f.used_m), opt_view(f.used_g))
}

/// The filaments of the first plate of slice info.
pub open spec fn first_plate_filaments(plates: Seq<SlicePlateInfo>) -> Seq<FilamentInfoView> {
    if plates.len() == 0 {
        Seq::empty()
    } else {
        plates[0].filaments@.map_values(|f: SliceFilamentUsage| filament_of_usage(f))
    }
}

/// The first of the profiles that is a machine profile.
pub open spec fn first_machine(profiles: Seq<BambuProfileConfig>) -> Option<BambuProfileConfig>
    decreases profiles.len(),
{
    if profiles.len() == 0 {
        None
    } else {
        match first_machine(profiles.drop_last()) {
            Some(c) => Some(c),
            None => if profiles.last().config_type@ == "machine"@ {
                Some(profiles.last())
            } else {
                None
            },
        }
    }
}

/// The first of two optional texts that is given.
pub open spec fn or_text(a: Option<Seq<char>>, b: Option<Seq<char>>) -> Option<Seq<char>> {
    match a {
        Some(t) => Some(t),
        None => b,
    }
}

/// The printer model: the profile the project's printer inherits from, else the project's
/// printer model, else that of the first machine profile (its parent, else its name).
pub open spec fn printer_model_of(project: Option<BambuProjectSettings>, profiles: Seq<BambuProfileConfig>) -> Option<Seq<char>> {
    let from_project = match project {
        Some(p) => or_text(opt_view(p.printer_inherits), opt_view(p.printer_model)),
        None => None,
    };
    match from_project {
        Some(t) => Some(t),
        None => match first_machine(profiles) {
            Some(c) => or_text(opt_view(c.inherits), opt_view(c.name)),
            None => None,
        },
    }
}

/// The relationship type of the medium cover thumbnail.
pub open spec fn cover_middle_type() -> Seq<char> {
    "http://schemas.bambulab.com/package/2021/cover-thumbnail-middle"@
}

/// The relationship type of the small cover thumbnail.
pub open spec fn cover_small_type() -> Seq<char> {
    "http://schemas.bambulab.com/package/2021/cover-thumbnail-small"@
}

/// The relationship type of embedded G-code.
pub open spec fn gcode_type() -> Seq<char> {
    "http://schemas.bambulab.com/package/2021/gcode"@
}

/// The target of the first cover thumbnail relationship.
pub open spec fn first_cover(rels: Seq<RelView>) -> Option<Seq<char>>
    decreases rels.len(),
{
    if rels.len() == 0 {
        None
    } else {
        match first_cover(rels.drop_last()) {
            Some(t) => Some(t),
            None => if rels.last().1 == cover_middle_type() || rels.last().1 == cover_small_type() {
                Some(rels.last().2)
            } else {
                None
            },
        }
    }
}

/// The target of the last G-code relationship.
pub open spec fn last_gcode(rels: Seq<RelView>) -> Option<Seq<char>>
    decreases rels.len(),
{
    if rels.len() == 0 {
        None
    } else if rels.last().1 == gcode_type() {
        Some(rels.last().2)
    } else {
        last_gcode(rels.drop_last())
    }
}

fn copy_opt(o: &Option<String>) -> (r: Option<String>)
    ensures
        opt_view(r) == opt_view(*o),
{
    match o {
        Some(t) => Some(t.clone()),
        None => None,
    }
}

fn copy_warning(w: &SlicerWarning) -> (r: SlicerWarning)
    ensures
        warning_view(r) == warning_view(*w),
{
    SlicerWarning { msg: w.msg.clone(), level: copy_opt(&w.level), error_code: copy_opt(&w.error_code) }
}

fn copy_decimal(d: &DecimalText) -> (r: DecimalText)
    ensures
        decimal_view(r) == decimal_view(*d),
{
    match d {
        DecimalText::Number(t) => DecimalText::Number(t.clone()),
        DecimalText::Text(t) => DecimalText::Text(t.clone()),
    }
}

/// The total of the predictions where it fits in 32 bits.
pub open spec fn fitting_total(plates: Seq<SlicePlateInfo>) -> Option<u32> {
    if prediction_total(plates) <= u32::MAX {
        Some(prediction_total(plates) as u32)
    } else {
        None
    }
}

/// The plates' predicted print times added up (`None` past 32 bits), and their warnings
/// in order.
fn plate_totals(plates: &Vec<SlicePlateInfo>) -> (r: (Option<u32>, Vec<SlicerWarning>))
    ensures
        r.0 == fitting_total(plates@),
        warnings_view(r.1@) == plate_warnings(plates@),
{
    let mut total: Option<u32> = Some(0);
    let mut warnings: Vec<SlicerWarning> = Vec::new();
    let mut i: usize = 0;
    proof {
        assert(plates@.take(0) =~= Seq::<SlicePlateInfo>::empty());
        assert(warnings_view(warnings@) =~= Seq::<WarningView>::empty());
    }
    while i < plates.len()
        invariant
            i <= plates@.len(),
            total == fitting_total(plates@.take(i as int)),
            warnings_view(warnings@) == plate_warnings(plates@.take(i as int)),
        decreases plates@.len() - i,
    {
        proof {
            assert(plates@.take(i + 1).drop_last() =~= plates@.take(i as int));
            assert(plates@.take(i + 1).last() == plates@[i as int]);
        }
        let plate = &plates[i];
        if let Some(p) = plate.prediction {
            total = match total {
                Some(t) => t.checked_add(p),
                None => None,
            };
        }
        let ws = &plate.warnings;
        let ghost before = warnings_view(warnings@);
        let mut j: usize = 0;
        while j < ws.len()
            invariant
                j <= ws@.len(),
                warnings_view(warnings@) == before + warnings_view(ws@.take(j as int)),
            decreases ws@.len() - j,
        {
            let w = copy_warning(&ws[j]);
            let ghost prev = warnings@;
            warnings.push(w);
            proof {
                assert(warnings_view(warnings@) =~= warnings_view(prev).push(warning_view(ws@[j as int])));
                assert(warnings_view(ws@.take(j + 1)) =~= warnings_view(ws@.take(j as int)).push(warning_view(ws@[j as int])));
                assert(warnings_view(warnings@) =~= before + warnings_view(ws@.take(j + 1)));
            }
            j = j + 1;
        }
        proof {
            assert(ws@.take(j as int) =~= ws@);
            assert(warnings_view(warnings@) =~= plate_warnings(plates@.take(i + 1)));
        }
        i = i + 1;
    }
    proof {
        assert(plates@.take(i as int) =~= plates@);
    }
    (total, warnings)
}

/// The filaments of the first plate.
fn first_plate_filament_infos(plates: &Vec<SlicePlateInfo>) -> (r: Vec<FilamentInfo>)
    ensures
        r@.map_values(|f: FilamentInfo| filament_info_view(f)) == first_plate_filaments(plates@),
{
    let mut out: Vec<FilamentInfo> = Vec::new();
    if plates.len() == 0 {
        proof {
            assert(out@.map_values(|f: FilamentInfo| filament_info_view(f)) =~= Seq::<FilamentInfoView>::empty());
        }
        return out;
    }
    let fs = &plates[0].filaments;
    let mut j: usize = 0;
    while j < fs.len()
        invariant
            j <= fs@.len(),
            plates@.len() > 0,
            fs@ == plates@[0].filaments@,
            out@.map_values(|f: FilamentInfo| filament_info_view(f))
                == fs@.take(j as int).map_values(|f: SliceFilamentUsage| filament_of_usage(f)),
        decreases fs@.len() - j,
    {
        let f = &fs[j];
        let type_ = match &f.type_ {
            Some(t) => t.clone(),
            None => String::new(),
        };
        let info = FilamentInfo {
            id: f.id,
            tray_info_idx: copy_opt(&f.tray_info_idx),
            type_,
            color: copy_opt(&f.color),
            used_m: copy_opt(&f.used_m),
            used_g: copy_opt(&f.used_g),
        };
        let ghost prev = out@;
        out.push(info);
        proof {
            assert(filament_info_view(info) == filament_of_usage(fs@[j as int]));
            assert(out@.map_values(|f: FilamentInfo| filament_info_view(f))
                =~= prev.map_values(|f: FilamentInfo| filament_info_view(f)).push(filament_of_usage(fs@[j as int])));
            assert(fs@.take(j + 1).map_values(|f: SliceFilamentUsage| filament_of_usage(f))
                =~= fs@.take(j as int).map_values(|f: SliceFilamentUsage| filament_of_usage(f)).push(filament_of_usage(fs@[j as int])));
        }
        j = j + 1;
    }
    proof {
        assert(fs@.take(j as int) =~= fs@);
    }
    out
}

/// The index of the first machine profile.
fn find_machine(profiles: &Vec<BambuProfileConfig>) -> (r: Option<usize>)
    ensures
        match r {
            Some(i) => i < profiles@.len() && first_machine(profiles@) == Some(profiles@[i as int]),
            None => first_machine(profiles@) is None,
        },
{
    let mut i: usize = 0;
    proof {
        assert(profiles@.take(0) =~= Seq::<BambuProfileConfig>::empty());
    }
    while i < profiles.len()
        invariant
            i <= profiles@.len(),
            first_machine(profiles@.take(i as int)) is None,
        decreases profiles@.len() - i,
    {
        proof {
            assert(profiles@.take(i + 1).drop_last() =~= profiles@.take(i as int));
        }
        if same_text(profiles[i].config_type.as_str(), "machine") {
            proof {
                lemma_first_machine_prefix(profiles@, i + 1);
            }
            return Some(i);
        }
        i = i + 1;
    }
    proof {
        assert(profiles@.take(i as int) =~= profiles@);
    }
    None
}

/// Once a prefix holds a machine profile, the first one is found in it.
proof fn lemma_first_machine_prefix(profiles: Seq<BambuProfileConfig>, k: int)
    requires
        0 <= k <= profiles.len(),
        first_machine(profiles.take(k)) is Some,
    ensures
        first_machine(profiles) == first_machine(profiles.take(k)),
    decreases profiles.len() - k,
{
    if k < profiles.len() {
        assert(profiles.take(k + 1).drop_last() =~= profiles.take(k));
        lemma_first_machine_prefix(profiles, k + 1);
    } else {
        assert(profiles.take(k) =~= profiles);
    }
}

/// The targets of the first cover thumbnail and of the last G-code relationship.
fn bambu_targets(rels: &Vec<Relationship>) -> (r: (Option<String>, Option<String>))
    ensures
        opt_view(r.0) == first_cover(rels_view(rels@)),
        opt_view(r.1) == last_gcode(rels_view(rels@)),
{
    let mut cover: Option<String> = None;
    let mut gcode: Option<String> = None;
    let mut i: usize = 0;
    proof {
        assert(rels_view(rels@).take(0) =~= Seq::<RelView>::empty());
    }
    while i < rels.len()
        invariant
            i <= rels@.len(),
            opt_view(cover) == first_cover(rels_view(rels@).take(i as int)),
            opt_view(gcode) == last_gcode(rels_view(rels@).take(i as int)),
        decreases rels@.len() - i,
    {
        proof {
            assert(rels_view(rels@).take(i + 1).drop_last() =~= rels_view(rels@).take(i as int));
            assert(rels_view(rels@).take(i + 1).last() == crate::archive::opc::rel_view(rels@[i as int]));
        }
        let t = rels[i].rel_type.as_str();
        if same_text(t, "http://schemas.bambulab.com/package/2021/cover-thumbnail-middle")
            || same_text(t, "http://schemas.bambulab.com/package/2021/cover-thumbnail-small") {
            if cover.is_none() {
                cover = Some(rels[i].target.clone());
            }
        }
        if same_text(t, "http://schemas.bambulab.com/package/2021/gcode") {
            gcode = Some(rels[i].target.clone());
        }
        i = i + 1;
    }
    proof {
        assert(rels_view(rels@).take(i as int) =~= rels_view(rels@));
    }
    (cover, gcode)
}

/// Whether `needle` occurs in `text`.
pub open spec fn contains_text(text: Seq<char>, needle: Seq<char>) -> bool {
    exists|i: int| 0 <= i && i + needle.len() <= text.len() && #[trigger] text.subrange(i, i + needle.len()) == needle
}

/// Whether `needle` occurs in `text` (`str::contains`).
fn has_text(text: &str, needle: &str) -> (r: bool)
    ensures
        r == contains_text(text@, needle@),
{
    let n = text.unicode_len();
    let m = needle.unicode_len();
    if m > n {
        proof {
            assert forall|i: int| 0 <= i && i + needle@.len() <= text@.len() implies #[trigger] text@.subrange(i, i + needle@.len()) != needle@ by {}
        }
        return false;
    }
    let mut i: usize = 0;
    while i <= n - m
        invariant
            n == text@.len(),
            m == needle@.len(),
            m <= n,
            i <= n - m + 1,
            forall|k: int| 0 <= k < i ==> #[trigger] text@.subrange(k, k + m) != needle@,
        decreases n - m + 1 - i,
    {
        let mut j: usize = 0;
        while j < m
            invariant
                n == text@.len(),
                m == needle@.len(),
                i + m <= n,
                j <= m,
                forall|q: int| 0 <= q < j ==> text@[i + q] == needle@[q],
            ensures
                j <= m,
                forall|q: int| 0 <= q < j ==> text@[i + q] == needle@[q],
                j < m ==> text@[i + j] != needle@[j as int],
            decreases m - j,
        {
            if text.get_char(i + j) != needle.get_char(j) {
                break;
            }
            j = j + 1;
        }
        if j == m {
            proof {
                assert(text@.subrange(i as int, i + m) =~= needle@);
            }
            return true;
        }
        proof {
            assert(text@.subrange(i as int, i + m)[j as int] != needle@[j as int]);
        }
        i = i + 1;
    }
    false
}

/// Whether a package was written by Bambu Studio or OrcaSlicer, judged by the generator
/// named in its metadata.
pub open spec fn slicer_generator(application: Seq<char>) -> bool {
    contains_text(application, "Bambu"@) || contains_text(application, "Orca"@)
}

/// An application name is a slicer generator exactly when "Bambu" or "Orca" occurs in it
/// somewhere; so a package whose `Application` metadata holds either has its slicer project
/// data read by [`Model::compute_stats`].
pub proof fn law_slicer_generators(app: Seq<char>, m: Model)
    ensures
        slicer_generator(app) <==> (exists|i: int| 0 <= i && i + "Bambu"@.len() <= app.len()
            && #[trigger] app.subrange(i, i + "Bambu"@.len()) == "Bambu"@)
            || (exists|i: int| 0 <= i && i + "Orca"@.len() <= app.len()
            && #[trigger] app.subrange(i, i + "Orca"@.len()) == "Orca"@),
        lookup_value(m.metadata@, "Application"@) matches Some(g) && (exists|i: int| 0 <= i
            && i + "Orca"@.len() <= g@.len() && #[trigger] g@.subrange(i, i + "Orca"@.len()) == "Orca"@)
            ==> written_by_slicer(m),
        lookup_value(m.metadata@, "Application"@) matches Some(g) && (exists|i: int| 0 <= i
            && i + "Bambu"@.len() <= g@.len() && #[trigger] g@.subrange(i, i + "Bambu"@.len()) == "Bambu"@)
            ==> written_by_slicer(m),
{
}

/// Whether the generator named in a package's metadata is Bambu Studio or OrcaSlicer.
pub fn is_slicer_generator(application: &str) -> (r: bool)
    ensures
        r == slicer_generator(application@),
{
    has_text(application, "Bambu") || has_text(application, "Orca")
}

/// The optional decimal as values.
pub open spec fn opt_decimal_view(d: Option<DecimalText>) -> Option<(bool, Seq<char>)> {
    match d {
        Some(x) => Some(decimal_view(x)),
        None => None,
    }
}

/// Whether `v` is the slicer project data assembled from what was read of a package's slice
/// info, model settings, project settings, profiles and package relationships.
pub open spec fn vendor_from(
    slice_info: Option<SliceInfoData>,
    settings: Option<ModelSettingsData>,
    project: Option<BambuProjectSettings>,
    profiles: Seq<BambuProfileConfig>,
    rels: Option<Vec<Relationship>>,
    v: VendorData,
) -> bool {
    &&& opt_view(v.slicer_version) == match slice_info {
        Some(si) => match si.client_version {
            Some(ver) => Some(slicer_version_text(opt_view(si.client_type), ver@)),
            None => None,
        },
        None => None,
    }
    &&& opt_view(v.print_time_estimate) == match slice_info {
        Some(si) => match fitting_total(si.plates@) {
            Some(t) => if t > 0 { Some(duration_text(t as nat)) } else { None },
            None => None,
        },
        None => None,
    }
    &&& warnings_view(v.slicer_warnings@) == match slice_info {
        Some(si) => plate_warnings(si.plates@),
        None => Seq::empty(),
    }
    &&& v.filaments@.map_values(|f: FilamentInfo| filament_info_view(f)) == match slice_info {
        Some(si) => first_plate_filaments(si.plates@),
        None => Seq::empty(),
    }
    &&& match settings {
        Some(d) => v.plates == d.plates && v.object_metadata == d.objects && v.assembly_info == d.assembly,
        None => v.plates@.len() == 0 && v.object_metadata@.len() == 0 && v.assembly_info@.len() == 0,
    }
    &&& opt_view(v.printer_model) == printer_model_of(project, profiles)
    &&& opt_decimal_view(v.nozzle_diameter) == match project {
        Some(p) => if p.nozzle_diameter@.len() > 0 { Some(decimal_view(p.nozzle_diameter@[0])) } else { None },
        None => None,
    }
    &&& v.project_settings == project
    &&& v.profile_configs@ == profiles
    &&& opt_view(v.bambu_cover_thumbnail) == match rels {
        Some(rs) => first_cover(rels_view(rs@)),
        None => None,
    }
    &&& opt_view(v.bambu_gcode) == match rels {
        Some(rs) => last_gcode(rels_view(rs@)),
        None => None,
    }
}

/// Assembles the slicer project data of a package from what was read of its slice info,
/// model settings, project settings, profiles and package relationships.
pub fn vendor_data_from(
    slice_info: Option<SliceInfoData>,
    settings: Option<ModelSettingsData>,
    project: Option<BambuProjectSettings>,
    profiles: Vec<BambuProfileConfig>,
    rels: Option<Vec<Relationship>>,
) -> (v: VendorData)
    ensures
        vendor_from(slice_info, settings, project, profiles@, rels, v),
{
    let mut slicer_version: Option<String> = None;
    let mut print_time_estimate: Option<String> = None;
    let mut slicer_warnings: Vec<SlicerWarning> = Vec::new();
    let mut filaments: Vec<FilamentInfo> = Vec::new();
    proof {
        assert(warnings_view(slicer_warnings@) =~= Seq::<WarningView>::empty());
        assert(filaments@.map_values(|f: FilamentInfo| filament_info_view(f)) =~= Seq::<FilamentInfoView>::empty());
    }
    if let Some(si) = &slice_info {
        if let Some(ver) = &si.client_version {
            let client = match &si.client_type {
                Some(t) => t.as_str(),
                None => "BambuStudio",
            };
            let mut text = remove_spaces(client);
            text.append("-");
            text.append(ver.as_str());
            slicer_version = Some(text);
        }
        let (total, warnings) = plate_totals(&si.plates);
        if let Some(t) = total {
            if t > 0 {
                print_time_estimate = Some(format_duration(t));
            }
        }
        slicer_warnings = warnings;
        filaments = first_plate_filament_infos(&si.plates);
    }
    let (plates, object_metadata, assembly_info) = match settings {
        Some(d) => (d.plates, d.objects, d.assembly),
        None => (Vec::new(), Vec::new(), Vec::new()),
    };
    let mut printer_model: Option<String> = None;
    let mut nozzle_diameter: Option<DecimalText> = None;
    if let Some(p) = &project {
        printer_model = match &p.printer_inherits {
            Some(t) => Some(t.clone()),
            None => copy_opt(&p.printer_model),
        };
        if p.nozzle_diameter.len() > 0 {
            nozzle_diameter = Some(copy_decimal(&p.nozzle_diameter[0]));
        }
    }
    if printer_model.is_none() {
        if let Some(i) = find_machine(&profiles) {
            printer_model = match &profiles[i].inherits {
                Some(t) => Some(t.clone()),
                None => copy_opt(&profiles[i].name),
            };
        }
    }
    let (bambu_cover_thumbnail, bambu_gcode) = match &rels {
        Some(rs) => bambu_targets(rs),
        None => (None, None),
    };
    VendorData {
        printer_model,
        filaments,
        plates,
        print_time_estimate,
        slicer_version,
        nozzle_diameter,
        slicer_warnings,
        object_metadata,
        project_settings: project,
        profile_configs: profiles,
        assembly_info,
        bambu_cover_thumbnail,
        bambu_gcode,
    }
}

/// The content of an archive entry, where it exists and can be read.
fn read_optional<A: ArchiveReader>(archive: &mut A, name: &str) -> (r: Option<Vec<u8>>)
    ensures
        forall|n: Seq<char>| #[trigger] final(archive).entry(n) == old(archive).entry(n),
        forall|n: Seq<char>| #[trigger] final(archive).has_entry(n) == old(archive).has_entry(n),
        match old(archive).entry(name@) {
            Some(d) => r matches Some(v) && v@ == d,
            None => r is None,
        },
{
    if archive.entry_exists(name) {
        match archive.read_entry(name) {
            Ok(c) => Some(c),
            Err(_) => None,
        }
    } else {
        None
    }
}

/// The kinds of slicer profiles a package may embed.
pub open spec fn profile_kind(kind: Seq<char>) -> bool {
    kind == "filament"@ || kind == "machine"@ || kind == "process"@
}

/// Whether `p` is the profile of the given kind that some content reads as (see
/// [`parse_profile_config`]).
pub open spec fn profile_read(p: BambuProfileConfig, kind: Seq<char>) -> bool {
    exists|content: Seq<u8>| profile_config_from(p, #[trigger] content_entries(content), kind, p.index)
}

/// The members of a JSON object text; none for empty or unreadable content.
pub open spec fn content_entries(content: Seq<u8>) -> Seq<EntryView> {
    match (if content.len() == 0 { None } else { json_object_entries(content) }) {
        Some(es) => es,
        None => Seq::empty(),
    }
}

/// The archive entry of the profile of `kind` with index `n`.
pub open spec fn profile_name(kind: Seq<char>, n: nat) -> Seq<char> {
    "Metadata/"@ + kind + "_settings_"@ + decimal(n) + ".config"@
}

/// Whether `ps` are the profiles of `kind` with index below `n` that the archive with
/// content `entry` holds, in order of index: one for each entry that can be read, as its
/// content reads.
pub open spec fn kind_profiles(entry: spec_fn(Seq<char>) -> Option<Seq<u8>>, kind: Seq<char>, n: nat, ps: Seq<BambuProfileConfig>) -> bool
    decreases n,
{
    if n == 0 {
        ps.len() == 0
    } else {
        match entry(profile_name(kind, (n - 1) as nat)) {
            None => kind_profiles(entry, kind, (n - 1) as nat, ps),
            Some(c) => ps.len() > 0 && profile_config_from(ps.last(), content_entries(c), kind, (n - 1) as u32)
                && kind_profiles(entry, kind, (n - 1) as nat, ps.drop_last()),
        }
    }
}

/// Reads the slicer profiles of one kind (`Metadata/{kind}_settings_{n}.config` for `n`
/// below 16) that exist, in order of `n`, onto `out`. Which exist and what they hold is
/// the archive's answer; each profile appended is what its content reads as.
fn read_profiles<A: ArchiveReader>(archive: &mut A, kind: &str, out: &mut Vec<BambuProfileConfig>)
    ensures
        final(out)@.len() >= old(out)@.len(),
        forall|k: int| 0 <= k < old(out)@.len() ==> final(out)@[k] == old(out)@[k],
        forall|k: int| old(out)@.len() <= k < final(out)@.len()
            ==> (#[trigger] final(out)@[k]).config_type@ == kind@ && final(out)@[k].index < 16,
        forall|k: int| old(out)@.len() <= k < final(out)@.len() ==> profile_read(#[trigger] final(out)@[k], kind@),
        forall|j: int, k: int| old(out)@.len() <= j < k < final(out)@.len() ==> (#[trigger] final(out)@[j]).index < (#[trigger] final(out)@[k]).index,
        forall|x: Seq<char>| #[trigger] final(archive).entry(x) == old(archive).entry(x),
        forall|x: Seq<char>| #[trigger] final(archive).has_entry(x) == old(archive).has_entry(x),
        kind_profiles(|x: Seq<char>| old(archive).entry(x), kind@, 16, final(out)@.skip(old(out)@.len() as int)),
{
    let ghost start = out@;
    let ghost f = |x: Seq<char>| archive.entry(x);
    proof {
        assert(out@.skip(start.len() as int) =~= Seq::<BambuProfileConfig>::empty());
    }
    let mut n: u32 = 0;
    while n < 16
        invariant
            n <= 16,
            out@.len() >= start.len(),
            forall|k: int| 0 <= k < start.len() ==> out@[k] == start[k],
            forall|k: int| start.len() <= k < out@.len()
                ==> (#[trigger] out@[k]).config_type@ == kind@ && out@[k].index < n,
            forall|k: int| start.len() <= k < out@.len() ==> profile_read(#[trigger] out@[k], kind@),
            forall|j: int, k: int| start.len() <= j < k < out@.len() ==> (#[trigger] out@[j]).index < (#[trigger] out@[k]).index,
            forall|x: Seq<char>| #[trigger] archive.entry(x) == old(archive).entry(x),
            forall|x: Seq<char>| #[trigger] archive.has_entry(x) == old(archive).has_entry(x),
            f == (|x: Seq<char>| old(archive).entry(x)),
            kind_profiles(f, kind@, n as nat, out@.skip(start.len() as int)),
        decreases 16 - n,
    {
        let ghost before = out@;
        let mut path = String::from_str("Metadata/");
        path.append(kind);
        path.append("_settings_");
        push_decimal(&mut path, n as u64);
        path.append(".config");
        proof {
            assert(path@ =~= profile_name(kind@, n as nat));
        }
        if let Some(content) = read_optional(archive, path.as_str()) {
            if let Ok(config) = parse_profile_config(content.as_slice(), kind, n) {
                proof {
                    assert(profile_config_from(config, content_entries(content@), kind@, n));
                    assert(profile_read(config, kind@));
                }
                out.push(config);
                proof {
                    assert(out@.skip(start.len() as int).drop_last() =~= before.skip(start.len() as int));
                    assert(out@.skip(start.len() as int).last() == config);
                }
            }
        }
        n = n + 1;
    }
}

/// Whether `si` is what reading slice info content `e` gives (nothing where there is no
/// content).
pub open spec fn slice_read(e: Option<Seq<u8>>, si: Option<SliceInfoData>) -> bool {
    match e {
        None => si is None,
        Some(c) => si matches Some(x) && slice_info_view(x) == slice_info_of(c),
    }
}

/// Whether `ms` is what reading model settings content `e` gives.
pub open spec fn settings_read(e: Option<Seq<u8>>, ms: Option<ModelSettingsData>) -> bool {
    match e {
        None => ms is None,
        Some(c) => ms matches Some(x) && settings_view(x) == model_settings_of(c),
    }
}

/// Whether `ps` is what reading project settings content `e` gives.
pub open spec fn project_read(e: Option<Seq<u8>>, ps: Option<BambuProjectSettings>) -> bool {
    match e {
        None => ps is None,
        Some(c) => ps matches Some(p) && project_settings_of(p, c),
    }
}

/// Whether `rs` is what reading relationship content `e` gives.
pub open spec fn rels_read(e: Option<Seq<u8>>, rs: Option<Vec<Relationship>>) -> bool {
    match e {
        None => rs is None,
        Some(c) => match relationships_of(c) {
            Ok(r) => rs matches Some(x) && rels_view(x@) == r,
            Err(_) => rs is None,
        },
    }
}

/// Whether `v` is the slicer project data that the archive `a` holds: assembled from its
/// slice info, model settings, project settings, the profiles of each kind in order of kind
/// (filament, machine, process) and index, and its package relationships, each as its
/// entry reads (nothing where the entry cannot be read or does not parse).
pub open spec fn vendor_read<A: ArchiveReader>(a: A, v: VendorData) -> bool {
    exists|si: Option<SliceInfoData>, ms: Option<ModelSettingsData>, ps: Option<BambuProjectSettings>,
        pf: Seq<BambuProfileConfig>, pm: Seq<BambuProfileConfig>, pp: Seq<BambuProfileConfig>, rs: Option<Vec<Relationship>>| {
        &&& #[trigger] vendor_from(si, ms, ps, pf + pm + pp, rs, v)
        &&& slice_read(a.entry("Metadata/slice_info.config"@), si)
        &&& settings_read(a.entry("Metadata/model_settings.config"@), ms)
        &&& project_read(a.entry("Metadata/project_settings.config"@), ps)
        &&& kind_profiles(|x: Seq<char>| a.entry(x), "filament"@, 16, pf)
        &&& kind_profiles(|x: Seq<char>| a.entry(x), "machine"@, 16, pm)
        &&& kind_profiles(|x: Seq<char>| a.entry(x), "process"@, 16, pp)
        &&& rels_read(a.entry("_rels/.rels"@), rs)
    }
}

/// Reads the slicer project data of a package: slice info, model settings, project
/// settings, the embedded profiles and the package relationships, each where it exists
/// and can be read and parsed, and assembles them with [`vendor_data_from`].
pub fn collect_vendor_data<A: ArchiveReader>(archive: &mut A) -> (v: VendorData)
    ensures
        forall|x: Seq<char>| #[trigger] final(archive).entry(x) == old(archive).entry(x),
        forall|x: Seq<char>| #[trigger] final(archive).has_entry(x) == old(archive).has_entry(x),
        vendor_read(*old(archive), v),
        forall|k: int| 0 <= k < v.profile_configs@.len()
            ==> profile_kind((#[trigger] v.profile_configs@[k]).config_type@) && v.profile_configs@[k].index < 16,
{
    let slice_info = match read_optional(archive, "Metadata/slice_info.config") {
        Some(c) => match parse_slice_info(c.as_slice()) {
            Ok(si) => Some(si),
            Err(_) => None,
        },
        None => None,
    };
    let settings = match read_optional(archive, "Metadata/model_settings.config") {
        Some(c) => match parse_model_settings(c.as_slice()) {
            Ok(d) => Some(d),
            Err(_) => None,
        },
        None => None,
    };
    let project = match read_optional(archive, "Metadata/project_settings.config") {
        Some(c) => match parse_project_settings(c.as_slice()) {
            Ok(p) => Some(p),
            Err(_) => None,
        },
        None => None,
    };
    let mut profiles: Vec<BambuProfileConfig> = Vec::new();
    proof {
        reveal_strlit("filament");
        reveal_strlit("machine");
        reveal_strlit("process");
    }
    let ghost a1 = *archive;
    read_profiles(archive, "filament", &mut profiles);
    let ghost p1 = profiles@;
    let ghost a2 = *archive;
    read_profiles(archive, "machine", &mut profiles);
    let ghost p2 = profiles@;
    let ghost a3 = *archive;
    read_profiles(archive, "process", &mut profiles);
    let rels = match read_optional(archive, "_rels/.rels") {
        Some(c) => match parse_relationships(c.as_slice()) {
            Ok(rs) => Some(rs),
            Err(_) => None,
        },
        None => None,
    };
    let ghost pf = p1;
    let ghost pm = p2.skip(p1.len() as int);
    let ghost pp = profiles@.skip(p2.len() as int);
    proof {
        assert(p1.skip(0) =~= p1);
        assert(profiles@ =~= pf + pm + pp);
    }
    let ghost fe = |x: Seq<char>| old(archive).entry(x);
    proof {
        assert((|x: Seq<char>| a1.entry(x)) =~= fe);
        assert((|x: Seq<char>| a2.entry(x)) =~= fe);
        assert((|x: Seq<char>| a3.entry(x)) =~= fe);
        assert(kind_profiles(fe, "filament"@, 16, pf));
        assert(kind_profiles(fe, "machine"@, 16, pm));
        assert(kind_profiles(fe, "process"@, 16, pp));
    }
    let v = vendor_data_from(slice_info, settings, project, profiles, rels);
    proof {
        assert(vendor_from(slice_info, settings, project, pf + pm + pp, rels, v));
        assert(slice_read(old(archive).entry("Metadata/slice_info.config"@), slice_info));
        assert(settings_read(old(archive).entry("Metadata/model_settings.config"@), settings));
        assert(project_read(old(archive).entry("Metadata/project_settings.config"@), project));
        assert(rels_read(old(archive).entry("_rels/.rels"@), rels));
        let a0 = *old(archive);
        assert((|x: Seq<char>| a0.entry(x)) =~= fe);
        assert(vendor_read(a0, v));
    }
    v
}

// ---------------------------------------------------------------- geometry counts

/// Vertices over a sequence of placed meshes.
pub open spec fn vertex_total(ms: Seq<MeshView>) -> nat
    decreases ms.len(),
{
    if ms.len() == 0 { 0 } else { vertex_total(ms.drop_last()) + ms.last().0.vertices@.len() }
}

/// Triangles over a sequence of placed meshes.
pub open spec fn triangle_total(ms: Seq<MeshView>) -> nat
    decreases ms.len(),
{
    if ms.len() == 0 { 0 } else { triangle_total(ms.drop_last()) + ms.last().0.triangles@.len() }
}

/// How often `t` occurs in `ts`.
pub open spec fn type_count(ts: Seq<ObjectType>, t: ObjectType) -> nat
    decreases ts.len(),
{
    if ts.len() == 0 { 0 } else { type_count(ts.drop_last(), t) + if ts.last() == t { 1nat } else { 0nat } }
}

/// The entry of type `t` in the type counts: its name and count, where it occurs.
pub open spec fn type_entry(ts: Seq<ObjectType>, t: ObjectType) -> Seq<(Seq<char>, nat)> {
    if type_count(ts, t) > 0 { seq![(object_type_name(t), type_count(ts, t))] } else { Seq::empty() }
}

/// The type counts of `ts`: for each type that occurs, in the order model, support,
/// solid support, surface, other, its name and how often it occurs.
pub open spec fn type_entries(ts: Seq<ObjectType>) -> Seq<(Seq<char>, nat)> {
    type_entry(ts, ObjectType::Model) + type_entry(ts, ObjectType::Support) + type_entry(ts, ObjectType::SolidSupport)
        + type_entry(ts, ObjectType::Surface) + type_entry(ts, ObjectType::Other)
}

/// Type counts as values.
pub open spec fn counts_view(v: Seq<(String, usize)>) -> Seq<(Seq<char>, nat)> {
    v.map_values(|e: (String, usize)| (e.0@, e.1 as nat))
}

/// Whether `g` holds the counts of the walk `w` over `instances` build items.
pub open spec fn geometry_of(g: GeometryStats, w: WalkView, instances: nat) -> bool {
    &&& g.instance_count == instances
    &&& g.object_count == w.1.len()
    &&& g.vertex_count == vertex_total(w.1)
    &&& g.triangle_count == triangle_total(w.1)
    &&& !g.is_manifold
    &&& counts_view(g.type_counts@) == type_entries(w.0)
    &&& extended(Seq::empty(), g.placed_meshes@, w.1)
}

proof fn lemma_totals_mono(ms: Seq<MeshView>, i: int, j: int)
    requires
        0 <= i <= j <= ms.len(),
    ensures
        vertex_total(ms.take(i)) <= vertex_total(ms.take(j)),
        triangle_total(ms.take(i)) <= triangle_total(ms.take(j)),
    decreases j - i,
{
    if i < j {
        lemma_totals_mono(ms, i, j - 1);
        assert(ms.take(j).drop_last() =~= ms.take(j - 1));
    }
}

fn mesh_totals(meshes: &Vec<ResolvedMesh>, Ghost(vs): Ghost<Seq<MeshView>>) -> (r: (u64, u64))
    requires
        extended(Seq::empty(), meshes@, vs),
        vertex_total(vs) <= u64::MAX,
        triangle_total(vs) <= u64::MAX,
    ensures
        r.0 == vertex_total(vs),
        r.1 == triangle_total(vs),
{
    let mut nv: u64 = 0;
    let mut nt: u64 = 0;
    let mut i: usize = 0;
    proof {
        assert(vs.take(0) =~= Seq::<MeshView>::empty());
    }
    while i < meshes.len()
        invariant
            extended(Seq::empty(), meshes@, vs),
            vertex_total(vs) <= u64::MAX,
            triangle_total(vs) <= u64::MAX,
            i <= meshes@.len(),
            meshes@.len() == vs.len(),
            nv == vertex_total(vs.take(i as int)),
            nt == triangle_total(vs.take(i as int)),
        decreases meshes@.len() - i,
    {
        proof {
            assert(Seq::<ResolvedMesh>::empty().len() + i == i);
            assert(resolved_as(meshes@[Seq::<ResolvedMesh>::empty().len() + i], vs[i as int]));
            assert(vs.take(i + 1).drop_last() =~= vs.take(i as int));
            assert(vs.take(i + 1).last() == vs[i as int]);
            lemma_totals_mono(vs, i + 1, vs.len() as int);
            assert(vs.take(vs.len() as int) =~= vs);
        }
        nv = nv + meshes[i].mesh.vertices.len() as u64;
        nt = nt + meshes[i].mesh.triangles.len() as u64;
        i = i + 1;
    }
    proof {
        assert(vs.take(i as int) =~= vs);
    }
    (nv, nt)
}

proof fn lemma_type_count_step(ts: Seq<ObjectType>, i: int, t: ObjectType)
    requires
        0 <= i < ts.len(),
    ensures
        type_count(ts.take(i + 1), t) == type_count(ts.take(i), t) + if ts[i] == t { 1nat } else { 0nat },
{
    assert(ts.take(i + 1).drop_last() =~= ts.take(i));
}

proof fn lemma_type_count_bound(ts: Seq<ObjectType>, t: ObjectType)
    ensures
        type_count(ts, t) <= ts.len(),
    decreases ts.len(),
{
    if ts.len() > 0 {
        lemma_type_count_bound(ts.drop_last(), t);
    }
}

fn push_count(v: &mut Vec<(String, usize)>, t: ObjectType, n: usize, Ghost(ts): Ghost<Seq<ObjectType>>)
    requires
        n == type_count(ts, t),
    ensures
        counts_view(final(v)@) == counts_view(old(v)@) + type_entry(ts, t),
{
    if n > 0 {
        let ghost before = v@;
        v.push((t.to_string(), n));
        proof {
            assert(counts_view(v@) =~= counts_view(before) + type_entry(ts, t));
        }
    } else {
        proof {
            assert(counts_view(v@) =~= counts_view(v@) + type_entry(ts, t));
        }
    }
}

fn count_types(ts: &Vec<ObjectType>) -> (r: Vec<(String, usize)>)
    ensures
        counts_view(r@) == type_entries(ts@),
{
    let mut c: [usize; 5] = [0, 0, 0, 0, 0];
    let mut i: usize = 0;
    proof {
        assert(ts@.take(0) =~= Seq::<ObjectType>::empty());
    }
    while i < ts.len()
        invariant
            i <= ts@.len(),
            c[0] == type_count(ts@.take(i as int), ObjectType::Model),
            c[1] == type_count(ts@.take(i as int), ObjectType::Support),
            c[2] == type_count(ts@.take(i as int), ObjectType::SolidSupport),
            c[3] == type_count(ts@.take(i as int), ObjectType::Surface),
            c[4] == type_count(ts@.take(i as int), ObjectType::Other),
            c[0] <= i, c[1] <= i, c[2] <= i, c[3] <= i, c[4] <= i,
        decreases ts@.len() - i,
    {
        proof {
            lemma_type_count_step(ts@, i as int, ObjectType::Model);
            lemma_type_count_step(ts@, i as int, ObjectType::Support);
            lemma_type_count_step(ts@, i as int, ObjectType::SolidSupport);
            lemma_type_count_step(ts@, i as int, ObjectType::Surface);
            lemma_type_count_step(ts@, i as int, ObjectType::Other);
        }
        match ts[i] {
            ObjectType::Model => { c[0] = c[0] + 1; },
            ObjectType::Support => { c[1] = c[1] + 1; },
            ObjectType::SolidSupport => { c[2] = c[2] + 1; },
            ObjectType::Surface => { c[3] = c[3] + 1; },
            ObjectType::Other => { c[4] = c[4] + 1; },
        }
        i = i + 1;
    }
    proof {
        assert(ts@.take(i as int) =~= ts@);
    }
    let mut r: Vec<(String, usize)> = Vec::new();
    proof {
        assert(counts_view(r@) =~= Seq::<(Seq<char>, nat)>::empty());
    }
    push_count(&mut r, ObjectType::Model, c[0], Ghost(ts@));
    push_count(&mut r, ObjectType::Support, c[1], Ghost(ts@));
    push_count(&mut r, ObjectType::SolidSupport, c[2], Ghost(ts@));
    push_count(&mut r, ObjectType::Surface, c[3], Ghost(ts@));
    push_count(&mut r, ObjectType::Other, c[4], Ghost(ts@));
    proof {
        assert(Seq::<(Seq<char>, nat)>::empty() + type_entry(ts@, ObjectType::Model) =~= type_entry(ts@, ObjectType::Model));
    }
    r
}

impl PartResolver {
    /// Counts over what the build of the root model reaches: every build item is walked
    /// through component trees across model parts; meshes, their vertices and triangles
    /// and the objects of each type are counted, and the meshes kept with their placements.
    /// A missing object adds nothing; a part that is not available is an error.
    pub fn geometry_stats(&self) -> (r: Result<GeometryStats, Lib3mfError>)
        requires
            self.wf(),
            walk_items_spec(self.parts_view(), self.parts_view()[0].1->Ok_0.build.items@, 0) matches Ok(w)
                ==> vertex_total(w.1) <= u64::MAX && triangle_total(w.1) <= u64::MAX,
        ensures
            match r {
                Ok(g) => walk_items_spec(self.parts_view(), self.parts_view()[0].1->Ok_0.build.items@, 0) matches Ok(w)
                    && geometry_of(g, w, self.parts_view()[0].1->Ok_0.build.items@.len()),
                Err(e) => walk_items_spec(self.parts_view(), self.parts_view()[0].1->Ok_0.build.items@, 0)
                    == Err::<WalkView, ErrorKey>(error_key(e)),
            },
    {
        let (types, meshes) = self.walk_build()?;
        let ghost w = walk_items_spec(self.parts_view(), self.parts_view()[0].1->Ok_0.build.items@, 0)->Ok_0;
        let (vertex_count, triangle_count) = mesh_totals(&meshes, Ghost(w.1));
        let type_counts = count_types(&types);
        let instance_count = self.get_root_model().build.items.len();
        Ok(GeometryStats {
            object_count: meshes.len(),
            instance_count,
            triangle_count,
            vertex_count,
            is_manifold: false,
            type_counts,
            placed_meshes: meshes,
        })
    }
}


// ---------------------------------------------------------------- model statistics

/// Whether the model's `Application` metadata names Bambu Studio or OrcaSlicer.
pub open spec fn written_by_slicer(m: Model) -> bool {
    lookup_value(m.metadata@, "Application"@) matches Some(g) && slicer_generator(g@)
}

/// Whether `s` holds the statistics of model `m` whose build walk is `w`, read from the
/// archive `a` on the machine `system_info` (the package thumbnail's presence aside).
pub open spec fn stats_of<A: ArchiveReader>(m: Model, w: WalkView, a: A, system_info: HardwareCapabilities, s: ModelStats) -> bool {
    let objs = m.resources.objects();
    let d = displacement_upto(objs, objs.len());
    &&& s.unit == m.unit
    &&& opt_view(s.generator) == opt_view(lookup_value(m.metadata@, "Application"@))
    &&& attrs_view(s.metadata@) == attrs_view(m.metadata@)
    &&& geometry_of(s.geometry, w, m.build.items@.len())
    &&& s.materials.base_materials_count == m.resources.base_materials().len()
    &&& s.materials.color_groups_count == m.resources.color_groups().len()
    &&& s.materials.texture_2d_groups_count == m.resources.texture_2d_groups().len()
    &&& s.materials.composite_materials_count == m.resources.composite_materials().len()
    &&& s.materials.multi_properties_count == m.resources.multi_properties().len()
    &&& s.production.uuid_count == 0
    &&& s.displacement.mesh_count == d.0
    &&& s.displacement.normal_count == d.1
    &&& s.displacement.gradient_count == d.2
    &&& s.displacement.total_triangle_count == d.3
    &&& s.displacement.displaced_triangle_count == d.4
    &&& s.displacement.texture_count == m.resources.displacement_2d().len()
    &&& written_by_slicer(m) ==> vendor_read(a, s.vendor)
    &&& !written_by_slicer(m) ==> vendor_from(None, None, None, Seq::empty(), None, s.vendor)
    &&& s.system_info == system_info
    &&& s.thumbnails.object_thumbnail_count == thumbnails_upto(objs, objs.len())
    &&& s.thumbnails.package_thumbnail_present == (a.has_entry("Metadata/thumbnail.png"@) || a.has_entry("/Metadata/thumbnail.png"@))
}

impl Model {
    /// Statistics of the model and its package: counts over the geometry the build reaches
    /// (through the model parts `resolver` holds, its root being this model), material,
    /// displacement and thumbnail counts, the metadata, the slicer project data for packages
    /// written by Bambu Studio or OrcaSlicer, and the machine description. A model part that
    /// is not available is an error, as the walk of the build says.
    pub fn compute_stats<A: ArchiveReader>(&self, archive: &mut A, resolver: &PartResolver, system_info: HardwareCapabilities) -> (r: Result<ModelStats, Lib3mfError>)
        requires
            resolver.wf(),
            resolver.parts_view()[0].1 == Ok::<Model, Lib3mfError>(*self),
            walk_items_spec(resolver.parts_view(), self.build.items@, 0) matches Ok(w)
                ==> vertex_total(w.1) <= u64::MAX && triangle_total(w.1) <= u64::MAX,
            displacement_upto(self.resources.objects(), self.resources.objects().len()).1 <= u64::MAX,
            displacement_upto(self.resources.objects(), self.resources.objects().len()).2 <= u64::MAX,
            displacement_upto(self.resources.objects(), self.resources.objects().len()).3 <= u64::MAX,
        ensures
            forall|x: Seq<char>| #[trigger] final(archive).entry(x) == old(archive).entry(x),
            forall|x: Seq<char>| #[trigger] final(archive).has_entry(x) == old(archive).has_entry(x),
            match r {
                Ok(s) => walk_items_spec(resolver.parts_view(), self.build.items@, 0) matches Ok(w)
                    && stats_of(*self, w, *old(archive), system_info, s),
                Err(e) => walk_items_spec(resolver.parts_view(), self.build.items@, 0) == Err::<WalkView, ErrorKey>(error_key(e)),
            },
    {
        let geometry = match resolver.geometry_stats() {
            Ok(g) => g,
            Err(e) => return Err(e),
        };
        let ghost w = walk_items_spec(resolver.parts_view(), self.build.items@, 0)->Ok_0;
        let ghost a0 = *archive;
        let generator: Option<String> = match self.get_metadata(&String::from_str("Application")) {
            Some(g) => Some(g.clone()),
            None => None,
        };
        let slicer = match &generator {
            Some(g) => is_slicer_generator(g.as_str()),
            None => false,
        };
        let vendor = if slicer {
            collect_vendor_data(archive)
        } else {
            let none: Vec<BambuProfileConfig> = Vec::new();
            proof {
                assert(none@ =~= Seq::<BambuProfileConfig>::empty());
            }
            vendor_data_from(None, None, None, none, None)
        };
        let package_thumbnail_present = archive.entry_exists("Metadata/thumbnail.png") || archive.entry_exists("/Metadata/thumbnail.png");
        let s = ModelStats {
            unit: self.unit,
            generator,
            metadata: copy_pairs(&self.metadata),
            geometry,
            materials: self.materials_stats(),
            production: ProductionStats { uuid_count: 0 },
            displacement: self.compute_displacement_stats(),
            vendor,
            system_info,
            thumbnails: ThumbnailStats { package_thumbnail_present, object_thumbnail_count: self.object_thumbnail_count() },
        };
        proof {
            assert(stats_of(*self, w, a0, system_info, s));
        }
        Ok(s)
    }
}

} // verus!
