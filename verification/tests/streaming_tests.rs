use lib3mf_core::error::Lib3mfError;
use lib3mf_core::model::build_section::BuildItem;
use lib3mf_core::model::materials::{BaseMaterialsGroup, ColorGroup};
use lib3mf_core::model::mesh::{Beam, CapMode, DisplacementTriangle};
use lib3mf_core::model::resources::ResourceId;
use lib3mf_core::parser::streaming::parse_model_streaming;
use lib3mf_core::parser::visitor::{ModelVisitor, VisitLog};
use lib3mf_core::parser::xml_parser::{number_texts, NumberTable};

fn numbers_for(xml: &str) -> NumberTable {
    let entries = number_texts(xml.as_bytes())
        .into_iter()
        .map(|t| {
            let lexical = lexical_core::parse::<f32>(t.as_bytes()).ok().map(f32::to_bits);
            let standard = t.parse::<f32>().ok().map(f32::to_bits);
            (t, lexical, standard)
        })
        .collect();
    NumberTable { entries }
}

#[derive(Default)]
struct Recorder {
    calls: Vec<String>,
    fail_on: Option<&'static str>,
}

impl Recorder {
    fn note(&mut self, s: String) -> Result<(), Lib3mfError> {
        let stop = self.fail_on.map_or(false, |f| s.starts_with(f));
        self.calls.push(s);
        if stop {
            Err(Lib3mfError::Validation("stopped".to_string()))
        } else {
            Ok(())
        }
    }
}

impl ModelVisitor for Recorder {
    fn log(&self) -> VisitLog {
        vstd::seq::Seq::empty()
    }
    fn on_start_model(&mut self) -> Result<(), Lib3mfError> { self.note("start_model".into()) }
    fn on_end_model(&mut self) -> Result<(), Lib3mfError> { self.note("end_model".into()) }
    fn on_metadata(&mut self, name: &str, value: &str) -> Result<(), Lib3mfError> { self.note(format!("metadata {}={}", name, value)) }
    fn on_start_resources(&mut self) -> Result<(), Lib3mfError> { self.note("start_resources".into()) }
    fn on_end_resources(&mut self) -> Result<(), Lib3mfError> { self.note("end_resources".into()) }
    fn on_base_materials(&mut self, id: ResourceId, group: &BaseMaterialsGroup) -> Result<(), Lib3mfError> {
        self.note(format!("base_materials {} {}", id.0, group.materials.len()))
    }
    fn on_color_group(&mut self, id: ResourceId, group: &ColorGroup) -> Result<(), Lib3mfError> {
        self.note(format!("color_group {} {}", id.0, group.colors.len()))
    }
    fn on_start_mesh(&mut self, id: ResourceId) -> Result<(), Lib3mfError> { self.note(format!("start_mesh {}", id.0)) }
    fn on_vertex(&mut self, x: u32, y: u32, z: u32) -> Result<(), Lib3mfError> {
        self.note(format!("vertex {} {} {}", f32::from_bits(x), f32::from_bits(y), f32::from_bits(z)))
    }
    fn on_triangle(&mut self, v1: u32, v2: u32, v3: u32) -> Result<(), Lib3mfError> { self.note(format!("triangle {} {} {}", v1, v2, v3)) }
    fn on_end_mesh(&mut self) -> Result<(), Lib3mfError> { self.note("end_mesh".into()) }
    fn on_start_beam_lattice(&mut self, id: ResourceId) -> Result<(), Lib3mfError> { self.note(format!("start_lattice {}", id.0)) }
    fn on_beam(&mut self, beam: &Beam) -> Result<(), Lib3mfError> {
        self.note(format!("beam {} {} {} {} {:?}", beam.v1, beam.v2, f32::from_bits(beam.r1), f32::from_bits(beam.r2), beam.cap_mode))
    }
    fn on_end_beam_lattice(&mut self) -> Result<(), Lib3mfError> { self.note("end_lattice".into()) }
    fn on_start_displacement_mesh(&mut self, id: ResourceId) -> Result<(), Lib3mfError> { self.note(format!("start_dmesh {}", id.0)) }
    fn on_displacement_vertex(&mut self, x: u32, y: u32, z: u32) -> Result<(), Lib3mfError> {
        self.note(format!("dvertex {} {} {}", f32::from_bits(x), f32::from_bits(y), f32::from_bits(z)))
    }
    fn on_displacement_triangle(&mut self, t: &DisplacementTriangle) -> Result<(), Lib3mfError> {
        self.note(format!("dtriangle {} {} {} {:?}", t.v1, t.v2, t.v3, t.d1))
    }
    fn on_displacement_normal(&mut self, nx: u32, ny: u32, nz: u32) -> Result<(), Lib3mfError> {
        self.note(format!("dnormal {} {} {}", f32::from_bits(nx), f32::from_bits(ny), f32::from_bits(nz)))
    }
    fn on_end_displacement_mesh(&mut self) -> Result<(), Lib3mfError> { self.note("end_dmesh".into()) }
    fn on_start_build(&mut self) -> Result<(), Lib3mfError> { self.note("start_build".into()) }
    fn on_end_build(&mut self) -> Result<(), Lib3mfError> { self.note("end_build".into()) }
    fn on_build_item(&mut self, item: &BuildItem) -> Result<(), Lib3mfError> { self.note(format!("item {}", item.object_id.0)) }
}

const MODEL: &str = r##"<model unit="millimeter">
<metadata name="Title">Cube</metadata>
<metadata name="Empty"/>
<resources>
<basematerials id="1"><base name="PLA" displaycolor="#FF0000"/></basematerials>
<object id="2"><mesh>
<vertices><vertex x="0" y="0" z="0"/><vertex x="1.5" y="0" z="0"/><vertex x="0" y="1" z="0"/></vertices>
<triangles><triangle v1="0" v2="1" v3="2"/></triangles>
<beamlattice radius="0.5"><beams><beam v1="0" v2="1" cap="butt"/></beams><beamsets><beamset/></beamsets></beamlattice>
</mesh></object>
<object id="3"><displacementmesh>
<vertices><vertex x="1" y="2" z="3"/></vertices>
<normvectors><normvector nx="0" ny="0" nz="1"/></normvectors>
<triangles><triangle v1="0" v2="0" v3="0" d1="4"/></triangles>
</displacementmesh></object>
</resources>
<build><item objectid="2"/></build>
</model>"##;

#[test]
fn streaming_reports_the_model_in_document_order() {
    let mut rec = Recorder::default();
    parse_model_streaming(MODEL.as_bytes(), &numbers_for(MODEL), &mut rec).unwrap();
    let expected = vec![
        "start_model", "metadata Title=Cube", "metadata Empty=", "start_resources", "base_materials 1 1",
        "start_mesh 2", "vertex 0 0 0", "vertex 1.5 0 0", "vertex 0 1 0", "triangle 0 1 2",
        "start_lattice 2", "beam 0 1 0.5 0.5 Butt", "end_lattice", "end_mesh",
        "start_dmesh 3", "dvertex 1 2 3", "dnormal 0 0 1", "dtriangle 0 0 0 Some(4)", "end_dmesh",
        "end_resources", "start_build", "item 2", "end_build", "end_model",
    ];
    assert_eq!(rec.calls, expected);
}

#[test]
fn a_visitor_error_stops_the_reading() {
    let mut rec = Recorder { calls: Vec::new(), fail_on: Some("vertex 1.5") };
    let err = parse_model_streaming(MODEL.as_bytes(), &numbers_for(MODEL), &mut rec).unwrap_err();
    assert!(matches!(err, Lib3mfError::Validation(ref m) if m == "stopped"));
    assert_eq!(rec.calls.last().map(String::as_str), Some("vertex 1.5 0 0"));
    assert_eq!(rec.calls.len(), 8);
}

#[test]
fn streaming_reports_a_missing_attribute_after_earlier_callbacks() {
    let xml = r#"<model><resources><object id="1"><mesh><vertices><vertex x="0" y="0"/></vertices></mesh></object></resources></model>"#;
    let mut rec = Recorder::default();
    let err = parse_model_streaming(xml.as_bytes(), &numbers_for(xml), &mut rec).unwrap_err();
    assert!(matches!(err, Lib3mfError::Validation(ref m) if m == "Missing attribute: z"));
    assert_eq!(rec.calls, vec!["start_model", "start_resources", "start_mesh 1"]);
}

#[test]
fn streaming_needs_the_end_of_open_elements() {
    let xml = r#"<model><build><item objectid="1"/>"#;
    let mut rec = Recorder::default();
    assert!(parse_model_streaming(xml.as_bytes(), &numbers_for(xml), &mut rec).is_err());
    assert_eq!(rec.calls, vec!["start_model", "start_build", "item 1"]);
    let _ = CapMode::Sphere;
}
