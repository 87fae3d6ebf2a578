use lib3mf_core::model::stats::{DecimalText, PartSubtype};
use lib3mf_core::parser::bambu_config::{parse_model_settings, parse_profile_config, parse_project_settings, parse_slice_info};

fn decimal(d: &DecimalText) -> Option<f32> {
    match d {
        DecimalText::Number(t) => t.parse::<f64>().ok().map(|x| x as f32),
        DecimalText::Text(t) => t.trim().parse::<f32>().ok(),
    }
}

fn has_key(pairs: &[(String, String)], key: &str) -> bool {
    pairs.iter().any(|(k, _)| k == key)
}

#[test]
fn test_parse_slice_info_empty() {
    let result = parse_slice_info(b"").unwrap();
    assert!(result.client_type.is_none());
    assert!(result.plates.is_empty());
}

#[test]
fn test_parse_slice_info_invalid_xml() {
    let _ = parse_slice_info(b"not xml <<< garbage >>>");
}

#[test]
fn test_parse_slice_info_header_only() {
    let xml = br#"<?xml version="1.0" encoding="UTF-8"?>
<config>
  <header>
    <header_item key="X-BBL-Client-Type" value="slicer"/>
    <header_item key="X-BBL-Client-Version" value="02.02.01.60"/>
  </header>
</config>"#;
    let result = parse_slice_info(xml).unwrap();
    assert_eq!(result.client_type.as_deref(), Some("slicer"));
    assert_eq!(result.client_version.as_deref(), Some("02.02.01.60"));
    assert!(result.plates.is_empty(), "SimplePyramid has no plates");
}

#[test]
fn test_parse_slice_info_with_plate() {
    let xml = br##"<?xml version="1.0" encoding="UTF-8"?>
<config>
  <header>
    <header_item key="X-BBL-Client-Type" value="slicer"/>
    <header_item key="X-BBL-Client-Version" value="01.10.02.73"/>
  </header>
  <plate>
    <metadata key="index" value="1"/>
    <metadata key="prediction" value="1895"/>
    <metadata key="weight" value="11.57"/>
    <filament id="1" tray_info_idx="GFA00" type="PLA" color="#FFFFFF" used_m="3.82" used_g="11.57" />
    <warning msg="bed_temp_too_high" level="1" error_code="1000C001" />
    <object identify_id="145" name="3DBenchy.stl" skipped="false" />
  </plate>
</config>"##;
    let result = parse_slice_info(xml).unwrap();
    assert_eq!(result.client_type.as_deref(), Some("slicer"));
    assert_eq!(result.plates.len(), 1);

    let plate = &result.plates[0];
    assert_eq!(plate.id, 1);
    assert_eq!(plate.prediction, Some(1895));
    let weight: f32 = plate.weight.as_deref().unwrap().parse().unwrap();
    assert!((weight - 11.57_f32).abs() < 0.01);

    assert_eq!(plate.filaments.len(), 1);
    assert_eq!(plate.filaments[0].id, 1);
    assert_eq!(plate.filaments[0].tray_info_idx.as_deref(), Some("GFA00"));
    assert_eq!(plate.filaments[0].type_.as_deref(), Some("PLA"));
    let used_g: f32 = plate.filaments[0].used_g.as_deref().unwrap().parse().unwrap();
    assert!((used_g - 11.57_f32).abs() < 0.01);

    assert_eq!(plate.warnings.len(), 1);
    assert_eq!(plate.warnings[0].msg, "bed_temp_too_high");

    assert_eq!(plate.objects.len(), 1);
    assert_eq!(plate.objects[0].id, 145);
    assert_eq!(plate.objects[0].name.as_deref(), Some("3DBenchy.stl"));
}

#[test]
fn slice_info_xml_error_reads_as_empty() {
    let r = parse_slice_info(b"<config><plate></config>").unwrap();
    assert!(r.client_type.is_none() && r.client_version.is_none() && r.plates.is_empty());
}

#[test]
fn slice_info_reads_escaped_attribute_values() {
    let xml = br#"<config><header_item key="X-BBL-Client-Type" value="a &amp; b"/></config>"#;
    let result = parse_slice_info(xml).unwrap();
    assert_eq!(result.client_type.as_deref(), Some("a & b"));
}

#[test]
fn test_parse_model_settings_empty() {
    let result = parse_model_settings(b"").unwrap();
    assert!(result.plates.is_empty());
    assert!(result.objects.is_empty());
    assert!(result.assembly.is_empty());
}

#[test]
fn test_parse_model_settings_invalid_xml() {
    let _ = parse_model_settings(b"<bad xml");
}

#[test]
fn test_parse_model_settings_with_object() {
    let xml = br#"<?xml version="1.0" encoding="UTF-8"?>
<config>
  <object id="8">
    <metadata key="name" value="3DBenchy.stl"/>
    <metadata key="extruder" value="1"/>
    <metadata face_count="225154"/>
    <part id="1" subtype="normal_part">
      <metadata key="name" value="3DBenchy.stl"/>
      <metadata key="matrix" value="1 0 0 0 0 1 0 0 0 0 1 0 0 0 0 1"/>
      <metadata key="source_volume_id" value="0"/>
      <metadata key="inner_wall_speed" value="50"/>
      <mesh_stat face_count="225154" edges_fixed="0" degenerate_facets="0" facets_removed="0" facets_reversed="0" backwards_edges="0"/>
    </part>
  </object>
  <plate>
    <metadata key="plater_id" value="1"/>
    <metadata key="plater_name" value=""/>
    <metadata key="locked" value="false"/>
    <metadata key="gcode_file" value="Metadata/plate_1.gcode"/>
    <metadata key="thumbnail_file" value="Metadata/plate_1.png"/>
    <model_instance>
      <metadata key="object_id" value="8"/>
      <metadata key="instance_id" value="0"/>
      <metadata key="identify_id" value="145"/>
    </model_instance>
  </plate>
  <assemble>
    <assemble_item object_id="8" instance_id="0" transform="1 0 0 0 1 0 0 0 1 0 0 0" offset="0 0 0" />
  </assemble>
</config>"#;
    let result = parse_model_settings(xml).unwrap();

    assert_eq!(result.objects.len(), 1);
    let obj = &result.objects[0];
    assert_eq!(obj.id, 8);
    assert_eq!(obj.name.as_deref(), Some("3DBenchy.stl"));
    assert_eq!(obj.extruder, Some(1));
    assert_eq!(obj.face_count, Some(225154));
    assert_eq!(obj.parts.len(), 1);

    let part = &obj.parts[0];
    assert_eq!(part.id, 1);
    assert_eq!(part.subtype, PartSubtype::NormalPart);
    assert_eq!(part.name.as_deref(), Some("3DBenchy.stl"));
    assert!(part.matrix.is_some());
    assert!(part.source.is_some());
    assert!(part.mesh_stat.is_some());
    assert!(has_key(&part.print_overrides, "inner_wall_speed"));

    assert_eq!(result.plates.len(), 1);
    let plate = &result.plates[0];
    assert_eq!(plate.id, 1);
    assert!(!plate.locked);
    assert_eq!(plate.gcode_file.as_deref(), Some("Metadata/plate_1.gcode"));
    assert_eq!(plate.thumbnail_file.as_deref(), Some("Metadata/plate_1.png"));
    assert_eq!(plate.items.len(), 1);
    assert_eq!(plate.items[0].object_id, 8);
    assert_eq!(plate.items[0].identify_id, Some(145));

    assert_eq!(result.assembly.len(), 1);
    assert_eq!(result.assembly[0].object_id, 8);
    assert!(result.assembly[0].transform.is_some());
}

#[test]
fn model_settings_details() {
    let xml = br#"<config>
  <object id="x">
    <part id="2" subtype="modifier_part">
      <metadata key="source_offset_x" value="1.5"/>
      <metadata key="source_object_id" value="3"/>
      <metadata key="speed" value="1"/>
      <metadata key="speed" value="2"/>
    </part>
  </object>
  <plate>
    <metadata key="plater_name" value="First"/>
    <metadata key="locked" value="true"/>
  </plate>
  <assemble><assemble_item object_id="4"/></assemble>
</config>"#;
    let result = parse_model_settings(xml).unwrap();
    let obj = &result.objects[0];
    assert_eq!(obj.id, 0);
    let part = &obj.parts[0];
    assert_eq!(part.subtype, PartSubtype::ModifierPart);
    let source = part.source.as_ref().unwrap();
    assert_eq!(source.volume_id, None);
    assert_eq!(source.offset_x.as_deref(), Some("1.5"));
    assert_eq!(part.print_overrides, vec![("speed".to_string(), "2".to_string())]);
    assert_eq!(result.plates[0].name.as_deref(), Some("First"));
    assert!(result.plates[0].locked);
    assert_eq!(result.assembly[0].object_id, 4);
    assert_eq!(result.assembly[0].instance_count, 1);
}

#[test]
fn test_parse_project_settings_empty() {
    let result = parse_project_settings(b"").unwrap();
    assert!(result.printer_model.is_none());
    assert!(result.filament_type.is_empty());
}

#[test]
fn test_parse_project_settings_invalid_json() {
    let result = parse_project_settings(b"not json {{{").unwrap();
    assert!(result.printer_model.is_none());
}

#[test]
fn test_parse_project_settings_empty_object() {
    let result = parse_project_settings(b"{}").unwrap();
    assert!(result.printer_model.is_none());
    assert!(result.extras.is_empty());
}

#[test]
fn test_parse_project_settings_basic() {
    let json = r##"{
        "printer_model": "Bambu Lab A1",
        "curr_bed_type": "Textured PEI Plate",
        "layer_height": 0.2,
        "filament_type": ["PLA"],
        "filament_colour": ["#FFFFFF"],
        "nozzle_diameter": ["0.4"],
        "wall_loops": "3",
        "sparse_infill_density": "15%",
        "support_type": "normal(auto)",
        "change_filament_gcode": "this is a big gcode blob that should be skipped",
        "some_extra_key": "some_value"
    }"##;
    let result = parse_project_settings(json.as_bytes()).unwrap();

    assert_eq!(result.printer_model.as_deref(), Some("Bambu Lab A1"));
    assert_eq!(result.bed_type.as_deref(), Some("Textured PEI Plate"));
    assert!((decimal(result.layer_height.as_ref().unwrap()).unwrap() - 0.2_f32).abs() < 0.001);
    assert_eq!(result.filament_type, vec!["PLA"]);
    assert_eq!(result.filament_colour, vec!["#FFFFFF"]);
    let nozzles: Vec<f32> = result.nozzle_diameter.iter().filter_map(decimal).collect();
    assert_eq!(nozzles, vec![0.4_f32]);
    assert_eq!(result.wall_loops, Some(3));
    assert_eq!(result.infill_density.as_deref(), Some("15%"));
    assert_eq!(result.support_type.as_deref(), Some("normal(auto)"));
    assert!(!has_key(&result.extras, "change_filament_gcode"));
    assert!(has_key(&result.extras, "some_extra_key"));
}

#[test]
fn project_settings_bed_type_and_numbers() {
    let json = br#"{"bed_type": ["Cool Plate", "x"], "wall_loops": 4294967298, "nozzle_diameter": 0.6, "extra": {"a": [1, 2]}}"#;
    let result = parse_project_settings(json).unwrap();
    assert_eq!(result.bed_type.as_deref(), Some("Cool Plate"));
    assert_eq!(result.wall_loops, Some(2));
    assert_eq!(result.nozzle_diameter, vec![DecimalText::Number("0.6".to_string())]);
    assert_eq!(result.extras, vec![("extra".to_string(), "{\"a\":[1,2]}".to_string())]);
}

#[test]
fn test_parse_profile_config_empty() {
    let result = parse_profile_config(b"", "filament", 1).unwrap();
    assert_eq!(result.config_type, "filament");
    assert_eq!(result.index, 1);
    assert!(result.inherits.is_none());
    assert!(result.name.is_none());
}

#[test]
fn test_parse_profile_config_invalid_json() {
    let result = parse_profile_config(b"not json", "machine", 2).unwrap();
    assert_eq!(result.config_type, "machine");
    assert_eq!(result.index, 2);
}

#[test]
fn test_parse_profile_config_basic() {
    let json = r#"{
        "inherits": "Bambu PLA Basic @BBL P1P",
        "name": "Bambu PLA Basic @BBL P1P(project.3mf)",
        "filament_type": ["PLA"],
        "change_filament_gcode": "gcode blob to skip"
    }"#;
    let result = parse_profile_config(json.as_bytes(), "filament", 1).unwrap();

    assert_eq!(result.config_type, "filament");
    assert_eq!(result.index, 1);
    assert_eq!(result.inherits.as_deref(), Some("Bambu PLA Basic @BBL P1P"));
    assert_eq!(result.name.as_deref(), Some("Bambu PLA Basic @BBL P1P(project.3mf)"));
    assert!(!has_key(&result.extras, "change_filament_gcode"));
    assert!(has_key(&result.extras, "filament_type"));
}

#[test]
fn malformed_settings_read_as_empty() {
    let d = parse_model_settings(b"<bad xml").unwrap();
    assert!(d.plates.is_empty() && d.objects.is_empty() && d.assembly.is_empty());
    let s = parse_slice_info(b"<config><header><header_item key=\"X-BBL-Client-Type\" value=\"slicer\"/></config></oops>").unwrap();
    assert!(s.client_type.is_none() && s.client_version.is_none() && s.plates.is_empty());
}
