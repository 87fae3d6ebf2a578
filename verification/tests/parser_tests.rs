use lib3mf_core::error::Lib3mfError;
use lib3mf_core::model::core_model::Model;
use lib3mf_core::model::materials::{BlendMethod, Channel, Color, FilterMode, TileStyle};
use lib3mf_core::model::mesh::{CapMode, ClippingMode, Geometry, ObjectType, ONE_BITS};
use lib3mf_core::model::resources::ResourceId;
use lib3mf_core::model::units::Unit;
use lib3mf_core::parser::component_parser::parse_transform;
use lib3mf_core::parser::crypto_parser::parse_signature;
use lib3mf_core::parser::model_parser::parse_model;
use lib3mf_core::parser::secure_content_parser::parse_keystore_content;
use lib3mf_core::parser::xml_parser::{get_attribute_u32, number_texts, NumberTable, XmlEvent, XmlParser, XmlTag};

fn numbers_for(xml: &str) -> NumberTable {
    let entries = number_texts(xml.as_bytes())
        .into_iter()
        .map(|t| {
            let lexical = lexical_core::parse::<f32>(t.as_bytes()).ok().map(f32::to_bits);
            let standard = t.parse::<f32>().ok().map(f32::to_bits);
            (t, lexical, standard)
        })
        .collect();
    NumberTable { entries }
}

fn read(xml: &str) -> Result<Model, Lib3mfError> {
    parse_model(xml.as_bytes(), &numbers_for(xml))
}

fn message(r: Result<Model, Lib3mfError>) -> String {
    match r {
        Err(Lib3mfError::Validation(m)) => m,
        Err(e) => panic!("unexpected error {:?}", e),
        Ok(_) => panic!("expected an error"),
    }
}

fn model_xml(resources: &str, build: &str) -> String {
    format!(
        "<?xml version=\"1.0\" encoding=\"UTF-8\"?><model unit=\"millimeter\" xml:lang=\"en-US\" xmlns=\"http://schemas.microsoft.com/3dmanufacturing/core/2015/02\"><resources>{}</resources><build>{}</build></model>",
        resources, build
    )
}

const CUBE_MESH: &str = "<mesh><vertices><vertex x=\"0\" y=\"0\" z=\"0\"/><vertex x=\"10\" y=\"0\" z=\"0\"/><vertex x=\"0\" y=\"10.5\" z=\"0\"/><vertex x=\"0\" y=\"0\" z=\"-2.25\"/></vertices><triangles><triangle v1=\"0\" v2=\"1\" v3=\"2\"/><triangle v1=\"0\" v2=\"3\" v3=\"1\" p1=\"4\" pid=\"7\"/></triangles></mesh>";

#[test]
fn parse_model_with_mesh_and_build() {
    let xml = format!(
        "<?xml version=\"1.0\" encoding=\"UTF-8\"?><model unit=\"inch\" xml:lang=\"en-US\"><metadata name=\"Title\">Cube</metadata><metadata name=\"Designer\"/><resources><object id=\"1\" type=\"model\" name=\"cube\" partnumber=\"P-1\">{}</object></resources><build><item objectid=\"1\" transform=\"1 0 0 0 1 0 0 0 1 5 6 7.5\" partnumber=\"I-1\"/></build></model>",
        CUBE_MESH
    );
    let model = read(&xml).unwrap();
    assert_eq!(model.unit, Unit::Inch);
    assert_eq!(model.language.as_deref(), Some("en-US"));
    assert_eq!(model.get_metadata(&"Title".to_string()).map(|s| s.as_str()), Some("Cube"));
    assert_eq!(model.get_metadata(&"Designer".to_string()).map(|s| s.as_str()), Some(""));
    let objects = model.resources.iter_objects();
    assert_eq!(objects.len(), 1);
    let o = &objects[0];
    assert_eq!(o.id, ResourceId(1));
    assert_eq!(o.object_type, ObjectType::Model);
    assert_eq!(o.name.as_deref(), Some("cube"));
    assert_eq!(o.part_number.as_deref(), Some("P-1"));
    match &o.geometry {
        Geometry::Mesh(m) => {
            assert_eq!(m.vertices.len(), 4);
            assert_eq!(f32::from_bits(m.vertices[1].x), 10.0);
            assert_eq!(f32::from_bits(m.vertices[2].y), 10.5);
            assert_eq!(f32::from_bits(m.vertices[3].z), -2.25);
            assert_eq!(m.triangles.len(), 2);
            assert_eq!((m.triangles[1].v1, m.triangles[1].v2, m.triangles[1].v3), (0, 3, 1));
            assert_eq!(m.triangles[1].p1, Some(4));
            assert_eq!(m.triangles[1].p2, None);
            assert_eq!(m.triangles[1].pid, Some(7));
            assert!(m.beam_lattice.is_none());
        },
        _ => panic!("expected a mesh"),
    }
    assert_eq!(model.build.items.len(), 1);
    let item = &model.build.items[0];
    assert_eq!(item.object_id, ResourceId(1));
    assert_eq!(item.part_number.as_deref(), Some("I-1"));
    assert_eq!(f32::from_bits(item.transform.m[0]), 1.0);
    assert_eq!(item.transform.m[3], 0);
    assert_eq!(f32::from_bits(item.transform.m[12]), 5.0);
    assert_eq!(f32::from_bits(item.transform.m[14]), 7.5);
    assert_eq!(item.transform.m[15], ONE_BITS);
}

#[test]
fn parse_model_defaults_and_unknown_unit() {
    let model = read("<model unit=\"parsec\"><resources/><build/></model>").unwrap();
    assert_eq!(model.unit, Unit::Millimeter);
    assert!(model.language.is_none());
    assert_eq!(model.resources.iter_objects().len(), 0);
    let model = read("").unwrap();
    assert_eq!(model.unit, Unit::Millimeter);
}

#[test]
fn parse_model_components_and_uuid() {
    let xml = model_xml(
        &format!(
            "<object id=\"1\">{}</object><object id=\"2\" type=\"support\" p:uuid=\"01234567-89ab-cdef-0123-456789abcdef\"><components><component objectid=\"1\" p:path=\"/3D/other.model\" transform=\"2 0 0 0 2 0 0 0 2 0 0 0\"/><component objectid=\"1\"/></components></object>",
            CUBE_MESH
        ),
        "<item objectid=\"2\"/>",
    );
    let model = read(&xml).unwrap();
    let o = model.resources.get_object(ResourceId(2)).unwrap();
    assert_eq!(o.object_type, ObjectType::Support);
    assert_eq!(o.uuid, Some(0x0123_4567_89ab_cdef_0123_4567_89ab_cdef));
    match &o.geometry {
        Geometry::Components(c) => {
            assert_eq!(c.components.len(), 2);
            assert_eq!(c.components[0].object_id, ResourceId(1));
            assert_eq!(c.components[0].path.as_deref(), Some("/3D/other.model"));
            assert_eq!(f32::from_bits(c.components[0].transform.m[0]), 2.0);
            assert_eq!(c.components[1].path, None);
            assert_eq!(c.components[1].transform.m[5], ONE_BITS);
            assert_eq!(c.components[1].transform.m[1], 0);
        },
        _ => panic!("expected components"),
    }
}

#[test]
fn parse_model_materials() {
    let xml = model_xml(
        "<basematerials id=\"5\"><base name=\"Red\" displaycolor=\"#FF0000\"/><base name=\"Blue\" displaycolor=\"#0000FF80\"/></basematerials>\
         <colorgroup id=\"6\"><color color=\"#00FF00\"/></colorgroup>\
         <texture2dgroup id=\"7\" texid=\"9\"><tex2coord u=\"0.5\" v=\"1\"/></texture2dgroup>\
         <compositematerials id=\"8\" matid=\"5\" matindices=\"0 1\"><composite values=\"0.25 0.75\"/></compositematerials>\
         <multiproperties id=\"10\" pids=\"5 6\" blendmethods=\"mix multiply\"><multi pindices=\"0 0\"/><multi pindices=\"1 0\"/></multiproperties>",
        "",
    );
    let model = read(&xml).unwrap();
    let base = model.resources.get_base_materials(ResourceId(5)).unwrap();
    assert_eq!(base.materials.len(), 2);
    assert_eq!(base.materials[0].name, "Red");
    assert_eq!(base.materials[0].display_color, Color { r: 255, g: 0, b: 0, a: 255 });
    assert_eq!(base.materials[1].display_color, Color { r: 0, g: 0, b: 255, a: 0x80 });
    let colors = model.resources.get_color_group(ResourceId(6)).unwrap();
    assert_eq!(colors.colors, vec![Color { r: 0, g: 255, b: 0, a: 255 }]);
    let tex = model.resources.get_texture_2d_group(ResourceId(7)).unwrap();
    assert_eq!(tex.texture_id, ResourceId(9));
    assert_eq!(f32::from_bits(tex.coords[0].u), 0.5);
    assert_eq!(f32::from_bits(tex.coords[0].v), 1.0);
    let comp = model.resources.get_composite_materials(ResourceId(8)).unwrap();
    assert_eq!(comp.base_material_id, ResourceId(5));
    assert_eq!(comp.indices, vec![0, 1]);
    assert_eq!(f32::from_bits(comp.composites[0].values[1]), 0.75);
    let multi = model.resources.get_multi_properties(ResourceId(10)).unwrap();
    assert_eq!(multi.pids, vec![ResourceId(5), ResourceId(6)]);
    assert_eq!(multi.blend_methods, vec![BlendMethod::Mix, BlendMethod::Multiply]);
    assert_eq!(multi.multis[1].pindices, vec![1, 0]);
}

#[test]
fn parse_model_extension_resources() {
    let xml = model_xml(
        "<slicestack id=\"20\" zbottom=\"1.5\"><slice ztop=\"2\"><vertices><vertex x=\"0\" y=\"1\"/></vertices><polygon start=\"3\"><segment v2=\"1\" p1=\"2\"/></polygon></slice><sliceref slicestackid=\"21\" slicepath=\"/2D/s.model\"/></slicestack>\
         <volumetricstack id=\"22\"><layer z=\"0.5\" path=\"/v/0.png\"/><volumetricref volumetricstackid=\"23\" path=\"/v.model\"/></volumetricstack>\
         <booleanshape id=\"24\" objectid=\"1\"><boolean objectid=\"2\" operation=\"difference\"/><boolean objectid=\"3\"/></booleanshape>\
         <displacement2d id=\"25\" path=\"/d.png\" channel=\"R\" tilestyle=\"MIRROR\" filter=\"Nearest\" height=\"0.2\"/>\
         <object id=\"26\" slicestackid=\"20\"><mesh/></object>\
         <object id=\"27\"><displacementmesh><vertices><vertex x=\"1\" y=\"2\" z=\"3\"/></vertices><triangles><triangle v1=\"0\" v2=\"0\" v3=\"0\" d1=\"1\"/></triangles><normvectors><normvector nx=\"0\" ny=\"0\" nz=\"1\"/></normvectors></displacementmesh></object>\
         <object id=\"28\"><mesh><beamlattice minlength=\"0.1\" clippingmode=\"inside\"><beams><beam v1=\"0\" v2=\"1\" r1=\"1.5\" cap=\"butt\"/></beams><beamsets><beamset name=\"s\"><ref index=\"0\"/></beamset></beamsets></beamlattice></mesh></object>",
        "",
    );
    let model = read(&xml).unwrap();
    let stack = model.resources.get_slice_stack(ResourceId(20)).unwrap();
    assert_eq!(f32::from_bits(stack.z_bottom), 1.5);
    assert_eq!(f32::from_bits(stack.slices[0].z_top), 2.0);
    assert_eq!(stack.slices[0].polygons[0].start_segment, 3);
    assert_eq!(stack.slices[0].polygons[0].segments[0].p1, Some(2));
    assert_eq!(stack.refs[0].slice_stack_id, ResourceId(21));
    assert_eq!(stack.refs[0].slice_path, "/2D/s.model");
    let vol = model.resources.get_volumetric_stack(ResourceId(22)).unwrap();
    assert_eq!(f32::from_bits(vol.layers[0].z_height), 0.5);
    assert_eq!(vol.refs[0].path, "/v.model");
    match &model.resources.get_object(ResourceId(24)).unwrap().geometry {
        Geometry::BooleanShape(b) => {
            assert_eq!(b.base_object_id, ResourceId(1));
            assert_eq!(b.operations.len(), 2);
            assert_eq!(b.operations[1].object_id, ResourceId(3));
        },
        _ => panic!("expected a boolean shape"),
    }
    let d = &model.resources.iter_displacement_2d()[0];
    assert_eq!((d.channel, d.tile_style, d.filter), (Channel::R, TileStyle::Mirror, FilterMode::Nearest));
    assert_eq!(f32::from_bits(d.height), 0.2);
    assert_eq!(d.offset, 0);
    assert!(matches!(model.resources.get_object(ResourceId(26)).unwrap().geometry, Geometry::SliceStack(ResourceId(20))));
    match &model.resources.get_object(ResourceId(27)).unwrap().geometry {
        Geometry::DisplacementMesh(m) => {
            assert_eq!(m.vertices.len(), 1);
            assert_eq!(m.triangles[0].d1, Some(1));
            assert_eq!(f32::from_bits(m.normals[0].nz), 1.0);
            assert!(m.gradients.is_none());
        },
        _ => panic!("expected a displacement mesh"),
    }
    match &model.resources.get_object(ResourceId(28)).unwrap().geometry {
        Geometry::Mesh(m) => {
            let l = m.beam_lattice.as_ref().unwrap();
            assert_eq!(l.clipping_mode, ClippingMode::Inside);
            assert_eq!(f32::from_bits(l.min_length), 0.1);
            assert_eq!(l.beams[0].r2, l.beams[0].r1);
            assert_eq!(l.beams[0].cap_mode, CapMode::Butt);
            assert_eq!(l.beam_sets[0].refs, vec![0]);
        },
        _ => panic!("expected a mesh"),
    }
}

#[test]
fn parse_model_errors() {
    assert_eq!(message(read(&model_xml("<object id=\"1\"/><object id=\"1\"/>", ""))), "Duplicate resource ID: 1");
    assert_eq!(
        message(read(&model_xml("<colorgroup id=\"1\"/><basematerials id=\"1\"/>", ""))),
        "Duplicate resource ID: 1"
    );
    assert_eq!(
        message(read(&model_xml("<object id=\"1\"><mesh><vertices><vertex x=\"1\" z=\"0\"/></vertices></mesh></object>", ""))),
        "Missing attribute: y"
    );
    assert_eq!(
        message(read(&model_xml("<object id=\"1\"><mesh><vertices><vertex x=\"abc\" y=\"0\" z=\"0\"/></vertices></mesh></object>", ""))),
        "Invalid float for attribute x: abc"
    );
    assert_eq!(message(read(&model_xml("<object name=\"x\"/>", ""))), "Missing attribute: id");
    assert_eq!(message(read(&model_xml("<object id=\"x1\"/>", ""))), "Invalid integer for attribute id: x1");
    assert_eq!(
        message(read(&model_xml("", "<item objectid=\"1\" transform=\"1 0 0 0 1 0 0 0 1 0 0\"/>"))),
        "Invalid transform matrix: expected 12 values, got 11"
    );
    assert_eq!(
        message(read(&model_xml("", "<item objectid=\"1\" transform=\"1 0 0 0 1 0 0 0 1 0 0 q\"/>"))),
        "Invalid float in transform: q"
    );
    assert_eq!(
        message(read(&model_xml("<basematerials id=\"1\"><base name=\"a\" displaycolor=\"#12345\"/></basematerials>", ""))),
        "Invalid color format: #12345"
    );
    assert_eq!(
        message(read(&model_xml("<multiproperties id=\"1\" pids=\"1\" blendmethods=\"mix foo\"/>", ""))),
        "Invalid blend method: foo"
    );
    assert_eq!(message(read("<model><metadata>x</metadata></model>")), "Metadata missing name");
    assert_eq!(message(read("<model><resources><object id=\"1\">")), "Unexpected EOF in object");
    assert_eq!(message(read("<model><resources>")), "Unexpected EOF in resources");
    assert_eq!(message(read(&model_xml("<object id=\"1\" uuid=\"nope\"/>", ""))), "Invalid UUID: nope");
}

#[test]
fn transform_parsing() {
    let t = parse_transform("1 2 3 4 5 6 7 8 9 10 11 12", &numbers_for("<a t=\"1 2 3 4 5 6 7 8 9 10 11 12\"/>")).unwrap();
    let values: Vec<f32> = t.m.iter().map(|b| f32::from_bits(*b)).collect();
    assert_eq!(values, vec![1.0, 2.0, 3.0, 0.0, 4.0, 5.0, 6.0, 0.0, 7.0, 8.0, 9.0, 0.0, 10.0, 11.0, 12.0, 1.0]);
}

fn parser_after_start(xml: &str) -> XmlParser {
    let mut parser = XmlParser::new(xml.as_bytes());
    match parser.read_next_event() {
        Ok(Some(XmlEvent::Start(_))) => {},
        _ => panic!("expected a start tag"),
    }
    parser
}

#[test]
fn parse_signature_element() {
    let xml = "<ds:Signature xmlns:ds=\"http://www.w3.org/2000/09/xmldsig#\"><ds:SignedInfo><ds:CanonicalizationMethod Algorithm=\"c14n\"/><ds:SignatureMethod Algorithm=\"rsa\"/><ds:Reference URI=\"/3D/3dmodel.model\"><ds:Transforms><ds:Transform Algorithm=\"t1\"/></ds:Transforms><ds:DigestMethod Algorithm=\"sha\"/><ds:DigestValue>AAAA</ds:DigestValue></ds:Reference></ds:SignedInfo><ds:SignatureValue>c2ln</ds:SignatureValue><ds:KeyInfo><ds:KeyName>k1</ds:KeyName><ds:KeyValue><ds:RSAKeyValue><ds:Modulus>bW9k</ds:Modulus><ds:Exponent>AQAB</ds:Exponent></ds:RSAKeyValue></ds:KeyValue><ds:Other><x/></ds:Other></ds:KeyInfo></ds:Signature>";
    let mut parser = parser_after_start(xml);
    let sig = parse_signature(&mut parser).unwrap();
    assert_eq!(sig.signed_info.canonicalization_method.algorithm, "c14n");
    assert_eq!(sig.signed_info.signature_method.algorithm, "rsa");
    assert_eq!(sig.signed_info.references.len(), 1);
    let r = &sig.signed_info.references[0];
    assert_eq!(r.uri, "/3D/3dmodel.model");
    assert_eq!(r.digest_method.algorithm, "sha");
    assert_eq!(r.digest_value.value, "AAAA");
    assert_eq!(r.transforms.as_ref().unwrap()[0].algorithm, "t1");
    assert_eq!(sig.signature_value.value, "c2ln");
    let key = sig.key_info.as_ref().unwrap();
    assert_eq!(key.key_name.as_deref(), Some("k1"));
    let rsa = key.key_value.as_ref().unwrap().rsa_key_value.as_ref().unwrap();
    assert_eq!((rsa.modulus.as_str(), rsa.exponent.as_str()), ("bW9k", "AQAB"));
    assert_eq!(parser.read_next_event().unwrap().is_none(), true);
    let mut truncated = parser_after_start("<Signature><SignedInfo>");
    match parse_signature(&mut truncated) {
        Err(Lib3mfError::Validation(m)) => assert_eq!(m, "Unexpected EOF in SignedInfo"),
        other => panic!("unexpected {:?}", other),
    }
}

#[test]
fn parse_keystore_element() {
    let xml = "<keystore xmlns=\"http://schemas.microsoft.com/3dmanufacturing/securecontent/2019/04\"><consumer consumerid=\"c1\" keyid=\"k\"><keyvalue>pem</keyvalue></consumer><resourcedatagroup keyuuid=\"00000000-0000-0000-0000-000000000009\"><accessright consumerid=\"c1\"><kekparams wrappingalgorithm=\"x\"/><wrappedkey encryptionalgorithm=\"rsa-oaep\">AQID</wrappedkey></accessright></resourcedatagroup></keystore>";
    let mut parser = parser_after_start(xml);
    let ks = parse_keystore_content(&mut parser, 77).unwrap();
    assert_eq!(ks.uuid, 77);
    assert_eq!(ks.consumers.len(), 1);
    assert_eq!(ks.consumers[0].id, "c1");
    assert_eq!(ks.consumers[0].key_id.as_deref(), Some("k"));
    assert_eq!(ks.resource_data_groups.len(), 1);
    assert_eq!(ks.resource_data_groups[0].key_uuid, 9);
    let right = &ks.resource_data_groups[0].access_rights[0];
    assert_eq!(right.consumer_id, "c1");
    assert_eq!(right.algorithm, "rsa-oaep");
    assert_eq!(right.wrapped_key, vec![1, 2, 3]);
    let mut bad = parser_after_start("<keystore><resourcedatagroup keyuuid=\"zz\"></resourcedatagroup></keystore>");
    match parse_keystore_content(&mut bad, 1) {
        Err(Lib3mfError::Validation(m)) => assert_eq!(m, "Invalid keyuuid: zz"),
        other => panic!("unexpected {:?}", other),
    }
    let mut missing = parser_after_start("<keystore><consumer keyid=\"k\"/></keystore>");
    match parse_keystore_content(&mut missing, 1) {
        Err(Lib3mfError::Validation(m)) => assert_eq!(m, "Missing consumerid"),
        other => panic!("unexpected {:?}", other),
    }
    let mut default_alg = parser_after_start("<keystore><resourcedatagroup keyuuid=\"00000000-0000-0000-0000-000000000001\"><accessright consumerid=\"c\"><wrappedkey>AAAA</wrappedkey></accessright></resourcedatagroup></keystore>");
    let ks = parse_keystore_content(&mut default_alg, 1).unwrap();
    assert_eq!(ks.resource_data_groups[0].access_rights[0].algorithm, "RSA-OAEP");
    assert_eq!(ks.resource_data_groups[0].access_rights[0].wrapped_key, vec![0, 0, 0]);
}

#[test]
fn metadata_text_includes_cdata_sections() {
    let xml = "<model><!-- a comment --><metadata name=\"Title\">Cube <![CDATA[& <Co>]]></metadata><resources/><build/></model>";
    let model = read(xml).unwrap();
    assert_eq!(model.get_metadata(&"Title".to_string()).map(|s| s.as_str()), Some("Cube& <Co>"));
}

#[test]
fn integer_attributes_take_a_plus_sign_and_refuse_the_rest() {
    let tag = |v: &str| XmlTag { name: "t".to_string(), attrs: vec![("n".to_string(), v.to_string())], attr_error: None };
    assert_eq!(get_attribute_u32(&tag("+7"), "n").unwrap(), 7);
    assert_eq!(get_attribute_u32(&tag("0042"), "n").unwrap(), 42);
    assert_eq!(get_attribute_u32(&tag("4294967295"), "n").unwrap(), u32::MAX);
    for bad in ["-1", "", "+", "4294967296", "1 ", "0x1"] {
        assert!(get_attribute_u32(&tag(bad), "n").is_err(), "{}", bad);
    }
}
