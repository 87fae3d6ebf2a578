use lib3mf_core::archive::model_locator::{find_model_path, locate_model_path};
use lib3mf_core::archive::opc::{parse_content_types, parse_relationships, ContentType, Relationship};
use lib3mf_core::archive::ArchiveReader;
use lib3mf_core::error::Lib3mfError;

const MODEL_TYPE: &str = "http://schemas.microsoft.com/3dmanufacturing/2013/01/3dmodel";
const THUMB_TYPE: &str = "http://schemas.openxmlformats.org/package/2006/relationships/metadata/thumbnail";
const TICKET_TYPE: &str = "http://schemas.microsoft.com/3dmanufacturing/2013/01/printticket";

struct MemoryArchive {
    entries: Vec<(String, Vec<u8>)>,
}

impl ArchiveReader for MemoryArchive {
    fn entry(&self, _name: vstd::seq::Seq<char>) -> Option<vstd::seq::Seq<u8>> {
        None
    }

    fn has_entry(&self, _name: vstd::seq::Seq<char>) -> bool {
        false
    }

    fn read_entry(&mut self, name: &str) -> Result<Vec<u8>, Lib3mfError> {
        for (n, d) in &self.entries {
            if n == name {
                return Ok(d.clone());
            }
        }
        Err(Lib3mfError::Io(format!("Entry not found: {}", name)))
    }

    fn entry_exists(&mut self, name: &str) -> bool {
        self.entries.iter().any(|(n, _)| n == name)
    }

    fn list_entries(&mut self) -> Result<Vec<String>, Lib3mfError> {
        Ok(self.entries.iter().map(|(n, _)| n.clone()).collect())
    }
}

fn rel(rel_type: &str, target: &str, mode: &str) -> Relationship {
    Relationship {
        id: "r".to_string(),
        rel_type: rel_type.to_string(),
        target: target.to_string(),
        target_mode: mode.to_string(),
    }
}

fn rels_xml(body: &str) -> Vec<u8> {
    format!(
        "<?xml version=\"1.0\" encoding=\"UTF-8\"?><Relationships xmlns=\"http://schemas.openxmlformats.org/package/2006/relationships\">{}</Relationships>",
        body
    )
    .into_bytes()
}

#[test]
fn relationships_are_read_with_defaults() {
    let xml = rels_xml(&format!(
        "<Relationship Id=\"rel0\" Type=\"{}\" Target=\"/3D/3dmodel.model\"/><Other Id=\"x\"/><Relationship Target=\"http://x\" TargetMode=\"External\"></Relationship>",
        MODEL_TYPE
    ));
    let rels = parse_relationships(&xml).unwrap();
    assert_eq!(rels.len(), 2);
    assert_eq!(rels[0].id, "rel0");
    assert_eq!(rels[0].rel_type, MODEL_TYPE);
    assert_eq!(rels[0].target, "/3D/3dmodel.model");
    assert_eq!(rels[0].target_mode, "Internal");
    assert_eq!(rels[1].id, "");
    assert_eq!(rels[1].rel_type, "");
    assert_eq!(rels[1].target_mode, "External");
}

#[test]
fn relationships_of_an_empty_part() {
    assert!(parse_relationships(&rels_xml("")).unwrap().is_empty());
    assert!(parse_relationships(b"").unwrap().is_empty());
}

#[test]
fn relationships_xml_error_is_a_validation_error() {
    let r = parse_relationships(b"<Relationships><Relationship Id=\"a\"></Oops></Relationships>");
    assert!(matches!(r, Err(Lib3mfError::Validation(_))));
}

#[test]
fn relationship_attribute_error_is_a_validation_error() {
    let r = parse_relationships(b"<Relationships><Relationship Id=\"a\" Id=\"b\"/></Relationships>");
    assert!(matches!(r, Err(Lib3mfError::Validation(_))));
}

#[test]
fn content_types_are_read_in_order() {
    let xml = b"<Types><Default Extension=\"rels\" ContentType=\"application/vnd.openxmlformats-package.relationships+xml\"/><Override PartName=\"/3D/3dmodel.model\" ContentType=\"application/vnd.ms-package.3dmanufacturing-3dmodel+xml\"/><Default Extension=\"png\"/></Types>";
    let types = parse_content_types(xml).unwrap();
    assert_eq!(types.len(), 3);
    match &types[0] {
        ContentType::Default { extension, content_type } => {
            assert_eq!(extension, "rels");
            assert_eq!(content_type, "application/vnd.openxmlformats-package.relationships+xml");
        }
        _ => panic!("expected a default"),
    }
    match &types[1] {
        ContentType::Override { part_name, content_type } => {
            assert_eq!(part_name, "/3D/3dmodel.model");
            assert_eq!(content_type, "application/vnd.ms-package.3dmanufacturing-3dmodel+xml");
        }
        _ => panic!("expected an override"),
    }
    match &types[2] {
        ContentType::Default { extension, content_type } => {
            assert_eq!(extension, "png");
            assert_eq!(content_type, "");
        }
        _ => panic!("expected a default"),
    }
}

#[test]
fn content_types_xml_error_is_a_validation_error() {
    assert!(matches!(parse_content_types(b"<Types></Default>"), Err(Lib3mfError::Validation(_))));
}

#[test]
fn locate_strips_leading_slashes() {
    let rels = vec![rel(MODEL_TYPE, "//3D/model.model", "Internal")];
    assert_eq!(locate_model_path(&rels, &vec![true]).unwrap(), "3D/model.model");
}

#[test]
fn locate_rejects_external_relationships() {
    let rels = vec![rel(MODEL_TYPE, "/3D/3dmodel.model", "Internal"), rel("x", "http://example.com", "EXTERNAL")];
    assert_eq!(
        locate_model_path(&rels, &vec![true, true]).unwrap_err(),
        Lib3mfError::Validation(
            "External relationships are not allowed in 3MF packages. Found external relationship with target 'http://example.com'"
                .to_string()
        )
    );
}

#[test]
fn locate_rejects_a_second_model() {
    let rels = vec![rel(MODEL_TYPE, "/a.model", "Internal"), rel(MODEL_TYPE, "/b.model", "Internal")];
    assert_eq!(
        locate_model_path(&rels, &vec![true, true]).unwrap_err(),
        Lib3mfError::Validation(
            "Multiple 3D model part relationships found. Only one 3D model part is allowed per package".to_string()
        )
    );
}

#[test]
fn locate_rejects_missing_thumbnail() {
    let rels = vec![rel(THUMB_TYPE, "/Metadata/thumbnail.png", "Internal"), rel(MODEL_TYPE, "/a.model", "Internal")];
    assert_eq!(
        locate_model_path(&rels, &vec![false, true]).unwrap_err(),
        Lib3mfError::Validation(
            "Thumbnail file 'Metadata/thumbnail.png' referenced in relationships does not exist in package".to_string()
        )
    );
    assert_eq!(locate_model_path(&rels, &vec![true, true]).unwrap(), "a.model");
}

#[test]
fn locate_rejects_a_second_print_ticket() {
    let rels = vec![
        rel(TICKET_TYPE, "/t1.xml", "Internal"),
        rel(MODEL_TYPE, "/a.model", "Internal"),
        rel(TICKET_TYPE, "/t2.xml", "Internal"),
    ];
    assert_eq!(
        locate_model_path(&rels, &vec![true, true, true]).unwrap_err(),
        Lib3mfError::Validation(
            "Multiple print ticket relationships found. Only one print ticket is allowed per package".to_string()
        )
    );
}

#[test]
fn locate_without_model() {
    assert_eq!(
        locate_model_path(&vec![], &vec![]).unwrap_err(),
        Lib3mfError::Validation("No 3D model relationship found".to_string())
    );
}

#[test]
fn find_model_path_reads_the_root_relationships() {
    let body = format!(
        "<Relationship Id=\"rel0\" Type=\"{}\" Target=\"/3D/3dmodel.model\"/><Relationship Id=\"rel1\" Type=\"{}\" Target=\"/Metadata/thumbnail.png\"/>",
        MODEL_TYPE, THUMB_TYPE
    );
    let mut archive = MemoryArchive {
        entries: vec![
            ("_rels/.rels".to_string(), rels_xml(&body)),
            ("Metadata/thumbnail.png".to_string(), vec![1, 2, 3]),
        ],
    };
    assert_eq!(find_model_path(&mut archive).unwrap(), "3D/3dmodel.model");
    assert_eq!(archive.list_entries().unwrap().len(), 2);
}

#[test]
fn find_model_path_without_relationships() {
    let mut archive = MemoryArchive { entries: vec![] };
    assert_eq!(
        find_model_path(&mut archive).unwrap_err(),
        Lib3mfError::InvalidStructure("Missing _rels/.rels".to_string())
    );
}

#[test]
fn find_model_path_checks_thumbnails_in_the_archive() {
    let body = format!(
        "<Relationship Id=\"rel0\" Type=\"{}\" Target=\"/3D/3dmodel.model\"/><Relationship Id=\"rel1\" Type=\"{}\" Target=\"/Metadata/thumbnail.png\"/>",
        MODEL_TYPE, THUMB_TYPE
    );
    let mut archive = MemoryArchive { entries: vec![("_rels/.rels".to_string(), rels_xml(&body))] };
    assert_eq!(
        find_model_path(&mut archive).unwrap_err(),
        Lib3mfError::Validation(
            "Thumbnail file 'Metadata/thumbnail.png' referenced in relationships does not exist in package".to_string()
        )
    );
}
