use lib3mf_core::error::Lib3mfError;
use lib3mf_core::utils::c14n::Canonicalizer;

fn text(r: Result<Vec<u8>, Lib3mfError>) -> String {
    String::from_utf8(r.unwrap()).unwrap()
}

#[test]
fn canonical_form_sorts_attributes_and_expands_empty_elements() {
    let out = text(Canonicalizer::canonicalize("<a z=\"1\" b=\"2\"><c/>hi</a>"));
    assert_eq!(out, "<a b=\"2\" z=\"1\"><c></c>hi</a>");
}

#[test]
fn canonical_form_drops_comments_and_declarations() {
    let out = text(Canonicalizer::canonicalize("<?xml version=\"1.0\"?><r><!-- note --><x>t</x></r>"));
    assert_eq!(out, "<r><x>t</x></r>");
}

#[test]
fn canonical_form_reports_xml_errors() {
    assert!(matches!(Canonicalizer::canonicalize("<a></b>"), Err(Lib3mfError::InvalidStructure(_))));
    assert!(matches!(Canonicalizer::canonicalize("<a x=\"1\" x=\"2\"/>"), Err(Lib3mfError::InvalidStructure(_))));
}

#[test]
fn subtree_is_captured_from_its_start_to_its_end() {
    let xml = "<Signature><SignedInfo b=\"1\" a=\"2\"><X/>v</SignedInfo><Other/></Signature>";
    let out = text(Canonicalizer::canonicalize_subtree(xml, "SignedInfo"));
    assert_eq!(out, "<SignedInfo a=\"2\" b=\"1\"><X></X>v</SignedInfo>");
}

#[test]
fn empty_target_is_written_out() {
    let out = text(Canonicalizer::canonicalize_subtree("<r><T k=\"v\"/></r>", "T"));
    assert_eq!(out, "<T k=\"v\"></T>");
}

#[test]
fn missing_subtree_is_a_validation_error() {
    assert_eq!(
        Canonicalizer::canonicalize_subtree("<r/>", "Foo").unwrap_err(),
        Lib3mfError::Validation("Tag <Foo> not found for C14N".to_string())
    );
}

#[test]
fn errors_after_the_subtree_are_not_read() {
    let out = text(Canonicalizer::canonicalize_subtree("<r><T>a</T></oops>", "T"));
    assert_eq!(out, "<T>a</T>");
}
