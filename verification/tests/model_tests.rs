use lib3mf_core::error::Lib3mfError;
use lib3mf_core::model::build_section::BuildItem;
use lib3mf_core::model::core_model::Model;
use lib3mf_core::model::mesh::{Component, Components, Geometry, Mesh, Object, ObjectType, Transform, Triangle};
use lib3mf_core::validation::geometry::MeshMeasures;
use lib3mf_core::model::resolver::{canonical_path, PartResolver, ResolveOptions};
use lib3mf_core::model::resources::{ResourceCollection, ResourceId};
use lib3mf_core::model::stats_impl::format_duration;
use lib3mf_core::model::units::Unit;
use lib3mf_core::validation::ValidationLevel;
use lib3mf_core::archive::MemoryArchive;
use lib3mf_core::model::materials::Color;
use lib3mf_core::model::stats_impl::collect_vendor_data;
use lib3mf_core::utils::diff::{compare_models, ResourceDiff};
use lib3mf_core::utils::hardware::HardwareCapabilities;

fn bits(x: f32) -> u32 {
    x.to_bits()
}

fn translation(x: f32, y: f32, z: f32) -> Transform {
    let mut t = Transform::identity();
    t.m[12] = bits(x);
    t.m[13] = bits(y);
    t.m[14] = bits(z);
    t
}

fn simple_mesh() -> Mesh {
    let mut mesh = Mesh::new();
    mesh.add_vertex(bits(0.0), bits(0.0), bits(0.0));
    mesh.add_vertex(bits(1.0), bits(0.0), bits(0.0));
    mesh.add_vertex(bits(0.0), bits(1.0), bits(0.0));
    mesh.add_triangle(0, 1, 2);
    mesh
}

fn mesh_object(id: u32, object_type: ObjectType, name: Option<&str>) -> Object {
    Object {
        id: ResourceId(id),
        object_type,
        name: name.map(|s| s.to_string()),
        part_number: None,
        uuid: None,
        pid: None,
        pindex: None,
        thumbnail: None,
        geometry: Geometry::Mesh(simple_mesh()),
    }
}

fn components_object(id: u32, components: Vec<Component>) -> Object {
    Object {
        id: ResourceId(id),
        object_type: ObjectType::Model,
        name: None,
        part_number: None,
        uuid: None,
        pid: None,
        pindex: None,
        thumbnail: None,
        geometry: Geometry::Components(Components { components }),
    }
}

fn component_with_transform(object_id: u32, transform: Transform) -> Component {
    Component { object_id: ResourceId(object_id), path: None, uuid: None, transform }
}

fn component(object_id: u32) -> Component {
    component_with_transform(object_id, Transform::identity())
}

fn component_with_path(object_id: u32, path: &str) -> Component {
    Component {
        object_id: ResourceId(object_id),
        path: Some(path.to_string()),
        uuid: None,
        transform: Transform::identity(),
    }
}

fn build_item_full(object_id: u32, transform: Transform, printable: Option<bool>) -> BuildItem {
    BuildItem {
        object_id: ResourceId(object_id),
        uuid: None,
        path: None,
        part_number: None,
        transform,
        printable,
    }
}

fn build_item(object_id: u32) -> BuildItem {
    build_item_full(object_id, Transform::identity(), None)
}

fn options(filter_non_printable: bool, filter_other_objects: bool, max_depth: u32) -> ResolveOptions {
    ResolveOptions { filter_non_printable, filter_other_objects, max_depth }
}

#[test]
fn test_model_default() {
    let model = Model::default();
    assert_eq!(model.unit, Unit::Millimeter);
    assert!(model.metadata.is_empty());
}

#[test]
fn test_mesh_construction() {
    let mut mesh = Mesh::new();
    let v1 = mesh.add_vertex(bits(0.0), bits(0.0), bits(0.0));
    let v2 = mesh.add_vertex(bits(1.0), bits(0.0), bits(0.0));
    let v3 = mesh.add_vertex(bits(0.0), bits(1.0), bits(0.0));

    mesh.add_triangle(v1, v2, v3);

    assert_eq!(mesh.vertices.len(), 3);
    assert_eq!(mesh.triangles.len(), 1);

    let t = &mesh.triangles[0];
    assert_eq!(t.v1, 0);
    assert_eq!(t.v2, 1);
    assert_eq!(t.v3, 2);
}

#[test]
fn test_resource_collection() {
    let mut resources = ResourceCollection::new();
    let object = Object {
        id: ResourceId(1),
        object_type: ObjectType::Model,
        name: Some("Test Object".to_string()),
        part_number: None,
        uuid: None,
        pid: None,
        thumbnail: None,
        pindex: None,
        geometry: Geometry::Mesh(Mesh::new()),
    };

    assert!(resources.add_object(object.clone()).is_ok());
    assert!(resources.add_object(object).is_err());

    assert!(resources.get_object(ResourceId(1)).is_some());
    assert!(resources.get_object(ResourceId(2)).is_none());
}

#[test]
fn test_format_duration() {
    assert_eq!(format_duration(0), "0s");
    assert_eq!(format_duration(45), "45s");
    assert_eq!(format_duration(60), "1m");
    assert_eq!(format_duration(61), "1m 1s");
    assert_eq!(format_duration(1895), "31m 35s");
    assert_eq!(format_duration(3600), "1h");
    assert_eq!(format_duration(3660), "1h 1m");
    assert_eq!(format_duration(3661), "1h 1m 1s");
    assert_eq!(format_duration(7200), "2h");
}

#[test]
fn test_resolve_same_file_components() {
    let mut model = Model::default();
    model.resources.add_object(mesh_object(1, ObjectType::Model, None)).unwrap();
    model.resources.add_object(components_object(2, vec![component(1)])).unwrap();
    model.build.items.push(build_item(2));

    let resolver = PartResolver::new(model);
    let meshes = resolver.resolve_meshes(&ResolveOptions::default()).unwrap();

    assert_eq!(meshes.len(), 1);
    assert_eq!(meshes[0].mesh.vertices.len(), 3);
    assert_eq!(meshes[0].mesh.triangles.len(), 1);
    assert_eq!(meshes[0].transforms, vec![Transform::identity(), Transform::identity()]);
}

#[test]
fn test_resolve_transform_accumulation() {
    let comp_transform = translation(0.0, 0.0, 10.0);
    let build_transform = translation(5.0, 0.0, 0.0);

    let mut model = Model::default();
    model.resources.add_object(mesh_object(1, ObjectType::Model, None)).unwrap();
    model.resources.add_object(components_object(2, vec![component_with_transform(1, comp_transform)])).unwrap();
    model.build.items.push(build_item_full(2, build_transform, None));

    let resolver = PartResolver::new(model);
    let meshes = resolver.resolve_meshes(&ResolveOptions::default()).unwrap();

    assert_eq!(meshes.len(), 1);
    assert_eq!(meshes[0].transforms, vec![build_transform, comp_transform]);
}

#[test]
fn test_resolve_filters_other_objects() {
    let mut model = Model::default();
    model.resources.add_object(mesh_object(1, ObjectType::Model, None)).unwrap();
    model.resources.add_object(mesh_object(2, ObjectType::Other, None)).unwrap();
    model.resources.add_object(components_object(3, vec![component(1), component(2)])).unwrap();
    model.build.items.push(build_item(3));

    let resolver = PartResolver::new(model.clone());
    let meshes = resolver.resolve_meshes(&ResolveOptions::default()).unwrap();
    assert_eq!(meshes.len(), 1);
    assert_eq!(meshes[0].object_type, ObjectType::Model);

    let resolver = PartResolver::new(model);
    let meshes = resolver.resolve_meshes(&options(true, false, 16)).unwrap();
    assert_eq!(meshes.len(), 2);
}

#[test]
fn test_resolve_filters_non_printable() {
    let mut model = Model::default();
    model.resources.add_object(mesh_object(1, ObjectType::Model, None)).unwrap();
    model.build.items.push(build_item_full(1, Transform::identity(), Some(true)));
    model.build.items.push(build_item_full(1, Transform::identity(), Some(false)));

    let resolver = PartResolver::new(model.clone());
    let meshes = resolver.resolve_meshes(&ResolveOptions::default()).unwrap();
    assert_eq!(meshes.len(), 1);

    let resolver = PartResolver::new(model);
    let meshes = resolver.resolve_meshes(&options(false, true, 16)).unwrap();
    assert_eq!(meshes.len(), 2);
}

#[test]
fn test_resolve_cycle_detection() {
    let mut model = Model::default();
    model.resources.add_object(components_object(1, vec![component(2)])).unwrap();
    model.resources.add_object(components_object(2, vec![component(1)])).unwrap();
    model.build.items.push(build_item(1));

    let resolver = PartResolver::new(model);
    let result = resolver.resolve_meshes(&ResolveOptions::default());

    assert!(result.is_err());
    let msg = result.unwrap_err().to_string();
    assert!(msg.contains("Cycle"), "Expected 'Cycle' in error: {}", msg);
}

#[test]
fn test_resolve_depth_limit() {
    let mut model = Model::default();
    for i in 1u32..18 {
        model.resources.add_object(components_object(i, vec![component(i + 1)])).unwrap();
    }
    model.resources.add_object(mesh_object(18, ObjectType::Model, None)).unwrap();
    model.build.items.push(build_item(1));

    let resolver = PartResolver::new(model.clone());
    let result = resolver.resolve_meshes(&ResolveOptions::default());
    assert!(result.is_err(), "Expected depth limit error with 17-level chain and max_depth=16");

    let resolver = PartResolver::new(model);
    let meshes = resolver.resolve_meshes(&options(true, true, 20)).unwrap();
    assert_eq!(meshes.len(), 1);
}

#[test]
fn test_resolve_dangling_reference() {
    let mut model = Model::default();
    model.resources.add_object(components_object(1, vec![component(999)])).unwrap();
    model.build.items.push(build_item(1));

    let resolver = PartResolver::new(model);
    let result = resolver.resolve_meshes(&ResolveOptions::default());

    assert!(result.is_err());
    let msg = result.unwrap_err().to_string();
    assert!(msg.contains("not found"), "Expected 'not found' in error: {}", msg);
}

#[test]
fn test_resolve_instancing_not_false_cycle() {
    let mut model = Model::default();
    model.resources.add_object(mesh_object(1, ObjectType::Model, None)).unwrap();
    model.resources.add_object(components_object(2, vec![component(1), component(1)])).unwrap();
    model.build.items.push(build_item(2));

    let resolver = PartResolver::new(model);
    let meshes = resolver.resolve_meshes(&ResolveOptions::default()).unwrap();

    assert_eq!(
        meshes.len(),
        2,
        "Instancing (same object referenced twice) should produce 2 ResolvedMesh entries"
    );
}

#[test]
fn test_resolve_unit_carried() {
    let mut model = Model::default();
    model.unit = Unit::Inch;
    model.resources.add_object(mesh_object(1, ObjectType::Model, None)).unwrap();
    model.build.items.push(build_item(1));

    let resolver = PartResolver::new(model);
    let meshes = resolver.resolve_meshes(&ResolveOptions::default()).unwrap();

    assert_eq!(meshes.len(), 1);
    assert_eq!(meshes[0].unit, Unit::Inch);
}

#[test]
fn test_resolve_empty_build() {
    let resolver = PartResolver::new(Model::default());
    let meshes = resolver.resolve_meshes(&ResolveOptions::default()).unwrap();
    assert!(meshes.is_empty());
}

#[test]
fn test_resolve_object_name_carried() {
    let mut model = Model::default();
    model.resources.add_object(mesh_object(1, ObjectType::Model, Some("MyObject"))).unwrap();
    model.build.items.push(build_item(1));

    let resolver = PartResolver::new(model);
    let meshes = resolver.resolve_meshes(&ResolveOptions::default()).unwrap();

    assert_eq!(meshes.len(), 1);
    assert_eq!(meshes[0].name, Some("MyObject".to_string()));
}

fn cross_file_resolver() -> PartResolver {
    let sub_path = "3D/Objects/object_1.model";
    let mut sub_model = Model::default();
    sub_model.resources.add_object(mesh_object(1, ObjectType::Model, None)).unwrap();
    sub_model.resources.add_object(mesh_object(2, ObjectType::Other, None)).unwrap();

    let mut root_model = Model::default();
    let root_obj = components_object(8, vec![component_with_path(1, sub_path), component_with_path(2, sub_path)]);
    root_model.resources.add_object(root_obj).unwrap();
    root_model.build.items.push(build_item(8));

    let mut resolver = PartResolver::new(root_model);
    resolver.add_part(canonical_path(Some(sub_path)), Ok(sub_model));
    resolver
}

#[test]
fn test_resolve_cross_file_components() {
    let resolver = cross_file_resolver();
    let meshes = resolver.resolve_meshes(&ResolveOptions::default()).unwrap();
    assert_eq!(meshes.len(), 1, "Expected 1 mesh (type=other filtered out), got {}", meshes.len());

    let resolver2 = cross_file_resolver();
    let meshes2 = resolver2.resolve_meshes(&options(true, false, 16)).unwrap();
    assert_eq!(meshes2.len(), 2, "Expected 2 meshes when filter_other_objects=false");
}

#[test]
fn resolve_missing_part_reports_io_error() {
    let mut root_model = Model::default();
    root_model.resources.add_object(components_object(8, vec![component_with_path(1, "/3D/missing.model")])).unwrap();
    root_model.build.items.push(build_item(8));
    let resolver = PartResolver::new(root_model);
    let result = resolver.resolve_meshes(&ResolveOptions::default());
    assert_eq!(result.unwrap_err(), Lib3mfError::Io("3D/missing.model".to_string()));
}

#[test]
fn resolve_depth_error_message_is_exact() {
    let mut model = Model::default();
    model.resources.add_object(components_object(1, vec![component(2)])).unwrap();
    model.resources.add_object(mesh_object(2, ObjectType::Model, None)).unwrap();
    model.build.items.push(build_item(1));
    let resolver = PartResolver::new(model);
    let err = resolver.resolve_meshes(&options(true, true, 0)).unwrap_err();
    assert_eq!(
        err,
        Lib3mfError::InvalidStructure("Component tree depth 1 exceeds maximum of 0".to_string())
    );
}

#[test]
fn resolve_dangling_message_is_exact() {
    let mut model = Model::default();
    model.resources.add_object(components_object(1, vec![component(999)])).unwrap();
    model.build.items.push(build_item(1));
    let resolver = PartResolver::new(model);
    let err = resolver.resolve_meshes(&ResolveOptions::default()).unwrap_err();
    assert_eq!(err.to_string(), "Invalid 3MF structure: Object 999 not found in path None");
}

#[test]
fn canonical_path_maps_main_model_to_root() {
    assert_eq!(canonical_path(None), "ROOT");
    assert_eq!(canonical_path(Some("")), "ROOT");
    assert_eq!(canonical_path(Some("/3D/3DModel.model")), "ROOT");
    assert_eq!(canonical_path(Some("//3D/Objects/a.model")), "3D/Objects/a.model");
}

#[test]
fn part_resolver_finds_objects_by_path() {
    let mut sub_model = Model::default();
    sub_model.resources.add_object(mesh_object(5, ObjectType::Model, Some("Sub"))).unwrap();
    let mut resolver = PartResolver::new(Model::default());
    resolver.add_part(canonical_path(Some("/3D/sub.model")), Ok(sub_model));
    let found = resolver.resolve_object(ResourceId(5), Some("3D/sub.model")).unwrap();
    assert_eq!(found.unwrap().1.name, Some("Sub".to_string()));
    assert!(resolver.resolve_object(ResourceId(5), None).unwrap().is_none());
    assert!(resolver.get_root_model().resources.iter_objects().is_empty());
}

#[test]
fn error_messages_follow_their_kind() {
    assert_eq!(Lib3mfError::ResourceNotFound(42).to_string(), "Resource not found: 42");
    assert_eq!(Lib3mfError::Validation("x".to_string()).to_string(), "Validation failed: x");
    assert_eq!(Lib3mfError::Io("gone".to_string()).to_string(), "I/O error: gone");
    assert_eq!(
        Lib3mfError::FeatureNotEnabled("crypto".to_string(), "crypto".to_string()).to_string(),
        "Feature not enabled: crypto. Rebuild with `cargo build --features crypto`"
    );
}

#[test]
fn metadata_insert_replaces_existing_entry() {
    let mut model = Model::default();
    model.insert_metadata("Title".to_string(), "A".to_string());
    model.insert_metadata("Designer".to_string(), "B".to_string());
    model.insert_metadata("Title".to_string(), "C".to_string());
    assert_eq!(model.metadata.len(), 2);
    assert_eq!(model.get_metadata(&"Title".to_string()), Some(&"C".to_string()));
    assert_eq!(model.get_metadata(&"Missing".to_string()), None);
}

#[test]
fn fill_holes_caps_an_open_triangle() {
    let mut mesh = Mesh::new();
    mesh.add_vertex(0, 0, 0);
    mesh.add_vertex(0x3f80_0000, 0, 0);
    mesh.add_vertex(0, 0x3f80_0000, 0);
    mesh.add_triangle(0, 1, 2);
    let added = lib3mf_core::model::repair::fill_holes(&mut mesh);
    assert_eq!(added, 1);
    assert_eq!(mesh.triangles.len(), 2);
    let t = mesh.triangles[1];
    let mut names = vec![t.v1, t.v2, t.v3];
    names.sort();
    assert_eq!(names, vec![0, 1, 2]);
    assert_eq!(mesh.triangles[0].v1, 0);
}

#[test]
fn standard_validation_reports_component_cycles() {
    let mut model = Model::default();
    model.resources.add_object(components_object(1, vec![component(2)])).unwrap();
    model.resources.add_object(components_object(2, vec![component(1)])).unwrap();
    let lengths = vec![Vec::new(), Vec::new()];
    let report = model.validate(ValidationLevel::Standard, &Vec::new(), &lengths);
    assert!(report.has_errors());
    assert!(report.items.iter().any(|i| i.code == 2107
        && i.message == "Cycle detected in component graph involving object 1"));
    let minimal = model.validate(ValidationLevel::Minimal, &Vec::new(), &lengths);
    assert!(!minimal.items.iter().any(|i| i.code == 2107));

    let mut acyclic = Model::default();
    acyclic.resources.add_object(mesh_object(1, ObjectType::Model, None)).unwrap();
    acyclic.resources.add_object(components_object(2, vec![component(1), component(1)])).unwrap();
    let report = acyclic.validate(ValidationLevel::Standard, &Vec::new(), &lengths);
    assert!(!report.items.iter().any(|i| i.code == 2107));
}


#[test]
fn higher_levels_keep_the_findings_of_lower_ones() {
    let mut model = Model::default();
    model.resources.add_object(components_object(1, vec![component(2)])).unwrap();
    model.resources.add_object(components_object(2, vec![component(1)])).unwrap();
    model.build.items.push(build_item_full(9, Transform::identity(), None));
    let lengths = vec![Vec::new(), Vec::new()];
    let levels = [ValidationLevel::Minimal, ValidationLevel::Standard, ValidationLevel::Strict];
    let reports: Vec<_> = levels.iter().map(|l| model.validate(*l, &Vec::new(), &lengths)).collect();
    assert!(reports[1].items.len() >= 2);
    for w in reports.windows(2) {
        for item in &w[0].items {
            let lower = w[0].items.iter().filter(|i| i.code == item.code && i.message == item.message).count();
            let higher = w[1].items.iter().filter(|i| i.code == item.code && i.message == item.message).count();
            assert!(lower <= higher);
        }
    }
}


fn stats_model(application: &str) -> Model {
    let mut model = Model::default();
    model.insert_metadata("Application".to_string(), application.to_string());
    model.resources.add_object(mesh_object(1, ObjectType::Model, None)).unwrap();
    model.resources.add_object(mesh_object(2, ObjectType::Support, None)).unwrap();
    model.resources.add_object(components_object(3, vec![component(1), component(2), component(1)])).unwrap();
    model.build.items.push(build_item_full(3, Transform::identity(), None));
    model.build.items.push(build_item_full(1, Transform::identity(), Some(false)));
    model
}

#[test]
fn compute_stats_counts_what_the_build_reaches() {
    let model = stats_model("PrusaSlicer");
    let resolver = PartResolver::new(model.clone());
    let mut archive = MemoryArchive {
        entries: vec![("Metadata/thumbnail.png".to_string(), vec![1, 2, 3])],
    };
    let system = HardwareCapabilities { architecture: "test".to_string(), num_cpus: 2, simd_features: Vec::new() };
    let stats = model.compute_stats(&mut archive, &resolver, system).unwrap();
    assert_eq!(stats.generator.as_deref(), Some("PrusaSlicer"));
    assert_eq!(stats.geometry.instance_count, 2);
    assert_eq!(stats.geometry.object_count, 4);
    assert_eq!(stats.geometry.vertex_count, 12);
    assert_eq!(stats.geometry.triangle_count, 4);
    assert_eq!(
        stats.geometry.type_counts,
        vec![("model".to_string(), 4), ("support".to_string(), 1)]
    );
    assert_eq!(stats.geometry.placed_meshes.len(), 4);
    assert_eq!(stats.geometry.placed_meshes[0].transforms.len(), 2);
    assert!(stats.thumbnails.package_thumbnail_present);
    assert_eq!(stats.thumbnails.object_thumbnail_count, 0);
    assert!(stats.vendor.printer_model.is_none());
    assert!(stats.vendor.profile_configs.is_empty());
    assert_eq!(stats.system_info.num_cpus, 2);
}

#[test]
fn compute_stats_reads_slicer_profiles_for_slicer_packages() {
    let model = stats_model("BambuStudio-01.09.00.00");
    let resolver = PartResolver::new(model.clone());
    let mut archive = MemoryArchive {
        entries: vec![
            ("Metadata/machine_settings_1.config".to_string(), b"{\"inherits\": \"Bambu Lab A1\", \"name\": \"m\"}".to_vec()),
            ("Metadata/filament_settings_0.config".to_string(), b"{\"name\": \"PLA\"}".to_vec()),
        ],
    };
    let system = HardwareCapabilities::default();
    let stats = model.compute_stats(&mut archive, &resolver, system).unwrap();
    assert!(!stats.thumbnails.package_thumbnail_present);
    let kinds: Vec<(String, u32)> = stats.vendor.profile_configs.iter().map(|p| (p.config_type.clone(), p.index)).collect();
    assert_eq!(kinds, vec![("filament".to_string(), 0), ("machine".to_string(), 1)]);
    assert_eq!(stats.vendor.printer_model.as_deref(), Some("Bambu Lab A1"));

    let mut archive = MemoryArchive { entries: vec![("/Metadata/slice_info.cfg".to_string(), Vec::new())] };
    let vendor = collect_vendor_data(&mut archive);
    assert!(vendor.slicer_version.is_none() && vendor.profile_configs.is_empty());
}

#[test]
fn compute_stats_fails_on_a_missing_part() {
    let mut model = Model::default();
    model.resources.add_object(components_object(1, vec![component_with_path(5, "/3D/other.model")])).unwrap();
    model.build.items.push(build_item_full(1, Transform::identity(), None));
    let resolver = PartResolver::new(model.clone());
    let mut archive = MemoryArchive { entries: Vec::new() };
    assert!(model.compute_stats(&mut archive, &resolver, HardwareCapabilities::default()).is_err());
}

#[test]
fn a_model_compared_with_itself_differs_in_nothing() {
    let model = stats_model("x");
    assert!(compare_models(&model, &model).is_empty());
}

#[test]
fn hex_text_of_a_color_reads_back() {
    for c in [Color { r: 0, g: 0, b: 0, a: 0 }, Color { r: 0x12, g: 0xab, b: 0xfe, a: 0x7f }, Color { r: 255, g: 255, b: 255, a: 255 }] {
        assert_eq!(Color::from_hex(&c.to_hex()), Some(c));
    }
}

#[test]
fn what_one_comparison_adds_the_reverse_removes() {
    let mut a = Model::default();
    a.resources.add_object(mesh_object(1, ObjectType::Model, None)).unwrap();
    a.resources.add_object(mesh_object(2, ObjectType::Model, None)).unwrap();
    let mut b = Model::default();
    b.resources.add_object(mesh_object(2, ObjectType::Model, None)).unwrap();
    b.resources.add_object(components_object(3, vec![component(2)])).unwrap();
    b.resources.add_object(mesh_object(4, ObjectType::Support, None)).unwrap();
    let added: Vec<(u32, String)> = compare_models(&a, &b).resource_diffs.iter().filter_map(|d| match d {
        ResourceDiff::Added { id, geometry_type } => Some((*id, geometry_type.to_string())),
        _ => None,
    }).collect();
    let removed: Vec<(u32, String)> = compare_models(&b, &a).resource_diffs.iter().filter_map(|d| match d {
        ResourceDiff::Removed { id, geometry_type } => Some((*id, geometry_type.to_string())),
        _ => None,
    }).collect();
    assert_eq!(added, vec![(3, "Components".to_string()), (4, "Mesh".to_string())]);
    assert_eq!(added, removed);
}

#[test]
fn paranoid_validation_takes_support_meshes_with_stray_indices() {
    let mut model = Model::default();
    let mut obj = mesh_object(1, ObjectType::Support, None);
    if let Geometry::Mesh(mesh) = &mut obj.geometry {
        mesh.triangles.push(Triangle { v1: 0, v2: 1, v3: 99, p1: None, p2: None, p3: None, pid: None });
    }
    let ntris = match &obj.geometry {
        Geometry::Mesh(m) => m.triangles.len(),
        _ => 0,
    };
    model.resources.add_object(obj).unwrap();
    let measures = vec![MeshMeasures { intersecting_pairs: 0, small_area: vec![false; ntris] }];
    let report = model.validate(ValidationLevel::Paranoid, &measures, &vec![Vec::new()]);
    assert!(report.items.iter().all(|i| i.code != 4006));
    assert!(report.items.iter().any(|i| i.code == 4100));
}
