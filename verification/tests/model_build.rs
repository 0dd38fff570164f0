use lathe_mesh::cooked::DiskInformation;
use lathe_mesh::geometry::Vec3Bits;
use lathe_mesh::raw;
use lathe_mesh::{body_from_raw, parse_model, Model, ModelConfig};

fn zero_quad() -> raw::FloatQuad {
    raw::FloatQuad { a: 0, b: 0, c: 0, d: 0 }
}

fn info_rec(disk_idx: i32) -> raw::DiskInformation {
    raw::DiskInformation {
        shift_x: 0,
        shift_y: 0,
        scale_x: 1.0f32.to_bits(),
        scale_y: 1.0f32.to_bits(),
        disk_idx,
        id: 0,
        flags: 0,
        arr1: zero_quad(),
        arr2: zero_quad(),
    }
}

fn row(disk_info_idx: i32, action: i32, value: f32, left: i32, right: i32) -> raw::BodySegment {
    raw::BodySegment {
        disk_info_idx,
        action,
        value: value.to_bits(),
        color: 0,
        left,
        right,
    }
}

fn vertex(x: f32, y: f32, z: f32, tag: i32) -> (Vec3Bits, i32) {
    (Vec3Bits { x: x.to_bits(), y: y.to_bits(), z: z.to_bits() }, tag)
}

#[test]
fn a_self_referencing_row_raises_the_cycle_failure() {
    let body = vec![row(-1, 0, 0.0, 0, -1)];
    let info: Vec<DiskInformation> = Vec::new();
    assert!(body_from_raw(&body, &info).is_err());
}

#[test]
fn two_parents_for_one_row_also_raise_the_cycle_failure() {
    let body = vec![row(-1, 0, 0.0, 1, 2), row(-1, 0, 0.0, 2, -1), row(-1, 0, 0.0, -1, -1)];
    let info: Vec<DiskInformation> = Vec::new();
    assert!(body_from_raw(&body, &info).is_err());
}

#[test]
fn a_proper_tree_is_rebuilt_with_resolved_fields() {
    let config = ModelConfig {
        disks: vec![vec![vertex(1.0, 0.0, 0.0, 0)]],
        disk_info: vec![info_rec(0), info_rec(99)],
        body: vec![
            row(0, 0, 2.0, 1, -1),
            row(1, 3, 45.0, -1, -1),
        ],
    };
    let model = Model::new(config).expect("the table is a tree");
    assert_eq!(model.disk_size(), 1);
    assert_eq!(model.disk_info[0].disk, Some(0));
    assert_eq!(model.disk_info[1].disk, None);
    let root = model.body().expect("the table is not empty");
    assert_eq!(root.index, 0);
    assert_eq!(root.action, 0);
    assert_eq!(root.disk_info, Some(0));
    let left = root.left.as_ref().expect("row zero names row one");
    assert_eq!(left.index, 1);
    assert_eq!(left.action, 3);
    // a rotation action never carries disk information
    assert_eq!(left.disk_info, None);
    assert!(left.left.is_none());
    assert!(root.right.is_none());
}

#[test]
fn out_of_range_children_degrade_to_absent() {
    let body = vec![row(-1, 0, 0.0, 5, -2)];
    let info: Vec<DiskInformation> = Vec::new();
    let root = body_from_raw(&body, &info)
        .expect("no row is revisited")
        .expect("the table is not empty");
    assert!(root.left.is_none());
    assert!(root.right.is_none());
}

#[test]
fn an_empty_table_has_no_body() {
    let body: Vec<raw::BodySegment> = Vec::new();
    let info: Vec<DiskInformation> = Vec::new();
    assert!(body_from_raw(&body, &info).expect("nothing to revisit").is_none());
}

#[test]
fn a_negative_action_never_attaches_disk_information() {
    // only the two place actions (0 and 1) attach a record; a negative
    // action code does not, even with a resolvable index
    let config = ModelConfig {
        disks: vec![vec![vertex(1.0, 0.0, 0.0, 0)]],
        disk_info: vec![info_rec(0)],
        body: vec![row(0, -2, 0.0, -1, -1)],
    };
    let model = Model::new(config).expect("the table is a tree");
    let root = model.body().expect("one row");
    assert_eq!(root.action, -2);
    assert_eq!(root.disk_info, None);
}

#[test]
fn negative_color_degrades_to_absent() {
    let mut r = row(-1, 0, 0.0, -1, -1);
    r.color = -7;
    let info: Vec<DiskInformation> = Vec::new();
    let root = body_from_raw(&vec![r], &info).unwrap().unwrap();
    assert_eq!(root.color, None);
}

#[test]
fn parse_model_reports_each_failing_stage() {
    // nothing at all: the disk stage fails first
    let err = parse_model(b"").unwrap_err();
    assert_eq!(err.0, "Parse failure: disks");

    // a clean disk stage, then a missing body count
    let disks_only = b"HEAD\n1\n1\n1\n0.5\n0.5\n0.5\n1\n";
    let err = parse_model(disks_only).unwrap_err();
    assert_eq!(err.0, "Parse failure: body");

    // disks and an empty body, then a missing disk-info count
    let no_info = b"HEAD\n1\n1\n1\n0.5\n0.5\n0.5\n1\n0\n";
    let err = parse_model(no_info).unwrap_err();
    assert_eq!(err.0, "Parse failure: disk information");
}

#[test]
fn parse_model_reports_a_cycle() {
    // one disk, one body row whose left child is itself, no disk info
    let text = b"HEAD\n1\n1\n1\n0.5\n0.5\n0.5\n1\n1\n-1\n0\n0.0\n0\n0\n-1\n0\n";
    let err = parse_model(text).unwrap_err();
    assert_eq!(err.0, "Cycle detected");
}

#[test]
fn parse_model_builds_a_model_end_to_end() {
    let text = b"HEAD\n1\n1\n2\n1.0\n0.0\n0.0\n0\n0.0\n1.0\n0.0\n1\n1\n0\n0\n0.0\n0\n-1\n-1\n1\n0.0\n0.0\n1.0\n1.0\n0\n5\n0\n0.0\n0.0\n0.0\n0.0\n0.0\n0.0\n0.0\n0.0\n";
    let model = parse_model(text).expect("the model should parse");
    assert_eq!(model.disk_size(), 2);
    assert_eq!(model.disk_info.len(), 1);
    assert_eq!(model.disk_info[0].id, 5);
    assert_eq!(model.disk_info[0].disk, Some(0));
    let root = model.body().expect("one body row");
    assert_eq!(root.disk_info, Some(0));
}
