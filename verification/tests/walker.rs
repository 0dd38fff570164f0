use lathe_mesh::geometry::Vec3Bits;
use lathe_mesh::raw;
use lathe_mesh::{build_mesh, parse_model, DefaultCrossSection, Model, ModelConfig};

fn zero_quad() -> raw::FloatQuad {
    raw::FloatQuad { a: 0, b: 0, c: 0, d: 0 }
}

fn info_rec(disk_idx: i32) -> raw::DiskInformation {
    raw::DiskInformation {
        shift_x: 0,
        shift_y: 0,
        scale_x: 1.0f32.to_bits(),
        scale_y: 1.0f32.to_bits(),
        disk_idx,
        id: 0,
        flags: 0,
        arr1: zero_quad(),
        arr2: zero_quad(),
    }
}

fn row(disk_info_idx: i32, action: i32, value: f32, left: i32, right: i32) -> raw::BodySegment {
    raw::BodySegment {
        disk_info_idx,
        action,
        value: value.to_bits(),
        color: 0,
        left,
        right,
    }
}

fn vertex(x: f32, y: f32, z: f32, tag: i32) -> (Vec3Bits, i32) {
    (Vec3Bits { x: x.to_bits(), y: y.to_bits(), z: z.to_bits() }, tag)
}

fn square_disk() -> Vec<(Vec3Bits, i32)> {
    vec![
        vertex(1.0, 0.0, 0.0, 0),
        vertex(0.0, 1.0, 0.0, 1),
        vertex(-1.0, 0.0, 0.0, 2),
        vertex(0.0, -1.0, 0.0, 3),
    ]
}

#[test]
fn two_stitched_rings_ten_units_apart() {
    let config = ModelConfig {
        disks: vec![square_disk()],
        disk_info: vec![info_rec(0)],
        body: vec![
            row(0, 0, 0.0, 1, -1),
            row(0, 0, 10.0, -1, -1),
        ],
    };
    let model = Model::new(config).expect("the table is a tree");
    let mesh = build_mesh(&model, DefaultCrossSection::ZeroFilled);

    // two rings of four vertices, one quad per vertex pair
    assert_eq!(mesh.verts.len(), 8);
    assert_eq!(mesh.indices.len(), 16);

    // the first ring sits at Z = 0, the second at Z = 10, X/Y unchanged
    for k in 0..4 {
        let a = mesh.verts[k];
        let b = mesh.verts[k + 4];
        assert_eq!(a.z, 0.0f32.to_bits());
        assert_eq!(b.z, 10.0f32.to_bits());
        assert_eq!(a.x, b.x);
        assert_eq!(a.y, b.y);
    }
    assert_eq!(mesh.verts[0].x, 1.0f32.to_bits());
    assert_eq!(mesh.verts[1].y, 1.0f32.to_bits());

    // the lateral quads join ring one to ring two
    let expected: Vec<usize> = vec![
        0, 1, 5, 4,
        1, 2, 6, 5,
        2, 3, 7, 6,
        3, 0, 4, 7,
    ];
    assert_eq!(mesh.indices, expected);
}

#[test]
fn a_bare_root_produces_an_empty_mesh() {
    let config = ModelConfig {
        disks: vec![square_disk()],
        disk_info: vec![info_rec(0)],
        body: vec![row(-1, 0, 5.0, -1, -1)],
    };
    let model = Model::new(config).expect("the table is a tree");
    for policy in [DefaultCrossSection::PreviousOnly, DefaultCrossSection::ZeroFilled] {
        let mesh = build_mesh(&model, policy);
        assert_eq!(mesh.verts.len(), 0);
        assert_eq!(mesh.indices.len(), 0);
    }
}

#[test]
fn scale_is_applied_before_the_transform() {
    let mut info = info_rec(0);
    info.scale_x = 2.0f32.to_bits();
    info.scale_y = 3.0f32.to_bits();
    let config = ModelConfig {
        disks: vec![square_disk()],
        disk_info: vec![info.clone(), info_rec(0)],
        body: vec![
            row(1, 0, 0.0, 1, -1),
            row(0, 0, 0.0, -1, -1),
        ],
    };
    let model = Model::new(config).expect("the table is a tree");
    let mesh = build_mesh(&model, DefaultCrossSection::ZeroFilled);
    assert_eq!(mesh.verts.len(), 8);
    // second ring: X scaled by 2, Y scaled by 3
    assert_eq!(mesh.verts[4].x, 2.0f32.to_bits());
    assert_eq!(mesh.verts[5].y, 3.0f32.to_bits());
}

#[test]
fn shift_translates_the_placed_ring() {
    let mut info = info_rec(0);
    info.shift_x = 4.0f32.to_bits();
    info.shift_y = 5.0f32.to_bits();
    let config = ModelConfig {
        disks: vec![square_disk()],
        disk_info: vec![info],
        body: vec![row(0, 0, 0.0, -1, -1)],
    };
    let model = Model::new(config).expect("the table is a tree");
    let mesh = build_mesh(&model, DefaultCrossSection::ZeroFilled);
    // a single placement appends no vertices (there is no previous ring yet)
    assert_eq!(mesh.verts.len(), 0);

    // but a child placement shows both shifted rings
    let mut info = info_rec(0);
    info.shift_x = 4.0f32.to_bits();
    info.shift_y = 5.0f32.to_bits();
    let config = ModelConfig {
        disks: vec![square_disk()],
        disk_info: vec![info, info_rec(0)],
        body: vec![
            row(0, 0, 0.0, 1, -1),
            row(1, 0, 0.0, -1, -1),
        ],
    };
    let model = Model::new(config).expect("the table is a tree");
    let mesh = build_mesh(&model, DefaultCrossSection::ZeroFilled);
    assert_eq!(mesh.verts.len(), 8);
    assert_eq!(mesh.verts[0].x, 5.0f32.to_bits());  // 1 + 4
    assert_eq!(mesh.verts[0].y, 5.0f32.to_bits());  // 0 + 5
    // the child's unshifted record still inherits the parent's shift
    assert_eq!(mesh.verts[4].x, 5.0f32.to_bits());  // 1 + 4
}

#[test]
fn rotation_about_x_turns_the_translation_axis() {
    // rotate 90 degrees about X, then place twice: the second ring moves
    // along the rotated local Z axis, which now points along world -Y
    let config = ModelConfig {
        disks: vec![square_disk()],
        disk_info: vec![info_rec(0)],
        body: vec![
            row(-1, 2, 90.0, 1, -1),
            row(0, 0, 0.0, 2, -1),
            row(0, 0, 10.0, -1, -1),
        ],
    };
    let model = Model::new(config).expect("the table is a tree");
    let mesh = build_mesh(&model, DefaultCrossSection::ZeroFilled);
    assert_eq!(mesh.verts.len(), 8);
    let expected = glam::Affine3::from_rotation_x(90.0f32.to_radians())
        * glam::Affine3::from_translation(glam::Vec3::new(0.0, 0.0, 10.0));
    let moved = expected.transform_point3(glam::Vec3::new(1.0, 0.0, 0.0));
    let got = mesh.verts[4];
    assert_eq!(got.x, moved.x.to_bits());
    assert_eq!(got.y, moved.y.to_bits());
    assert_eq!(got.z, moved.z.to_bits());
}

#[test]
fn zero_filled_policy_gives_a_childless_placement_a_default_ring() {
    // root places the real disk; its child has disk information without a
    // disk and no children: under the zero-filled policy it stitches to a
    // ring of origin points
    let config = ModelConfig {
        disks: vec![square_disk()],
        disk_info: vec![info_rec(0), info_rec(-1)],
        body: vec![
            row(0, 0, 0.0, 1, -1),
            row(1, 0, 0.0, -1, -1),
        ],
    };
    let model = Model::new(config).expect("the table is a tree");
    let mesh = build_mesh(&model, DefaultCrossSection::ZeroFilled);
    assert_eq!(mesh.verts.len(), 8);
    for k in 4..8 {
        assert_eq!(mesh.verts[k].x, 0.0f32.to_bits());
        assert_eq!(mesh.verts[k].y, 0.0f32.to_bits());
        assert_eq!(mesh.verts[k].z, 0.0f32.to_bits());
    }

    // under the previous-only policy the same child reuses the real disk
    let config = ModelConfig {
        disks: vec![square_disk()],
        disk_info: vec![info_rec(0), info_rec(-1)],
        body: vec![
            row(0, 0, 0.0, 1, -1),
            row(1, 0, 0.0, -1, -1),
        ],
    };
    let model = Model::new(config).expect("the table is a tree");
    let mesh = build_mesh(&model, DefaultCrossSection::PreviousOnly);
    assert_eq!(mesh.verts.len(), 8);
    assert_eq!(mesh.verts[4].x, 1.0f32.to_bits());
}

#[test]
fn rings_of_mismatched_sizes_are_not_stitched() {
    // the disk list can hold disks of unequal sizes; a pair whose sizes
    // would put a quad index out of range adds nothing to the mesh
    let config = ModelConfig {
        disks: vec![
            vec![vertex(1.0, 0.0, 0.0, 0), vertex(0.0, 1.0, 0.0, 1)],
            square_disk(),
        ],
        disk_info: vec![info_rec(0), info_rec(1)],
        body: vec![
            row(0, 0, 0.0, 1, -1),
            row(1, 0, 0.0, -1, -1),
        ],
    };
    let model = Model::new(config).expect("the table is a tree");
    let mesh = build_mesh(&model, DefaultCrossSection::ZeroFilled);
    assert_eq!(mesh.verts.len(), 0);
    assert_eq!(mesh.indices.len(), 0);
}

#[test]
fn a_parsed_model_walks_into_a_rendered_mesh() {
    // two placements of a two-vertex disk, ten units apart along Z
    let text = b"HEAD\n1\n1\n2\n1.0\n0.0\n0.0\n0\n0.0\n1.0\n0.0\n1\n2\n0\n0\n0.0\n0\n1\n-1\n0\n0\n10.0\n0\n-1\n-1\n1\n0.0\n0.0\n1.0\n1.0\n0\n0\n0\n0.0\n0.0\n0.0\n0.0\n0.0\n0.0\n0.0\n0.0\n";
    let model = parse_model(text).expect("the model should parse");
    let mesh = build_mesh(&model, DefaultCrossSection::ZeroFilled);
    assert_eq!(mesh.verts.len(), 4);
    assert_eq!(mesh.indices.len(), 8);
    let rendered = mesh.render();
    let lines: Vec<&str> = rendered.lines().collect();
    assert_eq!(lines.len(), 6);
    // Y and Z are swapped on output, so the translated ring shows 10 in
    // the second column
    assert_eq!(lines[0], "v 1.000000000 0.000000000 0.000000000");
    assert_eq!(lines[2], "v 1.000000000 10.000000000 0.000000000");
    assert_eq!(lines[4], "f 1 3 4 2");
}
