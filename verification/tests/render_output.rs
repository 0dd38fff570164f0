use lathe_mesh::geometry::Vec3Bits;
use lathe_mesh::Mesh;

fn point(x: f32, y: f32, z: f32) -> Vec3Bits {
    Vec3Bits { x: x.to_bits(), y: y.to_bits(), z: z.to_bits() }
}

#[test]
fn vertex_lines_swap_y_and_z_with_nine_digits() {
    let mut mesh = Mesh::default();
    let ring_a = vec![point(1.0, 2.0, 3.0)];
    let ring_b = vec![point(-0.5, 0.25, 4.0)];
    mesh.add_loop(&ring_a, &ring_b);
    let text = mesh.render();
    let lines: Vec<&str> = text.lines().collect();
    assert_eq!(lines[0], "v 1.000000000 3.000000000 2.000000000");
    assert_eq!(lines[1], "v -0.500000000 4.000000000 0.250000000");
}

#[test]
fn face_lines_are_one_based_and_flipped() {
    let mut mesh = Mesh::default();
    let ring_a = vec![point(0.0, 0.0, 0.0), point(1.0, 0.0, 0.0)];
    let ring_b = vec![point(0.0, 0.0, 1.0), point(1.0, 0.0, 1.0)];
    mesh.add_loop(&ring_a, &ring_b);
    // internal quads: [0, 1, 3, 2] and [1, 0, 2, 3]
    assert_eq!(mesh.indices, vec![0, 1, 3, 2, 1, 0, 2, 3]);
    let text = mesh.render();
    let faces: Vec<&str> = text.lines().filter(|l| l.starts_with('f')).collect();
    // each printed number is its internal index plus one, order flipped
    assert_eq!(faces[0], "f 1 3 4 2");
    assert_eq!(faces[1], "f 2 4 3 1");
}

#[test]
fn every_face_number_is_an_internal_index_plus_one() {
    let mut mesh = Mesh::default();
    let ring: Vec<Vec3Bits> = (0..5).map(|k| point(k as f32, 0.0, 0.0)).collect();
    let ring2: Vec<Vec3Bits> = (0..5).map(|k| point(k as f32, 0.0, 1.0)).collect();
    mesh.add_loop(&ring, &ring2);
    let text = mesh.render();
    for (j, line) in text.lines().filter(|l| l.starts_with('f')).enumerate() {
        let nums: Vec<usize> = line[2..]
            .split(' ')
            .map(|w| w.parse::<usize>().expect("a face number"))
            .collect();
        let chunk = &mesh.indices[4 * j..4 * j + 4];
        assert_eq!(nums, vec![chunk[0] + 1, chunk[3] + 1, chunk[2] + 1, chunk[1] + 1]);
    }
}

#[test]
fn an_empty_mesh_renders_as_empty_text() {
    let mesh = Mesh::default();
    assert_eq!(mesh.render(), "");
}

#[test]
fn add_disk_on_an_empty_mesh_emits_no_quads() {
    let mut mesh = Mesh::default();
    let empty: Vec<Vec3Bits> = Vec::new();
    mesh.add_disk(&empty);
    assert_eq!(mesh.verts.len(), 0);
    assert_eq!(mesh.indices.len(), 0);
}
