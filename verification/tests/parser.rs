use lathe_mesh::{parse_body, parse_disk_info, parse_disks, LineItem};

fn f(v: f32) -> LineItem {
    LineItem::Float(v.to_bits())
}

fn i(v: i32) -> LineItem {
    LineItem::Int(v)
}

#[test]
fn one_group_one_disk_of_two_vertices() {
    let items = vec![
        i(1),
        i(1),
        i(2),
        f(0.0),
        f(0.0),
        f(0.0),
        i(0),
        f(1.0),
        f(0.0),
        f(0.0),
        i(1),
    ];
    let (disks, next) = parse_disks(&items, 0).expect("the disk stage should parse");
    assert_eq!(disks.len(), 1);
    assert_eq!(disks[0].len(), 2);
    assert_eq!(next, 11);
    let (pos0, tag0) = disks[0][0];
    assert_eq!(pos0.x, 0.0f32.to_bits());
    assert_eq!(tag0, 0);
    let (pos1, tag1) = disks[0][1];
    assert_eq!(pos1.x, 1.0f32.to_bits());
    assert_eq!(tag1, 1);
}

#[test]
fn mismatched_vertex_count_in_one_group_fails() {
    let items = vec![
        i(1),
        i(2),
        i(1),
        f(0.0),
        f(0.0),
        f(0.0),
        i(0),
        i(2),
        f(0.0),
        f(0.0),
        f(0.0),
        i(0),
        f(0.0),
        f(0.0),
        f(0.0),
        i(0),
    ];
    assert!(parse_disks(&items, 0).is_none());
}

#[test]
fn zero_count_groups_are_skipped_before_a_clean_group() {
    let items = vec![
        i(0),
        i(-3),
        i(1),
        i(1),
        i(1),
        f(4.0),
        f(5.0),
        f(6.0),
        i(9),
    ];
    let (disks, next) = parse_disks(&items, 0).expect("the disk stage should parse");
    assert_eq!(disks.len(), 1);
    assert_eq!(disks[0].len(), 1);
    assert_eq!(next, 9);
    assert_eq!(disks[0][0].0.y, 5.0f32.to_bits());
}

#[test]
fn disks_fail_when_the_input_runs_out() {
    let items = vec![i(1), i(1), i(3), f(0.0)];
    assert!(parse_disks(&items, 0).is_none());
}

#[test]
fn body_reads_fixed_rows() {
    let items = vec![
        i(2),
        i(0),
        i(0),
        f(1.5),
        i(7),
        i(1),
        i(-1),
        i(-1),
        i(2),
        f(90.0),
        i(0),
        i(-1),
        i(-1),
    ];
    let (body, next) = parse_body(&items, 0).expect("the body stage should parse");
    assert_eq!(body.len(), 2);
    assert_eq!(next, 13);
    assert_eq!(body[0].disk_info_idx, 0);
    assert_eq!(body[0].action, 0);
    assert_eq!(body[0].value, 1.5f32.to_bits());
    assert_eq!(body[0].color, 7);
    assert_eq!(body[0].left, 1);
    assert_eq!(body[0].right, -1);
    assert_eq!(body[1].action, 2);
    assert_eq!(body[1].value, 90.0f32.to_bits());
}

#[test]
fn negative_body_count_skips_one_float_and_reads_a_replacement() {
    let items = vec![
        i(-1),
        f(0.0),
        i(1),
        i(-1),
        i(4),
        f(45.0),
        i(0),
        i(-1),
        i(-1),
    ];
    let (body, next) = parse_body(&items, 0).expect("the body stage should parse");
    assert_eq!(body.len(), 1);
    assert_eq!(next, 9);
    assert_eq!(body[0].action, 4);
}

#[test]
fn negative_body_count_without_the_escape_float_fails() {
    let items = vec![i(-1), i(1)];
    assert!(parse_body(&items, 0).is_none());
}

#[test]
fn negative_replacement_count_fails() {
    let items = vec![i(-1), f(0.0), i(-2)];
    assert!(parse_body(&items, 0).is_none());
}

#[test]
fn body_fails_on_a_wrong_field_kind() {
    let items = vec![i(1), i(0), i(0), i(3), i(0), i(0), i(0)];
    assert!(parse_body(&items, 0).is_none());
}

#[test]
fn disk_info_reads_interleaved_payload_arrays() {
    let items = vec![
        i(1),
        f(0.5),
        f(-0.5),
        f(2.0),
        f(3.0),
        i(0),
        i(42),
        i(6),
        f(10.0),
        f(20.0),
        f(11.0),
        f(21.0),
        f(12.0),
        f(22.0),
        f(13.0),
        f(23.0),
    ];
    let info = parse_disk_info(&items, 0).expect("the disk-info stage should parse");
    assert_eq!(info.len(), 1);
    let rec = info[0];
    assert_eq!(rec.shift_x, 0.5f32.to_bits());
    assert_eq!(rec.shift_y, (-0.5f32).to_bits());
    assert_eq!(rec.scale_x, 2.0f32.to_bits());
    assert_eq!(rec.scale_y, 3.0f32.to_bits());
    assert_eq!(rec.disk_idx, 0);
    assert_eq!(rec.id, 42);
    assert_eq!(rec.flags, 6);
    assert_eq!(rec.arr1.a, 10.0f32.to_bits());
    assert_eq!(rec.arr2.a, 20.0f32.to_bits());
    assert_eq!(rec.arr1.b, 11.0f32.to_bits());
    assert_eq!(rec.arr2.b, 21.0f32.to_bits());
    assert_eq!(rec.arr1.d, 13.0f32.to_bits());
    assert_eq!(rec.arr2.d, 23.0f32.to_bits());
}

#[test]
fn negative_disk_info_count_yields_an_empty_list() {
    let items = vec![i(-5)];
    let info = parse_disk_info(&items, 0).expect("a negative count is an empty list");
    assert!(info.is_empty());
}

#[test]
fn disk_info_fails_without_a_count() {
    let items = vec![f(1.0)];
    assert!(parse_disk_info(&items, 0).is_none());
}
