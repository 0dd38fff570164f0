use lathe_mesh::{parse_lines, LineItem};

fn float_bits(item: &LineItem) -> u32 {
    match item {
        LineItem::Float(b) => *b,
        other => panic!("expected a float token, got {:?}", other),
    }
}

#[test]
fn classifies_float_int_empty_and_tag_lines() {
    let items = parse_lines(b"3.5\n42\n\nhello\n");
    assert_eq!(items.len(), 4);
    assert_eq!(float_bits(&items[0]), 3.5f32.to_bits());
    assert!(matches!(items[1], LineItem::Int(42)));
    assert!(matches!(items[2], LineItem::Empty));
    match &items[3] {
        LineItem::Tag(s) => assert_eq!(s, "hello"),
        other => panic!("expected a tag, got {:?}", other),
    }
}

#[test]
fn crlf_is_one_terminator_and_cr_alone_ends_a_line() {
    let items = parse_lines(b"1\r\n2\r3\r\n");
    assert!(matches!(items[0], LineItem::Int(1)));
    assert!(matches!(items[1], LineItem::Int(2)));
    assert!(matches!(items[2], LineItem::Int(3)));
    assert_eq!(items.len(), 3);
}

#[test]
fn surrounding_whitespace_is_trimmed() {
    let items = parse_lines(b"  42\t\n \n");
    assert!(matches!(items[0], LineItem::Int(42)));
    assert!(matches!(items[1], LineItem::Empty));
}

#[test]
fn signed_integers_parse_and_overflow_falls_through_to_float() {
    let items = parse_lines(b"+5\n-17\n99999999999\n2147483647\n-2147483648\n");
    assert!(matches!(items[0], LineItem::Int(5)));
    assert!(matches!(items[1], LineItem::Int(-17)));
    assert_eq!(float_bits(&items[2]), 99999999999f32.to_bits());
    assert!(matches!(items[3], LineItem::Int(2147483647)));
    assert!(matches!(items[4], LineItem::Int(-2147483648)));
}

#[test]
fn float_forms_and_tag_fallback() {
    let items = parse_lines(b"-2.25\n1e3\nnot a number\n");
    assert_eq!(float_bits(&items[0]), (-2.25f32).to_bits());
    assert_eq!(float_bits(&items[1]), 1000f32.to_bits());
    match &items[2] {
        LineItem::Tag(s) => assert_eq!(s, "not a number"),
        other => panic!("expected a tag, got {:?}", other),
    }
}

#[test]
fn non_ascii_byte_yields_binary_trailer_from_record_start() {
    let items = parse_lines(b"42\nab\xff rest");
    assert!(matches!(items[0], LineItem::Int(42)));
    match &items[1] {
        LineItem::Binary(bytes) => assert_eq!(bytes.as_slice(), b"ab\xff rest"),
        other => panic!("expected a binary trailer, got {:?}", other),
    }
    assert_eq!(items.len(), 2);
}

#[test]
fn overlong_line_yields_binary_trailer_and_ends_the_stream() {
    let mut input = b"7\n".to_vec();
    let long = vec![b'a'; 300];
    input.extend_from_slice(&long);
    input.extend_from_slice(b"\n8\n");
    let items = parse_lines(&input);
    assert!(matches!(items[0], LineItem::Int(7)));
    match &items[1] {
        LineItem::Binary(bytes) => {
            assert_eq!(bytes.len(), input.len() - 2);
            assert_eq!(bytes[0], b'a');
        },
        other => panic!("expected a binary trailer, got {:?}", other),
    }
    assert_eq!(items.len(), 2);
}

#[test]
fn unterminated_final_line_is_dropped() {
    let items = parse_lines(b"1\n2");
    assert_eq!(items.len(), 1);
    assert!(matches!(items[0], LineItem::Int(1)));
}

#[test]
fn empty_input_yields_no_tokens() {
    let items = parse_lines(b"");
    assert!(items.is_empty());
}
