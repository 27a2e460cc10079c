use pagedb::{deserialize_row, serialize_row, Row, ROW_SIZE};

fn row(id: u32, username: &str, email: &str) -> Row {
    Row { id, username: username.to_string(), email: email.to_string() }
}

#[test]
fn test_row_serialization() {
    let row = Row {
        id: 1,
        username: "john".to_string(),
        email: "john@test.com".to_string(),
    };

    let mut buffer = [0u8; ROW_SIZE];
    serialize_row(&row, &mut buffer);
    let deser_row = deserialize_row(&buffer);

    assert_eq!(row, deser_row);
}

#[test]
fn encoded_layout_is_fixed_width() {
    let mut buffer = vec![0xAAu8; ROW_SIZE + 3];
    serialize_row(&row(0x0403_0201, "ab", "c"), &mut buffer);
    assert_eq!(&buffer[0..4], &[1, 2, 3, 4]);
    assert_eq!(&buffer[4..6], b"ab");
    assert!(buffer[6..36].iter().all(|&b| b == 0));
    assert_eq!(buffer[36], b'c');
    assert!(buffer[37..ROW_SIZE].iter().all(|&b| b == 0));
    // bytes past the row are untouched
    assert_eq!(&buffer[ROW_SIZE..], &[0xAA, 0xAA, 0xAA]);
}

#[test]
fn round_trip_at_maximum_lengths() {
    let r = row(u32::MAX, &"a".repeat(32), &"b".repeat(255));
    let mut buffer = [0u8; ROW_SIZE];
    serialize_row(&r, &mut buffer);
    assert_eq!(deserialize_row(&buffer), r);
}

#[test]
fn round_trip_of_empty_and_multibyte_text() {
    let r = row(7, "", "zoë@例え.jp");
    let mut buffer = [0u8; ROW_SIZE];
    serialize_row(&r, &mut buffer);
    assert_eq!(deserialize_row(&buffer), r);
}

#[test]
fn overlong_text_is_cut_to_its_field() {
    let r = row(3, &"u".repeat(40), "e");
    let mut buffer = [0u8; ROW_SIZE];
    serialize_row(&r, &mut buffer);
    let back = deserialize_row(&buffer);
    assert_eq!(back.username, "u".repeat(32));
    assert_eq!(back.email, "e");
}

#[test]
fn text_stops_at_first_zero_byte() {
    let mut buffer = [0u8; ROW_SIZE];
    buffer[4..9].copy_from_slice(b"ab\0cd");
    assert_eq!(deserialize_row(&buffer).username, "ab");
}

#[test]
fn invalid_utf8_is_replaced_not_rejected() {
    let mut buffer = [0u8; ROW_SIZE];
    buffer[0] = 9;
    buffer[4] = b'x';
    buffer[5] = 0xFF;
    let back = deserialize_row(&buffer);
    assert_eq!(back.id, 9);
    assert_eq!(back.username, "x\u{FFFD}");
    assert_eq!(back.email, "");
}

#[test]
fn layout_constants() {
    assert_eq!(ROW_SIZE, 291);
    assert_eq!(pagedb::LEAF_NODE_HEADER_SIZE, 10);
    assert_eq!(pagedb::LEAF_NODE_CELL_SIZE, 295);
    assert_eq!(pagedb::LEAF_NODE_SPACE_FOR_CELLS, 4086);
    assert_eq!(pagedb::leaf_node_cell_offset(0), 10);
    assert_eq!(pagedb::leaf_node_cell_offset(2), 600);
}

#[test]
fn leaf_header_accessors() {
    let mut page = vec![0u8; pagedb::PAGE_SIZE];
    pagedb::initialize_leaf_node(&mut page);
    assert_eq!(&page[0..2], &[1, 1]);
    assert_eq!(pagedb::leaf_node_num_cells(&page), 0);
    pagedb::set_leaf_node_num_cells(&mut page, 0x0102_0304);
    assert_eq!(&page[6..10], &[4, 3, 2, 1]);
    assert_eq!(pagedb::leaf_node_num_cells(&page), 0x0102_0304);
    page[10..14].copy_from_slice(&[9, 0, 0, 0]);
    assert_eq!(pagedb::leaf_node_key(&page, 0), 9);
    page[14] = b'z';
    assert_eq!(pagedb::leaf_node_value(&page, 0)[0], b'z');
    assert_eq!(pagedb::leaf_node_value(&page, 0).len(), ROW_SIZE);
}
