use samd51_hid_injector::descriptor::{
    sign_extend, DescriptorParser, HidDescriptor, ParseError, ReportType, UsagePage,
};

const MOUSE: [u8; 50] = [
    0x05, 0x01, // Usage Page (Generic Desktop)
    0x09, 0x02, // Usage (Mouse)
    0xA1, 0x01, // Collection (Application)
    0x09, 0x01, //   Usage (Pointer)
    0xA1, 0x00, //   Collection (Physical)
    0x05, 0x09, //     Usage Page (Button)
    0x19, 0x01, //     Usage Minimum (Button 1)
    0x29, 0x03, //     Usage Maximum (Button 3)
    0x15, 0x00, //     Logical Minimum (0)
    0x25, 0x01, //     Logical Maximum (1)
    0x95, 0x03, //     Report Count (3)
    0x75, 0x01, //     Report Size (1)
    0x81, 0x02, //     Input (Data, Variable, Absolute)
    0x95, 0x01, //     Report Count (1)
    0x75, 0x05, //     Report Size (5)
    0x81, 0x03, //     Input (Constant) - padding
    0x05, 0x01, //     Usage Page (Generic Desktop)
    0x09, 0x30, //     Usage (X)
    0x09, 0x31, //     Usage (Y)
    0x15, 0x81, //     Logical Minimum
    0x25, 0x7F, //     Logical Maximum (127)
    0x75, 0x08, //     Report Size (8)
    0x95, 0x02, //     Report Count (2)
    0x81, 0x06, //     Input (Data, Variable, Relative)
    0xC0, //   End Collection
    0xC0, // End Collection
];

fn parse(data: &[u8]) -> Result<HidDescriptor, ParseError> {
    let mut parser = DescriptorParser::new();
    parser.parse(data)?;
    Ok(parser.into_descriptor())
}

#[test]
fn test_simple_mouse_descriptor() {
    // Simplified mouse descriptor
    let descriptor = [
        0x05, 0x01, // Usage Page (Generic Desktop)
        0x09, 0x02, // Usage (Mouse)
        0xA1, 0x01, // Collection (Application)
        0x09, 0x01, //   Usage (Pointer)
        0xA1, 0x00, //   Collection (Physical)
        0x05, 0x09, //     Usage Page (Button)
        0x19, 0x01, //     Usage Minimum (Button 1)
        0x29, 0x03, //     Usage Maximum (Button 3)
        0x15, 0x00, //     Logical Minimum (0)
        0x25, 0x01, //     Logical Maximum (1)
        0x95, 0x03, //     Report Count (3)
        0x75, 0x01, //     Report Size (1)
        0x81, 0x02, //     Input (Data, Variable, Absolute)
        0x95, 0x01, //     Report Count (1)
        0x75, 0x05, //     Report Size (5)
        0x81, 0x03, //     Input (Constant) - padding
        0x05, 0x01, //     Usage Page (Generic Desktop)
        0x09, 0x30, //     Usage (X)
        0x09, 0x31, //     Usage (Y)
        0x15, 0x81, //     Logical Minimum (-127)
        0x25, 0x7F, //     Logical Maximum (127)
        0x75, 0x08, //     Report Size (8)
        0x95, 0x02, //     Report Count (2)
        0x81, 0x06, //     Input (Data, Variable, Relative)
        0xC0, //   End Collection
        0xC0, // End Collection
    ];

    let mut parser = DescriptorParser::new();
    parser.parse(&descriptor).unwrap();

    let desc = parser.descriptor();
    assert!(desc.is_mouse);
    assert!(!desc.is_keyboard);
}

#[test]
fn mouse_descriptor_fields_are_exact() {
    let desc = parse(&MOUSE).unwrap();
    assert_eq!(desc.fields.len(), 5);
    for (i, field) in desc.fields.iter().take(3).enumerate() {
        assert_eq!(field.report_type, ReportType::Input);
        assert_eq!(field.report_id, 0);
        assert_eq!(field.usage.page, UsagePage::Button);
        assert_eq!(field.usage.id, 0x01);
        assert_eq!(field.bit_offset, i as u16);
        assert_eq!(field.bit_size, 1);
        assert_eq!(field.logical_min, 0);
        assert_eq!(field.logical_max, 1);
        assert!(!field.is_relative);
        assert!(!field.is_array);
    }
    // The padding item emitted nothing and moved the offset from 3 to 8.
    for (i, field) in desc.fields.iter().skip(3).enumerate() {
        assert_eq!(field.usage.page, UsagePage::GenericDesktop);
        assert_eq!(field.usage.id, 0x31);
        assert_eq!(field.bit_offset, 8 + 8 * i as u16);
        assert_eq!(field.bit_size, 8);
        assert_eq!(field.logical_min, 0x81);
        assert_eq!(field.logical_max, 127);
        assert!(field.is_relative);
        assert!(!field.is_array);
    }
    assert_eq!(desc.input_report_sizes.as_slice(), &[(0u8, 3u16)]);
    assert!(desc.output_report_sizes.is_empty());
    assert!(desc.is_mouse);
    assert!(desc.is_gamepad);
    assert!(!desc.is_keyboard);
}

#[test]
fn empty_input_gives_empty_descriptor() {
    let desc = parse(&[]).unwrap();
    assert!(desc.fields.is_empty());
    assert!(desc.input_report_sizes.is_empty());
    assert!(desc.output_report_sizes.is_empty());
    assert!(!desc.is_keyboard && !desc.is_mouse && !desc.is_gamepad);
}

#[test]
fn keyboard_page_field_sets_keyboard_flag() {
    let data = [
        0x05, 0x07, // Usage Page (Keyboard)
        0x75, 0x08, // Report Size (8)
        0x95, 0x06, // Report Count (6)
        0x81, 0x00, // Input (Data, Array)
        0x05, 0x01, // Usage Page (Generic Desktop)
        0x09, 0x38, // Usage (Wheel)
        0x95, 0x01, // Report Count (1)
        0x81, 0x06, // Input (Data, Variable, Relative)
        0x05, 0x05, // Usage Page (Game Controls)
        0x81, 0x02, // Input
    ];
    let desc = parse(&data).unwrap();
    assert!(desc.is_keyboard);
    assert!(desc.is_mouse);
    assert!(desc.is_gamepad);
    assert_eq!(desc.fields.len(), 8);
    assert!(desc.fields[0].is_array);
    assert!(!desc.fields[0].is_relative);
    assert_eq!(desc.fields[0].usage.page, UsagePage::Keyboard);
    assert_eq!(desc.fields[7].usage.page, UsagePage::GameControls);
    assert_eq!(desc.fields[7].bit_offset, 56);
    assert_eq!(desc.input_report_sizes.as_slice(), &[(0u8, 8u16)]);
}

#[test]
fn no_keyboard_field_leaves_keyboard_flag_clear() {
    let data = [0x05, 0x07, 0x75, 0x08, 0x95, 0x02, 0x81, 0x01];
    // The only Input item on the Keyboard page is constant: no field.
    let desc = parse(&data).unwrap();
    assert!(desc.fields.is_empty());
    assert!(!desc.is_keyboard);
    assert_eq!(desc.input_report_sizes.as_slice(), &[(0u8, 2u16)]);
}

#[test]
fn generic_desktop_without_pointer_usage_is_no_mouse() {
    let data = [0x05, 0x01, 0x09, 0x02, 0x75, 0x08, 0x95, 0x01, 0x81, 0x02];
    let desc = parse(&data).unwrap();
    assert_eq!(desc.fields.len(), 1);
    assert!(!desc.is_mouse);
    assert!(!desc.is_keyboard);
    assert!(!desc.is_gamepad);
}

#[test]
fn constant_input_advances_offset_without_fields() {
    let data = [
        0x75, 0x03, // Report Size (3)
        0x95, 0x05, // Report Count (5)
        0x81, 0x01, // Input (Constant): 15 bits
        0x75, 0x04, // Report Size (4)
        0x95, 0x02, // Report Count (2)
        0x81, 0x02, // Input (Data)
    ];
    let desc = parse(&data).unwrap();
    assert_eq!(desc.fields.len(), 2);
    assert_eq!(desc.fields[0].bit_offset, 15);
    assert_eq!(desc.fields[1].bit_offset, 19);
    assert_eq!(desc.input_report_sizes.as_slice(), &[(0u8, 3u16)]);
}

#[test]
fn input_item_emits_count_fields_size_apart() {
    let data = [0x75, 0x07, 0x95, 0x09, 0x81, 0x02];
    let desc = parse(&data).unwrap();
    assert_eq!(desc.fields.len(), 9);
    for (j, field) in desc.fields.iter().enumerate() {
        assert_eq!(field.bit_offset, 7 * j as u16);
        assert_eq!(field.bit_size, 7);
    }
    assert_eq!(desc.input_report_sizes.as_slice(), &[(0u8, 8u16)]);
}

#[test]
fn output_and_feature_items_emit_nothing() {
    let data = [
        0x85, 0x02, // Report ID (2)
        0x75, 0x08, // Report Size (8)
        0x95, 0x03, // Report Count (3)
        0x91, 0x02, // Output: 24 bits
        0xB1, 0x02, // Feature: 24 bits more
        0x95, 0x01, // Report Count (1)
        0x81, 0x02, // Input at offset 48
        0x91, 0x02, // Output: 8 bits more
    ];
    let desc = parse(&data).unwrap();
    assert_eq!(desc.fields.len(), 1);
    assert_eq!(desc.fields[0].bit_offset, 48);
    assert_eq!(desc.fields[0].report_id, 2);
    assert_eq!(desc.input_report_sizes.as_slice(), &[(2u8, 7u16)]);
    assert_eq!(desc.output_report_sizes.as_slice(), &[(2u8, 8u16)]);
}

#[test]
fn size_table_keeps_first_eight_report_ids() {
    let mut data = vec![0x75, 0x08, 0x95, 0x01];
    for id in 1..=9u8 {
        data.extend_from_slice(&[0x85, id, 0x81, 0x03]);
    }
    // Report id 1 again, with the offset at 9 bytes by now.
    data.extend_from_slice(&[0x85, 0x01, 0x81, 0x03]);
    let desc = parse(&data).unwrap();
    let rows: Vec<(u8, u16)> = desc.input_report_sizes.iter().copied().collect();
    assert_eq!(
        rows,
        vec![(1, 10), (2, 2), (3, 3), (4, 4), (5, 5), (6, 6), (7, 7), (8, 8)]
    );
}

#[test]
fn size_table_keeps_the_larger_size() {
    // A second item for the same id with a smaller offset cannot occur, as
    // the offset never goes back; the row follows the growing offset.
    let data = [0x75, 0x08, 0x95, 0x01, 0x81, 0x02, 0x81, 0x02, 0x81, 0x02];
    let desc = parse(&data).unwrap();
    assert_eq!(desc.input_report_sizes.as_slice(), &[(0u8, 3u16)]);
}

#[test]
fn sixty_four_fields_fit_and_one_more_does_not() {
    let fits = [0x75, 0x01, 0x95, 64, 0x81, 0x02];
    let desc = parse(&fits).unwrap();
    assert_eq!(desc.fields.len(), 64);
    assert_eq!(desc.fields[63].bit_offset, 63);

    let too_many = [0x75, 0x01, 0x95, 65, 0x81, 0x02];
    assert_eq!(parse(&too_many).err(), Some(ParseError::TooManyFields));

    let in_two_items = [0x75, 0x01, 0x95, 40, 0x81, 0x02, 0x95, 25, 0x81, 0x02];
    assert_eq!(parse(&in_two_items).err(), Some(ParseError::TooManyFields));
}

#[test]
fn failed_parse_leaves_the_parser_where_it_gave_up() {
    let too_many = [0x75, 0x02, 0x95, 70, 0x81, 0x02];
    let mut parser = DescriptorParser::new();
    assert_eq!(parser.parse(&too_many), Err(ParseError::TooManyFields));
    let desc = parser.into_descriptor();
    assert_eq!(desc.fields.len(), 64);
    assert_eq!(desc.fields[63].bit_offset, 126);
    assert!(desc.input_report_sizes.is_empty());
}

#[test]
fn truncated_items_end_unexpectedly() {
    assert_eq!(parse(&[0x05]).err(), Some(ParseError::UnexpectedEnd));
    assert_eq!(parse(&[0x06, 0x01]).err(), Some(ParseError::UnexpectedEnd));
    assert_eq!(parse(&[0x07]).err(), Some(ParseError::UnexpectedEnd));
    assert_eq!(parse(&[0x07, 0x02, 0x01]).err(), Some(ParseError::UnexpectedEnd));
    assert!(parse(&[0x07, 0x02, 0x01, 0x02]).is_ok());
    assert!(parse(&[0xC0]).is_ok());
}

#[test]
fn every_prefix_parses_or_ends_unexpectedly() {
    for n in 0..=MOUSE.len() {
        match parse(&MOUSE[..n]) {
            Ok(_) => assert!(n % 2 == 0 || n >= MOUSE.len() - 1, "prefix {}", n),
            Err(e) => assert_eq!(e, ParseError::UnexpectedEnd, "prefix {}", n),
        }
    }
}

#[test]
fn two_byte_values_are_little_endian() {
    let data = [0x06, 0x34, 0x12, 0x0A, 0x78, 0x56, 0x75, 0x08, 0x95, 0x01, 0x81, 0x02];
    let desc = parse(&data).unwrap();
    assert_eq!(desc.fields[0].usage.page, UsagePage::Unknown(0x1234));
    assert_eq!(desc.fields[0].usage.id, 0x5678);
}

#[test]
fn long_items_of_four_bytes_are_read_and_others_skipped() {
    let data = [
        0x17, 0x04, 0xFE, 0xFF, 0xFF, 0xFF, // Logical Minimum, four bytes: -2
        0x27, 0x04, 0x00, 0x00, 0x00, 0x80, // Logical Maximum, four bytes: i32::MIN
        0x77, 0x03, 0x09, 0x09, 0x09, // Report Size, three bytes: passed over
        0x77, 0x01, 0x10, // Report Size, one byte in a long item: 16
        0x95, 0x01, 0x81, 0x02,
    ];
    let desc = parse(&data).unwrap();
    assert_eq!(desc.fields.len(), 1);
    assert_eq!(desc.fields[0].logical_min, -2);
    assert_eq!(desc.fields[0].logical_max, i32::MIN);
    assert_eq!(desc.fields[0].bit_size, 16);
}

#[test]
fn narrow_bounds_are_not_sign_extended() {
    let data = [0x15, 0xFF, 0x26, 0x00, 0x80, 0x75, 0x08, 0x95, 0x01, 0x81, 0x02];
    let desc = parse(&data).unwrap();
    assert_eq!(desc.fields[0].logical_min, 255);
    assert_eq!(desc.fields[0].logical_max, 0x8000);
}

#[test]
fn values_are_cut_to_the_width_of_their_register() {
    let data = [
        0x76, 0x08, 0x01, // Report Size 0x0108 -> 8
        0x96, 0x02, 0x01, // Report Count 0x0102 -> 2
        0x86, 0x05, 0x07, // Report ID 0x0705 -> 5
        0x81, 0x02,
    ];
    let desc = parse(&data).unwrap();
    assert_eq!(desc.fields.len(), 2);
    assert_eq!(desc.fields[1].bit_offset, 8);
    assert_eq!(desc.fields[1].bit_size, 8);
    assert_eq!(desc.fields[1].report_id, 5);
}

#[test]
fn reserved_items_and_unknown_tags_change_nothing() {
    let data = [0x0D, 0x01, 0x35, 0x01, 0x19, 0x01, 0xF1, 0x01, 0x75, 0x08, 0x95, 0x01, 0x81, 0x02];
    let desc = parse(&data).unwrap();
    assert_eq!(desc.fields.len(), 1);
    assert_eq!(desc.fields[0].usage.page, UsagePage::Unknown(0));
    assert_eq!(desc.fields[0].usage.id, 0);
    assert_eq!(desc.fields[0].bit_offset, 0);
}

#[test]
fn running_offset_wraps_at_sixteen_bits() {
    let data = [
        0x75, 0xFF, 0x95, 0xFF, // 255 x 255 = 65025 bits
        0x81, 0x01, // offset 65025
        0x75, 0xFF, 0x95, 0x03, // 765 bits more
        0x81, 0x01, // offset 65790 - 65536 = 254
        0x75, 0x01, 0x95, 0x01, 0x81, 0x02,
    ];
    let desc = parse(&data).unwrap();
    assert_eq!(desc.fields.len(), 1);
    assert_eq!(desc.fields[0].bit_offset, 254);
    assert_eq!(desc.input_report_sizes.as_slice(), &[(0u8, 8129u16)]);
}

#[test]
fn a_parser_continues_where_it_stopped() {
    let mut parser = DescriptorParser::new();
    parser.parse(&[0x05, 0x07, 0x75, 0x08, 0x95, 0x01, 0x81, 0x00]).unwrap();
    parser.parse(&[0x05, 0x01, 0x09, 0x30, 0x81, 0x06]).unwrap();
    let desc = parser.descriptor();
    assert_eq!(desc.fields.len(), 2);
    assert_eq!(desc.fields[1].bit_offset, 8);
    assert!(desc.is_keyboard);
    assert!(desc.is_mouse);
}

#[test]
fn usage_page_codes_map_to_their_pages() {
    assert_eq!(UsagePage::from(0x01), UsagePage::GenericDesktop);
    assert_eq!(UsagePage::from(0x02), UsagePage::SimulationControls);
    assert_eq!(UsagePage::from(0x03), UsagePage::VRControls);
    assert_eq!(UsagePage::from(0x04), UsagePage::SportControls);
    assert_eq!(UsagePage::from(0x05), UsagePage::GameControls);
    assert_eq!(UsagePage::from(0x06), UsagePage::GenericDevice);
    assert_eq!(UsagePage::from(0x07), UsagePage::Keyboard);
    assert_eq!(UsagePage::from(0x08), UsagePage::LED);
    assert_eq!(UsagePage::from(0x09), UsagePage::Button);
    assert_eq!(UsagePage::from(0x0A), UsagePage::Ordinal);
    assert_eq!(UsagePage::from(0x0B), UsagePage::Telephony);
    assert_eq!(UsagePage::from(0x0C), UsagePage::Consumer);
    assert_eq!(UsagePage::from(0x0D), UsagePage::Digitizer);
    assert_eq!(UsagePage::from(0x00), UsagePage::Unknown(0));
    assert_eq!(UsagePage::from(0x0E), UsagePage::Unknown(0x0E));
    assert_eq!(UsagePage::from(0xFF00), UsagePage::Unknown(0xFF00));
}

#[test]
fn sign_extend_reads_the_low_bits_as_twos_complement() {
    assert_eq!(sign_extend(0x81, 8), -127);
    assert_eq!(sign_extend(0x7F, 8), 127);
    assert_eq!(sign_extend(0x181, 8), -127);
    assert_eq!(sign_extend(0x8000, 16), -32768);
    assert_eq!(sign_extend(0xFFFF_FFFF, 32), -1);
    assert_eq!(sign_extend(0x8000_0000, 32), i32::MIN);
    assert_eq!(sign_extend(0x7FFF_FFFF, 32), i32::MAX);
    assert_eq!(sign_extend(1, 1), -1);
    assert_eq!(sign_extend(2, 1), 0);
    assert_eq!(sign_extend(0x4000_0000, 31), -0x4000_0000);
}

#[test]
fn new_descriptor_is_empty() {
    let desc = HidDescriptor::new();
    assert!(desc.fields.is_empty());
    assert!(desc.input_report_sizes.is_empty());
    assert!(desc.output_report_sizes.is_empty());
    assert!(!desc.is_keyboard && !desc.is_mouse && !desc.is_gamepad);
    let copy = desc.clone();
    assert!(copy.fields.is_empty());
}
