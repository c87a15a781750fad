use hid_parser::collection::CollectionItem;
use hid_parser::descriptor::{DescriptorType, HidDescriptor, ReportDescriptor};
use hid_parser::errors::{HidError, MissingItem};
use hid_parser::input::{Input, InputValue};
use hid_parser::parser::parse_descriptor;

fn flat_leaves(tree: &hid_parser::collection::Collection<Vec<Input>>) -> Vec<Vec<Input>> {
    let mut out = Vec::new();
    for item in &tree.items {
        match item {
            CollectionItem::Collection(c) => out.extend(flat_leaves(c)),
            CollectionItem::Item(inputs) => out.push(inputs.clone()),
        }
    }
    out
}

#[test]
fn empty_descriptor_is_unbalanced() {
    assert_eq!(parse_descriptor(&[]), Err(HidError::UnbalancedCollections));
}

#[test]
fn minimal_collection_pair_gives_empty_root() {
    let desc = [0x05, 0x01, 0x09, 0x04, 0xA1, 0x01, 0xC0];
    let tree = parse_descriptor(&desc).expect("should parse");
    assert_eq!(tree.usage, (1, 4));
    assert!(tree.items.is_empty());
}

#[test]
fn single_bit_zero_report_decodes_to_false() {
    let desc = [
        0x05, 0x01, 0x09, 0x04, 0xA1, 0x01, // open Application(1, 4)
        0x09, 0x10, // Usage(0x10)
        0x15, 0x00, 0x25, 0x01, // logical 0..=1
        0x75, 0x01, 0x95, 0x01, // one bit
        0x81, 0x02, // Input
        0xC0,
    ];
    let tree = parse_descriptor(&desc).expect("should parse");
    let decoded = tree.decode(&[0x00]).expect("should decode");
    let leaves = flat_leaves(&decoded);
    assert_eq!(leaves.len(), 1);
    assert_eq!(leaves[0].len(), 1);
    assert_eq!(leaves[0][0].value, InputValue::Bool(false));
}

#[test]
fn constant_field_decodes_to_no_inputs() {
    let desc = [
        0x05, 0x01, 0x09, 0x04, 0xA1, 0x01, // open Application(1, 4)
        0x15, 0x00, 0x25, 0x01, // logical 0..=1
        0x75, 0x04, 0x95, 0x01, // one nibble
        0x81, 0x01, // Input, Constant
        0xC0,
    ];
    let tree = parse_descriptor(&desc).expect("should parse");
    for report in [[0x00u8], [0xFFu8]] {
        let decoded = tree.decode(&report).expect("should decode");
        let leaves = flat_leaves(&decoded);
        assert_eq!(leaves.len(), 1);
        assert!(leaves[0].is_empty());
    }
}

fn two_report_descriptor() -> Vec<u8> {
    vec![
        0x05, 0x01, 0x09, 0x04, 0xA1, 0x01, // open Application(1, 4)
        0x85, 0x01, // ReportID(1)
        0x09, 0x10, // Usage(0x10)
        0x15, 0x00, 0x26, 0xFF, 0x00, // logical 0..=255
        0x75, 0x08, 0x95, 0x01, // one byte
        0x81, 0x02, // Input
        0x85, 0x02, // ReportID(2)
        0x09, 0x11, // Usage(0x11)
        0x81, 0x02, // Input
        0xC0,
    ]
}

#[test]
fn report_id_routes_to_matching_fields() {
    let tree = parse_descriptor(&two_report_descriptor()).expect("should parse");

    let decoded = tree.decode(&[0x02, 0xAA]).expect("should decode");
    let leaves = flat_leaves(&decoded);
    assert_eq!(leaves.len(), 1);
    assert_eq!(leaves[0][0].usage, (1, 0x11));
    assert_eq!(leaves[0][0].value, InputValue::UInt(0xAA));

    let decoded = tree.decode(&[0x01, 0x55]).expect("should decode");
    let leaves = flat_leaves(&decoded);
    assert_eq!(leaves.len(), 1);
    assert_eq!(leaves[0][0].usage, (1, 0x10));
    assert_eq!(leaves[0][0].value, InputValue::UInt(0x55));
}

#[test]
fn unknown_report_id_is_rejected() {
    let tree = parse_descriptor(&two_report_descriptor()).expect("should parse");
    assert_eq!(tree.decode(&[0x03, 0xAA]), Err(HidError::ReportIdMismatch));
}

#[test]
fn null_state_out_of_bounds_decodes_to_null() {
    // a hat-switch-like field: 4 bits, logical 1..=8, null-state flag set
    let desc = [
        0x05, 0x01, 0x09, 0x04, 0xA1, 0x01, // open Application(1, 4)
        0x09, 0x39, // Usage(0x39)
        0x15, 0x01, 0x25, 0x08, // logical 1..=8
        0x75, 0x04, 0x95, 0x01, // one nibble
        0x81, 0x42, // Input, Variable | NullState
        0xC0,
    ];
    let tree = parse_descriptor(&desc).expect("should parse");

    let decoded = tree.decode(&[0x00]).expect("should decode");
    assert_eq!(flat_leaves(&decoded)[0][0].value, InputValue::Null);

    let decoded = tree.decode(&[0x03]).expect("should decode");
    assert_eq!(flat_leaves(&decoded)[0][0].value, InputValue::UInt(3));
}

#[test]
fn signed_globals_are_sign_extended() {
    // a one-byte Logical Minimum of 0x81 means -127, not 129
    let desc = [
        0x05, 0x01, 0x09, 0x04, 0xA1, 0x01, // open Application(1, 4)
        0x09, 0x10, // Usage(0x10)
        0x15, 0x81, // LogicalMinimum(-127), one byte
        0x25, 0x7F, // LogicalMaximum(127)
        0x75, 0x08, 0x95, 0x01, // one byte
        0x81, 0x02, // Input
        0xC0,
    ];
    let tree = parse_descriptor(&desc).expect("should parse");
    let fields = tree.iter_fields();
    assert_eq!(fields[0].logical_minimum, -127);
    assert_eq!(fields[0].logical_maximum, 127);

    // values therefore decode as signed
    let decoded = tree.decode(&[0xE5]).expect("should decode");
    assert_eq!(flat_leaves(&decoded)[0][0].value, InputValue::Int(-27));
}

#[test]
fn extended_usage_carries_its_own_page() {
    let desc = [
        0x05, 0x01, 0x09, 0x04, 0xA1, 0x01, // open Application(1, 4)
        0x0B, 0x34, 0x12, 0x05, 0x00, // ExtendedUsage(page 5, usage 0x1234)
        0x15, 0x00, 0x25, 0x01, 0x75, 0x01, 0x95, 0x01, // one bit
        0x81, 0x02, // Input
        0xC0,
    ];
    let tree = parse_descriptor(&desc).expect("should parse");
    let decoded = tree.decode(&[0x01]).expect("should decode");
    assert_eq!(flat_leaves(&decoded)[0][0].usage, (5, 0x1234));
    assert_eq!(flat_leaves(&decoded)[0][0].value, InputValue::Bool(true));
}

#[test]
fn truncated_item_is_rejected() {
    assert_eq!(parse_descriptor(&[0x75]), Err(HidError::TruncatedItem));
    assert_eq!(parse_descriptor(&[0x26, 0xFF]), Err(HidError::TruncatedItem));
}

#[test]
fn long_item_is_rejected() {
    assert_eq!(
        parse_descriptor(&[0xFE, 0x02, 0x00, 0x00, 0x00]),
        Err(HidError::UnsupportedLongItem)
    );
}

#[test]
fn push_pop_and_delimiter_are_unsupported() {
    // Global Push
    assert_eq!(parse_descriptor(&[0xA4]), Err(HidError::UnsupportedFeature));
    // Global Pop
    assert_eq!(parse_descriptor(&[0xB4]), Err(HidError::UnsupportedFeature));
    // Local Delimiter (open)
    assert_eq!(parse_descriptor(&[0x99, 0x01]), Err(HidError::UnsupportedFeature));
}

#[test]
fn missing_globals_are_reported() {
    let head = [0x05u8, 0x01, 0x09, 0x04, 0xA1, 0x01, 0x09, 0x10];
    let build = |tail: &[u8]| {
        let mut d = head.to_vec();
        d.extend_from_slice(tail);
        d.push(0x81);
        d.push(0x02);
        d.push(0xC0);
        d
    };

    assert_eq!(
        parse_descriptor(&build(&[])),
        Err(HidError::MissingGlobal(MissingItem::ReportSize))
    );
    assert_eq!(
        parse_descriptor(&build(&[0x75, 0x08])),
        Err(HidError::MissingGlobal(MissingItem::ReportCount))
    );
    assert_eq!(
        parse_descriptor(&build(&[0x75, 0x08, 0x95, 0x01])),
        Err(HidError::MissingGlobal(MissingItem::LogicalMinimum))
    );
    assert_eq!(
        parse_descriptor(&build(&[0x75, 0x08, 0x95, 0x01, 0x15, 0x00])),
        Err(HidError::MissingGlobal(MissingItem::LogicalMaximum))
    );
}

#[test]
fn missing_usage_page_is_reported() {
    // a bare Usage with no Usage Page in scope
    assert_eq!(
        parse_descriptor(&[0x09, 0x04, 0xA1, 0x01, 0xC0]),
        Err(HidError::MissingUsagePage)
    );
}

#[test]
fn collection_needs_exactly_one_usage() {
    // none at all
    assert_eq!(
        parse_descriptor(&[0x05, 0x01, 0xA1, 0x01, 0xC0]),
        Err(HidError::MalformedUsage)
    );
    // two of them
    assert_eq!(
        parse_descriptor(&[0x05, 0x01, 0x09, 0x04, 0x09, 0x05, 0xA1, 0x01, 0xC0]),
        Err(HidError::MalformedUsage)
    );
}

#[test]
fn unbalanced_collections_are_reported() {
    // EndCollection with nothing open
    assert_eq!(parse_descriptor(&[0xC0]), Err(HidError::UnbalancedCollections));
    // an Input outside every collection
    assert_eq!(
        parse_descriptor(&[0x75, 0x08, 0x95, 0x01, 0x15, 0x00, 0x25, 0x01, 0x81, 0x01]),
        Err(HidError::UnbalancedCollections)
    );
    // trailing items after the root closed
    assert_eq!(
        parse_descriptor(&[0x05, 0x01, 0x09, 0x04, 0xA1, 0x01, 0xC0, 0x05, 0x01]),
        Err(HidError::UnbalancedCollections)
    );
    // a collection left open at the end of the stream
    assert_eq!(
        parse_descriptor(&[0x05, 0x01, 0x09, 0x04, 0xA1, 0x01, 0x09, 0x01, 0xA1, 0x00]),
        Err(HidError::UnbalancedCollections)
    );
}

#[test]
fn invalid_field_shapes_are_reported() {
    // Report Size of zero bits
    assert_eq!(
        parse_descriptor(&[
            0x05, 0x01, 0x09, 0x04, 0xA1, 0x01, 0x09, 0x10, 0x75, 0x00, 0x95, 0x01, 0x15, 0x00,
            0x25, 0x01, 0x81, 0x02, 0xC0,
        ]),
        Err(HidError::InvalidReportSize)
    );
    // Report Size of more than 32 bits
    assert_eq!(
        parse_descriptor(&[
            0x05, 0x01, 0x09, 0x04, 0xA1, 0x01, 0x09, 0x10, 0x75, 0x40, 0x95, 0x01, 0x15, 0x00,
            0x25, 0x01, 0x81, 0x02, 0xC0,
        ]),
        Err(HidError::InvalidReportSize)
    );
    // Logical Minimum above Logical Maximum
    assert_eq!(
        parse_descriptor(&[
            0x05, 0x01, 0x09, 0x04, 0xA1, 0x01, 0x09, 0x10, 0x75, 0x08, 0x95, 0x01, 0x15, 0x05,
            0x25, 0x01, 0x81, 0x02, 0xC0,
        ]),
        Err(HidError::InvalidLogicalBounds)
    );
    // a non-constant field with no usage at all
    assert_eq!(
        parse_descriptor(&[
            0x05, 0x01, 0x09, 0x04, 0xA1, 0x01, 0x75, 0x08, 0x95, 0x01, 0x15, 0x00, 0x25, 0x01,
            0x81, 0x02, 0xC0,
        ]),
        Err(HidError::MalformedUsage)
    );
}

#[test]
fn offset_overflow_is_reported() {
    // 2^32 - 1 controls of 32 bits each run past the addressable offsets
    assert_eq!(
        parse_descriptor(&[
            0x05, 0x01, 0x09, 0x04, 0xA1, 0x01, 0x75, 0x20, // ReportSize(32)
            0x97, 0xFF, 0xFF, 0xFF, 0xFF, // ReportCount(0xFFFFFFFF)
            0x15, 0x00, 0x25, 0x01, 0x81, 0x01, // constant Input
            0xC0,
        ]),
        Err(HidError::OffsetOverflow)
    );
}

#[test]
fn short_report_is_rejected() {
    let desc = [
        0x05, 0x01, 0x09, 0x04, 0xA1, 0x01, 0x09, 0x10, 0x15, 0x00, 0x26, 0xFF, 0x00, 0x75, 0x08,
        0x95, 0x02, 0x81, 0x02, 0xC0,
    ];
    let tree = parse_descriptor(&desc).expect("should parse");
    assert_eq!(tree.decode(&[0xAB]), Err(HidError::ReportTooShort));
    let decoded = tree.decode(&[0xAB, 0xCD]).expect("should decode");
    let leaves = flat_leaves(&decoded);
    assert_eq!(leaves[0][0].value, InputValue::UInt(0xAB));
    assert_eq!(leaves[0][1].value, InputValue::UInt(0xCD));
}

#[test]
fn hid_descriptor_lists_report_descriptors() {
    // bLength, bDescriptorType, bcdHID (1.11), bCountryCode, bNumDescriptors,
    // then one entry: type 0x22, length 0x0065
    let bytes = [0x09u8, 0x21, 0x11, 0x01, 0x00, 0x01, 0x22, 0x65, 0x00];
    let hd = HidDescriptor::new(&bytes, 0);
    assert_eq!(hd.hid(), 0x0111);
    assert_eq!(hd.num_descriptors(), 1);
    assert_eq!(hd.descriptor_type(0), Some(DescriptorType::Report));
    assert_eq!(hd.descriptor_length(0), Some(0x65));
    assert_eq!(hd.descriptor_type(1), None);
    assert_eq!(hd.descriptor_length(1), None);
    assert_eq!(DescriptorType::Report.code(), 0x22);
}

#[test]
fn report_descriptor_decodes_to_parser() {
    let rd = ReportDescriptor {
        bytes: vec![0x05, 0x01, 0x09, 0x04, 0xA1, 0x01, 0xC0],
    };
    let parser = rd.decode().expect("should parse");
    let decoded = parser.parse_input(&[]).expect("should decode");
    assert!(decoded.items.is_empty());
}
