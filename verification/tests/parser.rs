use hid_parser::basic::{BasicItem, BasicItems, Collection as CollectionType, GlobalItem, LocalItem, MainItem};
use hid_parser::collection::{Collection, CollectionItem};
use hid_parser::input::Input;
use hid_parser::parser::Parser;
use hid_parser::report::Report;

const JOYSTICK: [u8; 101] = [
    0x5, 0x1, 0x9, 0x4, 0xa1, 0x1, 0x9, 0x1, 0xa1, 0x0, 0x5, 0x1, 0x9, 0x30, 0x9, 0x31, 0x15,
    0x0, 0x26, 0xff, 0x3, 0x75, 0xa, 0x95, 0x2, 0x81, 0x2, 0x9, 0x35, 0x15, 0x0, 0x26, 0xff,
    0x0, 0x75, 0x8, 0x95, 0x1, 0x81, 0x2, 0x9, 0x32, 0x9, 0x36, 0x15, 0x0, 0x26, 0xff, 0x0,
    0x75, 0x8, 0x95, 0x2, 0x81, 0x2, 0x5, 0x9, 0x19, 0x1, 0x29, 0xe, 0x15, 0x0, 0x25, 0x1,
    0x75, 0x1, 0x95, 0xe, 0x81, 0x2, 0x5, 0x1, 0x9, 0x39, 0x15, 0x1, 0x25, 0x8, 0x35, 0x0,
    0x46, 0x3b, 0x1, 0x66, 0x14, 0x0, 0x75, 0x4, 0x95, 0x1, 0x81, 0x42, 0x75, 0x2, 0x95, 0x1,
    0x81, 0x1, 0xc0, 0xc0,
];

fn collect_items(bytes: &[u8]) -> Vec<BasicItem> {
    let mut cursor = BasicItems::new(bytes);
    let mut items = Vec::new();
    loop {
        match cursor.next().expect("tokenizing should succeed") {
            Some(item) => items.push(item),
            None => break,
        }
    }
    items
}

#[test]
fn parses_basic_report_descriptor_items() {
    let basic_items = BasicItems::new(&JOYSTICK);
    println!("{:x?}", basic_items);
    println!("{:?}", collect_items(&JOYSTICK));
}

#[test]
fn basic_parses_basic_report_descriptor_items() {
    let parsed = collect_items(&JOYSTICK);

    assert_eq!(parsed.len(), 49);
    assert!(matches!(parsed[0], BasicItem::Global(GlobalItem::UsagePage(1))));
    assert!(matches!(parsed[1], BasicItem::Local(LocalItem::Usage(4))));
    assert!(matches!(
        parsed[2],
        BasicItem::Main(MainItem::Collection(CollectionType::Application))
    ));
    assert!(matches!(parsed[3], BasicItem::Local(LocalItem::Usage(1))));
    assert!(matches!(
        parsed[4],
        BasicItem::Main(MainItem::Collection(CollectionType::Physical))
    ));
    assert!(matches!(parsed[9], BasicItem::Global(GlobalItem::LogicalMaximum(1023))));
    assert!(matches!(parsed[47], BasicItem::Main(MainItem::EndCollection)));
    assert!(matches!(parsed[48], BasicItem::Main(MainItem::EndCollection)));
}

#[test]
fn parses_a_report_descriptor() {
    let basic_items = BasicItems::new(&JOYSTICK);
    let parser = Parser::new(basic_items).expect("the joystick descriptor should parse");

    println!("{:#?}", parser);
}

#[test]
fn parses_an_input_report() {
    let basic_items = BasicItems::new(&JOYSTICK);
    let parser = Parser::new(basic_items).expect("the joystick descriptor should parse");

    let input_report = [0u8; 64];
    let input = parser.parse_input(&input_report);

    println!("{:#?}", input);
}

#[test]
fn joystick_tree_has_expected_fields() {
    let tree = hid_parser::parser::parse_descriptor(&JOYSTICK)
        .expect("the joystick descriptor should parse");

    assert!(matches!(tree.collection_type, CollectionType::Application));
    assert_eq!(tree.usage, (1, 4));
    assert_eq!(tree.items.len(), 1);

    let physical = match &tree.items[0] {
        CollectionItem::Collection(c) => c,
        CollectionItem::Item(_) => panic!("expected the nested physical collection"),
    };
    assert!(matches!(physical.collection_type, CollectionType::Physical));
    assert_eq!(physical.usage, (1, 1));

    let fields: Vec<Report> = tree.iter_fields();
    assert_eq!(fields.len(), 6);

    // axes X and Y: a two-element run of 10-bit values in 0..=1023
    assert_eq!(fields[0].usages, vec![(1, 0x30), (1, 0x31)]);
    assert_eq!(fields[0].report_size, 10);
    assert_eq!(fields[0].report_count, 2);
    assert_eq!(fields[0].logical_minimum, 0);
    assert_eq!(fields[0].logical_maximum, 1023);
    assert_eq!(fields[0].bit_offset, 0);

    // throttle: one byte
    assert_eq!(fields[1].usages, vec![(1, 0x35)]);
    assert_eq!(fields[1].report_size, 8);
    assert_eq!(fields[1].bit_offset, 20);

    // rudder and Z: two bytes
    assert_eq!(fields[2].usages, vec![(1, 0x32), (1, 0x36)]);
    assert_eq!(fields[2].bit_offset, 28);

    // 14 buttons, one bit each
    assert_eq!(fields[3].usage_minimum, Some((9, 1)));
    assert_eq!(fields[3].usage_maximum, Some((9, 0xE)));
    assert_eq!(fields[3].report_size, 1);
    assert_eq!(fields[3].report_count, 14);
    assert_eq!(fields[3].bit_offset, 44);

    // hat switch: 4 bits, 1..=8, null state, physical 0..=315
    assert_eq!(fields[4].usages, vec![(1, 0x39)]);
    assert_eq!(fields[4].logical_minimum, 1);
    assert_eq!(fields[4].logical_maximum, 8);
    assert_eq!(fields[4].physical_minimum, 0);
    assert_eq!(fields[4].physical_maximum, 315);
    assert_eq!(fields[4].unit, Some(0x14));
    assert_eq!(fields[4].bit_offset, 58);

    // 2 bits of constant padding
    assert_eq!(fields[5].report_size, 2);
    assert_eq!(fields[5].bit_offset, 62);
}

#[test]
fn tokenizer_consumes_whole_descriptor() {
    // tokenizer totality: the encoded item lengths sum to the descriptor
    // length, so the cursor ends exactly at the end of the bytes
    let mut cursor = BasicItems::new(&JOYSTICK);
    while cursor.next().expect("tokenizing should succeed").is_some() {}
    assert_eq!(cursor.offset, JOYSTICK.len());
}

fn leaves(tree: &Collection<Vec<Input>>) -> Vec<Vec<Input>> {
    let mut out = Vec::new();
    for item in &tree.items {
        match item {
            CollectionItem::Collection(c) => out.extend(leaves(c)),
            CollectionItem::Item(inputs) => out.push(inputs.clone()),
        }
    }
    out
}

#[test]
fn local_table_resets_between_inputs() {
    // local reset: the second field sees only its own usage, not the
    // first field's
    let desc = [
        0x05, 0x01, // UsagePage(1)
        0x09, 0x04, // Usage(4)
        0xA1, 0x01, // Collection(Application)
        0x15, 0x00, // LogicalMinimum(0)
        0x26, 0xFF, 0x00, // LogicalMaximum(255)
        0x75, 0x08, // ReportSize(8)
        0x95, 0x01, // ReportCount(1)
        0x09, 0x30, // Usage(0x30)
        0x81, 0x02, // Input
        0x09, 0x31, // Usage(0x31)
        0x81, 0x02, // Input
        0xC0, // EndCollection
    ];
    let tree = hid_parser::parser::parse_descriptor(&desc).expect("should parse");
    let decoded = tree.decode(&[0x11, 0x22]).expect("should decode");
    let leaves = leaves(&decoded);
    assert_eq!(leaves.len(), 2);
    assert_eq!(leaves[0].len(), 1);
    assert_eq!(leaves[0][0].usage, (1, 0x30));
    assert_eq!(leaves[1].len(), 1);
    assert_eq!(leaves[1][0].usage, (1, 0x31));
}

#[test]
fn field_offsets_accumulate() {
    // offset arithmetic: each field starts where the previous ones ended
    let tree = hid_parser::parser::parse_descriptor(&JOYSTICK).expect("should parse");
    let fields = tree.iter_fields();
    let mut expected: usize = 0;
    for field in &fields {
        assert_eq!(field.bit_offset, expected);
        expected += (field.report_size as usize) * (field.report_count as usize);
    }
    assert_eq!(expected, 64);
}

#[test]
fn sticky_last_usage_repeats() {
    let desc = [
        0x05, 0x01, 0x09, 0x04, 0xA1, 0x01, // open Application(1, 4)
        0x15, 0x00, 0x25, 0x03, // logical 0..=3
        0x75, 0x04, 0x95, 0x05, // 5 nibbles
        0x09, 0x10, 0x09, 0x11, 0x09, 0x12, // three usages
        0x81, 0x02, // Input
        0xC0,
    ];
    let tree = hid_parser::parser::parse_descriptor(&desc).expect("should parse");
    let decoded = tree.decode(&[0, 0, 0]).expect("should decode");
    let leaves = leaves(&decoded);
    assert_eq!(leaves.len(), 1);
    let usages: Vec<(u16, u16)> = leaves[0].iter().map(|i| i.usage).collect();
    assert_eq!(
        usages,
        vec![(1, 0x10), (1, 0x11), (1, 0x12), (1, 0x12), (1, 0x12)]
    );
}

#[test]
fn usage_minimum_expands() {
    let desc = [
        0x05, 0x01, 0x09, 0x04, 0xA1, 0x01, // open Application(1, 4)
        0x05, 0x09, // UsagePage(9): buttons
        0x19, 0x01, // UsageMinimum(1)
        0x29, 0x0E, // UsageMaximum(0x0E)
        0x15, 0x00, 0x25, 0x01, // logical 0..=1
        0x75, 0x01, 0x95, 0x0E, // 14 bits
        0x81, 0x02, // Input
        0xC0,
    ];
    let tree = hid_parser::parser::parse_descriptor(&desc).expect("should parse");
    let decoded = tree.decode(&[0, 0]).expect("should decode");
    let leaves = leaves(&decoded);
    assert_eq!(leaves.len(), 1);
    assert_eq!(leaves[0].len(), 14);
    for (i, input) in leaves[0].iter().enumerate() {
        assert_eq!(input.usage, (9, 1 + i as u16));
    }
}

#[test]
fn decoding_is_idempotent() {
    let tree = hid_parser::parser::parse_descriptor(&JOYSTICK).expect("should parse");
    let report = [
        0x12, 0x34, 0x56, 0x78, 0x9A, 0xBC, 0xDE, 0xF0,
    ];
    let first = tree.decode(&report).expect("should decode");
    let second = tree.decode(&report).expect("should decode");
    assert_eq!(first, second);
}

#[test]
fn item_header_splits_size_class_tag() {
    // 0x05: Usage Page header: one data byte, Global class, tag 0
    assert_eq!(BasicItems::item_header(0x05), (1, 1, 0));
    // 0x81: Input header: one data byte, Main class, tag 8
    assert_eq!(BasicItems::item_header(0x81), (1, 0, 8));
    // 0x26: Logical Maximum with two data bytes
    assert_eq!(BasicItems::item_header(0x26), (2, 1, 2));
    // size code 3 means four data bytes
    assert_eq!(BasicItems::item_header(0x97), (4, 1, 9));
}

#[test]
fn map_preserves_structure() {
    let tree = hid_parser::parser::parse_descriptor(&JOYSTICK).expect("should parse");
    let mapped: Collection<u32> = tree.map(|r: &Report| Some(r.report_size));
    assert_eq!(mapped.usage, tree.usage);
    assert_eq!(mapped.items.len(), 1);
    match &mapped.items[0] {
        CollectionItem::Collection(c) => {
            let sizes: Vec<u32> = c
                .items
                .iter()
                .map(|it| match it {
                    CollectionItem::Item(s) => *s,
                    CollectionItem::Collection(_) => panic!("expected only leaves"),
                })
                .collect();
            assert_eq!(sizes, vec![10, 8, 8, 1, 4, 2]);
        }
        CollectionItem::Item(_) => panic!("expected the nested physical collection"),
    }
}
