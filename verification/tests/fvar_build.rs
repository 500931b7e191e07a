use build_shaper_font::VariationError;
use build_shaper_font::axes::AxisSpace;
use build_shaper_font::fvar::build_axis_table;

const ONE: i64 = 0x1_0000;

fn wght() -> AxisSpace {
    AxisSpace::new("wght", 100 * ONE, 400 * ONE, 900 * ONE).unwrap()
}

fn wdth() -> AxisSpace {
    AxisSpace::new("wdth", 75 * ONE, 100 * ONE, 125 * ONE).unwrap()
}

fn ital() -> AxisSpace {
    AxisSpace::new("ital", 0, 0, ONE).unwrap()
}

#[test]
fn empty_axis_list_builds_nothing() {
    let (names, records) = build_axis_table(&vec![], &vec![0x7fff]).unwrap();
    assert!(names.is_empty());
    assert!(records.is_empty());
}

#[test]
fn first_id_is_past_reserved_range() {
    let (names, records) = build_axis_table(&vec![wght()], &vec![]).unwrap();
    assert_eq!(names.len(), 1);
    assert_eq!(records.len(), 1);
    assert_eq!(names[0].name_id, 256);
    assert_eq!(names[0].label, "wght");
    assert_eq!(records[0].name_id, 256);
    assert_eq!(records[0].tag, 0x7767_6874);
    assert_eq!(records[0].min, 100 * ONE);
    assert_eq!(records[0].default, 400 * ONE);
    assert_eq!(records[0].max, 900 * ONE);
}

#[test]
fn ids_start_past_existing_maximum_gap_free() {
    let axes = vec![wght(), wdth(), ital()];
    let existing = vec![7, 300, 258];
    let (names, records) = build_axis_table(&axes, &existing).unwrap();
    assert_eq!(names.iter().map(|n| n.name_id).collect::<Vec<_>>(), vec![301, 302, 303]);
    assert_eq!(records.iter().map(|r| r.name_id).collect::<Vec<_>>(), vec![301, 302, 303]);
    assert_eq!(names[1].label, "wdth");
    assert_eq!(records[2].tag, 0x6974_616c);
}

#[test]
fn overflow_is_reported() {
    assert!(matches!(
        build_axis_table(&vec![wght()], &vec![0x7fff]),
        Err(VariationError::IdentifierOverflow)
    ));
    // The last two allowed identifiers fit two axes exactly, not three.
    assert!(build_axis_table(&vec![wght(), wdth()], &vec![0x7ffd]).is_ok());
    assert!(matches!(
        build_axis_table(&vec![wght(), wdth(), ital()], &vec![0x7ffd]),
        Err(VariationError::IdentifierOverflow)
    ));
}
