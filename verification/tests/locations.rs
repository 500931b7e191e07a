use build_shaper_font::locations::MasterLocation;

const WGHT: u32 = 0x7767_6874;
const WDTH: u32 = 0x7764_7468;
const ONE: i64 = 0x1_0000;

#[test]
fn insert_order_does_not_matter() {
    let mut a = MasterLocation::new();
    a.insert(WGHT, ONE);
    a.insert(WDTH, -ONE);
    let mut b = MasterLocation::new();
    b.insert(WDTH, -ONE);
    b.insert(WGHT, ONE);
    assert!(a.same_as(&b));
}

#[test]
fn insert_replaces_existing_tag() {
    let mut a = MasterLocation::new();
    a.insert(WGHT, ONE);
    a.insert(WGHT, ONE / 2);
    assert_eq!(a.len(), 1);
    assert_eq!(a.entry(0), (WGHT, ONE / 2));
}

#[test]
fn entries_sorted_by_tag() {
    let mut a = MasterLocation::new();
    a.insert(WGHT, 1);
    a.insert(WDTH, 2);
    // 'wdth' sorts before 'wght'.
    assert_eq!(a.entry(0), (WDTH, 2));
    assert_eq!(a.entry(1), (WGHT, 1));
}

#[test]
fn different_contents_differ() {
    let mut a = MasterLocation::new();
    a.insert(WGHT, 1);
    let mut b = MasterLocation::new();
    b.insert(WGHT, 2);
    assert!(!a.same_as(&b));
    assert!(a.same_as(&a.duplicate()));
}
