use build_shaper_font::utf16::to_utf16_offset;

#[test]
fn ascii_offsets_round_trip() {
    let s = "feature kern";
    for b in 0..=s.len() {
        assert_eq!(to_utf16_offset(s, b), b);
    }
}

#[test]
fn empty_source_passes_offsets_through() {
    assert_eq!(to_utf16_offset("", 0), 0);
    assert_eq!(to_utf16_offset("", 7), 7);
}

#[test]
fn supplementary_scalar_counts_two_units() {
    // One emoji: four bytes of UTF-8, two UTF-16 code units.
    let s = "a\u{1F600}b";
    assert_eq!(to_utf16_offset(s, 0), 0);
    assert_eq!(to_utf16_offset(s, 1), 1);
    assert_eq!(to_utf16_offset(s, 5), 3);
    assert_eq!(to_utf16_offset(s, 6), 4);
}

#[test]
fn two_byte_and_three_byte_scalars() {
    // 'é' is two bytes and one unit; '€' is three bytes and one unit.
    let s = "\u{e9}x\u{20ac}y";
    assert_eq!(to_utf16_offset(s, 2), 1);
    assert_eq!(to_utf16_offset(s, 3), 2);
    assert_eq!(to_utf16_offset(s, 6), 3);
    assert_eq!(to_utf16_offset(s, 7), 4);
}

#[test]
fn non_boundary_offset_unchanged() {
    let s = "a\u{1F600}b";
    // Offsets inside the emoji's encoding are not boundaries.
    assert_eq!(to_utf16_offset(s, 2), 2);
    assert_eq!(to_utf16_offset(s, 3), 3);
    assert_eq!(to_utf16_offset(s, 4), 4);
}

#[test]
fn past_end_offset_unchanged() {
    assert_eq!(to_utf16_offset("ab", 99), 99);
    assert_eq!(to_utf16_offset("ab", 3), 3);
}
