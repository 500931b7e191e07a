use build_shaper_font::VariationError;
use build_shaper_font::axes::{AxisSpace, parse_tag};

const ONE: i64 = 0x1_0000;

#[test]
fn parse_tag_four_letters() {
    assert_eq!(parse_tag(b"wght"), Ok(0x7767_6874));
}

#[test]
fn parse_tag_pads_short_tags() {
    assert_eq!(parse_tag(b"ab"), Ok(0x6162_2020));
    assert_eq!(parse_tag(b"a"), Ok(0x6120_2020));
}

#[test]
fn parse_tag_rejects_bad_input() {
    assert_eq!(parse_tag(b""), Err(VariationError::InvalidAxisTag));
    assert_eq!(parse_tag(b"abcde"), Err(VariationError::InvalidAxisTag));
    assert_eq!(parse_tag(b" abc"), Err(VariationError::InvalidAxisTag));
    // A space may only be followed by more spaces.
    assert_eq!(parse_tag(b"a bc"), Err(VariationError::InvalidAxisTag));
    assert_eq!(parse_tag(b"a  b"), Err(VariationError::InvalidAxisTag));
    // Bytes outside printable ASCII are refused.
    assert_eq!(parse_tag(b"a\x7fzz"), Err(VariationError::InvalidAxisTag));
    assert_eq!(parse_tag(b"a\x19zz"), Err(VariationError::InvalidAxisTag));
    // A trailing space after a letter is fine.
    assert_eq!(parse_tag(b"ab "), Ok(0x6162_2020));
}

#[test]
fn axis_construction() {
    let a = AxisSpace::new("wght", 100 * ONE, 400 * ONE, 900 * ONE).unwrap();
    assert_eq!(a.tag, 0x7767_6874);
    assert_eq!(a.name, "wght");
    assert_eq!(a.min, 100 * ONE);
    assert_eq!(a.default, 400 * ONE);
    assert_eq!(a.max, 900 * ONE);
}

#[test]
fn axis_construction_rejects_bad_tag() {
    assert!(matches!(
        AxisSpace::new("weight", 0, 0, 0),
        Err(VariationError::InvalidAxisTag)
    ));
}

#[test]
fn normalize_pins() {
    let a = AxisSpace::new("wght", 100 * ONE, 400 * ONE, 900 * ONE).unwrap();
    assert_eq!(a.normalize(400 * ONE), 0);
    assert_eq!(a.normalize(100 * ONE), -ONE);
    assert_eq!(a.normalize(900 * ONE), ONE);
}

#[test]
fn normalize_interpolates_and_clamps() {
    let a = AxisSpace::new("wght", 100 * ONE, 400 * ONE, 900 * ONE).unwrap();
    // Halfway between default and max.
    assert_eq!(a.normalize(650 * ONE), ONE / 2);
    // Halfway between min and default.
    assert_eq!(a.normalize(250 * ONE), -ONE / 2);
    // Outside the range the value is clamped to the nearer end.
    assert_eq!(a.normalize(1000 * ONE), ONE);
    assert_eq!(a.normalize(50 * ONE), -ONE);
}

#[test]
fn normalize_degenerate_low_side() {
    // min == default: everything at or below default maps to zero.
    let a = AxisSpace::new("wght", 400 * ONE, 400 * ONE, 900 * ONE).unwrap();
    assert_eq!(a.normalize(400 * ONE), 0);
    assert_eq!(a.normalize(100 * ONE), 0);
    assert_eq!(a.normalize(900 * ONE), ONE);
}
