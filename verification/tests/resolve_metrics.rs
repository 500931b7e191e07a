use build_shaper_font::VariationError;
use build_shaper_font::axes::AxisSpace;
use build_shaper_font::locations::MasterLocation;
use build_shaper_font::resolver::SimpleVariationInfo;

const WGHT: u32 = 0x7767_6874;
const ONE: i64 = 0x1_0000;

fn wght_resolver() -> SimpleVariationInfo {
    let axis = AxisSpace::new("wght", 100 * ONE, 400 * ONE, 900 * ONE).unwrap();
    SimpleVariationInfo::new(vec![axis])
}

fn loc(coord: i64) -> MasterLocation {
    let mut l = MasterLocation::new();
    l.insert(WGHT, coord);
    l
}

#[test]
fn single_default_master_resolves_to_its_value() {
    let mut vi = wght_resolver();
    let samples = vec![(loc(0), 42i16)];
    let (default, deltas) = vi.resolve_variable_metric(&samples).unwrap();
    assert_eq!(default, 42);
    assert!(deltas.is_empty());
}

#[test]
fn two_masters_give_one_delta() {
    let mut vi = wght_resolver();
    let samples = vec![(loc(0), 10i16), (loc(ONE), 30i16)];
    let (default, deltas) = vi.resolve_variable_metric(&samples).unwrap();
    assert_eq!(default, 10);
    assert_eq!(deltas.len(), 1);
    assert_eq!(deltas[0].1, 20);
}

#[test]
fn structurally_equal_sets_share_a_model() {
    let mut vi = wght_resolver();
    let first = vec![(loc(0), 10i16), (loc(ONE), 30i16)];
    // The same location set, handed over in the other order.
    let second = vec![(loc(ONE), 35i16), (loc(0), 15i16)];
    let (d1, v1) = vi.resolve_variable_metric(&first).unwrap();
    let (d2, v2) = vi.resolve_variable_metric(&second).unwrap();
    assert_eq!((d1, v1.len()), (10, 1));
    assert_eq!(d2, 15);
    assert_eq!(v2.len(), 1);
    assert_eq!(v2[0].1, 20);
}

#[test]
fn negative_masters_round_away_from_zero() {
    let mut vi = wght_resolver();
    let samples = vec![(loc(0), -50i16)];
    let (default, deltas) = vi.resolve_variable_metric(&samples).unwrap();
    assert_eq!(default, -50);
    assert!(deltas.is_empty());
}

#[test]
fn axis_lookup() {
    let vi = wght_resolver();
    assert_eq!(vi.axis_count(), 1);
    assert_eq!(vi.axis(WGHT), Some(0));
    assert_eq!(vi.axis(0x7764_7468), None);
    assert_eq!(vi.axis_at(0).tag, WGHT);
}

#[test]
fn named_number_values_are_unsupported() {
    let vi = wght_resolver();
    assert!(matches!(
        vi.resolve_glyphs_number_value("anything"),
        Err(VariationError::UnsupportedOperation)
    ));
}

#[test]
fn samples_collapsing_in_the_model_fail_resolution() {
    // Two locations that differ only on a tag that is no axis collapse
    // onto one master inside the model, which the decomposition rejects.
    let mut vi = wght_resolver();
    let mut a = MasterLocation::new();
    a.insert(0x7a7a_7a7a, 0);
    let mut b = MasterLocation::new();
    b.insert(0x7a7a_7a7a, ONE);
    let samples = vec![(a, 1i16), (b, 2i16)];
    assert!(matches!(
        vi.resolve_variable_metric(&samples),
        Err(VariationError::ResolutionFailed)
    ));
}

#[test]
fn independent_resolvers_agree_on_equal_content() {
    // Two fresh resolvers over the same axes, handed the same
    // location-value mapping in different orders, produce identical
    // results, whatever their cache histories.
    let mut r1 = wght_resolver();
    let mut r2 = wght_resolver();
    let warmup = vec![(loc(ONE / 2), 7i16)];
    r2.resolve_variable_metric(&warmup).unwrap();
    let v1 = vec![(loc(0), 10i16), (loc(ONE), 30i16)];
    let v2 = vec![(loc(ONE), 30i16), (loc(0), 10i16)];
    let a = r1.resolve_variable_metric(&v1).unwrap();
    let b = r2.resolve_variable_metric(&v2).unwrap();
    assert_eq!(a.0, b.0);
    assert_eq!(a.1, b.1);
}
