use vstd::prelude::*;

use fontdrasil::coords::{NormalizedCoord, NormalizedLocation, UserCoord};
use fontdrasil::types::Axes;
use fontdrasil::variations::{DeltaError, VariationModel};
use std::collections::HashMap;
use write_fonts::types::{Fixed, Tag};

verus! {

// The collaborator types that cross into verified signatures are
// declared opaque here: Verus sees nothing of their insides, and every
// call into them goes through one of the wrappers below.

#[verifier::external_type_specification]
#[verifier::external_body]
#[verifier::reject_recursive_types(Space)]
pub struct ExLocation<Space>(fontdrasil::coords::Location<Space>);

#[verifier::external_type_specification]
#[verifier::external_body]
pub struct ExNormalizedSpace(fontdrasil::coords::NormalizedSpace);

#[verifier::external_type_specification]
#[verifier::external_body]
pub struct ExFdAxis(fontdrasil::types::Axis);

#[verifier::external_type_specification]
#[verifier::external_body]
pub struct ExAxes(fontdrasil::types::Axes);

#[verifier::external_type_specification]
#[verifier::external_body]
pub struct ExVariationModel(fontdrasil::variations::VariationModel);

#[verifier::external_type_specification]
#[verifier::external_body]
pub struct ExFdVariationRegion(fontdrasil::variations::VariationRegion);

#[verifier::external_type_specification]
#[verifier::external_body]
pub struct ExDeltaError(fontdrasil::variations::DeltaError);

#[verifier::external_type_specification]
#[verifier::external_body]
pub struct ExTableVariationRegion(write_fonts::tables::variations::VariationRegion);

/// What a collaborator location holds: a mapping from axis tag (packed
/// big-endian into the integer) to a normalized coordinate in 16.16
/// fixed-point form.
pub uninterp spec fn loc_rep(l: NormalizedLocation) -> Map<int, int>;

/// The collaborator axis that `Axis` construction with the standard
/// three-point normalization yields: a function of the name, tag and
/// fixed-point user bounds alone.
pub uninterp spec fn axis_of(name: Seq<char>, tag: u32, min: i64, default: i64, max: i64)
    -> fontdrasil::types::Axis;

/// The axis set `Axes::new` builds from axes in order.
pub uninterp spec fn axes_of(axes: Seq<fontdrasil::types::Axis>) -> Axes;

/// The interpolation model `VariationModel::new` builds: a function of
/// the set of master-location mappings and of the axes (whose order it
/// takes) alone — the construction sorts the locations itself.
pub uninterp spec fn model_of(locations: Set<Map<int, int>>, axes: Axes) -> VariationModel;

/// What `VariationModel::deltas` computes from a model and one value
/// sequence per location, with each delta carried as 16.16 fixed-point
/// bits: `None` stands for the decomposition failing.  The computation
/// walks the model's own sorted location order, so it is a function of
/// the model and the location-to-values mapping alone.
pub uninterp spec fn deltas_of(model: VariationModel, points: Map<Map<int, int>, int>) -> Option<
    Seq<(fontdrasil::variations::VariationRegion, Seq<i64>)>,
>;

/// The scalar weight (as 16.16 fixed-point) a region gives the model's
/// default location.
pub uninterp spec fn scalar_default_of(
    model: VariationModel,
    region: fontdrasil::variations::VariationRegion,
) -> i64;

/// Whether a region is the model's default region (no active axes).
pub uninterp spec fn is_default_of(region: fontdrasil::variations::VariationRegion) -> bool;

/// The table form of a model region, laid out in the order of the
/// given axes.
pub uninterp spec fn table_region_of(
    region: fontdrasil::variations::VariationRegion,
    axes: Axes,
) -> write_fonts::tables::variations::VariationRegion;

/// The mappings of a list of collaborator locations, as a set.
pub open spec fn locations_rep(locs: Seq<NormalizedLocation>) -> Set<Map<int, int>> {
    locs.map_values(|l: NormalizedLocation| loc_rep(l)).to_set()
}

/// One value per location, as a mapping keyed by the locations'
/// mappings; on a repeated location the later value wins, as it does
/// for the map the decomposition is handed.
pub open spec fn points_rep(locs: Seq<NormalizedLocation>, values: Seq<i16>) -> Map<
    Map<int, int>,
    int,
>
    decreases locs.len(),
{
    if locs.len() == 0 || values.len() == 0 {
        Map::empty()
    } else {
        points_rep(locs.drop_last(), values.drop_last()).insert(
            loc_rep(locs.last()),
            values.last() as int,
        )
    }
}

/// Relies on `Location::new`: a freshly created location is empty.
#[verifier::external_body]
pub fn new_location() -> (r: NormalizedLocation)
    ensures
        loc_rep(r) =~= Map::empty(),
{
    NormalizedLocation::new()
}

/// Relies on `Location::insert`: setting a tag's coordinate replaces any
/// previous entry for that tag and keeps the rest.
#[verifier::external_body]
pub fn location_insert(l: &mut NormalizedLocation, tag: u32, coord: i64)
    requires
        -0x8000_0000 <= coord <= 0x7fff_ffff,
    ensures
        loc_rep(*final(l)) == loc_rep(*old(l)).insert(tag as int, coord as int),
{
    l.insert(Tag::from_u32(tag), NormalizedCoord::new(Fixed::from_bits(coord as i32).to_f64()));
}

/// Relies on `CoordConverter::default_normalization` and the axis
/// constructor: builds a collaborator axis with the standard three-point
/// normalization, from fixed-point user coordinates.  The result is a
/// function of the arguments alone.
#[verifier::external_body]
pub fn outside_axis(name: &str, tag: u32, min: i64, default: i64, max: i64) -> (r:
    fontdrasil::types::Axis)
    requires
        -0x8000_0000 <= min <= 0x7fff_ffff,
        -0x8000_0000 <= default <= 0x7fff_ffff,
        -0x8000_0000 <= max <= 0x7fff_ffff,
    ensures
        r == axis_of(name@, tag, min, default, max),
{
    let minc = UserCoord::new(Fixed::from_bits(min as i32).to_f64());
    let defaultc = UserCoord::new(Fixed::from_bits(default as i32).to_f64());
    let maxc = UserCoord::new(Fixed::from_bits(max as i32).to_f64());
    let converter = fontdrasil::coords::CoordConverter::default_normalization(minc, defaultc, maxc);
    let (name, tag, hidden, localized_names) = (name.to_owned(), Tag::from_u32(tag), false, Default::default());
    fontdrasil::types::Axis { name, tag, min: minc, default: defaultc, max: maxc, hidden, converter, localized_names }
}

/// Relies on `Axes::new`: gathers collaborator axes into an axis set,
/// keeping their order; a function of the axis list alone.
#[verifier::external_body]
pub fn axes_new(axes: Vec<fontdrasil::types::Axis>) -> (r: Axes)
    ensures
        r == axes_of(axes@),
{
    Axes::new(axes)
}

/// Relies on `VariationModel::new`: builds an interpolation model over
/// exactly the given master locations (duplicates collapse) and the axis
/// order of the given axes.  The construction is deterministic: it
/// sorts the locations itself, so the order of the input list does not
/// matter, and the model is a function of the location set and the
/// axes alone.
#[verifier::external_body]
pub fn model_new(locations: &Vec<NormalizedLocation>, axes: &Axes) -> (r: VariationModel)
    ensures
        r == model_of(locations_rep(locations@), *axes),
{
    VariationModel::new(locations.iter().cloned().collect(), axes.axis_order())
}

/// Relies on `VariationModel::deltas`: decomposes one value per location
/// into per-region delta value sequences.  The outcome and its content
/// are exactly what the decomposition computes for this model and
/// mapping (`None` standing for its error).  Every returned value is
/// the bit pattern of a 32-bit 16.16 fixed-point number, so it fits
/// that range whatever the model computed.
#[verifier::external_body]
pub fn model_deltas(model: &VariationModel, locs: &Vec<NormalizedLocation>, values: &Vec<i16>) -> (r:
    Result<Vec<(fontdrasil::variations::VariationRegion, Vec<i64>)>, DeltaError>)
    requires
        locs@.len() == values@.len(),
    ensures
        ({
            let ds_opt = deltas_of(*model, points_rep(locs@, values@));
            match r {
                Ok(v) => {
                    &&& ds_opt matches Some(ds)
                    &&& v@.len() == ds.len()
                    &&& forall|k: int|
                        0 <= k < ds.len() ==> (#[trigger] v@[k]).0 == ds[k].0 && v@[k].1@ == ds[k].1
                },
                Err(_) => ds_opt is None,
            }
        }),
        r matches Ok(ds) ==> forall|i: int, j: int|
            0 <= i < ds.len() && 0 <= j < ds[i].1.len() ==> -0x8000_0000 <= #[trigger] ds[i].1[j]
                <= 0x7fff_ffff,
{
    let point_seqs: HashMap<_, _> = locs
        .iter()
        .cloned()
        .zip(values.iter().map(|v| vec![Fixed::from_i32(*v as i32).to_f64()]))
        .collect();
    let deltas = model.deltas(&point_seqs)?;
    Ok(deltas
        .into_iter()
        .map(|(r, vs)| (r, vs.into_iter().map(|v| Fixed::from_f64(v).to_bits() as i64).collect()))
        .collect())
}

/// Relies on `VariationRegion::scalar_at` at the model's default
/// location: a function of the region and the model's default alone.
/// Without extrapolation the scalar is a product of per-axis factors
/// each between zero and one, so the fixed-point result lies in
/// `[0, 1]`.
#[verifier::external_body]
pub fn region_scalar_at_default(model: &VariationModel, region:
    &fontdrasil::variations::VariationRegion) -> (r: i64)
    ensures
        r == scalar_default_of(*model, *region),
        0 <= r <= 0x1_0000,
{
    Fixed::from_f64(region.scalar_at(&model.default).into_inner()).to_bits() as i64
}

/// Relies on `VariationRegion::is_default`: whether no axis of the
/// region has a non-zero tent, a function of the region alone.
#[verifier::external_body]
pub fn region_is_default(region: &fontdrasil::variations::VariationRegion) -> (r: bool)
    ensures
        r == is_default_of(*region),
{
    region.is_default()
}

/// Relies on `VariationRegion::to_write_fonts_variation_region`:
/// converts a model region to the table form, in the order of the given
/// axes; a function of the region and the axes alone.
#[verifier::external_body]
pub fn region_to_table(region: &fontdrasil::variations::VariationRegion, axes: &Axes) -> (r:
    write_fonts::tables::variations::VariationRegion)
    ensures
        r == table_region_of(*region, *axes),
{
    region.to_write_fonts_variation_region(axes)
}

} // verus!
