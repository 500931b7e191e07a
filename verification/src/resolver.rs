use vstd::prelude::*;

use fontdrasil::coords::NormalizedLocation;
use fontdrasil::types::Axes;

use crate::VariationError;
use crate::axes::AxisSpace;
use crate::cache::{ModelCache, key_rep_set, key_set, key_view};
use crate::fixed::{
    FIXED_ONE, SCALED_ONE, clamp_i16, round_fixed, round_scaled, spec_clamp_i16,
    spec_round_div_away,
};
use crate::interop::{
    axes_new, axes_of, axis_of, deltas_of, is_default_of, loc_rep, location_insert, model_deltas,
    model_of, new_location, outside_axis, points_rep, region_is_default, region_scalar_at_default,
    region_to_table, scalar_default_of, table_region_of,
};
use crate::locations::{MasterLocation, lemma_loc_rep_injective, spec_loc_rep};

verus! {

/// Rebuild a master location as a collaborator location holding the
/// same tag-to-coordinate mapping.
pub fn to_outside_location(l: &MasterLocation) -> (r: NormalizedLocation)
    requires
        l.wf(),
    ensures
        loc_rep(r) == spec_loc_rep(l@),
{
    let mut out = new_location();
    let n = l.len();
    let mut i: usize = 0;
    while i < n
        invariant
            n == l@.len(),
            i <= n,
            l.wf(),
            loc_rep(out) == spec_loc_rep(l@.take(i as int)),
        decreases n - i,
    {
        let (tag, coord) = l.entry(i);
        location_insert(&mut out, tag, coord);
        proof {
            assert(l@.take((i + 1) as int).drop_last() =~= l@.take(i as int));
            assert(l@.take((i + 1) as int).last() == l@[i as int]);
        }
        i += 1;
    }
    proof {
        assert(l@.take(n as int) =~= l@);
    }
    out
}

/// The sum of `values[i] * scalars[i]`: the unrounded default of a
/// metric, at 32 fractional bits when the inputs carry 16 each.
pub open spec fn spec_weighted_sum(values: Seq<i64>, scalars: Seq<i64>) -> int
    decreases values.len(),
{
    if values.len() == 0 || scalars.len() == 0 {
        0
    } else {
        spec_weighted_sum(values.drop_last(), scalars.drop_last()) + values.last() * scalars.last()
    }
}

/// The default value of a metric: the weighted sum of the per-region
/// delta values, with each region weighted by its scalar at the model's
/// default location, rounded to the nearest integer with ties away from
/// zero, and forced into the range of `i16`.
pub open spec fn spec_default_value(values: Seq<i64>, scalars: Seq<i64>) -> int {
    spec_clamp_i16(spec_round_div_away(spec_weighted_sum(values, scalars), SCALED_ONE as int))
}

/// A single delta value rounded to the nearest integer, ties away from
/// zero, and forced into the range of `i16`.
pub open spec fn spec_delta_value(v: int) -> int {
    spec_clamp_i16(spec_round_div_away(v, FIXED_ONE as int))
}

/// Compute the rounded default value from per-region delta values and
/// their scalar weights at the model's default location.
pub fn default_from_parts(values: &Vec<i64>, scalars: &Vec<i64>) -> (r: i16)
    requires
        values@.len() == scalars@.len(),
        forall|i: int|
            0 <= i < values@.len() ==> -0x8000_0000 <= #[trigger] values@[i] <= 0x7fff_ffff,
        forall|i: int| 0 <= i < scalars@.len() ==> 0 <= #[trigger] scalars@[i] <= 0x1_0000,
    ensures
        r as int == spec_default_value(values@, scalars@),
{
    let n = values.len();
    let mut sum: i128 = 0;
    let mut i: usize = 0;
    while i < n
        invariant
            n == values@.len() == scalars@.len(),
            i <= n,
            forall|k: int|
                0 <= k < values@.len() ==> -0x8000_0000 <= #[trigger] values@[k] <= 0x7fff_ffff,
            forall|k: int| 0 <= k < scalars@.len() ==> 0 <= #[trigger] scalars@[k] <= 0x1_0000,
            sum == spec_weighted_sum(values@.take(i as int), scalars@.take(i as int)),
            -0x8000_0000_0000 * (i as int) <= sum <= 0x8000_0000_0000 * (i as int),
        decreases n - i,
    {
        let v = values[i];
        let s = scalars[i];
        proof {
            assert(-0x8000_0000_0000 <= (v as int) * (s as int) <= 0x8000_0000_0000)
                by (nonlinear_arith)
                requires
                    -0x8000_0000 <= v <= 0x7fff_ffff,
                    0 <= s <= 0x1_0000,
            ;
        }
        let term: i128 = (v as i128) * (s as i128);
        proof {
            assert(-0x8000_0000_0000 * ((i + 1) as int) <= sum + term <= 0x8000_0000_0000 * ((i
                + 1) as int)) by (nonlinear_arith)
                requires
                    -0x8000_0000_0000 * (i as int) <= sum <= 0x8000_0000_0000 * (i as int),
                    -0x8000_0000_0000 <= term <= 0x8000_0000_0000,
            ;
            assert(values@.take((i + 1) as int).drop_last() =~= values@.take(i as int));
            assert(scalars@.take((i + 1) as int).drop_last() =~= scalars@.take(i as int));
        }
        sum = sum + term;
        i += 1;
    }
    proof {
        assert(values@.take(n as int) =~= values@);
        assert(scalars@.take(n as int) =~= scalars@);
        assert(0x8000_0000_0000 * (n as int) <= 0x8000_0000_0000 * 0x1_0000_0000_0000_0000)
            by (nonlinear_arith)
            requires
                0 <= n as int <= 0x1_0000_0000_0000_0000,
        ;
    }
    clamp_i16(round_scaled(sum))
}

/// Round one delta value for the delta list.
pub fn delta_from_value(v: i64) -> (r: i16)
    requires
        -0x8000_0000 <= v <= 0x7fff_ffff,
    ensures
        r as int == spec_delta_value(v as int),
{
    clamp_i16(round_fixed(v) as i128)
}

/// A metric with a single master at the model's default location
/// resolves to exactly that master's value: its scalar there is one, so
/// the rounded weighted sum is the value itself.
pub proof fn lemma_single_default_master(v: i16)
    ensures
        spec_default_value(seq![(((v as int) * 0x1_0000) as i64)], seq![0x1_0000 as i64]) == v
            as int,
{
    let x: int = (v as int) * 0x1_0000;
    assert(-0x8000_0000 <= x <= 0x7fff_ffff) by (nonlinear_arith)
        requires
            -0x8000 <= v as int <= 0x7fff,
            x == (v as int) * 0x1_0000,
    ;
    let vals: Seq<i64> = seq![x as i64];
    let scals: Seq<i64> = seq![0x1_0000 as i64];
    assert((x as i64) as int == x);
    assert(vals.drop_last() =~= Seq::<i64>::empty());
    assert(scals.drop_last() =~= Seq::<i64>::empty());
    assert(spec_weighted_sum(vals.drop_last(), scals.drop_last()) == 0);
    assert(spec_weighted_sum(vals, scals) == x * 0x1_0000);
    assert(x * 0x1_0000 == (v as int) * 0x1_0000_0000) by (nonlinear_arith)
        requires
            x == (v as int) * 0x1_0000,
    ;
    let d: int = 0x1_0000_0000;
    let h: int = 0x8000_0000;
    if v >= 0 {
        vstd::arithmetic::div_mod::lemma_div_multiples_vanish_fancy(v as int, h, d);
        assert(d * (v as int) == (v as int) * d) by (nonlinear_arith);
    } else {
        let m: int = -(v as int);
        vstd::arithmetic::div_mod::lemma_div_multiples_vanish_fancy(m, h, d);
        assert(d * m == m * d) by (nonlinear_arith);
        assert(-((v as int) * d) == m * d) by (nonlinear_arith)
            requires
                m == -(v as int),
        ;
    }
}

/// The cache key a sample set induces: its master locations, as a set.
pub open spec fn sample_key_set(samples: Seq<(MasterLocation, i16)>) -> Set<Seq<(u32, i64)>> {
    samples.map_values(|p: (MasterLocation, i16)| p.0@).to_set()
}

/// The sample locations as a set of tag-to-coordinate mappings, the
/// form the model constructor is described over.
pub open spec fn sample_rep_set(samples: Seq<(MasterLocation, i16)>) -> Set<Map<int, int>> {
    samples.map_values(|p: (MasterLocation, i16)| spec_loc_rep(p.0@)).to_set()
}

/// The samples as a mapping from location mapping to value; on a
/// repeated location the later value wins.
pub open spec fn sample_points_rep(samples: Seq<(MasterLocation, i16)>) -> Map<Map<int, int>, int>
    decreases samples.len(),
{
    if samples.len() == 0 {
        Map::empty()
    } else {
        sample_points_rep(samples.drop_last()).insert(
            spec_loc_rep(samples.last().0@),
            samples.last().1 as int,
        )
    }
}

/// The model that resolution uses for a sample set: the collaborator's
/// model over exactly the samples' location set and these axes.
pub open spec fn spec_resolved_model(
    samples: Seq<(MasterLocation, i16)>,
    axes: fontdrasil::types::Axes,
) -> fontdrasil::variations::VariationModel {
    model_of(sample_rep_set(samples), axes)
}

/// The decomposition the model computes for a sample set: one delta
/// value sequence per region, or `None` when it fails.
pub open spec fn spec_decomposition(
    samples: Seq<(MasterLocation, i16)>,
    axes: fontdrasil::types::Axes,
) -> Option<Seq<(fontdrasil::variations::VariationRegion, Seq<i64>)>> {
    deltas_of(spec_resolved_model(samples, axes), sample_points_rep(samples))
}

/// The decomposition's content, where it succeeded.
pub open spec fn spec_decomposition_parts(
    samples: Seq<(MasterLocation, i16)>,
    axes: fontdrasil::types::Axes,
) -> Seq<(fontdrasil::variations::VariationRegion, Seq<i64>)>
    recommends
        spec_decomposition(samples, axes) is Some,
{
    match spec_decomposition(samples, axes) {
        Option::Some(ds) => ds,
        Option::None => Seq::empty(),
    }
}

/// Whether resolution succeeds: the decomposition succeeds and every
/// region reports exactly one value per sample dimension.
pub open spec fn spec_decomposition_ok(
    samples: Seq<(MasterLocation, i16)>,
    axes: fontdrasil::types::Axes,
) -> bool {
    &&& spec_decomposition(samples, axes) is Some
    &&& forall|k: int|
        0 <= k < spec_decomposition_parts(samples, axes).len()
            ==> #[trigger] spec_decomposition_parts(samples, axes)[k].1.len() == 1
}

/// The one delta value of each region of a decomposition.
pub open spec fn spec_part_values(
    ds: Seq<(fontdrasil::variations::VariationRegion, Seq<i64>)>,
) -> Seq<i64> {
    ds.map_values(|e: (fontdrasil::variations::VariationRegion, Seq<i64>)| e.1[0])
}

/// Each region's scalar weight at the model's default location.
pub open spec fn spec_part_scalars(
    model: fontdrasil::variations::VariationModel,
    ds: Seq<(fontdrasil::variations::VariationRegion, Seq<i64>)>,
) -> Seq<i64> {
    ds.map_values(
        |e: (fontdrasil::variations::VariationRegion, Seq<i64>)| scalar_default_of(model, e.0),
    )
}

/// The delta list a decomposition resolves to: every non-default
/// region, in decomposition order, converted to table form over the
/// given axes, its value rounded half away from zero.
pub open spec fn spec_delta_list(
    axes: fontdrasil::types::Axes,
    ds: Seq<(fontdrasil::variations::VariationRegion, Seq<i64>)>,
) -> Seq<(write_fonts::tables::variations::VariationRegion, i16)>
    decreases ds.len(),
{
    if ds.len() == 0 {
        Seq::empty()
    } else {
        spec_delta_list(axes, ds.drop_last()) + (if is_default_of(ds.last().0) {
            Seq::empty()
        } else {
            seq![(table_region_of(ds.last().0, axes), spec_delta_value(ds.last().1[0] as int) as i16)]
        })
    }
}

/// The samples' location-to-value mapping equals the one assembled
/// from their collaborator locations and values, when these line up
/// pairwise.
proof fn lemma_points_rep_align(
    locs: Seq<fontdrasil::coords::NormalizedLocation>,
    values: Seq<i16>,
    samples: Seq<(MasterLocation, i16)>,
)
    requires
        locs.len() == samples.len(),
        values.len() == samples.len(),
        forall|k: int|
            0 <= k < samples.len() ==> loc_rep(#[trigger] locs[k]) == spec_loc_rep(samples[k].0@),
        forall|k: int| 0 <= k < samples.len() ==> #[trigger] values[k] == samples[k].1,
    ensures
        points_rep(locs, values) == sample_points_rep(samples),
    decreases samples.len(),
{
    if samples.len() > 0 {
        let lt = locs.drop_last();
        let vt = values.drop_last();
        let st = samples.drop_last();
        assert forall|k: int| 0 <= k < st.len() implies loc_rep(#[trigger] lt[k]) == spec_loc_rep(
            st[k].0@,
        ) by {
            assert(lt[k] == locs[k]);
            assert(st[k] == samples[k]);
        }
        assert forall|k: int| 0 <= k < st.len() implies #[trigger] vt[k] == st[k].1 by {
            assert(vt[k] == values[k]);
            assert(st[k] == samples[k]);
        }
        lemma_points_rep_align(lt, vt, st);
        assert(locs.last() == locs[samples.len() - 1]);
        assert(values.last() == values[samples.len() - 1]);
        assert(samples.last() == samples[samples.len() - 1]);
    }
}

/// Sample sets that hold the same locations, in any order and with any
/// values, induce the same cache key: together with the cache contract
/// of `resolve_variable_metric`, resolving two structurally equal
/// location sets goes through one shared model.
pub proof fn lemma_sample_key_order_independent(
    s1: Seq<(MasterLocation, i16)>,
    s2: Seq<(MasterLocation, i16)>,
)
    requires
        s1.map_values(|p: (MasterLocation, i16)| p.0@).to_multiset() == s2.map_values(
            |p: (MasterLocation, i16)| p.0@,
        ).to_multiset(),
    ensures
        sample_key_set(s1) == sample_key_set(s2),
{
    let v1 = s1.map_values(|p: (MasterLocation, i16)| p.0@);
    let v2 = s2.map_values(|p: (MasterLocation, i16)| p.0@);
    assert forall|x: Seq<(u32, i64)>| v1.to_set().contains(x) implies v2.to_set().contains(x) by {
        vstd::seq_lib::to_multiset_contains(v1, x);
        vstd::seq_lib::to_multiset_contains(v2, x);
    }
    assert forall|x: Seq<(u32, i64)>| v2.to_set().contains(x) implies v1.to_set().contains(x) by {
        vstd::seq_lib::to_multiset_contains(v1, x);
        vstd::seq_lib::to_multiset_contains(v2, x);
    }
    assert(v1.to_set() =~= v2.to_set());
}

/// The samples' mapping holds exactly one pair per sample: each
/// sample's location mapping maps to its value, and nothing else.
proof fn lemma_sample_points_characterize(s: Seq<(MasterLocation, i16)>)
    requires
        forall|k: int| 0 <= k < s.len() ==> (#[trigger] s[k]).0.wf(),
        forall|k: int, l: int|
            #![trigger s[k], s[l]]
            0 <= k < l < s.len() ==> s[k].0@ != s[l].0@,
    ensures
        forall|x: Map<int, int>|
            #[trigger] sample_points_rep(s).dom().contains(x) <==> sample_rep_set(s).contains(x),
        forall|i: int|
            0 <= i < s.len() ==> sample_points_rep(s).contains_pair(
                spec_loc_rep((#[trigger] s[i]).0@),
                s[i].1 as int,
            ),
    decreases s.len(),
{
    if s.len() > 0 {
        let p = s.drop_last();
        assert forall|k: int| 0 <= k < p.len() implies (#[trigger] p[k]).0.wf() by {
            assert(p[k] == s[k]);
        }
        assert forall|k: int, l: int| #![trigger p[k], p[l]]
            0 <= k < l < p.len() implies p[k].0@ != p[l].0@ by {
            assert(p[k] == s[k]);
            assert(p[l] == s[l]);
        }
        lemma_sample_points_characterize(p);
        let last = s.last();
        assert(sample_points_rep(s) == sample_points_rep(p).insert(
            spec_loc_rep(last.0@),
            last.1 as int,
        ));
        // The last sample's mapping is new: its location view differs
        // from every earlier one, and on well-formed locations the
        // mapping determines the view.
        assert forall|k: int| 0 <= k < s.len() - 1 implies spec_loc_rep((#[trigger] s[k]).0@)
            != spec_loc_rep(last.0@) by {
            if spec_loc_rep(s[k].0@) == spec_loc_rep(last.0@) {
                lemma_loc_rep_injective(s[k].0@, last.0@);
                assert(s[s.len() - 1] == last);
            }
        }
        assert forall|x: Map<int, int>| #[trigger]
            sample_points_rep(s).dom().contains(x) implies sample_rep_set(s).contains(x) by {
            let reps = s.map_values(|q: (MasterLocation, i16)| spec_loc_rep(q.0@));
            if x == spec_loc_rep(last.0@) {
                assert(reps[s.len() - 1] == x);
            } else {
                assert(sample_rep_set(p).contains(x));
                let preps = p.map_values(|q: (MasterLocation, i16)| spec_loc_rep(q.0@));
                let k = choose|k: int| 0 <= k < preps.len() && preps[k] == x;
                assert(reps[k] == x);
            }
        }
        assert forall|x: Map<int, int>| sample_rep_set(s).contains(
            x,
        ) implies #[trigger] sample_points_rep(s).dom().contains(x) by {
            let reps = s.map_values(|q: (MasterLocation, i16)| spec_loc_rep(q.0@));
            let k = choose|k: int| 0 <= k < reps.len() && reps[k] == x;
            if k < s.len() - 1 {
                let preps = p.map_values(|q: (MasterLocation, i16)| spec_loc_rep(q.0@));
                assert(preps[k] == x);
                assert(sample_rep_set(p).contains(x));
            }
        }
        assert forall|i: int| 0 <= i < s.len() implies sample_points_rep(s).contains_pair(
            spec_loc_rep((#[trigger] s[i]).0@),
            s[i].1 as int,
        ) by {
            if i < s.len() - 1 {
                assert(p[i] == s[i]);
                assert(sample_points_rep(p).contains_pair(spec_loc_rep(s[i].0@), s[i].1 as int));
            }
        }
    }
}

/// Resolution depends only on the structural content of its inputs:
/// sample sets holding the same location-value pairs, in any order,
/// induce the same cache key, the same model, and the same
/// decomposition — so, by the contract of `resolve_variable_metric`,
/// two resolvers over the same collaborator axes return identical
/// results for them, whatever their cache histories.
pub proof fn lemma_resolution_content_only(
    s1: Seq<(MasterLocation, i16)>,
    s2: Seq<(MasterLocation, i16)>,
    axes: Axes,
)
    requires
        s1.to_multiset() == s2.to_multiset(),
        forall|k: int| 0 <= k < s1.len() ==> (#[trigger] s1[k]).0.wf(),
        forall|k: int, l: int|
            #![trigger s1[k], s1[l]]
            0 <= k < l < s1.len() ==> s1[k].0@ != s1[l].0@,
        forall|k: int| 0 <= k < s2.len() ==> (#[trigger] s2[k]).0.wf(),
        forall|k: int, l: int|
            #![trigger s2[k], s2[l]]
            0 <= k < l < s2.len() ==> s2[k].0@ != s2[l].0@,
    ensures
        sample_key_set(s1) == sample_key_set(s2),
        sample_rep_set(s1) == sample_rep_set(s2),
        sample_points_rep(s1) == sample_points_rep(s2),
        spec_resolved_model(s1, axes) == spec_resolved_model(s2, axes),
        spec_decomposition(s1, axes) == spec_decomposition(s2, axes),
        spec_decomposition_ok(s1, axes) == spec_decomposition_ok(s2, axes),
        spec_decomposition_parts(s1, axes) == spec_decomposition_parts(s2, axes),
{
    let v1 = s1.map_values(|p: (MasterLocation, i16)| p.0@);
    let v2 = s2.map_values(|p: (MasterLocation, i16)| p.0@);
    assert forall|x: Seq<(u32, i64)>| v1.to_set().contains(x) implies v2.to_set().contains(x) by {
        let m = choose|m: int| 0 <= m < v1.len() && v1[m] == x;
        vstd::seq_lib::to_multiset_contains(s1, s1[m]);
        vstd::seq_lib::to_multiset_contains(s2, s1[m]);
        let k = choose|k: int| 0 <= k < s2.len() && s2[k] == s1[m];
        assert(v2[k] == x);
    }
    assert forall|x: Seq<(u32, i64)>| v2.to_set().contains(x) implies v1.to_set().contains(x) by {
        let m = choose|m: int| 0 <= m < v2.len() && v2[m] == x;
        vstd::seq_lib::to_multiset_contains(s2, s2[m]);
        vstd::seq_lib::to_multiset_contains(s1, s2[m]);
        let k = choose|k: int| 0 <= k < s1.len() && s1[k] == s2[m];
        assert(v1[k] == x);
    }
    assert(sample_key_set(s1) =~= sample_key_set(s2));
    let r1 = s1.map_values(|p: (MasterLocation, i16)| spec_loc_rep(p.0@));
    let r2 = s2.map_values(|p: (MasterLocation, i16)| spec_loc_rep(p.0@));
    assert forall|x: Map<int, int>| r1.to_set().contains(x) implies r2.to_set().contains(x) by {
        let m = choose|m: int| 0 <= m < r1.len() && r1[m] == x;
        vstd::seq_lib::to_multiset_contains(s1, s1[m]);
        vstd::seq_lib::to_multiset_contains(s2, s1[m]);
        let k = choose|k: int| 0 <= k < s2.len() && s2[k] == s1[m];
        assert(r2[k] == x);
    }
    assert forall|x: Map<int, int>| r2.to_set().contains(x) implies r1.to_set().contains(x) by {
        let m = choose|m: int| 0 <= m < r2.len() && r2[m] == x;
        vstd::seq_lib::to_multiset_contains(s2, s2[m]);
        vstd::seq_lib::to_multiset_contains(s1, s2[m]);
        let k = choose|k: int| 0 <= k < s1.len() && s1[k] == s2[m];
        assert(r1[k] == x);
    }
    assert(sample_rep_set(s1) =~= sample_rep_set(s2));
    lemma_sample_points_characterize(s1);
    lemma_sample_points_characterize(s2);
    let m1 = sample_points_rep(s1);
    let m2 = sample_points_rep(s2);
    assert forall|x: Map<int, int>| #![trigger m1.dom().contains(x)]
        m1.dom().contains(x) implies m2.dom().contains(x) && m1[x] == m2[x] by {
        assert(sample_rep_set(s1).contains(x));
        let i = choose|i: int| 0 <= i < r1.len() && r1[i] == x;
        vstd::seq_lib::to_multiset_contains(s1, s1[i]);
        vstd::seq_lib::to_multiset_contains(s2, s1[i]);
        let j = choose|j: int| 0 <= j < s2.len() && s2[j] == s1[i];
        assert(m1.contains_pair(spec_loc_rep(s1[i].0@), s1[i].1 as int));
        assert(m2.contains_pair(spec_loc_rep(s2[j].0@), s2[j].1 as int));
    }
    assert forall|x: Map<int, int>| #![trigger m2.dom().contains(x)]
        m2.dom().contains(x) implies m1.dom().contains(x) by {
        assert(sample_rep_set(s2).contains(x));
    }
    assert(m1 =~= m2);
    assert(spec_decomposition(s1, axes) == spec_decomposition(s2, axes));
    assert(spec_decomposition_parts(s1, axes) == spec_decomposition_parts(s2, axes));
    if spec_decomposition_ok(s1, axes) {
        assert forall|k: int|
            0 <= k < spec_decomposition_parts(s2, axes).len() implies #[trigger] spec_decomposition_parts(
            s2,
            axes,
        )[k].1.len() == 1 by {
            assert(spec_decomposition_parts(s1, axes)[k].1.len() == 1);
        }
        assert(spec_decomposition_ok(s2, axes));
    }
    if spec_decomposition_ok(s2, axes) {
        assert forall|k: int|
            0 <= k < spec_decomposition_parts(s1, axes).len() implies #[trigger] spec_decomposition_parts(
            s1,
            axes,
        )[k].1.len() == 1 by {
            assert(spec_decomposition_parts(s2, axes)[k].1.len() == 1);
        }
        assert(spec_decomposition_ok(s1, axes));
    }
}

/// The per-metric resolution strategy handed to the feature compiler:
/// it owns the axes, their collaborator form, and the model cache for
/// one compilation.
pub struct SimpleVariationInfo {
    axes: Vec<AxisSpace>,
    outside_axes: Axes,
    cache: ModelCache,
}

impl SimpleVariationInfo {
    /// The axes, in construction order.
    pub closed spec fn axes_view(&self) -> Seq<AxisSpace> {
        self.axes@
    }

    /// The model cache state.
    pub closed spec fn cache_spec(&self) -> ModelCache {
        self.cache
    }

    /// The axes in collaborator form, as handed to the model builder.
    pub closed spec fn outside_axes_spec(&self) -> Axes {
        self.outside_axes
    }

    /// The collaborator axis set these axes build.
    pub open spec fn spec_outside_axes_of(axes: Seq<AxisSpace>) -> Axes {
        axes_of(
            axes.map_values(
                |a: AxisSpace| axis_of(a.name@, a.tag, a.min, a.default, a.max),
            ),
        )
    }

    /// Axes are well formed, the cache is consistent with the
    /// collaborator axes (every cached model was built over exactly
    /// its key's location set), and the axis count fits the
    /// sixteen-bit count field.
    pub open spec fn wf(&self) -> bool {
        &&& forall|i: int| 0 <= i < self.axes_view().len() ==> (#[trigger] self.axes_view()[i]).wf()
        &&& self.cache_spec().wf()
        &&& self.cache_spec().consistent_with(self.outside_axes_spec())
        &&& self.axes_view().len() <= 0xffff
    }

    /// Build a resolver owning these axes, their collaborator form,
    /// and an empty model cache.
    pub fn new(axes: Vec<AxisSpace>) -> (r: SimpleVariationInfo)
        requires
            forall|i: int| 0 <= i < axes@.len() ==> (#[trigger] axes@[i]).wf(),
            axes@.len() <= 0xffff,
        ensures
            r.wf(),
            r.axes_view() == axes@,
            r.cache_spec().len_spec() == 0,
            r.outside_axes_spec() == Self::spec_outside_axes_of(axes@),
    {
        let mut oaxes: Vec<fontdrasil::types::Axis> = Vec::new();
        let mut i: usize = 0;
        while i < axes.len()
            invariant
                i <= axes@.len(),
                forall|k: int| 0 <= k < axes@.len() ==> (#[trigger] axes@[k]).wf(),
                oaxes@.len() == i,
                forall|k: int|
                    0 <= k < i ==> #[trigger] oaxes@[k] == axis_of(
                        axes@[k].name@,
                        axes@[k].tag,
                        axes@[k].min,
                        axes@[k].default,
                        axes@[k].max,
                    ),
            decreases axes@.len() - i,
        {
            let a = &axes[i];
            oaxes.push(outside_axis(a.name.as_str(), a.tag, a.min, a.default, a.max));
            i += 1;
        }
        proof {
            assert(oaxes@ =~= axes@.map_values(
                |a: AxisSpace| axis_of(a.name@, a.tag, a.min, a.default, a.max),
            ));
        }
        SimpleVariationInfo { axes, outside_axes: axes_new(oaxes), cache: ModelCache::new() }
    }

    /// How many axes exist.
    pub fn axis_count(&self) -> (r: u16)
        requires
            self.wf(),
        ensures
            r == self.axes_view().len(),
    {
        self.axes.len() as u16
    }

    /// The index of the first axis with this tag, if any.
    pub fn axis(&self, tag: u32) -> (r: Option<usize>)
        ensures
            match r {
                Some(i) => {
                    &&& i < self.axes_view().len()
                    &&& self.axes_view()[i as int].tag == tag
                    &&& forall|k: int| 0 <= k < i ==> (#[trigger] self.axes_view()[k]).tag != tag
                },
                None => forall|k: int|
                    0 <= k < self.axes_view().len() ==> (#[trigger] self.axes_view()[k]).tag
                        != tag,
            },
    {
        let n = self.axes.len();
        let mut i: usize = 0;
        while i < n
            invariant
                n == self.axes_view().len(),
                i <= n,
                forall|k: int| 0 <= k < i ==> (#[trigger] self.axes_view()[k]).tag != tag,
            decreases n - i,
        {
            if self.axes[i].tag == tag {
                return Some(i);
            }
            i += 1;
        }
        None
    }

    /// The axis at a given index.
    pub fn axis_at(&self, i: usize) -> (r: &AxisSpace)
        requires
            i < self.axes_view().len(),
        ensures
            *r == self.axes_view()[i as int],
    {
        &self.axes[i]
    }

    /// The axes in collaborator form, for handing to the compiler.
    pub fn outside_axes(&self) -> &Axes {
        &self.outside_axes
    }

    /// Resolve one metric: fetch, or build and cache, the
    /// interpolation model for exactly the samples' location set,
    /// decompose the samples into per-region deltas through it, sum
    /// the region values weighted by their scalar at the model's
    /// default location into the rounded default, and list every
    /// non-default region with its rounded delta, in decomposition
    /// order.  Succeeds exactly when the decomposition succeeds and
    /// every region reports one value per sample dimension; the cache
    /// keeps every older entry unchanged and gains at most this
    /// sample set's entry.
    pub fn resolve_variable_metric(&mut self, samples: &Vec<(MasterLocation, i16)>) -> (r: Result<
        (i16, Vec<(write_fonts::tables::variations::VariationRegion, i16)>),
        VariationError,
    >)
        requires
            old(self).wf(),
            forall|k: int| 0 <= k < samples@.len() ==> (#[trigger] samples@[k]).0.wf(),
            forall|k: int, l: int|
                #![trigger samples@[k], samples@[l]]
                0 <= k < l < samples@.len() ==> samples@[k].0@ != samples@[l].0@,
        ensures
            final(self).wf(),
            final(self).axes_view() == old(self).axes_view(),
            final(self).outside_axes_spec() == old(self).outside_axes_spec(),
            final(self).cache_spec().has_key(sample_key_set(samples@)),
            final(self).cache_spec().model_for_key(sample_key_set(samples@))
                == spec_resolved_model(samples@, old(self).outside_axes_spec()),
            old(self).cache_spec().has_key(sample_key_set(samples@)) ==> final(self).cache_spec()
                == old(self).cache_spec(),
            old(self).cache_spec().len_spec() <= final(self).cache_spec().len_spec() <= old(
                self,
            ).cache_spec().len_spec() + 1,
            forall|j: int|
                0 <= j < old(self).cache_spec().len_spec() ==> {
                    &&& #[trigger] final(self).cache_spec().key_views()[j] == old(
                        self,
                    ).cache_spec().key_views()[j]
                    &&& final(self).cache_spec().model_seq()[j] == old(
                        self,
                    ).cache_spec().model_seq()[j]
                },
            r is Ok <==> spec_decomposition_ok(samples@, old(self).outside_axes_spec()),
            r matches Ok(p) ==> ({
                let ds = spec_decomposition_parts(samples@, old(self).outside_axes_spec());
                &&& p.0 as int == spec_default_value(
                    spec_part_values(ds),
                    spec_part_scalars(
                        spec_resolved_model(samples@, old(self).outside_axes_spec()),
                        ds,
                    ),
                )
                &&& p.1@ == spec_delta_list(old(self).outside_axes_spec(), ds)
            }),
            r matches Err(e) ==> e == VariationError::ResolutionFailed,
    {
        let ghost oaxes = old(self).outside_axes_spec();
        let n = samples.len();
        let mut locs: Vec<MasterLocation> = Vec::new();
        let mut olocs: Vec<NormalizedLocation> = Vec::new();
        let mut values: Vec<i16> = Vec::new();
        let mut i: usize = 0;
        while i < n
            invariant
                *self == *old(self),
                old(self).wf(),
                oaxes == old(self).outside_axes_spec(),
                n == samples@.len(),
                i <= n,
                forall|k: int| 0 <= k < samples@.len() ==> (#[trigger] samples@[k]).0.wf(),
                locs@.len() == i,
                olocs@.len() == i,
                values@.len() == i,
                forall|k: int| 0 <= k < i ==> (#[trigger] locs@[k]).wf(),
                forall|k: int| 0 <= k < i ==> (#[trigger] locs@[k])@ == samples@[k].0@,
                forall|k: int|
                    0 <= k < i ==> loc_rep(#[trigger] olocs@[k]) == spec_loc_rep(samples@[k].0@),
                forall|k: int| 0 <= k < i ==> #[trigger] values@[k] == samples@[k].1,
            decreases n - i,
        {
            locs.push(samples[i].0.duplicate());
            olocs.push(to_outside_location(&samples[i].0));
            values.push(samples[i].1);
            i += 1;
        }
        let idx = self.cache.model_for(&locs, &self.outside_axes);
        let ghost mid = *self;
        let ghost m_spec = spec_resolved_model(samples@, oaxes);
        proof {
            assert(mid.wf());
            assert(mid.axes_view() == old(self).axes_view());
            assert(key_view(locs@) =~= samples@.map_values(|p: (MasterLocation, i16)| p.0@));
            assert(key_set(locs@) == sample_key_set(samples@));
            assert(locs@.map_values(|l: MasterLocation| spec_loc_rep(l@)) =~= samples@.map_values(
                |p: (MasterLocation, i16)| spec_loc_rep(p.0@),
            ));
            assert(key_rep_set(locs@) == sample_rep_set(samples@));
            assert(mid.cache_spec().has_key(sample_key_set(samples@))) by {
                assert(mid.cache_spec().key_set_at(idx as int) == key_set(locs@));
            }
            assert(mid.cache_spec().model_seq()[idx as int] == m_spec);
            assert(mid.cache_spec().model_for_key(sample_key_set(samples@)) == m_spec) by {
                let j = choose|j: int|
                    0 <= j < mid.cache_spec().len_spec() && mid.cache_spec().key_set_at(j)
                        == sample_key_set(samples@);
                assert(mid.cache_spec().key_set_at(idx as int) == sample_key_set(samples@));
                assert(j == idx as int);
            }
            assert(old(self).cache_spec().has_key(sample_key_set(samples@)) ==> mid.cache_spec()
                == old(self).cache_spec());
            lemma_points_rep_align(olocs@, values@, samples@);
        }
        let model = self.cache.model_at(idx);
        proof {
            assert(*model == m_spec);
        }
        let parts = match model_deltas(model, &olocs, &values) {
            Ok(p) => p,
            Err(_) => {
                proof {
                    assert(spec_decomposition(samples@, oaxes) is None);
                    assert(!spec_decomposition_ok(samples@, oaxes));
                }
                return Err(VariationError::ResolutionFailed);
            },
        };
        let ghost ds = spec_decomposition_parts(samples@, oaxes);
        proof {
            assert(spec_decomposition(samples@, oaxes) is Some);
            assert(spec_decomposition(samples@, oaxes) == Some(ds));
            assert(parts@.len() == ds.len());
            assert(forall|k: int|
                0 <= k < ds.len() ==> (#[trigger] parts@[k]).0 == ds[k].0 && parts@[k].1@
                    == ds[k].1);
        }
        let m = parts.len();
        let mut vals: Vec<i64> = Vec::new();
        let mut scals: Vec<i64> = Vec::new();
        let mut j: usize = 0;
        while j < m
            invariant
                *self == mid,
                mid.wf(),
                mid.axes_view() == old(self).axes_view(),
                oaxes == old(self).outside_axes_spec(),
                mid.outside_axes_spec() == oaxes,
                mid.cache_spec().has_key(sample_key_set(samples@)),
                mid.cache_spec().model_for_key(sample_key_set(samples@)) == m_spec,
                old(self).cache_spec().has_key(sample_key_set(samples@)) ==> mid.cache_spec()
                    == old(self).cache_spec(),
                old(self).cache_spec().len_spec() <= mid.cache_spec().len_spec() <= old(
                    self,
                ).cache_spec().len_spec() + 1,
                forall|t: int|
                    0 <= t < old(self).cache_spec().len_spec() ==> {
                        &&& #[trigger] mid.cache_spec().key_views()[t] == old(
                            self,
                        ).cache_spec().key_views()[t]
                        &&& mid.cache_spec().model_seq()[t] == old(self).cache_spec().model_seq()[t]
                    },
                m_spec == spec_resolved_model(samples@, oaxes),
                *model == m_spec,
                spec_decomposition(samples@, oaxes) == Some(ds),
                ds == spec_decomposition_parts(samples@, oaxes),
                m == parts@.len(),
                parts@.len() == ds.len(),
                forall|k: int|
                    0 <= k < ds.len() ==> (#[trigger] parts@[k]).0 == ds[k].0 && parts@[k].1@
                        == ds[k].1,
                forall|k: int, l: int|
                    0 <= k < parts@.len() && 0 <= l < parts@[k].1.len() ==> -0x8000_0000
                        <= #[trigger] parts@[k].1[l] <= 0x7fff_ffff,
                j <= m,
                vals@.len() == j,
                scals@.len() == j,
                forall|k: int| 0 <= k < j ==> (#[trigger] ds[k]).1.len() == 1,
                forall|k: int| 0 <= k < j ==> -0x8000_0000 <= #[trigger] vals@[k] <= 0x7fff_ffff,
                forall|k: int| 0 <= k < j ==> 0 <= #[trigger] scals@[k] <= 0x1_0000,
                forall|k: int| 0 <= k < j ==> #[trigger] vals@[k] == ds[k].1[0],
                forall|k: int|
                    0 <= k < j ==> #[trigger] scals@[k] == scalar_default_of(m_spec, ds[k].0),
            decreases m - j,
        {
            if parts[j].1.len() != 1 {
                proof {
                    assert(ds[j as int].1.len() != 1);
                    assert(!spec_decomposition_ok(samples@, oaxes));
                }
                return Err(VariationError::ResolutionFailed);
            }
            vals.push(parts[j].1[0]);
            scals.push(region_scalar_at_default(model, &parts[j].0));
            j += 1;
        }
        proof {
            assert(spec_decomposition_ok(samples@, oaxes));
            assert(vals@ =~= spec_part_values(ds));
            assert(scals@ =~= spec_part_scalars(m_spec, ds));
        }
        let default_value = default_from_parts(&vals, &scals);
        let mut out: Vec<(write_fonts::tables::variations::VariationRegion, i16)> = Vec::new();
        let mut k: usize = 0;
        proof {
            assert(ds.take(0) =~= Seq::<
                (fontdrasil::variations::VariationRegion, Seq<i64>),
            >::empty());
        }
        while k < m
            invariant
                *self == mid,
                mid.wf(),
                mid.axes_view() == old(self).axes_view(),
                oaxes == old(self).outside_axes_spec(),
                mid.outside_axes_spec() == oaxes,
                mid.cache_spec().has_key(sample_key_set(samples@)),
                mid.cache_spec().model_for_key(sample_key_set(samples@)) == m_spec,
                old(self).cache_spec().has_key(sample_key_set(samples@)) ==> mid.cache_spec()
                    == old(self).cache_spec(),
                old(self).cache_spec().len_spec() <= mid.cache_spec().len_spec() <= old(
                    self,
                ).cache_spec().len_spec() + 1,
                forall|t: int|
                    0 <= t < old(self).cache_spec().len_spec() ==> {
                        &&& #[trigger] mid.cache_spec().key_views()[t] == old(
                            self,
                        ).cache_spec().key_views()[t]
                        &&& mid.cache_spec().model_seq()[t] == old(self).cache_spec().model_seq()[t]
                    },
                m_spec == spec_resolved_model(samples@, oaxes),
                spec_decomposition(samples@, oaxes) == Some(ds),
                ds == spec_decomposition_parts(samples@, oaxes),
                spec_decomposition_ok(samples@, oaxes),
                default_value as int == spec_default_value(
                    spec_part_values(ds),
                    spec_part_scalars(m_spec, ds),
                ),
                m == parts@.len(),
                parts@.len() == ds.len(),
                forall|t: int|
                    0 <= t < ds.len() ==> (#[trigger] parts@[t]).0 == ds[t].0 && parts@[t].1@
                        == ds[t].1,
                k <= m,
                vals@.len() == m,
                forall|t: int| 0 <= t < m ==> -0x8000_0000 <= #[trigger] vals@[t] <= 0x7fff_ffff,
                forall|t: int| 0 <= t < m ==> #[trigger] vals@[t] == ds[t].1[0],
                out@ == spec_delta_list(oaxes, ds.take(k as int)),
            decreases m - k,
        {
            let ghost prefix = ds.take(k as int);
            proof {
                assert(ds.take((k + 1) as int).drop_last() =~= prefix);
                assert(ds.take((k + 1) as int).last() == ds[k as int]);
            }
            if !region_is_default(&parts[k].0) {
                let table_region = region_to_table(&parts[k].0, &self.outside_axes);
                let delta = delta_from_value(vals[k]);
                proof {
                    assert(table_region == table_region_of(ds[k as int].0, oaxes));
                    assert(delta as int == spec_delta_value(ds[k as int].1[0] as int));
                    assert(-0x8000 <= spec_delta_value(ds[k as int].1[0] as int) <= 0x7fff);
                    assert(delta == spec_delta_value(ds[k as int].1[0] as int) as i16);
                }
                out.push((table_region, delta));
                proof {
                    assert(out@ =~= spec_delta_list(oaxes, ds.take((k + 1) as int)));
                }
            } else {
                proof {
                    assert(spec_delta_list(oaxes, ds.take((k + 1) as int)) =~= spec_delta_list(
                        oaxes,
                        prefix,
                    ));
                }
            }
            k += 1;
        }
        proof {
            assert(ds.take(m as int) =~= ds);
        }
        Ok((default_value, out))
    }

    /// Resolution of named numeric design values is intentionally
    /// unsupported: it fails fast, every time, with that error kind.
    pub fn resolve_glyphs_number_value(&self, name: &str) -> (r: Result<
        Vec<(MasterLocation, i64)>,
        VariationError,
    >)
        ensures
            r matches Err(e) && e == VariationError::UnsupportedOperation,
    {
        let _ = name;
        Err(VariationError::UnsupportedOperation)
    }
}

} // verus!
