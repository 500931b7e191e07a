use std::cell::RefCell;
use std::collections::HashMap;
use std::fmt;
use std::path::{Path, PathBuf};
use std::sync::Arc;

use fea_rs::GlyphMap;
use fea_rs::compile::{self, NopFeatureProvider, Opts, VariationInfo};
use fea_rs::parse::{SourceLoadError, parse_root};
use fontdrasil::coords::{CoordConverter, NormalizedLocation, UserCoord};
use fontdrasil::types::Axes;
use write_fonts::tables::fvar::{AxisInstanceArrays, Fvar, VariationAxisRecord};
use write_fonts::tables::name::NameRecord;
use write_fonts::tables::variations::VariationRegion;
use write_fonts::types::{Fixed, NameId, Tag};

use build_shaper_font::axes::AxisSpace;
use build_shaper_font::fvar::build_axis_table;
use build_shaper_font::locations::MasterLocation;
use build_shaper_font::resolver::SimpleVariationInfo;

#[derive(Debug)]
struct TestError;

impl fmt::Display for TestError {
    fn fmt(&self, f: &mut fmt::Formatter<'_>) -> fmt::Result {
        f.write_str("variation error")
    }
}

impl std::error::Error for TestError {}

struct TestVariationInfo {
    axes: Axes,
    inner: RefCell<SimpleVariationInfo>,
}

fn tag_to_u32(t: Tag) -> u32 {
    u32::from_be_bytes(t.to_be_bytes())
}

fn fixed_bits(v: f64) -> i64 {
    Fixed::from_f64(v).to_bits() as i64
}

fn make_var_info(axes: &[(&str, f64, f64, f64)]) -> (Vec<AxisSpace>, TestVariationInfo) {
    let mut spaces = Vec::new();
    let mut outside = Vec::new();
    for (tag, min, default, max) in axes {
        let space =
            AxisSpace::new(tag, fixed_bits(*min), fixed_bits(*default), fixed_bits(*max)).unwrap();
        spaces.push(space.clone());
        let minc = UserCoord::new(*min);
        let defaultc = UserCoord::new(*default);
        let maxc = UserCoord::new(*max);
        outside.push(fontdrasil::types::Axis {
            name: tag.to_string(),
            tag: Tag::new_checked(tag.as_bytes()).unwrap(),
            min: minc,
            default: defaultc,
            max: maxc,
            hidden: false,
            converter: CoordConverter::default_normalization(minc, defaultc, maxc),
            localized_names: Default::default(),
        });
    }
    let inner = RefCell::new(SimpleVariationInfo::new(spaces.clone()));
    (spaces, TestVariationInfo { axes: Axes::new(outside), inner })
}

impl VariationInfo for TestVariationInfo {
    type Error = TestError;

    fn axis_count(&self) -> u16 {
        self.inner.borrow().axis_count()
    }

    fn axis(&self, axis_tag: Tag) -> Option<(usize, &fontdrasil::types::Axis)> {
        let idx = self.inner.borrow().axis(tag_to_u32(axis_tag))?;
        self.axes.iter().nth(idx).map(|a| (idx, a))
    }

    fn resolve_variable_metric(
        &self,
        locations: &HashMap<NormalizedLocation, i16>,
    ) -> Result<(i16, Vec<(VariationRegion, i16)>), TestError> {
        let mut samples: Vec<(MasterLocation, i16)> = Vec::new();
        for (loc, value) in locations {
            let mut ml = MasterLocation::new();
            for (tag, coord) in loc.iter() {
                ml.insert(tag_to_u32(*tag), Fixed::from_f64(coord.to_f64()).to_bits() as i64);
            }
            if samples.iter().any(|(existing, _)| existing.same_as(&ml)) {
                return Err(TestError);
            }
            samples.push((ml, *value));
        }
        self.inner.borrow_mut().resolve_variable_metric(&samples).map_err(|_| TestError)
    }

    fn resolve_glyphs_number_value(
        &self,
        name: &str,
    ) -> Result<HashMap<NormalizedLocation, f64>, TestError> {
        match self.inner.borrow().resolve_glyphs_number_value(name) {
            Ok(_) => Ok(HashMap::new()),
            Err(_) => Err(TestError),
        }
    }
}

fn parse(source: &str, glyph_map: &GlyphMap) -> (fea_rs::ParseTree, fea_rs::DiagnosticSet) {
    let src: Arc<str> = source.into();
    let root: PathBuf = "features.fea".into();
    parse_root(
        root,
        Some(glyph_map),
        Box::new(move |p: &Path| {
            if p == Path::new("features.fea") {
                Ok(src.clone())
            } else {
                Err(SourceLoadError::new(p.to_path_buf(), "imports are not supported"))
            }
        }),
    )
    .unwrap()
}

#[test]
fn kern_feature_without_axes_builds_font() {
    let glyph_map = GlyphMap::new(["A", "V"]).unwrap();
    let (tree, diags) = parse("feature kern { pos A V -50; } kern;", &glyph_map);
    assert!(!diags.has_errors());
    let diags = compile::validate(&tree, &glyph_map, None::<&TestVariationInfo>);
    assert!(!diags.has_errors());
    let (mut compilation, _warnings) = compile::compile(
        &tree,
        &glyph_map,
        None::<&TestVariationInfo>,
        None::<&NopFeatureProvider>,
        Opts::default(),
    )
    .expect("compilation succeeds");
    let mut head = compilation.head.take().unwrap_or_default();
    head.units_per_em = 1000;
    compilation.head = Some(head);
    let mut builder = compilation.to_font_builder().unwrap();
    let bytes = builder.build();
    assert!(!bytes.is_empty());
    assert!(!bytes.windows(4).any(|w| w == b"fvar"));
}

#[test]
fn one_axis_produces_one_fvar_record_and_one_name_record() {
    let glyph_map = GlyphMap::new(["A", "V"]).unwrap();
    let (spaces, vi) = make_var_info(&[("wght", 100.0, 400.0, 900.0)]);
    let (tree, diags) = parse("feature kern { pos A V -50; } kern;", &glyph_map);
    assert!(!diags.has_errors());
    let diags = compile::validate(&tree, &glyph_map, Some(&vi));
    assert!(!diags.has_errors());
    let (mut compilation, _warnings) = compile::compile(
        &tree,
        &glyph_map,
        Some(&vi),
        None::<&NopFeatureProvider>,
        Opts::default(),
    )
    .expect("compilation succeeds");

    let mut head = compilation.head.take().unwrap_or_default();
    head.units_per_em = 1000;
    compilation.head = Some(head);

    let mut name_table = compilation.name.take().unwrap_or_default();
    let existing: Vec<u16> = name_table.name_record.iter().map(|r| r.name_id.to_u16()).collect();
    let (names, records) = build_axis_table(&spaces, &existing).unwrap();
    assert_eq!(records.len(), 1);
    assert_eq!(names.len(), 1);
    assert_eq!(names[0].label, "wght");
    assert_eq!(records[0].name_id, names[0].name_id);
    for n in &names {
        name_table.name_record.push(NameRecord::new(
            3,
            1,
            0x0409,
            NameId::new(n.name_id),
            n.label.clone().into(),
        ));
    }
    compilation.name = Some(name_table);

    let fvar_axes: Vec<VariationAxisRecord> = records
        .iter()
        .map(|r| VariationAxisRecord {
            axis_tag: Tag::from_u32(r.tag),
            min_value: Fixed::from_bits(r.min as i32),
            default_value: Fixed::from_bits(r.default as i32),
            max_value: Fixed::from_bits(r.max as i32),
            axis_name_id: NameId::new(r.name_id),
            ..Default::default()
        })
        .collect();
    assert_eq!(fvar_axes.len(), 1);

    let mut builder = compilation.to_font_builder().unwrap();
    let fvar = Fvar::new(AxisInstanceArrays::new(fvar_axes, Vec::new()));
    builder.add_table(&fvar).unwrap();
    let bytes = builder.build();
    assert!(!bytes.is_empty());
    assert!(bytes.windows(4).any(|w| w == b"fvar"));
}

#[test]
fn variable_kern_resolves_through_the_model() {
    let glyph_map = GlyphMap::new(["A", "V"]).unwrap();
    let (_spaces, vi) = make_var_info(&[("wght", 100.0, 400.0, 900.0)]);
    let source = "feature kern { pos A V (wght=100:-60 wght=400:-50 wght=900:-40); } kern;";
    let (tree, diags) = parse(source, &glyph_map);
    assert!(!diags.has_errors());
    let diags = compile::validate(&tree, &glyph_map, Some(&vi));
    assert!(!diags.has_errors());
    let (compilation, _warnings) = compile::compile(
        &tree,
        &glyph_map,
        Some(&vi),
        None::<&NopFeatureProvider>,
        Opts::default(),
    )
    .expect("variable compilation succeeds");
    assert!(compilation.gpos.is_some());
}

#[test]
fn automatic_code_markers_are_recorded_and_sorted() {
    let glyph_map = GlyphMap::new(["A", "V"]).unwrap();
    let source = "feature kern {\npos A V -50;\n# Automatic Code\n} kern;\n";
    let (tree, diags) = parse(source, &glyph_map);
    assert!(!diags.has_errors());
    let diags = compile::validate(&tree, &glyph_map, None::<&TestVariationInfo>);
    assert!(!diags.has_errors());
    let (compilation, _warnings) = compile::compile(
        &tree,
        &glyph_map,
        None::<&TestVariationInfo>,
        None::<&NopFeatureProvider>,
        Opts::default(),
    )
    .expect("compilation succeeds");
    let keys: Vec<(u64, usize)> = compilation
        .insert_markers
        .iter()
        .map(|(tag, point)| (tag_to_u32(*tag) as u64, point.lookup_id.to_raw()))
        .collect();
    assert_eq!(keys.len(), 1);
    let sorted = build_shaper_font::messages::sort_marker_keys(keys);
    assert_eq!(Tag::from_u32(sorted[0].0 as u32), Tag::new(b"kern"));
}
