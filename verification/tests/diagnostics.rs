use build_shaper_font::messages::{
    CompilationResult, DiagnosticLevel, RawDiagnostic, level_label, sort_marker_keys,
};

#[test]
fn level_labels_are_lowercase() {
    assert_eq!(level_label(DiagnosticLevel::Error), "error");
    assert_eq!(level_label(DiagnosticLevel::Warning), "warning");
    assert_eq!(level_label(DiagnosticLevel::Info), "info");
}

#[test]
fn diagnostics_are_translated_in_order() {
    let mut res = CompilationResult::default();
    assert!(res.font_data.is_none());
    assert!(res.insert_markers.is_none());
    let source = "a\u{1F600}b";
    let diags = vec![
        RawDiagnostic { level: DiagnosticLevel::Error, text: "first".to_string(), start: 0, end: 1 },
        RawDiagnostic {
            level: DiagnosticLevel::Warning,
            text: "second".to_string(),
            start: 1,
            end: 5,
        },
    ];
    res.add_diagnostics(source, &diags);
    assert_eq!(res.messages.len(), 2);
    assert_eq!(res.messages[0].level, "error");
    assert_eq!(res.messages[0].text, "first");
    assert_eq!(res.messages[0].span.start, 0);
    assert_eq!(res.messages[0].span.end, 1);
    assert_eq!(res.messages[1].level, "warning");
    // The emoji is four bytes but two UTF-16 units.
    assert_eq!(res.messages[1].span.start, 1);
    assert_eq!(res.messages[1].span.end, 3);
}

#[test]
fn unresolved_source_passes_offsets_through() {
    let mut res = CompilationResult::default();
    let diags = vec![RawDiagnostic {
        level: DiagnosticLevel::Error,
        text: "lost".to_string(),
        start: 17,
        end: 23,
    }];
    res.add_diagnostics("", &diags);
    assert_eq!(res.messages[0].span.start, 17);
    assert_eq!(res.messages[0].span.end, 23);
}

#[test]
fn marker_keys_sort_by_tag() {
    let sorted = sort_marker_keys(vec![(3, 10), (1, 20), (2, 0)]);
    assert_eq!(sorted, vec![(1, 20), (2, 0), (3, 10)]);
}

#[test]
fn marker_sort_keeps_all_pairs() {
    let sorted = sort_marker_keys(vec![(5, 1), (5, 2), (0, 9)]);
    assert_eq!(sorted.len(), 3);
    assert_eq!(sorted[0], (0, 9));
    assert!(sorted[1..].contains(&(5, 1)));
    assert!(sorted[1..].contains(&(5, 2)));
}
