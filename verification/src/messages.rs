use vstd::prelude::*;
use vstd::string::StringSliceAdditionalSpecFns;

use crate::utf16::{spec_to_utf16_offset, to_utf16_offset};

verus! {

/// A half-open span into the source text, in UTF-16 code units.
#[derive(Clone, Copy, Debug, PartialEq, Eq, Structural)]
pub struct Span {
    pub start: usize,
    pub end: usize,
}

/// The severity of a compiler diagnostic.
#[derive(Clone, Copy, Debug, PartialEq, Eq, Structural)]
pub enum DiagnosticLevel {
    Error,
    Warning,
    Info,
}

/// The lowercase label a severity level renders as.
pub open spec fn spec_level_label(l: DiagnosticLevel) -> Seq<char> {
    match l {
        DiagnosticLevel::Error => "error"@,
        DiagnosticLevel::Warning => "warning"@,
        DiagnosticLevel::Info => "info"@,
    }
}

/// Render a severity level as its lowercase label.
pub fn level_label(l: DiagnosticLevel) -> (r: String)
    ensures
        r@ == spec_level_label(l),
{
    match l {
        DiagnosticLevel::Error => "error".to_owned(),
        DiagnosticLevel::Warning => "warning".to_owned(),
        DiagnosticLevel::Info => "info".to_owned(),
    }
}

/// One compiler diagnostic in raw form: its severity, message text and
/// byte span into the source.
#[derive(Debug)]
pub struct RawDiagnostic {
    pub level: DiagnosticLevel,
    pub text: String,
    pub start: usize,
    pub end: usize,
}

/// A host-presentable message: a lowercase severity label, the text,
/// and the span in UTF-16 code units.
#[derive(Debug)]
pub struct Message {
    pub level: String,
    pub text: String,
    pub span: Span,
}

/// A marker naming the lookup index where generated rules of a feature
/// are to be inserted.
#[derive(Debug)]
pub struct InsertMarker {
    pub tag: String,
    pub lookup_id: usize,
}

/// The result of one compilation: the font bytes and insertion markers
/// when it succeeded, and every diagnostic either way.
#[derive(Debug)]
pub struct CompilationResult {
    pub font_data: Option<Vec<u8>>,
    pub insert_markers: Option<Vec<InsertMarker>>,
    pub messages: Vec<Message>,
}

impl Default for CompilationResult {
    /// An empty result: no font, no markers, no messages yet.
    fn default() -> (r: CompilationResult)
        ensures
            r.font_data is None,
            r.insert_markers is None,
            r.messages@.len() == 0,
    {
        CompilationResult { font_data: None, insert_markers: None, messages: Vec::new() }
    }
}

impl CompilationResult {
    /// Append one translated message per diagnostic, in input order:
    /// the severity label in lowercase, the text unchanged, and the
    /// byte span converted to UTF-16 code units against the source the
    /// diagnostics point into (an unresolved source is passed as the
    /// empty string, which leaves offsets unchanged).
    pub fn add_diagnostics(&mut self, source: &str, diags: &Vec<RawDiagnostic>)
        ensures
            final(self).font_data == old(self).font_data,
            final(self).insert_markers == old(self).insert_markers,
            final(self).messages@.len() == old(self).messages@.len() + diags@.len(),
            forall|i: int|
                0 <= i < old(self).messages@.len() ==> final(self).messages@[i] == old(
                    self,
                ).messages@[i],
            forall|i: int|
                0 <= i < diags@.len() ==> {
                    let m = #[trigger] final(self).messages@[old(self).messages@.len() + i];
                    &&& m.level@ == spec_level_label(diags@[i].level)
                    &&& m.text@ == diags@[i].text@
                    &&& m.span.start as int == spec_to_utf16_offset(
                        source.spec_bytes(),
                        diags@[i].start as int,
                    )
                    &&& m.span.end as int == spec_to_utf16_offset(
                        source.spec_bytes(),
                        diags@[i].end as int,
                    )
                },
    {
        let n = diags.len();
        let mut i: usize = 0;
        while i < n
            invariant
                n == diags@.len(),
                i <= n,
                self.font_data == old(self).font_data,
                self.insert_markers == old(self).insert_markers,
                self.messages@.len() == old(self).messages@.len() + i,
                forall|k: int|
                    0 <= k < old(self).messages@.len() ==> self.messages@[k] == old(
                        self,
                    ).messages@[k],
                forall|k: int|
                    0 <= k < i ==> {
                        let m = #[trigger] self.messages@[old(self).messages@.len() + k];
                        &&& m.level@ == spec_level_label(diags@[k].level)
                        &&& m.text@ == diags@[k].text@
                        &&& m.span.start as int == spec_to_utf16_offset(
                            source.spec_bytes(),
                            diags@[k].start as int,
                        )
                        &&& m.span.end as int == spec_to_utf16_offset(
                            source.spec_bytes(),
                            diags@[k].end as int,
                        )
                    },
            decreases n - i,
        {
            let d = &diags[i];
            let start = to_utf16_offset(source, d.start);
            let end = to_utf16_offset(source, d.end);
            self.messages.push(
                Message {
                    level: level_label(d.level),
                    text: d.text.as_str().to_owned(),
                    span: Span { start, end },
                },
            );
            i += 1;
        }
    }
}

/// Order insertion markers by their packed tag, keeping every pair.
/// Markers come keyed by tag, so keys are distinct and the order is
/// fully determined.
pub fn sort_marker_keys(v: Vec<(u64, usize)>) -> (r: Vec<(u64, usize)>)
    ensures
        r@.to_multiset() == v@.to_multiset(),
        forall|i: int, j: int| #![trigger r@[i], r@[j]] 0 <= i < j < r@.len() ==> r@[i].0 <= r@[j].0,
{
    broadcast use vstd::seq_lib::group_to_multiset_ensures;

    let n = v.len();
    let mut out: Vec<(u64, usize)> = Vec::new();
    let mut i: usize = 0;
    proof {
        assert(v@.take(0) =~= out@);
    }
    while i < n
        invariant
            n == v@.len(),
            i <= n,
            out@.len() == i,
            out@.to_multiset() == v@.take(i as int).to_multiset(),
            forall|a: int, b: int|
                #![trigger out@[a], out@[b]]
                0 <= a < b < out@.len() ==> out@[a].0 <= out@[b].0,
        decreases n - i,
    {
        let x = v[i];
        let m = out.len();
        let mut p: usize = 0;
        while p < m && out[p].0 <= x.0
            invariant
                m == out@.len(),
                p <= m,
                forall|k: int| 0 <= k < p ==> (#[trigger] out@[k]).0 <= x.0,
            decreases m - p,
        {
            p += 1;
        }
        let ghost before = out@;
        out.insert(p, x);
        proof {
            assert(out@ == before.insert(p as int, x));
            vstd::seq_lib::to_multiset_insert(before, p as int, x);
            assert(v@.take((i + 1) as int).drop_last() =~= v@.take(i as int));
            assert(v@.take((i + 1) as int).last() == v@[i as int]);
            vstd::seq_lib::to_multiset_build(v@.take(i as int), v@[i as int]);
            assert(v@.take((i + 1) as int) =~= v@.take(i as int).push(v@[i as int]));
            assert forall|a: int, b: int|
                #![trigger out@[a], out@[b]]
                0 <= a < b < out@.len() implies out@[a].0 <= out@[b].0 by {
                let oa = if a < p {
                    a
                } else {
                    a - 1
                };
                let ob = if b < p {
                    b
                } else {
                    b - 1
                };
                if a == p {
                    // `b` lands past the insertion point, where every key
                    // exceeds the inserted one.
                    assert(out@[a] == x);
                    assert(out@[b] == before[ob]);
                    assert(p as int <= ob < before.len());
                    assert(before[p as int].0 > x.0);
                    assert(before[p as int].0 <= before[ob].0);
                } else if b == p {
                    assert(out@[a] == before[oa]);
                    assert(oa < p as int);
                    assert(before[oa].0 <= x.0);
                } else {
                    assert(out@[a] == before[oa]);
                    assert(out@[b] == before[ob]);
                }
            }
        }
        i += 1;
    }
    proof {
        assert(v@.take(n as int) =~= v@);
    }
    out
}

} // verus!
