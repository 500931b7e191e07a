use vstd::prelude::*;
use vstd::string::StringSliceAdditionalSpecFns;

use crate::VariationError;
use crate::fixed::FIXED_ONE;

verus! {

// A design axis in user coordinates.  Coordinate values are 16.16
// fixed-point numbers held in `i64` with the invariant that they fit the
// 32-bit fixed-point format of the axis table.

/// True when `s` is a legal axis tag: one to four bytes of printable
/// ASCII, not starting with a space, and once a space occurs only spaces
/// may follow (short tags are padded with trailing spaces).
pub open spec fn spec_valid_tag(s: Seq<u8>) -> bool {
    &&& 1 <= s.len() <= 4
    &&& s[0] != 0x20
    &&& forall|i: int| 0 <= i < s.len() ==> 0x20 <= #[trigger] s[i] <= 0x7e
    &&& forall|i: int, j: int|
        #![trigger s[i], s[j]]
        0 <= i < j < s.len() && s[i] == 0x20 ==> s[j] == 0x20
}

/// The byte at position `i` of a tag, space-padded to four bytes.
pub open spec fn spec_tag_byte(s: Seq<u8>, i: int) -> u8 {
    if i < s.len() {
        s[i]
    } else {
        0x20
    }
}

/// The tag packed big-endian into a `u32`, space-padded to four bytes.
pub open spec fn spec_tag_value(s: Seq<u8>) -> int {
    spec_tag_byte(s, 0) * 0x100_0000 + spec_tag_byte(s, 1) * 0x1_0000 + spec_tag_byte(s, 2) * 0x100
        + spec_tag_byte(s, 3)
}

/// The first `i` padded tag bytes packed big-endian.
pub open spec fn spec_tag_prefix(s: Seq<u8>, i: int) -> int
    decreases i,
{
    if i <= 0 {
        0
    } else {
        spec_tag_prefix(s, i - 1) * 0x100 + spec_tag_byte(s, i - 1)
    }
}

/// Parse an axis tag from its raw bytes.  Returns the packed value
/// exactly when the bytes form a legal tag.
pub fn parse_tag(s: &[u8]) -> (r: Result<u32, VariationError>)
    ensures
        r is Ok <==> spec_valid_tag(s@),
        r matches Ok(v) ==> v == spec_tag_value(s@),
        r matches Err(e) ==> e == VariationError::InvalidAxisTag,
{
    let n = s.len();
    if n == 0 || n > 4 {
        return Err(VariationError::InvalidAxisTag);
    }
    if s[0] == 0x20 {
        return Err(VariationError::InvalidAxisTag);
    }
    let mut seen_space = false;
    let mut packed: u32 = 0;
    let mut i: usize = 0;
    while i < 4
        invariant
            n == s@.len(),
            1 <= n <= 4,
            i <= 4,
            s@[0] != 0x20,
            forall|k: int| 0 <= k < i && k < n ==> 0x20 <= #[trigger] s@[k] <= 0x7e,
            forall|k: int, j: int|
                #![trigger s@[k], s@[j]]
                0 <= k < j < i && j < n && s@[k] == 0x20 ==> s@[j] == 0x20,
            seen_space == exists|k: int| 0 <= k < i && k < n && s@[k] == 0x20,
            packed == spec_tag_prefix(s@, i as int),
            i == 0 ==> packed == 0,
            i == 1 ==> packed <= 0x7e,
            i == 2 ==> packed <= 0x7e7e,
            i == 3 ==> packed <= 0x7e_7e7e,
            i == 4 ==> packed <= 0x7e7e_7e7e,
        decreases 4 - i,
    {
        let b: u8 = if i < n {
            s[i]
        } else {
            0x20
        };
        if i < n {
            if b < 0x20 || b > 0x7e {
                return Err(VariationError::InvalidAxisTag);
            }
            if seen_space && b != 0x20 {
                return Err(VariationError::InvalidAxisTag);
            }
            if b == 0x20 {
                seen_space = true;
            }
        }
        proof {
            assert(b == spec_tag_byte(s@, i as int));
        }
        packed = packed * 0x100 + (b as u32);
        i += 1;
    }
    proof {
        assert(spec_tag_prefix(s@, 4) == spec_tag_value(s@)) by {
            reveal_with_fuel(spec_tag_prefix, 5);
        }
    }
    Ok(packed)
}

/// A design axis: a tag, a display name, and user-coordinate bounds in
/// 16.16 fixed-point form.
#[derive(Debug)]
pub struct AxisSpace {
    /// Human-readable label, used for the axis name record.
    pub name: String,
    /// The axis tag packed big-endian into a `u32`.
    pub tag: u32,
    /// Minimum user coordinate, 16.16 fixed-point.
    pub min: i64,
    /// Default user coordinate, 16.16 fixed-point.
    pub default: i64,
    /// Maximum user coordinate, 16.16 fixed-point.
    pub max: i64,
}

impl Clone for AxisSpace {
    /// A copy that carries the same tag, name and bounds.
    fn clone(&self) -> (r: Self)
        ensures
            r.name@ == self.name@,
            r.tag == self.tag,
            r.min == self.min,
            r.default == self.default,
            r.max == self.max,
    {
        AxisSpace {
            name: self.name.as_str().to_owned(),
            tag: self.tag,
            min: self.min,
            default: self.default,
            max: self.max,
        }
    }
}

impl AxisSpace {
    /// Coordinates fit the 32-bit fixed-point format of the axis table.
    pub open spec fn wf(&self) -> bool {
        &&& -0x8000_0000 <= self.min <= 0x7fff_ffff
        &&& -0x8000_0000 <= self.default <= 0x7fff_ffff
        &&& -0x8000_0000 <= self.max <= 0x7fff_ffff
    }

    /// Whether the user-coordinate bounds are ordered.  This is a
    /// documented precondition of normalization, not something the
    /// constructor enforces: validation belongs to the caller.
    pub open spec fn ordered(&self) -> bool {
        self.min <= self.default <= self.max
    }

    /// Build an axis from a tag string and fixed-point user coordinates.
    /// Fails exactly when the tag is not a legal four-character
    /// identifier.  The axis name, used for its name record, is the tag
    /// string itself.
    pub fn new(tag: &str, min: i64, default: i64, max: i64) -> (r: Result<AxisSpace, VariationError>)
        requires
            -0x8000_0000 <= min <= 0x7fff_ffff,
            -0x8000_0000 <= default <= 0x7fff_ffff,
            -0x8000_0000 <= max <= 0x7fff_ffff,
        ensures
            r is Ok <==> spec_valid_tag(tag.spec_bytes()),
            r matches Ok(a) ==> {
                &&& a.tag == spec_tag_value(tag.spec_bytes())
                &&& a.name@ == tag@
                &&& a.min == min
                &&& a.default == default
                &&& a.max == max
                &&& a.wf()
            },
            r matches Err(e) ==> e == VariationError::InvalidAxisTag,
    {
        let packed = parse_tag(tag.as_bytes())?;
        Ok(AxisSpace { name: tag.to_owned(), tag: packed, min, default, max })
    }

    /// The normalization law: piecewise linear in 16.16 fixed-point,
    /// pinned at (min, -1), (default, 0) and (max, 1), with inputs
    /// clamped to `[min, max]`.  Divisions truncate toward zero.
    pub open spec fn spec_normalize(&self, v: int) -> int {
        let w = if v < self.min {
            self.min as int
        } else if v > self.max {
            self.max as int
        } else {
            v
        };
        if w < self.default {
            -(((self.default - w) * FIXED_ONE) / (self.default - self.min))
        } else if w > self.default {
            ((w - self.default) * FIXED_ONE) / (self.max - self.default)
        } else {
            0
        }
    }

    /// Map a user coordinate to the normalized `[-1, 1]` range
    /// (as 16.16 fixed-point, so to `[-0x10000, 0x10000]`).
    pub fn normalize(&self, v: i64) -> (r: i64)
        requires
            self.wf(),
            self.ordered(),
            -0x8000_0000 <= v <= 0x7fff_ffff,
        ensures
            r == self.spec_normalize(v as int),
    {
        let w = if v < self.min {
            self.min
        } else if v > self.max {
            self.max
        } else {
            v
        };
        if w < self.default {
            let num: u64 = ((self.default - w) as u64) * 0x1_0000;
            let den: u64 = (self.default - self.min) as u64;
            let q: u64 = num / den;
            -(q as i64)
        } else if w > self.default {
            let num: u64 = ((w - self.default) as u64) * 0x1_0000;
            let den: u64 = (self.max - self.default) as u64;
            let q: u64 = num / den;
            q as i64
        } else {
            0
        }
    }
}

/// Normalizing the pinned points is exact: the default maps to zero, the
/// minimum to minus one and the maximum to plus one, whenever the bounds
/// are ordered and the axis is not degenerate at the queried end.
pub proof fn lemma_normalize_pins(a: AxisSpace)
    requires
        a.wf(),
        a.ordered(),
    ensures
        a.spec_normalize(a.default as int) == 0,
        a.min < a.default ==> a.spec_normalize(a.min as int) == -FIXED_ONE,
        a.default < a.max ==> a.spec_normalize(a.max as int) == FIXED_ONE,
{
    if a.min < a.default {
        let d = a.default - a.min;
        vstd::arithmetic::div_mod::lemma_div_by_multiple(FIXED_ONE as int, d);
        assert(FIXED_ONE * d == d * FIXED_ONE) by (nonlinear_arith);
    }
    if a.default < a.max {
        let d = a.max - a.default;
        vstd::arithmetic::div_mod::lemma_div_by_multiple(FIXED_ONE as int, d);
        assert(FIXED_ONE * d == d * FIXED_ONE) by (nonlinear_arith);
    }
}

/// The normalization law is monotone non-decreasing on ordered axes.
pub proof fn lemma_normalize_monotone(a: AxisSpace, v1: int, v2: int)
    requires
        a.wf(),
        a.ordered(),
        v1 <= v2,
    ensures
        a.spec_normalize(v1) <= a.spec_normalize(v2),
{
    let w1 = if v1 < a.min {
        a.min as int
    } else if v1 > a.max {
        a.max as int
    } else {
        v1
    };
    let w2 = if v2 < a.min {
        a.min as int
    } else if v2 > a.max {
        a.max as int
    } else {
        v2
    };
    assert(w1 <= w2);
    if w1 < a.default && w2 < a.default {
        let d = a.default - a.min;
        vstd::arithmetic::div_mod::lemma_div_is_ordered(
            (a.default - w2) * FIXED_ONE,
            (a.default - w1) * FIXED_ONE,
            d,
        );
        assert((a.default - w2) * FIXED_ONE <= (a.default - w1) * FIXED_ONE) by (nonlinear_arith)
            requires
                w1 <= w2,
        ;
    } else if w1 > a.default && w2 > a.default {
        let d = a.max - a.default;
        vstd::arithmetic::div_mod::lemma_div_is_ordered(
            (w1 - a.default) * FIXED_ONE,
            (w2 - a.default) * FIXED_ONE,
            d,
        );
        assert((w1 - a.default) * FIXED_ONE <= (w2 - a.default) * FIXED_ONE) by (nonlinear_arith)
            requires
                w1 <= w2,
        ;
    } else {
        if w1 < a.default {
            let d = a.default - a.min;
            assert((a.default - w1) * FIXED_ONE >= 0) by (nonlinear_arith)
                requires
                    w1 <= a.default,
            ;
            vstd::arithmetic::div_mod::lemma_div_pos_is_pos((a.default - w1) * FIXED_ONE, d);
        }
        if w2 > a.default {
            let d = a.max - a.default;
            assert((w2 - a.default) * FIXED_ONE >= 0) by (nonlinear_arith)
                requires
                    w2 >= a.default,
            ;
            vstd::arithmetic::div_mod::lemma_div_pos_is_pos((w2 - a.default) * FIXED_ONE, d);
        }
    }
}

} // verus!
