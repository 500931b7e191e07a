use vstd::prelude::*;

use crate::VariationError;
use crate::axes::AxisSpace;

verus! {

/// The last name identifier the format reserves for predefined names.
pub const LAST_RESERVED_NAME_ID: u16 = 255;

/// The largest name identifier the format allows.
pub const LAST_ALLOWED_NAME_ID: u16 = 0x7fff;

/// One record of the axis table: the tag, the user-coordinate bounds in
/// 16.16 fixed-point form, and the allocated name identifier.
#[derive(Clone, Copy, Debug, PartialEq, Eq, Structural)]
pub struct AxisRecord {
    pub tag: u32,
    pub min: i64,
    pub default: i64,
    pub max: i64,
    pub name_id: u16,
}

/// One name record to append to the name table: an identifier and the
/// label it names.
#[derive(Debug)]
pub struct AxisNameRecord {
    pub name_id: u16,
    pub label: String,
}

/// The largest of the given identifiers and the floor.
pub open spec fn spec_max_id(s: Seq<u16>, floor: int) -> int
    decreases s.len(),
{
    if s.len() == 0 {
        floor
    } else {
        let m = spec_max_id(s.drop_last(), floor);
        if s.last() > m {
            s.last() as int
        } else {
            m
        }
    }
}

/// The first identifier free for allocation: one past the largest of
/// the existing identifiers and the last reserved one.
pub open spec fn spec_first_free_id(existing: Seq<u16>) -> int {
    spec_max_id(existing, LAST_RESERVED_NAME_ID as int) + 1
}

/// The maximum is no smaller than the floor and than any element.
pub proof fn lemma_max_id_bounds(s: Seq<u16>, floor: int)
    ensures
        spec_max_id(s, floor) >= floor,
        forall|i: int| 0 <= i < s.len() ==> #[trigger] s[i] <= spec_max_id(s, floor),
    decreases s.len(),
{
    if s.len() > 0 {
        lemma_max_id_bounds(s.drop_last(), floor);
        assert forall|i: int| 0 <= i < s.len() implies #[trigger] s[i] <= spec_max_id(
            s,
            floor,
        ) by {
            if i < s.len() - 1 {
                assert(s.drop_last()[i] == s[i]);
            }
        }
    }
}

/// Build the axis-table content: one axis record per axis, in input
/// order, each paired with one name record whose identifier counts up,
/// gap free, from one past the largest existing identifier (floored at
/// the last reserved one).  An empty axis list builds nothing, and
/// succeeds.  Fails exactly when an identifier past the largest allowed
/// one would be needed.
pub fn build_axis_table(axes: &Vec<AxisSpace>, existing_ids: &Vec<u16>) -> (r: Result<
    (Vec<AxisNameRecord>, Vec<AxisRecord>),
    VariationError,
>)
    ensures
        r is Ok <==> (axes@.len() == 0 || spec_first_free_id(existing_ids@) + axes@.len() - 1
            <= LAST_ALLOWED_NAME_ID),
        r matches Ok(p) ==> {
            &&& p.0@.len() == axes@.len()
            &&& p.1@.len() == axes@.len()
            &&& forall|i: int|
                0 <= i < axes@.len() ==> (#[trigger] p.0@[i]).name_id == spec_first_free_id(
                    existing_ids@,
                ) + i
            &&& forall|i: int| 0 <= i < axes@.len() ==> (#[trigger] p.0@[i]).label@ == axes@[i].name@
            &&& forall|i: int|
                0 <= i < axes@.len() ==> {
                    &&& (#[trigger] p.1@[i]).tag == axes@[i].tag
                    &&& p.1@[i].min == axes@[i].min
                    &&& p.1@[i].default == axes@[i].default
                    &&& p.1@[i].max == axes@[i].max
                    &&& p.1@[i].name_id == spec_first_free_id(existing_ids@) + i
                }
        },
        r matches Err(e) ==> e == VariationError::IdentifierOverflow,
{
    if axes.len() == 0 {
        return Ok((Vec::new(), Vec::new()));
    }
    let mut max_id: u16 = LAST_RESERVED_NAME_ID;
    let mut i: usize = 0;
    let n = existing_ids.len();
    while i < n
        invariant
            n == existing_ids@.len(),
            i <= n,
            max_id as int == spec_max_id(existing_ids@.take(i as int), LAST_RESERVED_NAME_ID as int),
        decreases n - i,
    {
        proof {
            assert(existing_ids@.take((i + 1) as int).drop_last() =~= existing_ids@.take(i as int));
            assert(existing_ids@.take((i + 1) as int).last() == existing_ids@[i as int]);
        }
        if existing_ids[i] > max_id {
            max_id = existing_ids[i];
        }
        i += 1;
    }
    proof {
        assert(existing_ids@.take(n as int) =~= existing_ids@);
    }
    let start: u64 = max_id as u64 + 1;
    let count: u64 = if axes.len() > 0x1_0000 {
        0x1_0000
    } else {
        axes.len() as u64
    };
    if start + count - 1 > LAST_ALLOWED_NAME_ID as u64 {
        proof {
            lemma_max_id_bounds(existing_ids@, LAST_RESERVED_NAME_ID as int);
            assert(spec_first_free_id(existing_ids@) + axes@.len() - 1 > LAST_ALLOWED_NAME_ID);
        }
        return Err(VariationError::IdentifierOverflow);
    }
    let mut names: Vec<AxisNameRecord> = Vec::new();
    let mut records: Vec<AxisRecord> = Vec::new();
    let mut k: usize = 0;
    while k < axes.len()
        invariant
            start == spec_first_free_id(existing_ids@),
            start + axes@.len() - 1 <= LAST_ALLOWED_NAME_ID,
            k <= axes@.len(),
            names@.len() == k,
            records@.len() == k,
            forall|j: int|
                0 <= j < k ==> (#[trigger] names@[j]).name_id == spec_first_free_id(existing_ids@)
                    + j,
            forall|j: int| 0 <= j < k ==> (#[trigger] names@[j]).label@ == axes@[j].name@,
            forall|j: int|
                0 <= j < k ==> {
                    &&& (#[trigger] records@[j]).tag == axes@[j].tag
                    &&& records@[j].min == axes@[j].min
                    &&& records@[j].default == axes@[j].default
                    &&& records@[j].max == axes@[j].max
                    &&& records@[j].name_id == spec_first_free_id(existing_ids@) + j
                },
        decreases axes@.len() - k,
    {
        let id: u16 = (start + k as u64) as u16;
        let a = &axes[k];
        names.push(AxisNameRecord { name_id: id, label: a.name.as_str().to_owned() });
        records.push(
            AxisRecord { tag: a.tag, min: a.min, default: a.default, max: a.max, name_id: id },
        );
        k += 1;
    }
    Ok((names, records))
}

} // verus!
