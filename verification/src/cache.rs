use vstd::prelude::*;

use fontdrasil::types::Axes;
use fontdrasil::variations::VariationModel;

use crate::interop::{loc_rep, locations_rep, model_new, model_of};
use crate::locations::{MasterLocation, spec_loc_rep};
use crate::resolver::to_outside_location;

verus! {

/// The views of the locations of one cache key, in stored order.
pub open spec fn key_view(k: Seq<MasterLocation>) -> Seq<Seq<(u32, i64)>> {
    k.map_values(|l: MasterLocation| l@)
}

/// One cache key as a set: the order of the locations does not matter.
pub open spec fn key_set(k: Seq<MasterLocation>) -> Set<Seq<(u32, i64)>> {
    key_view(k).to_set()
}

/// One cache key as the set of location mappings, the form the model
/// constructor is described over.
pub open spec fn key_rep_set(k: Seq<MasterLocation>) -> Set<Map<int, int>> {
    k.map_values(|l: MasterLocation| spec_loc_rep(l@)).to_set()
}

/// Equal location-view sets induce equal mapping sets: the mapping is a
/// function of the view.
pub proof fn lemma_rep_set_of_equal_view_sets(a: Seq<MasterLocation>, b: Seq<MasterLocation>)
    requires
        key_set(a) == key_set(b),
    ensures
        key_rep_set(a) == key_rep_set(b),
{
    let ra = a.map_values(|l: MasterLocation| spec_loc_rep(l@));
    let rb = b.map_values(|l: MasterLocation| spec_loc_rep(l@));
    assert forall|x: Map<int, int>| ra.to_set().contains(x) implies rb.to_set().contains(x) by {
        let m = choose|m: int| 0 <= m < ra.len() && ra[m] == x;
        assert(key_view(a)[m] == a[m]@);
        assert(key_set(a).contains(a[m]@));
        assert(key_set(b).contains(a[m]@));
        let k = choose|k: int| 0 <= k < key_view(b).len() && key_view(b)[k] == a[m]@;
        assert(b[k]@ == a[m]@);
        assert(rb[k] == x);
    }
    assert forall|x: Map<int, int>| rb.to_set().contains(x) implies ra.to_set().contains(x) by {
        let m = choose|m: int| 0 <= m < rb.len() && rb[m] == x;
        assert(key_view(b)[m] == b[m]@);
        assert(key_set(b).contains(b[m]@));
        assert(key_set(a).contains(b[m]@));
        let k = choose|k: int| 0 <= k < key_view(a).len() && key_view(a)[k] == b[m]@;
        assert(a[k]@ == b[m]@);
        assert(ra[k] == x);
    }
    assert(ra.to_set() =~= rb.to_set());
}

/// A memo table from sets of master locations to interpolation models.
/// Lookup compares keys as sets, by full structural equality of the
/// locations; entries are created lazily and never evicted.
pub struct ModelCache {
    keys: Vec<Vec<MasterLocation>>,
    models: Vec<VariationModel>,
}

impl ModelCache {
    /// The stored keys, as sequences of location views.
    pub closed spec fn key_views(&self) -> Seq<Seq<Seq<(u32, i64)>>> {
        self.keys@.map_values(|k: Vec<MasterLocation>| key_view(k@))
    }

    /// The stored models, in insertion order.
    pub closed spec fn model_seq(&self) -> Seq<VariationModel> {
        self.models@
    }

    /// The number of entries.
    pub open spec fn len_spec(&self) -> nat {
        self.key_views().len()
    }

    /// The key of entry `j`, as a set of locations.
    pub open spec fn key_set_at(&self, j: int) -> Set<Seq<(u32, i64)>> {
        self.key_views()[j].to_set()
    }

    /// Whether some entry's key equals the given location set.
    pub open spec fn has_key(&self, s: Set<Seq<(u32, i64)>>) -> bool {
        exists|j: int| 0 <= j < self.len_spec() && self.key_set_at(j) == s
    }

    /// The key of entry `j`, as the set of its locations' mappings.
    pub closed spec fn key_rep_at(&self, j: int) -> Set<Map<int, int>> {
        key_rep_set(self.keys@[j]@)
    }

    /// The model cached for the given key set.
    pub open spec fn model_for_key(&self, s: Set<Seq<(u32, i64)>>) -> VariationModel
        recommends
            self.has_key(s),
    {
        let j = choose|j: int| 0 <= j < self.len_spec() && self.key_set_at(j) == s;
        self.model_seq()[j]
    }

    /// Every entry has a model, and no two entries share a key set.
    pub open spec fn wf(&self) -> bool {
        &&& self.key_views().len() == self.model_seq().len()
        &&& forall|i: int, j: int|
            0 <= i < j < self.len_spec() ==> self.key_set_at(i) != self.key_set_at(j)
    }

    /// Every entry's model is the one the collaborator builds over
    /// exactly that entry's location set and these axes.
    pub open spec fn consistent_with(&self, axes: Axes) -> bool {
        forall|j: int|
            0 <= j < self.len_spec() ==> #[trigger] self.model_seq()[j] == model_of(
                self.key_rep_at(j),
                axes,
            )
    }

    /// An empty cache.
    pub fn new() -> (r: ModelCache)
        ensures
            r.wf(),
            r.len_spec() == 0,
            forall|axes: Axes| #[trigger] r.consistent_with(axes),
    {
        ModelCache { keys: Vec::new(), models: Vec::new() }
    }

    /// The model of entry `i`.
    pub fn model_at(&self, i: usize) -> (r: &VariationModel)
        requires
            self.wf(),
            i < self.len_spec(),
        ensures
            *r == self.model_seq()[i as int],
    {
        &self.models[i]
    }

    /// Return the entry for exactly this location set, building and
    /// inserting a fresh model on a miss.  On a hit the cache is
    /// untouched and the entry that already carried this key set is
    /// returned, so structurally equal location sets always share one
    /// model; either way the entry's model is the one built over
    /// exactly this location set and these axes.
    pub fn model_for(&mut self, locs: &Vec<MasterLocation>, axes: &Axes) -> (i: usize)
        requires
            old(self).wf(),
            old(self).consistent_with(*axes),
            forall|k: int| 0 <= k < locs@.len() ==> (#[trigger] locs@[k]).wf(),
        ensures
            final(self).wf(),
            final(self).consistent_with(*axes),
            i < final(self).len_spec(),
            final(self).key_set_at(i as int) == key_set(locs@),
            final(self).model_seq()[i as int] == model_of(key_rep_set(locs@), *axes),
            old(self).has_key(key_set(locs@)) ==> *final(self) == *old(self),
            !old(self).has_key(key_set(locs@)) ==> {
                &&& final(self).len_spec() == old(self).len_spec() + 1
                &&& i == old(self).len_spec()
                &&& forall|j: int|
                    0 <= j < old(self).len_spec() ==> final(self).key_views()[j] == old(
                        self,
                    ).key_views()[j] && final(self).model_seq()[j] == old(self).model_seq()[j]
            },
    {
        let n = self.keys.len();
        let mut j: usize = 0;
        while j < n
            invariant
                *self == *old(self),
                old(self).wf(),
                old(self).consistent_with(*axes),
                n == self.keys@.len(),
                j <= n,
                forall|k: int| 0 <= k < j ==> self.key_set_at(k) != key_set(locs@),
            decreases n - j,
        {
            if key_set_eq(&self.keys[j], locs) {
                proof {
                    assert(self.key_views()[j as int] == key_view(self.keys@[j as int]@));
                    assert(self.key_set_at(j as int) == key_set(locs@));
                    assert(old(self).has_key(key_set(locs@)));
                    assert(self.model_seq()[j as int] == model_of(
                        self.key_rep_at(j as int),
                        *axes,
                    ));
                    lemma_rep_set_of_equal_view_sets(self.keys@[j as int]@, locs@);
                    assert(self.key_rep_at(j as int) == key_rep_set(locs@));
                }
                return j;
            }
            proof {
                assert(self.key_views()[j as int] == key_view(self.keys@[j as int]@));
            }
            j += 1;
        }
        proof {
            assert(!old(self).has_key(key_set(locs@)));
        }
        let mut olocs: Vec<fontdrasil::coords::NormalizedLocation> = Vec::new();
        let mut k: usize = 0;
        while k < locs.len()
            invariant
                *self == *old(self),
                old(self).wf(),
                old(self).consistent_with(*axes),
                forall|m: int| 0 <= m < locs@.len() ==> (#[trigger] locs@[m]).wf(),
                forall|m: int| 0 <= m < self.keys@.len() ==> self.key_set_at(m) != key_set(locs@),
                k <= locs@.len(),
                olocs@.len() == k,
                forall|m: int|
                    0 <= m < k ==> loc_rep(#[trigger] olocs@[m]) == spec_loc_rep(locs@[m]@),
            decreases locs@.len() - k,
        {
            let ol = to_outside_location(&locs[k]);
            olocs.push(ol);
            k += 1;
        }
        proof {
            assert(olocs@.map_values(|l: fontdrasil::coords::NormalizedLocation| loc_rep(l))
                =~= locs@.map_values(|l: MasterLocation| spec_loc_rep(l@)));
            assert(locations_rep(olocs@) == key_rep_set(locs@));
        }
        let model = model_new(&olocs, axes);
        let key = duplicate_key(locs);
        let ghost pre = *self;
        self.keys.push(key);
        self.models.push(model);
        proof {
            let i = pre.keys@.len() as int;
            assert(self.keys@ == pre.keys@.push(key));
            assert(self.models@ == pre.models@.push(model));
            assert forall|m: int| 0 <= m < pre.keys@.len() implies self.key_views()[m]
                == pre.key_views()[m] by {
                assert(self.keys@[m] == pre.keys@[m]);
            }
            assert(self.key_views()[i] == key_view(key@));
            assert(key_view(key@) =~= key_view(locs@));
            assert(self.key_set_at(i) == key_set(locs@));
            assert(self.key_views().len() == pre.key_views().len() + 1);
            assert(key@.map_values(|l: MasterLocation| spec_loc_rep(l@)) =~= locs@.map_values(
                |l: MasterLocation| spec_loc_rep(l@),
            ));
            assert(self.key_rep_at(i) == key_rep_set(locs@));
            assert(self.model_seq()[i] == model_of(key_rep_set(locs@), *axes));
            assert forall|m: int| 0 <= m < self.len_spec() implies #[trigger] self.model_seq()[m]
                == model_of(self.key_rep_at(m), *axes) by {
                if m < i {
                    assert(self.keys@[m] == pre.keys@[m]);
                    assert(self.models@[m] == pre.models@[m]);
                    assert(self.key_rep_at(m) == pre.key_rep_at(m));
                    assert(pre.model_seq()[m] == model_of(pre.key_rep_at(m), *axes));
                }
            }
            assert forall|a: int, b: int| 0 <= a < b < self.len_spec() implies self.key_set_at(a)
                != self.key_set_at(b) by {
                if b < i {
                    assert(self.key_set_at(a) == pre.key_set_at(a));
                    assert(self.key_set_at(b) == pre.key_set_at(b));
                } else {
                    assert(b == i);
                    assert(self.key_set_at(a) == pre.key_set_at(a));
                    assert(!pre.has_key(key_set(locs@)));
                }
            }
        }
        n
    }
}

/// Whether the key holds a location with exactly this view.
fn key_contains(k: &Vec<MasterLocation>, l: &MasterLocation) -> (r: bool)
    ensures
        r == key_set(k@).contains(l@),
{
    let n = k.len();
    let mut i: usize = 0;
    while i < n
        invariant
            n == k@.len(),
            i <= n,
            forall|m: int| 0 <= m < i ==> (#[trigger] k@[m])@ != l@,
        decreases n - i,
    {
        if k[i].same_as(l) {
            proof {
                assert(key_view(k@)[i as int] == k@[i as int]@);
                assert(key_view(k@).contains(l@));
            }
            return true;
        }
        i += 1;
    }
    proof {
        if key_view(k@).contains(l@) {
            let m = choose|m: int| 0 <= m < key_view(k@).len() && key_view(k@)[m] == l@;
            assert(k@[m]@ == l@);
        }
    }
    false
}

/// Whether two keys hold exactly the same locations, in any order.
fn key_set_eq(a: &Vec<MasterLocation>, b: &Vec<MasterLocation>) -> (r: bool)
    ensures
        r == (key_set(a@) == key_set(b@)),
{
    let mut i: usize = 0;
    while i < a.len()
        invariant
            i <= a@.len(),
            forall|m: int| 0 <= m < i ==> key_set(b@).contains((#[trigger] a@[m])@),
        decreases a@.len() - i,
    {
        if !key_contains(b, &a[i]) {
            proof {
                assert(key_view(a@)[i as int] == a@[i as int]@);
                assert(key_set(a@).contains(a@[i as int]@));
            }
            return false;
        }
        i += 1;
    }
    let mut j: usize = 0;
    while j < b.len()
        invariant
            j <= b@.len(),
            forall|m: int| 0 <= m < a@.len() ==> key_set(b@).contains((#[trigger] a@[m])@),
            forall|m: int| 0 <= m < j ==> key_set(a@).contains((#[trigger] b@[m])@),
        decreases b@.len() - j,
    {
        if !key_contains(a, &b[j]) {
            proof {
                assert(key_view(b@)[j as int] == b@[j as int]@);
                assert(key_set(b@).contains(b@[j as int]@));
            }
            return false;
        }
        j += 1;
    }
    proof {
        assert forall|x: Seq<(u32, i64)>| key_set(a@).contains(x) implies key_set(b@).contains(
            x,
        ) by {
            let m = choose|m: int| 0 <= m < key_view(a@).len() && key_view(a@)[m] == x;
            assert(a@[m]@ == x);
        }
        assert forall|x: Seq<(u32, i64)>| key_set(b@).contains(x) implies key_set(a@).contains(
            x,
        ) by {
            let m = choose|m: int| 0 <= m < key_view(b@).len() && key_view(b@)[m] == x;
            assert(b@[m]@ == x);
        }
        assert(key_set(a@) =~= key_set(b@));
    }
    true
}

/// A key holding value-equal copies of the given locations.
fn duplicate_key(locs: &Vec<MasterLocation>) -> (r: Vec<MasterLocation>)
    ensures
        r@.len() == locs@.len(),
        forall|m: int| 0 <= m < locs@.len() ==> (#[trigger] r@[m])@ == locs@[m]@,
{
    let mut out: Vec<MasterLocation> = Vec::new();
    let mut i: usize = 0;
    while i < locs.len()
        invariant
            i <= locs@.len(),
            out@.len() == i,
            forall|m: int| 0 <= m < i ==> (#[trigger] out@[m])@ == locs@[m]@,
        decreases locs@.len() - i,
    {
        out.push(locs[i].duplicate());
        i += 1;
    }
    out
}

/// The cache law behind model reuse: entries are keyed by location sets,
/// and no two entries share one, so any two lookups that land on equal
/// key sets land on the same entry and hence return the very same model.
pub proof fn lemma_same_key_same_model(c: ModelCache, i1: int, i2: int)
    requires
        c.wf(),
        0 <= i1 < c.len_spec(),
        0 <= i2 < c.len_spec(),
        c.key_set_at(i1) == c.key_set_at(i2),
    ensures
        i1 == i2,
        c.model_seq()[i1] == c.model_seq()[i2],
{
}

/// Key sets ignore ordering: lists of locations that are permutations
/// of one another produce equal cache keys.
pub proof fn lemma_key_set_order_independent(l1: Seq<MasterLocation>, l2: Seq<MasterLocation>)
    requires
        l1.to_multiset() == l2.to_multiset(),
    ensures
        key_set(l1) == key_set(l2),
{
    broadcast use vstd::seq_lib::to_multiset_contains;

    assert forall|x: Seq<(u32, i64)>| key_set(l1).contains(x) implies key_set(l2).contains(x) by {
        let m = choose|m: int| 0 <= m < key_view(l1).len() && key_view(l1)[m] == x;
        assert(l1.contains(l1[m]));
        vstd::seq_lib::to_multiset_contains(l1, l1[m]);
        vstd::seq_lib::to_multiset_contains(l2, l1[m]);
        assert(l2.contains(l1[m]));
        let k = choose|k: int| 0 <= k < l2.len() && l2[k] == l1[m];
        assert(key_view(l2)[k] == x);
    }
    assert forall|x: Seq<(u32, i64)>| key_set(l2).contains(x) implies key_set(l1).contains(x) by {
        let m = choose|m: int| 0 <= m < key_view(l2).len() && key_view(l2)[m] == x;
        assert(l2.contains(l2[m]));
        vstd::seq_lib::to_multiset_contains(l2, l2[m]);
        vstd::seq_lib::to_multiset_contains(l1, l2[m]);
        assert(l1.contains(l2[m]));
        let k = choose|k: int| 0 <= k < l1.len() && l1[k] == l2[m];
        assert(key_view(l1)[k] == x);
    }
    assert(key_set(l1) =~= key_set(l2));
}

} // verus!
