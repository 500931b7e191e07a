use vstd::prelude::*;

verus! {

/// True when the entries are strictly sorted by tag and every coordinate
/// fits the 32-bit fixed-point format.
pub open spec fn loc_wf(s: Seq<(u32, i64)>) -> bool {
    &&& forall|i: int, j: int| #![trigger s[i], s[j]] 0 <= i < j < s.len() ==> s[i].0 < s[j].0
    &&& forall|i: int| 0 <= i < s.len() ==> -0x8000_0000 <= (#[trigger] s[i]).1 <= 0x7fff_ffff
}

/// The mapping a location's entries describe, written as the fold of
/// its entries into a map from tag to coordinate.
pub open spec fn spec_loc_rep(s: Seq<(u32, i64)>) -> Map<int, int>
    decreases s.len(),
{
    if s.len() == 0 {
        Map::empty()
    } else {
        spec_loc_rep(s.drop_last()).insert(s.last().0 as int, s.last().1 as int)
    }
}

/// An ordered mapping from axis tag to a normalized coordinate, the
/// coordinate a 16.16 fixed-point number.  Entries are kept strictly
/// sorted by tag, so two locations holding the same tag-coordinate pairs
/// are equal values however they were built.
#[derive(Debug)]
pub struct MasterLocation {
    entries: Vec<(u32, i64)>,
}

impl View for MasterLocation {
    type V = Seq<(u32, i64)>;

    closed spec fn view(&self) -> Seq<(u32, i64)> {
        self.entries@
    }
}

impl MasterLocation {
    /// The canonical-ordering invariant.
    pub open spec fn wf(&self) -> bool {
        loc_wf(self@)
    }

    /// An empty location.
    pub fn new() -> (r: MasterLocation)
        ensures
            r@ == Seq::<(u32, i64)>::empty(),
            r.wf(),
    {
        MasterLocation { entries: Vec::new() }
    }

    /// The number of axis entries.
    pub fn len(&self) -> (r: usize)
        ensures
            r == self@.len(),
    {
        self.entries.len()
    }

    /// The entry at position `i` in tag order.
    pub fn entry(&self, i: usize) -> (r: (u32, i64))
        requires
            i < self@.len(),
        ensures
            r == self@[i as int],
    {
        self.entries[i]
    }

    /// A value-equal copy.
    pub fn duplicate(&self) -> (r: MasterLocation)
        ensures
            r@ == self@,
    {
        let mut entries: Vec<(u32, i64)> = Vec::new();
        let mut i: usize = 0;
        while i < self.entries.len()
            invariant
                i <= self.entries.len(),
                entries@ == self.entries@.take(i as int),
            decreases self.entries.len() - i,
        {
            entries.push(self.entries[i]);
            i += 1;
        }
        proof {
            assert(self.entries@.take(self.entries@.len() as int) == self.entries@);
        }
        MasterLocation { entries }
    }

    /// Set the coordinate for a tag, replacing any previous entry for
    /// it.  Afterwards the location holds exactly the new pair plus
    /// every old pair on a different tag.
    pub fn insert(&mut self, tag: u32, coord: i64)
        requires
            old(self).wf(),
            -0x8000_0000 <= coord <= 0x7fff_ffff,
        ensures
            final(self).wf(),
            forall|p: (u32, i64)|
                #[trigger] final(self)@.contains(p) <==> (p == (tag, coord) || (old(
                    self,
                )@.contains(p) && p.0 != tag)),
    {
        let ghost s0 = self.entries@;
        let n = self.entries.len();
        let mut i: usize = 0;
        while i < n && self.entries[i].0 < tag
            invariant
                self.entries@ == s0,
                n == s0.len(),
                i <= n,
                forall|k: int| 0 <= k < i ==> (#[trigger] s0[k]).0 < tag,
            decreases n - i,
        {
            i += 1;
        }
        if i < n && self.entries[i].0 == tag {
            self.entries.remove(i);
            self.entries.insert(i, (tag, coord));
            proof {
                let s1 = self.entries@;
                assert(s1 =~= s0.update(i as int, (tag, coord)));
                assert forall|p: (u32, i64)| #[trigger]
                    s1.contains(p) implies (p == (tag, coord) || (s0.contains(p) && p.0
                    != tag)) by {
                    let k = choose|k: int| 0 <= k < s1.len() && s1[k] == p;
                    if k != i {
                        assert(s0[k] == p);
                        assert(s0[k].0 != tag) by {
                            if k < i {
                                assert(s0[k].0 < s0[i as int].0);
                            } else {
                                assert(s0[i as int].0 < s0[k].0);
                            }
                        }
                    }
                }
                assert forall|p: (u32, i64)| (p == (tag, coord) || (s0.contains(p) && p.0
                    != tag)) implies #[trigger] s1.contains(p) by {
                    if p == (tag, coord) {
                        assert(s1[i as int] == p);
                    } else {
                        let k = choose|k: int| 0 <= k < s0.len() && s0[k] == p;
                        assert(k != i);
                        assert(s1[k] == p);
                    }
                }
            }
        } else {
            self.entries.insert(i, (tag, coord));
            proof {
                let s1 = self.entries@;
                assert(s1 == s0.insert(i as int, (tag, coord)));
                assert(i < s0.len() ==> tag < s0[i as int].0);
                assert forall|k: int| 0 <= k < s0.len() implies (#[trigger] s0[k]).0 != tag by {
                    if k < i {
                        assert(s0[k].0 < tag);
                    } else {
                        assert(s0[i as int].0 <= s0[k].0);
                    }
                }
                assert(loc_wf(s1)) by {
                    assert forall|x: int, y: int| #![trigger s1[x], s1[y]]
                        0 <= x < y < s1.len() implies s1[x].0 < s1[y].0 by {
                        let ox = if x < i {
                            x
                        } else {
                            x - 1
                        };
                        let oy = if y < i {
                            y
                        } else {
                            y - 1
                        };
                        if x == i {
                            assert(s1[y] == s0[oy]);
                        } else if y == i {
                            assert(s1[x] == s0[ox]);
                        } else {
                            assert(s1[x] == s0[ox]);
                            assert(s1[y] == s0[oy]);
                        }
                    }
                }
                assert forall|p: (u32, i64)| #[trigger]
                    s1.contains(p) implies (p == (tag, coord) || (s0.contains(p) && p.0
                    != tag)) by {
                    let k = choose|k: int| 0 <= k < s1.len() && s1[k] == p;
                    if k != i {
                        let ok = if k < i {
                            k
                        } else {
                            k - 1
                        };
                        assert(s0[ok] == p);
                    }
                }
                assert forall|p: (u32, i64)| (p == (tag, coord) || (s0.contains(p) && p.0
                    != tag)) implies #[trigger] s1.contains(p) by {
                    if p == (tag, coord) {
                        assert(s1[i as int] == p);
                    } else {
                        let k = choose|k: int| 0 <= k < s0.len() && s0[k] == p;
                        if k < i {
                            assert(s1[k] == p);
                        } else {
                            assert(s1[k + 1] == p);
                        }
                    }
                }
            }
        }
    }

    /// Whether two locations hold exactly the same tag-coordinate pairs.
    /// Thanks to the canonical ordering this is plain value equality.
    pub fn same_as(&self, other: &MasterLocation) -> (r: bool)
        ensures
            r == (self@ == other@),
    {
        if self.entries.len() != other.entries.len() {
            proof {
                assert(self@ != other@);
            }
            return false;
        }
        let n = self.entries.len();
        let mut i: usize = 0;
        while i < n
            invariant
                n == self@.len() == other@.len(),
                i <= n,
                forall|k: int| 0 <= k < i ==> self@[k] == other@[k],
            decreases n - i,
        {
            let a = self.entries[i];
            let b = other.entries[i];
            if a.0 != b.0 || a.1 != b.1 {
                proof {
                    assert(self@[i as int] != other@[i as int]);
                }
                return false;
            }
            i += 1;
        }
        proof {
            assert(self@ =~= other@);
        }
        true
    }
}

/// The mapping of a well-formed location holds exactly its entries:
/// the domain is the entries' tags, and each entry's tag maps to its
/// coordinate.
pub proof fn lemma_loc_rep_pairs(s: Seq<(u32, i64)>)
    requires
        loc_wf(s),
    ensures
        forall|t: int|
            #[trigger] spec_loc_rep(s).dom().contains(t) <==> exists|i: int|
                0 <= i < s.len() && (#[trigger] s[i]).0 as int == t,
        forall|i: int|
            0 <= i < s.len() ==> spec_loc_rep(s).contains_pair(
                (#[trigger] s[i]).0 as int,
                s[i].1 as int,
            ),
    decreases s.len(),
{
    if s.len() > 0 {
        let p = s.drop_last();
        assert(loc_wf(p)) by {
            assert forall|x: int, y: int| #![trigger p[x], p[y]]
                0 <= x < y < p.len() implies p[x].0 < p[y].0 by {
                assert(p[x] == s[x]);
                assert(p[y] == s[y]);
            }
            assert forall|x: int| 0 <= x < p.len() implies -0x8000_0000 <= (#[trigger] p[x]).1
                <= 0x7fff_ffff by {
                assert(p[x] == s[x]);
            }
        }
        lemma_loc_rep_pairs(p);
        let last = s.last();
        assert(spec_loc_rep(s) == spec_loc_rep(p).insert(last.0 as int, last.1 as int));
        assert forall|t: int| #[trigger] spec_loc_rep(s).dom().contains(t) implies exists|i: int|
            0 <= i < s.len() && (#[trigger] s[i]).0 as int == t by {
            if t != last.0 as int {
                let i = choose|i: int| 0 <= i < p.len() && (#[trigger] p[i]).0 as int == t;
                assert(s[i].0 as int == t);
            } else {
                assert(s[s.len() - 1].0 as int == t);
            }
        }
        assert forall|t: int|
            (exists|i: int| 0 <= i < s.len() && (#[trigger] s[i]).0 as int == t) implies #[trigger] spec_loc_rep(
            s,
        ).dom().contains(t) by {
            let i = choose|i: int| 0 <= i < s.len() && (#[trigger] s[i]).0 as int == t;
            if i < s.len() - 1 {
                assert(p[i].0 as int == t);
            }
        }
        assert forall|i: int| 0 <= i < s.len() implies spec_loc_rep(s).contains_pair(
            (#[trigger] s[i]).0 as int,
            s[i].1 as int,
        ) by {
            if i < s.len() - 1 {
                assert(p[i] == s[i]);
                assert(spec_loc_rep(p).contains_pair(s[i].0 as int, s[i].1 as int));
                assert(s[i].0 < last.0);
            }
        }
    }
}

/// The mapping determines the well-formed location: two canonical
/// locations with equal mappings are equal.
pub proof fn lemma_loc_rep_injective(a: Seq<(u32, i64)>, b: Seq<(u32, i64)>)
    requires
        loc_wf(a),
        loc_wf(b),
        spec_loc_rep(a) == spec_loc_rep(b),
    ensures
        a == b,
{
    lemma_loc_rep_pairs(a);
    lemma_loc_rep_pairs(b);
    assert forall|p: (u32, i64)| #![trigger a.contains(p), b.contains(p)]
        a.contains(p) <==> b.contains(p) by {
        if a.contains(p) {
            let i = choose|i: int| 0 <= i < a.len() && a[i] == p;
            assert(spec_loc_rep(a).contains_pair(p.0 as int, p.1 as int));
            assert(spec_loc_rep(b).dom().contains(p.0 as int));
            let j = choose|j: int| 0 <= j < b.len() && (#[trigger] b[j]).0 as int == p.0 as int;
            assert(spec_loc_rep(b).contains_pair(b[j].0 as int, b[j].1 as int));
            assert(b[j].1 as int == p.1 as int);
            assert(b[j] == p);
        }
        if b.contains(p) {
            let i = choose|i: int| 0 <= i < b.len() && b[i] == p;
            assert(spec_loc_rep(b).contains_pair(p.0 as int, p.1 as int));
            assert(spec_loc_rep(a).dom().contains(p.0 as int));
            let j = choose|j: int| 0 <= j < a.len() && (#[trigger] a[j]).0 as int == p.0 as int;
            assert(spec_loc_rep(a).contains_pair(a[j].0 as int, a[j].1 as int));
            assert(a[j].1 as int == p.1 as int);
            assert(a[j] == p);
        }
    }
    lemma_location_extensional(a, b);
}

/// Two well-formed locations that hold the same pairs are equal: the
/// canonical ordering makes structural equality value equality.
pub proof fn lemma_location_extensional(a: Seq<(u32, i64)>, b: Seq<(u32, i64)>)
    requires
        loc_wf(a),
        loc_wf(b),
        forall|p: (u32, i64)| #![trigger a.contains(p), b.contains(p)] a.contains(p) <==> b.contains(p),
    ensures
        a == b,
    decreases a.len(),
{
    if a.len() == 0 {
        if b.len() != 0 {
            assert(b.contains(b[0]));
            assert(a.contains(b[0]));
        }
        assert(a =~= b);
    } else {
        assert(a.contains(a[0]));
        assert(b.contains(a[0]));
        let j = choose|j: int| 0 <= j < b.len() && b[j] == a[0];
        assert(b.contains(b[0]));
        assert(a.contains(b[0]));
        let i = choose|i: int| 0 <= i < a.len() && a[i] == b[0];
        assert(b[0].0 <= b[j].0);
        assert(a[0].0 <= a[i].0);
        assert(a[0] == b[0]);
        let at = a.drop_first();
        let bt = b.drop_first();
        assert(loc_wf(at)) by {
            assert forall|x: int, y: int| #![trigger at[x], at[y]]
                0 <= x < y < at.len() implies at[x].0 < at[y].0 by {
                assert(at[x] == a[x + 1]);
                assert(at[y] == a[y + 1]);
            }
            assert forall|x: int| 0 <= x < at.len() implies -0x8000_0000 <= (#[trigger] at[x]).1
                <= 0x7fff_ffff by {
                assert(at[x] == a[x + 1]);
            }
        }
        assert(loc_wf(bt)) by {
            assert forall|x: int, y: int| #![trigger bt[x], bt[y]]
                0 <= x < y < bt.len() implies bt[x].0 < bt[y].0 by {
                assert(bt[x] == b[x + 1]);
                assert(bt[y] == b[y + 1]);
            }
            assert forall|x: int| 0 <= x < bt.len() implies -0x8000_0000 <= (#[trigger] bt[x]).1
                <= 0x7fff_ffff by {
                assert(bt[x] == b[x + 1]);
            }
        }
        assert forall|p: (u32, i64)| #![trigger at.contains(p), bt.contains(p)]
            at.contains(p) <==> bt.contains(p) by {
            if at.contains(p) {
                let k = choose|k: int| 0 <= k < at.len() && at[k] == p;
                assert(a[k + 1] == p);
                assert(a.contains(p));
                assert(b.contains(p));
                let m = choose|m: int| 0 <= m < b.len() && b[m] == p;
                assert(p.0 == a[k + 1].0);
                assert(a[0].0 < p.0);
                if m == 0 {
                    assert(b[0] == p);
                } else {
                    assert(bt[m - 1] == p);
                }
            }
            if bt.contains(p) {
                let k = choose|k: int| 0 <= k < bt.len() && bt[k] == p;
                assert(b[k + 1] == p);
                assert(b.contains(p));
                assert(a.contains(p));
                let m = choose|m: int| 0 <= m < a.len() && a[m] == p;
                assert(b[0].0 < p.0);
                if m == 0 {
                    assert(a[0] == p);
                } else {
                    assert(at[m - 1] == p);
                }
            }
        }
        lemma_location_extensional(at, bt);
        assert(a.len() == b.len());
        assert forall|k: int| 0 <= k < a.len() implies a[k] == b[k] by {
            if k > 0 {
                assert(at[k - 1] == a[k]);
                assert(bt[k - 1] == b[k]);
            }
        }
        assert(a =~= b);
    }
}

} // verus!
