//! The in-memory search index: parents in insertion order, entries
//! partitioned into mass bins, tolerance queries and parent-range queries.

use crate::sort::{
    bin_index_of, in_window, sort_leq, sorted_by_key, sorted_by_mass, window_hi, window_lo,
    IndexSortable, MassType, SortType, Tolerance, MASS_SCALE,
};
use vstd::prelude::*;

verus! {

/// A half-open range `[start, end)` of parent positions, as produced by a
/// parent-mass lookup and consumed as a filter by entry search.
#[derive(Debug, Clone, Copy, PartialEq, Eq, Structural)]
pub struct Interval {
    pub start: usize,
    pub end: usize,
}

impl Interval {
    /// Whether position `i` falls inside the half-open range.
    pub open spec fn contains_spec(self, i: int) -> bool {
        self.start <= i < self.end
    }

    /// An empty range.
    pub fn empty() -> (r: Self)
        ensures
            r.start == 0 && r.end == 0,
    {
        Interval { start: 0, end: 0 }
    }

    /// Whether position `i` falls inside the half-open range.
    pub fn contains(&self, i: usize) -> (r: bool)
        ensures
            r == self.contains_spec(i as int),
    {
        self.start <= i && i < self.end
    }
}

/// Whether an entry is accepted by a query: its mass lies in the tolerance
/// window around `m`, and, if a parent interval is given, its owning parent's
/// position falls inside that interval.
pub open spec fn entry_matches<T: IndexSortable>(
    e: T,
    m: MassType,
    t: Tolerance,
    iv: Option<Interval>,
) -> bool {
    &&& in_window(e.mass_spec() as int, m as int, t)
    &&& match iv {
        Some(range) => range.contains_spec(e.parent_id_spec() as int),
        None => true,
    }
}

/// The search index over entry records of type `T` owned by parent records
/// of type `P`: all parents in one list, all entries partitioned by mass bin.
#[derive(Debug, Clone, PartialEq, Eq)]
pub struct SearchIndex<T, P> {
    /// Entry records, one list per mass bin; the bin of an entry is
    /// `floor(mass_da * bins_per_dalton)`.
    pub bins: Vec<Vec<T>>,
    /// Parent records in insertion order, until a sort reorders them by mass.
    pub parents: Vec<P>,
    /// The binning resolution: discrete bins per dalton of mass.
    pub bins_per_dalton: u32,
    /// The largest entry mass the index was built to accommodate.
    pub max_item_mass: MassType,
}

impl<T: IndexSortable + Copy, P: IndexSortable> SearchIndex<T, P> {
    /// How many bins this index keeps: one per bin index up to the bin of the
    /// largest accommodated mass.
    pub open spec fn total_bins_spec(self) -> int {
        bin_index_of(self.max_item_mass as int, self.bins_per_dalton) + 1
    }

    /// The entry lists of all bins, in bin order.
    pub open spec fn entry_seqs(self) -> Seq<Seq<T>> {
        self.bins@.map_values(|bin: Vec<T>| bin@)
    }

    /// Every entry of the index, bins concatenated in bin order.
    pub open spec fn all_entries(self) -> Seq<T> {
        self.entry_seqs().flatten()
    }

    /// Total number of entries across all bins.
    pub open spec fn total_entries(self) -> int {
        self.all_entries().len() as int
    }

    /// Structural soundness: the bin list covers exactly the mass envelope,
    /// every entry sits in the bin its mass derives, and the entry count is
    /// representable.
    pub open spec fn wf(self) -> bool {
        &&& self.bins@.len() == self.total_bins_spec()
        &&& forall|b: int, k: int|
            0 <= b < self.bins@.len() && 0 <= k < self.bins@[b]@.len() ==> bin_index_of(
                (#[trigger] self.bins@[b]@[k]).mass_spec() as int,
                self.bins_per_dalton,
            ) == b
        &&& self.total_entries() <= usize::MAX
    }

    /// Entries are ordered by the given key inside every bin.
    pub open spec fn entries_sorted(self, mode: SortType) -> bool {
        forall|b: int|
            0 <= b < self.bins@.len() ==> sorted_by_key(#[trigger] self.bins@[b]@, mode)
    }

    /// Parents are ordered by mass, as parent-range lookups require.
    pub open spec fn parents_sorted(self) -> bool {
        sorted_by_mass(self.parents@)
    }

    /// Builds an index that accommodates entry masses up to `max_item_mass`
    /// at `bins_per_dalton` bins per dalton, with no parents and no entries.
    pub fn empty(bins_per_dalton: u32, max_item_mass: MassType) -> (r: Self)
        requires
            bin_index_of(max_item_mass as int, bins_per_dalton) + 1 <= usize::MAX,
        ensures
            r.wf(),
            r.bins_per_dalton == bins_per_dalton,
            r.max_item_mass == max_item_mass,
            r.parents@.len() == 0,
            r.total_entries() == 0,
            forall|b: int| 0 <= b < r.bins@.len() ==> (#[trigger] r.bins@[b]@).len() == 0,
    {
        proof {
            vstd::arithmetic::mul::lemma_mul_upper_bound(
                max_item_mass as int,
                u64::MAX as int,
                bins_per_dalton as int,
                u32::MAX as int,
            );
        }
        let nbins_wide: u128 = (max_item_mass as u128 * bins_per_dalton as u128) / (
        MASS_SCALE as u128);
        assert(nbins_wide == bin_index_of(max_item_mass as int, bins_per_dalton));
        assert(nbins_wide + 1 <= usize::MAX);
        let nbins: usize = (nbins_wide as usize) + 1;
        let mut bins: Vec<Vec<T>> = Vec::new();
        let mut b: usize = 0;
        while b < nbins
            invariant
                b <= nbins,
                bins@.len() == b,
                forall|k: int| 0 <= k < b ==> (#[trigger] bins@[k]@).len() == 0,
            decreases nbins - b,
        {
            bins.push(Vec::new());
            b = b + 1;
        }
        let r = SearchIndex { bins, parents: Vec::new(), bins_per_dalton, max_item_mass };
        proof {
            lemma_flatten_all_empty(r.entry_seqs());
        }
        r
    }

    /// Appends a parent record; its position in the parent list is the
    /// parent's index for range-interval purposes.
    pub fn add_parent(&mut self, parent: P)
        ensures
            final(self).parents@ == old(self).parents@.push(parent),
            final(self).bins == old(self).bins,
            final(self).bins_per_dalton == old(self).bins_per_dalton,
            final(self).max_item_mass == old(self).max_item_mass,
    {
        self.parents.push(parent);
    }

    /// Appends an entry to the bin its mass derives.  Does not sort: the
    /// touched bin's ordering is no longer guaranteed.  Entries whose mass
    /// falls outside the index's envelope are a caller error and are left out
    /// by precondition.
    pub fn add(&mut self, entry: T)
        requires
            old(self).wf(),
            bin_index_of(entry.mass_spec() as int, old(self).bins_per_dalton) < old(
                self,
            ).bins@.len(),
            old(self).total_entries() + 1 <= usize::MAX,
        ensures
            final(self).wf(),
            final(self).parents == old(self).parents,
            final(self).bins_per_dalton == old(self).bins_per_dalton,
            final(self).max_item_mass == old(self).max_item_mass,
            final(self).bins@.len() == old(self).bins@.len(),
            final(self).bins@[bin_index_of(entry.mass_spec() as int, old(self).bins_per_dalton)]@
                == old(self).bins@[bin_index_of(
                entry.mass_spec() as int,
                old(self).bins_per_dalton,
            )]@.push(entry),
            forall|k: int|
                0 <= k < final(self).bins@.len() && k != bin_index_of(
                    entry.mass_spec() as int,
                    old(self).bins_per_dalton,
                ) ==> #[trigger] final(self).bins@[k] == old(self).bins@[k],
            final(self).total_entries() == old(self).total_entries() + 1,
    {
        let mass = entry.mass();
        proof {
            vstd::arithmetic::mul::lemma_mul_upper_bound(
                mass as int,
                u64::MAX as int,
                self.bins_per_dalton as int,
                u32::MAX as int,
            );
        }
        let nb = self.bins.len();
        let b_wide: u128 = (mass as u128 * self.bins_per_dalton as u128) / (MASS_SCALE as u128);
        assert(b_wide == bin_index_of(entry.mass_spec() as int, self.bins_per_dalton));
        assert(b_wide < nb as u128);
        let b: usize = b_wide as usize;
        self.bins[b].push(entry);
        proof {
            let bi = b as int;
            assert(self.entry_seqs() =~= old(self).entry_seqs().update(
                bi,
                old(self).entry_seqs()[bi].push(entry),
            ));
            lemma_flatten_update_len(old(self).entry_seqs(), bi, old(
                self,
            ).entry_seqs()[bi].push(entry));
        }
    }

    /// Total entry count across all bins.
    pub fn num_entries(&self) -> (r: usize)
        requires
            self.wf(),
        ensures
            r == self.total_entries(),
    {
        let mut total: usize = 0;
        let mut b: usize = 0;
        let n = self.bins.len();
        proof {
            assert(self.entry_seqs().subrange(0, 0) =~= Seq::<Seq<T>>::empty());
            lemma_flatten_all_empty(Seq::<Seq<T>>::empty());
        }
        while b < n
            invariant
                b <= n,
                n == self.bins@.len(),
                self.wf(),
                total == self.entry_seqs().subrange(0, b as int).flatten().len(),
                total <= self.total_entries(),
            decreases n - b,
        {
            proof {
                let pre = self.entry_seqs().subrange(0, b as int);
                let pre1 = self.entry_seqs().subrange(0, b as int + 1);
                assert(pre1.drop_last() =~= pre);
                lemma_flatten_snoc(pre1);
                lemma_flatten_prefix_len(self.entry_seqs(), b as int + 1);
            }
            total = total + self.bins[b].len();
            b = b + 1;
        }
        proof {
            assert(self.entry_seqs().subrange(0, n as int) =~= self.entry_seqs());
        }
        total
    }

    /// Answers a tolerance query: every entry whose mass lies within
    /// `error_tolerance` of `mass` — wherever its bin is, including a window
    /// that spans a bin boundary — and, when a parent interval is given,
    /// whose parent position falls inside it, collected eagerly in bin
    /// order.  The index must be mass-sorted first: searching an unsorted
    /// index is a caller error, which this precondition makes
    /// unrepresentable.
    pub fn search(
        &self,
        mass: MassType,
        error_tolerance: Tolerance,
        parent_interval: Option<Interval>,
    ) -> (r: Vec<T>)
        requires
            self.wf(),
            self.entries_sorted(SortType::ByMass),
        ensures
            r@ == self.all_entries().filter(query_pred(mass, error_tolerance, parent_interval)),
            forall|e: T|
                #[trigger] r@.contains(e) <==> (self.all_entries().contains(e) && entry_matches(
                    e,
                    mass,
                    error_tolerance,
                    parent_interval,
                )),
    {
        broadcast use vstd::seq_lib::group_filter_ensures;

        let ghost pred = query_pred::<T>(mass, error_tolerance, parent_interval);
        let (lo, hi) = crate::sort::tolerance_window(mass, error_tolerance);
        proof {
            vstd::arithmetic::mul::lemma_mul_upper_bound(
                lo as int,
                u64::MAX as int,
                self.bins_per_dalton as int,
                u32::MAX as int,
            );
            vstd::arithmetic::mul::lemma_mul_upper_bound(
                hi as int,
                u64::MAX as int,
                self.bins_per_dalton as int,
                u32::MAX as int,
            );
        }
        let lob: u128 = (lo as u128 * self.bins_per_dalton as u128) / (MASS_SCALE as u128);
        let hib: u128 = (hi as u128 * self.bins_per_dalton as u128) / (MASS_SCALE as u128);
        assert(lob == bin_index_of(lo as int, self.bins_per_dalton));
        assert(hib == bin_index_of(hi as int, self.bins_per_dalton));
        let mut out: Vec<T> = Vec::new();
        let n = self.bins.len();
        let mut b: usize = 0;
        proof {
            assert(self.entry_seqs().subrange(0, 0) =~= Seq::<Seq<T>>::empty());
            lemma_flatten_all_empty(Seq::<Seq<T>>::empty());
            lemma_filter_none(Seq::<T>::empty(), pred);
        }
        while b < n
            invariant
                b <= n,
                n == self.bins@.len(),
                self.wf(),
                self.entries_sorted(SortType::ByMass),
                lo == window_lo(mass as int, error_tolerance),
                forall|w: u64|
                    in_window(w as int, mass as int, error_tolerance) <==> (lo <= w && w <= hi),
                lob == bin_index_of(lo as int, self.bins_per_dalton),
                hib == bin_index_of(hi as int, self.bins_per_dalton),
                hi as int == if window_hi(mass as int, error_tolerance) <= u64::MAX {
                    window_hi(mass as int, error_tolerance)
                } else {
                    u64::MAX as int
                },
                pred == query_pred::<T>(mass, error_tolerance, parent_interval),
                out@ == self.entry_seqs().subrange(0, b as int).flatten().filter(pred),
            decreases n - b,
        {
            let ghost pre_flat = self.entry_seqs().subrange(0, b as int).flatten();
            let in_range = (b as u128) >= lob && (b as u128) <= hib;
            if in_range {
                scan_bin(&self.bins[b], lo, hi, mass, error_tolerance, parent_interval, &mut out);
            } else {
                proof {
                    assert forall|j: int| 0 <= j < self.bins@[b as int]@.len() implies !pred(
                        #[trigger] self.bins@[b as int]@[j],
                    ) by {
                        let e = self.bins@[b as int]@[j];
                        assert(bin_index_of(e.mass_spec() as int, self.bins_per_dalton)
                            == b as int);
                        if (b as u128) < lob {
                            if lo <= e.mass_spec() {
                                crate::sort::lemma_bin_monotonic(
                                    lo as int,
                                    e.mass_spec() as int,
                                    self.bins_per_dalton,
                                );
                            }
                            assert(e.mass_spec() < lo);
                        } else {
                            if e.mass_spec() <= hi {
                                crate::sort::lemma_bin_monotonic(
                                    e.mass_spec() as int,
                                    hi as int,
                                    self.bins_per_dalton,
                                );
                            }
                            assert(hi < e.mass_spec());
                        }
                        assert(!in_window(e.mass_spec() as int, mass as int, error_tolerance));
                    }
                    lemma_filter_none(self.bins@[b as int]@, pred);
                }
            }
            proof {
                let pre1 = self.entry_seqs().subrange(0, b as int + 1);
                assert(pre1.drop_last() =~= self.entry_seqs().subrange(0, b as int));
                assert(pre1.last() == self.bins@[b as int]@);
                lemma_flatten_snoc(pre1);
                assert(out@ =~= pre1.flatten().filter(pred));
            }
            b = b + 1;
        }
        proof {
            assert(self.entry_seqs().subrange(0, n as int) =~= self.entry_seqs());
            assert forall|e: T| #[trigger] out@.contains(e) <==> (self.all_entries().contains(e)
                && entry_matches(e, mass, error_tolerance, parent_interval)) by {
                let all = self.all_entries();
                if out@.contains(e) {
                    all.lemma_filter_contains_rev(pred, e);
                    let i = choose|i: int| 0 <= i < out@.len() && out@[i] == e;
                    all.lemma_filter_pred(pred, i);
                }
                if all.contains(e) && pred(e) {
                    let i = choose|i: int| 0 <= i < all.len() && all[i] == e;
                    all.lemma_filter_contains(pred, i);
                }
            }
        }
        out
    }

    /// Binary search over the mass-sorted parent list for the half-open
    /// range of parent positions whose mass matches the tolerance window:
    /// exactly the positions with mass at least the window's lower edge and
    /// at most its upper edge.
    pub fn parents_for(&self, mass: MassType, error_tolerance: Tolerance) -> (r: Interval)
        requires
            self.parents_sorted(),
        ensures
            r.start <= r.end <= self.parents@.len(),
            r.start == count_lt_mass(self.parents@, window_lo(mass as int, error_tolerance)),
            r.end == count_leq_mass(self.parents@, window_hi(mass as int, error_tolerance)),
            forall|i: int|
                0 <= i < self.parents@.len() ==> (r.start <= i < r.end <==> in_window(
                    (#[trigger] self.parents@[i]).mass_spec() as int,
                    mass as int,
                    error_tolerance,
                )),
    {
        parents_interval_lookup(&self.parents, mass, error_tolerance)
    }

    /// The union interval for a whole mass range: from the start of the
    /// matching interval at `low` to the end of the matching interval at
    /// `high`.
    pub fn parents_for_range(
        &self,
        low: MassType,
        high: MassType,
        error_tolerance: Tolerance,
    ) -> (r: Interval)
        requires
            self.parents_sorted(),
        ensures
            r.start == count_lt_mass(self.parents@, window_lo(low as int, error_tolerance)),
            r.end == count_leq_mass(self.parents@, window_hi(high as int, error_tolerance)),
            r.start <= self.parents@.len(),
            r.end <= self.parents@.len(),
            low <= high ==> r.start <= r.end,
    {
        let a = self.parents_for(low, error_tolerance);
        let z = self.parents_for(high, error_tolerance);
        proof {
            if low <= high {
                lemma_parents_for_range_superset(self.parents@, low, low, high, error_tolerance);
            }
        }
        Interval { start: a.start, end: z.end }
    }

    /// Sorts the entries inside every bin by the given key, and the parent
    /// list by mass.  Sorting reorders only: every record is kept, and
    /// sorting an already-sorted index changes nothing, so a second sort
    /// leaves exactly the ordering the first one produced.
    pub fn sort(&mut self, mode: SortType)
        requires
            old(self).wf(),
        ensures
            final(self).wf(),
            final(self).bins_per_dalton == old(self).bins_per_dalton,
            final(self).max_item_mass == old(self).max_item_mass,
            final(self).bins@.len() == old(self).bins@.len(),
            final(self).entries_sorted(mode),
            final(self).parents_sorted(),
            forall|b: int|
                0 <= b < final(self).bins@.len() ==> (#[trigger] final(self).bins@[b]@).to_multiset()
                    == old(self).bins@[b]@.to_multiset(),
            final(self).parents@.to_multiset() == old(self).parents@.to_multiset(),
            final(self).parents@.len() == old(self).parents@.len(),
            final(self).total_entries() == old(self).total_entries(),
            old(self).entries_sorted(mode) && old(self).parents_sorted() ==> (final(self).parents@
                == old(self).parents@ && forall|b: int|
                0 <= b < final(self).bins@.len() ==> #[trigger] final(self).bins@[b]@ == old(
                    self,
                ).bins@[b]@),
    {
        let n = self.bins.len();
        let mut b: usize = 0;
        while b < n
            invariant
                b <= n,
                n == self.bins@.len() == old(self).bins@.len(),
                self.parents == old(self).parents,
                self.bins_per_dalton == old(self).bins_per_dalton,
                self.max_item_mass == old(self).max_item_mass,
                forall|k: int|
                    b <= k < n ==> #[trigger] self.bins@[k] == old(self).bins@[k],
                forall|k: int|
                    0 <= k < b ==> sorted_by_key(#[trigger] self.bins@[k]@, mode),
                forall|k: int|
                    0 <= k < b ==> (#[trigger] self.bins@[k]@).to_multiset() == old(
                        self,
                    ).bins@[k]@.to_multiset(),
                forall|k: int|
                    0 <= k < b ==> (#[trigger] self.bins@[k]@).len() == old(self).bins@[k]@.len(),
                old(self).entries_sorted(mode) ==> forall|k: int|
                    0 <= k < n ==> #[trigger] self.bins@[k]@ == old(self).bins@[k]@,
            decreases n - b,
        {
            let ghost pre = *self;
            let bin = &mut self.bins[b];
            crate::sort::sort_records(bin, mode);
            proof {
                if old(self).entries_sorted(mode) {
                    assert(sorted_by_key(old(self).bins@[b as int]@, mode));
                }
            }
            b = b + 1;
        }
        crate::sort::sort_records(&mut self.parents, SortType::ByMass);
        proof {
            broadcast use vstd::seq_lib::group_to_multiset_ensures;

            let ghost fin = *self;
            assert forall|k: int| 0 <= k < n implies (#[trigger] fin.bins@[k]@).len() == old(
                self,
            ).bins@[k]@.len() by {
                assert(fin.bins@[k]@.to_multiset() == old(self).bins@[k]@.to_multiset());
            }
            lemma_multiset_len_eq_bins(*old(self), *self);
            assert forall|bb: int, k: int|
                0 <= bb < fin.bins@.len() && 0 <= k < fin.bins@[bb]@.len() implies bin_index_of(
                (#[trigger] fin.bins@[bb]@[k]).mass_spec() as int,
                fin.bins_per_dalton,
            ) == bb by {
                let e = fin.bins@[bb]@[k];
                assert(fin.bins@[bb]@.to_multiset().count(e) > 0);
                assert(old(self).bins@[bb]@.contains(e));
            }
        }
    }
}

/// The accept test of a query, as a single predicate value shared by the
/// contracts of [`SearchIndex::search`] and its helpers.
pub open spec fn query_pred<T: IndexSortable>(
    m: MassType,
    t: Tolerance,
    iv: Option<Interval>,
) -> spec_fn(T) -> bool {
    |e: T| entry_matches(e, m, t, iv)
}

/// How many records of `parents` have a mass strictly below `x`.
pub open spec fn count_lt_mass<P: IndexSortable>(parents: Seq<P>, x: int) -> int {
    parents.filter(|p: P| (p.mass_spec() as int) < x).len() as int
}

/// How many records of `parents` have a mass of at most `x`.
pub open spec fn count_leq_mass<P: IndexSortable>(parents: Seq<P>, x: int) -> int {
    parents.filter(|p: P| (p.mass_spec() as int) <= x).len() as int
}

/// First position whose record's mass is at least `x`, by binary search.
fn lower_bound_mass<T: IndexSortable>(v: &Vec<T>, x: u64) -> (i: usize)
    requires
        sorted_by_mass(v@),
    ensures
        i <= v@.len(),
        forall|k: int| 0 <= k < i ==> (#[trigger] v@[k]).mass_spec() < x,
        forall|k: int| i <= k < v@.len() ==> x <= (#[trigger] v@[k]).mass_spec(),
{
    let mut lo: usize = 0;
    let mut hi: usize = v.len();
    while lo < hi
        invariant
            lo <= hi <= v@.len(),
            sorted_by_mass(v@),
            forall|k: int| 0 <= k < lo ==> (#[trigger] v@[k]).mass_spec() < x,
            forall|k: int| hi <= k < v@.len() ==> x <= (#[trigger] v@[k]).mass_spec(),
        decreases hi - lo,
    {
        let mid = lo + (hi - lo) / 2;
        if v[mid].mass() < x {
            proof {
                assert forall|k: int| 0 <= k < mid + 1 implies (#[trigger] v@[k]).mass_spec()
                    < x by {
                    if k < mid {
                        assert(sort_leq(v@[k], v@[mid as int], SortType::ByMass));
                    }
                }
            }
            lo = mid + 1;
        } else {
            proof {
                assert forall|k: int| mid <= k < v@.len() implies x <= (
                #[trigger] v@[k]).mass_spec() by {
                    if k > mid {
                        assert(sort_leq(v@[mid as int], v@[k], SortType::ByMass));
                    }
                }
            }
            hi = mid;
        }
    }
    lo
}

/// First position whose record's mass exceeds `x`, by binary search.
fn upper_bound_mass<T: IndexSortable>(v: &Vec<T>, x: u64) -> (i: usize)
    requires
        sorted_by_mass(v@),
    ensures
        i <= v@.len(),
        forall|k: int| 0 <= k < i ==> (#[trigger] v@[k]).mass_spec() <= x,
        forall|k: int| i <= k < v@.len() ==> x < (#[trigger] v@[k]).mass_spec(),
{
    let mut lo: usize = 0;
    let mut hi: usize = v.len();
    while lo < hi
        invariant
            lo <= hi <= v@.len(),
            sorted_by_mass(v@),
            forall|k: int| 0 <= k < lo ==> (#[trigger] v@[k]).mass_spec() <= x,
            forall|k: int| hi <= k < v@.len() ==> x < (#[trigger] v@[k]).mass_spec(),
        decreases hi - lo,
    {
        let mid = lo + (hi - lo) / 2;
        if v[mid].mass() <= x {
            proof {
                assert forall|k: int| 0 <= k < mid + 1 implies (#[trigger] v@[k]).mass_spec()
                    <= x by {
                    if k < mid {
                        assert(sort_leq(v@[k], v@[mid as int], SortType::ByMass));
                    }
                }
            }
            lo = mid + 1;
        } else {
            proof {
                assert forall|k: int| mid <= k < v@.len() implies x < (
                #[trigger] v@[k]).mass_spec() by {
                    if k > mid {
                        assert(sort_leq(v@[mid as int], v@[k], SortType::ByMass));
                    }
                }
            }
            hi = mid;
        }
    }
    lo
}

/// Nothing passes a filter whose predicate fails on every element.
pub(crate) proof fn lemma_filter_none<T>(s: Seq<T>, pred: spec_fn(T) -> bool)
    requires
        forall|k: int| 0 <= k < s.len() ==> !pred(#[trigger] s[k]),
    ensures
        s.filter(pred) == Seq::<T>::empty(),
    decreases s.len(),
{
    reveal(Seq::filter);
    if s.len() > 0 {
        lemma_filter_none(s.drop_last(), pred);
    }
}

/// A filter whose predicate holds exactly on the first `i` elements keeps
/// exactly those `i` elements.
proof fn lemma_filter_prefix_count<T>(s: Seq<T>, pred: spec_fn(T) -> bool, i: int)
    requires
        0 <= i <= s.len(),
        forall|k: int| 0 <= k < i ==> pred(#[trigger] s[k]),
        forall|k: int| i <= k < s.len() ==> !pred(#[trigger] s[k]),
    ensures
        s.filter(pred).len() == i,
    decreases s.len(),
{
    reveal(Seq::filter);
    if s.len() > 0 {
        if i == s.len() {
            lemma_filter_prefix_count(s.drop_last(), pred, i - 1);
        } else {
            lemma_filter_prefix_count(s.drop_last(), pred, i);
        }
    }
}

/// Weakening the predicate pointwise can only let the filter keep more.
proof fn lemma_filter_len_monotone<T>(s: Seq<T>, p1: spec_fn(T) -> bool, p2: spec_fn(T) -> bool)
    requires
        forall|k: int| 0 <= k < s.len() && p1(#[trigger] s[k]) ==> p2(s[k]),
    ensures
        s.filter(p1).len() <= s.filter(p2).len(),
    decreases s.len(),
{
    reveal(Seq::filter);
    if s.len() > 0 {
        lemma_filter_len_monotone(s.drop_last(), p1, p2);
    }
}

/// Binary search over a mass-sorted parent list for the half-open range of
/// positions whose mass matches the tolerance window of `mass`.
pub(crate) fn parents_interval_lookup<P: IndexSortable>(
    parents: &Vec<P>,
    mass: MassType,
    error_tolerance: Tolerance,
) -> (r: Interval)
    requires
        sorted_by_mass(parents@),
    ensures
        r.start <= r.end <= parents@.len(),
        r.start == count_lt_mass(parents@, window_lo(mass as int, error_tolerance)),
        r.end == count_leq_mass(parents@, window_hi(mass as int, error_tolerance)),
        forall|i: int|
            0 <= i < parents@.len() ==> (r.start <= i < r.end <==> in_window(
                (#[trigger] parents@[i]).mass_spec() as int,
                mass as int,
                error_tolerance,
            )),
{
    let (lo, hi) = crate::sort::tolerance_window(mass, error_tolerance);
    let start = lower_bound_mass(parents, lo);
    let end = upper_bound_mass(parents, hi);
    proof {
        let ps = parents@;
        let wlo = window_lo(mass as int, error_tolerance);
        let whi = window_hi(mass as int, error_tolerance);
        assert forall|k: int| 0 <= k < ps.len() implies ((#[trigger] ps[k].mass_spec() as int)
            < wlo <==> k < start) && ((ps[k].mass_spec() as int) <= whi <==> k < end) by {}
        lemma_filter_prefix_count(ps, |p: P| (p.mass_spec() as int) < wlo, start as int);
        lemma_filter_prefix_count(ps, |p: P| (p.mass_spec() as int) <= whi, end as int);
        if end < start {
            assert(ps[end as int].mass_spec() < lo);
            assert(hi < ps[end as int].mass_spec());
            crate::sort::lemma_delta_nonneg(mass as int, error_tolerance);
            assert(in_window(mass as int, mass as int, error_tolerance));
            assert(false);
        }
    }
    Interval { start, end }
}

/// Parent-range monotonicity: for `low <= mid <= high`, the interval that a
/// range lookup over `[low, high]` describes — from the first position at or
/// above `low`'s window to the last position within `high`'s window —
/// contains, as an interval of positions, the one a point lookup at `mid`
/// describes: its start is no later and its end no earlier.
pub proof fn lemma_parents_for_range_superset<P: IndexSortable>(
    parents: Seq<P>,
    low: MassType,
    mid: MassType,
    high: MassType,
    t: Tolerance,
)
    requires
        low <= mid <= high,
    ensures
        count_lt_mass(parents, window_lo(low as int, t)) <= count_lt_mass(
            parents,
            window_lo(mid as int, t),
        ),
        count_leq_mass(parents, window_hi(mid as int, t)) <= count_leq_mass(
            parents,
            window_hi(high as int, t),
        ),
{
    crate::sort::lemma_window_monotonic(low as int, mid as int, t);
    crate::sort::lemma_window_monotonic(mid as int, high as int, t);
    lemma_filter_len_monotone(
        parents,
        |p: P| (p.mass_spec() as int) < window_lo(low as int, t),
        |p: P| (p.mass_spec() as int) < window_lo(mid as int, t),
    );
    lemma_filter_len_monotone(
        parents,
        |p: P| (p.mass_spec() as int) <= window_hi(mid as int, t),
        |p: P| (p.mass_spec() as int) <= window_hi(high as int, t),
    );
}

/// Scans one mass-sorted bin for the entries a query accepts, appending them
/// in bin order: a bounded binary search to the first entry at or above the
/// window, then a forward scan while entries stay under its upper edge.
fn scan_bin<T: IndexSortable + Copy>(
    bin: &Vec<T>,
    lo: u64,
    hi: u64,
    m: MassType,
    t: Tolerance,
    iv: Option<Interval>,
    out: &mut Vec<T>,
)
    requires
        sorted_by_mass(bin@),
        forall|w: u64| in_window(w as int, m as int, t) <==> (lo <= w && w <= hi),
    ensures
        final(out)@ == old(out)@ + bin@.filter(query_pred(m, t, iv)),
{
    broadcast use vstd::seq_lib::group_filter_ensures;

    let ghost pred = query_pred::<T>(m, t, iv);
    let ghost base = out@;
    let s = lower_bound_mass(bin, lo);
    let n = bin.len();
    let mut k = s;
    while k < n && bin[k].mass() <= hi
        invariant
            s <= k <= n,
            n == bin@.len(),
            sorted_by_mass(bin@),
            forall|w: u64| in_window(w as int, m as int, t) <==> (lo <= w && w <= hi),
            forall|j: int| s <= j < n ==> lo <= (#[trigger] bin@[j]).mass_spec(),
            pred == query_pred::<T>(m, t, iv),
            out@ == base + bin@.subrange(s as int, k as int).filter(pred),
        decreases n - k,
    {
        let e = bin[k];
        let keep = match iv {
            Some(r) => {
                let pid = e.parent_id();
                r.start <= pid && pid < r.end
            },
            None => true,
        };
        if keep {
            out.push(e);
        }
        proof {
            reveal(Seq::filter);
            let pre1 = bin@.subrange(s as int, k as int + 1);
            assert(pre1.drop_last() =~= bin@.subrange(s as int, k as int));
            assert(pre1.last() == bin@[k as int]);
            assert(in_window(bin@[k as int].mass_spec() as int, m as int, t));
            assert(pred(bin@[k as int]) == keep);
            assert(out@ =~= base + pre1.filter(pred));
        }
        k = k + 1;
    }
    proof {
        assert forall|j: int| k <= j < n implies !pred(#[trigger] bin@[j]) by {
            assert(k < n ==> hi < bin@[k as int].mass_spec());
            if j > k {
                assert(sort_leq(bin@[k as int], bin@[j], SortType::ByMass));
            }
            assert(hi < bin@[j].mass_spec());
            assert(!in_window(bin@[j].mass_spec() as int, m as int, t));
        }
        assert forall|j: int| 0 <= j < s implies !pred(#[trigger] bin@[j]) by {
            assert(bin@[j].mass_spec() < lo);
            assert(!in_window(bin@[j].mass_spec() as int, m as int, t));
        }
        lemma_filter_none(bin@.subrange(0, s as int), pred);
        lemma_filter_none(bin@.subrange(k as int, n as int), pred);
        assert(bin@ =~= (bin@.subrange(0, s as int) + bin@.subrange(s as int, k as int))
            + bin@.subrange(k as int, n as int));
        assert(bin@.filter(pred) =~= bin@.subrange(s as int, k as int).filter(pred));
    }
}

/// A flattening of empty sequences is empty.
pub proof fn lemma_flatten_all_empty<T>(ss: Seq<Seq<T>>)
    requires
        forall|k: int| 0 <= k < ss.len() ==> (#[trigger] ss[k]).len() == 0,
    ensures
        ss.flatten().len() == 0,
    decreases ss.len(),
{
    if ss.len() > 0 {
        lemma_flatten_all_empty(ss.drop_first());
    }
}

/// Flattening a sequence of sequences that ends in `last` appends `last`.
pub proof fn lemma_flatten_snoc<T>(ss: Seq<Seq<T>>)
    requires
        ss.len() > 0,
    ensures
        ss.flatten() == ss.drop_last().flatten() + ss.last(),
    decreases ss.len(),
{
    if ss.len() == 1 {
        assert(ss.drop_first() =~= Seq::<Seq<T>>::empty());
        assert(ss.drop_last() =~= Seq::<Seq<T>>::empty());
        assert(ss.flatten() =~= ss.first() + ss.drop_first().flatten());
        assert(ss.flatten() =~= ss.last());
        assert(ss.drop_last().flatten() + ss.last() =~= ss.last());
    } else {
        lemma_flatten_snoc(ss.drop_first());
        assert(ss.drop_first().drop_last() =~= ss.drop_last().drop_first());
        assert(ss.drop_last().flatten() == ss.drop_last().first() + ss.drop_last(
        ).drop_first().flatten());
        assert(ss.flatten() == ss.first() + ss.drop_first().flatten());
        assert(ss.flatten() =~= ss.drop_last().flatten() + ss.last());
    }
}

/// A prefix of the bin list never holds more entries than the whole.
pub proof fn lemma_flatten_prefix_len<T>(ss: Seq<Seq<T>>, k: int)
    requires
        0 <= k <= ss.len(),
    ensures
        ss.subrange(0, k).flatten().len() <= ss.flatten().len(),
    decreases ss.len() - k,
{
    if k == ss.len() {
        assert(ss.subrange(0, k) =~= ss);
    } else {
        let pre1 = ss.subrange(0, k + 1);
        assert(pre1.drop_last() =~= ss.subrange(0, k));
        lemma_flatten_snoc(pre1);
        lemma_flatten_prefix_len(ss, k + 1);
    }
}

/// Replacing one inner sequence changes the flattened length by the
/// difference of the two inner lengths.
pub proof fn lemma_flatten_update_len<T>(ss: Seq<Seq<T>>, i: int, s: Seq<T>)
    requires
        0 <= i < ss.len(),
    ensures
        ss.update(i, s).flatten().len() == ss.flatten().len() - ss[i].len() + s.len(),
    decreases ss.len(),
{
    let upd = ss.update(i, s);
    if i == 0 {
        assert(upd.drop_first() =~= ss.drop_first());
        assert(upd.flatten() == upd.first() + upd.drop_first().flatten());
        assert(ss.flatten() == ss.first() + ss.drop_first().flatten());
    } else {
        assert(upd.drop_first() =~= ss.drop_first().update(i - 1, s));
        lemma_flatten_update_len(ss.drop_first(), i - 1, s);
        assert(upd.flatten() == upd.first() + upd.drop_first().flatten());
        assert(ss.flatten() == ss.first() + ss.drop_first().flatten());
    }
}

/// Two indexes whose bins agree in length bin by bin hold the same number of
/// entries.
proof fn lemma_multiset_len_eq_bins<T: IndexSortable + Copy, P: IndexSortable>(
    a: SearchIndex<T, P>,
    b: SearchIndex<T, P>,
)
    requires
        a.bins@.len() == b.bins@.len(),
        forall|k: int| 0 <= k < a.bins@.len() ==> (#[trigger] a.bins@[k]@).len() == b.bins@[k]@.len(),
    ensures
        a.total_entries() == b.total_entries(),
{
    lemma_flatten_len_pointwise(a.entry_seqs(), b.entry_seqs());
}

/// Flattened lengths agree when the inner lengths agree pointwise.
pub proof fn lemma_flatten_len_pointwise<T>(x: Seq<Seq<T>>, y: Seq<Seq<T>>)
    requires
        x.len() == y.len(),
        forall|k: int| 0 <= k < x.len() ==> (#[trigger] x[k]).len() == y[k].len(),
    ensures
        x.flatten().len() == y.flatten().len(),
    decreases x.len(),
{
    if x.len() > 0 {
        assert(x.flatten() == x.first() + x.drop_first().flatten());
        assert(y.flatten() == y.first() + y.drop_first().flatten());
        assert(forall|k: int|
            0 <= k < x.drop_first().len() ==> (#[trigger] x.drop_first()[k]).len()
                == y.drop_first()[k].len());
        lemma_flatten_len_pointwise(x.drop_first(), y.drop_first());
    }
}

} // verus!
