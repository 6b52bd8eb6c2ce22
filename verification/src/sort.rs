//! The numeric model shared by every record the index can hold: fixed-point
//! masses, tolerance windows, mass bins, and the capability (expose a mass and
//! an owning-parent position) that entry and parent types implement to
//! participate in indexing, together with the in-bin sorting routine.

use vstd::arithmetic::div_mod::{
    lemma_div_by_multiple, lemma_div_is_ordered, lemma_hoist_over_denominator,
};
use vstd::arithmetic::mul::{lemma_mul_inequality, lemma_mul_upper_bound};
use vstd::prelude::*;

verus! {

/// A mass, as a fixed-point integer counted in millionths of a dalton.
pub type MassType = u64;

/// The position of a parent record in the index's parent list.
pub type ParentID = usize;

/// Number of fixed-point mass units in one dalton.
pub const MASS_SCALE: u64 = 1_000_000;

/// Which key the entries inside a bin are ordered by.
#[derive(Debug, Clone, Copy, PartialEq, Eq, Structural)]
pub enum SortType {
    ByMass,
    ByParentId,
}

/// A mass-matching tolerance: relative, in parts per million of the query
/// mass, or absolute, in fixed-point mass units.
#[allow(non_camel_case_types)]
#[derive(Debug, Clone, Copy, PartialEq, Eq, Structural)]
pub enum Tolerance {
    PPM(u32),
    Da(u64),
}

/// Half-width of the matching window around query mass `m`.
pub open spec fn tol_delta(m: int, t: Tolerance) -> int {
    match t {
        Tolerance::PPM(p) => m * p / (MASS_SCALE as int),
        Tolerance::Da(d) => d as int,
    }
}

/// Lower edge of the matching window `[m - delta, m + delta]`, clamped at zero
/// since masses are unsigned.
pub open spec fn window_lo(m: int, t: Tolerance) -> int {
    if m - tol_delta(m, t) >= 0 {
        m - tol_delta(m, t)
    } else {
        0
    }
}

/// Upper edge of the matching window `[m - delta, m + delta]`.
pub open spec fn window_hi(m: int, t: Tolerance) -> int {
    m + tol_delta(m, t)
}

/// Whether `mass` lies within tolerance `t` of query mass `m`; this is the
/// exact accept test `|mass - m| <= delta` over non-negative masses.
pub open spec fn in_window(mass: int, m: int, t: Tolerance) -> bool {
    window_lo(m, t) <= mass && mass <= window_hi(m, t)
}

/// The discrete mass bin that a mass falls into: `floor(mass_da * bins_per_dalton)`.
pub open spec fn bin_index_of(mass: int, bins_per_dalton: u32) -> int {
    mass * bins_per_dalton / (MASS_SCALE as int)
}

/// Computes the matching window of `m` under `t` as machine integers.  The
/// returned pair brackets exactly the representable masses that are within
/// tolerance: the upper edge saturates, which drops no representable mass.
pub fn tolerance_window(m: MassType, t: Tolerance) -> (r: (MassType, MassType))
    ensures
        r.0 == window_lo(m as int, t),
        r.1 == if window_hi(m as int, t) <= u64::MAX { window_hi(m as int, t) } else { u64::MAX as int },
        forall|mass: u64| in_window(mass as int, m as int, t) <==> (r.0 <= mass && mass <= r.1),
{
    proof {
        if let Tolerance::PPM(p) = t {
            lemma_mul_upper_bound(m as int, u64::MAX as int, p as int, u32::MAX as int);
        }
    }
    let delta: u128 = match t {
        Tolerance::PPM(p) => (m as u128 * p as u128) / (MASS_SCALE as u128),
        Tolerance::Da(d) => d as u128,
    };
    assert(delta == tol_delta(m as int, t));
    let lo: u64 = if delta >= m as u128 {
        0
    } else {
        m - (delta as u64)
    };
    let hi: u64 = if delta >= (u64::MAX - m) as u128 {
        u64::MAX
    } else {
        m + (delta as u64)
    };
    (lo, hi)
}

/// Mass bins are ordered as masses are: a smaller mass never lands in a
/// larger-numbered bin's right.
pub proof fn lemma_bin_monotonic(m1: int, m2: int, bins_per_dalton: u32)
    requires
        0 <= m1 <= m2,
    ensures
        bin_index_of(m1, bins_per_dalton) <= bin_index_of(m2, bins_per_dalton),
{
    lemma_mul_inequality(m1, m2, bins_per_dalton as int);
    lemma_div_is_ordered(m1 * bins_per_dalton, m2 * bins_per_dalton, MASS_SCALE as int);
}

/// The window half-width is never negative, so the query mass itself always
/// lies inside its own window.
pub proof fn lemma_delta_nonneg(m: int, t: Tolerance)
    requires
        m >= 0,
    ensures
        tol_delta(m, t) >= 0,
        window_lo(m, t) <= m <= window_hi(m, t),
{
    match t {
        Tolerance::Da(d) => {},
        Tolerance::PPM(p) => {
            vstd::arithmetic::mul::lemma_mul_nonnegative(m, p as int);
            lemma_div_is_ordered(0, m * p, MASS_SCALE as int);
        },
    }
}

/// Both edges of the tolerance window grow (weakly) with the query mass.
pub proof fn lemma_window_monotonic(m1: int, m2: int, t: Tolerance)
    requires
        0 <= m1 <= m2,
    ensures
        window_lo(m1, t) <= window_lo(m2, t),
        window_hi(m1, t) <= window_hi(m2, t),
{
    match t {
        Tolerance::Da(d) => {},
        Tolerance::PPM(p) => {
            let scale = MASS_SCALE as int;
            let d1 = m1 * p / scale;
            let d2 = m2 * p / scale;
            lemma_mul_inequality(m1, m2, p as int);
            lemma_div_is_ordered(m1 * p, m2 * p, scale);
            assert(window_hi(m1, t) <= window_hi(m2, t));
            if m1 - d1 > 0 {
                // a delta smaller than the mass forces the ppm rate under the
                // scale, and then the delta grows by at most the mass does
                if p as int >= scale {
                    lemma_mul_inequality(scale, p as int, m1);
                    assert(m1 * p == p * m1) by (nonlinear_arith);
                    assert(scale * m1 == m1 * scale) by (nonlinear_arith);
                    lemma_div_is_ordered(m1 * scale, m1 * p, scale);
                    lemma_div_by_multiple(m1, scale);
                    assert(false);
                }
                assert(m2 * p == m1 * p + (m2 - m1) * p) by (nonlinear_arith);
                lemma_mul_inequality(p as int, scale, m2 - m1);
                assert((m2 - m1) * p == p * (m2 - m1)) by (nonlinear_arith);
                assert((m2 - m1) * scale == scale * (m2 - m1)) by (nonlinear_arith);
                lemma_div_is_ordered(m1 * p + (m2 - m1) * p, m1 * p + (m2 - m1) * scale, scale);
                lemma_hoist_over_denominator(m1 * p, m2 - m1, MASS_SCALE as nat);
                assert(d2 <= d1 + (m2 - m1));
            }
        },
    }
}

/// The capability a record needs to live in the index: expose its mass and
/// the position of the parent it belongs to (for parents, a self-identifier).
pub trait IndexSortable: Sized {
    /// The record's mass, as seen by specifications.
    spec fn mass_spec(&self) -> MassType;

    /// The owning parent's position, as seen by specifications.
    spec fn parent_id_spec(&self) -> ParentID;

    /// The record's mass.
    fn mass(&self) -> (r: MassType)
        ensures
            r == self.mass_spec(),
    ;

    /// The position of the parent this record belongs to.
    fn parent_id(&self) -> (r: ParentID)
        ensures
            r == self.parent_id_spec(),
    ;
}

/// The ordering a sort mode imposes on two records.
pub open spec fn sort_leq<T: IndexSortable>(a: T, b: T, mode: SortType) -> bool {
    match mode {
        SortType::ByMass => a.mass_spec() <= b.mass_spec(),
        SortType::ByParentId => a.parent_id_spec() <= b.parent_id_spec(),
    }
}

/// Whether a sequence of records is (weakly) ordered by the mode's key.
pub open spec fn sorted_by_key<T: IndexSortable>(s: Seq<T>, mode: SortType) -> bool {
    forall|i: int, j: int| 0 <= i < j < s.len() ==> sort_leq(#[trigger] s[i], #[trigger] s[j], mode)
}

/// Whether a sequence of records is (weakly) ordered by mass.
pub open spec fn sorted_by_mass<T: IndexSortable>(s: Seq<T>) -> bool {
    sorted_by_key(s, SortType::ByMass)
}

fn sort_gt<T: IndexSortable>(a: &T, b: &T, mode: SortType) -> (r: bool)
    ensures
        r == !sort_leq(*a, *b, mode),
{
    match mode {
        SortType::ByMass => a.mass() > b.mass(),
        SortType::ByParentId => a.parent_id() > b.parent_id(),
    }
}

/// Whether the records are already (weakly) ordered by mass, as parent-range
/// lookups require; callers that load records from outside can test this
/// before querying.
pub fn is_sorted_by_mass<T: IndexSortable>(v: &Vec<T>) -> (r: bool)
    ensures
        r == sorted_by_mass(v@),
{
    let n = v.len();
    if n <= 1 {
        return true;
    }
    let mut i: usize = 1;
    while i < n
        invariant
            1 <= i <= n,
            n == v@.len(),
            forall|a: int, b: int|
                0 <= a < b < i ==> sort_leq(#[trigger] v@[a], #[trigger] v@[b], SortType::ByMass),
        decreases n - i,
    {
        if sort_gt(&v[i - 1], &v[i], SortType::ByMass) {
            return false;
        }
        proof {
            let vi = i as int;
            assert forall|a: int, b: int| 0 <= a < b < vi + 1 implies sort_leq(
                v@[a],
                v@[b],
                SortType::ByMass,
            ) by {
                if b == vi {
                    assert(sort_leq(v@[vi - 1], v@[vi], SortType::ByMass));
                    if a < vi - 1 {
                        assert(sort_leq(v@[a], v@[vi - 1], SortType::ByMass));
                    }
                }
            }
        }
        i = i + 1;
    }
    true
}

/// Stable insertion sort by the mode's key.  Reordering is the only effect:
/// the records themselves are kept, and a sequence that is already ordered
/// comes back unchanged, so sorting twice orders exactly as sorting once.
pub fn sort_records<T: IndexSortable>(v: &mut Vec<T>, mode: SortType)
    ensures
        final(v)@.len() == old(v)@.len(),
        final(v)@.to_multiset() == old(v)@.to_multiset(),
        sorted_by_key(final(v)@, mode),
        sorted_by_key(old(v)@, mode) ==> final(v)@ == old(v)@,
{
    broadcast use vstd::seq_lib::group_to_multiset_ensures;

    let ghost orig = v@;
    let n = v.len();
    if n <= 1 {
        return ;
    }
    let mut i: usize = 1;
    while i < n
        invariant
            1 <= i <= n,
            v@.len() == n,
            v@.to_multiset() == orig.to_multiset(),
            forall|a: int, b: int|
                0 <= a < b < i ==> sort_leq(#[trigger] v@[a], #[trigger] v@[b], mode),
            sorted_by_key(orig, mode) ==> v@ == orig,
        decreases n - i,
    {
        let mut p: usize = i;
        while p > 0 && sort_gt(&v[p - 1], &v[i], mode)
            invariant
                0 <= p <= i < n,
                v@.len() == n,
                forall|k: int| p <= k < i ==> !sort_leq(#[trigger] v@[k], v@[i as int], mode),
            decreases p,
        {
            p = p - 1;
        }
        let ghost before = v@;
        let ghost vi = i as int;
        let ghost pi = p as int;
        if p < i {
            let x = v.remove(i);
            v.insert(p, x);
            proof {
                let x0 = before[vi];
                assert(v@ =~= before.remove(vi).insert(pi, x0));
                vstd::seq_lib::to_multiset_remove(before, vi);
                vstd::seq_lib::to_multiset_insert(before.remove(vi), pi, x0);
                before.to_multiset_ensures();
                before.remove(vi).to_multiset_ensures();
                assert(before.contains(x0));
                assert(before.to_multiset().count(x0) > 0);
                assert(before.to_multiset().remove(x0).insert(x0) =~= before.to_multiset());
                assert(v@.to_multiset() == orig.to_multiset());
                if sorted_by_key(orig, mode) {
                    assert(!sort_leq(before[pi], before[vi], mode));
                    assert(sort_leq(before[pi], before[vi], mode));
                }
                assert(forall|k: int| 0 <= k < pi ==> v@[k] == before[k]);
                assert(v@[pi] == x0);
                assert(forall|k: int| pi < k <= vi ==> v@[k] == before[k - 1]);
                assert(forall|k: int| vi < k < n ==> v@[k] == before[k]);
                assert forall|a: int, b: int| 0 <= a < b < vi + 1 implies sort_leq(
                    v@[a],
                    v@[b],
                    mode,
                ) by {
                    if b < pi {
                        assert(sort_leq(before[a], before[b], mode));
                    } else if b == pi {
                        if a < pi - 1 {
                            assert(sort_leq(before[a], before[pi - 1], mode));
                        }
                        assert(sort_leq(before[pi - 1], x0, mode));
                    } else {
                        if a < pi {
                            assert(sort_leq(before[a], before[b - 1], mode));
                        } else if a == pi {
                            assert(!sort_leq(before[b - 1], x0, mode));
                        } else {
                            assert(sort_leq(before[a - 1], before[b - 1], mode));
                        }
                    }
                }
            }
        } else {
            proof {
                assert forall|a: int, b: int| 0 <= a < b < vi + 1 implies sort_leq(
                    v@[a],
                    v@[b],
                    mode,
                ) by {
                    if b == vi {
                        assert(sort_leq(v@[vi - 1], v@[vi], mode));
                        if a < vi - 1 {
                            assert(sort_leq(v@[a], v@[vi - 1], mode));
                        }
                    }
                }
            }
        }
        i = i + 1;
    }
}

} // verus!
