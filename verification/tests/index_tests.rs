use mass_fragment_index::fragment::{Fragment, FragmentSeries};
use mass_fragment_index::parent::Peptide;
use mass_fragment_index::sort::{tolerance_window, SortType};
use mass_fragment_index::{Interval, SearchIndex, Tolerance};

fn frag(mass: u64, parent_id: usize) -> Fragment {
    Fragment::new(mass, parent_id, FragmentSeries::b, 1)
}

fn pep(mass: u64, id: usize) -> Peptide {
    Peptide::new(mass, id, 0, 0, format!("PEP{}", id))
}

// One dalton is 1_000_000 fixed-point mass units.
const DA: u64 = 1_000_000;

#[test]
fn tolerance_window_formula() {
    // 10 ppm of 113.084064 Da: delta = floor(113_084_064 * 10 / 1_000_000) = 1130
    assert_eq!(tolerance_window(113_084_064, Tolerance::PPM(10)), (113_082_934, 113_085_194));
    // absolute tolerance of 0.002 Da
    assert_eq!(tolerance_window(5 * DA, Tolerance::Da(2_000)), (4_998_000, 5_002_000));
    // the lower edge clamps at zero
    assert_eq!(tolerance_window(1_000, Tolerance::Da(5_000)), (0, 6_000));
}

#[test]
fn search_within_tolerance_only() {
    let mut ix: SearchIndex<Fragment, Peptide> = SearchIndex::empty(1, 10 * DA);
    ix.add_parent(pep(2 * DA, 0));
    ix.add(frag(5 * DA - 1_200, 0));
    ix.add(frag(5 * DA - 900, 0));
    ix.add(frag(5 * DA + 1_000, 0));
    ix.add(frag(5 * DA + 1_001, 0));
    ix.sort(SortType::ByMass);
    let hits = ix.search(5 * DA, Tolerance::Da(1_000), None);
    let masses: Vec<u64> = hits.iter().map(|f| f.mass).collect();
    assert_eq!(masses, vec![5 * DA - 900, 5 * DA + 1_000]);
}

#[test]
fn search_spans_bin_boundary() {
    // bins are one dalton wide here; the window crosses from bin 0 into bin 1
    let mut ix: SearchIndex<Fragment, Peptide> = SearchIndex::empty(1, 10 * DA);
    ix.add(frag(DA - 300, 0));
    ix.add(frag(DA + 400, 1));
    ix.add(frag(3 * DA, 2));
    ix.sort(SortType::ByMass);
    let hits = ix.search(DA, Tolerance::Da(500), None);
    assert_eq!(hits.len(), 2);
    assert_eq!(hits[0].mass, DA - 300);
    assert_eq!(hits[1].mass, DA + 400);
}

#[test]
fn search_respects_parent_interval() {
    let mut ix: SearchIndex<Fragment, Peptide> = SearchIndex::empty(1, 10 * DA);
    ix.add(frag(4 * DA, 0));
    ix.add(frag(4 * DA + 10, 1));
    ix.add(frag(4 * DA + 20, 2));
    ix.sort(SortType::ByMass);
    let iv = Interval { start: 1, end: 2 };
    let hits = ix.search(4 * DA, Tolerance::Da(1_000), Some(iv));
    assert_eq!(hits.len(), 1);
    assert_eq!(hits[0].parent_id, 1);
}

#[test]
fn sort_is_idempotent() {
    let mut ix: SearchIndex<Fragment, Peptide> = SearchIndex::empty(2, 10 * DA);
    for (m, p) in [(3 * DA, 2), (DA, 0), (DA + 7, 1), (DA + 3, 4), (3 * DA - 5, 3)] {
        ix.add(frag(m, p));
    }
    ix.add_parent(pep(2 * DA, 1));
    ix.add_parent(pep(DA, 0));
    ix.sort(SortType::ByMass);
    let bins_once = ix.bins.clone();
    let parents_once = ix.parents.clone();
    ix.sort(SortType::ByMass);
    assert_eq!(ix.bins, bins_once);
    assert_eq!(ix.parents, parents_once);
}

#[test]
fn sort_by_parent_id_orders_within_bins() {
    let mut ix: SearchIndex<Fragment, Peptide> = SearchIndex::empty(1, 10 * DA);
    ix.add(frag(2 * DA + 1, 5));
    ix.add(frag(2 * DA + 2, 1));
    ix.add(frag(2 * DA + 3, 3));
    ix.sort(SortType::ByParentId);
    let ids: Vec<usize> = ix.bins[2].iter().map(|f| f.parent_id).collect();
    assert_eq!(ids, vec![1, 3, 5]);
}

#[test]
fn parents_for_finds_matching_range() {
    let mut ix: SearchIndex<Fragment, Peptide> = SearchIndex::empty(1, 10 * DA);
    ix.add_parent(pep(DA, 0));
    ix.add_parent(pep(2 * DA, 1));
    ix.add_parent(pep(2 * DA, 2));
    ix.add_parent(pep(3 * DA, 3));
    ix.sort(SortType::ByMass);
    let iv = ix.parents_for(2 * DA, Tolerance::Da(1_000));
    assert_eq!((iv.start, iv.end), (1, 3));
    let none = ix.parents_for(5 * DA, Tolerance::Da(1_000));
    assert_eq!(none.start, none.end);
}

#[test]
fn parents_for_range_covers_inner_lookups() {
    let mut ix: SearchIndex<Fragment, Peptide> = SearchIndex::empty(1, 20 * DA);
    for (i, m) in [DA, 2 * DA, 4 * DA, 6 * DA, 9 * DA, 12 * DA].iter().enumerate() {
        ix.add_parent(pep(*m, i));
    }
    ix.sort(SortType::ByMass);
    let low = 2 * DA;
    let high = 9 * DA;
    let range = ix.parents_for_range(low, high, Tolerance::PPM(10));
    for mid in [low, 4 * DA, 5 * DA, high] {
        let inner = ix.parents_for(mid, Tolerance::PPM(10));
        assert!(range.start <= inner.start);
        assert!(inner.end <= range.end);
    }
}

#[test]
fn num_entries_counts_all_bins() {
    let mut ix: SearchIndex<Fragment, Peptide> = SearchIndex::empty(1, 10 * DA);
    assert_eq!(ix.num_entries(), 0);
    ix.add(frag(DA, 0));
    ix.add(frag(5 * DA, 1));
    ix.add(frag(5 * DA + 1, 2));
    assert_eq!(ix.num_entries(), 3);
}

#[test]
fn peptide_new_sets_fields() {
    let p = Peptide::new(7 * DA, 4, 11, 22, "PEPTIDE".to_string());
    assert_eq!(p.mass, 7 * DA);
    assert_eq!(p.id, 4);
    assert_eq!(p.aux_a, 11);
    assert_eq!(p.aux_b, 22);
    assert_eq!(p.sequence, "PEPTIDE");
}
