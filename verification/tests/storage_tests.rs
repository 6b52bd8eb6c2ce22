use mass_fragment_index::fragment::{Fragment, FragmentSeries};
use mass_fragment_index::parent::Peptide;
use mass_fragment_index::sort::{is_sorted_by_mass, SortType};
use mass_fragment_index::storage::{
    parents_sequences_fit, read_fragment_index, write_fragment_index, ArchiveArtifact,
    ArchiveCompression, ArchiveError, IndexArchive, IndexMetadata, SearchIndexOnDisk,
};
use mass_fragment_index::{SearchIndex, Tolerance};

const DA: u64 = 1_000_000;

fn sample_index() -> SearchIndex<Fragment, Peptide> {
    let mut ix: SearchIndex<Fragment, Peptide> = SearchIndex::empty(2, 12 * DA);
    ix.add_parent(Peptide::new(3 * DA, 0, 1, 2, "AAK".to_string()));
    ix.add_parent(Peptide::new(5 * DA, 1, 3, 4, "GGR".to_string()));
    let entries = [
        (DA + 50, 0, FragmentSeries::b, 1),
        (DA + 20, 1, FragmentSeries::y, 2),
        (2 * DA + 400_001, 0, FragmentSeries::c, 3),
        (7 * DA, 1, FragmentSeries::Unknown, 0),
        (11 * DA + 999_999, 0, FragmentSeries::x, 4),
    ];
    for (m, p, s, o) in entries {
        ix.add(Fragment::new(m, p, s, o));
    }
    ix.sort(SortType::ByMass);
    ix
}

#[test]
fn round_trip_preserves_counts() {
    let ix = sample_index();
    let archive = write_fragment_index(&ix, None);
    let back = read_fragment_index(&archive).expect("archive should read back");
    assert_eq!(back.parents.len(), ix.parents.len());
    assert_eq!(back.num_entries(), ix.num_entries());
}

#[test]
fn round_trip_preserves_bin_partition() {
    let ix = sample_index();
    let archive = write_fragment_index(&ix, None);
    let back = read_fragment_index(&archive).expect("archive should read back");
    assert_eq!(back.bins_per_dalton, ix.bins_per_dalton);
    assert_eq!(back.max_item_mass, ix.max_item_mass);
    assert_eq!(back.bins.len(), ix.bins.len());
    for (b, bin) in ix.bins.iter().enumerate() {
        assert_eq!(&back.bins[b], bin);
        for e in &back.bins[b] {
            // the bin an entry's mass derives is stable across the round trip
            assert_eq!((e.mass as u128 * ix.bins_per_dalton as u128 / DA as u128) as usize, b);
        }
    }
    assert_eq!(back.parents, ix.parents);
}

#[test]
fn round_trip_search_agrees() {
    let ix = sample_index();
    let archive = write_fragment_index(&ix, Some(ArchiveCompression::Zstd(3)));
    let back = read_fragment_index(&archive).expect("archive should read back");
    let iv = ix.parents_for_range(2 * DA, 6 * DA, Tolerance::PPM(10));
    let iv2 = back.parents_for_range(2 * DA, 6 * DA, Tolerance::PPM(10));
    assert_eq!(iv, iv2);
    let a = ix.search(DA + 30, Tolerance::Da(40), Some(iv));
    let b = back.search(DA + 30, Tolerance::Da(40), Some(iv2));
    assert_eq!(a, b);
    assert_eq!(a.len(), 2);
}

#[test]
fn every_codec_round_trips() {
    let ix = sample_index();
    for comp in [
        ArchiveCompression::Uncompressed,
        ArchiveCompression::Snappy,
        ArchiveCompression::Zstd(9),
        ArchiveCompression::Brotli(5),
    ] {
        let archive = write_fragment_index(&ix, Some(comp));
        let back = read_fragment_index(&archive).expect("archive should read back");
        assert_eq!(back.num_entries(), ix.num_entries());
        assert_eq!(back.bins, ix.bins);
    }
}

#[test]
fn metadata_survives_in_lazy_handle() {
    let ix = sample_index();
    let archive = write_fragment_index(&ix, None);
    let handle =
        SearchIndexOnDisk::new(&archive.metadata, &archive.parents).expect("handle should open");
    assert_eq!(
        handle.metadata,
        IndexMetadata { bins_per_dalton: ix.bins_per_dalton, max_item_mass: ix.max_item_mass }
    );
    assert_eq!(handle.parents, ix.parents);
    assert!(is_sorted_by_mass(&handle.parents));
    let iv = handle.parents_for(3 * DA, Tolerance::Da(1_000));
    assert_eq!((iv.start, iv.end), (0, 1));
    let range = handle.parents_for_range(3 * DA, 5 * DA, Tolerance::Da(1_000));
    assert_eq!((range.start, range.end), (0, 2));
}

#[test]
fn malformed_artifacts_are_rejected() {
    let ix = sample_index();
    let good = write_fragment_index(&ix, None);
    let bad_meta = IndexArchive { metadata: vec![0x7b, 0x00], ..good.clone() };
    assert_eq!(
        read_fragment_index(&bad_meta),
        Err(ArchiveError::Malformed(ArchiveArtifact::Metadata))
    );
    let bad_parents = IndexArchive { parents: vec![1, 2, 3], ..good.clone() };
    assert_eq!(
        read_fragment_index(&bad_parents),
        Err(ArchiveError::Malformed(ArchiveArtifact::Parents))
    );
    let bad_entries = IndexArchive { entries: vec![9, 9], ..good.clone() };
    assert_eq!(
        read_fragment_index(&bad_entries),
        Err(ArchiveError::Malformed(ArchiveArtifact::Entries))
    );
    let missing = ArchiveError::NotFound(ArchiveArtifact::Entries);
    assert_ne!(missing, ArchiveError::Malformed(ArchiveArtifact::Entries));
}

#[test]
fn empty_index_round_trips() {
    let ix: SearchIndex<Fragment, Peptide> = SearchIndex::empty(5, 2 * DA);
    let archive = write_fragment_index(&ix, None);
    let back = read_fragment_index(&archive).expect("archive should read back");
    assert_eq!(back.num_entries(), 0);
    assert_eq!(back.parents.len(), 0);
    assert_eq!(back.bins.len(), ix.bins.len());
}

#[test]
fn sequence_capacity_checker() {
    let ix = sample_index();
    assert!(parents_sequences_fit(&ix.parents));
    let empty: Vec<Peptide> = Vec::new();
    assert!(parents_sequences_fit(&empty));
    // multi-byte characters count by their UTF-8 length
    let wide = vec![Peptide::new(DA, 0, 0, 0, "pép\u{1F9EA}".to_string())];
    assert!(parents_sequences_fit(&wide));
}
