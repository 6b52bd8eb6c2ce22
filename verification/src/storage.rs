//! The columnar archive protocol: the search index serialized as three
//! byte artifacts (metadata, parents, entries) whose segmentation follows
//! the index's mass bins, and reloaded without disturbing that structure.

mod util;

pub use util::{
    entries_archive_name, metadata_archive_name, parents_archive_name, parents_sequences_fit,
    read_fragment_index, write_fragment_index, ArchiveArtifact, ArchiveCompression, ArchiveError,
    FragmentColumns, IndexArchive, IndexMetadata, PeptideColumns, SearchIndexOnDisk,
};
