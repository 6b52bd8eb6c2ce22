//! A mass-tolerance search index for mass-spectrometry fragment ions.
//!
//! Parent records (precursor peptides) and entry records (fragment ions) are
//! collected into a [`index::SearchIndex`], which bins entries by mass, sorts
//! within bins, and answers point-mass tolerance queries with an optional
//! parent-range filter.  The index round-trips through a compact columnar
//! archive (see [`storage`]) whose segmentation follows the index's mass bins.
//!
//! Masses are fixed-point integers counted in millionths of a dalton, so that
//! binning, tolerance windows and ordering are exact.

pub mod fragment;
pub mod index;
pub mod parent;
pub mod sort;
pub mod storage;

pub use index::Interval;
pub use index::SearchIndex;
pub use sort::IndexSortable;
pub use sort::MassType;
pub use sort::Tolerance;
