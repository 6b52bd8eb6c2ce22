//! The generic binary storage layer: index metadata, the three archive
//! artifacts as bytes, and the encoders and decoders over the columnar
//! engine.  The engine itself — arrow record batches written as parquet and
//! line-delimited JSON — is called through a small set of trusted wrappers;
//! everything that decides the archive's structure (which rows exist, how
//! entries are segmented by bin, how a reload regroups them) is verified.

use crate::fragment::{Fragment, FragmentSeries};
use crate::index::{Interval, SearchIndex};
use crate::parent::Peptide;
use crate::sort::{
    bin_index_of, sorted_by_mass, window_hi, window_lo, IndexSortable, MassType, Tolerance,
    MASS_SCALE,
};
use std::sync::Arc;
use arrow::array::{Array, ArrayRef, AsArray, RecordBatch, StringArray, UInt16Array,
    UInt32Array, UInt64Array};
use arrow::datatypes::{DataType, Field, FieldRef, Schema, UInt16Type, UInt32Type, UInt64Type};
use arrow::json::{LineDelimitedWriter, ReaderBuilder};
use bytes::Bytes;
use parquet::arrow::arrow_reader::ParquetRecordBatchReaderBuilder;
use parquet::arrow::ArrowWriter;
use parquet::basic::{BrotliLevel, Compression, ZstdLevel};
use parquet::file::properties::WriterProperties;
use vstd::prelude::*;
use vstd::string::StringExecFns;

verus! {

/// The index's persisted configuration: binning resolution and the largest
/// accommodated mass.
#[derive(Debug, Clone, Copy, PartialEq, Eq, Structural)]
pub struct IndexMetadata {
    pub bins_per_dalton: u32,
    pub max_item_mass: MassType,
}

/// Which of the three archive artifacts an error speaks of.
#[derive(Debug, Clone, Copy, PartialEq, Eq, Structural)]
pub enum ArchiveArtifact {
    Metadata,
    Parents,
    Entries,
}

/// An archive failure: a named artifact is missing, or an artifact's content
/// does not decode.  The byte-level readers here only ever report
/// `Malformed`; `NotFound` is the variant a host uses when it checks a
/// directory for the three artifact files before handing their bytes over.
#[derive(Debug, Clone, Copy, PartialEq, Eq, Structural)]
pub enum ArchiveError {
    NotFound(ArchiveArtifact),
    Malformed(ArchiveArtifact),
}

/// The closed set of codecs an archive may be written with: none, a fast
/// general-purpose codec, or one of two high-ratio codecs at a chosen level.
#[derive(Debug, Clone, Copy, PartialEq, Eq, Structural)]
pub enum ArchiveCompression {
    Uncompressed,
    Snappy,
    Zstd(u8),
    Brotli(u8),
}

/// Whether the chosen level is one the codec supports.
pub open spec fn compression_valid(c: ArchiveCompression) -> bool {
    match c {
        ArchiveCompression::Zstd(level) => 1 <= level <= 22,
        ArchiveCompression::Brotli(level) => level <= 11,
        _ => true,
    }
}

/// The codec a write call uses when the caller does not choose one: the
/// high-ratio codec near its maximum setting.
pub open spec fn effective_compression(c: Option<ArchiveCompression>) -> ArchiveCompression {
    match c {
        Some(chosen) => chosen,
        None => ArchiveCompression::Zstd(9),
    }
}

/// A codec, numbered for the encoder wrappers.
pub open spec fn codec_tag(c: ArchiveCompression) -> u8 {
    match c {
        ArchiveCompression::Uncompressed => 0,
        ArchiveCompression::Snappy => 1,
        ArchiveCompression::Zstd(_) => 2,
        ArchiveCompression::Brotli(_) => 3,
    }
}

/// A codec's level, for the encoder wrappers; zero where the codec has none.
pub open spec fn codec_level(c: ArchiveCompression) -> u8 {
    match c {
        ArchiveCompression::Zstd(level) => level,
        ArchiveCompression::Brotli(level) => level,
        _ => 0,
    }
}

/// Whether a numbered codec and level pair is one the wrappers accept.
pub open spec fn codec_params_valid(codec: u8, level: u8) -> bool {
    ||| codec == 0
    ||| codec == 1
    ||| (codec == 2 && 1 <= level <= 22)
    ||| (codec == 3 && level <= 11)
}

fn compression_params(c: ArchiveCompression) -> (r: (u8, u8))
    requires
        compression_valid(c),
    ensures
        r.0 == codec_tag(c),
        r.1 == codec_level(c),
        codec_params_valid(r.0, r.1),
{
    match c {
        ArchiveCompression::Uncompressed => (0, 0),
        ArchiveCompression::Snappy => (1, 0),
        ArchiveCompression::Zstd(level) => (2, level),
        ArchiveCompression::Brotli(level) => (3, level),
    }
}

/// The three artifacts of one archived index, as bytes; writing them to and
/// reading them from a directory is the host application's concern.
#[derive(Debug, Clone, PartialEq, Eq)]
pub struct IndexArchive {
    pub metadata: Vec<u8>,
    pub parents: Vec<u8>,
    pub entries: Vec<u8>,
}

/// File name of the metadata artifact inside an archive directory.
pub fn metadata_archive_name() -> (r: &'static str)
    ensures
        r@ == "meta.json"@,
{
    "meta.json"
}

/// File name of the parents artifact inside an archive directory.
pub fn parents_archive_name() -> (r: &'static str)
    ensures
        r@ == "parents.parquet"@,
{
    "parents.parquet"
}

/// File name of the entries artifact inside an archive directory.
pub fn entries_archive_name() -> (r: &'static str)
    ensures
        r@ == "entries.parquet"@,
{
    "entries.parquet"
}

/// The entries artifact decoded into parallel columns.
pub struct FragmentColumns {
    pub masses: Vec<u64>,
    pub parent_ids: Vec<u64>,
    pub series: Vec<u32>,
    pub ordinals: Vec<u16>,
    pub segments: Vec<u64>,
}

/// The parents artifact decoded into parallel columns.
pub struct PeptideColumns {
    pub masses: Vec<u64>,
    pub ids: Vec<u64>,
    pub aux_as: Vec<u32>,
    pub aux_bs: Vec<u32>,
    pub sequences: Vec<String>,
}

/// The number a series classifier is stored as.
pub open spec fn series_code(s: FragmentSeries) -> u32 {
    match s {
        FragmentSeries::b => 0,
        FragmentSeries::y => 1,
        FragmentSeries::c => 2,
        FragmentSeries::z => 3,
        FragmentSeries::a => 4,
        FragmentSeries::x => 5,
        FragmentSeries::Precursor => 6,
        FragmentSeries::PeptideY => 7,
        FragmentSeries::Oxonium => 8,
        FragmentSeries::Internal => 9,
        FragmentSeries::Unknown => 10,
    }
}

/// The series classifier a stored number denotes; unassigned numbers fall
/// back to the default classifier.
pub open spec fn series_of_code(code: u32) -> FragmentSeries {
    if code == 0 {
        FragmentSeries::b
    } else if code == 1 {
        FragmentSeries::y
    } else if code == 2 {
        FragmentSeries::c
    } else if code == 3 {
        FragmentSeries::z
    } else if code == 4 {
        FragmentSeries::a
    } else if code == 5 {
        FragmentSeries::x
    } else if code == 6 {
        FragmentSeries::Precursor
    } else if code == 7 {
        FragmentSeries::PeptideY
    } else if code == 8 {
        FragmentSeries::Oxonium
    } else if code == 9 {
        FragmentSeries::Internal
    } else {
        FragmentSeries::Unknown
    }
}

fn series_code_exec(s: FragmentSeries) -> (r: u32)
    ensures
        r == series_code(s),
{
    match s {
        FragmentSeries::b => 0,
        FragmentSeries::y => 1,
        FragmentSeries::c => 2,
        FragmentSeries::z => 3,
        FragmentSeries::a => 4,
        FragmentSeries::x => 5,
        FragmentSeries::Precursor => 6,
        FragmentSeries::PeptideY => 7,
        FragmentSeries::Oxonium => 8,
        FragmentSeries::Internal => 9,
        FragmentSeries::Unknown => 10,
    }
}

fn series_of_code_exec(code: u32) -> (r: FragmentSeries)
    ensures
        r == series_of_code(code),
{
    match code {
        0 => FragmentSeries::b,
        1 => FragmentSeries::y,
        2 => FragmentSeries::c,
        3 => FragmentSeries::z,
        4 => FragmentSeries::a,
        5 => FragmentSeries::x,
        6 => FragmentSeries::Precursor,
        7 => FragmentSeries::PeptideY,
        8 => FragmentSeries::Oxonium,
        9 => FragmentSeries::Internal,
        _ => FragmentSeries::Unknown,
    }
}

/// The bytes of the metadata artifact for a given configuration: one
/// line-delimited JSON record with both fields.
pub uninterp spec fn meta_json(bins_per_dalton: u32, max_item_mass: u64) -> Seq<u8>;

/// The bytes of the entries artifact for given columns and codec.
pub uninterp spec fn fragment_parquet(
    masses: Seq<u64>,
    parent_ids: Seq<u64>,
    series: Seq<u32>,
    ordinals: Seq<u16>,
    segments: Seq<u64>,
    codec: u8,
    level: u8,
) -> Seq<u8>;

/// The bytes of the parents artifact for given columns and codec.
pub uninterp spec fn peptide_parquet(
    masses: Seq<u64>,
    ids: Seq<u64>,
    aux_as: Seq<u32>,
    aux_bs: Seq<u32>,
    sequences: Seq<Seq<char>>,
    codec: u8,
    level: u8,
) -> Seq<u8>;

/// Relies on arrow's record-batch schema type; carried opaquely between the
/// trusted wrappers below.
#[verifier::external_type_specification]
#[verifier::external_body]
pub struct ExSchema(Schema);

/// Relies on parquet's compression setting; carried opaquely between the
/// trusted wrappers below.
#[verifier::external_type_specification]
#[verifier::external_body]
pub struct ExCompression(Compression);

/// Relies on parquet's `Compression`, `ZstdLevel::try_new` and
/// `BrotliLevel::try_new`: maps an accepted codec number and level to the
/// engine's setting.  The level constructors accept at least the ranges that
/// `codec_params_valid` admits (zstd's accepts a wider one), so no
/// construction here can fail.
#[verifier::external_body]
fn parquet_codec(codec: u8, level: u8) -> (r: Compression)
    requires
        codec_params_valid(codec, level),
{
    match codec {
        0 => Compression::UNCOMPRESSED,
        1 => Compression::SNAPPY,
        2 => Compression::ZSTD(ZstdLevel::try_new(level as i32).unwrap()),
        _ => Compression::BROTLI(BrotliLevel::try_new(level as u32).unwrap()),
    }
}

/// Relies on arrow's `Schema` and `Field`: the fixed five-column schema of
/// the entries artifact.
#[verifier::external_body]
fn fragment_schema() -> (r: Arc<Schema>)
{
    Arc::new(Schema::new(vec![
        Arc::new(Field::new("mass", DataType::UInt64, false)) as FieldRef,
        Arc::new(Field::new("parent_id", DataType::UInt64, false)) as FieldRef,
        Arc::new(Field::new("series", DataType::UInt32, false)) as FieldRef,
        Arc::new(Field::new("ordinal", DataType::UInt16, false)) as FieldRef,
        Arc::new(Field::new("segment_id", DataType::UInt64, false)) as FieldRef,
    ]))
}

/// Relies on arrow's `Schema` and `Field`: the fixed five-column schema of
/// the parents artifact.
#[verifier::external_body]
fn peptide_schema() -> (r: Arc<Schema>)
{
    Arc::new(Schema::new(vec![
        Arc::new(Field::new("mass", DataType::UInt64, false)) as FieldRef,
        Arc::new(Field::new("id", DataType::UInt64, false)) as FieldRef,
        Arc::new(Field::new("aux_a", DataType::UInt32, false)) as FieldRef,
        Arc::new(Field::new("aux_b", DataType::UInt32, false)) as FieldRef,
        Arc::new(Field::new("sequence", DataType::Utf8, false)) as FieldRef,
    ]))
}

/// Relies on arrow's `Schema` and `Field`: the fixed two-column schema of
/// the metadata artifact.
#[verifier::external_body]
fn metadata_schema() -> (r: Arc<Schema>)
{
    Arc::new(Schema::new(vec![
        Arc::new(Field::new("bins_per_dalton", DataType::UInt32, false)) as FieldRef,
        Arc::new(Field::new("max_item_mass", DataType::UInt64, false)) as FieldRef,
    ]))
}

/// Relies on arrow's `RecordBatch::try_new` and json `LineDelimitedWriter`:
/// writes the one-record metadata batch as line-delimited JSON into memory.
/// The result depends on the two fields alone, which `meta_json` names.
#[verifier::external_body]
fn encode_metadata(bins_per_dalton: u32, max_item_mass: u64) -> (r: Vec<u8>)
    ensures
        r@ == meta_json(bins_per_dalton, max_item_mass),
{
    let schema = metadata_schema();
    let cols: Vec<ArrayRef> = vec![
        Arc::new(UInt32Array::from(vec![bins_per_dalton])),
        Arc::new(UInt64Array::from(vec![max_item_mass])),
    ];
    let batch = RecordBatch::try_new(schema, cols).unwrap();
    let mut writer = LineDelimitedWriter::new(Vec::new());
    writer.write(&batch).unwrap();
    writer.finish().unwrap();
    writer.into_inner()
}

/// Relies on arrow's json `ReaderBuilder`: reads one metadata record back
/// from line-delimited JSON.  Reading what the json writer wrote yields the
/// fields that were written; on any other input, whatever was parsed, or
/// nothing.
#[verifier::external_body]
fn decode_metadata(data: &[u8]) -> (r: Option<(u32, u64)>)
    ensures
        forall|b: u32, m: u64| data@ == #[trigger] meta_json(b, m) ==> r == Some((b, m)),
{
    let mut reader = ReaderBuilder::new(metadata_schema()).build(data).ok()?;
    let batch = reader.next()?.ok()?;
    let bins = batch.column(0).as_primitive_opt::<UInt32Type>()?;
    let mass = batch.column(1).as_primitive_opt::<UInt64Type>()?;
    if bins.len() < 1 || mass.len() < 1 {
        return None;
    }
    Some((bins.value(0), mass.value(0)))
}

/// Relies on parquet's `ArrowWriter` over an in-memory buffer: writes the
/// entry columns as one parquet file.  The bytes depend on the columns and
/// codec alone, which `fragment_parquet` names.
#[verifier::external_body]
fn encode_fragments(
    masses: &Vec<u64>,
    parent_ids: &Vec<u64>,
    series: &Vec<u32>,
    ordinals: &Vec<u16>,
    segments: &Vec<u64>,
    codec: u8,
    level: u8,
) -> (r: Vec<u8>)
    requires
        masses@.len() == parent_ids@.len(),
        masses@.len() == series@.len(),
        masses@.len() == ordinals@.len(),
        masses@.len() == segments@.len(),
        codec_params_valid(codec, level),
    ensures
        r@ == fragment_parquet(masses@, parent_ids@, series@, ordinals@, segments@, codec, level),
{
    let schema = fragment_schema();
    let cols: Vec<ArrayRef> = vec![
        Arc::new(UInt64Array::from(masses.clone())),
        Arc::new(UInt64Array::from(parent_ids.clone())),
        Arc::new(UInt32Array::from(series.clone())),
        Arc::new(UInt16Array::from(ordinals.clone())),
        Arc::new(UInt64Array::from(segments.clone())),
    ];
    let props = WriterProperties::builder().set_compression(parquet_codec(codec, level)).build();
    let mut writer = ArrowWriter::try_new(Vec::new(), schema.clone(), Some(props)).unwrap();
    writer.write(&RecordBatch::try_new(schema, cols).unwrap()).unwrap();
    writer.into_inner().unwrap()
}

/// Relies on parquet's batch reader: one `u64` column of a parquet file,
/// batches concatenated in file order.
#[verifier::external_body]
fn parquet_u64_col(data: &[u8], i: usize) -> (r: Option<Vec<u64>>)
{
    let it = ParquetRecordBatchReaderBuilder::try_new(Bytes::copy_from_slice(data)).ok()?.build().ok()?;
    let mut v = vec![];
    for b in it {
        v.extend(b.ok()?.columns().get(i)?.as_primitive_opt::<UInt64Type>()?.values());
    }
    Some(v)
}

/// Relies on parquet's batch reader: one `u32` column of a parquet file,
/// batches concatenated in file order.
#[verifier::external_body]
fn parquet_u32_col(data: &[u8], i: usize) -> (r: Option<Vec<u32>>)
{
    let it = ParquetRecordBatchReaderBuilder::try_new(Bytes::copy_from_slice(data)).ok()?.build().ok()?;
    let mut v = vec![];
    for b in it {
        v.extend(b.ok()?.columns().get(i)?.as_primitive_opt::<UInt32Type>()?.values());
    }
    Some(v)
}

/// Relies on parquet's batch reader: one `u16` column of a parquet file,
/// batches concatenated in file order.
#[verifier::external_body]
fn parquet_u16_col(data: &[u8], i: usize) -> (r: Option<Vec<u16>>)
{
    let it = ParquetRecordBatchReaderBuilder::try_new(Bytes::copy_from_slice(data)).ok()?.build().ok()?;
    let mut v = vec![];
    for b in it {
        v.extend(b.ok()?.columns().get(i)?.as_primitive_opt::<UInt16Type>()?.values());
    }
    Some(v)
}

/// Relies on parquet's batch reader: one string column of a parquet file,
/// batches concatenated in file order.
#[verifier::external_body]
fn parquet_str_col(data: &[u8], i: usize) -> (r: Option<Vec<String>>)
{
    let it = ParquetRecordBatchReaderBuilder::try_new(Bytes::copy_from_slice(data)).ok()?.build().ok()?;
    let mut v = vec![];
    for b in it {
        let b = b.ok()?;
        let q = b.columns().get(i)?.as_string_opt::<i32>()?;
        for k in 0..q.len() {
            v.push(q.value(k).to_string());
        }
    }
    Some(v)
}

/// Relies on parquet's `ParquetRecordBatchReaderBuilder` over the file's
/// bytes: reads the entry columns back, batch by batch in file order.
/// Reading what `encode_fragments` wrote yields the columns that were
/// written; any other successfully decoded file yields equal-length columns.
#[verifier::external_body]
fn decode_fragments(data: &[u8]) -> (r: Option<FragmentColumns>)
    ensures
        forall|ms: Seq<u64>, ps: Seq<u64>, ss: Seq<u32>, os: Seq<u16>, gs: Seq<u64>, c: u8, l: u8|
            data@ == #[trigger] fragment_parquet(ms, ps, ss, os, gs, c, l) ==> r is Some
                && r.unwrap().masses@ == ms && r.unwrap().parent_ids@ == ps && r.unwrap().series@
                == ss && r.unwrap().ordinals@ == os && r.unwrap().segments@ == gs,
        r is Some ==> r.unwrap().masses@.len() == r.unwrap().parent_ids@.len()
            && r.unwrap().masses@.len() == r.unwrap().series@.len() && r.unwrap().masses@.len()
            == r.unwrap().ordinals@.len() && r.unwrap().masses@.len()
            == r.unwrap().segments@.len(),
{
    Some(FragmentColumns {
        masses: parquet_u64_col(data, 0)?,
        parent_ids: parquet_u64_col(data, 1)?,
        series: parquet_u32_col(data, 2)?,
        ordinals: parquet_u16_col(data, 3)?,
        segments: parquet_u64_col(data, 4)?,
    })
}

/// How many bytes a character occupies in UTF-8.
pub open spec fn char_utf8_len(c: char) -> int {
    if (c as int) < 0x80 {
        1
    } else if (c as int) < 0x800 {
        2
    } else if (c as int) < 0x10000 {
        3
    } else {
        4
    }
}

/// How many bytes a string occupies in UTF-8.
pub open spec fn str_utf8_len(s: Seq<char>) -> int
    decreases s.len(),
{
    if s.len() == 0 {
        0
    } else {
        str_utf8_len(s.drop_last()) + char_utf8_len(s.last())
    }
}

/// How many bytes a list of strings occupies in UTF-8, in all.
pub open spec fn seqs_utf8_len(qs: Seq<Seq<char>>) -> int
    decreases qs.len(),
{
    if qs.len() == 0 {
        0
    } else {
        seqs_utf8_len(qs.drop_last()) + str_utf8_len(qs.last())
    }
}

proof fn lemma_str_utf8_len_nonneg(s: Seq<char>)
    ensures
        str_utf8_len(s) >= 0,
    decreases s.len(),
{
    if s.len() > 0 {
        lemma_str_utf8_len_nonneg(s.drop_last());
    }
}

/// A string is at least as long in bytes as any of its prefixes.
proof fn lemma_str_utf8_prefix_bound(s: Seq<char>, k: int)
    requires
        0 <= k <= s.len(),
    ensures
        str_utf8_len(s.take(k)) <= str_utf8_len(s),
    decreases s.len() - k,
{
    if k == s.len() {
        assert(s.take(k) =~= s);
    } else {
        assert(s.take(k + 1).drop_last() =~= s.take(k));
        assert(s.take(k + 1).last() == s[k]);
        lemma_str_utf8_prefix_bound(s, k + 1);
    }
}

/// A list of strings is at least as long in bytes as any prefix of it.
proof fn lemma_seqs_utf8_prefix_bound(qs: Seq<Seq<char>>, i: int)
    requires
        0 <= i <= qs.len(),
    ensures
        seqs_utf8_len(qs.take(i)) <= seqs_utf8_len(qs),
    decreases qs.len() - i,
{
    if i == qs.len() {
        assert(qs.take(i) =~= qs);
    } else {
        assert(qs.take(i + 1).drop_last() =~= qs.take(i));
        assert(qs.take(i + 1).last() == qs[i]);
        lemma_str_utf8_len_nonneg(qs[i]);
        lemma_seqs_utf8_prefix_bound(qs, i + 1);
    }
}

fn char_utf8_len_exec(c: char) -> (r: u64)
    ensures
        r == char_utf8_len(c),
{
    let u: u32 = c as u32;
    if u < 0x80 {
        1
    } else if u < 0x800 {
        2
    } else if u < 0x10000 {
        3
    } else {
        4
    }
}

/// Relies on parquet's `ArrowWriter` over an in-memory buffer: writes the
/// parent columns as one parquet file.  The bytes depend on the columns and
/// codec alone, which `peptide_parquet` names.  The string column is built
/// with 32-bit offsets, so the sequences' total UTF-8 length must stay
/// within them; the precondition keeps it there, and no construction here
/// can then fail.
#[verifier::external_body]
fn encode_peptides(
    masses: &Vec<u64>,
    ids: &Vec<u64>,
    aux_as: &Vec<u32>,
    aux_bs: &Vec<u32>,
    sequences: &Vec<String>,
    codec: u8,
    level: u8,
) -> (r: Vec<u8>)
    requires
        masses@.len() == ids@.len(),
        masses@.len() == aux_as@.len(),
        masses@.len() == aux_bs@.len(),
        masses@.len() == sequences@.len(),
        codec_params_valid(codec, level),
        seqs_utf8_len(sequences@.map_values(|s: String| s@)) <= i32::MAX as int,
    ensures
        r@ == peptide_parquet(
            masses@,
            ids@,
            aux_as@,
            aux_bs@,
            sequences@.map_values(|s: String| s@),
            codec,
            level,
        ),
{
    let schema = peptide_schema();
    let cols: Vec<ArrayRef> = vec![
        Arc::new(UInt64Array::from(masses.clone())),
        Arc::new(UInt64Array::from(ids.clone())),
        Arc::new(UInt32Array::from(aux_as.clone())),
        Arc::new(UInt32Array::from(aux_bs.clone())),
        Arc::new(StringArray::from(sequences.clone())),
    ];
    let props = WriterProperties::builder().set_compression(parquet_codec(codec, level)).build();
    let mut writer = ArrowWriter::try_new(Vec::new(), schema.clone(), Some(props)).unwrap();
    writer.write(&RecordBatch::try_new(schema, cols).unwrap()).unwrap();
    writer.into_inner().unwrap()
}

/// Relies on parquet's `ParquetRecordBatchReaderBuilder` over the file's
/// bytes: reads the parent columns back, batch by batch in file order.
/// Reading what `encode_peptides` wrote yields the columns that were
/// written; any other successfully decoded file yields equal-length columns.
#[verifier::external_body]
fn decode_peptides(data: &[u8]) -> (r: Option<PeptideColumns>)
    ensures
        forall|ms: Seq<u64>, is: Seq<u64>, xa: Seq<u32>, xb: Seq<u32>, qs: Seq<Seq<char>>, c: u8, l: u8|
            data@ == #[trigger] peptide_parquet(ms, is, xa, xb, qs, c, l) ==> r is Some
                && r.unwrap().masses@
                == ms && r.unwrap().ids@ == is && r.unwrap().aux_as@ == xa && r.unwrap().aux_bs@
                == xb && r.unwrap().sequences@.map_values(|s: String| s@) == qs,
        r is Some ==> r.unwrap().masses@.len() == r.unwrap().ids@.len()
            && r.unwrap().masses@.len() == r.unwrap().aux_as@.len() && r.unwrap().masses@.len()
            == r.unwrap().aux_bs@.len() && r.unwrap().masses@.len()
            == r.unwrap().sequences@.len(),
{
    Some(PeptideColumns {
        masses: parquet_u64_col(data, 0)?,
        ids: parquet_u64_col(data, 1)?,
        aux_as: parquet_u32_col(data, 2)?,
        aux_bs: parquet_u32_col(data, 3)?,
        sequences: parquet_str_col(data, 4)?,
    })
}

/// The rows of the entries artifact: every entry of every bin, bins in
/// ascending bin order, each row tagged with its bin's index as the segment
/// identifier.
pub open spec fn entry_rows(bins: Seq<Seq<Fragment>>) -> Seq<(Fragment, u64)> {
    bins.map(|b: int, bin: Seq<Fragment>| bin.map_values(|e: Fragment| (e, b as u64))).flatten()
}

/// The mass column of the entries artifact.
pub open spec fn rows_masses(rows: Seq<(Fragment, u64)>) -> Seq<u64> {
    rows.map_values(|r: (Fragment, u64)| r.0.mass)
}

/// The parent-position column of the entries artifact.
pub open spec fn rows_parent_ids(rows: Seq<(Fragment, u64)>) -> Seq<u64> {
    rows.map_values(|r: (Fragment, u64)| r.0.parent_id as u64)
}

/// The series column of the entries artifact.
pub open spec fn rows_series(rows: Seq<(Fragment, u64)>) -> Seq<u32> {
    rows.map_values(|r: (Fragment, u64)| series_code(r.0.series))
}

/// The ordinal column of the entries artifact.
pub open spec fn rows_ordinals(rows: Seq<(Fragment, u64)>) -> Seq<u16> {
    rows.map_values(|r: (Fragment, u64)| r.0.ordinal)
}

/// The segment-identifier column of the entries artifact.
pub open spec fn rows_segments(rows: Seq<(Fragment, u64)>) -> Seq<u64> {
    rows.map_values(|r: (Fragment, u64)| r.1)
}

/// The mass column of the parents artifact.
pub open spec fn parent_masses(ps: Seq<Peptide>) -> Seq<u64> {
    ps.map_values(|p: Peptide| p.mass)
}

/// The identity column of the parents artifact.
pub open spec fn parent_ids_col(ps: Seq<Peptide>) -> Seq<u64> {
    ps.map_values(|p: Peptide| p.id as u64)
}

/// The first reserved column of the parents artifact.
pub open spec fn parent_aux_as(ps: Seq<Peptide>) -> Seq<u32> {
    ps.map_values(|p: Peptide| p.aux_a)
}

/// The second reserved column of the parents artifact.
pub open spec fn parent_aux_bs(ps: Seq<Peptide>) -> Seq<u32> {
    ps.map_values(|p: Peptide| p.aux_b)
}

/// The sequence column of the parents artifact.
pub open spec fn parent_sequences(ps: Seq<Peptide>) -> Seq<Seq<char>> {
    ps.map_values(|p: Peptide| p.sequence@)
}

/// That the three byte artifacts are exactly what writing `ix` under the
/// given codec produces.
pub open spec fn archive_encodes(
    ix: SearchIndex<Fragment, Peptide>,
    meta: Seq<u8>,
    parents: Seq<u8>,
    entries: Seq<u8>,
    codec: u8,
    level: u8,
) -> bool {
    let rows = entry_rows(ix.entry_seqs());
    &&& meta == meta_json(ix.bins_per_dalton, ix.max_item_mass)
    &&& parents == peptide_parquet(
        parent_masses(ix.parents@),
        parent_ids_col(ix.parents@),
        parent_aux_as(ix.parents@),
        parent_aux_bs(ix.parents@),
        parent_sequences(ix.parents@),
        codec,
        level,
    )
    &&& entries == fragment_parquet(
        rows_masses(rows),
        rows_parent_ids(rows),
        rows_series(rows),
        rows_ordinals(rows),
        rows_segments(rows),
        codec,
        level,
    )
}

/// Two parent records that agree in every attribute.
pub open spec fn peptide_eq(p: Peptide, q: Peptide) -> bool {
    p.mass == q.mass && p.id == q.id && p.aux_a == q.aux_a && p.aux_b == q.aux_b && p.sequence@
        == q.sequence@
}

/// Two indexes that agree in configuration, parents, and the contents of
/// every bin.
pub open spec fn index_models_match(
    a: SearchIndex<Fragment, Peptide>,
    b: SearchIndex<Fragment, Peptide>,
) -> bool {
    &&& a.bins_per_dalton == b.bins_per_dalton
    &&& a.max_item_mass == b.max_item_mass
    &&& a.parents@.len() == b.parents@.len()
    &&& forall|i: int| 0 <= i < a.parents@.len() ==> peptide_eq(#[trigger] a.parents@[i], b.parents@[i])
    &&& a.bins@.len() == b.bins@.len()
    &&& forall|i: int| 0 <= i < a.bins@.len() ==> (#[trigger] a.bins@[i]@) == b.bins@[i]@
}

/// Serializes an index into its three archive artifacts, in the archive's
/// strict order: metadata, then all parents as one batch, then the entries
/// segmented per bin in ascending bin order, each entry tagged with its
/// bin's index as segment identifier.  The parents' sequence strings must
/// together fit the engine's 32-bit string offsets, an archive-format limit
/// that [`parents_sequences_fit`] lets callers test.
pub fn write_fragment_index(
    index: &SearchIndex<Fragment, Peptide>,
    compression: Option<ArchiveCompression>,
) -> (r: IndexArchive)
    requires
        match compression {
            Some(c) => compression_valid(c),
            None => true,
        },
        seqs_utf8_len(parent_sequences(index.parents@)) <= i32::MAX as int,
    ensures
        archive_encodes(
            *index,
            r.metadata@,
            r.parents@,
            r.entries@,
            codec_tag(effective_compression(compression)),
            codec_level(effective_compression(compression)),
        ),
{
    let comp = match compression {
        Some(c) => c,
        None => ArchiveCompression::Zstd(9),
    };
    let (codec, level) = compression_params(comp);
    let metadata = encode_metadata(index.bins_per_dalton, index.max_item_mass);

    let np = index.parents.len();
    let mut pmass: Vec<u64> = Vec::new();
    let mut pid: Vec<u64> = Vec::new();
    let mut pxa: Vec<u32> = Vec::new();
    let mut pxb: Vec<u32> = Vec::new();
    let mut pseq: Vec<String> = Vec::new();
    let mut i: usize = 0;
    while i < np
        invariant
            i <= np,
            np == index.parents@.len(),
            pmass@.len() == i && pid@.len() == i && pxa@.len() == i && pxb@.len() == i
                && pseq@.len() == i,
            forall|j: int| 0 <= j < i ==> pmass@[j] == (#[trigger] index.parents@[j]).mass,
            forall|j: int| 0 <= j < i ==> pid@[j] == (#[trigger] index.parents@[j]).id as u64,
            forall|j: int| 0 <= j < i ==> pxa@[j] == (#[trigger] index.parents@[j]).aux_a,
            forall|j: int| 0 <= j < i ==> pxb@[j] == (#[trigger] index.parents@[j]).aux_b,
            forall|j: int| 0 <= j < i ==> pseq@[j]@ == (#[trigger] index.parents@[j]).sequence@,
        decreases np - i,
    {
        let p = &index.parents[i];
        pmass.push(p.mass);
        pid.push(p.id as u64);
        pxa.push(p.aux_a);
        pxb.push(p.aux_b);
        pseq.push(String::from_str(p.sequence.as_str()));
        i = i + 1;
    }
    proof {
        assert(pmass@ =~= parent_masses(index.parents@));
        assert(pid@ =~= parent_ids_col(index.parents@));
        assert(pxa@ =~= parent_aux_as(index.parents@));
        assert(pxb@ =~= parent_aux_bs(index.parents@));
        assert(pseq@.map_values(|s: String| s@) =~= parent_sequences(index.parents@));
    }
    let parents_bytes = encode_peptides(&pmass, &pid, &pxa, &pxb, &pseq, codec, level);

    let ghost mapped = index.entry_seqs().map(
        |b: int, bin: Seq<Fragment>| bin.map_values(|e: Fragment| (e, b as u64)),
    );
    let mut emass: Vec<u64> = Vec::new();
    let mut epid: Vec<u64> = Vec::new();
    let mut eser: Vec<u32> = Vec::new();
    let mut eord: Vec<u16> = Vec::new();
    let mut eseg: Vec<u64> = Vec::new();
    let ghost mut rows: Seq<(Fragment, u64)> = Seq::empty();
    let nb = index.bins.len();
    proof {
        assert(mapped.subrange(0, 0) =~= Seq::<Seq<(Fragment, u64)>>::empty());
        crate::index::lemma_flatten_all_empty(Seq::<Seq<(Fragment, u64)>>::empty());
        assert(rows =~= mapped.subrange(0, 0).flatten());
    }
    let mut b: usize = 0;
    while b < nb
        invariant
            b <= nb,
            nb == index.bins@.len(),
            mapped == index.entry_seqs().map(
                |bb: int, bin: Seq<Fragment>| bin.map_values(|e: Fragment| (e, bb as u64)),
            ),
            rows == mapped.subrange(0, b as int).flatten(),
            emass@.len() == rows.len() && epid@.len() == rows.len() && eser@.len() == rows.len()
                && eord@.len() == rows.len() && eseg@.len() == rows.len(),
            forall|j: int| 0 <= j < rows.len() ==> emass@[j] == (#[trigger] rows[j]).0.mass,
            forall|j: int| 0 <= j < rows.len() ==> epid@[j] == (#[trigger] rows[j]).0.parent_id as u64,
            forall|j: int| 0 <= j < rows.len() ==> eser@[j] == series_code((#[trigger] rows[j]).0.series),
            forall|j: int| 0 <= j < rows.len() ==> eord@[j] == (#[trigger] rows[j]).0.ordinal,
            forall|j: int| 0 <= j < rows.len() ==> eseg@[j] == (#[trigger] rows[j]).1,
        decreases nb - b,
    {
        let bin_len = index.bins[b].len();
        let mut k: usize = 0;
        while k < bin_len
            invariant
                k <= bin_len,
                b < nb == index.bins@.len(),
                bin_len == index.bins@[b as int]@.len(),
                mapped == index.entry_seqs().map(
                    |bb: int, bin: Seq<Fragment>| bin.map_values(|e: Fragment| (e, bb as u64)),
                ),
                rows == mapped.subrange(0, b as int).flatten() + mapped[b as int].subrange(
                    0,
                    k as int,
                ),
                emass@.len() == rows.len() && epid@.len() == rows.len() && eser@.len()
                    == rows.len() && eord@.len() == rows.len() && eseg@.len() == rows.len(),
                forall|j: int| 0 <= j < rows.len() ==> emass@[j] == (#[trigger] rows[j]).0.mass,
                forall|j: int|
                    0 <= j < rows.len() ==> epid@[j] == (#[trigger] rows[j]).0.parent_id as u64,
                forall|j: int|
                    0 <= j < rows.len() ==> eser@[j] == series_code((#[trigger] rows[j]).0.series),
                forall|j: int| 0 <= j < rows.len() ==> eord@[j] == (#[trigger] rows[j]).0.ordinal,
                forall|j: int| 0 <= j < rows.len() ==> eseg@[j] == (#[trigger] rows[j]).1,
            decreases bin_len - k,
        {
            let e = index.bins[b][k];
            emass.push(e.mass);
            epid.push(e.parent_id as u64);
            eser.push(series_code_exec(e.series));
            eord.push(e.ordinal);
            eseg.push(b as u64);
            proof {
                assert(mapped[b as int][k as int] == (e, b as u64));
                rows = rows.push((e, b as u64));
                assert(rows =~= mapped.subrange(0, b as int).flatten() + mapped[
                    b as int
                ].subrange(0, k as int + 1));
            }
            k = k + 1;
        }
        proof {
            assert(mapped[b as int].subrange(0, bin_len as int) =~= mapped[b as int]);
            let pre1 = mapped.subrange(0, b as int + 1);
            assert(pre1.drop_last() =~= mapped.subrange(0, b as int));
            assert(pre1.last() == mapped[b as int]);
            crate::index::lemma_flatten_snoc(pre1);
            assert(rows =~= mapped.subrange(0, b as int + 1).flatten());
        }
        b = b + 1;
    }
    proof {
        assert(mapped.subrange(0, nb as int) =~= mapped);
        assert(rows == entry_rows(index.entry_seqs()));
        assert(emass@ =~= rows_masses(rows));
        assert(epid@ =~= rows_parent_ids(rows));
        assert(eser@ =~= rows_series(rows));
        assert(eord@ =~= rows_ordinals(rows));
        assert(eseg@ =~= rows_segments(rows));
    }
    let entries_bytes = encode_fragments(&emass, &epid, &eser, &eord, &eseg, codec, level);

    IndexArchive { metadata, parents: parents_bytes, entries: entries_bytes }
}

/// Whether the parents' sequence strings together stay within the archive
/// string column's 32-bit offset capacity, which writing an archive
/// requires.  Callers that cannot establish the bound otherwise test it
/// with this before writing.
#[verifier::loop_isolation(false)]
pub fn parents_sequences_fit(parents: &Vec<Peptide>) -> (r: bool)
    ensures
        r == (seqs_utf8_len(parent_sequences(parents@)) <= i32::MAX as int),
{
    let ghost qs = parent_sequences(parents@);
    let limit: u64 = 0x7fff_ffff;
    let mut acc: u64 = 0;
    let n = parents.len();
    let mut i: usize = 0;
    proof {
        assert(qs.take(0) =~= Seq::<Seq<char>>::empty());
    }
    while i < n
        invariant
            i <= n,
            acc <= limit,
            acc == seqs_utf8_len(qs.take(i as int)),
        decreases n - i,
    {
        let s = parents[i].sequence.as_str();
        let ghost cs = qs[i as int];
        assert(s@ == cs);
        let m = s.unicode_len();
        let mut k: usize = 0;
        proof {
            assert(cs.take(0) =~= Seq::<char>::empty());
        }
        while k < m
            invariant
                k <= m,
                acc <= limit,
                acc == seqs_utf8_len(qs.take(i as int)) + str_utf8_len(cs.take(k as int)),
            decreases m - k,
        {
            let c = s.get_char(k);
            let l = char_utf8_len_exec(c);
            proof {
                assert(cs.take(k as int + 1).drop_last() =~= cs.take(k as int));
                assert(cs.take(k as int + 1).last() == cs[k as int]);
            }
            if acc + l > limit {
                proof {
                    lemma_str_utf8_prefix_bound(cs, k as int + 1);
                    assert(qs.take(i as int + 1).drop_last() =~= qs.take(i as int));
                    assert(qs.take(i as int + 1).last() == cs);
                    lemma_seqs_utf8_prefix_bound(qs, i as int + 1);
                }
                return false;
            }
            acc = acc + l;
            k = k + 1;
        }
        proof {
            assert(cs.take(m as int) =~= cs);
            assert(qs.take(i as int + 1).drop_last() =~= qs.take(i as int));
            assert(qs.take(i as int + 1).last() == cs);
        }
        i = i + 1;
    }
    proof {
        assert(qs.take(n as int) =~= qs);
    }
    true
}

/// Whether a row of the entries artifact carries the given segment
/// identifier.
pub open spec fn row_in_segment(bi: int) -> spec_fn((Fragment, u64)) -> bool {
    |rw: (Fragment, u64)| rw.1 as int == bi
}

/// The entries a reload gathers into bin `bi`: the rows carrying segment
/// identifier `bi`, in row order.
pub open spec fn group_rows(rows: Seq<(Fragment, u64)>, bi: int) -> Seq<Fragment> {
    rows.filter(row_in_segment(bi)).map_values(|rw: (Fragment, u64)| rw.0)
}

/// A filter whose predicate holds everywhere keeps everything.
proof fn lemma_filter_all<T>(s: Seq<T>, pred: spec_fn(T) -> bool)
    requires
        forall|k: int| 0 <= k < s.len() ==> pred(#[trigger] s[k]),
    ensures
        s.filter(pred) == s,
    decreases s.len(),
{
    reveal(Seq::filter);
    if s.len() > 0 {
        lemma_filter_all(s.drop_last(), pred);
        assert(s.filter(pred) =~= s);
    }
}

/// Every row the write path produces carries a segment identifier below the
/// number of bins.
proof fn lemma_entry_rows_sid_range(bins: Seq<Seq<Fragment>>)
    requires
        bins.len() <= usize::MAX,
    ensures
        forall|j: int|
            0 <= j < entry_rows(bins).len() ==> (#[trigger] entry_rows(bins)[j]).1 < bins.len(),
    decreases bins.len(),
{
    let mapped = bins.map(
        |b: int, bin: Seq<Fragment>| bin.map_values(|e: Fragment| (e, b as u64)),
    );
    if bins.len() > 0 {
        let pre = bins.drop_last();
        let mapped_pre = pre.map(
            |b: int, bin: Seq<Fragment>| bin.map_values(|e: Fragment| (e, b as u64)),
        );
        assert(mapped.drop_last() =~= mapped_pre);
        crate::index::lemma_flatten_snoc(mapped);
        lemma_entry_rows_sid_range(pre);
        let last = bins.len() - 1;
        assert forall|j: int| 0 <= j < entry_rows(bins).len() implies (
        #[trigger] entry_rows(bins)[j]).1 < bins.len() by {
            if j < entry_rows(pre).len() {
                assert(entry_rows(bins)[j] == entry_rows(pre)[j]);
            } else {
                assert(entry_rows(bins)[j] == mapped[last][j - entry_rows(pre).len()]);
            }
        }
    }
}

/// Regrouping the write path's rows by segment identifier restores each bin
/// exactly.
proof fn lemma_group_entry_rows(bins: Seq<Seq<Fragment>>, bi: int)
    requires
        0 <= bi < bins.len(),
        bins.len() <= usize::MAX,
    ensures
        group_rows(entry_rows(bins), bi) == bins[bi],
    decreases bins.len(),
{
    broadcast use vstd::seq_lib::group_filter_ensures;

    let mapped = bins.map(
        |b: int, bin: Seq<Fragment>| bin.map_values(|e: Fragment| (e, b as u64)),
    );
    let pre = bins.drop_last();
    let mapped_pre = pre.map(
        |b: int, bin: Seq<Fragment>| bin.map_values(|e: Fragment| (e, b as u64)),
    );
    assert(mapped.drop_last() =~= mapped_pre);
    crate::index::lemma_flatten_snoc(mapped);
    let last = bins.len() - 1;
    let block = mapped[last];
    let pred = row_in_segment(bi);
    assert(entry_rows(bins) == entry_rows(pre) + block);
    if bi == last {
        lemma_entry_rows_sid_range(pre);
        assert forall|k: int| 0 <= k < entry_rows(pre).len() implies !pred(
            #[trigger] entry_rows(pre)[k],
        ) by {}
        crate::index::lemma_filter_none(entry_rows(pre), pred);
        assert forall|k: int| 0 <= k < block.len() implies pred(#[trigger] block[k]) by {
            assert(block[k] == (bins[last][k], last as u64));
        }
        lemma_filter_all(block, pred);
        assert(group_rows(entry_rows(bins), bi) =~= bins[bi]);
    } else {
        lemma_group_entry_rows(pre, bi);
        assert forall|k: int| 0 <= k < block.len() implies !pred(#[trigger] block[k]) by {
            assert(block[k] == (bins[last][k], last as u64));
        }
        crate::index::lemma_filter_none(block, pred);
        assert(entry_rows(pre).filter(pred) + block.filter(pred) =~= entry_rows(pre).filter(
            pred,
        ));
        assert(group_rows(entry_rows(bins), bi) =~= group_rows(entry_rows(pre), bi));
        assert(bins[bi] == pre[bi]);
    }
}

/// Reconstructs an index from its three artifacts: the metadata record gives
/// the configuration and the bin count, the parents artifact gives the parent
/// list in file order with no re-sort, and the entries artifact's rows are
/// regrouped into bins by their recorded segment identifier — bin membership
/// is not re-derived from masses.  Reading what `write_fragment_index` wrote
/// for a well-formed index always succeeds and restores the index's whole
/// model; an artifact that does not decode, or rows naming a segment beyond
/// the bin count, fail with the artifact's decode error.
#[verifier::loop_isolation(false)]
pub fn read_fragment_index(archive: &IndexArchive) -> (r: Result<
    SearchIndex<Fragment, Peptide>,
    ArchiveError,
>)
    ensures
        forall|ix: SearchIndex<Fragment, Peptide>, c: u8, l: u8|
            #[trigger] archive_encodes(ix, archive.metadata@, archive.parents@, archive.entries@, c, l)
                && ix.wf() ==> r is Ok && index_models_match(r.unwrap(), ix),
        r matches Err(e) ==> e is Malformed,
{
    broadcast use vstd::seq_lib::group_filter_ensures;

    let ghost am = archive.metadata@;
    let ghost ap = archive.parents@;
    let ghost ae = archive.entries@;
    let meta = decode_metadata(archive.metadata.as_slice());
    let (bpd, maxm) = match meta {
        Some(t) => t,
        None => {
            proof {
                assert forall|ix: SearchIndex<Fragment, Peptide>, c: u8, l: u8| !(
                #[trigger] archive_encodes(ix, am, ap, ae, c, l) && ix.wf()) by {
                    if archive_encodes(ix, am, ap, ae, c, l) && ix.wf() {
                        assert(meta == Some((ix.bins_per_dalton, ix.max_item_mass)));
                    }
                }
            }
            return Err(ArchiveError::Malformed(ArchiveArtifact::Metadata));
        },
    };
    proof {
        vstd::arithmetic::mul::lemma_mul_upper_bound(
            maxm as int,
            u64::MAX as int,
            bpd as int,
            u32::MAX as int,
        );
    }
    let nb_wide: u128 = (maxm as u128 * bpd as u128) / (MASS_SCALE as u128) + 1;
    assert(nb_wide == bin_index_of(maxm as int, bpd) + 1);
    if nb_wide > usize::MAX as u128 {
        proof {
            assert forall|ix: SearchIndex<Fragment, Peptide>, c: u8, l: u8| !(
            #[trigger] archive_encodes(ix, am, ap, ae, c, l) && ix.wf()) by {
                if archive_encodes(ix, am, ap, ae, c, l) && ix.wf() {
                    assert(bpd == ix.bins_per_dalton && maxm == ix.max_item_mass);
                    assert(vstd::std_specs::vec::spec_vec_len(&ix.bins) == ix.bins@.len());
                    assert(ix.bins@.len() == nb_wide);
                }
            }
        }
        return Err(ArchiveError::Malformed(ArchiveArtifact::Metadata));
    }
    let nb: usize = nb_wide as usize;

    let pcols = match decode_peptides(archive.parents.as_slice()) {
        Some(c) => c,
        None => {
            proof {
                assert forall|ix: SearchIndex<Fragment, Peptide>, c: u8, l: u8| !(
                #[trigger] archive_encodes(ix, am, ap, ae, c, l) && ix.wf()) by {
                    if archive_encodes(ix, am, ap, ae, c, l) && ix.wf() {
                        assert(ap == peptide_parquet(
                            parent_masses(ix.parents@),
                            parent_ids_col(ix.parents@),
                            parent_aux_as(ix.parents@),
                            parent_aux_bs(ix.parents@),
                            parent_sequences(ix.parents@),
                            c,
                            l,
                        ));
                    }
                }
            }
            return Err(ArchiveError::Malformed(ArchiveArtifact::Parents));
        },
    };
    let np = pcols.masses.len();
    let mut parents: Vec<Peptide> = Vec::new();
    let mut i: usize = 0;
    while i < np
        invariant
            i <= np,
            np == pcols.masses@.len(),
            np == pcols.ids@.len() && np == pcols.aux_as@.len() && np == pcols.aux_bs@.len()
                && np == pcols.sequences@.len(),
            parents@.len() == i,
            forall|j: int| 0 <= j < i ==> (#[trigger] parents@[j]).mass == pcols.masses@[j],
            forall|j: int| 0 <= j < i ==> (#[trigger] parents@[j]).id as u64 == pcols.ids@[j],
            forall|j: int| 0 <= j < i ==> (#[trigger] parents@[j]).aux_a == pcols.aux_as@[j],
            forall|j: int| 0 <= j < i ==> (#[trigger] parents@[j]).aux_b == pcols.aux_bs@[j],
            forall|j: int| 0 <= j < i ==> (#[trigger] parents@[j]).sequence@ == pcols.sequences@[j]@,
        decreases np - i,
    {
        let id_wide = pcols.ids[i];
        if id_wide > usize::MAX as u64 {
            proof {
                assert forall|ix: SearchIndex<Fragment, Peptide>, c: u8, l: u8| !(
                #[trigger] archive_encodes(ix, am, ap, ae, c, l) && ix.wf()) by {
                    if archive_encodes(ix, am, ap, ae, c, l) && ix.wf() {
                        assert(ap == peptide_parquet(
                            parent_masses(ix.parents@),
                            parent_ids_col(ix.parents@),
                            parent_aux_as(ix.parents@),
                            parent_aux_bs(ix.parents@),
                            parent_sequences(ix.parents@),
                            c,
                            l,
                        ));
                        assert(pcols.ids@ == parent_ids_col(ix.parents@));
                        assert(pcols.ids@[i as int] == (ix.parents@[i as int]).id as u64);
                    }
                }
            }
            return Err(ArchiveError::Malformed(ArchiveArtifact::Parents));
        }
        let p = Peptide {
            mass: pcols.masses[i],
            id: id_wide as usize,
            aux_a: pcols.aux_as[i],
            aux_b: pcols.aux_bs[i],
            sequence: String::from_str(pcols.sequences[i].as_str()),
        };
        parents.push(p);
        i = i + 1;
    }

    let fcols = match decode_fragments(archive.entries.as_slice()) {
        Some(c) => c,
        None => {
            proof {
                assert forall|ix: SearchIndex<Fragment, Peptide>, c: u8, l: u8| !(
                #[trigger] archive_encodes(ix, am, ap, ae, c, l) && ix.wf()) by {
                    if archive_encodes(ix, am, ap, ae, c, l) && ix.wf() {
                        let rows = entry_rows(ix.entry_seqs());
                        assert(ae == fragment_parquet(
                            rows_masses(rows),
                            rows_parent_ids(rows),
                            rows_series(rows),
                            rows_ordinals(rows),
                            rows_segments(rows),
                            c,
                            l,
                        ));
                    }
                }
            }
            return Err(ArchiveError::Malformed(ArchiveArtifact::Entries));
        },
    };
    let nr = fcols.masses.len();
    let mut bins: Vec<Vec<Fragment>> = Vec::new();
    let mut b: usize = 0;
    while b < nb
        invariant
            b <= nb,
            bins@.len() == b,
            forall|k: int| 0 <= k < b ==> (#[trigger] bins@[k]@).len() == 0,
        decreases nb - b,
    {
        bins.push(Vec::new());
        b = b + 1;
    }
    let ghost mut rows_done: Seq<(Fragment, u64)> = Seq::empty();
    proof {
        assert forall|bi: int| 0 <= bi < nb implies #[trigger] bins@[bi]@ == group_rows(
            rows_done,
            bi,
        ) by {
            crate::index::lemma_filter_none(rows_done, row_in_segment(bi));
            assert(bins@[bi]@ =~= group_rows(rows_done, bi));
        }
    }
    let mut j: usize = 0;
    while j < nr
        invariant
            j <= nr,
            nr == fcols.masses@.len(),
            nr == fcols.parent_ids@.len() && nr == fcols.series@.len() && nr
                == fcols.ordinals@.len() && nr == fcols.segments@.len(),
            bins@.len() == nb,
            rows_done.len() == j,
            forall|jj: int|
                0 <= jj < j ==> (#[trigger] rows_done[jj]).0.mass == fcols.masses@[jj]
                    && rows_done[jj].0.parent_id as u64 == fcols.parent_ids@[jj]
                    && rows_done[jj].0.series == series_of_code(fcols.series@[jj])
                    && rows_done[jj].0.ordinal == fcols.ordinals@[jj] && rows_done[jj].1
                    == fcols.segments@[jj],
            forall|bi: int| 0 <= bi < nb ==> #[trigger] bins@[bi]@ == group_rows(rows_done, bi),
        decreases nr - j,
    {
        let sid_wide = fcols.segments[j];
        let pid_wide = fcols.parent_ids[j];
        if sid_wide >= nb as u64 || pid_wide > usize::MAX as u64 {
            proof {
                assert forall|ix: SearchIndex<Fragment, Peptide>, c: u8, l: u8| !(
                #[trigger] archive_encodes(ix, am, ap, ae, c, l) && ix.wf()) by {
                    if archive_encodes(ix, am, ap, ae, c, l) && ix.wf() {
                        let rows = entry_rows(ix.entry_seqs());
                        assert(ae == fragment_parquet(
                            rows_masses(rows),
                            rows_parent_ids(rows),
                            rows_series(rows),
                            rows_ordinals(rows),
                            rows_segments(rows),
                            c,
                            l,
                        ));
                        assert(nr == rows.len());
                        assert(fcols.segments@[j as int] == rows_segments(rows)[j as int]);
                        assert(fcols.parent_ids@[j as int] == rows_parent_ids(rows)[j as int]);
                        assert(rows_segments(rows)[j as int] == (rows[j as int]).1);
                        assert(rows_parent_ids(rows)[j as int] == rows[j as int].0.parent_id as u64);
                        assert(vstd::std_specs::vec::spec_vec_len(&ix.bins) == ix.bins@.len());
                        lemma_entry_rows_sid_range(ix.entry_seqs());
                        assert(ix.bins@.len() == nb);
                    }
                }
            }
            return Err(ArchiveError::Malformed(ArchiveArtifact::Entries));
        }
        let sid = sid_wide as usize;
        let e = Fragment {
            mass: fcols.masses[j],
            parent_id: pid_wide as usize,
            series: series_of_code_exec(fcols.series[j]),
            ordinal: fcols.ordinals[j],
        };
        bins[sid].push(e);
        proof {
            let ghost prev = rows_done;
            rows_done = rows_done.push((e, sid_wide));
            reveal(Seq::filter);
            assert forall|bi: int| 0 <= bi < nb implies #[trigger] bins@[bi]@ == group_rows(
                rows_done,
                bi,
            ) by {
                let pred = row_in_segment(bi);
                assert(rows_done.drop_last() =~= prev);
                assert(rows_done.last() == (e, sid_wide));
                if bi == sid as int {
                    assert(pred((e, sid_wide)));
                    assert(rows_done.filter(pred) == prev.filter(pred).push((e, sid_wide)));
                    assert(bins@[bi]@ =~= group_rows(rows_done, bi));
                } else {
                    assert(!pred((e, sid_wide)));
                    assert(rows_done.filter(pred) == prev.filter(pred));
                    assert(bins@[bi]@ =~= group_rows(rows_done, bi));
                }
            }
        }
        j = j + 1;
    }

    let out = SearchIndex { bins, parents, bins_per_dalton: bpd, max_item_mass: maxm };
    proof {
        assert forall|ix: SearchIndex<Fragment, Peptide>, c: u8, l: u8|
            #[trigger] archive_encodes(ix, am, ap, ae, c, l) && ix.wf() implies index_models_match(
            out,
            ix,
        ) by {
            assert(bpd == ix.bins_per_dalton && maxm == ix.max_item_mass);
            assert(ap == peptide_parquet(
                parent_masses(ix.parents@),
                parent_ids_col(ix.parents@),
                parent_aux_as(ix.parents@),
                parent_aux_bs(ix.parents@),
                parent_sequences(ix.parents@),
                c,
                l,
            ));
            assert(vstd::std_specs::vec::spec_vec_len(&ix.bins) == ix.bins@.len());
            assert(ix.bins@.len() == nb);
            assert(np == ix.parents@.len());
            assert forall|k: int| 0 <= k < np implies peptide_eq(
                #[trigger] out.parents@[k],
                ix.parents@[k],
            ) by {
                assert(parent_masses(ix.parents@)[k] == ix.parents@[k].mass);
                assert(parent_ids_col(ix.parents@)[k] == ix.parents@[k].id as u64);
                assert(parent_aux_as(ix.parents@)[k] == ix.parents@[k].aux_a);
                assert(parent_aux_bs(ix.parents@)[k] == ix.parents@[k].aux_b);
                assert(parent_sequences(ix.parents@)[k] == ix.parents@[k].sequence@);
            }
            let rows = entry_rows(ix.entry_seqs());
            assert(ae == fragment_parquet(
                rows_masses(rows),
                rows_parent_ids(rows),
                rows_series(rows),
                rows_ordinals(rows),
                rows_segments(rows),
                c,
                l,
            ));
            assert(nr == rows.len());
            assert forall|jj: int| 0 <= jj < nr implies rows_done[jj] == #[trigger] rows[jj] by {
                assert(rows_masses(rows)[jj] == rows[jj].0.mass);
                assert(rows_parent_ids(rows)[jj] == rows[jj].0.parent_id as u64);
                assert(rows_series(rows)[jj] == series_code(rows[jj].0.series));
                assert(rows_ordinals(rows)[jj] == rows[jj].0.ordinal);
                assert(rows_segments(rows)[jj] == rows[jj].1);
                assert(series_of_code(series_code(rows[jj].0.series)) == rows[jj].0.series);
                assert(rows_done[jj].0.parent_id == rows[jj].0.parent_id);
            }
            assert(rows_done =~= rows);
            assert forall|bi: int| 0 <= bi < nb implies #[trigger] out.bins@[bi]@
                == ix.bins@[bi]@ by {
                lemma_group_entry_rows(ix.entry_seqs(), bi);
                assert(ix.entry_seqs()[bi] == ix.bins@[bi]@);
            }
        }
    }
    Ok(out)
}

/// Round trip: an index reloaded from its own archive is well-formed again,
/// has the same parent count and the same total entry count as the original,
/// and every entry sits in the same bin as before — serialization moves no
/// entry across bins.
pub proof fn lemma_archive_round_trip(
    ix: SearchIndex<Fragment, Peptide>,
    out: SearchIndex<Fragment, Peptide>,
)
    requires
        ix.wf(),
        index_models_match(out, ix),
    ensures
        out.wf(),
        out.parents@.len() == ix.parents@.len(),
        out.total_entries() == ix.total_entries(),
        forall|b: int, k: int|
            0 <= b < out.bins@.len() && 0 <= k < out.bins@[b]@.len() ==> (
            #[trigger] out.bins@[b]@[k]) == ix.bins@[b]@[k] && bin_index_of(
                out.bins@[b]@[k].mass_spec() as int,
                out.bins_per_dalton,
            ) == b,
{
    crate::index::lemma_flatten_len_pointwise(out.entry_seqs(), ix.entry_seqs());
}

/// Whether two parent lists agree record by record in every attribute.
pub open spec fn peptides_match(x: Seq<Peptide>, y: Seq<Peptide>) -> bool {
    x.len() == y.len() && forall|i: int| 0 <= i < x.len() ==> peptide_eq(#[trigger] x[i], y[i])
}

/// An archived index opened without materializing its entries: the metadata
/// record is decoded eagerly, the parent list is loaded whole once so that
/// parent-range lookups can binary-search it, and the entries artifact is
/// never read.
pub struct SearchIndexOnDisk {
    pub metadata: IndexMetadata,
    pub parents: Vec<Peptide>,
}

impl SearchIndexOnDisk {
    /// Opens the handle from the metadata and parents artifacts.  Opening
    /// what the write path produced always succeeds and restores the
    /// configuration and the parent list; an artifact that does not decode
    /// fails with that artifact's decode error.
    #[verifier::loop_isolation(false)]
    pub fn new(metadata_bytes: &Vec<u8>, parents_bytes: &Vec<u8>) -> (r: Result<
        Self,
        ArchiveError,
    >)
        ensures
            forall|b: u32, m: u64, ps: Seq<Peptide>, c: u8, l: u8|
                #![trigger meta_json(b, m), peptide_parquet(parent_masses(ps), parent_ids_col(ps), parent_aux_as(ps), parent_aux_bs(ps), parent_sequences(ps), c, l)]
                metadata_bytes@ == meta_json(b, m) && parents_bytes@ == peptide_parquet(
                    parent_masses(ps),
                    parent_ids_col(ps),
                    parent_aux_as(ps),
                    parent_aux_bs(ps),
                    parent_sequences(ps),
                    c,
                    l,
                ) ==> r is Ok && r.unwrap().metadata == (IndexMetadata {
                    bins_per_dalton: b,
                    max_item_mass: m,
                }) && peptides_match(r.unwrap().parents@, ps),
            r matches Err(e) ==> e is Malformed,
    {
        let meta = match decode_metadata(metadata_bytes.as_slice()) {
            Some((b, m)) => IndexMetadata { bins_per_dalton: b, max_item_mass: m },
            None => {
            proof {
                assert forall|b: u32, m: u64, ps: Seq<Peptide>, c: u8, l: u8|
                    #![trigger meta_json(b, m), peptide_parquet(parent_masses(ps), parent_ids_col(ps), parent_aux_as(ps), parent_aux_bs(ps), parent_sequences(ps), c, l)]
                    !(metadata_bytes@ == meta_json(b, m) && parents_bytes@ == peptide_parquet(
                        parent_masses(ps),
                        parent_ids_col(ps),
                        parent_aux_as(ps),
                        parent_aux_bs(ps),
                        parent_sequences(ps),
                        c,
                        l,
                    )) by {}
            }
                return Err(ArchiveError::Malformed(ArchiveArtifact::Metadata));
            },
        };
        let pcols = match decode_peptides(parents_bytes.as_slice()) {
            Some(c) => c,
            None => {
            proof {
                assert forall|b: u32, m: u64, ps: Seq<Peptide>, c: u8, l: u8|
                    #![trigger meta_json(b, m), peptide_parquet(parent_masses(ps), parent_ids_col(ps), parent_aux_as(ps), parent_aux_bs(ps), parent_sequences(ps), c, l)]
                    !(metadata_bytes@ == meta_json(b, m) && parents_bytes@ == peptide_parquet(
                        parent_masses(ps),
                        parent_ids_col(ps),
                        parent_aux_as(ps),
                        parent_aux_bs(ps),
                        parent_sequences(ps),
                        c,
                        l,
                    )) by {}
            }
                return Err(ArchiveError::Malformed(ArchiveArtifact::Parents));
            },
        };
        let np = pcols.masses.len();
        let mut parents: Vec<Peptide> = Vec::new();
        let mut i: usize = 0;
        while i < np
            invariant
                i <= np,
                np == pcols.masses@.len(),
                np == pcols.ids@.len() && np == pcols.aux_as@.len() && np == pcols.aux_bs@.len()
                    && np == pcols.sequences@.len(),
                parents@.len() == i,
                forall|j: int| 0 <= j < i ==> (#[trigger] parents@[j]).mass == pcols.masses@[j],
                forall|j: int| 0 <= j < i ==> (#[trigger] parents@[j]).id as u64 == pcols.ids@[j],
                forall|j: int| 0 <= j < i ==> (#[trigger] parents@[j]).aux_a == pcols.aux_as@[j],
                forall|j: int| 0 <= j < i ==> (#[trigger] parents@[j]).aux_b == pcols.aux_bs@[j],
                forall|j: int|
                    0 <= j < i ==> (#[trigger] parents@[j]).sequence@ == pcols.sequences@[j]@,
            decreases np - i,
        {
            let id_wide = pcols.ids[i];
            if id_wide > usize::MAX as u64 {
                proof {
                    assert forall|b: u32, m: u64, ps: Seq<Peptide>, c: u8, l: u8|
                        #![trigger meta_json(b, m), peptide_parquet(parent_masses(ps), parent_ids_col(ps), parent_aux_as(ps), parent_aux_bs(ps), parent_sequences(ps), c, l)]
                        !(metadata_bytes@ == meta_json(b, m) && parents_bytes@ == peptide_parquet(
                            parent_masses(ps),
                            parent_ids_col(ps),
                            parent_aux_as(ps),
                            parent_aux_bs(ps),
                            parent_sequences(ps),
                            c,
                            l,
                        )) by {
                        if parents_bytes@ == peptide_parquet(
                            parent_masses(ps),
                            parent_ids_col(ps),
                            parent_aux_as(ps),
                            parent_aux_bs(ps),
                            parent_sequences(ps),
                            c,
                            l,
                        ) {
                            assert(pcols.ids@ == parent_ids_col(ps));
                            assert(pcols.ids@[i as int] == (ps[i as int]).id as u64);
                        }
                    }
                }
                return Err(ArchiveError::Malformed(ArchiveArtifact::Parents));
            }
            let p = Peptide {
                mass: pcols.masses[i],
                id: id_wide as usize,
                aux_a: pcols.aux_as[i],
                aux_b: pcols.aux_bs[i],
                sequence: String::from_str(pcols.sequences[i].as_str()),
            };
            parents.push(p);
            i = i + 1;
        }
        let out = SearchIndexOnDisk { metadata: meta, parents };
        proof {
            assert forall|b: u32, m: u64, ps: Seq<Peptide>, c: u8, l: u8|
                #![trigger meta_json(b, m), peptide_parquet(parent_masses(ps), parent_ids_col(ps), parent_aux_as(ps), parent_aux_bs(ps), parent_sequences(ps), c, l)]
                metadata_bytes@ == meta_json(b, m) && parents_bytes@ == peptide_parquet(
                    parent_masses(ps),
                    parent_ids_col(ps),
                    parent_aux_as(ps),
                    parent_aux_bs(ps),
                    parent_sequences(ps),
                    c,
                    l,
                ) implies out.metadata == (IndexMetadata { bins_per_dalton: b, max_item_mass: m })
                && peptides_match(out.parents@, ps) by {
                assert forall|k: int| 0 <= k < np implies peptide_eq(
                    #[trigger] out.parents@[k],
                    ps[k],
                ) by {
                    assert(parent_masses(ps)[k] == ps[k].mass);
                    assert(parent_ids_col(ps)[k] == ps[k].id as u64);
                    assert(parent_aux_as(ps)[k] == ps[k].aux_a);
                    assert(parent_aux_bs(ps)[k] == ps[k].aux_b);
                    assert(parent_sequences(ps)[k] == ps[k].sequence@);
                }
            }
        }
        Ok(out)
    }

    /// Mass lookup over the loaded parent list, exactly as the in-memory
    /// index answers it; the archive must have been written with a
    /// mass-sorted parent list, which this precondition captures.
    pub fn parents_for(&self, mass: MassType, error_tolerance: Tolerance) -> (r: Interval)
        requires
            sorted_by_mass(self.parents@),
        ensures
            r.start <= r.end <= self.parents@.len(),
            r.start == crate::index::count_lt_mass(
                self.parents@,
                window_lo(mass as int, error_tolerance),
            ),
            r.end == crate::index::count_leq_mass(
                self.parents@,
                window_hi(mass as int, error_tolerance),
            ),
            forall|i: int|
                0 <= i < self.parents@.len() ==> (r.start <= i < r.end
                    <==> crate::sort::in_window(
                    (#[trigger] self.parents@[i]).mass_spec() as int,
                    mass as int,
                    error_tolerance,
                )),
    {
        crate::index::parents_interval_lookup(&self.parents, mass, error_tolerance)
    }

    /// The union interval for a whole mass range over the loaded parent
    /// list: from the start of the matching interval at `low` to the end of
    /// the matching interval at `high`.
    pub fn parents_for_range(
        &self,
        low: MassType,
        high: MassType,
        error_tolerance: Tolerance,
    ) -> (r: Interval)
        requires
            sorted_by_mass(self.parents@),
        ensures
            r.start == crate::index::count_lt_mass(
                self.parents@,
                window_lo(low as int, error_tolerance),
            ),
            r.end == crate::index::count_leq_mass(
                self.parents@,
                window_hi(high as int, error_tolerance),
            ),
            r.start <= self.parents@.len(),
            r.end <= self.parents@.len(),
            low <= high ==> r.start <= r.end,
    {
        let a = crate::index::parents_interval_lookup(&self.parents, low, error_tolerance);
        let z = crate::index::parents_interval_lookup(&self.parents, high, error_tolerance);
        proof {
            if low <= high {
                crate::index::lemma_parents_for_range_superset(
                    self.parents@,
                    low,
                    low,
                    high,
                    error_tolerance,
                );
            }
        }
        Interval { start: a.start, end: z.end }
    }
}

} // verus!
