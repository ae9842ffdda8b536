//! Reading an archive's records: decompression, tar framing, filtering.
use vstd::prelude::*;
use vstd::string::StrSliceExecFns;
use crate::entry::{EntryKind, FileOrDir, RawEntry, RawView, Timestamp, raw_views};
use crate::path::{file_name_of, is_indicator_name, is_indicator_path, trim_slashes,
    trim_trailing_slashes};
use crate::tree::{build_tree, built_forest, has_empty_dir};

verus! {

/// std's I/O error, carried through unopened.
#[verifier::external_type_specification]
#[verifier::external_body]
pub struct ExIoError(std::io::Error);

/// Why an archive could not be loaded.
#[derive(Debug)]
pub enum ArchiveError {
    /// The bytes could not be decompressed or read as tar records.
    Io(std::io::Error),
    /// A directory record with an empty path would be its own parent.
    Malformed,
}

/// One record as the tar reader reports it: the path as written in the
/// archive, whether its type tag says directory, its size, and its
/// modification time when the header holds a readable one.
#[derive(Clone, Debug, PartialEq, Eq)]
pub struct TarRecord {
    pub path: String,
    pub is_dir: bool,
    pub size: u64,
    pub mtime: Option<u64>,
}

/// What a tar record holds, with its path as characters.
pub struct RecordView {
    pub path: Seq<char>,
    pub is_dir: bool,
    pub size: u64,
    pub mtime: Option<u64>,
}

impl View for TarRecord {
    type V = RecordView;

    open spec fn view(&self) -> RecordView {
        RecordView { path: self.path@, is_dir: self.is_dir, size: self.size, mtime: self.mtime }
    }
}

/// The views of a list of tar records.
pub open spec fn record_views(recs: Seq<TarRecord>) -> Seq<RecordView> {
    recs.map_values(|t: TarRecord| t@)
}

/// The bytes that gzip-decoding `b` yields, or none when `b` is not gzip data.
pub uninterp spec fn gunzip_of(b: Seq<u8>) -> Option<Seq<u8>>;

/// The records that reading `b` as a tar archive yields, in order, or none
/// when the reading fails.
pub uninterp spec fn tar_records_of(b: Seq<u8>) -> Option<Seq<RecordView>>;

/// Relies on flate2's `bufread::GzDecoder` read to the end: the decoded bytes
/// of `data`, or the error that stopped decoding.
#[verifier::external_body]
fn gunzip(data: &Vec<u8>) -> (r: Result<Vec<u8>, std::io::Error>)
    ensures
        match r {
            Ok(v) => gunzip_of(data@) == Some(v@),
            Err(_) => gunzip_of(data@) is None,
        },
{
    let mut out = Vec::new();
    let mut decoder = flate2::bufread::GzDecoder::new(data.as_slice());
    std::io::Read::read_to_end(&mut decoder, &mut out)?;
    Ok(out)
}

/// Relies on tar's `Archive::entries` over the bytes: the records of the
/// archive in `data`, in archive order, or the first error met. Each record
/// is converted one for one: `Entry::path` (as a `String`, invalid UTF-8
/// replaced), `EntryType::is_dir` of the header's type tag, `Header::size`,
/// and `Header::mtime` (absent when the field cannot be read).
#[verifier::external_body]
fn tar_records(data: &Vec<u8>) -> (r: Result<Vec<TarRecord>, std::io::Error>)
    ensures
        match r {
            Ok(v) => tar_records_of(data@) == Some(record_views(v@)),
            Err(_) => tar_records_of(data@) is None,
        },
{
    let mut archive = tar::Archive::new(data.as_slice());
    let records = archive.entries()?.map(|entry| {
        let entry = entry?;
        let header = entry.header();
        Ok(TarRecord {
            path: entry.path()?.to_string_lossy().into_owned(),
            is_dir: header.entry_type().is_dir(),
            size: header.size()?,
            mtime: header.mtime().ok(),
        })
    }).collect();
    records
}

/// Whether an archive name calls for gzip decoding: its last segment ends in
/// `.gz` after at least one other character.
pub open spec fn is_gz_name(name: Seq<char>) -> bool {
    let f = file_name_of(trim_slashes(name));
    f.len() > 3 && f[f.len() - 3] == '.' && f[f.len() - 2] == 'g' && f[f.len() - 1] == 'z'
}

/// Whether an archive with this name is gzip-compressed.
pub fn is_gzip_name(name: &str) -> (r: bool)
    ensures
        r == is_gz_name(name@),
{
    let trimmed = trim_trailing_slashes(name);
    let t = trimmed.as_str();
    let n = t.unicode_len();
    let mut start: usize = n;
    while start > 0 && t.get_char(start - 1) != '/'
        invariant
            start <= n == t@.len(),
            forall|j: int| start <= j < n ==> t@[j] != '/',
        decreases start,
    {
        start = start - 1;
    }
    proof {
        crate::path::lemma_last_slash_bounds(t@);
        lemma_start_is_file_name(t@, start as int);
    }
    n - start > 3 && t.get_char(n - 3) == '.' && t.get_char(n - 2) == 'g' && t.get_char(n - 1)
        == 'z'
}

proof fn lemma_start_is_file_name(p: Seq<char>, start: int)
    requires
        0 <= start <= p.len(),
        forall|j: int| start <= j < p.len() ==> p[j] != '/',
        start == 0 || p[start - 1] == '/',
    ensures
        file_name_of(p) == p.subrange(start, p.len() as int),
    decreases p.len(),
{
    crate::path::lemma_last_slash_bounds(p);
    if start > 0 {
        crate::path::lemma_last_slash_at(p, start - 1);
    } else if crate::path::last_slash(p) >= 0 {
        assert(p[crate::path::last_slash(p)] == '/');
    }
}

/// Whether a record stays: always when indicator files are shown, else when
/// its file name is not an indicator name.
pub open spec fn is_kept(rec: RecordView, show_indicator: bool) -> bool {
    show_indicator || !is_indicator_name(file_name_of(trim_slashes(rec.path)))
}

/// The entry a record becomes: kind from its type tag, path without trailing
/// slashes, and its time, or the epoch when the header held none.
pub open spec fn entry_of_record(rec: RecordView) -> RawView {
    RawView {
        kind: if rec.is_dir {
            EntryKind::Directory
        } else {
            EntryKind::File
        },
        path: trim_slashes(rec.path),
        size: rec.size,
        modified: Timestamp {
            secs: match rec.mtime {
                Some(t) => t,
                None => 0,
            },
        },
    }
}

/// The entries that the records keep, in archive order.
pub open spec fn kept_entries(recs: Seq<RecordView>, show_indicator: bool) -> Seq<RawView>
    decreases recs.len(),
{
    if recs.len() == 0 {
        Seq::empty()
    } else {
        let prev = kept_entries(recs.drop_last(), show_indicator);
        if is_kept(recs.last(), show_indicator) {
            prev.push(entry_of_record(recs.last()))
        } else {
            prev
        }
    }
}

/// What loading the records `recs` gives: the tree built from the kept
/// entries, or `Malformed` exactly when one of them is a directory with an
/// empty path.
pub open spec fn loaded_from(
    recs: Seq<RecordView>,
    show_indicator: bool,
    r: Result<Vec<FileOrDir>, ArchiveError>,
) -> bool {
    let raws = kept_entries(recs, show_indicator);
    match r {
        Ok(forest) => !has_empty_dir(raws) && built_forest(raws, Seq::empty(), forest@),
        Err(e) => has_empty_dir(raws) && e is Malformed,
    }
}

/// Turns tar records into entries, dropping indicator files unless they are
/// shown.
pub fn entries_from_records(records: &Vec<TarRecord>, show_indicator: bool) -> (r: Vec<
    RawEntry,
>)
    ensures
        raw_views(r@) == kept_entries(record_views(records@), show_indicator),
{
    let mut r: Vec<RawEntry> = Vec::new();
    let mut i: usize = 0;
    while i < records.len()
        invariant
            i <= records.len(),
            raw_views(r@) == kept_entries(record_views(records@).subrange(0, i as int), show_indicator),
        decreases records.len() - i,
    {
        let rec = &records[i];
        let ghost prev = r@;
        let ghost recs = record_views(records@);
        assert(recs.subrange(0, i + 1).drop_last() == recs.subrange(0, i as int));
        assert(recs[i as int] == rec@);
        let path = trim_trailing_slashes(rec.path.as_str());
        if show_indicator || !is_indicator_path(path.as_str()) {
            let kind = if rec.is_dir {
                EntryKind::Directory
            } else {
                EntryKind::File
            };
            let secs: u64 = match rec.mtime {
                Some(t) => t,
                None => 0,
            };
            r.push(RawEntry { kind, path, size: rec.size, modified: Timestamp { secs } });
            assert(raw_views(r@) =~= raw_views(prev).push(entry_of_record(rec@)));
        }
        i = i + 1;
    }
    assert(record_views(records@).subrange(0, i as int) == record_views(records@));
    r
}

/// Builds the tree of an archive from its tar records.
pub fn contents_from_records(records: &Vec<TarRecord>, show_indicator: bool) -> (r: Result<
    Vec<FileOrDir>,
    ArchiveError,
>)
    ensures
        loaded_from(record_views(records@), show_indicator, r),
{
    let raws = entries_from_records(records, show_indicator);
    build_tree(&raws)
}

/// The tar bytes behind an archive's raw bytes: decoded when the name calls
/// for gzip, as they are otherwise.
pub open spec fn tar_bytes(name: Seq<char>, data: Seq<u8>) -> Option<Seq<u8>> {
    if is_gz_name(name) {
        gunzip_of(data)
    } else {
        Some(data)
    }
}

/// Loads the tree of the archive `name` whose bytes are `data`: decompressed
/// when the name ends in `.gz`, read as tar records, filtered and built.
pub fn read_tar_contents(name: &str, data: &Vec<u8>, show_indicator: bool) -> (r: Result<
    Vec<FileOrDir>,
    ArchiveError,
>)
    ensures
        match tar_bytes(name@, data@) {
            None => r is Err && r->Err_0 is Io,
            Some(b) => match tar_records_of(b) {
                None => r is Err && r->Err_0 is Io,
                Some(recs) => loaded_from(recs, show_indicator, r),
            },
        },
{
    let records = if is_gzip_name(name) {
        match gunzip(data) {
            Ok(bytes) => tar_records(&bytes),
            Err(e) => {
                return Err(ArchiveError::Io(e));
            },
        }
    } else {
        tar_records(data)
    };
    match records {
        Ok(recs) => contents_from_records(&recs, show_indicator),
        Err(e) => Err(ArchiveError::Io(e)),
    }
}

} // verus!
