//! Rewriting the metadata entry of a comic archive: every other entry is
//! carried over unchanged, and the whole new archive is built in memory.

use vstd::prelude::*;
use std::io::Cursor;
use zip::write::SimpleFileOptions;
use zip::{CompressionMethod, ZipArchive, ZipWriter};
use crate::codec::{decode_document, document_markup, document_record, encode_document};
use crate::comic_info::{empty_record, merged, ComicInfo, ComicInfoModel, MergePolicy};
use crate::error::RewriteError;
use crate::text::chars_of;

verus! {

/// What an archive entry holds.
pub struct EntryModel {
    pub name: Seq<char>,
    pub data: Seq<u8>,
    pub method: Option<u16>,
    pub unix_mode: Option<u32>,
}

/// One entry of an archive, decompressed.
#[derive(Debug, Clone)]
pub struct ArchiveEntry {
    /// Name of the entry, with its directories.
    pub name: String,
    /// The entry's content.
    pub data: Vec<u8>,
    /// The compression method code; `None` asks the writer for its default.
    pub method: Option<u16>,
    /// Unix mode, when the archive records one. The zip writer stores only
    /// its permission bits (`mode & 0o777`).
    pub unix_mode: Option<u32>,
}

impl View for ArchiveEntry {
    type V = EntryModel;

    open spec fn view(&self) -> EntryModel {
        EntryModel { name: self.name@, data: self.data@, method: self.method, unix_mode: self.unix_mode }
    }
}

pub open spec fn entries_view(es: Seq<ArchiveEntry>) -> Seq<EntryModel> {
    es.map_values(|e: ArchiveEntry| e@)
}

/// The name of the metadata entry, at the root of the archive.
pub open spec fn metadata_name() -> Seq<char> {
    seq!['C', 'o', 'm', 'i', 'c', 'I', 'n', 'f', 'o', '.', 'x', 'm', 'l']
}

pub open spec fn is_metadata(e: EntryModel) -> bool {
    e.name == metadata_name()
}

/// Some entry of `src` is the metadata entry.
pub open spec fn has_metadata(src: Seq<EntryModel>) -> bool {
    exists|i: int| 0 <= i < src.len() && is_metadata(#[trigger] src[i])
}

/// The content that replaces a metadata entry: the document of the merge of
/// the stored record `existing` with `candidate`.
pub open spec fn metadata_content(policy: MergePolicy, existing: ComicInfoModel, candidate: ComicInfoModel) -> Seq<u8> {
    document_markup(merged(policy, existing, candidate))
}

/// The entry that replaces `e` in a rewrite with `candidate` under
/// `policy`: a metadata entry keeps its name, method and Unix mode (of which
/// the writer stores the permission bits) and
/// holds the merge of the record it held (read as markup, see
/// [`document_record`]) with `candidate`; any other entry is kept as it is.
pub open spec fn rewrite_entry(e: EntryModel, candidate: ComicInfoModel, policy: MergePolicy) -> EntryModel {
    if is_metadata(e) {
        EntryModel { data: metadata_content(policy, document_record(e.data), candidate), ..e }
    } else {
        e
    }
}

/// The metadata entry added to an archive that has none: the merge of the
/// empty record with `candidate`, written with the writer's default options.
pub open spec fn new_metadata_entry(candidate: ComicInfoModel, policy: MergePolicy) -> EntryModel {
    EntryModel {
        name: metadata_name(),
        data: metadata_content(policy, empty_record(), candidate),
        method: None,
        unix_mode: None,
    }
}

/// The entries of the archive `src` rewritten with `candidate` under
/// `policy`: each entry in place as [`rewrite_entry`] makes it, and, when
/// `src` has no metadata entry, a new one at the end.
pub open spec fn rewrite_of(src: Seq<EntryModel>, candidate: ComicInfoModel, policy: MergePolicy) -> Seq<EntryModel> {
    let kept = src.map_values(|e: EntryModel| rewrite_entry(e, candidate, policy));
    if has_metadata(src) {
        kept
    } else {
        kept.push(new_metadata_entry(candidate, policy))
    }
}

fn metadata_name_chars() -> (r: Vec<char>)
    ensures
        r@ == metadata_name(),
{
    let r = vec!['C', 'o', 'm', 'i', 'c', 'I', 'n', 'f', 'o', '.', 'x', 'm', 'l'];
    assert(r@ =~= metadata_name());
    r
}

fn is_metadata_entry(e: &ArchiveEntry, meta: &Vec<char>) -> (r: bool)
    requires
        meta@ == metadata_name(),
    ensures
        r == is_metadata(e@),
{
    let v = chars_of(e.name.as_str());
    if v.len() != meta.len() {
        return false;
    }
    let mut i: usize = 0;
    while i < v.len()
        invariant
            v@.len() == meta@.len(),
            v@ == e.name@,
            meta@ == metadata_name(),
            i <= v@.len(),
            forall|j: int| 0 <= j < i ==> v@[j] == meta@[j],
        decreases v@.len() - i,
    {
        if v[i] != meta[i] {
            assert(v@[i as int] != meta@[i as int]);
            return false;
        }
        i += 1;
    }
    assert(v@ =~= meta@);
    true
}

fn copy_bytes(b: &Vec<u8>) -> (r: Vec<u8>)
    ensures
        r@ == b@,
{
    let mut r: Vec<u8> = Vec::new();
    let mut i: usize = 0;
    while i < b.len()
        invariant
            i <= b@.len(),
            r@ == b@.subrange(0, i as int),
        decreases b@.len() - i,
    {
        r.push(b[i]);
        i += 1;
        assert(r@ =~= b@.subrange(0, i as int));
    }
    assert(b@.subrange(0, i as int) =~= b@);
    r
}

fn copy_entry(e: &ArchiveEntry) -> (r: ArchiveEntry)
    ensures
        r@ == e@,
{
    ArchiveEntry { name: e.name.clone(), data: copy_bytes(&e.data), method: e.method, unix_mode: e.unix_mode }
}

/// The content that replaces the metadata entry whose content is `stored`.
pub fn merged_metadata(stored: &Vec<u8>, candidate: &ComicInfo, policy: MergePolicy) -> (r: Vec<u8>)
    ensures
        r@ == metadata_content(policy, document_record(stored@), candidate@),
{
    let existing = decode_document(stored);
    fresh_metadata(existing, candidate, policy)
}

/// The content of the metadata entry for the stored record `existing`.
pub fn fresh_metadata(existing: ComicInfo, candidate: &ComicInfo, policy: MergePolicy) -> (r: Vec<u8>)
    ensures
        r@ == metadata_content(policy, existing@, candidate@),
{
    let info = policy.merge(existing, candidate);
    encode_document(&info)
}

/// The entries of the archive `src` rewritten with `candidate` under
/// `policy` (see [`rewrite_of`]).
pub fn rewrite_entries(src: &Vec<ArchiveEntry>, candidate: &ComicInfo, policy: MergePolicy) -> (r: Vec<ArchiveEntry>)
    ensures
        entries_view(r@) == rewrite_of(entries_view(src@), candidate@, policy),
{
    let ghost sv = entries_view(src@);
    let ghost kept = sv.map_values(|e: EntryModel| rewrite_entry(e, candidate@, policy));
    let meta = metadata_name_chars();
    let mut out: Vec<ArchiveEntry> = Vec::new();
    let mut found = false;
    let mut i: usize = 0;
    while i < src.len()
        invariant
            i <= src@.len(),
            sv == entries_view(src@),
            kept == sv.map_values(|e: EntryModel| rewrite_entry(e, candidate@, policy)),
            meta@ == metadata_name(),
            found <==> exists|j: int| 0 <= j < i && is_metadata(#[trigger] sv[j]),
            entries_view(out@) == kept.subrange(0, i as int),
        decreases src@.len() - i,
    {
        let e = &src[i];
        assert(sv[i as int] == e@);
        let ghost before = entries_view(out@);
        if is_metadata_entry(e, &meta) {
            found = true;
            let data = merged_metadata(&e.data, candidate, policy);
            out.push(ArchiveEntry { name: e.name.clone(), data, method: e.method, unix_mode: e.unix_mode });
        } else {
            out.push(copy_entry(e));
        }
        assert(entries_view(out@) =~= before.push(kept[i as int]));
        i += 1;
        assert(kept.subrange(0, i as int) =~= kept.subrange(0, i - 1).push(kept[i - 1]));
    }
    assert(kept.subrange(0, i as int) =~= kept);
    if !found {
        let data = fresh_metadata(ComicInfo::empty(), candidate, policy);
        let name = crate::codec::chars_to_string(&meta);
        let ghost before = entries_view(out@);
        out.push(ArchiveEntry { name, data, method: None, unix_mode: None });
        assert(entries_view(out@) =~= before.push(new_metadata_entry(candidate@, policy)));
        assert(!has_metadata(sv));
    } else {
        assert(has_metadata(sv));
    }
    out
}

#[verifier::external_type_specification]
#[verifier::external_body]
#[verifier::reject_recursive_types(R)]
pub struct ExZipArchive<R>(ZipArchive<R>);

/// A zip writer over an in-memory buffer, held in a private field so that
/// only the wrappers below reach it.
#[verifier::external_body]
pub struct ArchiveWriter {
    inner: ZipWriter<Cursor<Vec<u8>>>,
}

#[verifier::external_type_specification]
#[verifier::external_body]
#[verifier::reject_recursive_types(T)]
pub struct ExCursor<T>(Cursor<T>);

#[verifier::external_type_specification]
#[verifier::external_body]
pub struct ExZipError(zip::result::ZipError);

/// The zip reader opens `bytes`: it finds a central directory.
pub uninterp spec fn archive_opens(bytes: Seq<u8>) -> bool;

/// The entries that the zip reader finds in `bytes`, in the order of its
/// central directory, each decompressed.
pub uninterp spec fn archive_entries(bytes: Seq<u8>) -> Seq<EntryModel>;

/// For each entry that the zip reader finds in `bytes`, whether it reads:
/// it is found, its name is valid and its content decompresses.
pub uninterp spec fn archive_entries_readable(bytes: Seq<u8>) -> Seq<bool>;

/// The zip reader opens `bytes` and reads every entry.
pub open spec fn archive_readable(bytes: Seq<u8>) -> bool {
    &&& archive_opens(bytes)
    &&& forall|i: int| 0 <= i < archive_entries(bytes).len() ==> #[trigger] archive_entries_readable(bytes)[i]
}

/// What an open archive holds, entry by entry.
pub uninterp spec fn zip_entries(a: ZipArchive<Cursor<Vec<u8>>>) -> Seq<EntryModel>;

/// Whether each entry of an open archive reads.
pub uninterp spec fn zip_readable(a: ZipArchive<Cursor<Vec<u8>>>) -> Seq<bool>;

/// The entries handed to a zip writer so far, in order.
pub uninterp spec fn zip_written(w: ArchiveWriter) -> Seq<EntryModel>;

/// The zip writer, having written `entries` but the last, accepts the last:
/// its name is new and its method one that the writer knows.
pub uninterp spec fn zip_accepts_last(entries: Seq<EntryModel>) -> bool;

/// The zip writer, having written `entries`, finishes the archive.
pub uninterp spec fn zip_finishes(entries: Seq<EntryModel>) -> bool;

/// The zip writer writes every one of `entries`, in order, and finishes.
pub open spec fn archive_writable(entries: Seq<EntryModel>) -> bool {
    &&& forall|k: int| 1 <= k <= entries.len() ==> #[trigger] zip_accepts_last(entries.subrange(0, k))
    &&& zip_finishes(entries)
}

/// The bytes of the archive that the zip writer makes of these entries, for
/// one build target. The writer is built without a clock (the crate's `time`
/// feature is off), so every entry gets the same default modification time
/// and the bytes depend on the entries alone. The writer keeps the low nine
/// bits (`0o777`) of an entry's Unix mode.
pub uninterp spec fn archive_bytes(entries: Seq<EntryModel>) -> Seq<u8>;

/// Relies on `zip::ZipArchive::new`: the archive is read from its central
/// directory; it fails on a corrupt container.
#[verifier::external_body]
fn open_archive(input: Vec<u8>) -> (r: Result<ZipArchive<Cursor<Vec<u8>>>, zip::result::ZipError>)
    ensures
        r is Ok <==> archive_opens(input@),
        r matches Ok(a) ==> zip_entries(a) == archive_entries(input@),
        r matches Ok(a) ==> zip_readable(a) == archive_entries_readable(input@),
        r matches Ok(a) ==> zip_readable(a).len() == zip_entries(a).len(),
{
    ZipArchive::new(Cursor::new(input))
}

/// Relies on `zip::ZipArchive::len`: the number of entries.
#[verifier::external_body]
fn archive_len(a: &ZipArchive<Cursor<Vec<u8>>>) -> (r: usize)
    ensures
        r == zip_entries(*a).len(),
{
    a.len()
}

/// Relies on `zip::ZipArchive::by_index`: entry `i`, with its name,
/// decompressed content, compression method and Unix mode.
#[verifier::external_body]
#[allow(deprecated)]
fn read_entry(a: &mut ZipArchive<Cursor<Vec<u8>>>, i: usize) -> (r: Result<ArchiveEntry, zip::result::ZipError>)
    requires
        i < zip_entries(*old(a)).len(),
    ensures
        zip_entries(*final(a)) == zip_entries(*old(a)),
        zip_readable(*final(a)) == zip_readable(*old(a)),
        r is Ok <==> zip_readable(*old(a))[i as int],
        r matches Ok(e) ==> e@ == zip_entries(*old(a))[i as int],
{
    let mut f = a.by_index(i)?;
    let mut data = Vec::new();
    std::io::Read::read_to_end(&mut f, &mut data)?;
    let name = f.name()?.into_owned();
    Ok(ArchiveEntry { name, data, method: Some(f.compression().to_u16()), unix_mode: f.unix_mode() })
}

/// Relies on `zip::ZipWriter::new`: a writer over an empty buffer.
#[verifier::external_body]
fn new_writer() -> (r: ArchiveWriter)
    ensures
        zip_written(r) == Seq::<EntryModel>::empty(),
{
    ArchiveWriter { inner: ZipWriter::new(Cursor::new(Vec::new())) }
}

/// Relies on `zip::ZipWriter::start_file`: starts the entry `e` with its
/// method and permission bits (the writer's defaults where it has none), and
/// on `Write::write_all` of the writer to write its content.
#[verifier::external_body]
#[allow(deprecated)]
fn write_entry(w: &mut ArchiveWriter, e: &ArchiveEntry) -> (r: Result<(), zip::result::ZipError>)
    ensures
        r is Ok <==> zip_accepts_last(zip_written(*old(w)).push(e@)),
        r is Ok ==> zip_written(*final(w)) == zip_written(*old(w)).push(e@),
{
    let mut opts = SimpleFileOptions::default();
    if let Some(m) = e.method {
        opts = opts.compression_method(CompressionMethod::from_u16(m));
    }
    if let Some(mode) = e.unix_mode {
        opts = opts.unix_permissions(mode);
    }
    w.inner.start_file(e.name.as_str(), opts)?;
    std::io::Write::write_all(&mut w.inner, &e.data)?;
    Ok(())
}

/// Relies on `zip::ZipWriter::finish`: writes the central directory and hands
/// back the archive's bytes.
#[verifier::external_body]
fn finish_writer(w: ArchiveWriter) -> (r: Result<Vec<u8>, zip::result::ZipError>)
    ensures
        r is Ok <==> zip_finishes(zip_written(w)),
        r matches Ok(b) ==> b@ == archive_bytes(zip_written(w)),
{
    Ok(w.inner.finish()?.into_inner())
}

/// The entries of the archive `input`, in order. It fails exactly when the
/// archive does not open or an entry does not read.
pub fn read_archive(input: Vec<u8>) -> (r: Result<Vec<ArchiveEntry>, RewriteError>)
    ensures
        r is Ok <==> archive_readable(input@),
        r matches Ok(es) ==> entries_view(es@) == archive_entries(input@),
        r matches Err(e) ==> e == RewriteError::ArchiveFormat,
{
    let ghost bytes = input@;
    let mut a = match open_archive(input) {
        Ok(a) => a,
        Err(_) => return Err(RewriteError::ArchiveFormat),
    };
    let n = archive_len(&a);
    let mut out: Vec<ArchiveEntry> = Vec::new();
    let mut i: usize = 0;
    while i < n
        invariant
            i <= n,
            n == zip_entries(a).len(),
            bytes == input@,
            archive_opens(bytes),
            zip_entries(a) == archive_entries(bytes),
            zip_readable(a) == archive_entries_readable(bytes),
            zip_readable(a).len() == n,
            forall|j: int| 0 <= j < i ==> #[trigger] zip_readable(a)[j],
            entries_view(out@) == zip_entries(a).subrange(0, i as int),
        decreases n - i,
    {
        let e = match read_entry(&mut a, i) {
            Ok(e) => e,
            Err(_) => {
                assert(!archive_entries_readable(bytes)[i as int]);
                return Err(RewriteError::ArchiveFormat);
            },
        };
        let ghost prev = entries_view(out@);
        out.push(e);
        assert(entries_view(out@) =~= prev.push(e@));
        i += 1;
        assert(entries_view(out@) =~= zip_entries(a).subrange(0, i as int));
    }
    assert(zip_entries(a).subrange(0, i as int) =~= zip_entries(a));
    Ok(out)
}

/// The bytes of an archive holding `entries`, in order. It fails exactly
/// when the zip writer refuses an entry or cannot finish.
pub fn write_archive(entries: &Vec<ArchiveEntry>) -> (r: Result<Vec<u8>, RewriteError>)
    ensures
        r is Ok <==> archive_writable(entries_view(entries@)),
        r matches Ok(b) ==> b@ == archive_bytes(entries_view(entries@)),
        r matches Err(e) ==> e == RewriteError::Encode,
{
    let ghost ev = entries_view(entries@);
    let mut w = new_writer();
    let mut i: usize = 0;
    while i < entries.len()
        invariant
            i <= entries@.len(),
            ev == entries_view(entries@),
            zip_written(w) == ev.subrange(0, i as int),
            forall|k: int| 1 <= k <= i ==> #[trigger] zip_accepts_last(ev.subrange(0, k)),
        decreases entries@.len() - i,
    {
        let ghost before = zip_written(w);
        assert(before.push(entries@[i as int]@) =~= ev.subrange(0, i + 1));
        match write_entry(&mut w, &entries[i]) {
            Ok(()) => {},
            Err(_) => {
                assert(!zip_accepts_last(ev.subrange(0, i + 1)));
                return Err(RewriteError::Encode);
            },
        }
        i += 1;
    }
    assert(ev.subrange(0, i as int) =~= ev);
    match finish_writer(w) {
        Ok(b) => Ok(b),
        Err(_) => Err(RewriteError::Encode),
    }
}

/// The archive `input` with its metadata entry rewritten from `candidate`
/// under `policy`, built whole in memory; `input` itself is not touched. It
/// succeeds exactly when the archive reads and the zip writer takes the
/// rewritten entries; otherwise it fails with `ArchiveFormat` for an archive
/// that does not read, `Encode` for entries that cannot be written.
pub fn rewrite_archive(input: Vec<u8>, candidate: &ComicInfo, policy: MergePolicy) -> (r: Result<Vec<u8>, RewriteError>)
    ensures
        r is Ok <==> archive_readable(input@) && archive_writable(rewrite_of(archive_entries(input@), candidate@, policy)),
        r matches Ok(b) ==> b@ == archive_bytes(rewrite_of(archive_entries(input@), candidate@, policy)),
        r matches Err(e) ==> (e == RewriteError::ArchiveFormat <==> !archive_readable(input@)),
{
    let src = read_archive(input)?;
    let out = rewrite_entries(&src, candidate, policy);
    write_archive(&out)
}

/// The archive with the fields shared across a series taken from
/// `new_comic_info` (see [`rewrite_archive`]).
pub fn modify_comic_info(input: Vec<u8>, new_comic_info: &ComicInfo) -> (r: Result<Vec<u8>, RewriteError>)
    ensures
        r is Ok <==> archive_readable(input@)
            && archive_writable(rewrite_of(archive_entries(input@), new_comic_info@, MergePolicy::MergeShared)),
        r matches Ok(b) ==> b@ == archive_bytes(rewrite_of(archive_entries(input@), new_comic_info@, MergePolicy::MergeShared)),
        r matches Err(e) ==> (e == RewriteError::ArchiveFormat <==> !archive_readable(input@)),
{
    rewrite_archive(input, new_comic_info, MergePolicy::MergeShared)
}

/// The archive with its record replaced by `new_comic_info` (see
/// [`rewrite_archive`]).
pub fn replace_comic_info(input: Vec<u8>, new_comic_info: &ComicInfo) -> (r: Result<Vec<u8>, RewriteError>)
    ensures
        r is Ok <==> archive_readable(input@)
            && archive_writable(rewrite_of(archive_entries(input@), new_comic_info@, MergePolicy::ReplaceAll)),
        r matches Ok(b) ==> b@ == archive_bytes(rewrite_of(archive_entries(input@), new_comic_info@, MergePolicy::ReplaceAll)),
        r matches Err(e) ==> (e == RewriteError::ArchiveFormat <==> !archive_readable(input@)),
{
    rewrite_archive(input, new_comic_info, MergePolicy::ReplaceAll)
}

/// The archive with title, translator, number and volume taken from
/// `new_comic_info` (see [`rewrite_archive`]).
pub fn derive_comic_info(input: Vec<u8>, new_comic_info: &ComicInfo) -> (r: Result<Vec<u8>, RewriteError>)
    ensures
        r is Ok <==> archive_readable(input@)
            && archive_writable(rewrite_of(archive_entries(input@), new_comic_info@, MergePolicy::DeriveFromFilename)),
        r matches Ok(b) ==> b@ == archive_bytes(rewrite_of(archive_entries(input@), new_comic_info@, MergePolicy::DeriveFromFilename)),
        r matches Err(e) ==> (e == RewriteError::ArchiveFormat <==> !archive_readable(input@)),
{
    rewrite_archive(input, new_comic_info, MergePolicy::DeriveFromFilename)
}

/// The archive with the volume taken from `new_comic_info` (see
/// [`rewrite_archive`]).
pub fn volume_comic_info(input: Vec<u8>, new_comic_info: &ComicInfo) -> (r: Result<Vec<u8>, RewriteError>)
    ensures
        r is Ok <==> archive_readable(input@)
            && archive_writable(rewrite_of(archive_entries(input@), new_comic_info@, MergePolicy::VolumeOnly)),
        r matches Ok(b) ==> b@ == archive_bytes(rewrite_of(archive_entries(input@), new_comic_info@, MergePolicy::VolumeOnly)),
        r matches Err(e) ==> (e == RewriteError::ArchiveFormat <==> !archive_readable(input@)),
{
    rewrite_archive(input, new_comic_info, MergePolicy::VolumeOnly)
}

/// Index of the first metadata entry of `src` at or after `i`, or the
/// length.
pub open spec fn metadata_from(src: Seq<EntryModel>, i: int) -> int
    decreases src.len() - i,
{
    if i < 0 || i >= src.len() || is_metadata(src[i]) {
        i
    } else {
        metadata_from(src, i + 1)
    }
}

/// The record that an archive holds: its first metadata entry read as
/// markup, or the empty record when it has none.
pub open spec fn archive_record(src: Seq<EntryModel>) -> ComicInfoModel {
    let k = metadata_from(src, 0);
    if k < src.len() {
        document_record(src[k].data)
    } else {
        empty_record()
    }
}

/// The record that the archive `input` holds: the first metadata entry read
/// as markup, or the empty record when there is none. It fails, with
/// `ArchiveFormat`, exactly when the archive does not read.
pub fn get_comic_from_zip(input: Vec<u8>) -> (r: Result<ComicInfo, RewriteError>)
    ensures
        r is Ok <==> archive_readable(input@),
        r matches Ok(c) ==> c@ == archive_record(archive_entries(input@)),
        r matches Err(e) ==> e == RewriteError::ArchiveFormat,
{
    let ghost bytes = input@;
    let entries = read_archive(input)?;
    let ghost ev = entries_view(entries@);
    let meta = metadata_name_chars();
    let mut i: usize = 0;
    while i < entries.len()
        invariant
            i <= entries@.len(),
            meta@ == metadata_name(),
            ev == entries_view(entries@),
            ev == archive_entries(bytes),
            bytes == input@,
            archive_readable(bytes),
            metadata_from(ev, i as int) == metadata_from(ev, 0),
        decreases entries@.len() - i,
    {
        assert(ev[i as int] == entries@[i as int]@);
        if is_metadata_entry(&entries[i], &meta) {
            return Ok(decode_document(&entries[i].data));
        }
        i += 1;
    }
    Ok(ComicInfo::empty())
}

/// Rewriting keeps every entry other than the metadata entry: its place,
/// name, content, compression method and permission bits.
pub proof fn lemma_rewrite_keeps_other_entries(src: Seq<EntryModel>, candidate: ComicInfoModel, policy: MergePolicy, i: int)
    requires
        0 <= i < src.len(),
        !is_metadata(src[i]),
    ensures
        rewrite_of(src, candidate, policy)[i].name == src[i].name,
        rewrite_of(src, candidate, policy)[i].data == src[i].data,
        rewrite_of(src, candidate, policy)[i].method == src[i].method,
        rewrite_of(src, candidate, policy)[i].unix_mode == src[i].unix_mode,
{
    let kept = src.map_values(|e: EntryModel| rewrite_entry(e, candidate, policy));
    assert(kept[i] == src[i]);
    if !has_metadata(src) {
        assert(kept.push(new_metadata_entry(candidate, policy))[i] == kept[i]);
    }
}

/// Rewriting keeps the name, method and permission bits of a metadata entry
/// and puts in it the merge of the record it held with the candidate.
pub proof fn lemma_rewrite_updates_metadata_entry(src: Seq<EntryModel>, candidate: ComicInfoModel, policy: MergePolicy, i: int)
    requires
        0 <= i < src.len(),
        is_metadata(src[i]),
    ensures
        rewrite_of(src, candidate, policy).len() == src.len(),
        rewrite_of(src, candidate, policy)[i] == (EntryModel {
            data: metadata_content(policy, document_record(src[i].data), candidate),
            ..src[i]
        }),
{
    assert(has_metadata(src));
}

/// An archive without a metadata entry gains exactly one, at its end, and
/// keeps all its other entries as they were.
pub proof fn lemma_rewrite_adds_one_metadata_entry(src: Seq<EntryModel>, candidate: ComicInfoModel, policy: MergePolicy)
    requires
        !has_metadata(src),
    ensures
        rewrite_of(src, candidate, policy).len() == src.len() + 1,
        rewrite_of(src, candidate, policy).subrange(0, src.len() as int) == src,
        is_metadata(rewrite_of(src, candidate, policy)[src.len() as int]),
        forall|i: int| 0 <= i < src.len() + 1 && is_metadata(#[trigger] rewrite_of(src, candidate, policy)[i]) ==> i == src.len(),
{
    let out = rewrite_of(src, candidate, policy);
    let kept = src.map_values(|e: EntryModel| rewrite_entry(e, candidate, policy));
    assert forall|i: int| 0 <= i < src.len() implies out[i] == src[i] by {
        assert(!is_metadata(src[i]));
        assert(out[i] == kept[i]);
    }
    assert(out.subrange(0, src.len() as int) =~= src);
    assert forall|i: int| 0 <= i < src.len() + 1 && is_metadata(#[trigger] out[i]) implies i == src.len() by {
        if i < src.len() {
            assert(out[i] == src[i]);
        }
    }
}

} // verus!
