//! The archive reader: from the bytes of a compressed tape archive to the
//! operations that unpack it below a destination directory.
//!
//! Decompression is done by `flate2` and the archive's framing is read by
//! `tar`. What their results mean is not restated here: [`gzip_payload`] and
//! [`tar_entries`] name them. Everything after that, which entries are
//! accepted, where each one goes and what is written, is decided here.

use vstd::prelude::*;
use vstd::slice::slice_to_vec;
use crate::disk::{lemma_ops_view_push, ops_view, FsOp, FsOpView};
use crate::paths::{
    lemma_descent_stays_within,
    parse_relative,
    parts_view,
    relative_parts,
    Location,
    LocationView,
    SEPARATOR,
};

verus! {

/// Why an archive could not be unpacked.
#[derive(Clone, Copy, Debug, PartialEq, Eq, Structural)]
pub enum ExtractionError {
    /// The compressed stream is corrupt or cut short.
    Decompression,
    /// An entry could not be read, holds less data than it declares, or is a
    /// file without a name.
    MalformedEntry,
    /// An entry could reach outside the destination: its path is absolute or
    /// climbs with `..`, or it is a link.
    UnsafeEntry,
    /// The disk refused an operation of the plan: a directory could not be
    /// created, or a file could not be written or given its time or its
    /// permissions.
    WriteFailed,
}

/// The type byte of a directory entry.
pub const TYPE_DIRECTORY: u8 = 53;

/// The type byte of a hard link.
pub const TYPE_HARD_LINK: u8 = 49;

/// The type byte of a symbolic link.
pub const TYPE_SYMBOLIC_LINK: u8 = 50;

/// The type byte of a global extended header.
pub const TYPE_GLOBAL_HEADER: u8 = 103;

/// The type byte of an extended header.
pub const TYPE_EXTENDED_HEADER: u8 = 120;

/// The type byte of a long name record.
pub const TYPE_LONG_NAME: u8 = 76;

/// The type byte of a long link record.
pub const TYPE_LONG_LINK: u8 = 75;

/// The bits of a mode that are permissions: read, write and execute for the
/// owner, the group and everyone else.
pub const PERMISSION_BITS: u32 = 0o777;

/// One entry as the archive holds it.
#[derive(Debug, PartialEq, Eq)]
pub struct RawEntry {
    /// The path the entry names, with `/` between its components.
    pub path: Vec<u8>,
    /// The type byte of the entry's header.
    pub kind: u8,
    /// The number of data bytes that the entry declares.
    pub size: u64,
    /// The data bytes that the archive holds for the entry.
    pub data: Vec<u8>,
    /// The mode of the entry's header, where the header holds one.
    pub mode: Option<u32>,
    /// The time of last modification of the entry's header, in seconds since
    /// the start of 1970, where the header holds one.
    pub mtime: Option<u64>,
}

/// What a [`RawEntry`] stands for.
pub struct RawEntryView {
    pub path: Seq<u8>,
    pub kind: u8,
    pub size: u64,
    pub data: Seq<u8>,
    pub mode: Option<u32>,
    pub mtime: Option<u64>,
}

impl View for RawEntry {
    type V = RawEntryView;

    open spec fn view(&self) -> RawEntryView {
        RawEntryView {
            path: self.path@,
            kind: self.kind,
            size: self.size,
            data: self.data@,
            mode: self.mode,
            mtime: self.mtime,
        }
    }
}

/// What one item read from an archive stands for: an entry, or `None` where
/// the archive could not be read.
pub open spec fn item_view(item: Option<RawEntry>) -> Option<RawEntryView> {
    match item {
        Some(entry) => Some(entry@),
        None => None,
    }
}

/// What a list of items read from an archive stands for.
pub open spec fn items_view(items: Seq<Option<RawEntry>>) -> Seq<Option<RawEntryView>> {
    Seq::new(items.len(), |i: int| item_view(items[i]))
}

/// What an entry asks for.
#[derive(Clone, Copy, Debug, PartialEq, Eq, Structural)]
pub enum EntryKind {
    /// A file to write.
    File,
    /// A directory to create.
    Directory,
    /// A hard or symbolic link, which is never unpacked.
    Link,
    /// A record that describes other entries and asks for nothing itself.
    Metadata,
}

/// What an entry with type byte `kind` and path `path` asks for. Any type
/// byte that is not listed counts as a file, and a file whose path ends in a
/// separator is a directory.
pub open spec fn kind_of(kind: u8, path: Seq<u8>) -> EntryKind {
    if kind == TYPE_DIRECTORY {
        EntryKind::Directory
    } else if kind == TYPE_HARD_LINK || kind == TYPE_SYMBOLIC_LINK {
        EntryKind::Link
    } else if kind == TYPE_GLOBAL_HEADER || kind == TYPE_EXTENDED_HEADER || kind == TYPE_LONG_NAME
        || kind == TYPE_LONG_LINK {
        EntryKind::Metadata
    } else if path.len() > 0 && path.last() == SEPARATOR {
        EntryKind::Directory
    } else {
        EntryKind::File
    }
}

/// Tells what an entry asks for from its type byte and its path.
pub fn classify(kind: u8, path: &[u8]) -> (r: EntryKind)
    ensures
        r == kind_of(kind, path@),
{
    if kind == TYPE_DIRECTORY {
        EntryKind::Directory
    } else if kind == TYPE_HARD_LINK || kind == TYPE_SYMBOLIC_LINK {
        EntryKind::Link
    } else if kind == TYPE_GLOBAL_HEADER || kind == TYPE_EXTENDED_HEADER || kind == TYPE_LONG_NAME
        || kind == TYPE_LONG_LINK {
        EntryKind::Metadata
    } else if path.len() > 0 && path[path.len() - 1] == SEPARATOR {
        EntryKind::Directory
    } else {
        EntryKind::File
    }
}

/// The operation that gives `target` the permission bits of `mode`, where
/// there is a mode.
pub open spec fn permission_ops(target: LocationView, mode: Option<u32>) -> Seq<FsOpView> {
    match mode {
        Some(bits) => seq![FsOpView::SetPermissions { target, mode: bits & PERMISSION_BITS }],
        None => Seq::empty(),
    }
}

/// The operation that gives `file` the time of last modification `mtime`,
/// where there is one. A time of zero is taken for one second later.
pub open spec fn modified_ops(file: LocationView, mtime: Option<u64>) -> Seq<FsOpView> {
    match mtime {
        Some(seconds) => seq![
            FsOpView::SetModified { file, seconds: if seconds == 0 { 1 } else { seconds } },
        ],
        None => Seq::empty(),
    }
}

/// The operations that unpack one item below `dest`, or the reason why the
/// item is refused. A directory is created and given its permissions. A file
/// has the directory that holds it created, is written, and is given its
/// time of modification and then its permissions.
pub open spec fn entry_plan(item: Option<RawEntryView>, dest: LocationView) -> Result<
    Seq<FsOpView>,
    ExtractionError,
> {
    match item {
        None => Err(ExtractionError::MalformedEntry),
        Some(entry) => {
            if entry.data.len() != entry.size {
                Err(ExtractionError::MalformedEntry)
            } else {
                match kind_of(entry.kind, entry.path) {
                    EntryKind::Metadata => Ok(Seq::empty()),
                    EntryKind::Link => Err(ExtractionError::UnsafeEntry),
                    EntryKind::Directory => match relative_parts(entry.path) {
                        None => Err(ExtractionError::UnsafeEntry),
                        Some(parts) => Ok(
                            seq![FsOpView::CreateDirAll { dir: dest.join(parts) }]
                                + permission_ops(dest.join(parts), entry.mode),
                        ),
                    },
                    EntryKind::File => match relative_parts(entry.path) {
                        None => Err(ExtractionError::UnsafeEntry),
                        Some(parts) => if parts.len() == 0 {
                            Err(ExtractionError::MalformedEntry)
                        } else {
                            Ok(
                                seq![
                                    FsOpView::CreateDirAll { dir: dest.join(parts.drop_last()) },
                                    FsOpView::WriteFile {
                                        file: dest.join(parts),
                                        content: entry.data,
                                    },
                                ] + modified_ops(dest.join(parts), entry.mtime) + permission_ops(
                                    dest.join(parts),
                                    entry.mode,
                                ),
                            )
                        },
                    },
                }
            }
        },
    }
}

/// The operations that unpack `items` below `dest`, in archive order: first
/// the destination itself is created, then come the operations of each item.
/// The first item that is refused decides the error.
pub open spec fn plan_for(items: Seq<Option<RawEntryView>>, dest: LocationView) -> Result<
    Seq<FsOpView>,
    ExtractionError,
>
    decreases items.len(),
{
    if items.len() == 0 {
        Ok(seq![FsOpView::CreateDirAll { dir: dest }])
    } else {
        match plan_for(items.drop_last(), dest) {
            Err(e) => Err(e),
            Ok(ops) => match entry_plan(items.last(), dest) {
                Err(e) => Err(e),
                Ok(more) => Ok(ops + more),
            },
        }
    }
}

/// Every operation of `ops` changes `dest` or a place below it that is
/// reached through normal components only.
pub open spec fn stays_within(ops: Seq<FsOpView>, dest: LocationView) -> bool {
    forall|i: int| 0 <= i < ops.len() ==> (#[trigger] ops[i]).target().within(dest)
}

/// No operation of `ops` removes anything.
pub open spec fn only_adds(ops: Seq<FsOpView>) -> bool {
    forall|i: int| 0 <= i < ops.len() ==> (#[trigger] ops[i]).adds_only()
}

/// Appends to `ops` the operations that unpack one item below `dest`. An item
/// that is refused leaves `ops` as it was.
pub fn plan_entry(item: &Option<RawEntry>, dest: &Location, ops: &mut Vec<FsOp>) -> (r: Result<
    (),
    ExtractionError,
>)
    ensures
        match entry_plan(item_view(*item), dest@) {
            Ok(more) => r is Ok && ops_view(final(ops)@) == ops_view(old(ops)@) + more
                && final(ops).len() == old(ops).len() + more.len() && stays_within(more, dest@)
                && only_adds(more),
            Err(e) => r == Err::<(), ExtractionError>(e) && final(ops)@ == old(ops)@,
        },
{
    let entry = match item {
        None => {
            return Err(ExtractionError::MalformedEntry);
        },
        Some(entry) => entry,
    };
    if entry.data.len() as u64 != entry.size {
        return Err(ExtractionError::MalformedEntry);
    }
    let kind = classify(entry.kind, entry.path.as_slice());
    match kind {
        EntryKind::Metadata => {
            assert(ops_view(ops@) + Seq::<FsOpView>::empty() =~= ops_view(ops@));
            Ok(())
        },
        EntryKind::Link => Err(ExtractionError::UnsafeEntry),
        EntryKind::Directory => {
            let parts = match parse_relative(entry.path.as_slice()) {
                None => {
                    return Err(ExtractionError::UnsafeEntry);
                },
                Some(parts) => parts,
            };
            let dir = dest.join(&parts);
            proof {
                lemma_descent_stays_within(dest@, parts_view(parts@));
            }
            push_op(ops, FsOp::CreateDirAll { dir: dir.clone() });
            push_permissions(ops, dir, entry.mode);
            proof {
                let made = seq![FsOpView::CreateDirAll { dir: dest@.join(parts_view(parts@)) }];
                let more = made + permission_ops(dest@.join(parts_view(parts@)), entry.mode);
                assert(ops_view(ops@) =~= ops_view(old(ops)@) + more);
            }
            Ok(())
        },
        EntryKind::File => {
            let parts = match parse_relative(entry.path.as_slice()) {
                None => {
                    return Err(ExtractionError::UnsafeEntry);
                },
                Some(parts) => parts,
            };
            if parts.len() == 0 {
                return Err(ExtractionError::MalformedEntry);
            }
            let file = dest.join(&parts);
            let dir = match file.parent() {
                None => {
                    return Err(ExtractionError::MalformedEntry);
                },
                Some(dir) => dir,
            };
            let ghost rel = parts_view(parts@);
            proof {
                assert(dir@.parts =~= dest@.parts + rel.drop_last());
                assert(dir@ == dest@.join(rel.drop_last()));
                lemma_descent_stays_within(dest@, rel);
                lemma_descent_stays_within(dest@, rel.drop_last());
            }
            push_op(ops, FsOp::CreateDirAll { dir });
            push_op(
                ops,
                FsOp::WriteFile { file: file.clone(), content: slice_to_vec(entry.data.as_slice()) },
            );
            push_modified(ops, file.clone(), entry.mtime);
            push_permissions(ops, file, entry.mode);
            proof {
                let written = seq![
                    FsOpView::CreateDirAll { dir: dest@.join(rel.drop_last()) },
                    FsOpView::WriteFile { file: dest@.join(rel), content: entry.data@ },
                ];
                let more = written + modified_ops(dest@.join(rel), entry.mtime) + permission_ops(
                    dest@.join(rel),
                    entry.mode,
                );
                assert(ops_view(ops@) =~= ops_view(old(ops)@) + more);
            }
            Ok(())
        },
    }
}

/// Appends one operation to a plan.
fn push_op(ops: &mut Vec<FsOp>, op: FsOp)
    ensures
        final(ops)@ == old(ops)@.push(op),
        ops_view(final(ops)@) == ops_view(old(ops)@).push(op@),
{
    proof {
        lemma_ops_view_push(ops@, op);
    }
    ops.push(op);
}

/// Appends to a plan the operation that sets the permissions of `target`,
/// where there is a mode.
fn push_permissions(ops: &mut Vec<FsOp>, target: Location, mode: Option<u32>)
    ensures
        ops_view(final(ops)@) == ops_view(old(ops)@) + permission_ops(target@, mode),
{
    match mode {
        Some(bits) => {
            push_op(ops, FsOp::SetPermissions { target, mode: bits & PERMISSION_BITS });
            assert(ops_view(ops@) =~= ops_view(old(ops)@) + permission_ops(target@, mode));
        },
        None => {
            assert(ops_view(ops@) =~= ops_view(old(ops)@) + permission_ops(target@, mode));
        },
    }
}

/// Appends to a plan the operation that sets the time of modification of
/// `file`, where there is one.
fn push_modified(ops: &mut Vec<FsOp>, file: Location, mtime: Option<u64>)
    ensures
        ops_view(final(ops)@) == ops_view(old(ops)@) + modified_ops(file@, mtime),
{
    match mtime {
        Some(seconds) => {
            push_op(ops, FsOp::SetModified { file, seconds: if seconds == 0 { 1 } else { seconds } });
            assert(ops_view(ops@) =~= ops_view(old(ops)@) + modified_ops(file@, mtime));
        },
        None => {
            assert(ops_view(ops@) =~= ops_view(old(ops)@) + modified_ops(file@, mtime));
        },
    }
}

/// Plans the unpacking of `items` below `dest`.
///
/// The plan creates `dest` and then unpacks each item in archive order, as
/// [`entry_plan`] says. Nothing in the plan reaches outside `dest` and
/// nothing in it removes anything. The first item that is refused decides
/// the error, and then there is no plan at all.
pub fn plan_extraction(items: &Vec<Option<RawEntry>>, dest: &Location) -> (r: Result<
    Vec<FsOp>,
    ExtractionError,
>)
    ensures
        match plan_for(items_view(items@), dest@) {
            Ok(plan) => r matches Ok(ops) && ops_view(ops@) == plan,
            Err(e) => r matches Err(f) && f == e,
        },
        r matches Ok(ops) ==> stays_within(ops_view(ops@), dest@) && only_adds(ops_view(ops@))
            && ops.len() > 0,
{
    let mut ops: Vec<FsOp> = Vec::new();
    let first = FsOp::CreateDirAll { dir: dest.clone() };
    proof {
        lemma_ops_view_push(ops@, first);
        lemma_descent_stays_within(dest@, Seq::empty());
        assert(dest@.join(Seq::empty()).parts =~= dest@.parts);
        assert(ops_view(ops@).push(first@) =~= seq![FsOpView::CreateDirAll { dir: dest@ }]);
        assert(items_view(items@).take(0) =~= Seq::empty());
    }
    ops.push(first);
    let mut i: usize = 0;
    while i < items.len()
        invariant
            i <= items.len(),
            plan_for(items_view(items@).take(i as int), dest@) == Ok::<
                Seq<FsOpView>,
                ExtractionError,
            >(ops_view(ops@)),
            stays_within(ops_view(ops@), dest@),
            only_adds(ops_view(ops@)),
            ops.len() > 0,
        decreases items.len() - i,
    {
        let ghost before = ops_view(ops@);
        proof {
            assert(items_view(items@).take(i + 1).drop_last() =~= items_view(items@).take(i as int));
            assert(items_view(items@).take(i + 1).last() == item_view(items@[i as int]));
        }
        match plan_entry(&items[i], dest, &mut ops) {
            Err(e) => {
                proof {
                    lemma_plan_for_fails_on(items_view(items@), dest@, i as int + 1);
                }
                return Err(e);
            },
            Ok(()) => {},
        }
        i = i + 1;
    }
    assert(items_view(items@).take(i as int) =~= items_view(items@));
    Ok(ops)
}

/// Once a prefix of the items is refused, the whole list is refused for the
/// same reason.
pub proof fn lemma_plan_for_fails_on(items: Seq<Option<RawEntryView>>, dest: LocationView, n: int)
    requires
        0 <= n <= items.len(),
        plan_for(items.take(n), dest) is Err,
    ensures
        plan_for(items, dest) == plan_for(items.take(n), dest),
    decreases items.len() - n,
{
    if n == items.len() {
        assert(items.take(n) =~= items);
    } else {
        assert(items.take(n + 1).drop_last() =~= items.take(n));
        lemma_plan_for_fails_on(items, dest, n + 1);
    }
}

/// What `flate2` yields when it decompresses `bytes` as one gzip member, or
/// `None` where it reports an error.
pub uninterp spec fn gzip_payload(bytes: Seq<u8>) -> Option<Seq<u8>>;

/// The items that `tar` yields when it iterates over an archive held in
/// `bytes`, each one read in full before the next is asked for.
pub uninterp spec fn tar_entries(bytes: Seq<u8>) -> Seq<Option<RawEntryView>>;

/// The bytes that an archive will read, while nothing has been read from it.
pub uninterp spec fn archive_source(archive: TarArchive<'_>) -> Option<Seq<u8>>;

/// The items that an iteration has yet to yield.
pub uninterp spec fn pending_entries(entries: TarEntries<'_, '_>) -> Seq<Option<RawEntryView>>;

/// A `tar::Archive` over bytes in memory.
#[verifier::external_body]
pub struct TarArchive<'b> {
    inner: tar::Archive<&'b [u8]>,
}

/// A `tar::Entries`: an iteration over the entries of a [`TarArchive`].
#[verifier::external_body]
pub struct TarEntries<'a, 'b> {
    inner: tar::Entries<'a, &'b [u8]>,
}

/// Calls `flate2::read::GzDecoder::new` on the bytes and reads the decoder to
/// its end. The claim is only that the outcome is the one named by
/// [`gzip_payload`]: the decoded bytes, or nothing where the decoder fails.
#[verifier::external_body]
fn gunzip(bytes: &[u8]) -> (r: Option<Vec<u8>>)
    ensures
        match gzip_payload(bytes@) {
            Some(payload) => r matches Some(v) && v@ == payload,
            None => r is None,
        },
{
    let mut out = Vec::new();
    match std::io::Read::read_to_end(&mut flate2::read::GzDecoder::new(bytes), &mut out) {
        Ok(_) => Some(out),
        Err(_) => None,
    }
}

/// Calls `tar::Archive::new`, which reads nothing yet.
#[verifier::external_body]
fn open_archive<'b>(bytes: &'b [u8]) -> (r: TarArchive<'b>)
    ensures
        archive_source(r) == Some(bytes@),
{
    TarArchive { inner: tar::Archive::new(bytes) }
}

/// Calls `tar::Archive::entries`, which succeeds exactly on an archive from
/// which nothing has been read. The iteration then has all the items of the
/// archive's bytes before it.
#[verifier::external_body]
fn archive_entries<'a, 'b>(archive: &'a mut TarArchive<'b>) -> (r: Option<TarEntries<'a, 'b>>)
    ensures
        match archive_source(*old(archive)) {
            Some(bytes) => r matches Some(entries) && pending_entries(entries) == tar_entries(bytes),
            None => r is None,
        },
{
    archive.inner.entries().ok().map(|inner| TarEntries { inner })
}

/// Calls `next` on the `tar::Entries` and reads what it yields: the path
/// bytes, the type byte, the declared size, the mode and the time of
/// modification where the header gives them, and the data to its end. An error
/// from the iterator or from the read is yielded as `Some(None)`. The claim
/// is that the call yields the first pending item and leaves the others
/// pending, and that it yields `None` exactly when none is pending.
#[verifier::external_body]
fn next_entry(entries: &mut TarEntries<'_, '_>) -> (r: Option<Option<RawEntry>>)
    ensures
        match r {
            Some(item) => pending_entries(*old(entries)).len() > 0 && item_view(item)
                == pending_entries(*old(entries))[0] && pending_entries(*final(entries))
                == pending_entries(*old(entries)).skip(1),
            None => pending_entries(*old(entries)).len() == 0 && pending_entries(*final(entries)).len()
                == 0,
        },
{
    let mut entry = match entries.inner.next()? {
        Ok(entry) => entry,
        Err(_) => return Some(None),
    };
    let path = entry.path_bytes().into_owned();
    let kind = entry.header().entry_type().as_byte();
    let size = entry.size();
    let mode = entry.header().mode().ok();
    let mtime = entry.header().mtime().ok();
    let mut data = Vec::new();
    match std::io::Read::read_to_end(&mut entry, &mut data) {
        Ok(_) => Some(Some(RawEntry { path, kind, size, data, mode, mtime })),
        Err(_) => Some(None),
    }
}

/// Decompresses a gzip stream held in memory.
pub fn decompress(bytes: &[u8]) -> (r: Result<Vec<u8>, ExtractionError>)
    ensures
        match gzip_payload(bytes@) {
            Some(payload) => r matches Ok(v) && v@ == payload,
            None => r matches Err(e) && e == ExtractionError::Decompression,
        },
{
    match gunzip(bytes) {
        Some(payload) => Ok(payload),
        None => Err(ExtractionError::Decompression),
    }
}

/// Reads every item of a tape archive held in memory, in archive order. An
/// item that cannot be read is `None`.
pub fn read_entries(tar_bytes: &[u8]) -> (r: Vec<Option<RawEntry>>)
    ensures
        items_view(r@) == tar_entries(tar_bytes@),
{
    let mut items: Vec<Option<RawEntry>> = Vec::new();
    let mut archive = open_archive(tar_bytes);
    let mut entries = match archive_entries(&mut archive) {
        Some(entries) => entries,
        // Only an archive that has been read from has no iteration to give.
        None => {
            return items;
        },
    };
    assert(items_view(items@) + pending_entries(entries) =~= tar_entries(tar_bytes@));
    loop
        invariant
            items_view(items@) + pending_entries(entries) == tar_entries(tar_bytes@),
        decreases pending_entries(entries).len(),
    {
        let ghost read = items@;
        let ghost pending = pending_entries(entries);
        match next_entry(&mut entries) {
            None => {
                assert(items_view(items@) + pending =~= items_view(items@));
                return items;
            },
            Some(item) => {
                items.push(item);
                assert(items_view(items@) + pending.skip(1) =~= items_view(read) + pending);
            },
        }
    }
}

/// What unpacking the compressed archive `bundle` below `dest` comes to: the
/// operations to carry out, or the reason why there are none.
pub open spec fn extraction(bundle: Seq<u8>, dest: LocationView) -> Result<
    Seq<FsOpView>,
    ExtractionError,
> {
    match gzip_payload(bundle) {
        None => Err(ExtractionError::Decompression),
        Some(payload) => plan_for(tar_entries(payload), dest),
    }
}

/// Plans the unpacking of a compressed archive below `dest`.
///
/// The archive is decompressed and read in full before anything is planned,
/// so an archive that is refused asks for no change to the disk at all. The
/// plan creates `dest`, then each entry in archive order. It never reaches
/// outside `dest` and never removes anything.
pub fn extract(bundle: &[u8], dest: &Location) -> (r: Result<Vec<FsOp>, ExtractionError>)
    ensures
        match extraction(bundle@, dest@) {
            Ok(plan) => r matches Ok(ops) && ops_view(ops@) == plan,
            Err(e) => r matches Err(f) && f == e,
        },
        r matches Ok(ops) ==> stays_within(ops_view(ops@), dest@) && only_adds(ops_view(ops@))
            && ops.len() > 0,
{
    let payload = match decompress(bundle) {
        Ok(payload) => payload,
        Err(e) => {
            return Err(e);
        },
    };
    let items = read_entries(payload.as_slice());
    plan_extraction(&items, dest)
}

} // verus!
