//! The changes that a deployment asks of the disk, and a model of what a
//! change that succeeds leaves behind.
//!
//! The library never touches the disk. It hands out [`FsOp`] values for its
//! caller to carry out, one at a time and in order, and is told whether each
//! one succeeded. [`Disk`] states what every such operation means: it is the
//! ground on which the guarantees about whole deployments are proved.

use vstd::prelude::*;
use crate::paths::{Location, LocationView};

verus! {

/// One change to the disk.
#[derive(Debug, PartialEq, Eq)]
pub enum FsOp {
    /// Create one directory. Its parent must exist and it must not.
    CreateDir { dir: Location },
    /// Create a directory and every missing directory above it. A directory
    /// that is already there is left as it is.
    CreateDirAll { dir: Location },
    /// Remove a directory with everything below it.
    RemoveDirAll { dir: Location },
    /// Write a file, replacing one that is already there.
    WriteFile { file: Location, content: Vec<u8> },
    /// Set the time of last modification of a file, in seconds since the
    /// start of 1970.
    SetModified { file: Location, seconds: u64 },
    /// Set the permission bits of a file or directory.
    SetPermissions { target: Location, mode: u32 },
}

/// What an [`FsOp`] stands for.
pub enum FsOpView {
    CreateDir { dir: LocationView },
    CreateDirAll { dir: LocationView },
    RemoveDirAll { dir: LocationView },
    WriteFile { file: LocationView, content: Seq<u8> },
    SetModified { file: LocationView, seconds: u64 },
    SetPermissions { target: LocationView, mode: u32 },
}

impl FsOpView {
    /// The location that the operation changes.
    pub open spec fn target(self) -> LocationView {
        match self {
            FsOpView::CreateDir { dir } => dir,
            FsOpView::CreateDirAll { dir } => dir,
            FsOpView::RemoveDirAll { dir } => dir,
            FsOpView::WriteFile { file, content } => file,
            FsOpView::SetModified { file, seconds } => file,
            FsOpView::SetPermissions { target, mode } => target,
        }
    }

    /// The operation only adds to the disk: it removes nothing.
    pub open spec fn adds_only(self) -> bool {
        !(self is RemoveDirAll)
    }
}

impl View for FsOp {
    type V = FsOpView;

    open spec fn view(&self) -> FsOpView {
        match self {
            FsOp::CreateDir { dir } => FsOpView::CreateDir { dir: dir@ },
            FsOp::CreateDirAll { dir } => FsOpView::CreateDirAll { dir: dir@ },
            FsOp::RemoveDirAll { dir } => FsOpView::RemoveDirAll { dir: dir@ },
            FsOp::WriteFile { file, content } => FsOpView::WriteFile {
                file: file@,
                content: content@,
            },
            FsOp::SetModified { file, seconds } => FsOpView::SetModified {
                file: file@,
                seconds: *seconds,
            },
            FsOp::SetPermissions { target, mode } => FsOpView::SetPermissions {
                target: target@,
                mode: *mode,
            },
        }
    }
}

/// The operations held by a vector, in order.
pub open spec fn ops_view(ops: Seq<FsOp>) -> Seq<FsOpView> {
    Seq::new(ops.len(), |i: int| ops[i]@)
}

/// Appending an operation to the vector appends its view.
pub proof fn lemma_ops_view_push(ops: Seq<FsOp>, last: FsOp)
    ensures
        ops_view(ops.push(last)) == ops_view(ops).push(last@),
{
    assert(ops_view(ops.push(last)) =~= ops_view(ops).push(last@));
}

/// The directories on a disk, and the files with their content. Times and
/// permission bits are not part of the model.
pub struct Disk {
    pub dirs: Set<LocationView>,
    pub files: Map<LocationView, Seq<u8>>,
}

impl Disk {
    /// The disk after `op` has succeeded.
    pub open spec fn after(self, op: FsOpView) -> Disk {
        match op {
            FsOpView::CreateDir { dir } => Disk { dirs: self.dirs.insert(dir), files: self.files },
            FsOpView::CreateDirAll { dir } => Disk {
                dirs: Set::new(|d: LocationView| self.dirs.contains(d) || dir.under(d)),
                files: self.files,
            },
            FsOpView::RemoveDirAll { dir } => Disk {
                dirs: Set::new(|d: LocationView| self.dirs.contains(d) && !d.under(dir)),
                files: Map::new(
                    |f: LocationView| self.files.dom().contains(f) && !f.under(dir),
                    |f: LocationView| self.files[f],
                ),
            },
            FsOpView::WriteFile { file, content } => Disk {
                dirs: self.dirs,
                files: self.files.insert(file, content),
            },
            FsOpView::SetModified { .. } => self,
            FsOpView::SetPermissions { .. } => self,
        }
    }

    /// The disk after every operation of `ops` has succeeded, in order.
    pub open spec fn after_all(self, ops: Seq<FsOpView>) -> Disk
        decreases ops.len(),
    {
        if ops.len() == 0 {
            self
        } else {
            self.after_all(ops.drop_last()).after(ops.last())
        }
    }

    /// The content of the file at `file`, if there is one.
    pub open spec fn read(self, file: LocationView) -> Option<Seq<u8>> {
        if self.files.dom().contains(file) {
            Some(self.files[file])
        } else {
            None
        }
    }
}

/// Carrying out two runs of operations one after the other is carrying out
/// their concatenation.
pub proof fn lemma_after_all_concat(disk: Disk, first: Seq<FsOpView>, second: Seq<FsOpView>)
    ensures
        disk.after_all(first + second) == disk.after_all(first).after_all(second),
    decreases second.len(),
{
    if second.len() == 0 {
        assert(first + second =~= first);
    } else {
        lemma_after_all_concat(disk, first, second.drop_last());
        assert((first + second).drop_last() =~= first + second.drop_last());
        assert((first + second).last() == second.last());
    }
}

/// Operations that only add leave every directory in place.
pub proof fn lemma_additions_keep_dirs(disk: Disk, ops: Seq<FsOpView>, dir: LocationView)
    requires
        disk.dirs.contains(dir),
        forall|i: int| 0 <= i < ops.len() ==> (#[trigger] ops[i]).adds_only(),
    ensures
        disk.after_all(ops).dirs.contains(dir),
    decreases ops.len(),
{
    if ops.len() > 0 {
        lemma_additions_keep_dirs(disk, ops.drop_last(), dir);
        assert(ops.last() == ops[ops.len() - 1]);
    }
}

} // verus!
