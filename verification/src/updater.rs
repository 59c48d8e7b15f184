//! The updater: what a run does when the installed assets are not those that
//! ship with the program.

use vstd::prelude::*;
use crate::archive::{extract, extraction, ExtractionError};
use crate::disk::{lemma_ops_view_push, ops_view, FsOp, FsOpView};
use crate::layout::{assets_of, Bundle, BundleView, Layout};
use crate::paths::LocationView;

verus! {

/// Why an update failed.
#[derive(Clone, Copy, Debug, PartialEq, Eq, Structural)]
pub enum UpdateError {
    /// The old assets directory could not be removed.
    DirectoryRemoval,
    /// The new assets could not be unpacked.
    Extraction(ExtractionError),
}

/// What replacing the assets at `root` with those of `bundle` comes to: the
/// assets directory is removed with all that is in it, and the archive is
/// unpacked into a new one. An archive that cannot be unpacked fails the
/// update before anything is removed.
pub open spec fn reconciliation(bundle: BundleView, root: LocationView) -> Result<
    Seq<FsOpView>,
    UpdateError,
> {
    match extraction(bundle.archive, assets_of(root)) {
        Err(e) => Err(UpdateError::Extraction(e)),
        Ok(plan) => Ok(seq![FsOpView::RemoveDirAll { dir: assets_of(root) }] + plan),
    }
}

/// Plans the replacement of the installed assets by those of `bundle`. It is
/// meant for an installation whose version marker does not match.
pub fn reconcile(bundle: &Bundle, layout: &Layout) -> (r: Result<Vec<FsOp>, UpdateError>)
    ensures
        match reconciliation(bundle@, layout@) {
            Ok(planned) => r matches Ok(ops) && ops_view(ops@) == planned,
            Err(e) => r matches Err(f) && f == e,
        },
        r matches Ok(ops) ==> ops.len() > 1,
{
    let assets = layout.assets_dir();
    let mut plan = match extract(bundle.archive.as_slice(), &assets) {
        Ok(plan) => plan,
        Err(e) => {
            return Err(UpdateError::Extraction(e));
        },
    };
    let mut ops: Vec<FsOp> = Vec::new();
    let clear = FsOp::RemoveDirAll { dir: assets };
    proof {
        lemma_ops_view_push(ops@, clear);
        assert(ops_view(ops@.push(clear) + plan@) =~= seq![clear@] + ops_view(plan@));
    }
    ops.push(clear);
    ops.append(&mut plan);
    Ok(ops)
}

/// The error that a failed operation of an update stands for: removing the
/// old assets is the updater's own step, everything else belongs to the
/// unpacking.
pub open spec fn update_failure_of(op: FsOpView) -> UpdateError {
    if op is RemoveDirAll {
        UpdateError::DirectoryRemoval
    } else {
        UpdateError::Extraction(ExtractionError::WriteFailed)
    }
}

/// Tells which error the failure of `op`, an operation of an update, stands
/// for.
pub fn update_failure(op: &FsOp) -> (r: UpdateError)
    ensures
        r == update_failure_of(op@),
{
    match op {
        FsOp::RemoveDirAll { .. } => UpdateError::DirectoryRemoval,
        _ => UpdateError::Extraction(ExtractionError::WriteFailed),
    }
}

} // verus!
