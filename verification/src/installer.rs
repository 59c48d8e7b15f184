//! The installer: what a first run does to bring the assets onto the disk.

use vstd::prelude::*;
use crate::archive::{extract, extraction, ExtractionError};
use crate::disk::{lemma_ops_view_push, ops_view, FsOp, FsOpView};
use crate::layout::{assets_of, Bundle, BundleView, Layout};
use crate::paths::LocationView;

verus! {

/// Why an installation failed.
#[derive(Clone, Copy, Debug, PartialEq, Eq, Structural)]
pub enum InstallError {
    /// The installation directory or its assets directory could not be
    /// created.
    DirectoryCreation,
    /// The assets could not be unpacked.
    Extraction(ExtractionError),
}

/// What an installation comes to once the user has answered.
#[derive(Debug, PartialEq, Eq)]
pub enum Installation {
    /// The user declined: nothing is to be done to the disk.
    Declined,
    /// The user agreed: these operations install the assets.
    Proceed { ops: Vec<FsOp> },
}

/// What an [`Installation`] stands for.
pub enum InstallationView {
    Declined,
    Proceed { ops: Seq<FsOpView> },
}

impl View for Installation {
    type V = InstallationView;

    open spec fn view(&self) -> InstallationView {
        match self {
            Installation::Declined => InstallationView::Declined,
            Installation::Proceed { ops } => InstallationView::Proceed { ops: ops_view(ops@) },
        }
    }
}

/// The two directories that an installation creates before it unpacks: the
/// installation directory, then the assets directory in it.
pub open spec fn preparation(root: LocationView) -> Seq<FsOpView> {
    seq![FsOpView::CreateDir { dir: root }, FsOpView::CreateDir { dir: assets_of(root) }]
}

/// What installing `bundle` at `root` comes to. A user who declines is asked
/// for nothing more. Otherwise the two directories are created and the
/// archive is unpacked into the assets directory; an archive that cannot be
/// unpacked fails the installation before anything is created.
pub open spec fn installation(bundle: BundleView, root: LocationView, confirmed: bool) -> Result<
    InstallationView,
    InstallError,
> {
    if !confirmed {
        Ok(InstallationView::Declined)
    } else {
        match extraction(bundle.archive, assets_of(root)) {
            Err(e) => Err(InstallError::Extraction(e)),
            Ok(plan) => Ok(InstallationView::Proceed { ops: preparation(root) + plan }),
        }
    }
}

/// Plans the first installation of `bundle`, given the user's answer to the
/// question whether to install. It is meant for an installation directory
/// that does not exist yet.
pub fn install(bundle: &Bundle, layout: &Layout, confirmed: bool) -> (r: Result<
    Installation,
    InstallError,
>)
    ensures
        match installation(bundle@, layout@, confirmed) {
            Ok(planned) => r matches Ok(i) && i@ == planned,
            Err(e) => r matches Err(f) && f == e,
        },
        !confirmed ==> r matches Ok(Installation::Declined),
        r matches Ok(Installation::Proceed { ops }) ==> ops.len() > 2,
{
    if !confirmed {
        return Ok(Installation::Declined);
    }
    let assets = layout.assets_dir();
    let mut plan = match extract(bundle.archive.as_slice(), &assets) {
        Ok(plan) => plan,
        Err(e) => {
            return Err(InstallError::Extraction(e));
        },
    };
    let mut ops: Vec<FsOp> = Vec::new();
    let make_root = FsOp::CreateDir { dir: layout.root() };
    let make_assets = FsOp::CreateDir { dir: assets };
    proof {
        lemma_ops_view_push(ops@, make_root);
        lemma_ops_view_push(ops@.push(make_root), make_assets);
        assert(ops_view(ops@.push(make_root).push(make_assets)) =~= preparation(layout@));
        assert(ops_view(ops@.push(make_root).push(make_assets) + plan@) =~= preparation(layout@)
            + ops_view(plan@));
    }
    ops.push(make_root);
    ops.push(make_assets);
    ops.append(&mut plan);
    Ok(Installation::Proceed { ops })
}

/// The error that a failed operation of an installation stands for: creating
/// one of the two directories is the installer's own step, everything else
/// belongs to the unpacking.
pub open spec fn install_failure_of(op: FsOpView) -> InstallError {
    if op is CreateDir {
        InstallError::DirectoryCreation
    } else {
        InstallError::Extraction(ExtractionError::WriteFailed)
    }
}

/// Tells which error the failure of `op`, an operation of an installation,
/// stands for.
pub fn install_failure(op: &FsOp) -> (r: InstallError)
    ensures
        r == install_failure_of(op@),
{
    match op {
        FsOp::CreateDir { .. } => InstallError::DirectoryCreation,
        _ => InstallError::Extraction(ExtractionError::WriteFailed),
    }
}

} // verus!
