//! What holds of every archive and of every deployment.
//!
//! The statements here are about the functions that say what the library
//! computes, [`plan_for`], [`extraction`] and [`DriverView::advance`], and
//! about [`Disk`], which says what the operations they ask for leave behind.

use vstd::prelude::*;
use crate::archive::{
    entry_plan,
    extraction,
    gzip_payload,
    kind_of,
    modified_ops,
    only_adds,
    permission_ops,
    plan_for,
    stays_within,
    tar_entries,
    EntryKind,
    RawEntryView,
};
use crate::disk::{lemma_additions_keep_dirs, lemma_after_all_concat, Disk, FsOpView};
use crate::driver::{exit_code_of, DriverView, EventView, Outcome, Phase, StageView};
use crate::installer::{installation, preparation};
use crate::layout::{assets_of, marker_of, BundleView, ASSETS_DIR, VERSION_FILE};
use crate::paths::{
    climbs,
    is_absolute,
    is_normal,
    lemma_descent_is_injective,
    lemma_descent_stays_within,
    lemma_relative_parts_are_normal,
    relative_parts,
    LocationView,
};
use crate::updater::reconciliation;
use crate::version::{status_of, VersionStatus};

verus! {

/// The operations of one accepted item stay within the destination and
/// remove nothing.
pub proof fn lemma_entry_plan_is_contained(item: Option<RawEntryView>, dest: LocationView)
    ensures
        entry_plan(item, dest) matches Ok(more) ==> stays_within(more, dest) && only_adds(more),
{
    if let Ok(more) = entry_plan(item, dest) {
        let entry = item->Some_0;
        if kind_of(entry.kind, entry.path) != EntryKind::Metadata {
            lemma_relative_parts_are_normal(entry.path);
            let parts = relative_parts(entry.path)->Some_0;
            lemma_descent_stays_within(dest, parts);
            if kind_of(entry.kind, entry.path) == EntryKind::File {
                lemma_descent_stays_within(dest, parts.drop_last());
            }
        }
    }
}

/// An entry that could reach outside the destination: a link, or a file or
/// directory whose path is absolute or climbs with `..`.
pub open spec fn reaches_outside(entry: RawEntryView) -> bool {
    match kind_of(entry.kind, entry.path) {
        EntryKind::Metadata => false,
        EntryKind::Link => true,
        _ => is_absolute(entry.path) || climbs(entry.path),
    }
}

/// No archive entry can make the archive reader reach outside its
/// destination. Every operation of a plan changes the destination or a place
/// that lies below it through normal components, and none removes anything.
/// An item that is refused fails the whole plan, and an entry that could
/// reach outside is refused: nothing is written for it, inside or outside.
pub proof fn plan_is_contained(items: Seq<Option<RawEntryView>>, dest: LocationView)
    ensures
        plan_for(items, dest) matches Ok(ops) ==> stays_within(ops, dest) && only_adds(ops)
            && ops.len() > 0,
        forall|i: int|
            0 <= i < items.len() && entry_plan(#[trigger] items[i], dest) is Err ==> plan_for(
                items,
                dest,
            ) is Err,
        forall|i: int|
            0 <= i < items.len() && (#[trigger] items[i]) is Some && reaches_outside(
                items[i]->Some_0,
            ) ==> entry_plan(items[i], dest) is Err,
    decreases items.len(),
{
    if items.len() == 0 {
        lemma_descent_stays_within(dest, Seq::empty());
        assert(dest.join(Seq::empty()).parts =~= dest.parts);
    } else {
        plan_is_contained(items.drop_last(), dest);
        lemma_entry_plan_is_contained(items.last(), dest);
        assert forall|i: int|
            0 <= i < items.len() && entry_plan(#[trigger] items[i], dest) is Err implies plan_for(
            items,
            dest,
        ) is Err by {
            if i < items.len() - 1 {
                assert(items.drop_last()[i] == items[i]);
            }
        }
    }
}

/// The same, of the unpacking of a compressed archive.
pub proof fn extraction_is_contained(bundle: Seq<u8>, dest: LocationView)
    ensures
        extraction(bundle, dest) matches Ok(ops) ==> stays_within(ops, dest) && only_adds(ops)
            && ops.len() > 0,
{
    if let Some(payload) = gzip_payload(bundle) {
        plan_is_contained(tar_entries(payload), dest);
    }
}

/// The file that an item writes, as the components below the destination and
/// the content, where the item is a file that the archive reader accepts.
pub open spec fn written(item: Option<RawEntryView>) -> Option<(Seq<Seq<u8>>, Seq<u8>)> {
    match item {
        Some(entry) => if entry.data.len() == entry.size && kind_of(entry.kind, entry.path)
            == EntryKind::File {
            match relative_parts(entry.path) {
                Some(parts) => Some((parts, entry.data)),
                None => None,
            }
        } else {
            None
        },
        None => None,
    }
}

/// Carrying out a plan that starts with `first` is carrying out `first` and
/// then the rest.
pub proof fn lemma_after_all_front(disk: Disk, ops: Seq<FsOpView>)
    requires
        ops.len() > 0,
    ensures
        disk.after_all(ops) == disk.after(ops[0]).after_all(ops.skip(1)),
{
    let first = seq![ops[0]];
    assert(first + ops.skip(1) =~= ops);
    lemma_after_all_concat(disk, first, ops.skip(1));
    assert(first.drop_last() =~= Seq::<FsOpView>::empty());
    assert(disk.after_all(first) == disk.after_all(first.drop_last()).after(first.last()));
    assert(disk.after_all(Seq::<FsOpView>::empty()) == disk);
}

/// Operations that write no file at `file` and remove nothing leave the
/// content of `file` as it was.
pub proof fn lemma_other_writes_keep_file(disk: Disk, ops: Seq<FsOpView>, file: LocationView)
    requires
        only_adds(ops),
        forall|i: int|
            0 <= i < ops.len() && (#[trigger] ops[i]) is WriteFile ==> ops[i].target() != file,
    ensures
        disk.after_all(ops).read(file) == disk.read(file),
    decreases ops.len(),
{
    if ops.len() > 0 {
        assert(only_adds(ops.drop_last())) by {
            assert forall|i: int| 0 <= i < ops.drop_last().len() implies (
            #[trigger] ops.drop_last()[i]).adds_only() by {
                assert(ops.drop_last()[i] == ops[i]);
            }
        }
        assert forall|i: int|
            0 <= i < ops.drop_last().len() && (#[trigger] ops.drop_last()[i]) is WriteFile implies ops.drop_last()[i].target()
            != file by {
            assert(ops.drop_last()[i] == ops[i]);
        }
        lemma_other_writes_keep_file(disk, ops.drop_last(), file);
        assert(ops.last() == ops[ops.len() - 1]);
    }
}

/// Unpacking an archive and then reading a file that the archive lists gives
/// back the content that the archive holds for it: after every operation of
/// the plan has succeeded, the file that entry `i` writes holds the data of
/// entry `i`, provided that no later entry writes the same file. (Where two
/// entries write one file, the later one is read back.)
pub proof fn extracted_files_read_back(
    items: Seq<Option<RawEntryView>>,
    dest: LocationView,
    disk: Disk,
    i: int,
)
    requires
        plan_for(items, dest) is Ok,
        0 <= i < items.len(),
        written(items[i]) is Some,
        forall|j: int|
            i < j < items.len() && written(#[trigger] items[j]) is Some ==> written(items[j])->Some_0.0
                != written(items[i])->Some_0.0,
    ensures
        disk.after_all(plan_for(items, dest)->Ok_0).read(
            dest.join(written(items[i])->Some_0.0),
        ) == Some(written(items[i])->Some_0.1),
    decreases items.len(),
{
    let (parts, data) = written(items[i])->Some_0;
    let file = dest.join(parts);
    let before = plan_for(items.drop_last(), dest)->Ok_0;
    let more = entry_plan(items.last(), dest)->Ok_0;
    let earlier = disk.after_all(before);
    lemma_after_all_concat(disk, before, more);
    lemma_entry_plan_is_contained(items.last(), dest);
    if i == items.len() - 1 {
        let entry = items[i]->Some_0;
        let write = seq![
            FsOpView::CreateDirAll { dir: dest.join(parts.drop_last()) },
            FsOpView::WriteFile { file, content: data },
        ];
        let dress = modified_ops(file, entry.mtime) + permission_ops(file, entry.mode);
        assert(more =~= write + dress);
        lemma_after_all_concat(earlier, write, dress);
        assert(write.drop_last().drop_last() =~= Seq::<FsOpView>::empty());
        assert(earlier.after_all(write) == earlier.after_all(write.drop_last()).after(write.last()));
        assert(earlier.after_all(write.drop_last()) == earlier.after_all(
            write.drop_last().drop_last(),
        ).after(write.drop_last().last()));
        lemma_other_writes_keep_file(earlier.after_all(write), dress, file);
    } else {
        assert(items.drop_last()[i] == items[i]);
        assert forall|j: int|
            i < j < items.drop_last().len() && written(#[trigger] items.drop_last()[j])
                is Some implies written(items.drop_last()[j])->Some_0.0 != parts by {
            assert(items.drop_last()[j] == items[j]);
        }
        extracted_files_read_back(items.drop_last(), dest, disk, i);
        assert forall|k: int| 0 <= k < more.len() && (#[trigger] more[k]) is WriteFile implies more[k].target()
            != file by {
            let last = items[items.len() - 1];
            assert(written(last) is Some);
            if more[k].target() == file {
                lemma_descent_is_injective(dest, written(last)->Some_0.0, parts);
            }
        }
        lemma_other_writes_keep_file(earlier, more, file);
    }
}

/// The same, of the unpacking of a compressed archive: once every operation
/// that [`extraction`] asks for has succeeded, each file that the archive
/// lists reads back as the archive holds it.
pub proof fn unpacked_files_read_back(bundle: Seq<u8>, dest: LocationView, disk: Disk, i: int)
    requires
        extraction(bundle, dest) is Ok,
        0 <= i < tar_entries(gzip_payload(bundle)->Some_0).len(),
        written(tar_entries(gzip_payload(bundle)->Some_0)[i]) is Some,
        forall|j: int|
            i < j < tar_entries(gzip_payload(bundle)->Some_0).len() && written(
                #[trigger] tar_entries(gzip_payload(bundle)->Some_0)[j],
            ) is Some ==> written(tar_entries(gzip_payload(bundle)->Some_0)[j])->Some_0.0 != written(
                tar_entries(gzip_payload(bundle)->Some_0)[i],
            )->Some_0.0,
    ensures
        disk.after_all(extraction(bundle, dest)->Ok_0).read(
            dest.join(written(tar_entries(gzip_payload(bundle)->Some_0)[i])->Some_0.0),
        ) == Some(written(tar_entries(gzip_payload(bundle)->Some_0)[i])->Some_0.1),
{
    extracted_files_read_back(tar_entries(gzip_payload(bundle)->Some_0), dest, disk, i);
}

/// A deployment in progress: the driver, the disk it works on, and the
/// operations that have been carried out so far.
pub struct Run {
    pub driver: DriverView,
    pub disk: Disk,
    pub applied: Seq<FsOpView>,
}

/// What a caller reports for the pending action when it works on `disk`,
/// when the disk refuses nothing, and when the user's answer is `accept`.
pub open spec fn report(driver: DriverView, disk: Disk, accept: bool) -> EventView {
    match driver.stage {
        StageView::Probe => EventView::RootProbed { exists: disk.dirs.contains(driver.root) },
        StageView::Confirm => EventView::Confirmed { accepted: accept },
        StageView::ReadMarker => EventView::MarkerRead {
            content: disk.read(marker_of(driver.root)),
        },
        _ => EventView::Applied { succeeded: true },
    }
}

/// One round: the pending action is carried out and reported.
pub open spec fn step(run: Run, accept: bool) -> Run {
    match run.driver.stage {
        StageView::Done { outcome } => run,
        StageView::Apply { phase, remaining } => Run {
            driver: run.driver.advance(report(run.driver, run.disk, accept)),
            disk: run.disk.after(remaining[0]),
            applied: run.applied.push(remaining[0]),
        },
        _ => Run {
            driver: run.driver.advance(report(run.driver, run.disk, accept)),
            disk: run.disk,
            applied: run.applied,
        },
    }
}

/// `steps` rounds.
pub open spec fn run_for(run: Run, accept: bool, steps: nat) -> Run
    decreases steps,
{
    if steps == 0 {
        run
    } else {
        run_for(step(run, accept), accept, (steps - 1) as nat)
    }
}

/// The first `steps` rounds of a deployment of `bundle` at `root` that starts
/// on `disk`.
pub open spec fn deployment(
    bundle: BundleView,
    root: LocationView,
    disk: Disk,
    accept: bool,
    steps: nat,
) -> Run {
    run_for(
        Run { driver: DriverView::start(bundle, root), disk, applied: Seq::empty() },
        accept,
        steps,
    )
}

/// Entry `i` is the one that decides what the version marker holds once
/// `items` are unpacked: it writes `version` to the marker, and no later
/// entry writes the marker.
pub open spec fn holds_marker(items: Seq<Option<RawEntryView>>, version: Seq<u8>, i: int) -> bool {
    &&& 0 <= i < items.len()
    &&& written(items[i]) == Some((seq![VERSION_FILE@], version))
    &&& forall|j: int|
        i < j < items.len() && written(#[trigger] items[j]) is Some ==> written(items[j])->Some_0.0
            != seq![VERSION_FILE@]
}

/// The archive of the bundle holds a version marker, and the marker holds the
/// version of the bundle. A bundle is meant to be built so.
pub open spec fn carries_marker(bundle: BundleView) -> bool {
    &&& gzip_payload(bundle.archive) is Some
    &&& exists|i: int|
        holds_marker(tar_entries(gzip_payload(bundle.archive)->Some_0), bundle.version, i)
}

/// A deployment that has ended stays as it is.
pub proof fn lemma_done_is_final(run: Run, accept: bool, steps: nat)
    requires
        run.driver.stage is Done,
    ensures
        run_for(run, accept, steps) == run,
    decreases steps,
{
    if steps > 0 {
        lemma_done_is_final(run, accept, (steps - 1) as nat);
    }
}

/// A plan is carried out operation by operation: until there have been as
/// many rounds as the plan has operations the deployment is still at it, and
/// after that many rounds all of them have been carried out, in order, and
/// the deployment has moved on.
pub proof fn lemma_plan_is_carried_out(run: Run, accept: bool, steps: nat)
    requires
        run.driver.stage is Apply,
        run.driver.stage->remaining.len() > 0,
    ensures
        steps < run.driver.stage->remaining.len() ==> run_for(run, accept, steps).driver.stage
            is Apply,
        steps >= run.driver.stage->remaining.len() ==> run_for(run, accept, steps) == run_for(
            Run {
                driver: run.driver.completed(run.driver.stage->phase),
                disk: run.disk.after_all(run.driver.stage->remaining),
                applied: run.applied + run.driver.stage->remaining,
            },
            accept,
            (steps - run.driver.stage->remaining.len()) as nat,
        ),
    decreases steps,
{
    let remaining = run.driver.stage->remaining;
    if steps > 0 {
        let next = step(run, accept);
        lemma_after_all_front(run.disk, remaining);
        if remaining.len() > 1 {
            lemma_plan_is_carried_out(next, accept, (steps - 1) as nat);
            assert(run.applied.push(remaining[0]) + remaining.skip(1) =~= run.applied + remaining);
        } else {
            assert(remaining.skip(1) =~= Seq::<FsOpView>::empty());
            assert(run.applied.push(remaining[0]) =~= run.applied + remaining);
        }
    }
}

/// Once a bundle that carries its marker has been unpacked into the assets
/// directory, the version marker on disk holds the version of the bundle.
pub proof fn unpacked_marker_holds_version(bundle: BundleView, root: LocationView, disk: Disk)
    requires
        carries_marker(bundle),
        extraction(bundle.archive, assets_of(root)) is Ok,
    ensures
        disk.after_all(extraction(bundle.archive, assets_of(root))->Ok_0).read(marker_of(root))
            == Some(bundle.version),
{
    let items = tar_entries(gzip_payload(bundle.archive)->Some_0);
    let i = choose|i: int| holds_marker(items, bundle.version, i);
    extracted_files_read_back(items, assets_of(root), disk, i);
    assert(assets_of(root).join(seq![VERSION_FILE@]).parts =~= marker_of(root).parts);
}

/// A deployment on a disk where the installation directory exists and the
/// version marker does not differ from the bundle's version asks for no
/// operation: it ends after two rounds with an installation that is ready.
pub proof fn settled_disk_is_left_alone(
    bundle: BundleView,
    root: LocationView,
    disk: Disk,
    accept: bool,
    steps: nat,
)
    requires
        disk.dirs.contains(root),
        status_of(bundle.version, disk.read(marker_of(root))) != VersionStatus::Mismatch,
        steps >= 2,
    ensures
        deployment(bundle, root, disk, accept, steps) == (Run {
            driver: DriverView::start(bundle, root).at(StageView::Done { outcome: Outcome::Ready }),
            disk,
            applied: Seq::empty(),
        }),
{
    let start = Run { driver: DriverView::start(bundle, root), disk, applied: Seq::empty() };
    let probed = step(start, accept);
    let read = step(probed, accept);
    assert(run_for(start, accept, steps) == run_for(probed, accept, (steps - 1) as nat));
    assert(run_for(probed, accept, (steps - 1) as nat) == run_for(read, accept, (steps - 2) as nat));
    lemma_done_is_final(read, accept, (steps - 2) as nat);
}

/// A deployment that has ended with an installation that is ready leaves a
/// settled disk: the installation directory exists, and the version marker
/// does not differ from the version of the bundle. Where the deployment
/// carried out any operation, the marker holds that version.
pub proof fn ready_means_settled(
    bundle: BundleView,
    root: LocationView,
    disk: Disk,
    accept: bool,
    steps: nat,
)
    requires
        carries_marker(bundle),
        deployment(bundle, root, disk, accept, steps).driver.stage == (StageView::Done {
            outcome: Outcome::Ready,
        }),
    ensures
        deployment(bundle, root, disk, accept, steps).disk.dirs.contains(root),
        status_of(
            bundle.version,
            deployment(bundle, root, disk, accept, steps).disk.read(marker_of(root)),
        ) != VersionStatus::Mismatch,
        deployment(bundle, root, disk, accept, steps).applied.len() > 0 ==> deployment(
            bundle,
            root,
            disk,
            accept,
            steps,
        ).disk.read(marker_of(root)) == Some(bundle.version),
{
    let start = Run { driver: DriverView::start(bundle, root), disk, applied: Seq::empty() };
    let assets = assets_of(root);
    if steps >= 2 {
        let probed = step(start, accept);
        let answered = step(probed, accept);
        let left = (steps - 2) as nat;
        assert(run_for(start, accept, steps) == run_for(probed, accept, (steps - 1) as nat));
        assert(run_for(probed, accept, (steps - 1) as nat) == run_for(answered, accept, left));
        extraction_is_contained(bundle.archive, assets);
        if answered.driver.stage is Done {
            lemma_done_is_final(answered, accept, left);
        } else if disk.dirs.contains(root) {
            let ops = reconciliation(bundle, root)->Ok_0;
            let plan = extraction(bundle.archive, assets)->Ok_0;
            let clear = seq![FsOpView::RemoveDirAll { dir: assets }];
            assert(answered.driver.stage == StageView::Apply { phase: Phase::Update, remaining: ops });
            lemma_plan_is_carried_out(answered, accept, left);
            let ended = Run {
                driver: answered.driver.completed(Phase::Update),
                disk: disk.after_all(ops),
                applied: answered.applied + ops,
            };
            lemma_done_is_final(ended, accept, (left - ops.len()) as nat);
            lemma_after_all_concat(disk, clear, plan);
            lemma_after_all_front(disk, clear);
            assert(clear.skip(1) =~= Seq::<FsOpView>::empty());
            let cleared = disk.after(clear[0]);
            assert(!root.under(assets));
            lemma_additions_keep_dirs(cleared, plan, root);
            unpacked_marker_holds_version(bundle, root, cleared);
        } else {
            let ops = installation(bundle, root, accept)->Ok_0->ops;
            let plan = extraction(bundle.archive, assets)->Ok_0;
            let made = preparation(root);
            assert(answered.driver.stage == StageView::Apply { phase: Phase::Install, remaining: ops });
            lemma_plan_is_carried_out(answered, accept, left);
            let unpacked = Run {
                driver: answered.driver.completed(Phase::Install),
                disk: disk.after_all(ops),
                applied: answered.applied + ops,
            };
            lemma_after_all_concat(disk, made, plan);
            lemma_after_all_front(disk, made);
            lemma_after_all_front(disk.after(made[0]), made.skip(1));
            assert(made.skip(1).skip(1) =~= Seq::<FsOpView>::empty());
            let prepared = disk.after(made[0]).after(made[1]);
            assert(prepared.dirs.contains(root));
            lemma_additions_keep_dirs(prepared, plan, root);
            unpacked_marker_holds_version(bundle, root, prepared);
            if left > ops.len() {
                let rest = (left - ops.len()) as nat;
                let checked = step(unpacked, accept);
                assert(run_for(unpacked, accept, rest) == run_for(
                    checked,
                    accept,
                    (rest - 1) as nat,
                ));
                lemma_done_is_final(checked, accept, (rest - 1) as nat);
            }
        }
    } else if steps == 1 {
        let probed = step(start, accept);
        assert(run_for(start, accept, steps) == run_for(probed, accept, 0));
    }
}

/// Deploying twice in a row changes nothing the second time. Let a first
/// deployment of a bundle that carries its marker have ended with an
/// installation that is ready, on a disk that refused nothing. A second
/// deployment that starts on the disk that the first one left, whatever the
/// user would answer, carries out no operation, leaves the disk as it is and
/// ends ready after two rounds, and the version oracle does not report a
/// mismatch. It reports a match where the first deployment installed or
/// updated anything; where it did not, what it reports is what it reported
/// the first time.
pub proof fn second_deployment_changes_nothing(
    bundle: BundleView,
    root: LocationView,
    disk: Disk,
    accept: bool,
    steps: nat,
    accept_again: bool,
    steps_again: nat,
)
    requires
        carries_marker(bundle),
        deployment(bundle, root, disk, accept, steps).driver.stage == (StageView::Done {
            outcome: Outcome::Ready,
        }),
        steps_again >= 2,
    ensures
        ({
            let first = deployment(bundle, root, disk, accept, steps);
            let second = deployment(bundle, root, first.disk, accept_again, steps_again);
            &&& second.driver.stage == StageView::Done { outcome: Outcome::Ready }
            &&& second.applied.len() == 0
            &&& second.disk == first.disk
            &&& status_of(bundle.version, first.disk.read(marker_of(root)))
                != VersionStatus::Mismatch
            &&& first.applied.len() > 0 ==> status_of(
                bundle.version,
                first.disk.read(marker_of(root)),
            ) == VersionStatus::Match
        }),
{
    ready_means_settled(bundle, root, disk, accept, steps);
    let first = deployment(bundle, root, disk, accept, steps);
    settled_disk_is_left_alone(bundle, root, first.disk, accept_again, steps_again);
}

/// A user who declines the first installation leaves the disk untouched. On
/// a disk without the installation directory, a deployment whose user
/// declines carries out no operation, so the directory is still missing, and
/// it ends after two rounds with the outcome that asks for exit status 0.
pub proof fn declining_changes_nothing(
    bundle: BundleView,
    root: LocationView,
    disk: Disk,
    steps: nat,
)
    requires
        !disk.dirs.contains(root),
        steps >= 2,
    ensures
        deployment(bundle, root, disk, false, steps) == (Run {
            driver: DriverView::start(bundle, root).at(
                StageView::Done { outcome: Outcome::Declined },
            ),
            disk,
            applied: Seq::empty(),
        }),
        exit_code_of(Outcome::Declined) == Some(0i32),
{
    let start = Run { driver: DriverView::start(bundle, root), disk, applied: Seq::empty() };
    let probed = step(start, false);
    let answered = step(probed, false);
    assert(run_for(start, false, steps) == run_for(probed, false, (steps - 1) as nat));
    assert(run_for(probed, false, (steps - 1) as nat) == run_for(
        answered,
        false,
        (steps - 2) as nat,
    ));
    lemma_done_is_final(answered, false, (steps - 2) as nat);
}

/// A number of rounds after which every deployment of `bundle` at `root` has
/// ended.
pub open spec fn rounds_needed(bundle: BundleView, root: LocationView) -> nat {
    match extraction(bundle.archive, assets_of(root)) {
        Ok(plan) => 6 + 2 * plan.len(),
        Err(_) => 3,
    }
}

/// Every deployment ends, on any disk and whatever the user answers, as long
/// as the disk refuses nothing: after [`rounds_needed`] rounds the driver
/// asks for nothing more.
pub proof fn deployment_ends(
    bundle: BundleView,
    root: LocationView,
    disk: Disk,
    accept: bool,
    steps: nat,
)
    requires
        steps >= rounds_needed(bundle, root),
    ensures
        deployment(bundle, root, disk, accept, steps).driver.stage is Done,
{
    let start = Run { driver: DriverView::start(bundle, root), disk, applied: Seq::empty() };
    let probed = step(start, accept);
    let answered = step(probed, accept);
    let left = (steps - 2) as nat;
    assert(run_for(start, accept, steps) == run_for(probed, accept, (steps - 1) as nat));
    assert(run_for(probed, accept, (steps - 1) as nat) == run_for(answered, accept, left));
    extraction_is_contained(bundle.archive, assets_of(root));
    if answered.driver.stage is Done {
        lemma_done_is_final(answered, accept, left);
    } else {
        let ops = answered.driver.stage->remaining;
        lemma_plan_is_carried_out(answered, accept, left);
        let carried = Run {
            driver: answered.driver.completed(answered.driver.stage->phase),
            disk: answered.disk.after_all(ops),
            applied: answered.applied + ops,
        };
        let rest = (left - ops.len()) as nat;
        if carried.driver.stage is Done {
            lemma_done_is_final(carried, accept, rest);
        } else {
            let checked = step(carried, accept);
            assert(run_for(carried, accept, rest) == run_for(checked, accept, (rest - 1) as nat));
            if checked.driver.stage is Done {
                lemma_done_is_final(checked, accept, (rest - 1) as nat);
            } else {
                let again = checked.driver.stage->remaining;
                lemma_plan_is_carried_out(checked, accept, (rest - 1) as nat);
                let ended = Run {
                    driver: checked.driver.completed(Phase::Update),
                    disk: checked.disk.after_all(again),
                    applied: checked.applied + again,
                };
                lemma_done_is_final(ended, accept, (rest - 1 - again.len()) as nat);
            }
        }
    }
}

/// How far a deployment has come: each stage counts for more than the stages
/// that can come before it.
pub open spec fn progress(stage: StageView) -> nat {
    match stage {
        StageView::Probe => 0,
        StageView::Confirm => 1,
        StageView::Apply { phase: Phase::Install, .. } => 2,
        StageView::ReadMarker => 3,
        StageView::Apply { phase: Phase::Update, .. } => 4,
        StageView::Done { .. } => 5,
    }
}

/// No event takes a deployment back to an earlier stage.
pub proof fn stages_never_go_back(driver: DriverView, event: EventView)
    ensures
        progress(driver.advance(event).stage) >= progress(driver.stage),
{
}

/// No round takes a deployment back to an earlier stage.
pub proof fn lemma_rounds_never_go_back(run: Run, accept: bool, steps: nat)
    ensures
        progress(run_for(run, accept, steps).driver.stage) >= progress(run.driver.stage),
    decreases steps,
{
    if steps > 0 {
        stages_never_go_back(run.driver, report(run.driver, run.disk, accept));
        lemma_rounds_never_go_back(step(run, accept), accept, (steps - 1) as nat);
    }
}

/// The user is asked at most once in a deployment, right after the
/// installation directory was found missing, and never where it exists.
pub proof fn user_is_asked_at_most_once(
    bundle: BundleView,
    root: LocationView,
    disk: Disk,
    accept: bool,
    steps: nat,
)
    ensures
        deployment(bundle, root, disk, accept, steps).driver.stage is Confirm <==> steps == 1
            && !disk.dirs.contains(root),
{
    let start = Run { driver: DriverView::start(bundle, root), disk, applied: Seq::empty() };
    if steps >= 1 {
        let probed = step(start, accept);
        assert(run_for(start, accept, steps) == run_for(probed, accept, (steps - 1) as nat));
        if steps >= 2 {
            let answered = step(probed, accept);
            assert(run_for(probed, accept, (steps - 1) as nat) == run_for(
                answered,
                accept,
                (steps - 2) as nat,
            ));
            lemma_rounds_never_go_back(answered, accept, (steps - 2) as nat);
        } else {
            assert(run_for(probed, accept, 0) == probed);
        }
    }
}

/// An operation that fails ends the deployment at once: nothing more is asked
/// for, and the outcome asks for exit status 1.
pub proof fn failure_ends_the_deployment(driver: DriverView)
    requires
        driver.stage is Apply,
    ensures
        driver.advance(EventView::Applied { succeeded: false }).stage matches StageView::Done {
            outcome,
        } && outcome is Failed && exit_code_of(outcome) == Some(1i32),
{
}

/// The program goes on to serve exactly where the deployment ended with an
/// installation that is ready: every other outcome asks for an exit.
pub proof fn only_a_ready_installation_is_served(outcome: Outcome)
    ensures
        exit_code_of(outcome) is None <==> outcome == Outcome::Ready,
        exit_code_of(outcome) == Some(0i32) <==> outcome == Outcome::Declined,
        exit_code_of(outcome) == Some(1i32) <==> outcome is Failed,
{
}

/// One of the operations writes the file `file`.
pub open spec fn writes_to(ops: Seq<FsOpView>, file: LocationView) -> bool {
    exists|i: int| 0 <= i < ops.len() && (#[trigger] ops[i]) is WriteFile && ops[i].target() == file
}

/// After operations that remove nothing, a file is there because it was
/// there before or because one of the operations wrote it.
pub proof fn lemma_files_come_from_writes(disk: Disk, ops: Seq<FsOpView>, file: LocationView)
    requires
        only_adds(ops),
    ensures
        disk.after_all(ops).read(file) is Some ==> disk.read(file) is Some || writes_to(ops, file),
    decreases ops.len(),
{
    if ops.len() > 0 {
        let before = ops.drop_last();
        assert(only_adds(before)) by {
            assert forall|i: int| 0 <= i < before.len() implies (#[trigger] before[i]).adds_only() by {
                assert(before[i] == ops[i]);
            }
        }
        lemma_files_come_from_writes(disk, before, file);
        assert(ops.last() == ops[ops.len() - 1]);
        if writes_to(before, file) {
            let i = choose|i: int|
                0 <= i < before.len() && (#[trigger] before[i]) is WriteFile && before[i].target()
                    == file;
            assert(ops[i] == before[i]);
        }
    }
}

/// An update replaces the assets wholesale. Once every operation of an
/// update has succeeded, whatever the assets directory held before, a file
/// is found in it or below it only if the update wrote it: nothing of the
/// old assets is left.
pub proof fn update_replaces_wholesale(
    bundle: BundleView,
    root: LocationView,
    disk: Disk,
    file: LocationView,
)
    requires
        reconciliation(bundle, root) is Ok,
        file.under(assets_of(root)),
        disk.after_all(reconciliation(bundle, root)->Ok_0).read(file) is Some,
    ensures
        writes_to(extraction(bundle.archive, assets_of(root))->Ok_0, file),
        writes_to(reconciliation(bundle, root)->Ok_0, file),
{
    let assets = assets_of(root);
    let plan = extraction(bundle.archive, assets)->Ok_0;
    let clear = seq![FsOpView::RemoveDirAll { dir: assets }];
    extraction_is_contained(bundle.archive, assets);
    lemma_after_all_concat(disk, clear, plan);
    lemma_after_all_front(disk, clear);
    assert(clear.skip(1) =~= Seq::<FsOpView>::empty());
    lemma_files_come_from_writes(disk.after(clear[0]), plan, file);
    let i = choose|i: int|
        0 <= i < plan.len() && (#[trigger] plan[i]) is WriteFile && plan[i].target() == file;
    assert((clear + plan)[i + 1] == plan[i]);
}

/// A place within a place that is within a third is within the third.
pub proof fn lemma_within_is_transitive(inner: LocationView, middle: LocationView, outer: LocationView)
    requires
        inner.within(middle),
        middle.within(outer),
    ensures
        inner.within(outer),
{
    assert(inner.parts.subrange(0, outer.parts.len() as int) =~= outer.parts) by {
        assert forall|k: int| 0 <= k < outer.parts.len() implies inner.parts[k]
            == outer.parts[k] by {
            assert(inner.parts.subrange(0, middle.parts.len() as int)[k] == middle.parts[k]);
            assert(middle.parts.subrange(0, outer.parts.len() as int)[k] == outer.parts[k]);
        }
    }
    assert forall|k: int| outer.parts.len() <= k < inner.parts.len() implies is_normal(
        #[trigger] inner.parts[k],
    ) by {
        if k < middle.parts.len() {
            assert(inner.parts.subrange(0, middle.parts.len() as int)[k] == middle.parts[k]);
        }
    }
}

/// A deployment keeps to its installation directory. Every operation that an
/// installation or an update asks for changes the installation directory or
/// a place that lies below it through normal components: whatever the
/// archive holds, nothing else on the disk is created, written or removed.
pub proof fn deployment_keeps_to_its_directory(
    bundle: BundleView,
    root: LocationView,
    confirmed: bool,
)
    ensures
        installation(bundle, root, confirmed) matches Ok(planned) ==> planned is Proceed
            ==> stays_within(planned->ops, root),
        reconciliation(bundle, root) matches Ok(ops) ==> stays_within(ops, root),
{
    let assets = assets_of(root);
    assert(is_normal(ASSETS_DIR@));
    assert(assets.within(root)) by {
        assert(assets.parts.subrange(0, root.parts.len() as int) =~= root.parts);
    }
    assert(root.within(root)) by {
        assert(root.parts.subrange(0, root.parts.len() as int) =~= root.parts);
    }
    extraction_is_contained(bundle.archive, assets);
    if let Ok(plan) = extraction(bundle.archive, assets) {
        assert forall|i: int| 0 <= i < plan.len() implies (#[trigger] plan[i]).target().within(
            root,
        ) by {
            lemma_within_is_transitive(plan[i].target(), assets, root);
        }
        let clear = seq![FsOpView::RemoveDirAll { dir: assets }];
        assert forall|i: int| 0 <= i < (clear + plan).len() implies (#[trigger] (clear
            + plan)[i]).target().within(root) by {
            if i >= 1 {
                assert((clear + plan)[i] == plan[i - 1]);
            }
        }
        let made = preparation(root);
        assert forall|i: int| 0 <= i < (made + plan).len() implies (#[trigger] (made
            + plan)[i]).target().within(root) by {
            if i >= 2 {
                assert((made + plan)[i] == plan[i - 2]);
            }
        }
    }
}

} // verus!
