use librarygrid::archive::ExtractionError;
use librarygrid::disk::FsOp;
use librarygrid::driver::{Action, DeployError, Driver, Event, Outcome};
use librarygrid::installer::{install, install_failure, InstallError, Installation};
use librarygrid::layout::{Bundle, Layout};
use librarygrid::paths::Location;
use librarygrid::updater::{reconcile, update_failure, UpdateError};
use std::collections::{BTreeMap, BTreeSet};
use std::io::Write;

type Key = (Vec<u8>, Vec<Vec<u8>>);

fn key(place: &Location) -> Key {
    (place.base.clone(), place.parts.clone())
}

fn at(parts: &[&str]) -> Location {
    Location { base: b"/home/u".to_vec(), parts: parts.iter().map(|p| p.as_bytes().to_vec()).collect() }
}

fn under(inner: &Key, outer: &Key) -> bool {
    inner.0 == outer.0 && inner.1.len() >= outer.1.len() && inner.1[..outer.1.len()] == outer.1[..]
}

/// A disk in memory that behaves as a file system does, and that can be told
/// to refuse the operation with a given number.
struct MemDisk {
    dirs: BTreeSet<Key>,
    files: BTreeMap<Key, Vec<u8>>,
    times: BTreeMap<Key, u64>,
    modes: BTreeMap<Key, u32>,
    applied: Vec<String>,
    refuse: Option<usize>,
}

impl MemDisk {
    fn with_home() -> MemDisk {
        let mut dirs = BTreeSet::new();
        dirs.insert(key(&at(&[])));
        MemDisk {
            dirs,
            files: BTreeMap::new(),
            times: BTreeMap::new(),
            modes: BTreeMap::new(),
            applied: Vec::new(),
            refuse: None,
        }
    }

    fn installed(version: &[u8]) -> MemDisk {
        let mut disk = MemDisk::with_home();
        disk.dirs.insert(key(&at(&["librarygrid"])));
        disk.dirs.insert(key(&at(&["librarygrid", "web"])));
        disk.files.insert(key(&at(&["librarygrid", "web", "version.txt"])), version.to_vec());
        disk.files.insert(key(&at(&["librarygrid", "web", "old.html"])), b"old".to_vec());
        disk.files.insert(key(&at(&["librarygrid", "config.toml"])), b"[db]".to_vec());
        disk
    }

    fn has_parent_dir(&self, place: &Location) -> bool {
        match place.parent() {
            Some(parent) => self.dirs.contains(&key(&parent)),
            None => true,
        }
    }

    fn apply(&mut self, op: &FsOp) -> bool {
        let number = self.applied.len();
        self.applied.push(format!("{:?}", op));
        if self.refuse == Some(number) {
            return false;
        }
        match op {
            FsOp::CreateDir { dir } => {
                let k = key(dir);
                if self.dirs.contains(&k) || self.files.contains_key(&k) || !self.has_parent_dir(dir) {
                    return false;
                }
                self.dirs.insert(k);
                true
            }
            FsOp::CreateDirAll { dir } => {
                let k = key(dir);
                for n in 0..=k.1.len() {
                    let prefix = (k.0.clone(), k.1[..n].to_vec());
                    if self.files.contains_key(&prefix) {
                        return false;
                    }
                    self.dirs.insert(prefix);
                }
                true
            }
            FsOp::RemoveDirAll { dir } => {
                let k = key(dir);
                if !self.dirs.contains(&k) {
                    return false;
                }
                self.dirs.retain(|d| !under(d, &k));
                self.files.retain(|f, _| !under(f, &k));
                true
            }
            FsOp::WriteFile { file, content } => {
                let k = key(file);
                if self.dirs.contains(&k) || !self.has_parent_dir(file) {
                    return false;
                }
                self.files.insert(k, content.clone());
                true
            }
            FsOp::SetModified { file, seconds } => {
                let k = key(file);
                if !self.files.contains_key(&k) {
                    return false;
                }
                self.times.insert(k, *seconds);
                true
            }
            FsOp::SetPermissions { target, mode } => {
                let k = key(target);
                if !self.files.contains_key(&k) && !self.dirs.contains(&k) {
                    return false;
                }
                self.modes.insert(k, *mode);
                true
            }
        }
    }

    fn read(&self, parts: &[&str]) -> Option<Vec<u8>> {
        self.files.get(&key(&at(parts))).cloned()
    }
}

struct Report {
    outcome: Outcome,
    asked: usize,
    probed: usize,
    read: usize,
}

fn deploy(bundle: Bundle, disk: &mut MemDisk, accept: bool) -> Report {
    let mut driver = Driver::new(bundle, Layout::under_home(b"/home/u".to_vec()));
    let mut report = Report { outcome: Outcome::Ready, asked: 0, probed: 0, read: 0 };
    for _ in 0..10_000 {
        let event = match driver.pending() {
            Action::ProbeRoot { root } => {
                report.probed += 1;
                assert_eq!(root, &at(&["librarygrid"]));
                Event::RootProbed { exists: disk.dirs.contains(&key(root)) }
            }
            Action::Confirm { root } => {
                report.asked += 1;
                assert_eq!(root, &at(&["librarygrid"]));
                Event::Confirmed { accepted: accept }
            }
            Action::Apply { op } => Event::Applied { succeeded: disk.apply(op) },
            Action::ReadMarker { file } => {
                report.read += 1;
                assert_eq!(file, &at(&["librarygrid", "web", "version.txt"]));
                Event::MarkerRead { content: disk.files.get(&key(file)).cloned() }
            }
            Action::Finish { outcome } => {
                report.outcome = outcome;
                assert_eq!(driver.outcome(), Some(outcome));
                return report;
            }
        };
        assert_eq!(driver.outcome(), None);
        driver.advance(event);
    }
    panic!("the deployment did not end");
}

fn pack(entries: &[(&str, &[u8])]) -> Vec<u8> {
    let mut builder = tar::Builder::new(Vec::new());
    for (name, data) in entries {
        let mut header = tar::Header::new_gnu();
        header.as_old_mut().name[..name.len()].copy_from_slice(name.as_bytes());
        header.set_size(data.len() as u64);
        header.set_mode(0o644);
        header.set_mtime(1_700_000_000);
        header.set_entry_type(tar::EntryType::Regular);
        header.set_cksum();
        builder.append(&header, *data).unwrap();
    }
    let tape = builder.into_inner().unwrap();
    let mut encoder = flate2::write::GzEncoder::new(Vec::new(), flate2::Compression::default());
    encoder.write_all(&tape).unwrap();
    encoder.finish().unwrap()
}

fn bundle(version: &[u8]) -> Bundle {
    Bundle {
        archive: pack(&[
            ("index.html", b"<html>library</html>"),
            ("css/main.css", b"body{}"),
            ("version.txt", version),
        ]),
        version: version.to_vec(),
    }
}

fn corrupt_bundle() -> Bundle {
    Bundle { archive: b"this is no archive".to_vec(), version: b"2.0".to_vec() }
}

fn layout() -> Layout {
    Layout::under_home(b"/home/u".to_vec())
}

#[test]
fn install_declined_plans_nothing() {
    assert_eq!(install(&bundle(b"2.0"), &layout(), false), Ok(Installation::Declined));
    assert_eq!(install(&corrupt_bundle(), &layout(), false), Ok(Installation::Declined));
}

#[test]
fn install_creates_both_directories_and_then_unpacks() {
    let b = Bundle { archive: pack(&[("version.txt", b"2.0")]), version: b"2.0".to_vec() };
    assert_eq!(
        install(&b, &layout(), true),
        Ok(Installation::Proceed {
            ops: vec![
                FsOp::CreateDir { dir: at(&["librarygrid"]) },
                FsOp::CreateDir { dir: at(&["librarygrid", "web"]) },
                FsOp::CreateDirAll { dir: at(&["librarygrid", "web"]) },
                FsOp::CreateDirAll { dir: at(&["librarygrid", "web"]) },
                FsOp::WriteFile {
                    file: at(&["librarygrid", "web", "version.txt"]),
                    content: b"2.0".to_vec()
                },
                FsOp::SetModified {
                    file: at(&["librarygrid", "web", "version.txt"]),
                    seconds: 1_700_000_000
                },
                FsOp::SetPermissions {
                    target: at(&["librarygrid", "web", "version.txt"]),
                    mode: 0o644
                },
            ]
        })
    );
}

#[test]
fn install_of_a_corrupt_bundle_fails_with_the_extraction_error() {
    assert_eq!(
        install(&corrupt_bundle(), &layout(), true),
        Err(InstallError::Extraction(ExtractionError::Decompression))
    );
    let escaping = Bundle { archive: pack(&[("../x", b"x")]), version: b"1".to_vec() };
    assert_eq!(
        install(&escaping, &layout(), true),
        Err(InstallError::Extraction(ExtractionError::UnsafeEntry))
    );
}

#[test]
fn reconcile_removes_the_assets_and_then_unpacks() {
    let b = Bundle { archive: pack(&[("version.txt", b"2.0")]), version: b"2.0".to_vec() };
    assert_eq!(
        reconcile(&b, &layout()),
        Ok(vec![
            FsOp::RemoveDirAll { dir: at(&["librarygrid", "web"]) },
            FsOp::CreateDirAll { dir: at(&["librarygrid", "web"]) },
            FsOp::CreateDirAll { dir: at(&["librarygrid", "web"]) },
            FsOp::WriteFile { file: at(&["librarygrid", "web", "version.txt"]), content: b"2.0".to_vec() },
            FsOp::SetModified { file: at(&["librarygrid", "web", "version.txt"]), seconds: 1_700_000_000 },
            FsOp::SetPermissions { target: at(&["librarygrid", "web", "version.txt"]), mode: 0o644 },
        ])
    );
}

#[test]
fn reconcile_of_a_corrupt_bundle_fails_with_the_extraction_error() {
    assert_eq!(
        reconcile(&corrupt_bundle(), &layout()),
        Err(UpdateError::Extraction(ExtractionError::Decompression))
    );
}

#[test]
fn failed_operations_of_an_installation_are_told_apart() {
    assert_eq!(install_failure(&FsOp::CreateDir { dir: at(&["librarygrid"]) }), InstallError::DirectoryCreation);
    assert_eq!(
        install_failure(&FsOp::CreateDirAll { dir: at(&["librarygrid", "web"]) }),
        InstallError::Extraction(ExtractionError::WriteFailed)
    );
    assert_eq!(
        install_failure(&FsOp::WriteFile { file: at(&["librarygrid", "web", "a"]), content: vec![] }),
        InstallError::Extraction(ExtractionError::WriteFailed)
    );
    assert_eq!(
        install_failure(&FsOp::SetModified { file: at(&["librarygrid", "web", "a"]), seconds: 1 }),
        InstallError::Extraction(ExtractionError::WriteFailed)
    );
    assert_eq!(
        install_failure(&FsOp::SetPermissions { target: at(&["librarygrid", "web", "a"]), mode: 0o644 }),
        InstallError::Extraction(ExtractionError::WriteFailed)
    );
}

#[test]
fn failed_operations_of_an_update_are_told_apart() {
    assert_eq!(
        update_failure(&FsOp::RemoveDirAll { dir: at(&["librarygrid", "web"]) }),
        UpdateError::DirectoryRemoval
    );
    assert_eq!(
        update_failure(&FsOp::CreateDirAll { dir: at(&["librarygrid", "web"]) }),
        UpdateError::Extraction(ExtractionError::WriteFailed)
    );
    assert_eq!(
        update_failure(&FsOp::WriteFile { file: at(&["librarygrid", "web", "a"]), content: vec![] }),
        UpdateError::Extraction(ExtractionError::WriteFailed)
    );
}

#[test]
fn exit_codes_follow_the_outcome() {
    assert_eq!(Outcome::Ready.exit_code(), None);
    assert_eq!(Outcome::Declined.exit_code(), Some(0));
    assert_eq!(
        Outcome::Failed(DeployError::Install(InstallError::DirectoryCreation)).exit_code(),
        Some(1)
    );
    assert_eq!(
        Outcome::Failed(DeployError::Update(UpdateError::Extraction(ExtractionError::WriteFailed)))
            .exit_code(),
        Some(1)
    );
}

#[test]
fn driver_exposes_what_it_deploys() {
    let driver = Driver::new(bundle(b"2.0"), layout());
    assert_eq!(driver.bundle(), &bundle(b"2.0"));
    assert_eq!(driver.layout(), &layout());
    assert_eq!(driver.outcome(), None);
}

#[test]
fn first_run_installs_index_and_version_marker() {
    let mut disk = MemDisk::with_home();
    let b = Bundle {
        archive: pack(&[("index.html", b"<html>library</html>"), ("version.txt", b"2.0")]),
        version: b"2.0".to_vec(),
    };
    let report = deploy(b, &mut disk, true);
    assert_eq!(report.outcome, Outcome::Ready);
    assert_eq!(report.asked, 1);
    assert!(disk.dirs.contains(&key(&at(&["librarygrid"]))));
    assert!(disk.dirs.contains(&key(&at(&["librarygrid", "web"]))));
    assert_eq!(disk.read(&["librarygrid", "web", "index.html"]), Some(b"<html>library</html>".to_vec()));
    assert_eq!(disk.read(&["librarygrid", "web", "version.txt"]), Some(b"2.0".to_vec()));
    assert_eq!(disk.files.len(), 2);
    assert_eq!(disk.modes.get(&key(&at(&["librarygrid", "web", "index.html"]))), Some(&0o644));
    assert_eq!(disk.times.get(&key(&at(&["librarygrid", "web", "index.html"]))), Some(&1_700_000_000));
}

#[test]
fn first_run_unpacks_every_file_with_its_content() {
    let mut disk = MemDisk::with_home();
    let report = deploy(bundle(b"2.0"), &mut disk, true);
    assert_eq!(report.outcome, Outcome::Ready);
    assert_eq!(disk.read(&["librarygrid", "web", "index.html"]), Some(b"<html>library</html>".to_vec()));
    assert_eq!(disk.read(&["librarygrid", "web", "css", "main.css"]), Some(b"body{}".to_vec()));
    assert_eq!(disk.read(&["librarygrid", "web", "version.txt"]), Some(b"2.0".to_vec()));
    assert!(disk.dirs.contains(&key(&at(&["librarygrid", "web", "css"]))));
}

#[test]
fn declining_leaves_no_installation_directory_and_exits_with_zero() {
    let mut disk = MemDisk::with_home();
    let report = deploy(bundle(b"2.0"), &mut disk, false);
    assert_eq!(report.outcome, Outcome::Declined);
    assert_eq!(report.outcome.exit_code(), Some(0));
    assert_eq!(report.asked, 1);
    assert_eq!(report.read, 0);
    assert!(disk.applied.is_empty());
    assert!(!disk.dirs.contains(&key(&at(&["librarygrid"]))));
    assert_eq!(disk.dirs.len(), 1);
    assert!(disk.files.is_empty());
}

#[test]
fn mismatching_marker_replaces_the_assets() {
    let mut disk = MemDisk::installed(b"1.3");
    let report = deploy(bundle(b"2.0"), &mut disk, true);
    assert_eq!(report.outcome, Outcome::Ready);
    assert_eq!(report.asked, 0);
    assert_eq!(disk.read(&["librarygrid", "web", "version.txt"]), Some(b"2.0".to_vec()));
    assert_eq!(disk.read(&["librarygrid", "web", "index.html"]), Some(b"<html>library</html>".to_vec()));
    assert_eq!(disk.read(&["librarygrid", "web", "old.html"]), None);
    assert_eq!(disk.read(&["librarygrid", "config.toml"]), Some(b"[db]".to_vec()));
    assert!(disk.applied[0].starts_with("RemoveDirAll"));
}

#[test]
fn downgrade_is_an_update_like_any_other() {
    let mut disk = MemDisk::installed(b"3.1");
    let report = deploy(bundle(b"2.0"), &mut disk, true);
    assert_eq!(report.outcome, Outcome::Ready);
    assert_eq!(disk.read(&["librarygrid", "web", "version.txt"]), Some(b"2.0".to_vec()));
}

#[test]
fn matching_marker_changes_nothing() {
    let mut disk = MemDisk::installed(b"2.0");
    let report = deploy(bundle(b"2.0"), &mut disk, true);
    assert_eq!(report.outcome, Outcome::Ready);
    assert_eq!(report.outcome.exit_code(), None);
    assert_eq!(report.asked, 0);
    assert_eq!(report.probed, 1);
    assert_eq!(report.read, 1);
    assert!(disk.applied.is_empty());
    assert_eq!(disk.read(&["librarygrid", "web", "old.html"]), Some(b"old".to_vec()));
}

#[test]
fn second_run_after_an_installation_changes_nothing() {
    let mut disk = MemDisk::with_home();
    assert_eq!(deploy(bundle(b"2.0"), &mut disk, true).outcome, Outcome::Ready);
    let dirs = disk.dirs.clone();
    let files = disk.files.clone();
    disk.applied.clear();
    let again = deploy(bundle(b"2.0"), &mut disk, false);
    assert_eq!(again.outcome, Outcome::Ready);
    assert_eq!(again.asked, 0);
    assert!(disk.applied.is_empty());
    assert_eq!(disk.dirs, dirs);
    assert_eq!(disk.files, files);
}

#[test]
fn second_run_after_an_update_changes_nothing() {
    let mut disk = MemDisk::installed(b"1.3");
    assert_eq!(deploy(bundle(b"2.0"), &mut disk, true).outcome, Outcome::Ready);
    let files = disk.files.clone();
    disk.applied.clear();
    assert_eq!(deploy(bundle(b"2.0"), &mut disk, true).outcome, Outcome::Ready);
    assert!(disk.applied.is_empty());
    assert_eq!(disk.files, files);
}

#[test]
fn installation_without_a_marker_is_served_as_it_is() {
    let mut disk = MemDisk::with_home();
    disk.dirs.insert(key(&at(&["librarygrid"])));
    let report = deploy(bundle(b"2.0"), &mut disk, true);
    assert_eq!(report.outcome, Outcome::Ready);
    assert_eq!(report.asked, 0);
    assert!(disk.applied.is_empty());
}

#[test]
fn failing_to_create_the_installation_directory_fails_the_installation() {
    let mut disk = MemDisk::with_home();
    disk.refuse = Some(0);
    let report = deploy(bundle(b"2.0"), &mut disk, true);
    assert_eq!(report.outcome, Outcome::Failed(DeployError::Install(InstallError::DirectoryCreation)));
    assert_eq!(report.outcome.exit_code(), Some(1));
    assert_eq!(disk.applied.len(), 1);
    assert_eq!(report.read, 0);
}

#[test]
fn failing_to_create_the_assets_directory_fails_the_installation() {
    let mut disk = MemDisk::with_home();
    disk.refuse = Some(1);
    let report = deploy(bundle(b"2.0"), &mut disk, true);
    assert_eq!(report.outcome, Outcome::Failed(DeployError::Install(InstallError::DirectoryCreation)));
    assert_eq!(disk.applied.len(), 2);
}

#[test]
fn failing_to_write_a_file_fails_the_installation() {
    let mut disk = MemDisk::with_home();
    disk.refuse = Some(4);
    let report = deploy(bundle(b"2.0"), &mut disk, true);
    assert_eq!(
        report.outcome,
        Outcome::Failed(DeployError::Install(InstallError::Extraction(ExtractionError::WriteFailed)))
    );
    assert_eq!(report.outcome.exit_code(), Some(1));
    assert_eq!(disk.applied.len(), 5);
    assert_eq!(report.read, 0);
}

#[test]
fn corrupt_bundle_fails_the_installation_before_anything_is_created() {
    let mut disk = MemDisk::with_home();
    let report = deploy(corrupt_bundle(), &mut disk, true);
    assert_eq!(
        report.outcome,
        Outcome::Failed(DeployError::Install(InstallError::Extraction(ExtractionError::Decompression)))
    );
    assert!(disk.applied.is_empty());
    assert!(!disk.dirs.contains(&key(&at(&["librarygrid"]))));
}

#[test]
fn failing_to_remove_the_old_assets_fails_the_update() {
    let mut disk = MemDisk::installed(b"1.3");
    disk.refuse = Some(0);
    let report = deploy(bundle(b"2.0"), &mut disk, true);
    assert_eq!(report.outcome, Outcome::Failed(DeployError::Update(UpdateError::DirectoryRemoval)));
    assert_eq!(report.outcome.exit_code(), Some(1));
    assert_eq!(disk.read(&["librarygrid", "web", "version.txt"]), Some(b"1.3".to_vec()));
}

#[test]
fn failing_to_write_a_file_fails_the_update() {
    let mut disk = MemDisk::installed(b"1.3");
    disk.refuse = Some(3);
    let report = deploy(bundle(b"2.0"), &mut disk, true);
    assert_eq!(
        report.outcome,
        Outcome::Failed(DeployError::Update(UpdateError::Extraction(ExtractionError::WriteFailed)))
    );
    assert_eq!(disk.read(&["librarygrid", "web", "version.txt"]), None);
}

#[test]
fn update_that_failed_half_way_is_not_retried_without_a_marker() {
    let mut disk = MemDisk::installed(b"1.3");
    disk.refuse = Some(3);
    assert!(matches!(deploy(bundle(b"2.0"), &mut disk, true).outcome, Outcome::Failed(_)));
    disk.refuse = None;
    disk.applied.clear();
    let report = deploy(bundle(b"2.0"), &mut disk, true);
    assert_eq!(report.outcome, Outcome::Ready);
    assert!(disk.applied.is_empty());
}

#[test]
fn corrupt_bundle_fails_the_update_before_anything_is_removed() {
    let mut disk = MemDisk::installed(b"1.3");
    let report = deploy(corrupt_bundle(), &mut disk, true);
    assert_eq!(
        report.outcome,
        Outcome::Failed(DeployError::Update(UpdateError::Extraction(ExtractionError::Decompression)))
    );
    assert!(disk.applied.is_empty());
    assert_eq!(disk.read(&["librarygrid", "web", "old.html"]), Some(b"old".to_vec()));
}

#[test]
fn escaping_entry_fails_the_installation_and_writes_nothing() {
    let mut disk = MemDisk::with_home();
    let b = Bundle {
        archive: pack(&[("index.html", b"<html>"), ("../../.profile", b"evil")]),
        version: b"2.0".to_vec(),
    };
    let report = deploy(b, &mut disk, true);
    assert_eq!(
        report.outcome,
        Outcome::Failed(DeployError::Install(InstallError::Extraction(ExtractionError::UnsafeEntry)))
    );
    assert!(disk.applied.is_empty());
    assert!(disk.files.is_empty());
}

#[test]
fn events_that_answer_nothing_are_ignored() {
    let mut driver = Driver::new(bundle(b"2.0"), layout());
    driver.advance(Event::Applied { succeeded: false });
    driver.advance(Event::Confirmed { accepted: true });
    driver.advance(Event::MarkerRead { content: None });
    assert_eq!(driver.pending(), Action::ProbeRoot { root: &at(&["librarygrid"]) });
    driver.advance(Event::RootProbed { exists: false });
    driver.advance(Event::RootProbed { exists: true });
    driver.advance(Event::Applied { succeeded: true });
    assert_eq!(driver.pending(), Action::Confirm { root: &at(&["librarygrid"]) });
    driver.advance(Event::Confirmed { accepted: false });
    assert_eq!(driver.pending(), Action::Finish { outcome: Outcome::Declined });
    driver.advance(Event::RootProbed { exists: true });
    driver.advance(Event::Confirmed { accepted: true });
    assert_eq!(driver.pending(), Action::Finish { outcome: Outcome::Declined });
    assert_eq!(driver.outcome(), Some(Outcome::Declined));
}

#[test]
fn driver_asks_for_each_operation_in_order() {
    let b = Bundle { archive: pack(&[("version.txt", b"2.0")]), version: b"2.0".to_vec() };
    let mut driver = Driver::new(b, layout());
    driver.advance(Event::RootProbed { exists: true });
    assert_eq!(
        driver.pending(),
        Action::ReadMarker { file: &at(&["librarygrid", "web", "version.txt"]) }
    );
    driver.advance(Event::MarkerRead { content: Some(b"1.3".to_vec()) });
    let web = at(&["librarygrid", "web"]);
    assert_eq!(driver.pending(), Action::Apply { op: &FsOp::RemoveDirAll { dir: web.clone() } });
    driver.advance(Event::Applied { succeeded: true });
    assert_eq!(driver.pending(), Action::Apply { op: &FsOp::CreateDirAll { dir: web.clone() } });
    driver.advance(Event::Applied { succeeded: true });
    assert_eq!(driver.pending(), Action::Apply { op: &FsOp::CreateDirAll { dir: web.clone() } });
    driver.advance(Event::Applied { succeeded: true });
    assert_eq!(
        driver.pending(),
        Action::Apply {
            op: &FsOp::WriteFile { file: web.child(b"version.txt"), content: b"2.0".to_vec() }
        }
    );
    driver.advance(Event::Applied { succeeded: true });
    assert_eq!(
        driver.pending(),
        Action::Apply {
            op: &FsOp::SetModified { file: web.child(b"version.txt"), seconds: 1_700_000_000 }
        }
    );
    driver.advance(Event::Applied { succeeded: true });
    assert_eq!(
        driver.pending(),
        Action::Apply { op: &FsOp::SetPermissions { target: web.child(b"version.txt"), mode: 0o644 } }
    );
    driver.advance(Event::Applied { succeeded: true });
    assert_eq!(driver.pending(), Action::Finish { outcome: Outcome::Ready });
}

fn target(op: &FsOp) -> &Location {
    match op {
        FsOp::CreateDir { dir } => dir,
        FsOp::CreateDirAll { dir } => dir,
        FsOp::RemoveDirAll { dir } => dir,
        FsOp::WriteFile { file, .. } => file,
        FsOp::SetModified { file, .. } => file,
        FsOp::SetPermissions { target, .. } => target,
    }
}

#[test]
fn plans_keep_to_the_installation_directory() {
    let b = Bundle {
        archive: pack(&[("./a/./b//c.txt", b"c"), ("index.html", b"i"), ("version.txt", b"2.0")]),
        version: b"2.0".to_vec(),
    };
    let root = key(&at(&["librarygrid"]));
    let installing = match install(&b, &layout(), true) {
        Ok(Installation::Proceed { ops }) => ops,
        other => panic!("no installation was planned: {:?}", other),
    };
    let updating = reconcile(&b, &layout()).unwrap();
    assert_eq!(installing.len(), 15);
    assert_eq!(updating.len(), 14);
    for op in installing.iter().chain(updating.iter()) {
        assert!(under(&key(target(op)), &root));
        for part in &target(op).parts {
            assert!(!part.is_empty() && &part[..] != b"." && &part[..] != b".." && !part.contains(&b'/'));
        }
    }
    assert!(installing.iter().all(|op| !matches!(op, FsOp::RemoveDirAll { .. })));
    assert_eq!(updating.iter().filter(|op| matches!(op, FsOp::RemoveDirAll { .. })).count(), 1);
}

#[test]
fn update_leaves_nothing_of_the_old_assets() {
    let mut disk = MemDisk::installed(b"1.3");
    disk.dirs.insert(key(&at(&["librarygrid", "web", "old"])));
    disk.files.insert(key(&at(&["librarygrid", "web", "old", "deep.js"])), b"old".to_vec());
    assert_eq!(deploy(bundle(b"2.0"), &mut disk, true).outcome, Outcome::Ready);
    let web = key(&at(&["librarygrid", "web"]));
    let found: Vec<Key> = disk.files.keys().filter(|f| under(f, &web)).cloned().collect();
    assert_eq!(
        found,
        vec![
            key(&at(&["librarygrid", "web", "css", "main.css"])),
            key(&at(&["librarygrid", "web", "index.html"])),
            key(&at(&["librarygrid", "web", "version.txt"])),
        ]
    );
    assert!(!disk.dirs.contains(&key(&at(&["librarygrid", "web", "old"]))));
}
