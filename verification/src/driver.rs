//! The deployment driver: the sequence of decisions that a start of the
//! program goes through before it serves the installed assets.
//!
//! The driver does no work on the disk and asks no question itself. It names
//! the next thing to do as an [`Action`]; its caller does it and reports what
//! came of it as an [`Event`]. A start goes through these stages:
//!
//! 1. Is the installation directory there? If not, the installation is
//!    uninitialized: the user is asked, and either declines or has the
//!    assets installed.
//! 2. The version marker is read. Where it holds another version than the
//!    one embedded, the assets are replaced.
//! 3. The driver finishes, with an installation that is ready to be served,
//!    with the user's refusal, or with the error that stopped it.

use vstd::prelude::*;
use crate::disk::{ops_view, FsOp, FsOpView};
use crate::installer::{
    install,
    install_failure,
    install_failure_of,
    installation,
    InstallError,
    Installation,
    InstallationView,
};
use crate::layout::{marker_of, Bundle, BundleView, Layout};
use crate::paths::{Location, LocationView};
use crate::updater::{reconcile, reconciliation, update_failure, update_failure_of, UpdateError};
use crate::version::{compare, status_of, VersionStatus};

verus! {

/// Why a deployment failed.
#[derive(Clone, Copy, Debug, PartialEq, Eq, Structural)]
pub enum DeployError {
    Install(InstallError),
    Update(UpdateError),
}

/// How a deployment ended.
#[derive(Clone, Copy, Debug, PartialEq, Eq, Structural)]
pub enum Outcome {
    /// The installed assets are those of the bundle, or there was nothing to
    /// compare: the installation directory can be served.
    Ready,
    /// The user declined the first installation.
    Declined,
    /// The deployment failed.
    Failed(DeployError),
}

/// The exit status that an outcome asks for: none where the program goes on
/// to serve, 0 where the user declined, 1 after a failure.
pub open spec fn exit_code_of(outcome: Outcome) -> Option<i32> {
    match outcome {
        Outcome::Ready => None,
        Outcome::Declined => Some(0i32),
        Outcome::Failed(_) => Some(1i32),
    }
}

impl Outcome {
    /// The exit status that this outcome asks for, if the program is to exit.
    pub fn exit_code(&self) -> (r: Option<i32>)
        ensures
            r == exit_code_of(*self),
    {
        match self {
            Outcome::Ready => None,
            Outcome::Declined => Some(0),
            Outcome::Failed(_) => Some(1),
        }
    }
}

/// Which plan the driver is carrying out.
#[derive(Clone, Copy, Debug, PartialEq, Eq, Structural)]
pub enum Phase {
    Install,
    Update,
}

/// The error that a failed operation stands for in a phase.
pub open spec fn failure_of(phase: Phase, op: FsOpView) -> DeployError {
    match phase {
        Phase::Install => DeployError::Install(install_failure_of(op)),
        Phase::Update => DeployError::Update(update_failure_of(op)),
    }
}

/// What the caller reports back to the driver.
#[derive(Debug, PartialEq, Eq)]
pub enum Event {
    /// Whether the installation directory exists.
    RootProbed { exists: bool },
    /// Whether the user agreed to install.
    Confirmed { accepted: bool },
    /// Whether the operation succeeded.
    Applied { succeeded: bool },
    /// What the version marker holds, or `None` where there is no marker.
    MarkerRead { content: Option<Vec<u8>> },
}

/// What an [`Event`] stands for.
pub enum EventView {
    RootProbed { exists: bool },
    Confirmed { accepted: bool },
    Applied { succeeded: bool },
    MarkerRead { content: Option<Seq<u8>> },
}

impl View for Event {
    type V = EventView;

    open spec fn view(&self) -> EventView {
        match self {
            Event::RootProbed { exists } => EventView::RootProbed { exists: *exists },
            Event::Confirmed { accepted } => EventView::Confirmed { accepted: *accepted },
            Event::Applied { succeeded } => EventView::Applied { succeeded: *succeeded },
            Event::MarkerRead { content } => EventView::MarkerRead {
                content: match content {
                    Some(bytes) => Some(bytes@),
                    None => None,
                },
            },
        }
    }
}

/// What the driver asks its caller to do next.
#[derive(Debug, PartialEq, Eq)]
pub enum Action<'a> {
    /// Find out whether the installation directory exists.
    ProbeRoot { root: &'a Location },
    /// Ask the user whether to install into `root`.
    Confirm { root: &'a Location },
    /// Carry out one operation on the disk.
    Apply { op: &'a FsOp },
    /// Read the version marker.
    ReadMarker { file: &'a Location },
    /// Stop: the deployment has ended.
    Finish { outcome: Outcome },
}

/// What an [`Action`] stands for.
pub enum ActionView {
    ProbeRoot { root: LocationView },
    Confirm { root: LocationView },
    Apply { op: FsOpView },
    ReadMarker { file: LocationView },
    Finish { outcome: Outcome },
}

impl<'a> View for Action<'a> {
    type V = ActionView;

    open spec fn view(&self) -> ActionView {
        match self {
            Action::ProbeRoot { root } => ActionView::ProbeRoot { root: root@ },
            Action::Confirm { root } => ActionView::Confirm { root: root@ },
            Action::Apply { op } => ActionView::Apply { op: op@ },
            Action::ReadMarker { file } => ActionView::ReadMarker { file: file@ },
            Action::Finish { outcome } => ActionView::Finish { outcome: *outcome },
        }
    }
}

/// Where a deployment stands.
pub enum StageView {
    /// It is not yet known whether there is an installation.
    Probe,
    /// There is none, and the user has not answered yet.
    Confirm,
    /// A plan is being carried out; `remaining` starts with the operation
    /// that is asked for now.
    Apply { phase: Phase, remaining: Seq<FsOpView> },
    /// There is an installation, and its version is not yet known.
    ReadMarker,
    /// The deployment has ended.
    Done { outcome: Outcome },
}

/// What a [`Driver`] stands for.
pub struct DriverView {
    pub bundle: BundleView,
    pub root: LocationView,
    pub stage: StageView,
}

impl DriverView {
    /// A deployment of `bundle` at `root` that has not started.
    pub open spec fn start(bundle: BundleView, root: LocationView) -> DriverView {
        DriverView { bundle, root, stage: StageView::Probe }
    }

    /// A plan that is being carried out has an operation to ask for.
    pub open spec fn wf(self) -> bool {
        self.stage matches StageView::Apply { remaining, .. } ==> remaining.len() > 0
    }

    /// The same deployment at another stage.
    pub open spec fn at(self, stage: StageView) -> DriverView {
        DriverView { bundle: self.bundle, root: self.root, stage }
    }

    /// The deployment once a plan has been carried out in full: an
    /// installation goes on to the version check, an update ends the
    /// deployment.
    pub open spec fn completed(self, phase: Phase) -> DriverView {
        match phase {
            Phase::Install => self.at(StageView::ReadMarker),
            Phase::Update => self.at(StageView::Done { outcome: Outcome::Ready }),
        }
    }

    /// The deployment once the plan `ops` has been drawn up.
    pub open spec fn begun(self, phase: Phase, ops: Seq<FsOpView>) -> DriverView {
        if ops.len() == 0 {
            self.completed(phase)
        } else {
            self.at(StageView::Apply { phase, remaining: ops })
        }
    }

    /// What the deployment asks for at this stage.
    pub open spec fn pending(self) -> ActionView {
        match self.stage {
            StageView::Probe => ActionView::ProbeRoot { root: self.root },
            StageView::Confirm => ActionView::Confirm { root: self.root },
            StageView::Apply { phase, remaining } => ActionView::Apply { op: remaining[0] },
            StageView::ReadMarker => ActionView::ReadMarker { file: marker_of(self.root) },
            StageView::Done { outcome } => ActionView::Finish { outcome },
        }
    }

    /// The deployment after `event`. An event that does not answer what was
    /// asked changes nothing.
    pub open spec fn advance(self, event: EventView) -> DriverView {
        match (self.stage, event) {
            (StageView::Probe, EventView::RootProbed { exists }) => if exists {
                self.at(StageView::ReadMarker)
            } else {
                self.at(StageView::Confirm)
            },
            (StageView::Confirm, EventView::Confirmed { accepted }) => match installation(
                self.bundle,
                self.root,
                accepted,
            ) {
                Ok(InstallationView::Declined) => self.at(
                    StageView::Done { outcome: Outcome::Declined },
                ),
                Ok(InstallationView::Proceed { ops }) => self.begun(Phase::Install, ops),
                Err(e) => self.at(
                    StageView::Done { outcome: Outcome::Failed(DeployError::Install(e)) },
                ),
            },
            (StageView::Apply { phase, remaining }, EventView::Applied { succeeded }) => if !succeeded {
                self.at(StageView::Done { outcome: Outcome::Failed(failure_of(phase, remaining[0])) })
            } else if remaining.len() > 1 {
                self.at(StageView::Apply { phase, remaining: remaining.skip(1) })
            } else {
                self.completed(phase)
            },
            (StageView::ReadMarker, EventView::MarkerRead { content }) => match status_of(
                self.bundle.version,
                content,
            ) {
                VersionStatus::Mismatch => match reconciliation(self.bundle, self.root) {
                    Ok(ops) => self.begun(Phase::Update, ops),
                    Err(e) => self.at(
                        StageView::Done { outcome: Outcome::Failed(DeployError::Update(e)) },
                    ),
                },
                _ => self.at(StageView::Done { outcome: Outcome::Ready }),
            },
            _ => self,
        }
    }
}

/// The stage of a driver, without the data that goes with it.
#[derive(Clone, Copy, Debug, PartialEq, Eq, Structural)]
enum Step {
    Probe,
    Confirm,
    Apply,
    ReadMarker,
    Done,
}

/// One deployment, from the start of the program to the point where the
/// assets can be served or the program has to exit.
#[derive(Debug)]
pub struct Driver {
    bundle: Bundle,
    layout: Layout,
    marker: Location,
    step: Step,
    phase: Phase,
    ops: Vec<FsOp>,
    next: usize,
    outcome: Outcome,
}

impl View for Driver {
    type V = DriverView;

    closed spec fn view(&self) -> DriverView {
        DriverView {
            bundle: self.bundle@,
            root: self.layout@,
            stage: match self.step {
                Step::Probe => StageView::Probe,
                Step::Confirm => StageView::Confirm,
                Step::Apply => StageView::Apply {
                    phase: self.phase,
                    remaining: ops_view(self.ops@).skip(self.next as int),
                },
                Step::ReadMarker => StageView::ReadMarker,
                Step::Done => StageView::Done { outcome: self.outcome },
            },
        }
    }
}

impl Driver {
    #[verifier::type_invariant]
    spec fn consistent(self) -> bool {
        &&& self.marker@ == marker_of(self.layout@)
        &&& self.step == Step::Apply ==> self.next < self.ops.len()
    }

    /// A driver for the deployment of `bundle` at `layout`.
    pub fn new(bundle: Bundle, layout: Layout) -> (r: Driver)
        ensures
            r@ == DriverView::start(bundle@, layout@),
            r@.wf(),
    {
        let marker = layout.version_marker();
        Driver {
            bundle,
            layout,
            marker,
            step: Step::Probe,
            phase: Phase::Install,
            ops: Vec::new(),
            next: 0,
            outcome: Outcome::Ready,
        }
    }

    /// The bundle that is being deployed.
    pub fn bundle(&self) -> (r: &Bundle)
        ensures
            r@ == self@.bundle,
    {
        &self.bundle
    }

    /// The places where the bundle is being deployed.
    pub fn layout(&self) -> (r: &Layout)
        ensures
            r@ == self@.root,
    {
        &self.layout
    }

    /// How the deployment ended, once it has.
    pub fn outcome(&self) -> (r: Option<Outcome>)
        ensures
            match self@.stage {
                StageView::Done { outcome } => r == Some(outcome),
                _ => r is None,
            },
    {
        match self.step {
            Step::Done => Some(self.outcome),
            _ => None,
        }
    }

    /// What the caller is to do next.
    pub fn pending(&self) -> (r: Action<'_>)
        ensures
            r@ == self@.pending(),
            self@.wf(),
    {
        proof {
            use_type_invariant(self);
        }
        match self.step {
            Step::Probe => Action::ProbeRoot { root: &self.layout.root },
            Step::Confirm => Action::Confirm { root: &self.layout.root },
            Step::Apply => Action::Apply { op: &self.ops[self.next] },
            Step::ReadMarker => Action::ReadMarker { file: &self.marker },
            Step::Done => Action::Finish { outcome: self.outcome },
        }
    }

    /// Ends the deployment.
    fn finish(&mut self, outcome: Outcome)
        ensures
            final(self)@ == old(self)@.at(StageView::Done { outcome }),
    {
        proof {
            use_type_invariant(&*self);
        }
        self.outcome = outcome;
        self.step = Step::Done;
    }

    /// Starts to carry out a plan.
    fn begin(&mut self, phase: Phase, ops: Vec<FsOp>)
        requires
            old(self).step != Step::Apply,
            ops.len() > 0,
        ensures
            final(self)@ == old(self)@.begun(phase, ops_view(ops@)),
    {
        proof {
            use_type_invariant(&*self);
            assert(ops_view(ops@).skip(0) =~= ops_view(ops@));
        }
        self.phase = phase;
        self.ops = ops;
        self.next = 0;
        self.step = Step::Apply;
    }

    /// Takes in what came of the pending action and moves to the next stage.
    /// An event that does not answer the pending action is ignored.
    pub fn advance(&mut self, event: Event)
        ensures
            final(self)@ == old(self)@.advance(event@),
            final(self)@.wf(),
    {
        proof {
            use_type_invariant(&*self);
        }
        match self.step {
            Step::Probe => {
                if let Event::RootProbed { exists } = event {
                    if exists {
                        self.step = Step::ReadMarker;
                    } else {
                        self.step = Step::Confirm;
                    }
                }
            },
            Step::Confirm => {
                if let Event::Confirmed { accepted } = event {
                    match install(&self.bundle, &self.layout, accepted) {
                        Ok(Installation::Declined) => self.finish(Outcome::Declined),
                        Ok(Installation::Proceed { ops }) => self.begin(Phase::Install, ops),
                        Err(e) => self.finish(Outcome::Failed(DeployError::Install(e))),
                    }
                }
            },
            Step::Apply => {
                if let Event::Applied { succeeded } = event {
                    let ghost remaining = ops_view(self.ops@).skip(self.next as int);
                    assert(remaining[0] == self.ops@[self.next as int]@);
                    if !succeeded {
                        let error = match self.phase {
                            Phase::Install => DeployError::Install(
                                install_failure(&self.ops[self.next]),
                            ),
                            Phase::Update => DeployError::Update(update_failure(&self.ops[self.next])),
                        };
                        self.finish(Outcome::Failed(error));
                    } else if self.next + 1 < self.ops.len() {
                        self.next = self.next + 1;
                        assert(ops_view(self.ops@).skip(self.next as int) =~= remaining.skip(1));
                    } else {
                        match self.phase {
                            Phase::Install => {
                                self.step = Step::ReadMarker;
                            },
                            Phase::Update => self.finish(Outcome::Ready),
                        }
                    }
                }
            },
            Step::ReadMarker => {
                if let Event::MarkerRead { content } = event {
                    let status = match &content {
                        Some(bytes) => compare(self.bundle.version.as_slice(), Some(bytes.as_slice())),
                        None => compare(self.bundle.version.as_slice(), None),
                    };
                    match status {
                        VersionStatus::Mismatch => match reconcile(&self.bundle, &self.layout) {
                            Ok(ops) => self.begin(Phase::Update, ops),
                            Err(e) => self.finish(Outcome::Failed(DeployError::Update(e))),
                        },
                        _ => self.finish(Outcome::Ready),
                    }
                }
            },
            Step::Done => {},
        }
    }
}

} // verus!
