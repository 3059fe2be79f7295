use vstd::prelude::*;

use crate::bytes::{append, views};
use crate::control::{fields_view, DecodeError, Field};
use crate::decoder::DiversionRecord;
use crate::matcher::{identifiers_of, package_name, PackageScan};
use crate::search::{contains, contains_bytes};

verus! {

/// How a process ended.
#[derive(Debug, Clone, Copy, PartialEq, Eq, Structural)]
pub enum ExitOutcome {
    Success,
    /// The exit code; a process ended by a signal reports 128 plus its number.
    Failure(i32),
}

/// Why a step of a repair failed.
#[derive(Debug, Clone, Copy, PartialEq, Eq, Structural)]
pub enum Failure {
    /// The process could not be created, or its end could not be observed.
    Spawn,
    /// The process ran and ended in failure.
    Process(i32),
    /// A record of a database could not be read.
    Decode(DecodeError),
    /// A database could not be opened or read.
    Io,
}

/// The steps of a repair, in the order in which they run.
#[derive(Debug, Clone, Copy, PartialEq, Eq, Structural)]
pub enum Stage {
    RemoveDiversions,
    DiscoverAndPurge,
    FixBroken,
    ConfigurePending,
    Reinstall,
}

/// Where a repair stands.
#[derive(Debug, Clone, Copy, PartialEq, Eq, Structural)]
pub enum RunState {
    Running(Stage),
    Completed,
    Aborted(Stage, Failure),
}

/// A command of the package system, run without a terminal to ask questions on.
#[derive(Debug, Clone, PartialEq, Eq)]
pub enum Command {
    /// Removes the diversion of the file diverted to `path`.
    RemoveDiversion { path: Vec<u8> },
    /// Purges the packages.
    Purge { packages: Vec<Vec<u8>> },
    /// Repairs broken dependencies.
    FixBroken,
    /// Configures the packages that are unpacked but not configured.
    ConfigurePending,
    /// Installs the packages.
    Install { packages: Vec<Vec<u8>> },
}

/// What the driver of a repair does next.
#[derive(Debug, Clone, PartialEq, Eq)]
pub enum Action {
    /// Read the diversion database, handing in each entry, then its end.
    ReadDiversions,
    /// Read the package-status database, handing in each stanza, then its end.
    ReadStatus,
    /// Hand in the next record, or the end of the records.
    Continue,
    /// Run the command and hand in how it ended.
    Run(Command),
    /// The repair is over: see its state.
    Stop,
}

/// What the driver hands in.
#[derive(Debug, Clone, PartialEq, Eq)]
pub enum Event {
    Start,
    Diversion(DiversionRecord),
    Stanza(Vec<Field>),
    EndOfRecords,
    Exited(ExitOutcome),
    Failed(Failure),
}

/// What a repair is about.
#[derive(Debug, Clone, PartialEq, Eq)]
pub struct RepairConfig {
    /// The packages concerned are those whose name holds this.
    pub filter: Vec<u8>,
    /// Packages that are installed again after the purge, where they were found.
    pub whitelist: Vec<Vec<u8>>,
    /// A package that is installed at the end in every case.
    pub fallback: Vec<u8>,
}

/// The events that step `s` acts on; others leave a repair as it is.
pub open spec fn handled(s: Stage, event: Event) -> bool {
    match event {
        Event::Failed(_) => true,
        Event::Exited(_) => true,
        Event::Start => s == Stage::RemoveDiversions,
        Event::Diversion(_) => s == Stage::RemoveDiversions,
        Event::Stanza(_) => s == Stage::DiscoverAndPurge,
        Event::EndOfRecords => s == Stage::RemoveDiversions || s == Stage::DiscoverAndPurge,
    }
}

/// The step after `s`, if any.
pub open spec fn next_stage(s: Stage) -> Option<Stage> {
    match s {
        Stage::RemoveDiversions => Some(Stage::DiscoverAndPurge),
        Stage::DiscoverAndPurge => Some(Stage::FixBroken),
        Stage::FixBroken => Some(Stage::ConfigurePending),
        Stage::ConfigurePending => Some(Stage::Reinstall),
        Stage::Reinstall => None,
    }
}

/// How a run stands after a step ended: on success the next step runs, or the
/// run is complete after the last one; a failure aborts the run at the step.
/// A run that is over stays as it is.
pub open spec fn advance_spec(state: RunState, outcome: Result<(), Failure>) -> RunState {
    match state {
        RunState::Running(s) => match outcome {
            Err(f) => RunState::Aborted(s, f),
            Ok(()) => match next_stage(s) {
                Some(n) => RunState::Running(n),
                None => RunState::Completed,
            },
        },
        _ => state,
    }
}

/// A run after a series of step outcomes.
pub open spec fn run_spec(state: RunState, outcomes: Seq<Result<(), Failure>>) -> RunState
    decreases outcomes.len(),
{
    if outcomes.len() == 0 {
        state
    } else {
        advance_spec(run_spec(state, outcomes.drop_last()), outcomes.last())
    }
}

/// Once a run is aborted, no outcome that follows takes it further: it stays
/// aborted at the same step, with the same cause.
pub proof fn lemma_abort_is_final(s: Stage, f: Failure, outcomes: Seq<Result<(), Failure>>)
    ensures
        run_spec(RunState::Aborted(s, f), outcomes) == RunState::Aborted(s, f),
    decreases outcomes.len(),
{
    if outcomes.len() > 0 {
        lemma_abort_is_final(s, f, outcomes.drop_last());
    }
}

/// A failed purge aborts the run at the purge step, and whatever follows,
/// the run never reaches the steps after it.
pub proof fn lemma_purge_failure_aborts(f: Failure, outcomes: Seq<Result<(), Failure>>)
    ensures
        advance_spec(RunState::Running(Stage::DiscoverAndPurge), Err(f)) == RunState::Aborted(
            Stage::DiscoverAndPurge,
            f,
        ),
        run_spec(
            RunState::Running(Stage::DiscoverAndPurge),
            seq![Err(f)] + outcomes,
        ) == RunState::Aborted(Stage::DiscoverAndPurge, f),
    decreases outcomes.len(),
{
    let start = RunState::Running(Stage::DiscoverAndPurge);
    let all = seq![Err(f)] + outcomes;
    assert(all.len() > 0);
    assert(run_spec(start, all) == advance_spec(run_spec(start, all.drop_last()), all.last()));
    if outcomes.len() == 0 {
        assert(all.drop_last() =~= Seq::<Result<(), Failure>>::empty());
        assert(all.last() == Err::<(), Failure>(f));
    } else {
        lemma_purge_failure_aborts(f, outcomes.drop_last());
        assert(all.drop_last() =~= seq![Err(f)] + outcomes.drop_last());
    }
}

/// The step after `s`, if any.
pub fn next_step(s: Stage) -> (r: Option<Stage>)
    ensures
        r == next_stage(s),
{
    match s {
        Stage::RemoveDiversions => Some(Stage::DiscoverAndPurge),
        Stage::DiscoverAndPurge => Some(Stage::FixBroken),
        Stage::FixBroken => Some(Stage::ConfigurePending),
        Stage::ConfigurePending => Some(Stage::Reinstall),
        Stage::Reinstall => None,
    }
}

/// How a run stands after a step ended.
pub fn advance(state: RunState, outcome: Result<(), Failure>) -> (r: RunState)
    ensures
        r == advance_spec(state, outcome),
{
    match state {
        RunState::Running(s) => match outcome {
            Err(f) => RunState::Aborted(s, f),
            Ok(()) => match next_step(s) {
                Some(n) => RunState::Running(n),
                None => RunState::Completed,
            },
        },
        _ => state,
    }
}

fn copy_list(list: &Vec<Vec<u8>>) -> (r: Vec<Vec<u8>>)
    ensures
        views(r@) == views(list@),
{
    let mut r: Vec<Vec<u8>> = Vec::new();
    let mut i: usize = 0;
    while i < list.len()
        invariant
            i <= list@.len(),
            views(r@) == views(list@).take(i as int),
        decreases list@.len() - i,
    {
        let mut item: Vec<u8> = Vec::new();
        append(&mut item, list[i].as_slice());
        let ghost before = r@;
        r.push(item);
        assert(views(r@) =~= views(before).push(list@[i as int]@));
        assert(views(r@) =~= views(list@).take(i + 1));
        i = i + 1;
    }
    assert(views(list@).take(i as int) =~= views(list@));
    r
}

/// The command that removes a diversion made by a package concerned, if the
/// entry is one.
pub fn diversion_removal(record: &DiversionRecord, filter: &[u8]) -> (r: Option<Command>)
    ensures
        contains(record.by@, filter@) ==> (r matches Some(Command::RemoveDiversion { path })
            && path@ == record.to@),
        !contains(record.by@, filter@) ==> r is None,
{
    if contains_bytes(record.by.as_slice(), filter) {
        let mut path: Vec<u8> = Vec::new();
        append(&mut path, record.to.as_slice());
        Some(Command::RemoveDiversion { path })
    } else {
        None
    }
}

/// The command that installs the packages kept, and the fallback after them.
pub fn reinstall_command(reinstall: &Vec<Vec<u8>>, fallback: &[u8]) -> (r: Command)
    ensures
        r matches Command::Install { packages } && views(packages@) == views(reinstall@).push(
            fallback@,
        ),
{
    let mut packages = copy_list(reinstall);
    let mut last: Vec<u8> = Vec::new();
    append(&mut last, fallback);
    let ghost before = packages@;
    packages.push(last);
    assert(views(packages@) =~= views(before).push(fallback@));
    Command::Install { packages }
}

/// A repair: its settings, where it stands, and what its scan of the
/// package-status database found so far.
pub struct Repair {
    pub config: RepairConfig,
    pub state: RunState,
    pub scan: PackageScan,
}

impl Repair {
    pub open spec fn wf(&self) -> bool {
        self.scan.wf()
    }

    /// A repair that has not yet begun its first step.
    pub fn new(config: RepairConfig) -> (r: Repair)
        ensures
            r.wf(),
            r.config == config,
            r.state == RunState::Running(Stage::RemoveDiversions),
            r.scan.matched_view() == Seq::<Seq<u8>>::empty(),
            r.scan.reinstall_view() == Seq::<Seq<u8>>::empty(),
    {
        Repair { config, state: RunState::Running(Stage::RemoveDiversions), scan: PackageScan::new() }
    }

    /// Takes in what the driver observed and says what it does next.
    pub fn step(&mut self, event: Event) -> (r: Action)
        requires
            old(self).wf(),
        ensures
            final(self).wf(),
            final(self).config == old(self).config,
            // A run that is over stays over.
            !(old(self).state is Running) ==> final(self).state == old(self).state && r == Action::Stop
                && final(self).scan == old(self).scan,
            // A failure aborts the run at the step where it came.
            old(self).state matches RunState::Running(s) ==> (event matches Event::Failed(f)
                ==> final(self).state == RunState::Aborted(s, f) && r == Action::Stop),
            old(self).state matches RunState::Running(s) ==> (event matches Event::Exited(
                ExitOutcome::Failure(c),
            ) ==> final(self).state == RunState::Aborted(s, Failure::Process(c)) && r == Action::Stop),
            // The diversions go first.
            old(self).state == RunState::Running(Stage::RemoveDiversions) ==> (event == Event::Start
                ==> final(self).state == old(self).state && r == Action::ReadDiversions),
            old(self).state == RunState::Running(Stage::RemoveDiversions) ==> (event matches Event::Diversion(d)
                ==> final(self).state == old(self).state && (if contains(d.by@, old(self).config.filter@) {
                r matches Action::Run(Command::RemoveDiversion { path }) && path@ == d.to@
            } else {
                r == Action::Continue
            })),
            old(self).state == RunState::Running(Stage::RemoveDiversions) ==> (event == Event::Exited(
                ExitOutcome::Success,
            ) ==> final(self).state == old(self).state && r == Action::Continue),
            old(self).state == RunState::Running(Stage::RemoveDiversions) ==> (event == Event::EndOfRecords
                ==> final(self).state == RunState::Running(Stage::DiscoverAndPurge) && r == Action::ReadStatus),
            // Then the scan of the installed packages, and their purge.
            old(self).state == RunState::Running(Stage::DiscoverAndPurge) ==> (event matches Event::Stanza(fs)
                ==> final(self).state == old(self).state && r == Action::Continue
                && final(self).scan.matched_view() == old(self).scan.matched_view() + identifiers_of(
                fields_view(fs@),
                old(self).config.filter@,
            ) && final(self).scan.reinstall_view() == if identifiers_of(
                fields_view(fs@),
                old(self).config.filter@,
            ).len() > 0 && views(old(self).config.whitelist@).contains(package_name(fields_view(fs@)))
                && !old(self).scan.reinstall_view().contains(package_name(fields_view(fs@))) {
                old(self).scan.reinstall_view().push(package_name(fields_view(fs@)))
            } else {
                old(self).scan.reinstall_view()
            }),
            old(self).state == RunState::Running(Stage::DiscoverAndPurge) ==> (event == Event::EndOfRecords
                ==> final(self).state == old(self).state && (r matches Action::Run(
                Command::Purge { packages },
            ) && views(packages@) == old(self).scan.matched_view())),
            // Then the generic repair, in two commands, and the reinstall.
            old(self).state == RunState::Running(Stage::DiscoverAndPurge) ==> (event == Event::Exited(
                ExitOutcome::Success,
            ) ==> final(self).state == RunState::Running(Stage::FixBroken) && r == Action::Run(
                Command::FixBroken,
            )),
            old(self).state == RunState::Running(Stage::FixBroken) ==> (event == Event::Exited(
                ExitOutcome::Success,
            ) ==> final(self).state == RunState::Running(Stage::ConfigurePending) && r == Action::Run(
                Command::ConfigurePending,
            )),
            old(self).state == RunState::Running(Stage::ConfigurePending) ==> (event == Event::Exited(
                ExitOutcome::Success,
            ) ==> final(self).state == RunState::Running(Stage::Reinstall) && (r matches Action::Run(
                Command::Install { packages },
            ) && views(packages@) == old(self).scan.reinstall_view().push(
                old(self).config.fallback@,
            ))),
            old(self).state == RunState::Running(Stage::Reinstall) ==> (event == Event::Exited(
                ExitOutcome::Success,
            ) ==> final(self).state == RunState::Completed && r == Action::Stop),
            // An event that the step does not act on changes nothing.
            old(self).state matches RunState::Running(s) ==> (!handled(s, event) ==> final(self).state
                == old(self).state && final(self).scan == old(self).scan && r == Action::Continue),
            // The scan changes only on a stanza.
            !(event is Stanza) ==> final(self).scan == old(self).scan,
            // The state only moves as `advance` says, or stays.
            final(self).state == old(self).state || exists|o: Result<(), Failure>|
                final(self).state == advance_spec(old(self).state, o),
    {
        let s = match self.state {
            RunState::Running(s) => s,
            _ => {
                return Action::Stop;
            },
        };
        match event {
            Event::Failed(f) => {
                self.state = advance(self.state, Err(f));
                Action::Stop
            },
            Event::Exited(ExitOutcome::Failure(c)) => {
                self.state = advance(self.state, Err(Failure::Process(c)));
                Action::Stop
            },
            Event::Start => {
                match s {
                    Stage::RemoveDiversions => Action::ReadDiversions,
                    _ => Action::Continue,
                }
            },
            Event::Diversion(d) => {
                match s {
                    Stage::RemoveDiversions => match diversion_removal(&d, self.config.filter.as_slice()) {
                        Some(c) => Action::Run(c),
                        None => Action::Continue,
                    },
                    _ => Action::Continue,
                }
            },
            Event::Stanza(fs) => {
                match s {
                    Stage::DiscoverAndPurge => {
                        self.scan.add_stanza(
                            &fs,
                            self.config.filter.as_slice(),
                            &self.config.whitelist,
                        );
                        Action::Continue
                    },
                    _ => Action::Continue,
                }
            },
            Event::EndOfRecords => {
                match s {
                    Stage::RemoveDiversions => {
                        self.state = advance(self.state, Ok(()));
                        Action::ReadStatus
                    },
                    Stage::DiscoverAndPurge => {
                        Action::Run(Command::Purge { packages: copy_list(&self.scan.matched) })
                    },
                    _ => Action::Continue,
                }
            },
            Event::Exited(ExitOutcome::Success) => {
                match s {
                    Stage::RemoveDiversions => Action::Continue,
                    Stage::DiscoverAndPurge => {
                        self.state = advance(self.state, Ok(()));
                        Action::Run(Command::FixBroken)
                    },
                    Stage::FixBroken => {
                        self.state = advance(self.state, Ok(()));
                        Action::Run(Command::ConfigurePending)
                    },
                    Stage::ConfigurePending => {
                        self.state = advance(self.state, Ok(()));
                        Action::Run(
                            reinstall_command(&self.scan.reinstall, self.config.fallback.as_slice()),
                        )
                    },
                    Stage::Reinstall => {
                        self.state = advance(self.state, Ok(()));
                        Action::Stop
                    },
                }
            },
        }
    }
}

} // verus!
