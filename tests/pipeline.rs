use system76_support::control::Field;
use system76_support::decoder::DiversionRecord;
use system76_support::pipeline::{
    advance, diversion_removal, reinstall_command, Action, Command, Event, ExitOutcome,
    Failure, Repair, RepairConfig, RunState, Stage,
};

fn field(key: &str, value: &str) -> Field {
    Field { key: key.as_bytes().to_vec(), value: value.as_bytes().to_vec() }
}

fn names(list: &[&str]) -> Vec<Vec<u8>> {
    list.iter().map(|s| s.as_bytes().to_vec()).collect()
}

fn config() -> RepairConfig {
    RepairConfig {
        filter: b"nvidia".to_vec(),
        whitelist: names(&["nvidia-container-runtime", "system76-driver-nvidia"]),
        fallback: b"nvidia-driver-440".to_vec(),
    }
}

fn record(by: &str, from: &str, to: &str) -> DiversionRecord {
    DiversionRecord { by: by.as_bytes().to_vec(), from: from.as_bytes().to_vec(), to: to.as_bytes().to_vec() }
}

#[test]
fn removes_matching_diversion() {
    let mut repair = Repair::new(config());
    assert_eq!(repair.step(Event::Start), Action::ReadDiversions);
    assert_eq!(
        repair.step(Event::Diversion(record("nvidia-driver-440", "/a", "/b"))),
        Action::Run(Command::RemoveDiversion { path: b"/b".to_vec() })
    );
    assert_eq!(repair.step(Event::Exited(ExitOutcome::Success)), Action::Continue);
    assert_eq!(repair.step(Event::Diversion(record("mesa", "/c", "/d"))), Action::Continue);
    assert_eq!(repair.step(Event::EndOfRecords), Action::ReadStatus);
    assert_eq!(repair.state, RunState::Running(Stage::DiscoverAndPurge));
}

#[test]
fn diversion_removal_only_for_filter() {
    assert_eq!(
        diversion_removal(&record("nvidia-driver-440", "/a", "/b"), b"nvidia"),
        Some(Command::RemoveDiversion { path: b"/b".to_vec() })
    );
    assert_eq!(diversion_removal(&record("mesa", "/a", "/b"), b"nvidia"), None);
}

#[test]
fn failed_diversion_removal_aborts() {
    let mut repair = Repair::new(config());
    repair.step(Event::Start);
    repair.step(Event::Diversion(record("nvidia-driver-440", "/a", "/b")));
    assert_eq!(repair.step(Event::Exited(ExitOutcome::Failure(2))), Action::Stop);
    assert_eq!(repair.state, RunState::Aborted(Stage::RemoveDiversions, Failure::Process(2)));
}

#[test]
fn purge_failure_aborts_before_generic_repair() {
    let mut repair = Repair::new(config());
    repair.step(Event::Start);
    repair.step(Event::EndOfRecords);
    repair.step(Event::Stanza(vec![field("Package", "nvidia-driver-440"), field("Architecture", "amd64")]));
    assert_eq!(
        repair.step(Event::EndOfRecords),
        Action::Run(Command::Purge { packages: names(&["nvidia-driver-440:amd64"]) })
    );
    assert_eq!(repair.step(Event::Exited(ExitOutcome::Failure(100))), Action::Stop);
    assert_eq!(repair.state, RunState::Aborted(Stage::DiscoverAndPurge, Failure::Process(100)));
    assert_eq!(repair.step(Event::Exited(ExitOutcome::Success)), Action::Stop);
    assert_eq!(repair.state, RunState::Aborted(Stage::DiscoverAndPurge, Failure::Process(100)));
}

#[test]
fn decode_failure_aborts() {
    let mut repair = Repair::new(config());
    repair.step(Event::Start);
    repair.step(Event::EndOfRecords);
    assert_eq!(
        repair.step(Event::Failed(Failure::Decode(system76_support::control::DecodeError::MalformedField))),
        Action::Stop
    );
    assert_eq!(
        repair.state,
        RunState::Aborted(
            Stage::DiscoverAndPurge,
            Failure::Decode(system76_support::control::DecodeError::MalformedField)
        )
    );
}

#[test]
fn empty_status_database_still_purges() {
    let mut repair = Repair::new(config());
    repair.step(Event::Start);
    repair.step(Event::EndOfRecords);
    assert_eq!(repair.step(Event::EndOfRecords), Action::Run(Command::Purge { packages: vec![] }));
    assert_eq!(repair.step(Event::Exited(ExitOutcome::Success)), Action::Run(Command::FixBroken));
    assert_eq!(repair.state, RunState::Running(Stage::FixBroken));
}

#[test]
fn end_to_end() {
    let mut repair = Repair::new(config());
    assert_eq!(repair.step(Event::Start), Action::ReadDiversions);
    assert_eq!(repair.step(Event::EndOfRecords), Action::ReadStatus);
    repair.step(Event::Stanza(vec![field("Package", "nvidia-driver-440"), field("Architecture", "amd64")]));
    repair.step(Event::Stanza(vec![field("Package", "nvidia-container-runtime"), field("Architecture", "all")]));
    assert_eq!(repair.scan.matched, names(&["nvidia-driver-440:amd64", "nvidia-container-runtime"]));
    assert_eq!(repair.scan.reinstall, names(&["nvidia-container-runtime"]));
    assert_eq!(
        repair.step(Event::EndOfRecords),
        Action::Run(Command::Purge { packages: names(&["nvidia-driver-440:amd64", "nvidia-container-runtime"]) })
    );
    assert_eq!(repair.step(Event::Exited(ExitOutcome::Success)), Action::Run(Command::FixBroken));
    assert_eq!(repair.step(Event::Exited(ExitOutcome::Success)), Action::Run(Command::ConfigurePending));
    assert_eq!(
        repair.step(Event::Exited(ExitOutcome::Success)),
        Action::Run(Command::Install { packages: names(&["nvidia-container-runtime", "nvidia-driver-440"]) })
    );
    assert_eq!(repair.step(Event::Exited(ExitOutcome::Success)), Action::Stop);
    assert_eq!(repair.state, RunState::Completed);
    assert_eq!(repair.step(Event::Start), Action::Stop);
}

#[test]
fn configure_failure_names_its_step() {
    let mut repair = Repair::new(config());
    repair.step(Event::Start);
    repair.step(Event::EndOfRecords);
    repair.step(Event::EndOfRecords);
    repair.step(Event::Exited(ExitOutcome::Success));
    repair.step(Event::Exited(ExitOutcome::Success));
    repair.step(Event::Exited(ExitOutcome::Failure(1)));
    assert_eq!(repair.state, RunState::Aborted(Stage::ConfigurePending, Failure::Process(1)));
}

#[test]
fn advance_follows_the_steps() {
    assert_eq!(advance(RunState::Running(Stage::RemoveDiversions), Ok(())), RunState::Running(Stage::DiscoverAndPurge));
    assert_eq!(advance(RunState::Running(Stage::Reinstall), Ok(())), RunState::Completed);
    assert_eq!(
        advance(RunState::Running(Stage::FixBroken), Err(Failure::Spawn)),
        RunState::Aborted(Stage::FixBroken, Failure::Spawn)
    );
    assert_eq!(advance(RunState::Completed, Err(Failure::Io)), RunState::Completed);
}

#[test]
fn reinstall_appends_fallback() {
    assert_eq!(
        reinstall_command(&names(&["a"]), b"b"),
        Command::Install { packages: names(&["a", "b"]) }
    );
    assert_eq!(reinstall_command(&vec![], b"b"), Command::Install { packages: names(&["b"]) });
}
