//! The beginning and the end of a run, stage by stage.

use binary_alpha::live::deployment::Mode;
use binary_alpha::live::entries::Vetoes;
use binary_alpha::live::shutdown::{advance, disables, turn, Ending, Known, Stage, Turn};
use binary_alpha::live::startup::{self, begin, Beginning};
use binary_alpha::table::Table;

struct World {
    interrupted: bool,
    reproduced: bool,
    failure: Option<String>,
    clock_failure: Option<String>,
    reports: bool,
    joined: Result<(), String>,
    fencing_token: u64,
    closed: Vec<String>,
    uploads: usize,
    upload_errors: Table<String>,
    deletions: Vec<String>,
    ledger: Option<Result<String, String>>,
    publication: Option<Result<String, String>>,
}

impl World {
    fn new() -> World {
        World {
            interrupted: false,
            reproduced: true,
            failure: None,
            clock_failure: None,
            reports: false,
            joined: Ok(()),
            fencing_token: 7,
            closed: vec![],
            uploads: 0,
            upload_errors: Table::new(),
            deletions: vec![],
            ledger: None,
            publication: None,
        }
    }

    fn step(&self, stage: Stage) -> Result<(Stage, Option<Ending>), String> {
        advance(
            stage,
            &Known {
                interrupted: self.interrupted,
                reproduced: self.reproduced,
                failure: &self.failure,
                clock_failure: &self.clock_failure,
                reports: self.reports,
                joined: &self.joined,
                fencing_token: self.fencing_token,
                closed: &self.closed,
                uploads: self.uploads,
                upload_errors: &self.upload_errors,
                deletions: &self.deletions,
                ledger: &self.ledger,
                publication: &self.publication,
            },
        )
    }
}

#[test]
fn a_run_stops_once_nothing_is_under_way() {
    assert_eq!(turn(true, true, 0, 0), Turn::CutOff);
    assert_eq!(turn(false, true, 0, 0), Turn::Finish);
    assert_eq!(turn(false, true, 1, 0), Turn::Receive);
    assert_eq!(turn(false, true, 0, 1), Turn::Receive);
    assert_eq!(turn(false, false, 0, 0), Turn::Receive);
}

#[test]
fn a_run_ends_in_order() {
    let mut world = World::new();
    world.closed = vec!["a".into(), "b".into()];
    world.deletions = vec!["c".into()];
    world.reports = true;
    let mut stage = Stage::Begin;
    let mut done = Vec::new();
    for _ in 0..40 {
        let (next, ending) = world.step(stage).unwrap();
        match &ending {
            Some(Ending::StopBrokers) => {
                assert_eq!(disables(ending.as_ref().unwrap()), Some("shutdown: draining observations"));
                done.push("stop".to_string());
            }
            Some(Ending::TakeReport) => {
                world.reports = false;
                done.push("report".to_string());
            }
            Some(Ending::RowsReady) => done.push("rows".to_string()),
            Some(Ending::Release { token }) => {
                assert_eq!(*token, Some(7));
                assert_eq!(disables(ending.as_ref().unwrap()), Some("shutdown: lease release begun"));
                done.push("release".to_string());
            }
            Some(Ending::Upload(name)) => {
                world.uploads = 1;
                done.push(format!("upload {name}"));
            }
            Some(Ending::Receive) => {
                if world.uploads == 1 {
                    world.uploads = 0;
                    world.closed.remove(0);
                } else if world.ledger.is_none() {
                    world.ledger = Some(Ok("ledger".into()));
                } else {
                    world.publication = Some(Ok("uri".into()));
                }
                assert_eq!(disables(ending.as_ref().unwrap()), None);
            }
            Some(Ending::Announce(command)) => done.push(format!("announce {command}")),
            Some(Ending::Delete(command)) => done.push(format!("delete {command}")),
            Some(Ending::SendLedger) => done.push("ledger".to_string()),
            Some(Ending::Publish) => done.push("publish".to_string()),
            Some(Ending::Complete) => done.push("complete".to_string()),
            None => {}
        }
        stage = next;
    }
    assert_eq!(stage, Stage::Done);
    assert_eq!(
        done,
        [
            "stop", "report", "rows", "release", "upload a", "upload b", "announce c", "delete c",
            "ledger", "publish", "complete"
        ]
    );
}

#[test]
fn the_end_of_a_run_is_called_off() {
    let refused = |world: &World, stage| world.step(stage).unwrap_err();
    let mut world = World::new();
    world.interrupted = true;
    for stage in [Stage::Begin, Stage::Rows, Stage::Uploading, Stage::Ledger, Stage::Publishing] {
        assert_eq!(refused(&world, stage), "live: archival interrupted before final publication");
    }
    let mut world = World::new();
    world.reproduced = false;
    assert_eq!(
        refused(&world, Stage::Begin),
        "live replay: recorded log ended before the journal prefix reproduced"
    );
    let mut world = World::new();
    world.clock_failure = Some("clock".into());
    assert_eq!(refused(&world, Stage::Begin), "clock");
    assert!(world.step(Stage::Rows).is_ok());
    world.failure = Some("failure".into());
    assert_eq!(refused(&world, Stage::Begin), "failure");
    assert_eq!(refused(&world, Stage::Rows), "failure");
    world.ledger = Some(Ok("ledger".into()));
    assert_eq!(refused(&world, Stage::Ledger), "failure");
    let mut world = World::new();
    world.joined = Err("joined".into());
    assert_eq!(refused(&world, Stage::Draining), "joined");
    world.upload_errors.insert("b".to_string(), "second".to_string());
    world.upload_errors.insert("a".to_string(), "first".to_string());
    assert_eq!(refused(&world, Stage::Uploading), "first");
    world.closed = vec!["a".into()];
    assert!(matches!(world.step(Stage::Released), Ok((_, Some(Ending::Upload(name)))) if name == "a"));
    world.ledger = Some(Err("ledger".into()));
    assert_eq!(refused(&world, Stage::Ledger), "ledger");
    world.publication = Some(Err("publication".into()));
    assert_eq!(refused(&world, Stage::Publishing), "publication");
    let mut world = World::new();
    world.fencing_token = 0;
    assert!(matches!(
        world.step(Stage::Rows),
        Ok((Stage::Released, Some(Ending::Release { token: None })))
    ));
}

fn begun(mode: Mode, answers: usize, failed: bool) -> (Vec<Beginning>, Vetoes) {
    let mut stage = startup::Stage::Begin;
    let mut vetoes = Vetoes::none();
    let mut done = Vec::new();
    let mut left = answers;
    while stage != startup::Stage::Running {
        let known = startup::Known {
            mode,
            balance_pending: left > 0,
            authorization_pending: left > 1,
            failed,
        };
        let (next, action) = begin(stage, &known, &mut vetoes);
        if action == Some(Beginning::Receive) {
            left -= 1;
        }
        done.extend(action);
        stage = next;
    }
    (done, vetoes)
}

#[test]
fn a_run_turns_to_the_market_after_its_answers() {
    let (done, vetoes) = begun(Mode::Live, 2, false);
    assert_eq!(
        done,
        [
            Beginning::RestoreDue,
            Beginning::RecordOpening,
            Beginning::Drain,
            Beginning::Acquire,
            Beginning::Recover,
            Beginning::AskAccount,
            Beginning::AskAuthorization,
            Beginning::Receive,
            Beginning::Receive,
            Beginning::Subscribe,
            Beginning::WriteHealth
        ]
    );
    assert!(vetoes.contains("causal warmup is incomplete"));
    assert!(vetoes.contains("broker balance differs from assessed or restored cash"));
    assert!(vetoes.contains("live authorization is absent"));
    let (done, vetoes) = begun(Mode::Replay, 1, true);
    assert_eq!(
        done,
        [
            Beginning::RecordOpening,
            Beginning::Drain,
            Beginning::Acquire,
            Beginning::AskAccount,
            Beginning::AskAuthorization,
            Beginning::Subscribe,
            Beginning::WriteHealth
        ]
    );
    assert!(!vetoes.contains("live authorization is absent"));
}
