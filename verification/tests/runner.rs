use moon_tui::moon::OutputMsg;
use moon_tui::runner::{
    after_read, run_task, run_task_interactive, ReadStep, RunCommand, RunEvent, Stage,
};

#[test]
fn a_piped_run_from_start_to_end() {
    let (mut run, command) = run_task("web", "build", true);
    match command {
        RunCommand::Spawn { args } => {
            assert_eq!(args, vec!["run", "web:build", "--color", "--force"]);
        }
        other => panic!("unexpected {other:?}"),
    }
    assert!(matches!(run.next(RunEvent::Drained), RunCommand::Nothing));
    assert!(matches!(run.next(RunEvent::Spawned(Some(7))), RunCommand::Watch { pid: 7 }));
    assert!(matches!(run.next(RunEvent::Opened(true)), RunCommand::Nothing));
    assert!(matches!(
        run.next(RunEvent::Exited(Some(Some(3)))),
        RunCommand::Drain { millis: 100 }
    ));
    assert_eq!(run.stage, Stage::Draining(3));
    assert!(matches!(run.next(RunEvent::Drained), RunCommand::Finish { code: Some(3) }));
    assert_eq!(run.stage, Stage::Ended);
    assert!(matches!(run.next(RunEvent::Drained), RunCommand::Nothing));
}

#[test]
fn an_interactive_run_opens_a_terminal_first() {
    let (mut run, command) = run_task_interactive("web", "dev", false, 20, 78);
    assert!(matches!(command, RunCommand::OpenPty { rows: 20, cols: 78 }));
    match run.next(RunEvent::Opened(true)) {
        RunCommand::Spawn { args } => assert_eq!(args, vec!["run", "web:dev", "--color"]),
        other => panic!("unexpected {other:?}"),
    }
    run.next(RunEvent::Spawned(Some(1)));
    run.next(RunEvent::Exited(Some(None)));
    assert!(matches!(run.next(RunEvent::Drained), RunCommand::Finish { code: Some(-1) }));
}

#[test]
fn an_interactive_run_may_skip_the_cache() {
    let (mut run, _) = run_task_interactive("web", "dev", true, 20, 78);
    match run.next(RunEvent::Opened(true)) {
        RunCommand::Spawn { args } => {
            assert_eq!(args, vec!["run", "web:dev", "--color", "--force"]);
        }
        other => panic!("unexpected {other:?}"),
    }
}

#[test]
fn failures_end_a_run_without_a_code() {
    let (mut run, _) = run_task_interactive("web", "dev", false, 20, 78);
    assert!(matches!(run.next(RunEvent::Opened(false)), RunCommand::Finish { code: None }));
    let (mut run, _) = run_task("web", "build", false);
    assert!(matches!(run.next(RunEvent::Spawned(None)), RunCommand::Finish { code: None }));
    let (mut run, _) = run_task("web", "build", false);
    run.next(RunEvent::Spawned(Some(2)));
    assert!(matches!(run.next(RunEvent::Exited(None)), RunCommand::Finish { code: None }));
    assert_eq!(run.stage, Stage::Ended);
}

#[test]
fn reads_are_forwarded_with_their_replies() {
    let buf = b"hi\x1b[6nrest";
    match after_read(6, false, buf) {
        ReadStep::Forward { replies, message: OutputMsg::PtyOutput(bytes) } => {
            assert_eq!(bytes, b"hi\x1b[6n".to_vec());
            assert_eq!(replies, vec![b"\x1b[1;1R".to_vec()]);
        }
        other => panic!("unexpected {other:?}"),
    }
    assert!(matches!(after_read(0, true, buf), ReadStep::Stop));
    assert!(matches!(after_read(-1, true, buf), ReadStep::Retry));
    assert!(matches!(after_read(-1, false, buf), ReadStep::Stop));
}
