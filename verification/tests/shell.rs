use zako::executor::{Action, ExecutionError, Executor};
use zako::job_manager::JobManager;
use zako::shell::{handle_input, run_loop, trim, LineOutcome, LoopStep, ReadEvent};

fn executor() -> Executor {
    Executor::new(JobManager::new())
}

#[test]
fn trimming() {
    assert_eq!(trim("  exit \t\n"), "exit");
    assert_eq!(trim("a b"), "a b");
    assert_eq!(trim("   "), "");
    assert_eq!(trim(""), "");
    assert_eq!(trim("\u{a0}x\u{3000}"), "x");
    assert_eq!(trim(" x"), "x");
    assert_eq!(trim("x "), "x");
}

#[test]
fn blank_lines_are_skipped() {
    let mut exec = executor();
    assert!(matches!(handle_input(&mut exec, ""), LineOutcome::Blank));
    assert!(matches!(handle_input(&mut exec, "  \t "), LineOutcome::Blank));
}

#[test]
fn end_to_end_set_then_use() {
    let mut exec = executor();
    match handle_input(&mut exec, "set X 1") {
        LineOutcome::Executed(Ok(Action::Nothing)) => {}
        other => panic!("unexpected outcome {:?}", other),
    }
    match handle_input(&mut exec, "printf '%s\\n' $X \"<$X>\"") {
        LineOutcome::Executed(Ok(Action::Spawn(request))) => {
            assert_eq!(request.program, "printf");
            assert_eq!(request.arguments, vec!["%sn", "1", "<1>"]);
            assert_eq!(request.environment, vec!["X=1"]);
        }
        other => panic!("unexpected outcome {:?}", other),
    }
}

#[test]
fn parse_errors_are_reported() {
    let mut exec = executor();
    match handle_input(&mut exec, "| ls") {
        LineOutcome::ParseFailed(message) => assert_eq!(message, "Expected command name"),
        other => panic!("unexpected outcome {:?}", other),
    }
    match handle_input(&mut exec, "ls >") {
        LineOutcome::ParseFailed(message) => {
            assert_eq!(message, "Expected filename after redirection operator")
        }
        other => panic!("unexpected outcome {:?}", other),
    }
}

#[test]
fn execution_errors_are_reported() {
    let mut exec = executor();
    match handle_input(&mut exec, "fg %3") {
        LineOutcome::Executed(Err(error)) => assert_eq!(error, ExecutionError::JobNotFound),
        other => panic!("unexpected outcome {:?}", other),
    }
}

#[test]
fn loop_steps() {
    let mut exec = executor();
    assert!(matches!(run_loop(&mut exec, ReadEvent::Eof), LoopStep::Leave));
    assert!(matches!(run_loop(&mut exec, ReadEvent::Interrupted), LoopStep::Interrupted));
    assert!(matches!(run_loop(&mut exec, ReadEvent::Failed), LoopStep::ReadFailed));
    assert!(matches!(run_loop(&mut exec, ReadEvent::Line(" exit ".to_string())), LoopStep::Exit));
    assert!(matches!(
        run_loop(&mut exec, ReadEvent::Line("exit now".to_string())),
        LoopStep::Handled(LineOutcome::Executed(Ok(Action::Exit)))
    ));
    assert!(matches!(
        run_loop(&mut exec, ReadEvent::Line("".to_string())),
        LoopStep::Handled(LineOutcome::Blank)
    ));
    assert!(matches!(
        run_loop(&mut exec, ReadEvent::Line("set A b".to_string())),
        LoopStep::Handled(LineOutcome::Executed(Ok(Action::Nothing)))
    ));
    assert_eq!(exec.variables.get("A".to_string()), "b");
}
