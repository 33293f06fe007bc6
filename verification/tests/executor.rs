use zako::ast::{Command, Node};
use zako::executor::{Action, ErrorKind, ExecutionError, Executor};
use zako::job_manager::{JobManager, JobStatus};

fn command(program: &str, arguments: &[&str]) -> Command {
    Command {
        program: program.to_string(),
        arguments: arguments.iter().map(|a| a.to_string()).collect(),
        redirections: Vec::new(),
        background: false,
    }
}

fn executor() -> Executor {
    Executor::new(JobManager::new())
}

#[test]
fn expansion_of_bound_and_unbound_variables() {
    let mut exec = executor();
    exec.variables.set("FOO".to_string(), "bar".to_string());
    assert_eq!(exec.expand_variables("$FOO-x"), "bar-x");
    assert_eq!(exec.expand_variables("$UNSET"), "");
    assert_eq!(exec.expand_variables("a$FOO/b$FOO"), "abar/bbar");
    assert_eq!(exec.expand_variables("plain"), "plain");
    assert_eq!(exec.expand_variables(""), "");
}

#[test]
fn expansion_edge_cases() {
    let mut exec = executor();
    exec.variables.set("A".to_string(), "$B".to_string());
    exec.variables.set("B".to_string(), "no".to_string());
    exec.variables.set("A_1".to_string(), "x".to_string());
    // values are not expanded again
    assert_eq!(exec.expand_variables("$A"), "$B");
    // the name is the longest run of letters, digits and underscores
    assert_eq!(exec.expand_variables("$A_1"), "x");
    assert_eq!(exec.expand_variables("$A_1."), "x.");
    // a dollar sign at the end stays, one before another character goes
    assert_eq!(exec.expand_variables("a$"), "a$");
    assert_eq!(exec.expand_variables("$-x"), "-x");
    assert_eq!(exec.expand_variables("$$"), "$");
    // no braces
    assert_eq!(exec.expand_variables("${A}"), "{A}");
    // only ASCII letters make a name
    exec.variables.set("é".to_string(), "e".to_string());
    assert_eq!(exec.expand_variables("$é"), "é");
}

#[test]
fn set_binds_a_variable() {
    let mut exec = executor();
    let result = exec.execute(Node::Command(command("set", &["X", "1"])));
    assert!(matches!(result, Ok(Action::Nothing)));
    assert_eq!(exec.variables.get("X".to_string()), "1");
    let result = exec.builtin_set(&command("set", &["X", "2"]));
    assert!(matches!(result, Ok(Action::Nothing)));
    assert_eq!(exec.variables.get("X".to_string()), "2");
    assert_eq!(exec.variables.get_all().len(), 1);
}

#[test]
fn set_needs_exactly_two_arguments() {
    let mut exec = executor();
    for arguments in [vec![], vec!["X"], vec!["X", "1", "2"]] {
        let result = exec.execute(Node::Command(command("set", &arguments)));
        assert_eq!(result.unwrap_err(), ExecutionError::SetArguments);
    }
    assert!(exec.variables.get_all().is_empty());
    assert_eq!(ExecutionError::SetArguments.kind(), ErrorKind::InvalidInput);
}

#[test]
fn set_then_command_sees_the_value() {
    let mut exec = executor();
    exec.execute(Node::Command(command("set", &["X", "1"]))).unwrap();
    let action = exec.execute(Node::Command(command("echo", &["$X", "a$X", "$Y"]))).unwrap();
    match action {
        Action::Spawn(request) => {
            assert_eq!(request.program, "echo");
            assert_eq!(request.arguments, vec!["1", "a1", ""]);
            assert_eq!(request.environment, vec!["X=1"]);
            assert_eq!(request.display, "echo $X a$X $Y");
        }
        other => panic!("expected a spawn request, got {:?}", other),
    }
    assert!(exec.job_manager.get_jobs().is_empty());
}

#[test]
fn spawn_request_without_arguments() {
    let mut exec = executor();
    exec.variables.set("A".to_string(), "1".to_string());
    exec.variables.set("B".to_string(), "".to_string());
    match exec.execute_command(command("ls", &[])).unwrap() {
        Action::Spawn(request) => {
            assert_eq!(request.program, "ls");
            assert!(request.arguments.is_empty());
            assert_eq!(request.environment, vec!["A=1", "B="]);
            assert_eq!(request.display, "ls ");
        }
        other => panic!("expected a spawn request, got {:?}", other),
    }
}

#[test]
fn program_name_is_not_expanded() {
    let mut exec = executor();
    exec.variables.set("P".to_string(), "ls".to_string());
    match exec.execute_command(command("$P", &[])).unwrap() {
        Action::Spawn(request) => assert_eq!(request.program, "$P"),
        other => panic!("expected a spawn request, got {:?}", other),
    }
}

#[test]
fn pipeline_runs_its_first_command_only() {
    let mut exec = executor();
    let node = Node::Pipeline(vec![command("set", &["X", "1"]), command("set", &["Y", "2"])]);
    assert!(matches!(exec.execute(node), Ok(Action::Nothing)));
    assert_eq!(exec.variables.get("X".to_string()), "1");
    assert_eq!(exec.variables.get("Y".to_string()), "");
    assert!(matches!(exec.execute_pipeline(Vec::new()), Ok(Action::Nothing)));
}

#[test]
fn simple_builtins() {
    let mut exec = executor();
    assert!(matches!(exec.execute_command(command("exit", &[])), Ok(Action::Exit)));
    assert!(matches!(exec.execute_command(command("zako", &[])), Ok(Action::NestedShell)));
    assert!(exec.handle_builtin(&command("ls", &[])).is_none());
    assert!(matches!(exec.handle_builtin(&command("exit", &["1"])), Some(Ok(Action::Exit))));
}

#[test]
fn cd_leaves_other_paths_alone() {
    let mut exec = executor();
    match exec.execute_command(command("cd", &["/tmp/x"])).unwrap() {
        Action::ChangeDirectory(path) => assert_eq!(path, "/tmp/x"),
        other => panic!("expected a change of directory, got {:?}", other),
    }
    match exec.execute_command(command("cd", &["~user/x"])).unwrap() {
        Action::ChangeDirectory(path) => assert_eq!(path, "~user/x"),
        other => panic!("expected a change of directory, got {:?}", other),
    }
    exec.variables.set("D".to_string(), "/var".to_string());
    match exec.execute_command(command("cd", &["$D/log"])).unwrap() {
        Action::ChangeDirectory(path) => assert_eq!(path, "/var/log"),
        other => panic!("expected a change of directory, got {:?}", other),
    }
}

#[test]
fn cd_expands_the_tilde() {
    let mut exec = executor();
    match exec.execute_command(command("cd", &["~/some/dir"])).unwrap() {
        Action::ChangeDirectory(path) => {
            assert!(path.ends_with("/some/dir"));
            assert!(!path.starts_with('~'));
        }
        other => panic!("expected a change of directory, got {:?}", other),
    }
    match exec.execute_command(command("cd", &[])).unwrap() {
        Action::ChangeDirectory(path) => assert!(!path.starts_with('~')),
        other => panic!("expected a change of directory, got {:?}", other),
    }
}

#[test]
fn jobs_lists_every_job() {
    let mut exec = executor();
    exec.job_started(10, 10, "sleep 1".to_string());
    exec.job_started(20, 20, "sleep 2".to_string());
    match exec.execute_command(command("jobs", &[])).unwrap() {
        Action::ListJobs(lines) => {
            assert_eq!(lines, vec!["[1] - 10 Running sleep 1", "[2] + 20 Running sleep 2"]);
        }
        other => panic!("expected job lines, got {:?}", other),
    }
}

#[test]
fn fg_and_bg_resolve_jobs() {
    let mut exec = executor();
    exec.job_started(10, 10, "sleep 1".to_string());
    exec.job_started(20, 20, "sleep 2".to_string());
    exec.job_manager.mark_suspended(10);
    match exec.execute_command(command("fg", &[])).unwrap() {
        Action::Foreground(job) => assert_eq!(job.pid, 20),
        other => panic!("expected a job, got {:?}", other),
    }
    match exec.execute_command(command("fg", &["%1"])).unwrap() {
        Action::Foreground(job) => {
            assert_eq!(job.pid, 10);
            assert_eq!(job.status, JobStatus::Running);
            assert!(job.is_current);
        }
        other => panic!("expected a job, got {:?}", other),
    }
    exec.job_manager.mark_suspended(20);
    match exec.execute_command(command("bg", &["%+2"])).unwrap() {
        Action::Background(job) => {
            assert_eq!(job.pid, 20);
            assert_eq!(job.status, JobStatus::Running);
            assert!(job.is_previous);
        }
        other => panic!("expected a job, got {:?}", other),
    }
    assert!(matches!(exec.execute_command(command("bg", &[])), Ok(Action::Background(_))));
}

#[test]
fn fg_and_bg_errors() {
    let mut exec = executor();
    exec.job_started(10, 10, "sleep 1".to_string());
    let fails = |exec: &mut Executor, program: &str, argument: &str| {
        exec.execute_command(command(program, &[argument])).unwrap_err()
    };
    assert_eq!(fails(&mut exec, "fg", "%2"), ExecutionError::JobNotFound);
    assert_eq!(fails(&mut exec, "bg", "%0"), ExecutionError::JobNotFound);
    assert_eq!(fails(&mut exec, "fg", "1"), ExecutionError::FgFormat);
    assert_eq!(fails(&mut exec, "bg", "1"), ExecutionError::BgFormat);
    assert_eq!(fails(&mut exec, "fg", ""), ExecutionError::FgFormat);
    assert_eq!(fails(&mut exec, "fg", "%"), ExecutionError::JobNumber);
    assert_eq!(fails(&mut exec, "fg", "%x"), ExecutionError::JobNumber);
    assert_eq!(fails(&mut exec, "fg", "%-1"), ExecutionError::JobNumber);
    assert_eq!(fails(&mut exec, "fg", "%1 "), ExecutionError::JobNumber);
    assert_eq!(fails(&mut exec, "bg", "%99999999999999999999999"), ExecutionError::JobNumber);
    let mut empty = executor();
    assert_eq!(
        empty.execute_command(command("fg", &[])).unwrap_err(),
        ExecutionError::JobNotFound
    );
    assert_eq!(ExecutionError::JobNotFound.kind(), ErrorKind::NotFound);
    assert_eq!(ExecutionError::FgFormat.kind(), ErrorKind::InvalidInput);
    assert_eq!(ExecutionError::BgFormat.kind(), ErrorKind::InvalidInput);
    assert_eq!(ExecutionError::JobNumber.kind(), ErrorKind::InvalidInput);
    assert_eq!(ExecutionError::SpawnFailed.kind(), ErrorKind::Io);
}

#[test]
fn error_messages() {
    assert_eq!(ExecutionError::SetArguments.message(), "set 命令需要两个参数: 变量名和值");
    assert_eq!(ExecutionError::FgFormat.message(), "fg: 参数格式错误，应为 %n");
    assert_eq!(ExecutionError::BgFormat.message(), "bg: 参数格式错误，应为 %n");
    assert_eq!(ExecutionError::JobNumber.message(), "无效的作业编号");
    assert_eq!(ExecutionError::JobNotFound.message(), "fg: 没有找到该作业");
    assert_eq!(ExecutionError::SpawnFailed.message(), "Fork failed");
}

#[test]
fn job_started_enters_the_job() {
    let mut exec = executor();
    exec.job_started(7, 8, "vim a".to_string());
    let jobs = exec.job_manager.get_jobs();
    assert_eq!(jobs.len(), 1);
    assert_eq!((jobs[0].gid, jobs[0].pid, jobs[0].index), (7, 8, 1));
    assert!(jobs[0].is_current);
}
