//! The executor: what the shell does with a parsed statement. It runs the
//! builtins on its own state and names, as an [`Action`], whatever has to be
//! done to processes, the terminal or the working directory.

use crate::ast::{texts, Command, Node, NodeView};
use crate::job_manager::{
    brought_forward, job_line, resolve, resumed, with_job_added, well_formed, Job, JobManager,
};
use crate::path::{tilde, tilde_result};
use crate::text::{
    chars_of, lemma_run_len, lemma_run_len_unique, parse_number, read_number, run_len, same_text,
    string_of,
};
use crate::variable::Variable;
use vstd::prelude::*;
use vstd::string::StringExecFns;

verus! {

/// Why a statement could not be carried out.
#[derive(Debug, PartialEq, Eq, Clone, Copy, Structural)]
pub enum ExecutionError {
    /// `set` was not given exactly a name and a value.
    SetArguments,
    /// The argument of `fg` does not start with `%`.
    FgFormat,
    /// The argument of `bg` does not start with `%`.
    BgFormat,
    /// What follows `%` is not a job number.
    JobNumber,
    /// No job has the number given, or none is current.
    JobNotFound,
    /// The process could not be started.
    SpawnFailed,
}

/// The three kinds of failure that callers tell apart.
#[derive(Debug, PartialEq, Eq, Clone, Copy, Structural)]
pub enum ErrorKind {
    InvalidInput,
    NotFound,
    Io,
}

impl ExecutionError {
    /// Wrong arguments to a builtin are invalid input, a job that is not
    /// there is not found, and a process that did not start is an I/O failure.
    pub fn kind(&self) -> (kind: ErrorKind)
        ensures
            kind == match *self {
                ExecutionError::JobNotFound => ErrorKind::NotFound,
                ExecutionError::SpawnFailed => ErrorKind::Io,
                _ => ErrorKind::InvalidInput,
            },
    {
        match self {
            ExecutionError::JobNotFound => ErrorKind::NotFound,
            ExecutionError::SpawnFailed => ErrorKind::Io,
            _ => ErrorKind::InvalidInput,
        }
    }

    /// The message shown to the user.
    pub fn message(&self) -> (text: String)
        ensures
            text@ == match *self {
                ExecutionError::SetArguments => "set 命令需要两个参数: 变量名和值"@,
                ExecutionError::FgFormat => "fg: 参数格式错误，应为 %n"@,
                ExecutionError::BgFormat => "bg: 参数格式错误，应为 %n"@,
                ExecutionError::JobNumber => "无效的作业编号"@,
                ExecutionError::JobNotFound => "fg: 没有找到该作业"@,
                ExecutionError::SpawnFailed => "Fork failed"@,
            },
    {
        match self {
            ExecutionError::SetArguments => "set 命令需要两个参数: 变量名和值".to_owned(),
            ExecutionError::FgFormat => "fg: 参数格式错误，应为 %n".to_owned(),
            ExecutionError::BgFormat => "bg: 参数格式错误，应为 %n".to_owned(),
            ExecutionError::JobNumber => "无效的作业编号".to_owned(),
            ExecutionError::JobNotFound => "fg: 没有找到该作业".to_owned(),
            ExecutionError::SpawnFailed => "Fork failed".to_owned(),
        }
    }
}

/// The commands that the shell runs itself.
#[derive(Debug, PartialEq, Eq, Clone, Copy, Structural)]
pub enum Builtin {
    /// `zako`: a nested shell.
    Shell,
    Cd,
    Exit,
    SetVariable,
    Jobs,
    Fg,
    Bg,
}

/// The builtin that a program name stands for, if it stands for one.
pub open spec fn builtin_of(program: Seq<char>) -> Option<Builtin> {
    if program == "zako"@ {
        Some(Builtin::Shell)
    } else if program == "cd"@ {
        Some(Builtin::Cd)
    } else if program == "exit"@ {
        Some(Builtin::Exit)
    } else if program == "set"@ {
        Some(Builtin::SetVariable)
    } else if program == "jobs"@ {
        Some(Builtin::Jobs)
    } else if program == "fg"@ {
        Some(Builtin::Fg)
    } else if program == "bg"@ {
        Some(Builtin::Bg)
    } else {
        None
    }
}

/// What it takes to start an external program.
#[derive(Debug)]
pub struct SpawnRequest {
    /// The program's name, to be looked up in `PATH`.
    pub program: String,
    /// The arguments, with variables expanded.
    pub arguments: Vec<String>,
    /// The whole environment of the new process, one `NAME=VALUE` for each
    /// shell variable.
    pub environment: Vec<String>,
    /// The command line as written, for the job table.
    pub display: String,
}

/// What the caller has to do once the executor has dealt with a statement.
#[derive(Debug)]
pub enum Action {
    /// Nothing is left to do.
    Nothing,
    /// Run another instance of this shell and wait for it.
    NestedShell,
    /// Make this the working directory.
    ChangeDirectory(String),
    /// End the shell, with status 0.
    Exit,
    /// Print these lines, one for each job.
    ListJobs(Vec<String>),
    /// Hand the terminal to the job's process group, let the group go on,
    /// and wait until the terminal comes back.
    Foreground(Job),
    /// Let the job's process group go on without the terminal.
    Background(Job),
    /// Start the program, then report it with [`Executor::job_started`].
    Spawn(SpawnRequest),
}

/// The characters a variable name is made of.
pub open spec fn is_name_char(c: char) -> bool {
    ('a' <= c <= 'z') || ('A' <= c <= 'Z') || ('0' <= c <= '9') || c == '_'
}

pub open spec fn name_chars() -> spec_fn(char) -> bool {
    |c: char| is_name_char(c)
}

/// `s` with each `$NAME` replaced by the value of `NAME` in `vars`, or by
/// nothing where `NAME` is not bound. `NAME` is the longest run of letters,
/// digits and `_` after the `$`. A `$` that no such character follows is
/// dropped, unless it ends the text. Values are not expanded again.
pub open spec fn expand(s: Seq<char>, vars: Map<Seq<char>, Seq<char>>) -> Seq<char>
    decreases s.len(),
    via expand_decreases
{
    if s.len() == 0 {
        Seq::empty()
    } else if s[0] == '$' && s.len() > 1 {
        let n = run_len(s.skip(1), name_chars()) as int;
        let name = s.subrange(1, 1 + n);
        let value = if n > 0 && vars.contains_key(name) {
            vars[name]
        } else {
            Seq::empty()
        };
        value + expand(s.skip(1 + n), vars)
    } else {
        seq![s[0]] + expand(s.skip(1), vars)
    }
}

#[via_fn]
proof fn expand_decreases(s: Seq<char>, vars: Map<Seq<char>, Seq<char>>) {
    if s.len() > 1 {
        lemma_run_len(s.skip(1), name_chars());
    }
}

/// Each text of `arguments` expanded.
pub open spec fn expand_all(arguments: Seq<Seq<char>>, vars: Map<Seq<char>, Seq<char>>) -> Seq<
    Seq<char>,
> {
    arguments.map_values(|a: Seq<char>| expand(a, vars))
}

/// The texts of `parts` with one blank between each two.
pub open spec fn joined(parts: Seq<Seq<char>>) -> Seq<char>
    decreases parts.len(),
{
    if parts.len() == 0 {
        Seq::empty()
    } else if parts.len() == 1 {
        parts[0]
    } else {
        joined(parts.drop_last()) + seq![' '] + parts.last()
    }
}

/// The command line that the job table shows: the program, a blank, and the
/// arguments as they were written.
pub open spec fn display_of(program: Seq<char>, arguments: Seq<Seq<char>>) -> Seq<char> {
    program + seq![' '] + joined(arguments)
}

/// The environment that a store of variables makes: `NAME=VALUE` for each.
pub open spec fn environment_of(pairs: Seq<(Seq<char>, Seq<char>)>) -> Seq<Seq<char>> {
    pairs.map_values(|p: (Seq<char>, Seq<char>)| p.0 + seq!['='] + p.1)
}

/// Whether `c` is a letter, a digit or `_`.
fn is_name(c: char) -> (b: bool)
    ensures
        b == is_name_char(c),
{
    (c >= 'a' && c <= 'z') || (c >= 'A' && c <= 'Z') || (c >= '0' && c <= '9') || c == '_'
}

/// The command line that the job table shows for `program` and `arguments`.
pub fn display_line(program: &str, arguments: &Vec<String>) -> (line: String)
    ensures
        line@ == display_of(program@, texts(arguments@)),
{
    let mut line = program.to_owned();
    line.push(' ');
    let mut i: usize = 0;
    while i < arguments.len()
        invariant
            i <= arguments.len(),
            line@ == program@ + seq![' '] + joined(texts(arguments@).take(i as int)),
        decreases arguments.len() - i,
    {
        let ghost parts = texts(arguments@).take(i + 1);
        assert(parts.drop_last() =~= texts(arguments@).take(i as int));
        assert(parts.last() == arguments@[i as int]@);
        if i > 0 {
            line.push(' ');
        }
        line.append(arguments[i].as_str());
        assert(line@ =~= program@ + seq![' '] + joined(parts));
        i += 1;
    }
    assert(texts(arguments@).take(arguments.len() as int) =~= texts(arguments@));
    line
}


/// The job that the arguments of `fg` or `bg` name: none, for the current
/// job, or `%N` for the job with number `N`. `format` is the error for a first
/// argument that does not start with `%`.
pub open spec fn job_index(arguments: Seq<Seq<char>>, format: ExecutionError) -> Result<
    Option<usize>,
    ExecutionError,
> {
    if arguments.len() == 0 {
        Ok(None)
    } else if arguments[0].len() > 0 && arguments[0][0] == '%' {
        match parse_number(arguments[0].skip(1)) {
            Some(n) => Ok(Some(n)),
            None => Err(ExecutionError::JobNumber),
        }
    } else {
        Err(format)
    }
}

/// The directory that `cd` is asked for: its first argument, or `~`.
pub open spec fn cd_target(arguments: Seq<Seq<char>>) -> Seq<char> {
    if arguments.len() > 0 {
        arguments[0]
    } else {
        seq!['~']
    }
}

/// The shell's state: its variables and its job table.
pub struct Executor {
    pub variables: Variable,
    pub job_manager: JobManager,
}

impl Executor {
    /// Whether the two hold the same variables.
    pub open spec fn same_variables(self, other: Executor) -> bool {
        self.variables@ == other.variables@ && self.variables.pairs() == other.variables.pairs()
    }

    /// Whether the two hold the same variables and the same jobs.
    pub open spec fn same_state(self, other: Executor) -> bool {
        self.same_variables(other) && self.job_manager@ == other.job_manager@
    }
}

/// If `done` is the first `i` elements of `all` and `next` is the one after
/// them, then `done` with `next` is the first `i + 1`.
proof fn lemma_take_push<A>(all: Seq<A>, done: Seq<A>, i: int, next: A)
    requires
        0 <= i < all.len(),
        done == all.take(i),
        next == all[i],
    ensures
        done.push(next) == all.take(i + 1),
{
    assert(done.push(next) =~= all.take(i + 1));
}

/// What the builtin `builtin` does with `arguments`: the result it gives and
/// the state it leaves.
pub open spec fn builtin_effect(
    builtin: Builtin,
    arguments: Seq<Seq<char>>,
    before: Executor,
    result: Result<Action, ExecutionError>,
    after: Executor,
) -> bool {
    match builtin {
        Builtin::Shell => after.same_state(before) && result matches Ok(Action::NestedShell),
        Builtin::Cd => {
            &&& after.same_state(before)
            &&& result matches Ok(Action::ChangeDirectory(path))
            &&& tilde_result(cd_target(arguments), path@)
        },
        Builtin::Exit => after.same_state(before) && result matches Ok(Action::Exit),
        Builtin::SetVariable => {
            &&& after.job_manager@ == before.job_manager@
            &&& if arguments.len() == 2 {
                &&& result matches Ok(Action::Nothing)
                &&& after.variables@ == before.variables@.insert(arguments[0], arguments[1])
            } else {
                &&& result == Err::<Action, ExecutionError>(ExecutionError::SetArguments)
                &&& after.same_state(before)
            }
        },
        Builtin::Jobs => {
            &&& after.same_state(before)
            &&& result matches Ok(Action::ListJobs(lines))
            &&& texts(lines@) == before.job_manager@.map_values(|job: Job| job_line(job))
        },
        Builtin::Fg => {
            &&& after.same_variables(before)
            &&& match job_index(arguments, ExecutionError::FgFormat) {
                Err(error) => after.same_state(before) && result == Err::<Action, ExecutionError>(error),
                Ok(index) => match resolve(before.job_manager@, index) {
                    None => after.same_state(before) && result == Err::<Action, ExecutionError>(
                        ExecutionError::JobNotFound,
                    ),
                    Some(pos) => {
                        &&& after.job_manager@ == brought_forward(before.job_manager@, pos)
                        &&& result == Ok::<Action, ExecutionError>(
                            Action::Foreground(after.job_manager@[pos]),
                        )
                    },
                },
            }
        },
        Builtin::Bg => {
            &&& after.same_variables(before)
            &&& match job_index(arguments, ExecutionError::BgFormat) {
                Err(error) => after.same_state(before) && result == Err::<Action, ExecutionError>(error),
                Ok(index) => match resolve(before.job_manager@, index) {
                    None => after.same_state(before) && result == Err::<Action, ExecutionError>(
                        ExecutionError::JobNotFound,
                    ),
                    Some(pos) => {
                        &&& after.job_manager@ == resumed(before.job_manager@, pos)
                        &&& result == Ok::<Action, ExecutionError>(
                            Action::Background(after.job_manager@[pos]),
                        )
                    },
                },
            }
        },
    }
}

/// What carrying out a command does. Its arguments are expanded first. A
/// builtin is run; for any other program the result asks the caller to start
/// it, with the expanded arguments and the shell variables as its environment,
/// and the state stays as it is.
pub open spec fn command_effect(
    program: Seq<char>,
    written: Seq<Seq<char>>,
    before: Executor,
    result: Result<Action, ExecutionError>,
    after: Executor,
) -> bool {
    let arguments = expand_all(written, before.variables@);
    match builtin_of(program) {
        Some(builtin) => builtin_effect(builtin, arguments, before, result, after),
        None => {
            &&& after.same_state(before)
            &&& result matches Ok(Action::Spawn(request))
            &&& request.program@ == program
            &&& texts(request.arguments@) == arguments
            &&& texts(request.environment@) == environment_of(before.variables.pairs())
            &&& request.display@ == display_of(program, written)
        },
    }
}

/// What carrying out a statement does: of a pipeline only the first command
/// is carried out.
pub open spec fn statement_effect(
    node: NodeView,
    before: Executor,
    result: Result<Action, ExecutionError>,
    after: Executor,
) -> bool {
    match node {
        NodeView::Command(command) => command_effect(
            command.program,
            command.arguments,
            before,
            result,
            after,
        ),
        NodeView::Pipeline(pipeline) => if pipeline.len() > 0 {
            command_effect(pipeline[0].program, pipeline[0].arguments, before, result, after)
        } else {
            after.same_state(before) && result matches Ok(Action::Nothing)
        },
    }
}

/// The job that `fg` or `bg` is asked for.
fn job_argument(arguments: &Vec<String>, format: ExecutionError) -> (index: Result<
    Option<usize>,
    ExecutionError,
>)
    ensures
        index == job_index(texts(arguments@), format),
{
    if arguments.len() == 0 {
        return Ok(None);
    }
    let chars = chars_of(arguments[0].as_str());
    assert(texts(arguments@)[0] == chars@);
    if chars.len() > 0 && chars[0] == '%' {
        match read_number(&chars, 1) {
            Some(n) => Ok(Some(n)),
            None => Err(ExecutionError::JobNumber),
        }
    } else {
        Err(format)
    }
}

impl Executor {
    /// An executor with no variables, over the given job table.
    pub fn new(job_manager: JobManager) -> (executor: Executor)
        ensures
            executor.job_manager@ == job_manager@,
            executor.variables@ == Map::<Seq<char>, Seq<char>>::empty(),
            executor.variables.pairs() == Seq::<(Seq<char>, Seq<char>)>::empty(),
    {
        Executor { variables: Variable::new(), job_manager }
    }

    /// Carries out a statement. Of a pipeline only the first command is
    /// carried out.
    pub fn execute(&mut self, node: Node) -> (result: Result<Action, ExecutionError>)
        ensures
            statement_effect(node@, *old(self), result, *final(self)),
    {
        match node {
            Node::Pipeline(pipeline) => {
                assert(pipeline@.len() > 0 ==> node@->Pipeline_0[0] == pipeline@[0]@);
                self.execute_pipeline(pipeline)
            },
            Node::Command(command) => self.execute_command(command),
        }
    }

    /// Carries out the first command of a pipeline, and nothing where there
    /// is none.
    pub fn execute_pipeline(&mut self, pipeline: Vec<Command>) -> (result: Result<
        Action,
        ExecutionError,
    >)
        ensures
            if pipeline@.len() > 0 {
                command_effect(
                    pipeline@[0]@.program,
                    pipeline@[0]@.arguments,
                    *old(self),
                    result,
                    *final(self),
                )
            } else {
                final(self).same_state(*old(self)) && result matches Ok(Action::Nothing)
            },
    {
        let mut pipeline = pipeline;
        if pipeline.len() > 0 {
            let first = pipeline.remove(0);
            self.execute_command(first)
        } else {
            Ok(Action::Nothing)
        }
    }

    /// Carries out one command.
    pub fn execute_command(&mut self, command: Command) -> (result: Result<Action, ExecutionError>)
        ensures
            command_effect(
                command@.program,
                command@.arguments,
                *old(self),
                result,
                *final(self),
            ),
    {
        let display = display_line(command.program.as_str(), &command.arguments);
        let mut arguments: Vec<String> = Vec::new();
        let mut i: usize = 0;
        while i < command.arguments.len()
            invariant
                i <= command.arguments.len(),
                *self == *old(self),
                texts(arguments@) == expand_all(texts(command.arguments@), self.variables@).take(
                    i as int,
                ),
            decreases command.arguments.len() - i,
        {
            let expanded = self.expand_variables(command.arguments[i].as_str());
            proof {
                assert(texts(arguments@.push(expanded)) =~= texts(arguments@).push(expanded@));
                lemma_take_push(
                    expand_all(texts(command.arguments@), self.variables@),
                    texts(arguments@),
                    i as int,
                    expanded@,
                );
            }
            arguments.push(expanded);
            i += 1;
        }
        assert(texts(arguments@) =~= expand_all(texts(command.arguments@), self.variables@));
        let expanded = Command {
            program: command.program,
            arguments,
            redirections: command.redirections,
            background: command.background,
        };
        match self.handle_builtin(&expanded) {
            Some(result) => result,
            None => {
                let environment = self.environment();
                Ok(
                    Action::Spawn(
                        SpawnRequest {
                            program: expanded.program,
                            arguments: expanded.arguments,
                            environment,
                            display,
                        },
                    ),
                )
            },
        }
    }

    /// The environment for a new process: `NAME=VALUE` for each variable.
    pub fn environment(&self) -> (environment: Vec<String>)
        ensures
            texts(environment@) == environment_of(self.variables.pairs()),
    {
        let all = self.variables.get_all();
        let mut environment: Vec<String> = Vec::new();
        let mut i: usize = 0;
        while i < all.len()
            invariant
                i <= all.len(),
                all@.map_values(|e: (String, String)| (e.0@, e.1@)) == self.variables.pairs(),
                texts(environment@) == environment_of(self.variables.pairs()).take(i as int),
            decreases all.len() - i,
        {
            let mut entry = all[i].0.clone();
            entry.push('=');
            entry.append(all[i].1.as_str());
            assert(self.variables.pairs()[i as int] == (all@[i as int].0@, all@[i as int].1@));
            assert(entry@ =~= all@[i as int].0@ + seq!['='] + all@[i as int].1@);
            proof {
                assert(texts(environment@.push(entry)) =~= texts(environment@).push(entry@));
                lemma_take_push(
                    environment_of(self.variables.pairs()),
                    texts(environment@),
                    i as int,
                    entry@,
                );
            }
            environment.push(entry);
            i += 1;
        }
        assert(texts(environment@) =~= environment_of(self.variables.pairs()));
        environment
    }

    /// `input` with the shell's variables expanded.
    pub fn expand_variables(&self, input: &str) -> (expanded: String)
        ensures
            expanded@ == expand(input@, self.variables@),
    {
        let chars = chars_of(input);
        let mut expanded = String::new();
        let mut i: usize = 0;
        assert(chars@.skip(0) =~= chars@);
        while i < chars.len()
            invariant
                i <= chars.len(),
                expand(chars@, self.variables@) == expanded@ + expand(
                    chars@.skip(i as int),
                    self.variables@,
                ),
            decreases chars.len() - i,
        {
            let ghost s = chars@.skip(i as int);
            let ghost so_far = expanded@;
            let c = chars[i];
            assert(s[0] == c);
            if c == '$' && i + 1 < chars.len() {
                let start = i + 1;
                let mut j = start;
                while j < chars.len() && is_name(chars[j])
                    invariant
                        start <= j <= chars.len(),
                        forall|k: int| start <= k < j ==> is_name_char(#[trigger] chars@[k]),
                    decreases chars.len() - j,
                {
                    j += 1;
                }
                proof {
                    let t = s.skip(1);
                    let n = (j - start) as nat;
                    assert(t =~= chars@.skip(start as int));
                    assert forall|k: int| 0 <= k < n implies name_chars()(#[trigger] t[k]) by {
                        assert(t[k] == chars@[start + k]);
                    }
                    lemma_run_len_unique(t, name_chars(), n);
                    assert(s.subrange(1, 1 + n as int) =~= chars@.subrange(start as int, j as int));
                    assert(s.skip(1 + n as int) =~= chars@.skip(j as int));
                }
                if j > start {
                    let name = string_of(&chars, start, j);
                    let value = self.variables.get(name);
                    expanded.append(value.as_str());
                }
                assert(so_far + expand(s, self.variables@) =~= expanded@ + expand(
                    chars@.skip(j as int),
                    self.variables@,
                ));
                i = j;
            } else {
                expanded.push(c);
                assert(s.skip(1) =~= chars@.skip(i + 1));
                assert(so_far + expand(s, self.variables@) =~= expanded@ + expand(
                    chars@.skip(i + 1),
                    self.variables@,
                ));
                i += 1;
            }
        }
        assert(expanded@ + Seq::<char>::empty() =~= expanded@);
        expanded
    }

    /// Runs `command` if its program is a builtin, and says so by returning
    /// its result. The arguments are taken as they stand.
    pub fn handle_builtin(&mut self, command: &Command) -> (handled: Option<
        Result<Action, ExecutionError>,
    >)
        ensures
            match builtin_of(command@.program) {
                Some(builtin) => handled matches Some(result) && builtin_effect(
                    builtin,
                    command@.arguments,
                    *old(self),
                    result,
                    *final(self),
                ),
                None => handled is None && final(self).same_state(*old(self)),
            },
    {
        let program = command.program.as_str();
        if same_text(program, "zako") {
            Some(self.builtin_shell())
        } else if same_text(program, "cd") {
            Some(self.builtin_cd(command))
        } else if same_text(program, "exit") {
            Some(self.builtin_exit())
        } else if same_text(program, "set") {
            Some(self.builtin_set(command))
        } else if same_text(program, "jobs") {
            Some(self.builtin_jobs())
        } else if same_text(program, "fg") {
            Some(self.builtin_fg(command))
        } else if same_text(program, "bg") {
            Some(self.builtin_bg(command))
        } else {
            None
        }
    }

    fn builtin_shell(&self) -> (result: Result<Action, ExecutionError>)
        ensures
            result matches Ok(Action::NestedShell),
    {
        Ok(Action::NestedShell)
    }

    fn builtin_cd(&self, command: &Command) -> (result: Result<Action, ExecutionError>)
        ensures
            result matches Ok(Action::ChangeDirectory(path)) && tilde_result(
                cd_target(command@.arguments),
                path@,
            ),
    {
        let path = if command.arguments.len() > 0 {
            assert(command@.arguments[0] == command.arguments@[0]@);
            tilde(command.arguments[0].as_str())
        } else {
            proof {
                reveal_strlit("~");
                assert("~"@ =~= seq!['~']);
            }
            tilde("~")
        };
        Ok(Action::ChangeDirectory(path))
    }

    fn builtin_exit(&self) -> (result: Result<Action, ExecutionError>)
        ensures
            result matches Ok(Action::Exit),
    {
        Ok(Action::Exit)
    }

    /// `set NAME VALUE`: binds the variable.
    pub fn builtin_set(&mut self, command: &Command) -> (result: Result<Action, ExecutionError>)
        ensures
            builtin_effect(
                Builtin::SetVariable,
                command@.arguments,
                *old(self),
                result,
                *final(self),
            ),
    {
        if command.arguments.len() != 2 {
            return Err(ExecutionError::SetArguments);
        }
        assert(command@.arguments[0] == command.arguments@[0]@);
        assert(command@.arguments[1] == command.arguments@[1]@);
        self.variables.set(command.arguments[0].clone(), command.arguments[1].clone());
        Ok(Action::Nothing)
    }

    fn builtin_jobs(&self) -> (result: Result<Action, ExecutionError>)
        ensures
            result matches Ok(Action::ListJobs(lines)) && texts(lines@)
                == self.job_manager@.map_values(|job: Job| job_line(job)),
    {
        let jobs = self.job_manager.get_jobs();
        let mut lines: Vec<String> = Vec::new();
        let mut i: usize = 0;
        while i < jobs.len()
            invariant
                i <= jobs.len(),
                texts(lines@) == jobs@.map_values(|job: Job| job_line(job)).take(i as int),
            decreases jobs.len() - i,
        {
            let line = jobs[i].to_string();
            proof {
                assert(texts(lines@.push(line)) =~= texts(lines@).push(line@));
                lemma_take_push(
                    jobs@.map_values(|job: Job| job_line(job)),
                    texts(lines@),
                    i as int,
                    line@,
                );
            }
            lines.push(line);
            i += 1;
        }
        assert(texts(lines@) =~= jobs@.map_values(|job: Job| job_line(job)));
        Ok(Action::ListJobs(lines))
    }

    fn builtin_fg(&mut self, command: &Command) -> (result: Result<Action, ExecutionError>)
        ensures
            builtin_effect(Builtin::Fg, command@.arguments, *old(self), result, *final(self)),
    {
        let index = match job_argument(&command.arguments, ExecutionError::FgFormat) {
            Ok(index) => index,
            Err(error) => {
                return Err(error);
            },
        };
        match self.job_manager.fg(index) {
            Some(job) => Ok(Action::Foreground(job)),
            None => Err(ExecutionError::JobNotFound),
        }
    }

    fn builtin_bg(&mut self, command: &Command) -> (result: Result<Action, ExecutionError>)
        ensures
            builtin_effect(Builtin::Bg, command@.arguments, *old(self), result, *final(self)),
    {
        let index = match job_argument(&command.arguments, ExecutionError::BgFormat) {
            Ok(index) => index,
            Err(error) => {
                return Err(error);
            },
        };
        match self.job_manager.bg(index) {
            Some(job) => Ok(Action::Background(job)),
            None => Err(ExecutionError::JobNotFound),
        }
    }

    /// Enters the process that was started for a [`SpawnRequest`] into the
    /// job table, as the current job.
    pub fn job_started(&mut self, gid: i32, pid: i32, command: String)
        requires
            old(self).job_manager@.len() < usize::MAX,
        ensures
            final(self).same_variables(*old(self)),
            final(self).job_manager@ == with_job_added(old(self).job_manager@, gid, pid, command),
            well_formed(final(self).job_manager@),
    {
        self.job_manager.add_job(gid, pid, command);
    }
}


/// A text without `$` expands to itself.
pub proof fn lemma_expand_plain(s: Seq<char>, vars: Map<Seq<char>, Seq<char>>)
    requires
        forall|i: int| 0 <= i < s.len() ==> #[trigger] s[i] != '$',
    ensures
        expand(s, vars) == s,
    decreases s.len(),
{
    if s.len() > 0 {
        assert(s[0] != '$');
        assert forall|i: int| 0 <= i < s.skip(1).len() implies #[trigger] s.skip(1)[i] != '$' by {
            assert(s.skip(1)[i] == s[i + 1]);
        }
        lemma_expand_plain(s.skip(1), vars);
        assert(seq![s[0]] + s.skip(1) =~= s);
    } else {
        assert(s =~= Seq::<char>::empty());
    }
}

/// `$NAME` stands for the value of `NAME`, and for nothing where `NAME` is
/// not bound; what follows the name is expanded on its own. `name` is a run
/// of letters, digits and `_` that is not empty, and `rest` does not go on
/// with such a character.
pub proof fn law_expand_variable(
    name: Seq<char>,
    rest: Seq<char>,
    vars: Map<Seq<char>, Seq<char>>,
)
    requires
        name.len() > 0,
        forall|i: int| 0 <= i < name.len() ==> is_name_char(#[trigger] name[i]),
        rest.len() == 0 || !is_name_char(rest[0]),
    ensures
        expand(seq!['$'] + name + rest, vars) == if vars.contains_key(name) {
            vars[name] + expand(rest, vars)
        } else {
            expand(rest, vars)
        },
{
    let s = seq!['$'] + name + rest;
    let t = s.skip(1);
    assert(t =~= name + rest);
    assert forall|i: int| 0 <= i < name.len() implies name_chars()(#[trigger] t[i]) by {
        assert(t[i] == name[i]);
    }
    if name.len() < t.len() {
        assert(t[name.len() as int] == rest[0]);
    }
    lemma_run_len_unique(t, name_chars(), name.len());
    assert(s.subrange(1, 1 + name.len() as int) =~= name);
    assert(s.skip(1 + name.len() as int) =~= rest);
    assert(Seq::<char>::empty() + expand(rest, vars) =~= expand(rest, vars));
}

/// A variable that `set` has bound reaches the next program that is started:
/// after `set NAME VALUE`, a command with the argument `$NAME` asks for a
/// process whose argument is `VALUE`. `NAME` is a run of letters, digits and
/// `_` that is not empty, `VALUE` holds no `$`, and `program` is not a
/// builtin.
pub proof fn law_set_variable_reaches_child(
    before: Executor,
    between: Executor,
    after: Executor,
    first: Result<Action, ExecutionError>,
    second: Result<Action, ExecutionError>,
    name: Seq<char>,
    value: Seq<char>,
    program: Seq<char>,
)
    requires
        name.len() > 0,
        forall|i: int| 0 <= i < name.len() ==> is_name_char(#[trigger] name[i]),
        forall|i: int| 0 <= i < value.len() ==> #[trigger] value[i] != '$',
        builtin_of(program) is None,
        command_effect("set"@, seq![name, value], before, first, between),
        command_effect(program, seq![seq!['$'] + name], between, second, after),
    ensures
        first matches Ok(Action::Nothing),
        between.variables@.contains_key(name),
        between.variables@[name] == value,
        second matches Ok(Action::Spawn(request)) && texts(request.arguments@) == seq![value],
{
    reveal_strlit("set");
    reveal_strlit("zako");
    reveal_strlit("cd");
    reveal_strlit("exit");
    assert("set"@.len() == 3 && "zako"@.len() == 4 && "cd"@.len() == 2 && "exit"@.len() == 4);
    assert(builtin_of("set"@) == Some(Builtin::SetVariable));
    assert forall|i: int| 0 <= i < name.len() implies #[trigger] name[i] != '$' by {
        assert(is_name_char(name[i]));
    }
    lemma_expand_plain(name, before.variables@);
    lemma_expand_plain(value, before.variables@);
    let written = seq![name, value];
    assert(expand_all(written, before.variables@) =~= written);
    assert(written[0] == name && written[1] == value);
    law_expand_variable(name, Seq::empty(), between.variables@);
    assert(seq!['$'] + name + Seq::<char>::empty() =~= seq!['$'] + name);
    lemma_expand_plain(Seq::empty(), between.variables@);
    assert(value + Seq::<char>::empty() =~= value);
    let reference = seq![seq!['$'] + name];
    assert(expand_all(reference, between.variables@) =~= seq![value]);
}

} // verus!
