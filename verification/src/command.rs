//! Commands of the host, and plans: lists of steps of which each needs the one before.
use vstd::prelude::*;
use vstd::string::*;
use crate::log::{log_step, Level, LogLine, LogView};
use crate::paths::{optional_path, shown, HostPath};
use crate::text::texts;

verus! {

/// A word of a command: text, or a path of the host.
#[derive(Debug)]
pub enum Arg {
    Text(String),
    Path(HostPath),
}

/// A word of a command: text, or a path of the host.
pub enum ArgView {
    Text(Seq<char>),
    Path(Seq<u8>),
}

impl View for Arg {
    type V = ArgView;

    open spec fn view(&self) -> ArgView {
        match *self {
            Arg::Text(s) => ArgView::Text(s@),
            Arg::Path(p) => ArgView::Path(p@),
        }
    }
}

/// The words that a list holds.
pub open spec fn arg_views(list: Seq<Arg>) -> Seq<ArgView> {
    list.map_values(|a: Arg| a@)
}

/// The variables that a list sets.
pub open spec fn env_views(list: Seq<(String, Arg)>) -> Seq<(Seq<char>, ArgView)> {
    list.map_values(|e: (String, Arg)| (e.0@, e.1@))
}

/// The variables that a list of texts sets.
pub open spec fn env_texts(list: Seq<(String, String)>) -> Seq<(Seq<char>, Seq<char>)> {
    list.map_values(|e: (String, String)| (e.0@, e.1@))
}

/// A command of the host.
#[derive(Debug)]
pub struct CommandLine {
    pub program: Arg,
    pub args: Vec<Arg>,
    /// The directory that it runs in, where that is not the present one.
    pub dir: Option<HostPath>,
    /// The variables that are set for it, in order: a later one wins.
    pub envs: Vec<(String, Arg)>,
    /// Whether it gets no input and its output is dropped.
    pub quiet: bool,
}

/// A command of the host.
pub struct CommandView {
    pub program: ArgView,
    pub args: Seq<ArgView>,
    pub dir: Option<Seq<u8>>,
    pub envs: Seq<(Seq<char>, ArgView)>,
    pub quiet: bool,
}

impl View for CommandLine {
    type V = CommandView;

    open spec fn view(&self) -> CommandView {
        CommandView {
            program: self.program@,
            args: arg_views(self.args@),
            dir: optional_path(self.dir),
            envs: env_views(self.envs@),
            quiet: self.quiet,
        }
    }
}

impl CommandView {
    /// A program without arguments.
    pub open spec fn of(program: ArgView) -> CommandView {
        CommandView { program, args: Seq::empty(), dir: None, envs: Seq::empty(), quiet: false }
    }

    /// The program that a text names, without arguments.
    pub open spec fn named(program: Seq<char>) -> CommandView {
        CommandView::of(ArgView::Text(program))
    }

    /// With one more argument.
    pub open spec fn with(self, arg: ArgView) -> CommandView {
        CommandView { args: self.args.push(arg), ..self }
    }

    /// With one more argument, a text.
    pub open spec fn arg(self, text: Seq<char>) -> CommandView {
        self.with(ArgView::Text(text))
    }

    /// With one more argument, a path.
    pub open spec fn path(self, path: Seq<u8>) -> CommandView {
        self.with(ArgView::Path(path))
    }

    /// With more arguments, all of them texts.
    pub open spec fn arg_all(self, list: Seq<Seq<char>>) -> CommandView {
        CommandView { args: self.args + list.map_values(|s: Seq<char>| ArgView::Text(s)), ..self }
    }

    /// With the directory that it runs in.
    pub open spec fn in_dir(self, dir: Seq<u8>) -> CommandView {
        CommandView { dir: Some(dir), ..self }
    }

    /// With one more variable.
    pub open spec fn env(self, key: Seq<char>, value: ArgView) -> CommandView {
        CommandView { envs: self.envs.push((key, value)), ..self }
    }

    /// With more variables.
    pub open spec fn env_all(self, list: Seq<(Seq<char>, Seq<char>)>) -> CommandView {
        CommandView {
            envs: self.envs + list.map_values(|e: (Seq<char>, Seq<char>)| (e.0, ArgView::Text(e.1))),
            ..self
        }
    }

    /// Without input and output.
    pub open spec fn silent(self) -> CommandView {
        CommandView { quiet: true, ..self }
    }
}

impl CommandLine {
    /// A program without arguments.
    pub fn of(program: Arg) -> (r: CommandLine)
        ensures
            r@ == CommandView::of(program@),
    {
        let r = CommandLine { program, args: Vec::new(), dir: None, envs: Vec::new(), quiet: false };
        assert(r@.args =~= Seq::empty() && r@.envs =~= Seq::empty());
        r
    }

    /// The program that a text names, without arguments.
    pub fn named(program: &str) -> (r: CommandLine)
        ensures
            r@ == CommandView::named(program@),
    {
        CommandLine::of(Arg::Text(program.to_string()))
    }

    /// With one more argument.
    pub fn with(self, arg: Arg) -> (r: CommandLine)
        ensures
            r@ == self@.with(arg@),
    {
        let mut r = self;
        r.args.push(arg);
        assert(r@.args =~= self@.args.push(arg@));
        r
    }

    /// With one more argument, a text.
    pub fn arg(self, text: &str) -> (r: CommandLine)
        ensures
            r@ == self@.arg(text@),
    {
        self.with(Arg::Text(text.to_string()))
    }

    /// With one more argument, a path.
    pub fn path(self, path: &HostPath) -> (r: CommandLine)
        ensures
            r@ == self@.path(path@),
    {
        self.with(Arg::Path(path.copy()))
    }

    /// With more arguments, all of them texts.
    pub fn arg_all(self, list: &Vec<String>) -> (r: CommandLine)
        ensures
            r@ == self@.arg_all(texts(list@)),
    {
        let mut r = self;
        let ghost start = self@.args;
        let ghost added = texts(list@).map_values(|s: Seq<char>| ArgView::Text(s));
        let mut i: usize = 0;
        assert(r@.args =~= start + added.take(0));
        while i < list.len()
            invariant
                i <= list.len(),
                start == self@.args,
                added == texts(list@).map_values(|s: Seq<char>| ArgView::Text(s)),
                r@ == (CommandView { args: start + added.take(i as int), ..self@ }),
            decreases list.len() - i,
        {
            r = r.arg(list[i].as_str());
            assert(added[i as int] == ArgView::Text(list@[i as int]@));
            i = i + 1;
            assert(r@.args =~= start + added.take(i as int));
        }
        assert(added.take(i as int) =~= added);
        r
    }

    /// With the directory that it runs in.
    pub fn in_dir(self, dir: &HostPath) -> (r: CommandLine)
        ensures
            r@ == self@.in_dir(dir@),
    {
        let mut r = self;
        r.dir = Some(dir.copy());
        r
    }

    /// With one more variable.
    pub fn env(self, key: &str, value: Arg) -> (r: CommandLine)
        ensures
            r@ == self@.env(key@, value@),
    {
        let mut r = self;
        r.envs.push((key.to_string(), value));
        assert(r@.envs =~= self@.envs.push((key@, value@)));
        r
    }

    /// With more variables.
    pub fn env_all(self, list: &Vec<(String, String)>) -> (r: CommandLine)
        ensures
            r@ == self@.env_all(env_texts(list@)),
    {
        let mut r = self;
        let ghost start = self@.envs;
        let ghost added = env_texts(list@).map_values(|e: (Seq<char>, Seq<char>)| (e.0, ArgView::Text(e.1)));
        let mut i: usize = 0;
        assert(r@.envs =~= start + added.take(0));
        while i < list.len()
            invariant
                i <= list.len(),
                start == self@.envs,
                added == env_texts(list@).map_values(|e: (Seq<char>, Seq<char>)| (e.0, ArgView::Text(e.1))),
                r@ == (CommandView { envs: start + added.take(i as int), ..self@ }),
            decreases list.len() - i,
        {
            r = r.env(list[i].0.as_str(), Arg::Text(list[i].1.clone()));
            assert(added[i as int] == (list@[i as int].0@, ArgView::Text(list@[i as int].1@)));
            i = i + 1;
            assert(r@.envs =~= start + added.take(i as int));
        }
        assert(added.take(i as int) =~= added);
        r
    }

    /// Without input and output.
    pub fn silent(self) -> (r: CommandLine)
        ensures
            r@ == self@.silent(),
    {
        let mut r = self;
        r.quiet = true;
        r
    }
}

/// The command that hands `command` to the shell in `dir`, with the variables `envs`.
pub open spec fn shell(command: Seq<char>, dir: Seq<u8>, envs: Seq<(Seq<char>, Seq<char>)>) -> CommandView {
    CommandView::named("sh"@).arg("-c"@).arg(command).in_dir(dir).env_all(envs)
}

/// The shell command that succeeds where `command` is on the path.
pub open spec fn lookup(command: Seq<char>) -> Seq<char> {
    "command -v "@ + command + " >/dev/null 2>&1"@
}

/// The command that hands `command` to the shell in `current_dir`, with the variables `envs`.
pub fn run_shell(command: &str, current_dir: &HostPath, envs: &Vec<(String, String)>) -> (r: CommandLine)
    ensures
        r@ == shell(command@, current_dir@, env_texts(envs@)),
{
    CommandLine::named("sh").arg("-c").arg(command).in_dir(current_dir).env_all(envs)
}

/// The shell command that succeeds where `command` is on the path.
fn lookup_command(command: &str) -> (r: String)
    ensures
        r@ == lookup(command@),
{
    "command -v ".to_string().concat(command).concat(" >/dev/null 2>&1")
}

/// The command that tells whether the host has `command`.
pub fn command_exists(project_root: &HostPath, command: &str) -> (r: CommandLine)
    ensures
        r@ == CommandView::named("sh"@).arg("-c"@).arg(lookup(command@)).in_dir(project_root@).silent(),
{
    CommandLine::named("sh").arg("-c").arg(lookup_command(command).as_str()).in_dir(project_root).silent()
}

/// A step of a plan.
#[derive(Debug)]
pub enum Step {
    /// Show a line of the log.
    Log(LogLine),
    /// Create a directory and those above it.
    CreateDirs(HostPath),
    /// Create the directories above a path.
    CreateParentDirs(HostPath),
    /// Copy a file.
    Copy { from: HostPath, to: HostPath },
    /// Copy a file into the cache; that this fails is only noted.
    Store { from: HostPath, to: HostPath },
    /// Write a file.
    Write { path: HostPath, contents: String },
    /// Remove a file.
    RemoveFile(HostPath),
    /// Get a file from the cache or from the network.
    Download(Download),
    /// Run a command.
    Run(RunStep),
    /// See to it that a path exists.
    Require { path: HostPath, failure: String },
}

/// A file to get.
#[derive(Debug)]
pub struct Download {
    pub url: String,
    pub cache_key: String,
    pub destination: HostPath,
    pub working_dir: HostPath,
}

/// A command to run.
#[derive(Debug)]
pub struct RunStep {
    pub command: CommandLine,
    /// What is removed once the command has ended, however it ended.
    pub cleanup: Option<HostPath>,
    /// The error where the command does not succeed.
    pub failure: String,
}

/// A step of a plan.
pub enum StepView {
    Log(LogView),
    CreateDirs(Seq<u8>),
    CreateParentDirs(Seq<u8>),
    Copy { from: Seq<u8>, to: Seq<u8> },
    Store { from: Seq<u8>, to: Seq<u8> },
    Write { path: Seq<u8>, contents: Seq<char> },
    RemoveFile(Seq<u8>),
    Download { url: Seq<char>, cache_key: Seq<char>, destination: Seq<u8>, working_dir: Seq<u8> },
    Run { command: CommandView, cleanup: Option<Seq<u8>>, failure: Seq<char> },
    Require { path: Seq<u8>, failure: Seq<char> },
}

impl View for Step {
    type V = StepView;

    open spec fn view(&self) -> StepView {
        match *self {
            Step::Log(line) => StepView::Log(line@),
            Step::CreateDirs(path) => StepView::CreateDirs(path@),
            Step::CreateParentDirs(path) => StepView::CreateParentDirs(path@),
            Step::Copy { from, to } => StepView::Copy { from: from@, to: to@ },
            Step::Store { from, to } => StepView::Store { from: from@, to: to@ },
            Step::Write { path, contents } => StepView::Write { path: path@, contents: contents@ },
            Step::RemoveFile(path) => StepView::RemoveFile(path@),
            Step::Download(d) => StepView::Download {
                url: d.url@,
                cache_key: d.cache_key@,
                destination: d.destination@,
                working_dir: d.working_dir@,
            },
            Step::Run(run) => StepView::Run {
                command: run.command@,
                cleanup: optional_path(run.cleanup),
                failure: run.failure@,
            },
            Step::Require { path, failure } => StepView::Require { path: path@, failure: failure@ },
        }
    }
}

/// A plan: steps of which each needs the one before.
#[derive(Debug)]
pub struct Plan {
    pub steps: Vec<Step>,
}

impl View for Plan {
    type V = Seq<StepView>;

    open spec fn view(&self) -> Seq<StepView> {
        self.steps@.map_values(|s: Step| s@)
    }
}

/// A line that tells what is done next.
pub open spec fn step_line(message: Seq<char>) -> StepView {
    StepView::Log(LogView { level: Level::Step, message })
}

/// A line with a note.
pub open spec fn info_line(message: Seq<char>) -> StepView {
    StepView::Log(LogView { level: Level::Info, message })
}

/// A line that tells what has succeeded.
pub open spec fn success_line(message: Seq<char>) -> StepView {
    StepView::Log(LogView { level: Level::Success, message })
}

/// The step that runs a command.
pub open spec fn run_step(command: CommandView, failure: Seq<char>) -> StepView {
    StepView::Run { command, cleanup: None, failure }
}

/// The step that runs a command and then removes a file.
pub open spec fn run_then_remove(command: CommandView, cleanup: Seq<u8>, failure: Seq<char>) -> StepView {
    StepView::Run { command, cleanup: Some(cleanup), failure }
}

/// The steps that write an executable script.
pub open spec fn script_steps(path: Seq<u8>, body: Seq<char>) -> Seq<StepView> {
    seq![
        StepView::Write { path, contents: body },
        run_step(
            CommandView::named("/bin/chmod"@).arg("+x"@).path(path),
            "failed to set executable permission for "@ + shown(path),
        ),
    ]
}

/// The steps that show a command and run it in the shell.
pub open spec fn required_steps(
    dir: Seq<u8>,
    envs: Seq<(Seq<char>, Seq<char>)>,
    command: Seq<char>,
    failure: Seq<char>,
) -> Seq<StepView> {
    seq![
        step_line(command),
        run_step(shell(command, dir, envs), failure),
    ]
}

/// The step that sees to it that `command` is on the isolated path.
pub open spec fn available_step(
    dir: Seq<u8>,
    envs: Seq<(Seq<char>, Seq<char>)>,
    command: Seq<char>,
    hint: Seq<char>,
) -> StepView {
    run_step(
        CommandView::named("sh"@).arg("-c"@).arg(lookup(command)).in_dir(dir).silent().env_all(envs),
        "required command '"@ + command + "' not found in isolated PATH ("@ + hint + ")"@,
    )
}

impl Plan {
    /// The plan without steps.
    pub fn new() -> (r: Plan)
        ensures
            r@ == Seq::<StepView>::empty(),
    {
        let r = Plan { steps: Vec::new() };
        assert(r@ =~= Seq::empty());
        r
    }

    /// Adds a step.
    pub fn push(&mut self, step: Step)
        ensures
            final(self)@ == old(self)@.push(step@),
    {
        let ghost before = self@;
        self.steps.push(step);
        assert(self@ =~= before.push(step@));
    }

    /// Adds the steps of another plan.
    pub fn append(&mut self, other: Plan)
        ensures
            final(self)@ == old(self)@ + other@,
    {
        let ghost before = self@;
        let mut more = other;
        self.steps.append(&mut more.steps);
        assert(self@ =~= before + other@);
    }

    /// Adds a line of the log.
    pub fn log(&mut self, line: LogLine)
        ensures
            final(self)@ == old(self)@.push(StepView::Log(line@)),
    {
        self.push(Step::Log(line));
    }

    /// Adds a command.
    pub fn run(&mut self, command: CommandLine, failure: &str)
        ensures
            final(self)@ == old(self)@.push(run_step(command@, failure@)),
    {
        self.push(Step::Run(RunStep { command, cleanup: None, failure: failure.to_string() }));
    }

    /// Adds a command after which a file is removed.
    pub fn run_then_remove(&mut self, command: CommandLine, cleanup: &HostPath, failure: &str)
        ensures
            final(self)@ == old(self)@.push(run_then_remove(command@, cleanup@, failure@)),
    {
        self.push(Step::Run(RunStep { command, cleanup: Some(cleanup.copy()), failure: failure.to_string() }));
    }

    /// Adds the demand that a path exists.
    pub fn require(&mut self, path: &HostPath, failure: &str)
        ensures
            final(self)@ == old(self)@.push(StepView::Require { path: path@, failure: failure@ }),
    {
        self.push(Step::Require { path: path.copy(), failure: failure.to_string() });
    }

    /// Adds the creation of a directory.
    pub fn create_dirs(&mut self, path: &HostPath)
        ensures
            final(self)@ == old(self)@.push(StepView::CreateDirs(path@)),
    {
        self.push(Step::CreateDirs(path.copy()));
    }
}

/// The steps that write an executable script.
pub fn write_executable_script(path: &HostPath, body: &str) -> (r: Plan)
    ensures
        r@ == script_steps(path@, body@),
{
    let mut plan = Plan::new();
    plan.push(Step::Write { path: path.copy(), contents: body.to_string() });
    plan.run(
        CommandLine::named("/bin/chmod").arg("+x").path(path),
        "failed to set executable permission for ".to_string().concat(path.display().as_str()).as_str(),
    );
    assert(plan@ =~= script_steps(path@, body@));
    plan
}

/// The steps that show a command and run it in the shell.
pub fn run_required(
    current_dir: &HostPath,
    envs: &Vec<(String, String)>,
    command: &str,
    fail_message: &str,
) -> (r: Plan)
    ensures
        r@ == required_steps(current_dir@, env_texts(envs@), command@, fail_message@),
{
    let mut plan = Plan::new();
    plan.log(log_step(command));
    plan.run(run_shell(command, current_dir, envs), fail_message);
    assert(plan@ =~= required_steps(current_dir@, env_texts(envs@), command@, fail_message@));
    plan
}

/// The step that sees to it that `command` is on the isolated path.
pub fn ensure_command_available(
    current_dir: &HostPath,
    envs: &Vec<(String, String)>,
    command: &str,
    hint: &str,
) -> (r: Step)
    ensures
        r@ == available_step(current_dir@, env_texts(envs@), command@, hint@),
{
    let line = CommandLine::named("sh").arg("-c").arg(lookup_command(command).as_str()).in_dir(
        current_dir,
    ).silent().env_all(envs);
    let failure = "required command '".to_string().concat(command).concat("' not found in isolated PATH (").concat(
        hint,
    ).concat(")");
    Step::Run(RunStep { command: line, cleanup: None, failure })
}

/// A command of the shell is handed to `sh` as one word, and runs in its directory with its environment.
pub proof fn law_shell_commands_are_one_word(
    command: Seq<char>,
    dir: Seq<u8>,
    envs: Seq<(Seq<char>, Seq<char>)>,
)
    ensures
        ({
            let run = shell(command, dir, envs);
            &&& run.program == ArgView::Text("sh"@)
            &&& run.args == seq![ArgView::Text("-c"@), ArgView::Text(command)]
            &&& run.dir == Some(dir)
            &&& run.envs.len() == envs.len()
            &&& forall|i: int|
                0 <= i < envs.len() ==> #[trigger] run.envs[i] == (envs[i].0, ArgView::Text(envs[i].1))
            &&& !run.quiet
        }),
{
    let run = shell(command, dir, envs);
    assert(run.args =~= seq![ArgView::Text("-c"@), ArgView::Text(command)]);
}

/// A command that must succeed is shown as it is, and run by the shell in its directory with its
/// environment; its failure is the message that is given.
pub proof fn law_required_commands_are_run_as_they_are(
    dir: Seq<u8>,
    envs: Seq<(Seq<char>, Seq<char>)>,
    command: Seq<char>,
    failure: Seq<char>,
)
    ensures
        ({
            let steps = required_steps(dir, envs, command, failure);
            &&& steps.len() == 2
            &&& steps[0] == StepView::Log(LogView { level: Level::Step, message: command })
            &&& steps[1] is Run && steps[1]->Run_failure == failure && steps[1]->Run_cleanup is None
            &&& steps[1]->Run_command.program == ArgView::Text("sh"@)
            &&& steps[1]->Run_command.args == seq![ArgView::Text("-c"@), ArgView::Text(command)]
            &&& steps[1]->Run_command.dir == Some(dir)
            &&& steps[1]->Run_command.envs.len() == envs.len()
            &&& forall|i: int|
                0 <= i < envs.len() ==> #[trigger] steps[1]->Run_command.envs[i] == (
                    envs[i].0,
                    ArgView::Text(envs[i].1),
                )
        }),
{
    law_shell_commands_are_one_word(command, dir, envs);
}

/// A script is written as it is and then made executable.
pub proof fn law_scripts_are_written_and_made_executable(path: Seq<u8>, body: Seq<char>)
    ensures
        ({
            let steps = script_steps(path, body);
            &&& steps.len() == 2
            &&& steps[0] == StepView::Write { path, contents: body }
            &&& steps[1] is Run && steps[1]->Run_command.program == ArgView::Text("/bin/chmod"@)
            &&& steps[1]->Run_command.args == seq![ArgView::Text("+x"@), ArgView::Path(path)]
        }),
{
    assert(script_steps(path, body)[1]->Run_command.args =~= seq![ArgView::Text("+x"@), ArgView::Path(path)]);
}

} // verus!
