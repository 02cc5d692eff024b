//! Installation of a project's dependencies by its package managers.
use vstd::prelude::*;
use vstd::string::*;
use crate::log::{log_step, Level, LogLine, LogView};
use crate::managers::PackageManagerSpec;
use crate::text::{optional_text, same, texts};

verus! {

/// The ecosystems in which dependencies are installed once only.
#[derive(Debug, Clone, Copy, PartialEq, Eq, Structural)]
pub enum Ecosystem {
    JavaScript,
    Python,
    Other,
}

/// What is to be done for the dependencies.
pub enum DependencyAction {
    /// Run a shell command in the payload; the failure is the error where it does not succeed.
    Install { ecosystem: Ecosystem, command: String, failure: String },
    /// Show a note.
    Note(String),
    /// Nothing is left to do.
    Finished,
    /// An installation has failed.
    Failed(String),
}

/// What is to be done for the dependencies.
pub enum ActionView {
    Install { ecosystem: Ecosystem, command: Seq<char>, failure: Seq<char> },
    Note(Seq<char>),
    Finished,
    Failed(Seq<char>),
}

impl View for DependencyAction {
    type V = ActionView;

    open spec fn view(&self) -> ActionView {
        match *self {
            DependencyAction::Install { ecosystem, command, failure } => ActionView::Install {
                ecosystem,
                command: command@,
                failure: failure@,
            },
            DependencyAction::Note(message) => ActionView::Note(message@),
            DependencyAction::Finished => ActionView::Finished,
            DependencyAction::Failed(e) => ActionView::Failed(e@),
        }
    }
}

/// An installation.
pub open spec fn install(ecosystem: Ecosystem, command: Seq<char>, failure: Seq<char>) -> ActionView {
    ActionView::Install { ecosystem, command, failure }
}

/// What a package manager does for a payload that holds the files `present` (of those in
/// [`watched_files`]): `js` and `py` tell whether the dependencies of JavaScript and Python are
/// installed.
pub open spec fn choice(
    manager: PackageManagerSpec,
    js: bool,
    py: bool,
    present: Seq<Seq<char>>,
) -> Option<ActionView> {
    let package = !js && present.contains("package.json"@);
    match manager {
        PackageManagerSpec::Npm => if package {
            Some(
                install(
                    Ecosystem::JavaScript,
                    if present.contains("package-lock.json"@) { "npm ci"@ } else { "npm install"@ },
                    "npm auto-install failed"@,
                ),
            )
        } else {
            None
        },
        PackageManagerSpec::Pnpm => if package {
            Some(
                install(
                    Ecosystem::JavaScript,
                    if present.contains("pnpm-lock.yaml"@) {
                        "pnpm install --frozen-lockfile"@
                    } else {
                        "pnpm install"@
                    },
                    "pnpm auto-install failed"@,
                ),
            )
        } else {
            None
        },
        PackageManagerSpec::Yarn => if package {
            Some(
                install(
                    Ecosystem::JavaScript,
                    if present.contains("yarn.lock"@) {
                        "yarn install --immutable || yarn install --frozen-lockfile || yarn install"@
                    } else {
                        "yarn install"@
                    },
                    "yarn auto-install failed"@,
                ),
            )
        } else {
            None
        },
        PackageManagerSpec::Bun => if package {
            Some(install(Ecosystem::JavaScript, "bun install"@, "bun auto-install failed"@))
        } else {
            None
        },
        PackageManagerSpec::Uv => if !py && present.contains("pyproject.toml"@) {
            Some(install(Ecosystem::Python, "uv sync"@, "uv sync failed"@))
        } else if !py && present.contains("requirements.txt"@) {
            Some(
                install(
                    Ecosystem::Python,
                    "uv pip install -r requirements.txt"@,
                    "uv requirements install failed"@,
                ),
            )
        } else {
            None
        },
        PackageManagerSpec::Pip => if !py && present.contains("requirements.txt"@) {
            Some(
                install(
                    Ecosystem::Python,
                    "pip install -r requirements.txt"@,
                    "pip requirements install failed"@,
                ),
            )
        } else if !py && present.contains("pyproject.toml"@) {
            Some(install(Ecosystem::Python, "pip install ."@, "pip project install failed"@))
        } else {
            None
        },
        PackageManagerSpec::Cargo => if present.contains("Cargo.toml"@) {
            Some(install(Ecosystem::Other, "cargo fetch"@, "cargo fetch failed"@))
        } else {
            None
        },
        PackageManagerSpec::Go => if present.contains("go.mod"@) {
            Some(install(Ecosystem::Other, "go mod download"@, "go mod download failed"@))
        } else {
            None
        },
        PackageManagerSpec::Deno => if present.contains("deno.json"@) || present.contains("deno.jsonc"@) {
            Some(
                ActionView::Note(
                    "Deno package manager is prepared. Add explicit deps.command if you need cache prefetch."@,
                ),
            )
        } else {
            None
        },
    }
}

/// The files in a payload that decide what is installed.
pub open spec fn watched() -> Seq<Seq<char>> {
    seq![
        "package.json"@,
        "package-lock.json"@,
        "pnpm-lock.yaml"@,
        "yarn.lock"@,
        "pyproject.toml"@,
        "requirements.txt"@,
        "Cargo.toml"@,
        "go.mod"@,
        "deno.json"@,
        "deno.jsonc"@,
    ]
}

/// The files in a payload that decide what is installed.
pub fn watched_files() -> (r: Vec<String>)
    ensures
        texts(r@) == watched(),
{
    let mut r: Vec<String> = Vec::new();
    r.push("package.json".to_string());
    r.push("package-lock.json".to_string());
    r.push("pnpm-lock.yaml".to_string());
    r.push("yarn.lock".to_string());
    r.push("pyproject.toml".to_string());
    r.push("requirements.txt".to_string());
    r.push("Cargo.toml".to_string());
    r.push("go.mod".to_string());
    r.push("deno.json".to_string());
    r.push("deno.jsonc".to_string());
    assert(texts(r@) =~= watched());
    r
}

/// What a package manager does depends on no file but those in [`watched_files`].
pub proof fn law_only_watched_files_count(
    manager: PackageManagerSpec,
    js: bool,
    py: bool,
    a: Seq<Seq<char>>,
    b: Seq<Seq<char>>,
)
    requires
        forall|i: int|
            0 <= i < watched().len() ==> a.contains(#[trigger] watched()[i]) == b.contains(watched()[i]),
    ensures
        choice(manager, js, py, a) == choice(manager, js, py, b),
{
    let w = watched();
    assert(w[0] == "package.json"@ && w[1] == "package-lock.json"@ && w[2] == "pnpm-lock.yaml"@);
    assert(w[3] == "yarn.lock"@ && w[4] == "pyproject.toml"@ && w[5] == "requirements.txt"@);
    assert(w[6] == "Cargo.toml"@ && w[7] == "go.mod"@ && w[8] == "deno.json"@ && w[9] == "deno.jsonc"@);
}

/// The installation of dependencies on its way through the package managers.
pub struct DependencyRun {
    pub managers: Vec<PackageManagerSpec>,
    pub next: usize,
    pub js_installed: bool,
    pub py_installed: bool,
    pub error: Option<String>,
}

/// The installation of dependencies on its way through the package managers.
pub struct DependencyView {
    pub managers: Seq<PackageManagerSpec>,
    pub next: int,
    pub js: bool,
    pub py: bool,
    pub error: Option<Seq<char>>,
}

/// What comes of a step: the files that the payload holds before it, and the error with which the
/// installation, where it is one, ended.
pub struct StepResult {
    pub present: Seq<Seq<char>>,
    pub ended: Option<Seq<char>>,
}

impl View for DependencyRun {
    type V = DependencyView;

    open spec fn view(&self) -> DependencyView {
        DependencyView {
            managers: self.managers@,
            next: self.next as int,
            js: self.js_installed,
            py: self.py_installed,
            error: optional_text(self.error),
        }
    }
}

impl DependencyView {
    /// The installation before its first package manager; there is none where it is not `enabled`.
    pub open spec fn start(managers: Seq<PackageManagerSpec>, enabled: bool) -> DependencyView {
        DependencyView {
            managers: if enabled { managers } else { Seq::empty() },
            next: 0,
            js: false,
            py: false,
            error: None,
        }
    }

    /// The next thing to do in a payload that holds the files `present`, and the installation after
    /// it was done: the package managers that have nothing to do are passed over, and all of them are
    /// once an installation has failed.
    pub open spec fn step(self, present: Seq<Seq<char>>) -> (DependencyView, ActionView)
        decreases self.managers.len() - self.next,
    {
        if self.error is Some {
            (self, ActionView::Failed(self.error->0))
        } else if self.next < 0 || self.next >= self.managers.len() {
            (self, ActionView::Finished)
        } else {
            let after = DependencyView { next: self.next + 1, ..self };
            match choice(self.managers[self.next], self.js, self.py, present) {
                None => after.step(present),
                Some(action) => match action {
                    ActionView::Install { ecosystem, .. } => (
                        DependencyView {
                            js: self.js || ecosystem == Ecosystem::JavaScript,
                            py: self.py || ecosystem == Ecosystem::Python,
                            ..after
                        },
                        action,
                    ),
                    _ => (after, action),
                },
            }
        }
    }

    /// The installation when a command has failed with an error.
    pub open spec fn failed(self, error: Seq<char>) -> DependencyView {
        DependencyView { error: Some(error), ..self }
    }

    /// The installation after a step and what came of it.
    pub open spec fn after(self, result: StepResult) -> DependencyView {
        let (after, action) = self.step(result.present);
        match result.ended {
            Some(error) if action is Install => after.failed(error),
            _ => after,
        }
    }

    /// What is done, step by step.
    pub open spec fn actions(self, results: Seq<StepResult>) -> Seq<ActionView>
        decreases results.len(),
    {
        if results.len() == 0 {
            Seq::empty()
        } else {
            seq![self.step(results[0].present).1] + self.after(results[0]).actions(results.skip(1))
        }
    }
}

/// Whether a list holds a text.
fn holds(list: &Vec<String>, text: &str) -> (r: bool)
    ensures
        r == texts(list@).contains(text@),
{
    let ghost all = texts(list@);
    let mut i: usize = 0;
    while i < list.len()
        invariant
            i <= list.len(),
            all == texts(list@),
            forall|j: int| 0 <= j < i ==> all[j] != text@,
        decreases list.len() - i,
    {
        assert(all[i as int] == list@[i as int]@);
        if same(list[i].as_str(), text) {
            return true;
        }
        i = i + 1;
    }
    false
}

/// An installation.
fn installation(ecosystem: Ecosystem, command: &str, failure: &str) -> (r: Option<DependencyAction>)
    ensures
        r matches Some(action) && action@ == install(ecosystem, command@, failure@),
{
    Some(DependencyAction::Install { ecosystem, command: command.to_string(), failure: failure.to_string() })
}

/// What a package manager does for a payload that holds the files `present`.
fn choose_action(manager: PackageManagerSpec, js: bool, py: bool, present: &Vec<String>) -> (r: Option<
    DependencyAction,
>)
    ensures
        match r {
            Some(action) => choice(manager, js, py, texts(present@)) == Some(action@),
            None => choice(manager, js, py, texts(present@)) is None,
        },
{
    let package = !js && holds(present, "package.json");
    match manager {
        PackageManagerSpec::Npm if package => {
            let command = if holds(present, "package-lock.json") { "npm ci" } else { "npm install" };
            installation(Ecosystem::JavaScript, command, "npm auto-install failed")
        },
        PackageManagerSpec::Pnpm if package => {
            let command = if holds(present, "pnpm-lock.yaml") {
                "pnpm install --frozen-lockfile"
            } else {
                "pnpm install"
            };
            installation(Ecosystem::JavaScript, command, "pnpm auto-install failed")
        },
        PackageManagerSpec::Yarn if package => {
            let command = if holds(present, "yarn.lock") {
                "yarn install --immutable || yarn install --frozen-lockfile || yarn install"
            } else {
                "yarn install"
            };
            installation(Ecosystem::JavaScript, command, "yarn auto-install failed")
        },
        PackageManagerSpec::Bun if package => installation(
            Ecosystem::JavaScript,
            "bun install",
            "bun auto-install failed",
        ),
        PackageManagerSpec::Uv if !py => {
            if holds(present, "pyproject.toml") {
                installation(Ecosystem::Python, "uv sync", "uv sync failed")
            } else if holds(present, "requirements.txt") {
                installation(
                    Ecosystem::Python,
                    "uv pip install -r requirements.txt",
                    "uv requirements install failed",
                )
            } else {
                None
            }
        },
        PackageManagerSpec::Pip if !py => {
            if holds(present, "requirements.txt") {
                installation(
                    Ecosystem::Python,
                    "pip install -r requirements.txt",
                    "pip requirements install failed",
                )
            } else if holds(present, "pyproject.toml") {
                installation(Ecosystem::Python, "pip install .", "pip project install failed")
            } else {
                None
            }
        },
        PackageManagerSpec::Cargo => {
            if holds(present, "Cargo.toml") {
                installation(Ecosystem::Other, "cargo fetch", "cargo fetch failed")
            } else {
                None
            }
        },
        PackageManagerSpec::Go => {
            if holds(present, "go.mod") {
                installation(Ecosystem::Other, "go mod download", "go mod download failed")
            } else {
                None
            }
        },
        PackageManagerSpec::Deno => {
            if holds(present, "deno.json") || holds(present, "deno.jsonc") {
                Some(
                    DependencyAction::Note(
                        "Deno package manager is prepared. Add explicit deps.command if you need cache prefetch."
                            .to_string(),
                    ),
                )
            } else {
                None
            }
        },
        _ => None,
    }
}

/// Starts the installation of dependencies; the line of the log, where there is one, announces it.
pub fn auto_install_dependencies(managers: &Vec<PackageManagerSpec>, enabled: bool) -> (r: (
    DependencyRun,
    Option<LogLine>,
))
    ensures
        r.0@ == DependencyView::start(managers@, enabled),
        r.1 is Some <==> enabled && managers@.len() > 0,
        r.1 matches Some(line) ==> line@ == (LogView {
            level: Level::Step,
            message: "Auto-installing dependencies"@,
        }),
{
    let list: Vec<PackageManagerSpec> = if enabled { managers.clone() } else { Vec::new() };
    assert(list@ =~= if enabled { managers@ } else { Seq::empty() });
    let line = if enabled && managers.len() > 0 {
        Some(log_step("Auto-installing dependencies"))
    } else {
        None
    };
    (DependencyRun { managers: list, next: 0, js_installed: false, py_installed: false, error: None }, line)
}

impl DependencyRun {
    /// The next thing to do in a payload that holds the files `present` of those in [`watched_files`].
    /// Where it is a command that fails, [`failed`](Self::failed) takes note of it.
    pub fn step(&mut self, present: &Vec<String>) -> (r: DependencyAction)
        ensures
            (final(self)@, r@) == old(self)@.step(texts(present@)),
    {
        if let Some(e) = &self.error {
            return DependencyAction::Failed(e.clone());
        }
        let ghost start = self@;
        let ghost files = texts(present@);
        while self.next < self.managers.len()
            invariant
                files == texts(present@),
                self@.error is None,
                self@.step(files) == start.step(files),
                start == old(self)@,
            decreases self.managers@.len() - self.next,
        {
            let manager = self.managers[self.next];
            let found = choose_action(manager, self.js_installed, self.py_installed, present);
            self.next = self.next + 1;
            match found {
                Some(action) => {
                    if let DependencyAction::Install { ecosystem, .. } = &action {
                        if *ecosystem == Ecosystem::JavaScript {
                            self.js_installed = true;
                        }
                        if *ecosystem == Ecosystem::Python {
                            self.py_installed = true;
                        }
                    }
                    return action;
                },
                None => {},
            }
        }
        DependencyAction::Finished
    }

    /// Notes that a command has failed with an error: nothing more is installed.
    pub fn failed(&mut self, error: String)
        ensures
            final(self)@ == old(self)@.failed(error@),
    {
        self.error = Some(error);
    }
}

/// How many of the actions install dependencies in an ecosystem.
pub open spec fn installs(actions: Seq<ActionView>, ecosystem: Ecosystem) -> int
    decreases actions.len(),
{
    if actions.len() == 0 {
        0
    } else {
        let rest = installs(actions.skip(1), ecosystem);
        match actions[0] {
            ActionView::Install { ecosystem: e, .. } if e == ecosystem => rest + 1,
            _ => rest,
        }
    }
}

/// A step installs nothing in an ecosystem that is installed, and remembers what it installs.
proof fn lemma_step_remembers(run: DependencyView, present: Seq<Seq<char>>)
    ensures
        run.js ==> run.step(present).0.js,
        run.py ==> run.step(present).0.py,
        run.step(present).1 matches ActionView::Install { ecosystem, .. } ==> {
            &&& ecosystem == Ecosystem::JavaScript ==> !run.js && run.step(present).0.js
            &&& ecosystem == Ecosystem::Python ==> !run.py && run.step(present).0.py
        },
    decreases run.managers.len() - run.next,
{
    if 0 <= run.next < run.managers.len() {
        if choice(run.managers[run.next], run.js, run.py, present) is None {
            lemma_step_remembers(DependencyView { next: run.next + 1, ..run }, present);
        }
    }
}

/// The dependencies of JavaScript are installed at most once, and so are those of Python, whichever
/// package managers there are and however the files of the payload change on the way.
pub proof fn law_ecosystems_install_once(run: DependencyView, results: Seq<StepResult>)
    ensures
        installs(run.actions(results), Ecosystem::JavaScript) <= (if run.js { 0int } else { 1int }),
        installs(run.actions(results), Ecosystem::Python) <= (if run.py { 0int } else { 1int }),
    decreases results.len(),
{
    if results.len() > 0 {
        let after = run.after(results[0]);
        lemma_step_remembers(run, results[0].present);
        law_ecosystems_install_once(after, results.skip(1));
        let all = run.actions(results);
        assert(all[0] == run.step(results[0].present).1);
        assert(all.skip(1) =~= after.actions(results.skip(1)));
    }
}

/// There is one action for each step.
proof fn lemma_one_action_a_step(run: DependencyView, results: Seq<StepResult>)
    ensures
        run.actions(results).len() == results.len(),
    decreases results.len(),
{
    if results.len() > 0 {
        lemma_one_action_a_step(run.after(results[0]), results.skip(1));
    }
}

/// An installation that has failed stays so: no command is run and no note is shown after it.
pub proof fn law_installation_stops_at_a_failure(run: DependencyView, results: Seq<StepResult>)
    requires
        run.error is Some,
    ensures
        run.actions(results).len() == results.len(),
        forall|i: int|
            0 <= i < results.len() ==> #[trigger] run.actions(results)[i] == ActionView::Failed(run.error->0),
    decreases results.len(),
{
    if results.len() > 0 {
        let rest = results.skip(1);
        law_installation_stops_at_a_failure(run, rest);
        assert(run.after(results[0]) == run);
        assert forall|i: int| 0 <= i < results.len() implies #[trigger] run.actions(results)[i]
            == ActionView::Failed(run.error->0) by {
            if i > 0 {
                assert(run.actions(results)[i] == run.actions(rest)[i - 1]);
            }
        }
    }
}

/// A command is run, and the installation finishes, only when all commands before have succeeded;
/// what follows a command that fails is its error.
pub proof fn law_commands_need_those_before(run: DependencyView, results: Seq<StepResult>, i: int, j: int)
    requires
        0 <= i < j < results.len(),
        run.actions(results)[i] is Install,
    ensures
        results[i].ended matches Some(error) ==> run.actions(results)[j] == ActionView::Failed(error),
        run.actions(results)[j] is Install || run.actions(results)[j] is Finished ==> results[i].ended is None,
    decreases results.len(),
{
    let rest = results.skip(1);
    let after = run.after(results[0]);
    lemma_one_action_a_step(after, rest);
    assert(run.actions(results) == seq![run.step(results[0].present).1] + after.actions(rest));
    assert(run.actions(results)[j] == after.actions(rest)[j - 1]);
    assert(rest[j - 1] == results[j]);
    if i == 0 {
        if results[0].ended is Some {
            law_installation_stops_at_a_failure(after, rest);
        }
    } else {
        assert(run.actions(results)[i] == after.actions(rest)[i - 1]);
        assert(rest[i - 1] == results[i]);
        law_commands_need_those_before(after, rest, i - 1, j - 1);
    }
}

/// Without the flag nothing is installed.
pub proof fn law_disabled_installs_nothing(managers: Seq<PackageManagerSpec>, present: Seq<Seq<char>>)
    ensures
        DependencyView::start(managers, false).step(present).1 == ActionView::Finished,
{
}

/// When a package manager installs dependencies, and how: those of JavaScript where there is a
/// `package.json`, once; those of Python where there is a `pyproject.toml` or a `requirements.txt`, once;
/// Cargo and Go where their file is there, and Deno never, which only leaves a note. A lock file of its
/// own makes npm, pnpm and yarn keep to it; uv prefers the project to the requirements and pip the other
/// way round.
pub proof fn law_dependencies_are_installed_where_they_are_named(
    manager: PackageManagerSpec,
    js: bool,
    py: bool,
    present: Seq<Seq<char>>,
)
    ensures
        ({
            let done = choice(manager, js, py, present);
            let package = present.contains("package.json"@);
            let project = present.contains("pyproject.toml"@);
            let list = present.contains("requirements.txt"@);
            let command = done->0->Install_command;
            match manager {
                PackageManagerSpec::Npm => (done is Some <==> !js && package) && (done is Some ==> installs_for(
                    done,
                    Ecosystem::JavaScript,
                ) && command == if present.contains("package-lock.json"@) { "npm ci"@ } else { "npm install"@ }),
                PackageManagerSpec::Pnpm => (done is Some <==> !js && package) && (done is Some ==> installs_for(
                    done,
                    Ecosystem::JavaScript,
                ) && command == if present.contains("pnpm-lock.yaml"@) {
                    "pnpm install --frozen-lockfile"@
                } else {
                    "pnpm install"@
                }),
                PackageManagerSpec::Yarn => (done is Some <==> !js && package) && (done is Some ==> installs_for(
                    done,
                    Ecosystem::JavaScript,
                ) && command == if present.contains("yarn.lock"@) {
                    "yarn install --immutable || yarn install --frozen-lockfile || yarn install"@
                } else {
                    "yarn install"@
                }),
                PackageManagerSpec::Bun => (done is Some <==> !js && package) && (done is Some ==> installs_for(
                    done,
                    Ecosystem::JavaScript,
                ) && command == "bun install"@),
                PackageManagerSpec::Uv => (done is Some <==> !py && (project || list)) && (done is Some
                    ==> installs_for(done, Ecosystem::Python) && command == if project {
                    "uv sync"@
                } else {
                    "uv pip install -r requirements.txt"@
                }),
                PackageManagerSpec::Pip => (done is Some <==> !py && (project || list)) && (done is Some
                    ==> installs_for(done, Ecosystem::Python) && command == if list {
                    "pip install -r requirements.txt"@
                } else {
                    "pip install ."@
                }),
                PackageManagerSpec::Cargo => (done is Some <==> present.contains("Cargo.toml"@)) && (done is Some
                    ==> installs_for(done, Ecosystem::Other) && command == "cargo fetch"@),
                PackageManagerSpec::Go => (done is Some <==> present.contains("go.mod"@)) && (done is Some
                    ==> installs_for(done, Ecosystem::Other) && command == "go mod download"@),
                PackageManagerSpec::Deno => (done is Some <==> present.contains("deno.json"@) || present.contains(
                    "deno.jsonc"@,
                )) && (done is Some ==> done->0 is Note),
            }
        }),
{
}

/// Whether something is installed in an ecosystem.
pub open spec fn installs_for(done: Option<ActionView>, ecosystem: Ecosystem) -> bool {
    done is Some && done->0 is Install && done->0->Install_ecosystem == ecosystem
}

/// Dependencies are installed by the package managers in their order, each at most once and none left
/// out: a step does what the first package manager has to do that has anything to do, and goes on behind
/// it; it finishes when none has.
pub proof fn law_managers_install_in_order(run: DependencyView, present: Seq<Seq<char>>)
    requires
        run.error is None,
        0 <= run.next <= run.managers.len(),
    ensures
        ({
            let (after, action) = run.step(present);
            &&& after.managers == run.managers && after.error is None
            &&& run.next <= after.next <= run.managers.len()
            &&& action is Finished ==> after.next == run.managers.len()
            &&& action is Finished <==> forall|i: int|
                run.next <= i < run.managers.len() ==> choice(
                    #[trigger] run.managers[i],
                    run.js,
                    run.py,
                    present,
                ) is None
            &&& !(action is Finished) ==> {
                &&& run.next < after.next
                &&& choice(run.managers[after.next - 1], run.js, run.py, present) == Some(action)
                &&& forall|i: int|
                    run.next <= i < after.next - 1 ==> choice(
                        #[trigger] run.managers[i],
                        run.js,
                        run.py,
                        present,
                    ) is None
                &&& after.js == (run.js || installs_for(Some(action), Ecosystem::JavaScript))
                &&& after.py == (run.py || installs_for(Some(action), Ecosystem::Python))
            }
        }),
    decreases run.managers.len() - run.next,
{
    if run.next < run.managers.len() {
        let rest = DependencyView { next: run.next + 1, ..run };
        if choice(run.managers[run.next], run.js, run.py, present) is None {
            law_managers_install_in_order(rest, present);
            let (after, action) = run.step(present);
            assert(run.step(present) == rest.step(present));
            if action is Finished {
                assert forall|i: int| run.next <= i < run.managers.len() implies choice(
                    #[trigger] run.managers[i],
                    run.js,
                    run.py,
                    present,
                ) is None by {
                    if i > run.next {
                        assert(rest.managers[i] == run.managers[i]);
                    }
                }
            } else {
                let k = choose|k: int|
                    rest.next <= k < rest.managers.len() && choice(
                        #[trigger] rest.managers[k],
                        rest.js,
                        rest.py,
                        present,
                    ) is Some;
                assert(run.managers[k] == rest.managers[k]);
            }
            if !(action is Finished) {
                assert forall|i: int| run.next <= i < after.next - 1 implies choice(
                    #[trigger] run.managers[i],
                    run.js,
                    run.py,
                    present,
                ) is None by {
                    if i > run.next {
                        assert(rest.managers[i] == run.managers[i]);
                    }
                }
            }
        } else {
            assert(choice(run.managers[run.next], run.js, run.py, present) is Some);
            lemma_choice_never_ends(run.managers[run.next], run.js, run.py, present);
        }
    }
}

/// What a package manager does is an installation or a note.
proof fn lemma_choice_never_ends(manager: PackageManagerSpec, js: bool, py: bool, present: Seq<Seq<char>>)
    ensures
        choice(manager, js, py, present) matches Some(action) ==> action is Install || action is Note,
{
}

/// The installation goes through all package managers of the recipe where it asks for that, and through
/// none where it does not; nothing is installed before it begins.
pub proof fn law_installation_begins_as_asked(managers: Seq<PackageManagerSpec>, enabled: bool)
    ensures
        ({
            let start = DependencyView::start(managers, enabled);
            &&& enabled ==> start.managers == managers
            &&& !enabled ==> start.managers.len() == 0
            &&& start.next == 0 && !start.js && !start.py && start.error is None
        }),
{
}

/// An installation that fails says which package manager failed, and what Deno leaves is a hint.
pub proof fn law_failures_name_the_package_manager(
    manager: PackageManagerSpec,
    js: bool,
    py: bool,
    present: Seq<Seq<char>>,
)
    requires
        choice(manager, js, py, present) is Some,
    ensures
        ({
            let done = choice(manager, js, py, present)->0;
            let failure = done->Install_failure;
            match manager {
                PackageManagerSpec::Npm => failure == "npm auto-install failed"@,
                PackageManagerSpec::Pnpm => failure == "pnpm auto-install failed"@,
                PackageManagerSpec::Yarn => failure == "yarn auto-install failed"@,
                PackageManagerSpec::Bun => failure == "bun auto-install failed"@,
                PackageManagerSpec::Uv => failure == if present.contains("pyproject.toml"@) {
                    "uv sync failed"@
                } else {
                    "uv requirements install failed"@
                },
                PackageManagerSpec::Pip => failure == if present.contains("requirements.txt"@) {
                    "pip requirements install failed"@
                } else {
                    "pip project install failed"@
                },
                PackageManagerSpec::Cargo => failure == "cargo fetch failed"@,
                PackageManagerSpec::Go => failure == "go mod download failed"@,
                PackageManagerSpec::Deno => done == ActionView::Note(
                    "Deno package manager is prepared. Add explicit deps.command if you need cache prefetch."@,
                ),
            }
        }),
{
}

} // verus!
