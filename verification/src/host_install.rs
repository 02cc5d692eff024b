//! The way through the packages that a recipe wants on the host.
use vstd::prelude::*;
use vstd::string::*;
use crate::command::ArgView;
use crate::host_packages::{
    ensure_manager_available, host_binary, host_manager_name, install_steps, manager_binary, request_views,
    unavailable, update_steps, HostPackageManager, HostPackageRequest, RequestView,
};
use crate::log::{log_info, log_step, Level, LogLine, LogView};
use crate::recipe::{flag_or, SystemPackagesConfig};
use crate::text::optional_text;

verus! {

/// Where the work on the package at hand stands.
#[derive(Debug, Clone, Copy, PartialEq, Eq, Structural)]
pub enum HostStage {
    /// Its package manager is looked for.
    Manager,
    /// It is looked up whether it is installed.
    Installed,
    /// Its package manager updates what it knows.
    Update,
    /// It is installed.
    Install,
}

/// What is to be done next, with the package at this index of the list.
#[derive(Debug)]
pub enum HostAction {
    /// See whether the package manager is there.
    FindManager(HostPackageManager),
    /// See whether the package is installed.
    FindPackage(usize),
    /// Let the package manager update what it knows.
    Update(HostPackageManager),
    /// Install the package.
    Install(usize),
    /// Nothing: all packages are dealt with.
    Finished,
    /// Nothing: the work failed, with this error.
    Failed(String),
}

/// What is to be done next, with the package at this index of the list.
pub enum HostActionView {
    FindManager(HostPackageManager),
    FindPackage(int),
    Update(HostPackageManager),
    Install(int),
    Finished,
    Failed(Seq<char>),
}

impl View for HostAction {
    type V = HostActionView;

    open spec fn view(&self) -> HostActionView {
        match *self {
            HostAction::FindManager(m) => HostActionView::FindManager(m),
            HostAction::FindPackage(i) => HostActionView::FindPackage(i as int),
            HostAction::Update(m) => HostActionView::Update(m),
            HostAction::Install(i) => HostActionView::Install(i as int),
            HostAction::Finished => HostActionView::Finished,
            HostAction::Failed(e) => HostActionView::Failed(e@),
        }
    }
}

/// The work on the packages that are wanted on the host.
pub struct HostRun {
    pub requests: Vec<HostPackageRequest>,
    pub use_sudo: bool,
    pub update: bool,
    pub missing_only: bool,
    pub next: usize,
    pub stage: HostStage,
    /// The package managers that have updated what they know.
    pub updated: Vec<HostPackageManager>,
    pub error: Option<String>,
}

/// The work on the packages that are wanted on the host.
pub struct HostRunView {
    pub requests: Seq<RequestView>,
    pub use_sudo: bool,
    pub update: bool,
    pub missing_only: bool,
    pub next: int,
    pub stage: HostStage,
    pub updated: Seq<HostPackageManager>,
    pub error: Option<Seq<char>>,
}

impl View for HostRun {
    type V = HostRunView;

    open spec fn view(&self) -> HostRunView {
        HostRunView {
            requests: request_views(self.requests@),
            use_sudo: self.use_sudo,
            update: self.update,
            missing_only: self.missing_only,
            next: self.next as int,
            stage: self.stage,
            updated: self.updated@,
            error: optional_text(self.error),
        }
    }
}

/// Whether `[system_packages]` asks for installation.
pub open spec fn wants_install(config: Option<&SystemPackagesConfig>) -> bool {
    config is Some && flag_or(config->0.auto_install, false)
}

impl HostRunView {
    /// The work before the first package; there is none where `[system_packages]` does not ask for
    /// installation.
    pub open spec fn start(requests: Seq<RequestView>, config: Option<&SystemPackagesConfig>) -> HostRunView {
        HostRunView {
            requests: if wants_install(config) { requests } else { Seq::empty() },
            use_sudo: config is Some && flag_or(config->0.use_sudo, false),
            update: config is Some && flag_or(config->0.update, false),
            missing_only: config is Some ==> flag_or(config->0.missing_only, true),
            next: 0,
            stage: HostStage::Manager,
            updated: Seq::empty(),
            error: None,
        }
    }

    /// What the work keeps to: a package manager updates only where that is asked for and not done,
    /// and where it is asked for, it is done before anything is installed.
    pub open spec fn valid(self) -> bool {
        &&& 0 <= self.next <= self.requests.len()
        &&& self.next < self.requests.len() && self.stage == HostStage::Update ==> self.update
            && !self.updated.contains(self.requests[self.next].manager)
        &&& self.next < self.requests.len() && self.stage == HostStage::Install && self.update
            ==> self.updated.contains(self.requests[self.next].manager)
        &&& self.next < self.requests.len() && self.stage == HostStage::Installed ==> self.missing_only
    }

    /// Whether nothing is left to do.
    pub open spec fn over(self) -> bool {
        self.error is Some || self.next >= self.requests.len()
    }

    /// What is to be done next.
    pub open spec fn action(self) -> HostActionView {
        if self.error is Some {
            HostActionView::Failed(self.error->0)
        } else if self.next >= self.requests.len() {
            HostActionView::Finished
        } else {
            match self.stage {
                HostStage::Manager => HostActionView::FindManager(self.requests[self.next].manager),
                HostStage::Installed => HostActionView::FindPackage(self.next),
                HostStage::Update => HostActionView::Update(self.requests[self.next].manager),
                HostStage::Install => HostActionView::Install(self.next),
            }
        }
    }

    /// The work when the package at hand is to be installed.
    pub open spec fn to_install(self) -> HostRunView {
        if self.update && !self.updated.contains(self.requests[self.next].manager) {
            HostRunView { stage: HostStage::Update, ..self }
        } else {
            HostRunView { stage: HostStage::Install, ..self }
        }
    }

    /// The work when the package at hand is dealt with.
    pub open spec fn to_next(self) -> HostRunView {
        HostRunView { stage: HostStage::Manager, next: self.next + 1, ..self }
    }

    /// The work after what was to be done: `yes` tells whether what was looked for is there, or
    /// whether the command succeeded.
    pub open spec fn after(self, yes: bool) -> HostRunView {
        let manager = self.requests[self.next].manager;
        if self.over() {
            self
        } else {
            match self.stage {
                HostStage::Manager => if !yes {
                    HostRunView { error: Some(unavailable(manager)), ..self }
                } else if self.missing_only {
                    HostRunView { stage: HostStage::Installed, ..self }
                } else {
                    self.to_install()
                },
                HostStage::Installed => if yes {
                    self.to_next()
                } else {
                    self.to_install()
                },
                HostStage::Update => if yes {
                    HostRunView { stage: HostStage::Install, updated: self.updated.push(manager), ..self }
                } else {
                    HostRunView { error: Some(host_binary(manager) + " "@ + "update failed"@), ..self }
                },
                HostStage::Install => if yes {
                    self.to_next()
                } else {
                    HostRunView { error: Some(host_binary(manager) + " "@ + "install failed"@), ..self }
                },
            }
        }
    }

    /// The note on a package that is installed already.
    pub open spec fn note(self, yes: bool) -> Option<LogView> {
        if !self.over() && self.stage == HostStage::Installed && yes {
            let request = self.requests[self.next];
            Some(
                LogView {
                    level: Level::Info,
                    message: "System package already installed: "@ + host_manager_name(request.manager) + ":"@
                        + request.package,
                },
            )
        } else {
            None
        }
    }

    /// The work after a number of answers.
    pub open spec fn after_all(self, answers: Seq<bool>) -> HostRunView
        decreases answers.len(),
    {
        if answers.len() == 0 {
            self
        } else {
            self.after_all(answers.drop_last()).after(answers.last())
        }
    }
}

/// The line that announces the work, where there are packages.
pub open spec fn announcement(requests: Seq<RequestView>, config: Option<&SystemPackagesConfig>) -> Option<LogView> {
    if requests.len() == 0 {
        None
    } else if wants_install(config) {
        Some(LogView { level: Level::Step, message: "Installing host system packages"@ })
    } else {
        Some(
            LogView {
                level: Level::Info,
                message: "System packages are configured but auto_install is false. Skipping."@,
            },
        )
    }
}

/// The view of an optional line of the log.
pub open spec fn optional_line(line: Option<LogLine>) -> Option<LogView> {
    match line {
        Some(l) => Some(l@),
        None => None,
    }
}

/// Starts the work on the packages that are wanted on the host; the line of the log, where there is
/// one, announces it.
pub fn ensure_system_packages_installed(
    config: Option<&SystemPackagesConfig>,
    requests: Vec<HostPackageRequest>,
) -> (r: (HostRun, Option<LogLine>))
    ensures
        r.0@ == HostRunView::start(request_views(requests@), config),
        r.0@.valid(),
        optional_line(r.1) == announcement(request_views(requests@), config),
{
    let (enabled, use_sudo, update, missing_only) = match config {
        Some(config) => (
            config.auto_install.unwrap_or(false),
            config.use_sudo.unwrap_or(false),
            config.update.unwrap_or(false),
            config.missing_only.unwrap_or(true),
        ),
        None => (false, false, false, true),
    };
    let line = if requests.len() == 0 {
        None
    } else if enabled {
        Some(log_step("Installing host system packages"))
    } else {
        Some(log_info("System packages are configured but auto_install is false. Skipping."))
    };
    let wanted: Vec<HostPackageRequest> = if enabled { requests } else { Vec::new() };
    assert(!enabled ==> request_views(wanted@) =~= Seq::empty());
    let run = HostRun {
        requests: wanted,
        use_sudo,
        update,
        missing_only,
        next: 0,
        stage: HostStage::Manager,
        updated: Vec::new(),
        error: None,
    };
    assert(run@.updated =~= Seq::empty());
    (run, line)
}

/// Whether a list holds a package manager.
fn holds(list: &Vec<HostPackageManager>, manager: HostPackageManager) -> (r: bool)
    ensures
        r == list@.contains(manager),
{
    let mut i: usize = 0;
    while i < list.len()
        invariant
            i <= list.len(),
            forall|j: int| 0 <= j < i ==> list@[j] != manager,
        decreases list.len() - i,
    {
        if list[i] == manager {
            assert(list@[i as int] == manager);
            return true;
        }
        i = i + 1;
    }
    false
}

impl HostRun {
    /// What is to be done next.
    pub fn action(&self) -> (r: HostAction)
        ensures
            r@ == self@.action(),
    {
        if let Some(error) = &self.error {
            return HostAction::Failed(error.clone());
        }
        if self.next >= self.requests.len() {
            return HostAction::Finished;
        }
        let manager = self.requests[self.next].manager;
        assert(self@.requests[self@.next].manager == manager);
        match self.stage {
            HostStage::Manager => HostAction::FindManager(manager),
            HostStage::Installed => HostAction::FindPackage(self.next),
            HostStage::Update => HostAction::Update(manager),
            HostStage::Install => HostAction::Install(self.next),
        }
    }

    /// Goes on to the installation of the package at hand.
    fn to_install(&mut self)
        requires
            old(self)@.next < old(self)@.requests.len(),
        ensures
            final(self)@ == old(self)@.to_install(),
    {
        let manager = self.requests[self.next].manager;
        assert(self@.requests[self@.next].manager == manager);
        if self.update && !holds(&self.updated, manager) {
            self.stage = HostStage::Update;
        } else {
            self.stage = HostStage::Install;
        }
    }

    /// Goes on to the next package.
    fn to_next(&mut self)
        requires
            old(self)@.next < old(self)@.requests.len(),
        ensures
            final(self)@ == old(self)@.to_next(),
    {
        let n: usize = self.requests.len();
        assert(self.next < n);
        self.next = self.next + 1;
        self.stage = HostStage::Manager;
    }

    /// Goes on after what was to be done: `yes` tells whether what was looked for is there, or
    /// whether the command succeeded. Gives the note on a package that is installed already.
    pub fn advance(&mut self, yes: bool) -> (r: Option<LogLine>)
        requires
            old(self)@.valid(),
        ensures
            final(self)@ == old(self)@.after(yes),
            final(self)@.valid(),
            optional_line(r) == old(self)@.note(yes),
    {
        if self.error.is_some() || self.next >= self.requests.len() {
            return None;
        }
        let ghost before = self@;
        let manager = self.requests[self.next].manager;
        assert(self@.requests[self@.next].manager == manager);
        let mut note: Option<LogLine> = None;
        match self.stage {
            HostStage::Manager => {
                if let Err(error) = ensure_manager_available(manager, yes) {
                    self.error = Some(error);
                } else if self.missing_only {
                    self.stage = HostStage::Installed;
                } else {
                    self.to_install();
                }
            },
            HostStage::Installed => {
                if yes {
                    let message = "System package already installed: ".to_string().concat(
                        manager.name(),
                    ).concat(":").concat(self.requests[self.next].package.as_str());
                    note = Some(log_info(message.as_str()));
                    self.to_next();
                } else {
                    self.to_install();
                }
            },
            HostStage::Update => {
                if yes {
                    self.updated.push(manager);
                    self.stage = HostStage::Install;
                    assert(self.updated@.last() == manager);
                    assert(self.updated@.contains(manager));
                } else {
                    self.error = Some(manager_binary(manager).to_string().concat(" ").concat("update failed"));
                }
            },
            HostStage::Install => {
                if yes {
                    self.to_next();
                } else {
                    self.error = Some(manager_binary(manager).to_string().concat(" ").concat("install failed"));
                }
            },
        }
        note
    }
}

/// What the work keeps to, it keeps to on all its way; the packages and the options do not change.
pub proof fn law_host_run_stays_valid(
    requests: Seq<RequestView>,
    config: Option<&SystemPackagesConfig>,
    answers: Seq<bool>,
)
    ensures
        HostRunView::start(requests, config).after_all(answers).valid(),
        HostRunView::start(requests, config).after_all(answers).requests == HostRunView::start(
            requests,
            config,
        ).requests,
        HostRunView::start(requests, config).after_all(answers).update == HostRunView::start(
            requests,
            config,
        ).update,
        HostRunView::start(requests, config).after_all(answers).missing_only == HostRunView::start(
            requests,
            config,
        ).missing_only,
    decreases answers.len(),
{
    if answers.len() > 0 {
        law_host_run_stays_valid(requests, config, answers.drop_last());
        let before = HostRunView::start(requests, config).after_all(answers.drop_last());
        let after = before.after(answers.last());
        if after.updated.len() > before.updated.len() {
            assert(after.updated.last() == before.requests[before.next].manager);
            assert(after.updated.contains(before.requests[before.next].manager));
        }
    }
}

/// What is done at the answer with index `i`.
pub open spec fn action_at(run: HostRunView, answers: Seq<bool>, i: int) -> HostActionView {
    run.after_all(answers.take(i)).action()
}

/// Where an update failed or was done, it is not done again.
proof fn lemma_update_is_remembered(
    requests: Seq<RequestView>,
    config: Option<&SystemPackagesConfig>,
    answers: Seq<bool>,
    i: int,
    j: int,
)
    requires
        0 <= i < j <= answers.len(),
        action_at(HostRunView::start(requests, config), answers, i) is Update,
    ensures
        ({
            let run = HostRunView::start(requests, config).after_all(answers.take(j));
            let manager = action_at(HostRunView::start(requests, config), answers, i)->Update_0;
            run.error is Some || run.updated.contains(manager)
        }),
    decreases j,
{
    let start = HostRunView::start(requests, config);
    let manager = action_at(start, answers, i)->Update_0;
    assert(answers.take(j).drop_last() =~= answers.take(j - 1));
    let before = start.after_all(answers.take(j - 1));
    let after = start.after_all(answers.take(j));
    assert(after == before.after(answers[j - 1]));
    if i == j - 1 {
        if after.error is None {
            assert(after.updated.last() == manager);
            assert(after.updated.contains(manager));
        }
    } else {
        lemma_update_is_remembered(requests, config, answers, i, j - 1);
        if before.error is None {
            let k = choose|k: int| 0 <= k < before.updated.len() && before.updated[k] == manager;
            assert(after.updated[k] == manager);
            assert(after.updated.contains(manager));
        }
    }
}

/// A package manager updates what it knows at most once, however many of its packages are wanted and
/// whatever the answers are.
pub proof fn law_updates_once(
    requests: Seq<RequestView>,
    config: Option<&SystemPackagesConfig>,
    answers: Seq<bool>,
    i: int,
    j: int,
)
    requires
        0 <= i < j <= answers.len(),
        action_at(HostRunView::start(requests, config), answers, i) is Update,
        action_at(HostRunView::start(requests, config), answers, j) is Update,
    ensures
        action_at(HostRunView::start(requests, config), answers, i) != action_at(
            HostRunView::start(requests, config),
            answers,
            j,
        ),
{
    lemma_update_is_remembered(requests, config, answers, i, j);
    law_host_run_stays_valid(requests, config, answers.take(j));
}

/// With `update`, a package is installed only when its package manager has updated what it knows.
pub proof fn law_update_precedes_install(
    requests: Seq<RequestView>,
    config: Option<&SystemPackagesConfig>,
    answers: Seq<bool>,
)
    requires
        HostRunView::start(requests, config).after_all(answers).action() is Install,
    ensures
        HostRunView::start(requests, config).update ==> HostRunView::start(requests, config).after_all(
            answers,
        ).updated.contains(
            requests[HostRunView::start(requests, config).after_all(answers).next].manager,
        ),
{
    law_host_run_stays_valid(requests, config, answers);
}

/// With `missing_only`, a package that is installed is passed over: when it is found, the work goes
/// on with the next package.
pub proof fn law_installed_packages_are_skipped(run: HostRunView)
    requires
        run.valid(),
        run.action() is FindPackage,
    ensures
        run.missing_only,
        run.after(true).next == run.next + 1,
        run.after(true).stage == HostStage::Manager,
        run.after(true).updated == run.updated,
{
}

/// Whether the package at index `i` was found installed, or was installed.
pub open spec fn dealt_with(run: HostRunView, answers: Seq<bool>, i: int) -> bool {
    exists|j: int|
        0 <= j < answers.len() && answers[j] && ((#[trigger] action_at(run, answers, j))
            == HostActionView::FindPackage(i) || action_at(run, answers, j) == HostActionView::Install(i))
}

/// The packages before the one at hand are dealt with.
proof fn lemma_dealt_with(requests: Seq<RequestView>, config: Option<&SystemPackagesConfig>, answers: Seq<bool>, i: int)
    requires
        0 <= i < HostRunView::start(requests, config).after_all(answers).next,
    ensures
        dealt_with(HostRunView::start(requests, config), answers, i),
    decreases answers.len(),
{
    let start = HostRunView::start(requests, config);
    if answers.len() > 0 {
        let front = answers.drop_last();
        let n = answers.len() - 1;
        let before = start.after_all(front);
        assert(answers.take(n) =~= front);
        if i < before.next {
            lemma_dealt_with(requests, config, front, i);
            let j = choose|j: int|
                0 <= j < front.len() && front[j] && ((#[trigger] action_at(start, front, j))
                    == HostActionView::FindPackage(i) || action_at(start, front, j) == HostActionView::Install(i));
            assert(front.take(j) =~= answers.take(j));
            assert(action_at(start, answers, j) == action_at(start, front, j));
            assert(answers[j] == front[j]);
        } else {
            assert(action_at(start, answers, n) == before.action());
        }
    }
}

/// A run that ends well has dealt with every package: each was found installed, or was installed.
pub proof fn law_every_package_is_dealt_with(
    requests: Seq<RequestView>,
    config: Option<&SystemPackagesConfig>,
    answers: Seq<bool>,
    i: int,
)
    requires
        wants_install(config),
        HostRunView::start(requests, config).after_all(answers).action() == HostActionView::Finished,
        0 <= i < requests.len(),
    ensures
        dealt_with(HostRunView::start(requests, config), answers, i),
{
    law_host_run_stays_valid(requests, config, answers);
    lemma_dealt_with(requests, config, answers, i);
}

/// Where `[system_packages]` does not ask for installation, nothing is done on the host.
pub proof fn law_no_install_unless_asked(requests: Seq<RequestView>, config: Option<&SystemPackagesConfig>)
    requires
        !wants_install(config),
    ensures
        HostRunView::start(requests, config).action() == HostActionView::Finished,
{
}

/// Where the package manager of a package is not there, the work fails, with an error that names it.
pub proof fn law_missing_manager_is_an_error(run: HostRunView)
    requires
        !run.over(),
        run.action() is FindManager,
    ensures
        run.after(false).action() == HostActionView::Failed(unavailable(run.requests[run.next].manager)),
{
}

/// The options of `[system_packages]` are what the recipe says, on all the way of the work: `use_sudo`
/// and `update` only where it says `true`, `missing_only` unless it says `false`.
pub proof fn law_options_are_those_of_the_recipe(
    requests: Seq<RequestView>,
    config: Option<&SystemPackagesConfig>,
    answers: Seq<bool>,
)
    ensures
        ({
            let run = HostRunView::start(requests, config).after_all(answers);
            &&& run.use_sudo <==> config is Some && config->0.use_sudo == Some(true)
            &&& run.update <==> config is Some && config->0.update == Some(true)
            &&& run.missing_only <==> !(config is Some && config->0.missing_only == Some(false))
            &&& run.requests == (if config is Some && config->0.auto_install == Some(true) {
                requests
            } else {
                Seq::empty()
            })
        }),
    decreases answers.len(),
{
    if answers.len() > 0 {
        law_options_are_those_of_the_recipe(requests, config, answers.drop_last());
    }
}

/// With `use_sudo` every update and every installation is run by `sudo`, and without it by the package
/// manager itself: `answers` lead to the action at hand.
pub proof fn law_commands_use_sudo_as_the_recipe_says(
    root: Seq<u8>,
    requests: Seq<RequestView>,
    config: Option<&SystemPackagesConfig>,
    answers: Seq<bool>,
)
    ensures
        ({
            let run = HostRunView::start(requests, config).after_all(answers);
            let sudo = config is Some && config->0.use_sudo == Some(true);
            &&& run.action() matches HostActionView::Update(manager) ==> {
                let command = update_steps(root, manager, run.use_sudo)[1]->Run_command;
                &&& (command.program == ArgView::Text("sudo"@)) == sudo
                &&& sudo ==> command.args[0] == ArgView::Text(program_of(manager))
                &&& !sudo ==> command.program == ArgView::Text(program_of(manager))
            }
            &&& run.action() matches HostActionView::Install(i) ==> {
                let command = install_steps(root, run.requests[i], run.use_sudo)[1]->Run_command;
                &&& (command.program == ArgView::Text("sudo"@)) == sudo
                &&& sudo ==> command.args[0] == ArgView::Text(program_of(run.requests[i].manager))
                &&& !sudo ==> command.program == ArgView::Text(program_of(run.requests[i].manager))
            }
        }),
{
    law_options_are_those_of_the_recipe(requests, config, answers);
    reveal_strlit("sudo");
    reveal_strlit("brew");
    reveal_strlit("apt-get");
    reveal_strlit("pacman");
    assert("sudo"@[0] != "brew"@[0]);
}

/// The program of a package manager.
pub open spec fn program_of(manager: HostPackageManager) -> Seq<char> {
    match manager {
        HostPackageManager::Brew => "brew"@,
        HostPackageManager::Apt => "apt-get"@,
        HostPackageManager::Pacman => "pacman"@,
    }
}

/// Every package is looked at in the order of the recipe: first its package manager is looked for; with
/// `missing_only` the package is then looked for, and installed only where it is not there; without it,
/// it is installed in any case. With `update` the package manager updates first, unless it has.
pub proof fn law_packages_are_dealt_with_step_by_step(run: HostRunView)
    requires
        run.valid(),
        !run.over(),
    ensures
        ({
            let manager = run.requests[run.next].manager;
            let fresh = run.update && !run.updated.contains(manager);
            let install = if fresh { HostActionView::Update(manager) } else { HostActionView::Install(run.next) };
            &&& run.action() is FindManager ==> run.after(true).action() == (if run.missing_only {
                HostActionView::FindPackage(run.next)
            } else {
                install
            })
            &&& run.action() is FindPackage ==> run.after(false).action() == install
            &&& run.action() is Update ==> run.after(true).action() == HostActionView::Install(run.next)
                && run.after(true).updated.contains(manager)
            &&& run.action() is FindPackage || run.action() is Install ==> {
                &&& run.after(true).next == run.next + 1
                &&& run.after(true).error is None
                &&& run.after(true).action() == (if run.next + 1 < run.requests.len() {
                    HostActionView::FindManager(run.requests[run.next + 1].manager)
                } else {
                    HostActionView::Finished
                })
            }
            &&& run.action() is Update ==> run.after(false).action() == HostActionView::Failed(
                program_of(manager) + " "@ + "update failed"@,
            )
            &&& run.action() is Install ==> run.after(false).action() == HostActionView::Failed(
                program_of(manager) + " "@ + "install failed"@,
            )
            &&& run.action() is FindManager ==> run.after(false).action() is Failed
            &&& forall|yes: bool|
                (#[trigger] run.after(yes)).requests == run.requests && run.after(yes).next >= run.next
        }),
{
    let manager = run.requests[run.next].manager;
    if run.action() is Update {
        assert(run.after(true).updated.last() == manager);
        assert(run.after(true).updated.contains(manager));
    }
}

/// The work begins with the package manager of the first package.
pub proof fn law_work_begins_with_the_first_package(
    requests: Seq<RequestView>,
    config: Option<&SystemPackagesConfig>,
)
    requires
        config is Some && config->0.auto_install == Some(true),
        requests.len() > 0,
    ensures
        HostRunView::start(requests, config).action() == HostActionView::FindManager(requests[0].manager),
        HostRunView::start(requests, config).updated.len() == 0,
{
}

/// The work is announced where there are packages: as an installation only where the recipe asks for it.
pub proof fn law_work_is_announced(requests: Seq<RequestView>, config: Option<&SystemPackagesConfig>)
    ensures
        announcement(requests, config) is None <==> requests.len() == 0,
        announcement(requests, config) matches Some(line) ==> (line.level == Level::Step <==> config is Some
            && config->0.auto_install == Some(true)),
{
}

/// What is said of the work on the host: that a package is installed already, with its package manager and
/// its name, and only where it was found; and that a package manager is not there.
pub proof fn law_work_is_told_in_its_words(run: HostRunView, yes: bool)
    requires
        !run.over(),
        0 <= run.next,
    ensures
        ({
            let request = run.requests[run.next];
            let name = match request.manager {
                HostPackageManager::Brew => "brew"@,
                HostPackageManager::Apt => "apt"@,
                HostPackageManager::Pacman => "pacman"@,
            };
            &&& run.note(yes) == (if run.action() is FindPackage && yes {
                Some(
                    LogView {
                        level: Level::Info,
                        message: "System package already installed: "@ + name + ":"@ + request.package,
                    },
                )
            } else {
                None
            })
            &&& run.action() is FindManager ==> run.after(false).action() == HostActionView::Failed(
                "system package manager '"@ + name + "' is not available on this host"@,
            )
        }),
{
}

} // verus!
