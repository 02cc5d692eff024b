//! The course of a build and of a run: phases of which each needs the one before.
use vstd::prelude::*;
use vstd::string::*;
use crate::archive::{
    law_archives_are_unpacked_whole, law_payloads_are_packed_whole, law_run_finds_the_tools,
    law_tools_stay_in_the_archive, manifest_of, pack, pack_steps, run_bins, runtime_bin_paths, tool_path, tool_paths,
    unpack, unpack_steps,
};
use crate::command::{env_texts, run_shell, run_step, shell, step_line, ArgView, Plan, Step, StepView};
use crate::extensions::{
    all_readable, extension_plan_from_manifest, law_manifest_keeps_the_run, law_manifest_lists_are_read,
    law_scripts_succeed_together, manifest_plan, none_reads_as_dot, run_extensions, ExtensionEvent, ExtensionPlan,
    ExtensionRun, ExtensionRunView, ExtensionView, ScriptResult,
};
use crate::isolation::{
    blocked, blocking_steps, law_blocked_commands_fail, law_path_stays_in_the_payload, path_entries,
    prepare_runtime_shims,
};
use crate::log::{log_step, log_success, Level, LogLine, LogView};
use crate::managers::{
    ensure_package_managers, law_every_manager_is_made_ready, manager_steps, preparation, runs_shell,
    PackageManagerSpec,
};
use crate::packaging::{hook_steps, law_hooks_run_their_command, run_hook, BuildPlan, BuildView};
use crate::paths::{
    inside, joined, law_tools_dir_is_relative, path_views, pm_bin, same_path, shown, stays_below, tools_dir, within,
    HostPath,
};
use crate::provision::{
    bin_dir, bin_dirs, law_runtimes_stay_in_the_payload, lemma_bin_dir_is_relative, lemma_listed_dirs,
};
use crate::recipe::{ManifestView, TortiaManifest};
use crate::runtime::RuntimeView;
use crate::text::{optional_text, texts, trim, trimmed};

verus! {

/// A phase of a build or of a run.
#[derive(Debug, Clone, Copy, PartialEq, Eq, Structural)]
pub enum Phase {
    /// Make the directory for the archive.
    ArchiveDir,
    /// Install packages on the host.
    SystemPackages,
    /// Make the directory of the payload.
    Stage,
    /// Copy the project's files into the payload.
    Bundle,
    /// Install the runtimes into the payload.
    Runtimes,
    /// Block the commands of the other runtimes.
    Shims,
    /// Look up the isolated environment.
    Environment,
    /// Prepare the package managers.
    Managers,
    /// Run the extension scripts of a moment.
    Extensions(ExtensionEvent),
    /// Install the dependencies.
    Dependencies,
    /// Run `[deps].command`.
    DepsHook,
    /// Run `[build].command`.
    BuildHook,
    /// Write the manifest.
    Manifest,
    /// Pack the payload.
    Pack,
    /// Unpack the archive.
    Unpack,
    /// Read the manifest.
    ReadManifest,
    /// Run the command of the manifest.
    Main,
}

/// The phases of a build.
pub open spec fn build_phases() -> Seq<Phase> {
    seq![
        Phase::ArchiveDir,
        Phase::SystemPackages,
        Phase::Stage,
        Phase::Bundle,
        Phase::Runtimes,
        Phase::Shims,
        Phase::Environment,
        Phase::Managers,
        Phase::Environment,
        Phase::Extensions(ExtensionEvent::BeforeDeps),
        Phase::Dependencies,
        Phase::Extensions(ExtensionEvent::AfterDeps),
        Phase::DepsHook,
        Phase::Extensions(ExtensionEvent::BeforeBuild),
        Phase::BuildHook,
        Phase::Extensions(ExtensionEvent::AfterBuild),
        Phase::Manifest,
        Phase::Pack,
    ]
}

/// The phases of a run.
pub open spec fn run_phases() -> Seq<Phase> {
    seq![
        Phase::Unpack,
        Phase::ReadManifest,
        Phase::Environment,
        Phase::Extensions(ExtensionEvent::BeforeRun),
        Phase::Main,
        Phase::Extensions(ExtensionEvent::AfterRun),
    ]
}

/// Phases on their way.
pub struct Course {
    pub phases: Vec<Phase>,
    pub next: usize,
    pub error: Option<String>,
}

/// Phases on their way.
pub struct CourseView {
    pub phases: Seq<Phase>,
    pub next: int,
    pub error: Option<Seq<char>>,
}

impl View for Course {
    type V = CourseView;

    open spec fn view(&self) -> CourseView {
        CourseView { phases: self.phases@, next: self.next as int, error: optional_text(self.error) }
    }
}

impl CourseView {
    /// Phases before the first.
    pub open spec fn start(phases: Seq<Phase>) -> CourseView {
        CourseView { phases, next: 0, error: None }
    }

    /// The phase at hand, where neither all are done nor one has failed.
    pub open spec fn phase(self) -> Option<Phase> {
        if self.error is None && 0 <= self.next < self.phases.len() {
            Some(self.phases[self.next])
        } else {
            None
        }
    }

    /// The phases when the one at hand has succeeded, or failed with an error.
    pub open spec fn after(self, error: Option<Seq<char>>) -> CourseView {
        if self.phase() is None {
            self
        } else if error is Some {
            CourseView { error, ..self }
        } else {
            CourseView { next: self.next + 1, ..self }
        }
    }

    /// The phases after a number of results.
    pub open spec fn after_all(self, errors: Seq<Option<Seq<char>>>) -> CourseView
        decreases errors.len(),
    {
        if errors.len() == 0 {
            self
        } else {
            self.after_all(errors.drop_last()).after(errors.last())
        }
    }
}

/// The course of a build.
pub fn build_course() -> (r: Course)
    ensures
        r@ == CourseView::start(build_phases()),
{
    let phases: Vec<Phase> = vec![
        Phase::ArchiveDir,
        Phase::SystemPackages,
        Phase::Stage,
        Phase::Bundle,
        Phase::Runtimes,
        Phase::Shims,
        Phase::Environment,
        Phase::Managers,
        Phase::Environment,
        Phase::Extensions(ExtensionEvent::BeforeDeps),
        Phase::Dependencies,
        Phase::Extensions(ExtensionEvent::AfterDeps),
        Phase::DepsHook,
        Phase::Extensions(ExtensionEvent::BeforeBuild),
        Phase::BuildHook,
        Phase::Extensions(ExtensionEvent::AfterBuild),
        Phase::Manifest,
        Phase::Pack,
    ];
    assert(phases@ =~= build_phases());
    Course { phases, next: 0, error: None }
}

/// The course of a run.
pub fn run_course() -> (r: Course)
    ensures
        r@ == CourseView::start(run_phases()),
{
    let phases: Vec<Phase> = vec![
        Phase::Unpack,
        Phase::ReadManifest,
        Phase::Environment,
        Phase::Extensions(ExtensionEvent::BeforeRun),
        Phase::Main,
        Phase::Extensions(ExtensionEvent::AfterRun),
    ];
    assert(phases@ =~= run_phases());
    Course { phases, next: 0, error: None }
}

impl Course {
    /// The phase at hand, where neither all are done nor one has failed.
    pub fn phase(&self) -> (r: Option<Phase>)
        ensures
            r == self@.phase(),
    {
        if self.error.is_none() && self.next < self.phases.len() {
            Some(self.phases[self.next])
        } else {
            None
        }
    }

    /// Notes that the phase at hand has succeeded, or failed with an error.
    pub fn advance(&mut self, error: Option<String>)
        ensures
            final(self)@ == old(self)@.after(optional_text(error)),
    {
        if self.phase().is_some() {
            if error.is_some() {
                self.error = error;
            } else {
                let n: usize = self.phases.len();
                assert(self.next < n);
                self.next = self.next + 1;
            }
        }
    }

    /// How the course ended, or stands.
    pub fn outcome(&self) -> (r: Result<(), String>)
        ensures
            match r {
                Ok(_) => self@.error is None,
                Err(e) => self@.error == Some(e@),
            },
    {
        match &self.error {
            Some(e) => Err(e.clone()),
            None => Ok(()),
        }
    }
}

/// The line that opens a phase, where it has one.
pub open spec fn opening(phase: Phase, name: Seq<char>) -> Option<LogView> {
    match phase {
        Phase::Stage => Some(LogView { level: Level::Step, message: "Preparing stage for "@ + name }),
        Phase::Bundle => Some(LogView { level: Level::Step, message: "Copying bundle files"@ }),
        Phase::Runtimes => Some(LogView { level: Level::Step, message: "Provisioning isolated runtimes"@ }),
        _ => None,
    }
}

/// The line that opens a phase of the build of the project `name`, where it has one.
pub fn opening_line(phase: Phase, name: &str) -> (r: Option<LogLine>)
    ensures
        r is Some <==> opening(phase, name@) is Some,
        r matches Some(line) ==> opening(phase, name@) == Some(line@),
{
    match phase {
        Phase::Stage => Some(log_step("Preparing stage for ".to_string().concat(name).as_str())),
        Phase::Bundle => Some(log_step("Copying bundle files")),
        Phase::Runtimes => Some(log_step("Provisioning isolated runtimes")),
        _ => None,
    }
}

/// A phase that fails is the last: nothing that comes after it is begun.
pub proof fn law_course_stops_at_a_failure(course: CourseView, errors: Seq<Option<Seq<char>>>)
    requires
        course.error is Some,
    ensures
        course.after_all(errors) == course,
    decreases errors.len(),
{
    if errors.len() > 0 {
        law_course_stops_at_a_failure(course, errors.drop_last());
    }
}

/// Phases are begun in their order, and only when all before them have succeeded.
pub proof fn law_phases_in_order(phases: Seq<Phase>, errors: Seq<Option<Seq<char>>>)
    ensures
        ({
            let course = CourseView::start(phases).after_all(errors);
            &&& 0 <= course.next <= phases.len()
            &&& course.phases == phases
            &&& course.next <= errors.len()
            &&& course.phase() is Some ==> course.next == errors.len()
            &&& forall|i: int| 0 <= i < course.next ==> (#[trigger] errors[i]) is None
            &&& course.error is Some ==> course.next < errors.len() && course.error == errors[course.next]
        }),
    decreases errors.len(),
{
    if errors.len() > 0 {
        let front = errors.drop_last();
        law_phases_in_order(phases, front);
        let before = CourseView::start(phases).after_all(front);
        let course = CourseView::start(phases).after_all(errors);
        assert(course == before.after(errors.last()));
        assert forall|i: int| 0 <= i < course.next implies (#[trigger] errors[i]) is None by {
            if i < before.next {
                assert(front[i] == errors[i]);
            }
        }
        if before.error is Some {
            assert(front[before.next] == errors[before.next]);
        }
    }
}

/// An archive is packed only by a build of which everything before has succeeded: the hooks, the
/// scripts and the manifest are behind it.
pub proof fn law_only_whole_builds_are_packed(errors: Seq<Option<Seq<char>>>)
    requires
        CourseView::start(build_phases()).after_all(errors).phase() == Some(Phase::Pack),
    ensures
        errors.len() == build_phases().len() - 1,
        forall|i: int| 0 <= i < errors.len() ==> (#[trigger] errors[i]) is None,
{
    law_phases_in_order(build_phases(), errors);
    let course = CourseView::start(build_phases()).after_all(errors);
    let all = build_phases();
    assert(all[course.next] == Phase::Pack);
    assert(course.next == 17);
}

/// The directory of the payload in the temporary directory of a build.
pub fn payload_dir(temp: &HostPath) -> (r: HostPath)
    ensures
        r@ == within(temp@, "payload"@),
{
    temp.join("payload")
}

/// The steps of a phase of a build, where they are known when it begins: in the payload `stage`, whose
/// tools directory is named `tools`, with the isolated environment `envs`; `present` tells whether
/// there is an archive in the place of the one to come.
pub open spec fn build_phase_steps(
    phase: Phase,
    build: BuildView,
    stage: Seq<u8>,
    tools: Seq<char>,
    envs: Seq<(Seq<char>, Seq<char>)>,
    present: bool,
) -> Option<Seq<StepView>> {
    match phase {
        Phase::ArchiveDir => Some(seq![StepView::CreateParentDirs(build.archive)]),
        Phase::Stage => Some(seq![StepView::CreateDirs(stage)]),
        Phase::Shims => Some(blocking_steps(stage, tools, build.runtimes)),
        Phase::Managers => Some(manager_steps(stage, tools, build.managers, envs)),
        Phase::DepsHook => Some(hook_steps(stage, "deps"@, build.deps, envs)),
        Phase::BuildHook => Some(hook_steps(stage, "build"@, build.build, envs)),
        Phase::Pack => Some(pack_steps(stage, build.archive, present)),
        _ => None,
    }
}

/// The plan of a phase of a build, where it is known when the phase begins.
pub fn build_phase_plan(
    phase: Phase,
    build: &BuildPlan,
    stage_root: &HostPath,
    tools: &str,
    envs: &Vec<(String, String)>,
    present: bool,
) -> (r: Option<Plan>)
    ensures
        match build_phase_steps(phase, build@, stage_root@, tools@, env_texts(envs@), present) {
            Some(steps) => r matches Some(plan) && plan@ == steps,
            None => r is None,
        },
{
    match phase {
        Phase::ArchiveDir => {
            let mut plan = Plan::new();
            plan.push(Step::CreateParentDirs(build.archive.copy()));
            assert(plan@ =~= seq![StepView::CreateParentDirs(build@.archive)]);
            Some(plan)
        },
        Phase::Stage => {
            let mut plan = Plan::new();
            plan.create_dirs(stage_root);
            assert(plan@ =~= seq![StepView::CreateDirs(stage_root@)]);
            Some(plan)
        },
        Phase::Shims => Some(prepare_runtime_shims(stage_root, tools, &build.runtimes)),
        Phase::Managers => Some(ensure_package_managers(stage_root, tools, &build.managers, envs)),
        Phase::DepsHook => Some(run_hook(stage_root, "deps", &build.deps, envs)),
        Phase::BuildHook => Some(run_hook(stage_root, "build", &build.build, envs)),
        Phase::Pack => Some(pack(stage_root, &build.archive, present)),
        _ => None,
    }
}

/// The scripts of a phase of a build before the first, where it runs scripts: they are looked for in
/// the project and run in the payload.
pub open spec fn build_scripts(
    phase: Phase,
    project: Seq<u8>,
    stage: Seq<u8>,
    plan: ExtensionView,
) -> Option<ExtensionRunView> {
    match phase {
        Phase::Extensions(event) => Some(ExtensionRunView::start(project, stage, plan, event)),
        _ => None,
    }
}

/// Starts the scripts of a phase of a build, where it runs scripts.
pub fn build_phase_scripts<'a>(
    phase: Phase,
    project_root: &HostPath,
    stage_root: &HostPath,
    plan: &'a ExtensionPlan,
) -> (r: Option<ExtensionRun<'a>>)
    ensures
        match build_scripts(phase, project_root@, stage_root@, plan@) {
            Some(scripts) => r matches Some(run) && run@ == scripts,
            None => r is None,
        },
{
    match phase {
        Phase::Extensions(event) => Some(run_extensions(project_root, stage_root, plan, event)),
        _ => None,
    }
}

/// An archive is packed only when every script of the build was found and has succeeded: `results` are
/// those of the scripts of the phase with the index `k`.
pub proof fn law_packed_builds_ran_their_scripts(
    errors: Seq<Option<Seq<char>>>,
    k: int,
    project: Seq<u8>,
    stage: Seq<u8>,
    plan: ExtensionView,
    results: Seq<ScriptResult>,
)
    requires
        CourseView::start(build_phases()).after_all(errors).phase() == Some(Phase::Pack),
        0 <= k < errors.len(),
        build_scripts(build_phases()[k], project, stage, plan) matches Some(scripts) && scripts.after_all(
            results,
        ).over() && errors[k] == scripts.after_all(results).error,
    ensures
        build_scripts(build_phases()[k], project, stage, plan)->0.all_succeed(results),
{
    law_only_whole_builds_are_packed(errors);
    law_scripts_succeed_together(build_scripts(build_phases()[k], project, stage, plan)->0, results);
}

/// What is needed to run an unpacked archive.
pub struct RunPlan {
    /// The directories of the commands of the runtimes.
    pub bins: Vec<HostPath>,
    pub extensions: ExtensionPlan,
}

/// What is needed to run an unpacked archive.
pub struct RunView {
    pub bins: Seq<Seq<u8>>,
    pub extensions: ExtensionView,
}

impl View for RunPlan {
    type V = RunView;

    open spec fn view(&self) -> RunView {
        RunView { bins: path_views(self.bins@), extensions: self.extensions@ }
    }
}

/// What is needed to run the unpacked archive `root`, or what is wrong with its manifest.
pub open spec fn run_of(root: Seq<u8>, manifest: ManifestView) -> Result<RunView, Seq<char>> {
    if trimmed(manifest.run_command).len() == 0 {
        Err("Invalid manifest: run_command is empty"@)
    } else {
        match manifest_plan(
            manifest.extension_dirs,
            manifest.before_run_extensions,
            manifest.after_run_extensions,
        ) {
            Ok(extensions) => Ok(RunView { bins: run_bins(root, manifest.tool_bin_paths), extensions }),
            Err(e) => Err(e),
        }
    }
}

/// What is needed to run the unpacked archive `root`, or what is wrong with its manifest. Of several
/// errors the first counts, in this order: the command, the extensions.
pub fn run_package(root: &HostPath, manifest: &TortiaManifest) -> (r: Result<RunPlan, String>)
    ensures
        trimmed(manifest.run_command@).len() == 0 ==> (r matches Err(e) && e@
            == "Invalid manifest: run_command is empty"@),
        trimmed(manifest.run_command@).len() > 0 ==> match manifest_plan(
            texts(manifest.extension_dirs@),
            texts(manifest.before_run_extensions@),
            texts(manifest.after_run_extensions@),
        ) {
            Ok(extensions) => r matches Ok(plan) && plan.extensions@ == extensions && extensions.valid()
                && path_views(plan.bins@) == run_bins(root@, texts(manifest.tool_bin_paths@)),
            Err(error) => r matches Err(e) && e@ == error,
        },
        match r {
            Ok(plan) => run_of(root@, manifest@) == Ok::<RunView, Seq<char>>(plan@),
            Err(e) => run_of(root@, manifest@) == Err::<RunView, Seq<char>>(e@),
        },
{
    if trim(manifest.run_command.as_str()).unicode_len() == 0 {
        return Err("Invalid manifest: run_command is empty".to_string());
    }
    let bins = runtime_bin_paths(root, manifest);
    match extension_plan_from_manifest(manifest) {
        Ok(extensions) => Ok(RunPlan { bins, extensions }),
        Err(e) => Err(e),
    }
}

/// A run finds the runtimes that the build installed: wherever the archive is unpacked, the
/// directories that the manifest names are those of the runtimes in the payload.
pub proof fn law_runs_find_their_runtimes(
    stage: Seq<u8>,
    root: Seq<u8>,
    raw: Option<Seq<char>>,
    runtimes: Seq<RuntimeView>,
    os: Seq<char>,
    arch: Seq<char>,
)
    requires
        root.len() > 0,
        bin_dirs(within(stage, tools_dir(raw)), runtimes, os, arch) is Ok,
    ensures
        ({
            let tools = tools_dir(raw);
            let dirs = bin_dirs(within(stage, tools), runtimes, os, arch)->Ok_0;
            let bins = run_bins(root, tool_paths(tools, dirs));
            &&& bins.len() == dirs.len()
            &&& forall|i: int|
                0 <= i < dirs.len() ==> same_path(#[trigger] bins[i], within(within(root, tools), dirs[i]))
        }),
{
    let tools = tools_dir(raw);
    let dirs = bin_dirs(within(stage, tools), runtimes, os, arch)->Ok_0;
    let bins = run_bins(root, tool_paths(tools, dirs));
    law_tools_dir_is_relative(raw);
    assert forall|i: int| 0 <= i < dirs.len() implies same_path(
        #[trigger] bins[i],
        within(within(root, tools), dirs[i]),
    ) by {
        lemma_listed_dirs(within(stage, tools), runtimes, os, arch, i);
        let k = choose|k: int|
            0 <= k < runtimes.len() && bin_dir(#[trigger] runtimes[k], os, arch) == Ok::<Seq<char>, Seq<char>>(
                dirs[i],
            );
        lemma_bin_dir_is_relative(runtimes[k], os, arch);
        law_run_finds_the_tools(root, tools, dirs[i]);
        assert(bins[i] == within(root, tool_path(tools, dirs[i])));
    }
}

/// The path of a build is made of directories of the payload, but for the path of the host that is
/// kept: whatever the environment says, every entry but the last is a directory of the stage, unless
/// a version makes a directory that leads up.
pub proof fn law_builds_stay_in_the_payload(
    stage: Seq<u8>,
    raw: Option<Seq<char>>,
    runtimes: Seq<RuntimeView>,
    os: Seq<char>,
    arch: Seq<char>,
    there: Seq<Seq<u8>>,
    k: int,
)
    requires
        bin_dirs(within(stage, tools_dir(raw)), runtimes, os, arch) is Ok,
        forall|i: int| 0 <= i < runtimes.len() ==> stays_below(bin_dir(#[trigger] runtimes[i], os, arch)->Ok_0),
        0 <= k < path_entries(
            stage,
            tools_dir(raw),
            stage_bins(stage, raw, bin_dirs(within(stage, tools_dir(raw)), runtimes, os, arch)->Ok_0),
            there,
        ).len() - 1,
    ensures
        exists|p: Seq<u8>|
            inside(stage, p) && there.contains(p) && path_entries(
                stage,
                tools_dir(raw),
                stage_bins(stage, raw, bin_dirs(within(stage, tools_dir(raw)), runtimes, os, arch)->Ok_0),
                there,
            )[k] == #[trigger] shown(p),
{
    let tools = within(stage, tools_dir(raw));
    let dirs = bin_dirs(tools, runtimes, os, arch)->Ok_0;
    let bins = stage_bins(stage, raw, dirs);
    assert forall|i: int| 0 <= i < bins.len() implies inside(stage, #[trigger] bins[i]) by {
        lemma_listed_dirs(tools, runtimes, os, arch, i);
        let m = choose|m: int|
            0 <= m < runtimes.len() && bin_dir(#[trigger] runtimes[m], os, arch) == Ok::<Seq<char>, Seq<char>>(
                dirs[i],
            );
        law_runtimes_stay_in_the_payload(stage, raw, runtimes[m], os, arch);
    }
    law_path_stays_in_the_payload(stage, raw, bins, there, k);
}

/// The directories of the commands of the runtimes in the payload `stage`.
pub open spec fn stage_bins(stage: Seq<u8>, raw: Option<Seq<char>>, dirs: Seq<Seq<char>>) -> Seq<Seq<u8>> {
    dirs.map_values(|dir: Seq<char>| within(within(stage, tools_dir(raw)), dir))
}

/// The same of the run of an archive that was built: whatever the environments of the build and of the
/// run say, every entry of its path but the last is a directory of the unpacked archive, unless a
/// version made a directory that leads up.
pub proof fn law_runs_stay_in_the_payload(
    stage: Seq<u8>,
    root: Seq<u8>,
    built_with: Option<Seq<char>>,
    run_with: Option<Seq<char>>,
    runtimes: Seq<RuntimeView>,
    os: Seq<char>,
    arch: Seq<char>,
    there: Seq<Seq<u8>>,
    k: int,
)
    requires
        bin_dirs(within(stage, tools_dir(built_with)), runtimes, os, arch) is Ok,
        forall|i: int| 0 <= i < runtimes.len() ==> stays_below(bin_dir(#[trigger] runtimes[i], os, arch)->Ok_0),
        0 <= k < path_entries(
            root,
            tools_dir(run_with),
            built_bins(stage, root, built_with, runtimes, os, arch),
            there,
        ).len() - 1,
    ensures
        exists|p: Seq<u8>|
            inside(root, p) && there.contains(p) && path_entries(
                root,
                tools_dir(run_with),
                built_bins(stage, root, built_with, runtimes, os, arch),
                there,
            )[k] == #[trigger] shown(p),
{
    let tools = tools_dir(built_with);
    let dirs = bin_dirs(within(stage, tools), runtimes, os, arch)->Ok_0;
    let bins = built_bins(stage, root, built_with, runtimes, os, arch);
    law_tools_dir_is_relative(built_with);
    assert forall|i: int| 0 <= i < bins.len() implies inside(root, #[trigger] bins[i]) by {
        lemma_listed_dirs(within(stage, tools), runtimes, os, arch, i);
        let m = choose|m: int|
            0 <= m < runtimes.len() && bin_dir(#[trigger] runtimes[m], os, arch) == Ok::<Seq<char>, Seq<char>>(
                dirs[i],
            );
        law_tools_stay_in_the_archive(root, tools, dirs[i]);
    }
    law_path_stays_in_the_payload(root, run_with, bins, there, k);
}

/// The directories of the commands that the manifest of a build names, in the unpacked archive `root`.
pub open spec fn built_bins(
    stage: Seq<u8>,
    root: Seq<u8>,
    raw: Option<Seq<char>>,
    runtimes: Seq<RuntimeView>,
    os: Seq<char>,
    arch: Seq<char>,
) -> Seq<Seq<u8>> {
    run_bins(root, tool_paths(tools_dir(raw), bin_dirs(within(stage, tools_dir(raw)), runtimes, os, arch)->Ok_0))
}

/// Accepts an archive that is there.
pub fn check_archive(archive: &HostPath, present: bool) -> (r: Result<(), String>)
    ensures
        r is Ok <==> present,
        r matches Err(e) ==> e@ == "Archive not found: "@ + shown(archive@),
{
    if present {
        Ok(())
    } else {
        Err("Archive not found: ".to_string().concat(archive.display().as_str()))
    }
}

/// The steps that run the command of a manifest.
pub open spec fn main_steps(root: Seq<u8>, command: Seq<char>, envs: Seq<(Seq<char>, Seq<char>)>) -> Seq<StepView> {
    seq![
        step_line("Running: "@ + command),
        run_step(shell(command, root, envs), "run command failed: "@ + command),
    ]
}

/// The steps that run the command of a manifest in the unpacked archive `root`.
pub fn run_main(root: &HostPath, command: &str, envs: &Vec<(String, String)>) -> (r: Plan)
    ensures
        r@ == main_steps(root@, command@, env_texts(envs@)),
{
    let mut plan = Plan::new();
    plan.log(log_step("Running: ".to_string().concat(command).as_str()));
    plan.run(run_shell(command, root, envs), "run command failed: ".to_string().concat(command).as_str());
    assert(plan@ =~= main_steps(root@, command@, env_texts(envs@)));
    plan
}

/// The steps of a phase of a run, where they are known when it begins: `root` is the unpacked archive,
/// `command` the one of its manifest, once that is read.
pub open spec fn run_phase_steps(
    phase: Phase,
    archive: Seq<u8>,
    root: Seq<u8>,
    command: Seq<char>,
    envs: Seq<(Seq<char>, Seq<char>)>,
) -> Option<Seq<StepView>> {
    match phase {
        Phase::Unpack => Some(unpack_steps(archive, root)),
        Phase::Main => Some(main_steps(root, command, envs)),
        _ => None,
    }
}

/// The plan of a phase of a run, where it is known when the phase begins.
pub fn run_phase_plan(
    phase: Phase,
    archive: &HostPath,
    root: &HostPath,
    command: &str,
    envs: &Vec<(String, String)>,
) -> (r: Option<Plan>)
    ensures
        match run_phase_steps(phase, archive@, root@, command@, env_texts(envs@)) {
            Some(steps) => r matches Some(plan) && plan@ == steps,
            None => r is None,
        },
{
    match phase {
        Phase::Unpack => Some(unpack(archive, root)),
        Phase::Main => Some(run_main(root, command, envs)),
        _ => None,
    }
}

/// The scripts of a phase of a run before the first, where it runs scripts: they are looked for and
/// run in the unpacked archive `root`.
pub open spec fn run_scripts(phase: Phase, root: Seq<u8>, plan: ExtensionView) -> Option<ExtensionRunView> {
    match phase {
        Phase::Extensions(event) => Some(ExtensionRunView::start(root, root, plan, event)),
        _ => None,
    }
}

/// Starts the scripts of a phase of a run, where it runs scripts.
pub fn run_phase_scripts<'a>(phase: Phase, root: &HostPath, plan: &'a ExtensionPlan) -> (r: Option<ExtensionRun<'a>>)
    ensures
        match run_scripts(phase, root@, plan@) {
            Some(scripts) => r matches Some(run) && run@ == scripts,
            None => r is None,
        },
{
    match phase {
        Phase::Extensions(event) => Some(run_extensions(root, root, plan, event)),
        _ => None,
    }
}

/// An unpacked archive whose manifest is accepted is run by the scripts before the command, the
/// command and the scripts after it: the run succeeds if and only if all of them do. The command is
/// begun only when every script before it has succeeded, and the scripts after it only when the
/// command has.
pub proof fn law_runs_succeed_with_all_their_commands(
    root: Seq<u8>,
    plan: ExtensionView,
    before: Seq<ScriptResult>,
    main: Option<Seq<char>>,
    after: Seq<ScriptResult>,
)
    requires
        before_run(root, plan).after_all(before).over(),
        after_run(root, plan).after_all(after).over(),
    ensures
        ({
            let first = before_run(root, plan).after_all(before).error;
            let last = after_run(root, plan).after_all(after).error;
            let read = CourseView::start(run_phases()).after_all(seq![None, None, None]);
            let begun = read.after(first);
            let run = begun.after(main);
            &&& run_scripts(read.phase()->0, root, plan) == Some(before_run(root, plan))
            &&& begun.phase() == Some(Phase::Main) <==> before_run(root, plan).all_succeed(before)
            &&& run.phase() is Some <==> before_run(root, plan).all_succeed(before) && main is None
            &&& run.phase() is Some ==> run_scripts(run.phase()->0, root, plan) == Some(after_run(root, plan))
            &&& run.after(last).error is None <==> {
                &&& before_run(root, plan).all_succeed(before)
                &&& main is None
                &&& after_run(root, plan).all_succeed(after)
            }
            &&& run.after(last).error == if first is Some {
                first
            } else if main is Some {
                main
            } else {
                last
            }
            &&& run.after(last).phase() is None
        }),
{
    let results: Seq<Option<Seq<char>>> = seq![None, None, None];
    let read = CourseView::start(run_phases()).after_all(results);
    assert(results.drop_last() =~= seq![None, None]);
    assert(results.drop_last().drop_last() =~= seq![None]);
    assert(results.drop_last().drop_last().drop_last() =~= Seq::empty());
    reveal_with_fuel(CourseView::after_all, 4);
    assert(read == (CourseView { next: 3, ..CourseView::start(run_phases()) }));
    law_scripts_succeed_together(before_run(root, plan), before);
    law_scripts_succeed_together(after_run(root, plan), after);
}

/// The scripts that run before the command of the unpacked archive `root`.
pub open spec fn before_run(root: Seq<u8>, plan: ExtensionView) -> ExtensionRunView {
    ExtensionRunView::start(root, root, plan, ExtensionEvent::BeforeRun)
}

/// The scripts that run after the command of the unpacked archive `root`.
pub open spec fn after_run(root: Seq<u8>, plan: ExtensionView) -> ExtensionRunView {
    ExtensionRunView::start(root, root, plan, ExtensionEvent::AfterRun)
}

/// The line that closes a run.
pub fn run_finished() -> (r: LogLine)
    ensures
        r@ == (LogView { level: Level::Success, message: "Run finished successfully"@ }),
{
    log_success("Run finished successfully")
}

/// What the phases of a build do, in terms of the recipe. The directory of the archive and that of the
/// payload are made; the hooks run their commands in the payload, each in its own phase; the payload is
/// packed into the archive; every command of a runtime that is not asked for is blocked, and every package
/// manager is made ready, in the tools directory of the payload.
pub proof fn law_phases_of_a_build_do_their_work(
    build: BuildView,
    stage: Seq<u8>,
    tools: Seq<char>,
    envs: Seq<(Seq<char>, Seq<char>)>,
    present: bool,
    k: int,
)
    ensures
        build_phase_steps(Phase::ArchiveDir, build, stage, tools, envs, present) == Some(
            seq![StepView::CreateParentDirs(build.archive)],
        ),
        build_phase_steps(Phase::Stage, build, stage, tools, envs, present) == Some(seq![StepView::CreateDirs(stage)]),
        hook_runs(
            build_phase_steps(Phase::DepsHook, build, stage, tools, envs, present),
            "deps"@,
            build.deps,
            stage,
            envs,
        ),
        hook_runs(
            build_phase_steps(Phase::BuildHook, build, stage, tools, envs, present),
            "build"@,
            build.build,
            stage,
            envs,
        ),
        build_phase_steps(Phase::Pack, build, stage, tools, envs, present) matches Some(steps) && {
            let n = if present { 1int } else { 0 };
            &&& steps.len() == n + 3
            &&& present ==> steps[0] == StepView::RemoveFile(build.archive)
            &&& steps[n + 1] is Run && steps[n + 1]->Run_command.dir == Some(stage)
            &&& steps[n + 1]->Run_command.args[2] == ArgView::Path(build.archive)
        },
        0 <= k < blocked(build.runtimes).len() ==> (build_phase_steps(
            Phase::Shims,
            build,
            stage,
            tools,
            envs,
            present,
        ) matches Some(steps) && steps[1 + 2 * k] is Write && steps[1 + 2 * k]->Write_path == within(
            within(stage, tools),
            blocked(build.runtimes)[k].0,
        )),
        build_phase_steps(Phase::Managers, build, stage, tools, envs, present) is Some,
        0 <= k < build.managers.len() ==> has_steps(
            build_phase_steps(Phase::Managers, build, stage, tools, envs, present)->0,
            made_ready(build.managers[k], stage, tools, envs),
        ),
{
    law_hooks_run_their_command(stage, "deps"@, build.deps, envs);
    law_hooks_run_their_command(stage, "build"@, build.build, envs);
    law_payloads_are_packed_whole(stage, build.archive, present);
    if 0 <= k < blocked(build.runtimes).len() {
        law_blocked_commands_fail(stage, tools, build.runtimes, k);
    }
    if 0 <= k < build.managers.len() {
        law_every_manager_is_made_ready(stage, tools, build.managers, envs, k);
        let own = made_ready(build.managers[k], stage, tools, envs);
        let steps = manager_steps(stage, tools, build.managers, envs);
        let at = if k == 0 { 2int } else { manager_steps(stage, tools, build.managers.take(k), envs).len() as int };
        assert(stands_at(steps, at, own));
        assert(has_steps(steps, own));
    }
}

/// Whether some steps stand at one place of a plan.
pub open spec fn stands_at(steps: Seq<StepView>, at: int, own: Seq<StepView>) -> bool {
    0 <= at && at + own.len() <= steps.len() && steps.subrange(at, at + own.len()) == own
}

/// Whether a plan has some steps, one after the other.
pub open spec fn has_steps(steps: Seq<StepView>, own: Seq<StepView>) -> bool {
    exists|at: int| stands_at(steps, at, own)
}

/// What makes a package manager ready in the payload.
pub open spec fn made_ready(
    manager: PackageManagerSpec,
    stage: Seq<u8>,
    tools: Seq<char>,
    envs: Seq<(Seq<char>, Seq<char>)>,
) -> Seq<StepView> {
    preparation(manager, stage, joined(stage, pm_bin(tools)), envs)
}

/// Whether the steps of a phase run a hook: its command, trimmed, or nothing where it has none.
pub open spec fn hook_runs(
    steps: Option<Seq<StepView>>,
    label: Seq<char>,
    command: Option<Seq<char>>,
    stage: Seq<u8>,
    envs: Seq<(Seq<char>, Seq<char>)>,
) -> bool {
    &&& steps is Some
    &&& command is None || trimmed(command->0).len() == 0 ==> steps->0.len() == 0
    &&& command is Some && trimmed(command->0).len() > 0 ==> {
        &&& steps->0.len() == 2 && steps->0[0] is Log
        &&& runs_shell(steps->0[1], trimmed(command->0), stage, envs)
        &&& steps->0[1]->Run_failure == label + " hook failed: "@ + trimmed(command->0)
    }
}

/// What the phases of a run do: the archive is unpacked, and the command of its manifest is run by the
/// shell in the unpacked archive as it is written, with the isolated environment.
pub proof fn law_phases_of_a_run_do_their_work(
    archive: Seq<u8>,
    root: Seq<u8>,
    command: Seq<char>,
    envs: Seq<(Seq<char>, Seq<char>)>,
)
    ensures
        run_phase_steps(Phase::Unpack, archive, root, command, envs) matches Some(steps) && steps.len() == 3
            && steps[1] is Run && steps[1]->Run_command.args[1] == ArgView::Path(archive)
            && steps[1]->Run_command.args[2] == ArgView::Text("-o"@ + shown(root)),
        run_phase_steps(Phase::Main, archive, root, command, envs) matches Some(steps) && steps.len() == 2
            && steps[0] is Log && runs_shell(steps[1], command, root, envs) && steps[1]->Run_failure
            == "run command failed: "@ + command,
{
    law_archives_are_unpacked_whole(archive, root);
    let run = main_steps(root, command, envs)[1]->Run_command;
    assert(run.args =~= seq![ArgView::Text("-c"@), ArgView::Text(command)]);
    assert(run.envs =~= envs.map_values(|e: (Seq<char>, Seq<char>)| (e.0, ArgView::Text(e.1))));
}

/// The scripts of a phase: a build looks for them in the project and runs them in the payload, a run does
/// both in the unpacked archive; they are those of the moment of the phase, from the first on.
pub proof fn law_phases_run_the_scripts_of_their_moment(
    event: ExtensionEvent,
    project: Seq<u8>,
    stage: Seq<u8>,
    root: Seq<u8>,
    plan: ExtensionView,
)
    ensures
        build_scripts(Phase::Extensions(event), project, stage, plan) matches Some(scripts)
            && scripts.search_root == project && scripts.working_dir == stage && scripts.plan == plan && scripts.event
            == event && scripts.next == 0 && scripts.error is None,
        run_scripts(Phase::Extensions(event), root, plan) matches Some(scripts) && scripts.search_root == root
            && scripts.working_dir == root && scripts.plan == plan && scripts.event == event && scripts.next == 0
            && scripts.error is None,
{
}

/// The moments of a build stand where their names say: scripts before and after the dependencies are
/// installed and before and after the build hook, the dependencies before the hook that adds to them, and
/// the manifest and the packing at the end.
pub proof fn law_moments_stand_where_their_names_say()
    ensures
        ({
            let b = build_phases();
            &&& b[9] == Phase::Extensions(ExtensionEvent::BeforeDeps) && b[10] == Phase::Dependencies && b[11]
                == Phase::Extensions(ExtensionEvent::AfterDeps)
            &&& b[12] == Phase::DepsHook
            &&& b[13] == Phase::Extensions(ExtensionEvent::BeforeBuild) && b[14] == Phase::BuildHook && b[15]
                == Phase::Extensions(ExtensionEvent::AfterBuild)
            &&& b[16] == Phase::Manifest && b[17] == Phase::Pack && b.len() == 18
            &&& run_phases()[3] == Phase::Extensions(ExtensionEvent::BeforeRun) && run_phases()[4] == Phase::Main
                && run_phases()[5] == Phase::Extensions(ExtensionEvent::AfterRun) && run_phases().len() == 6
        }),
{
}

/// An archive runs as it was built: its manifest holds the command of the recipe, the scripts of the run
/// and the directories of the commands, and a run of the unpacked archive takes them from there. The
/// command is the one of the recipe as it is written, the scripts before and after it are those of the
/// recipe, looked for in the same directories, and no scripts of the build run. Scripts and directories
/// whose only name is a dot between white space are left out: their text stands for the project itself.
pub proof fn law_archives_run_as_they_were_built(
    root: Seq<u8>,
    build: BuildView,
    stamp: int,
    tools: Seq<char>,
    dirs: Seq<Seq<char>>,
    archive: Seq<u8>,
    envs: Seq<(Seq<char>, Seq<char>)>,
)
    requires
        trimmed(build.run_command).len() > 0,
        build.extensions.valid(),
        none_reads_as_dot(build.extensions.dirs),
        none_reads_as_dot(build.extensions.before_run),
        none_reads_as_dot(build.extensions.after_run),
    ensures
        ({
            let manifest = manifest_of(build.name, build.run_command, stamp, tools, dirs, build.extensions);
            let first = ExtensionEvent::BeforeRun;
            let last = ExtensionEvent::AfterRun;
            &&& manifest.name == build.name && manifest.built_at_unix == stamp
            &&& run_of(root, manifest) matches Ok(run) && {
                &&& run.extensions.dirs == build.extensions.dirs
                &&& run.extensions.items(first) == build.extensions.items(first)
                &&& run.extensions.items(last) == build.extensions.items(last)
                &&& run.extensions.items(ExtensionEvent::BeforeDeps).len() == 0
                &&& run.extensions.items(ExtensionEvent::AfterDeps).len() == 0
                &&& run.extensions.items(ExtensionEvent::BeforeBuild).len() == 0
                &&& run.extensions.items(ExtensionEvent::AfterBuild).len() == 0
                &&& run.bins.len() == dirs.len()
                &&& forall|i: int|
                    0 <= i < dirs.len() ==> #[trigger] run.bins[i] == within(root, tool_path(tools, dirs[i]))
            }
            &&& run_phase_steps(Phase::Main, archive, root, manifest.run_command, envs) matches Some(steps)
                && runs_shell(steps[1], build.run_command, root, envs)
        }),
{
    law_manifest_keeps_the_run(build.extensions);
    law_phases_of_a_run_do_their_work(archive, root, build.run_command, envs);
}

/// A manifest without a command is refused, and so is one that names a script or a directory outside the
/// archive; every other one is accepted.
pub proof fn law_manifests_are_accepted_with_all_their_parts(root: Seq<u8>, manifest: ManifestView)
    ensures
        run_of(root, manifest) is Ok <==> trimmed(manifest.run_command).len() > 0 && all_readable(
            manifest.extension_dirs,
        ) && all_readable(manifest.before_run_extensions) && all_readable(manifest.after_run_extensions),
{
    law_manifest_lists_are_read(
        manifest.extension_dirs,
        manifest.before_run_extensions,
        manifest.after_run_extensions,
    );
}

/// The phases of a build that take long are announced, and no others; the first of them names the project.
pub proof fn law_long_phases_are_announced(phase: Phase, name: Seq<char>)
    ensures
        opening(phase, name) is Some <==> phase == Phase::Stage || phase == Phase::Bundle || phase == Phase::Runtimes,
        opening(Phase::Stage, name) == Some(
            LogView { level: Level::Step, message: "Preparing stage for "@ + name },
        ),
        opening(Phase::Bundle, name) == Some(LogView { level: Level::Step, message: "Copying bundle files"@ }),
        opening(Phase::Runtimes, name) == Some(
            LogView { level: Level::Step, message: "Provisioning isolated runtimes"@ },
        ),
{
}

/// Every phase of a build comes when what it needs is there: the payload is made before files are copied
/// into it, the runtimes are installed before the commands of the others are blocked, both before the
/// environment is looked up, and it is looked up once more when the package managers are ready, before any
/// script or hook runs in it; a run unpacks before it reads the manifest, and looks the environment up
/// before anything runs in it.
pub proof fn law_phases_come_when_what_they_need_is_there()
    ensures
        ({
            let b = build_phases();
            &&& b[0] == Phase::ArchiveDir && b[1] == Phase::SystemPackages
            &&& b[2] == Phase::Stage && b[3] == Phase::Bundle && b[4] == Phase::Runtimes && b[5] == Phase::Shims
            &&& b[6] == Phase::Environment && b[7] == Phase::Managers && b[8] == Phase::Environment
            &&& forall|i: int|
                0 <= i < b.len() && ((#[trigger] b[i]) is Extensions || b[i] == Phase::Dependencies || b[i]
                    == Phase::DepsHook || b[i] == Phase::BuildHook) ==> i > 8
            &&& run_phases()[0] == Phase::Unpack && run_phases()[1] == Phase::ReadManifest && run_phases()[2]
                == Phase::Environment
        }),
{
}

} // verus!
