//! What a recipe asks of a build, and the hooks of a build.
use vstd::prelude::*;
use vstd::string::*;
use vstd::utf8::{decode_utf8, valid_utf8};
use crate::archive::{archive_path, resolve_archive_path};
use crate::bundle::{
    bundle_of, bundle_path, law_bundles_are_read_item_by_item, law_no_bundle_is_the_whole_project, parse_bundle_paths,
    rel_views, RelPath,
};
use crate::command::{env_texts, run_shell, run_step, shell, step_line, ArgView, Plan, StepView};
use crate::extensions::{
    law_no_extensions_no_scripts, law_scripts_run_at_the_moment_of_their_list, parse_extension_plan, reads,
    recipe_plan, ExtensionEvent, ExtensionPlan, ExtensionView,
};
use crate::host_packages::{
    law_requests_are_read_item_by_item, law_requests_are_safe_and_distinct, package_items,
    parse_host_package_requests, request_of, request_views, requests_of, HostPackageRequest, RequestView,
};
use crate::log::{log_step, log_views, LogLine, LogView};
use crate::managers::{
    has_family, law_added_runtimes_are_needed, law_managers_are_distinct, law_managers_are_read_item_by_item,
    law_managers_find_their_runtimes, law_named_runtimes_stay, manager_for, manager_items, managers_of, merge_notes,
    merge_required_runtimes, merged, needed_runtime, parse_package_manager_specs, runs_shell, PackageManagerSpec,
};
use crate::paths::{file_name, given_path, joined, within, HostPath};
use crate::recipe::{
    flag_or, infer_project_name, project_name, HookConfig, PackageManagersConfig, TortiaConfig,
};
use crate::runtime::{
    law_runtimes_are_read_item_by_item, name_and_version, parse_runtime_specs, runtime_for, runtime_items,
    runtime_views, runtimes_of, RuntimeSpec, RuntimeView,
};
use crate::text::{lowered, optional_text, texts, trim, trimmed};

verus! {

/// The steps of a hook: none where there is no command.
pub open spec fn hook_steps(
    stage: Seq<u8>,
    label: Seq<char>,
    command: Option<Seq<char>>,
    envs: Seq<(Seq<char>, Seq<char>)>,
) -> Seq<StepView> {
    if command is Some && trimmed(command->0).len() > 0 {
        let command = trimmed(command->0);
        seq![
            step_line("["@ + label + "] "@ + command),
            run_step(shell(command, stage, envs), label + " hook failed: "@ + command),
        ]
    } else {
        Seq::empty()
    }
}

/// The steps of a hook.
pub fn run_hook(stage_root: &HostPath, label: &str, command: &Option<String>, envs: &Vec<(String, String)>) -> (r: Plan)
    ensures
        r@ == hook_steps(stage_root@, label@, optional_text(*command), env_texts(envs@)),
{
    let mut plan = Plan::new();
    if let Some(command) = command {
        let command = trim(command.as_str());
        if command.unicode_len() > 0 {
            plan.log(log_step("[".to_string().concat(label).concat("] ").concat(command).as_str()));
            plan.run(
                run_shell(command, stage_root, envs),
                label.to_string().concat(" hook failed: ").concat(command).as_str(),
            );
        }
    }
    assert(plan@ =~= hook_steps(stage_root@, label@, optional_text(*command), env_texts(envs@)));
    plan
}

/// What a recipe asks of a build.
pub struct BuildPlan {
    pub name: String,
    pub run_command: String,
    /// What goes into the bundle.
    pub includes: Vec<RelPath>,
    /// What is left out of it.
    pub excludes: Vec<RelPath>,
    pub managers: Vec<PackageManagerSpec>,
    /// Whether the package managers install the dependencies.
    pub auto_install: bool,
    pub runtimes: Vec<RuntimeSpec>,
    /// The packages that are wanted on the host.
    pub packages: Vec<HostPackageRequest>,
    pub extensions: ExtensionPlan,
    pub deps: Option<String>,
    pub build: Option<String>,
    pub archive: HostPath,
}

/// What a recipe asks of a build.
pub struct BuildView {
    pub name: Seq<char>,
    pub run_command: Seq<char>,
    pub includes: Seq<Seq<Seq<char>>>,
    pub excludes: Seq<Seq<Seq<char>>>,
    pub managers: Seq<PackageManagerSpec>,
    pub auto_install: bool,
    pub runtimes: Seq<RuntimeView>,
    pub packages: Seq<RequestView>,
    pub extensions: ExtensionView,
    pub deps: Option<Seq<char>>,
    pub build: Option<Seq<char>>,
    pub archive: Seq<u8>,
}

impl View for BuildPlan {
    type V = BuildView;

    open spec fn view(&self) -> BuildView {
        BuildView {
            name: self.name@,
            run_command: self.run_command@,
            includes: rel_views(self.includes@),
            excludes: rel_views(self.excludes@),
            managers: self.managers@,
            auto_install: self.auto_install,
            runtimes: runtime_views(self.runtimes@),
            packages: request_views(self.packages@),
            extensions: self.extensions@,
            deps: optional_text(self.deps),
            build: optional_text(self.build),
            archive: self.archive@,
        }
    }
}

/// The command of a hook.
pub open spec fn hook_command(hook: Option<HookConfig>) -> Option<Seq<char>> {
    match hook {
        Some(h) => optional_text(h.command),
        None => None,
    }
}

/// Whether `[package_managers]` asks for the installation of dependencies.
pub open spec fn wants_dependencies(config: Option<PackageManagersConfig>) -> bool {
    config is Some && flag_or(config->0.auto_install, false)
}

/// An optional value by reference.
pub open spec fn by_ref<T>(value: &Option<T>) -> Option<&T> {
    match value {
        Some(v) => Some(v),
        None => None,
    }
}

/// What a recipe asks of the build of the project in `root`, or what is wrong with it. Of several
/// errors the first counts, in this order: the name, the command to run, the bundle, the package
/// managers, the runtimes, the packages on the host, the extensions.
pub open spec fn build_of(
    root: Seq<u8>,
    config: TortiaConfig,
    output: Option<Seq<u8>>,
) -> Result<BuildView, Seq<char>> {
    match project_name(root, by_ref(&config.project)) {
        Err(e) => Err(e),
        Ok(name) => if trimmed(config.run.command@).len() == 0 {
            Err("[run].command is required in RecipeFile"@)
        } else {
            match (
                bundle_of(by_ref(&config.bundle)),
                managers_of(manager_items(by_ref(&config.package_managers))),
                runtimes_of(runtime_items(by_ref(&config.runtimes))),
                requests_of(package_items(by_ref(&config.system_packages))),
                recipe_plan(by_ref(&config.extensions)),
            ) {
                (Err(e), _, _, _, _) => Err(e),
                (_, Err(e), _, _, _) => Err(e),
                (_, _, Err(e), _, _) => Err(e),
                (_, _, _, Err(e), _) => Err(e),
                (_, _, _, _, Err(e)) => Err(e),
                (Ok((includes, excludes)), Ok(managers), Ok(runtimes), Ok(packages), Ok(extensions)) => Ok(
                    BuildView {
                        name,
                        run_command: config.run.command@,
                        includes,
                        excludes,
                        managers,
                        auto_install: wants_dependencies(config.package_managers),
                        runtimes: merged(runtimes, managers),
                        packages,
                        extensions,
                        deps: hook_command(config.deps),
                        build: hook_command(config.build),
                        archive: archive_path(root, output, name),
                    },
                ),
            }
        },
    }
}

/// The notes on the runtimes that were added for package managers: they are known once the runtimes
/// are, even where something else of the recipe is wrong.
pub open spec fn build_notes(root: Seq<u8>, config: TortiaConfig) -> Seq<LogView> {
    match (
        bundle_of(by_ref(&config.bundle)),
        managers_of(manager_items(by_ref(&config.package_managers))),
        runtimes_of(runtime_items(by_ref(&config.runtimes))),
    ) {
        (Ok(_), Ok(managers), Ok(runtimes)) => if project_name(root, by_ref(&config.project)) is Ok && trimmed(
            config.run.command@,
        ).len() > 0 {
            merge_notes(runtimes, managers)
        } else {
            Seq::empty()
        },
        _ => Seq::empty(),
    }
}

/// The command of a hook.
fn command_of(hook: &Option<HookConfig>) -> (r: Option<String>)
    ensures
        optional_text(r) == hook_command(*hook),
{
    match hook {
        Some(h) => match &h.command {
            Some(command) => Some(command.clone()),
            None => None,
        },
        None => None,
    }
}

/// What a recipe asks of the build of the project in `project_root`, with the notes on the runtimes
/// that were added; `output` is the archive that the command line names.
pub fn build_package(
    project_root: &HostPath,
    config: &TortiaConfig,
    output: Option<&HostPath>,
) -> (r: (Vec<LogLine>, Result<BuildPlan, String>))
    ensures
        log_views(r.0@) == build_notes(project_root@, *config),
        match r.1 {
            Ok(plan) => build_of(project_root@, *config, given_path(output)) == Ok::<
                BuildView,
                Seq<char>,
            >(plan@) && plan@.extensions.valid(),
            Err(e) => build_of(project_root@, *config, given_path(output)) == Err::<
                BuildView,
                Seq<char>,
            >(e@),
        },
{
    let notes: Vec<LogLine> = Vec::new();
    assert(log_views(notes@) =~= Seq::empty());
    let name = match infer_project_name(project_root, config.project.as_ref()) {
        Ok(name) => name,
        Err(e) => {
            return (notes, Err(e));
        },
    };
    if trim(config.run.command.as_str()).unicode_len() == 0 {
        return (notes, Err("[run].command is required in RecipeFile".to_string()));
    }
    let (includes, excludes) = match parse_bundle_paths(config.bundle.as_ref()) {
        Ok(paths) => paths,
        Err(e) => {
            return (notes, Err(e));
        },
    };
    let managers = match parse_package_manager_specs(config.package_managers.as_ref()) {
        Ok(managers) => managers,
        Err(e) => {
            return (notes, Err(e));
        },
    };
    let mut runtimes = match parse_runtime_specs(config.runtimes.as_ref()) {
        Ok(runtimes) => runtimes,
        Err(e) => {
            return (notes, Err(e));
        },
    };
    let notes = merge_required_runtimes(&mut runtimes, &managers);
    let packages = match parse_host_package_requests(config.system_packages.as_ref()) {
        Ok(packages) => packages,
        Err(e) => {
            return (notes, Err(e));
        },
    };
    let extensions = match parse_extension_plan(config.extensions.as_ref()) {
        Ok(extensions) => extensions,
        Err(e) => {
            return (notes, Err(e));
        },
    };
    let (archive, _) = resolve_archive_path(project_root, output, name.as_str());
    let auto_install = match &config.package_managers {
        Some(managers) => managers.auto_install.unwrap_or(false),
        None => false,
    };
    let plan = BuildPlan {
        name,
        run_command: config.run.command.clone(),
        includes,
        excludes,
        managers,
        auto_install,
        runtimes,
        packages,
        extensions,
        deps: command_of(&config.deps),
        build: command_of(&config.build),
        archive,
    };
    (notes, Ok(plan))
}

/// What is built can be run: every package manager has a runtime that it works with, and there is a
/// command to run.
pub proof fn law_builds_are_complete(
    root: Seq<u8>,
    config: TortiaConfig,
    output: Option<Seq<u8>>,
)
    requires
        build_of(root, config, output) is Ok,
    ensures
        ({
            let b = build_of(root, config, output)->Ok_0;
            &&& trimmed(b.run_command).len() > 0
            &&& b.includes.len() > 0
            &&& b.managers.no_duplicates()
            &&& b.packages.no_duplicates()
            &&& forall|m: PackageManagerSpec|
                b.managers.contains(m) ==> #[trigger] has_family(b.runtimes, needed_runtime(m))
        }),
{
    let managers = managers_of(manager_items(by_ref(&config.package_managers)))->Ok_0;
    let runtimes = runtimes_of(runtime_items(by_ref(&config.runtimes)))->Ok_0;
    law_managers_find_their_runtimes(runtimes, managers);
    law_managers_are_distinct(manager_items(by_ref(&config.package_managers)));
    law_requests_are_safe_and_distinct(package_items(by_ref(&config.system_packages)));
}

/// A build takes in and leaves out what `[bundle]` names: the paths of `include` in its order, the whole
/// project where it names none, and of `exclude` every path but the project itself, in its order.
pub proof fn law_builds_take_and_leave_what_the_recipe_names(
    root: Seq<u8>,
    config: TortiaConfig,
    output: Option<Seq<u8>>,
)
    requires
        build_of(root, config, output) is Ok,
    ensures
        ({
            let b = build_of(root, config, output)->Ok_0;
            &&& config.bundle is None ==> b.includes == seq![Seq::<Seq<char>>::empty()] && b.excludes.len() == 0
            &&& config.bundle matches Some(bundle) ==> {
                &&& bundle.includes is None || bundle.includes->0@.len() == 0 ==> b.includes == seq![
                    Seq::<Seq<char>>::empty(),
                ]
                &&& bundle.includes matches Some(list) ==> {
                    &&& list@.len() > 0 ==> b.includes.len() == list@.len()
                    &&& forall|i: int|
                        0 <= i < list@.len() ==> bundle_path((#[trigger] list@[i])@) == Ok::<
                            Seq<Seq<char>>,
                            Seq<char>,
                        >(b.includes[i])
                }
                &&& bundle.excludes is None ==> b.excludes.len() == 0
                &&& bundle.excludes matches Some(list) ==> {
                    &&& forall|i: int| 0 <= i < list@.len() ==> bundle_path((#[trigger] list@[i])@) is Ok
                    &&& b.excludes == Seq::new(list@.len(), |i: int| bundle_path(list@[i]@)->Ok_0).filter(
                        |p: Seq<Seq<char>>| p.len() > 0,
                    )
                    &&& forall|i: int|
                        0 <= i < list@.len() && bundle_path(
                            (#[trigger] list@[i])@,
                        )->Ok_0.len() > 0 ==> b.excludes.contains(bundle_path(list@[i]@)->Ok_0)
                    &&& forall|p: Seq<Seq<char>>|
                        b.excludes.contains(p) ==> p.len() > 0 && exists|i: int|
                            0 <= i < list@.len() && bundle_path((#[trigger] list@[i])@) == Ok::<
                                Seq<Seq<char>>,
                                Seq<char>,
                            >(p)
                }
            }
        }),
{
    if let Some(bundle) = config.bundle {
        law_bundles_are_read_item_by_item(bundle);
    } else {
        law_no_bundle_is_the_whole_project();
    }
}

/// A build does what the recipe says, field by field. The name is that of the recipe, or of the
/// project's directory where it names none; the command to run, the hooks and whether dependencies are
/// installed are those of the recipe; the archive is where the command line says, or next to the recipe.
pub proof fn law_builds_do_what_the_recipe_says(root: Seq<u8>, config: TortiaConfig, output: Option<Seq<u8>>)
    requires
        build_of(root, config, output) is Ok,
    ensures
        ({
            let b = build_of(root, config, output)->Ok_0;
            let named = config.project is Some && config.project->0.name is Some && trimmed(
                config.project->0.name->0@,
            ).len() > 0;
            &&& named ==> b.name == trimmed(config.project->0.name->0@)
            &&& !named ==> file_name(root) is Some && b.name == decode_utf8(file_name(root)->0)
            &&& b.run_command == config.run.command@
            &&& b.auto_install <==> config.package_managers is Some && config.package_managers->0.auto_install
                == Some(true)
            &&& config.deps is None ==> b.deps is None
            &&& config.deps matches Some(hook) ==> b.deps == optional_text(hook.command)
            &&& config.build is None ==> b.build is None
            &&& config.build matches Some(hook) ==> b.build == optional_text(hook.command)
            &&& output matches Some(path) ==> b.archive == (if path.len() > 0 && path[0] == 0x2f {
                path
            } else {
                joined(root, path)
            })
            &&& output is None ==> b.archive == within(root, b.name + ".tortia"@)
        }),
{
}

/// The lists of a recipe reach the build item by item: the runtimes of `[runtimes]` come first and in
/// their order, the package managers and the packages are those that are named, and at every moment the
/// scripts run that the list of the same name in `[extensions]` names.
pub proof fn law_builds_have_what_the_recipe_lists(root: Seq<u8>, config: TortiaConfig, output: Option<Seq<u8>>)
    requires
        build_of(root, config, output) is Ok,
    ensures
        ({
            let b = build_of(root, config, output)->Ok_0;
            &&& config.package_managers is None || config.package_managers->0.items is None ==> b.managers.len()
                == 0
            &&& config.package_managers is Some && config.package_managers->0.items is Some ==> {
                let items = config.package_managers->0.items->0@;
                forall|m: PackageManagerSpec|
                    #[trigger] b.managers.contains(m) <==> exists|i: int|
                        0 <= i < items.len() && trimmed((#[trigger] items[i])@).len() > 0 && manager_for(
                            lowered(trimmed(items[i]@)),
                        ) == Some(m)
            }
            &&& config.system_packages is None || config.system_packages->0.items is None ==> b.packages.len() == 0
            &&& config.system_packages is Some && config.system_packages->0.items is Some ==> {
                let items = config.system_packages->0.items->0@;
                forall|r: RequestView|
                    #[trigger] b.packages.contains(r) <==> exists|i: int|
                        0 <= i < items.len() && request_of((#[trigger] items[i])@) == Ok::<
                            Option<RequestView>,
                            Seq<char>,
                        >(Some(r))
            }
            &&& config.runtimes is Some && config.runtimes->0.items is Some ==> {
                let named = texts(config.runtimes->0.items->0@).filter(
                    |item: Seq<char>| trimmed(item).len() > 0,
                );
                &&& b.runtimes.len() >= named.len()
                &&& forall|i: int|
                    0 <= i < named.len() ==> runtime_for(
                        name_and_version(#[trigger] named[i]).0,
                        name_and_version(named[i]).1,
                    ) == Some(b.runtimes[i])
            }
            &&& b.managers.len() == 0 && (config.runtimes is None || config.runtimes->0.items is None)
                ==> b.runtimes.len() == 0
            &&& config.extensions matches Some(lists) ==> {
                &&& reads(b.extensions.items(ExtensionEvent::BeforeDeps), lists.before_deps)
                &&& reads(b.extensions.items(ExtensionEvent::AfterDeps), lists.after_deps)
                &&& reads(b.extensions.items(ExtensionEvent::BeforeBuild), lists.before_build)
                &&& reads(b.extensions.items(ExtensionEvent::AfterBuild), lists.after_build)
                &&& reads(b.extensions.items(ExtensionEvent::BeforeRun), lists.before_run)
                &&& reads(b.extensions.items(ExtensionEvent::AfterRun), lists.after_run)
            }
            &&& config.extensions is None ==> forall|event: ExtensionEvent|
                (#[trigger] b.extensions.items(event)).len() == 0
        }),
{
    let b = build_of(root, config, output)->Ok_0;
    let managers = manager_items(by_ref(&config.package_managers));
    let packages = package_items(by_ref(&config.system_packages));
    let runtimes = runtime_items(by_ref(&config.runtimes));
    law_managers_are_read_item_by_item(managers);
    law_requests_are_read_item_by_item(packages);
    law_runtimes_are_read_item_by_item(runtimes);
    law_named_runtimes_stay(runtimes_of(runtimes)->Ok_0, b.managers);
    let read = runtimes_of(runtimes)->Ok_0;
    assert forall|i: int| 0 <= i < read.len() implies b.runtimes[i] == #[trigger] read[i] by {
        assert(b.runtimes.take(read.len() as int)[i] == read[i]);
    }
    if config.package_managers is Some && config.package_managers->0.items is Some {
        let items = config.package_managers->0.items->0@;
        assert(managers.len() == items.len());
        assert forall|m: PackageManagerSpec| #[trigger] b.managers.contains(m) <==> exists|i: int|
            0 <= i < items.len() && trimmed((#[trigger] items[i])@).len() > 0 && manager_for(
                lowered(trimmed(items[i]@)),
            ) == Some(m) by {
            if b.managers.contains(m) {
                let i = choose|i: int|
                    0 <= i < managers.len() && trimmed(#[trigger] managers[i]).len() > 0 && manager_for(
                        lowered(trimmed(managers[i])),
                    ) == Some(m);
                assert(managers[i] == items[i]@);
            }
            if exists|i: int|
                0 <= i < items.len() && trimmed((#[trigger] items[i])@).len() > 0 && manager_for(
                    lowered(trimmed(items[i]@)),
                ) == Some(m) {
                let i = choose|i: int|
                    0 <= i < items.len() && trimmed((#[trigger] items[i])@).len() > 0 && manager_for(
                        lowered(trimmed(items[i]@)),
                    ) == Some(m);
                assert(managers[i] == items[i]@);
            }
        }
    }
    if config.system_packages is Some && config.system_packages->0.items is Some {
        let items = config.system_packages->0.items->0@;
        assert(packages.len() == items.len());
        assert forall|r: RequestView| #[trigger] b.packages.contains(r) <==> exists|i: int|
            0 <= i < items.len() && request_of((#[trigger] items[i])@) == Ok::<Option<RequestView>, Seq<char>>(
                Some(r),
            ) by {
            if b.packages.contains(r) {
                let i = choose|i: int|
                    0 <= i < packages.len() && request_of(#[trigger] packages[i]) == Ok::<
                        Option<RequestView>,
                        Seq<char>,
                    >(Some(r));
                assert(packages[i] == items[i]@);
            }
            if exists|i: int|
                0 <= i < items.len() && request_of((#[trigger] items[i])@) == Ok::<Option<RequestView>, Seq<char>>(
                    Some(r),
                ) {
                let i = choose|i: int|
                    0 <= i < items.len() && request_of((#[trigger] items[i])@) == Ok::<
                        Option<RequestView>,
                        Seq<char>,
                    >(Some(r));
                assert(packages[i] == items[i]@);
            }
        }
    }
    if let Some(lists) = config.extensions {
        law_scripts_run_at_the_moment_of_their_list(lists);
    } else {
        assert forall|event: ExtensionEvent| (#[trigger] b.extensions.items(event)).len() == 0 by {
            law_no_extensions_no_scripts(event);
        }
    }
}

/// A recipe is accepted if and only if its parts are: a name can be had, there is a command to run, and
/// the paths of the bundle, the package managers, the runtimes, the packages and the scripts are all
/// accepted.
pub proof fn law_recipes_are_accepted_with_all_their_parts(
    root: Seq<u8>,
    config: TortiaConfig,
    output: Option<Seq<u8>>,
)
    ensures
        build_of(root, config, output) is Ok <==> {
            &&& (config.project is Some && config.project->0.name is Some && trimmed(
                config.project->0.name->0@,
            ).len() > 0) || (file_name(root) is Some && valid_utf8(file_name(root)->0))
            &&& trimmed(config.run.command@).len() > 0
            &&& bundle_of(by_ref(&config.bundle)) is Ok
            &&& managers_of(manager_items(by_ref(&config.package_managers))) is Ok
            &&& runtimes_of(runtime_items(by_ref(&config.runtimes))) is Ok
            &&& requests_of(package_items(by_ref(&config.system_packages))) is Ok
            &&& recipe_plan(by_ref(&config.extensions)) is Ok
        },
{
}

/// A hook is run in the payload by the shell, trimmed and with the isolated environment, and its failure
/// is named after it; a hook without a command does nothing.
pub proof fn law_hooks_run_their_command(
    stage: Seq<u8>,
    label: Seq<char>,
    command: Option<Seq<char>>,
    envs: Seq<(Seq<char>, Seq<char>)>,
)
    ensures
        ({
            let steps = hook_steps(stage, label, command, envs);
            &&& command is None || trimmed(command->0).len() == 0 ==> steps.len() == 0
            &&& command is Some && trimmed(command->0).len() > 0 ==> {
                &&& steps.len() == 2 && steps[0] is Log
                &&& runs_shell(steps[1], trimmed(command->0), stage, envs)
                &&& steps[1]->Run_failure == label + " hook failed: "@ + trimmed(command->0)
            }
        }),
{
    if command is Some && trimmed(command->0).len() > 0 {
        let run = hook_steps(stage, label, command, envs)[1]->Run_command;
        assert(run.args =~= seq![ArgView::Text("-c"@), ArgView::Text(trimmed(command->0))]);
        assert(run.envs =~= envs.map_values(|e: (Seq<char>, Seq<char>)| (e.0, ArgView::Text(e.1))));
    }
}

/// The notes of a build tell of the runtimes that were added for package managers, one note for each.
pub proof fn law_notes_tell_of_added_runtimes(root: Seq<u8>, config: TortiaConfig, output: Option<Seq<u8>>)
    requires
        build_of(root, config, output) is Ok,
    ensures
        build_notes(root, config).len() == build_of(root, config, output)->Ok_0.runtimes.len() - runtimes_of(
            runtime_items(by_ref(&config.runtimes)),
        )->Ok_0.len(),
{
    law_added_runtimes_are_needed(
        runtimes_of(runtime_items(by_ref(&config.runtimes)))->Ok_0,
        build_of(root, config, output)->Ok_0.managers,
    );
}

/// Of several errors of a recipe the first counts, in this order: the name, the command to run, the bundle,
/// the package managers, the runtimes, the packages on the host, the extensions.
pub proof fn law_first_error_of_a_recipe_counts(root: Seq<u8>, config: TortiaConfig, output: Option<Seq<u8>>)
    ensures
        ({
            let named = config.project is Some && config.project->0.name is Some && trimmed(
                config.project->0.name->0@,
            ).len() > 0;
            let nameable = named || (file_name(root) is Some && valid_utf8(file_name(root)->0));
            let error = build_of(root, config, output)->Err_0;
            let bundle = bundle_of(by_ref(&config.bundle));
            let managers = managers_of(manager_items(by_ref(&config.package_managers)));
            let runtimes = runtimes_of(runtime_items(by_ref(&config.runtimes)));
            let packages = requests_of(package_items(by_ref(&config.system_packages)));
            let extensions = recipe_plan(by_ref(&config.extensions));
            if !nameable {
                error == "unable to infer project name from directory"@
            } else if trimmed(config.run.command@).len() == 0 {
                error == "[run].command is required in RecipeFile"@
            } else if bundle is Err {
                error == bundle->Err_0
            } else if managers is Err {
                error == managers->Err_0
            } else if runtimes is Err {
                error == runtimes->Err_0
            } else if packages is Err {
                error == packages->Err_0
            } else if extensions is Err {
                error == extensions->Err_0
            } else {
                build_of(root, config, output) is Ok
            }
        }),
{
}

} // verus!
