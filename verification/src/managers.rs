//! Package managers that a recipe asks for, and the runtimes that they need.
use vstd::prelude::*;
use vstd::string::*;
use vstd::utf8::encode_utf8;
use crate::command::{
    available_step, ensure_command_available, env_texts, run_shell, run_step, script_steps, shell, step_line,
    write_executable_script, ArgView, Plan, StepView,
};
use crate::log::{log_info, log_step, log_views, Level, LogLine, LogView};
use crate::paths::{joined, pm_bin, pm_bin_in, within, HostPath};
use crate::recipe::{items_of, listed_texts, PackageManagersConfig};
use crate::runtime::{
    family_name, runtime_family_name, runtime_views, RuntimeFamily, RuntimeSpec, RuntimeView, DEFAULT_GO, DEFAULT_NODE,
    DEFAULT_RUST,
};
use crate::text::{lemma_error_stays, lowered, same, texts, to_ascii_lowercase, trim, trimmed};

verus! {

/// A package manager that a recipe asks for.
#[derive(Debug, Clone, Copy, PartialEq, Eq, Structural)]
pub enum PackageManagerSpec {
    Npm,
    Pnpm,
    Yarn,
    Pip,
    Uv,
    Cargo,
    Go,
    Deno,
    Bun,
}

/// The name of a package manager.
pub open spec fn manager_name(manager: PackageManagerSpec) -> Seq<char> {
    match manager {
        PackageManagerSpec::Npm => "npm"@,
        PackageManagerSpec::Pnpm => "pnpm"@,
        PackageManagerSpec::Yarn => "yarn"@,
        PackageManagerSpec::Pip => "pip"@,
        PackageManagerSpec::Uv => "uv"@,
        PackageManagerSpec::Cargo => "cargo"@,
        PackageManagerSpec::Go => "go"@,
        PackageManagerSpec::Deno => "deno"@,
        PackageManagerSpec::Bun => "bun"@,
    }
}

/// The kind of runtimes that a package manager needs.
pub open spec fn needed_runtime(manager: PackageManagerSpec) -> RuntimeFamily {
    match manager {
        PackageManagerSpec::Npm => RuntimeFamily::Node,
        PackageManagerSpec::Pnpm => RuntimeFamily::Node,
        PackageManagerSpec::Yarn => RuntimeFamily::Node,
        PackageManagerSpec::Pip => RuntimeFamily::Python,
        PackageManagerSpec::Uv => RuntimeFamily::Python,
        PackageManagerSpec::Cargo => RuntimeFamily::Rust,
        PackageManagerSpec::Go => RuntimeFamily::Go,
        PackageManagerSpec::Deno => RuntimeFamily::Deno,
        PackageManagerSpec::Bun => RuntimeFamily::Bun,
    }
}

impl PackageManagerSpec {
    /// The name of the package manager.
    pub fn name(self) -> (r: &'static str)
        ensures
            r@ == manager_name(self),
    {
        match self {
            PackageManagerSpec::Npm => "npm",
            PackageManagerSpec::Pnpm => "pnpm",
            PackageManagerSpec::Yarn => "yarn",
            PackageManagerSpec::Pip => "pip",
            PackageManagerSpec::Uv => "uv",
            PackageManagerSpec::Cargo => "cargo",
            PackageManagerSpec::Go => "go",
            PackageManagerSpec::Deno => "deno",
            PackageManagerSpec::Bun => "bun",
        }
    }

    /// The kind of runtimes that the package manager needs.
    pub fn required_runtime(self) -> (r: RuntimeFamily)
        ensures
            r == needed_runtime(self),
    {
        match self {
            PackageManagerSpec::Npm | PackageManagerSpec::Pnpm | PackageManagerSpec::Yarn => RuntimeFamily::Node,
            PackageManagerSpec::Pip | PackageManagerSpec::Uv => RuntimeFamily::Python,
            PackageManagerSpec::Cargo => RuntimeFamily::Rust,
            PackageManagerSpec::Go => RuntimeFamily::Go,
            PackageManagerSpec::Deno => RuntimeFamily::Deno,
            PackageManagerSpec::Bun => RuntimeFamily::Bun,
        }
    }
}

/// The package manager that a name in lower case stands for.
pub open spec fn manager_for(name: Seq<char>) -> Option<PackageManagerSpec> {
    if name == "npm"@ {
        Some(PackageManagerSpec::Npm)
    } else if name == "pnpm"@ {
        Some(PackageManagerSpec::Pnpm)
    } else if name == "yarn"@ {
        Some(PackageManagerSpec::Yarn)
    } else if name == "pip"@ || name == "pip3"@ {
        Some(PackageManagerSpec::Pip)
    } else if name == "uv"@ {
        Some(PackageManagerSpec::Uv)
    } else if name == "cargo"@ {
        Some(PackageManagerSpec::Cargo)
    } else if name == "go"@ || name == "gomod"@ || name == "go-mod"@ {
        Some(PackageManagerSpec::Go)
    } else if name == "deno"@ {
        Some(PackageManagerSpec::Deno)
    } else if name == "bun"@ {
        Some(PackageManagerSpec::Bun)
    } else {
        None
    }
}

/// The error for a package manager that is not known.
pub open spec fn unsupported_manager(name: Seq<char>) -> Seq<char> {
    "unsupported package manager '"@ + name + "'. supported: npm, pnpm, yarn, pip, uv, cargo, go, deno, bun"@
}

/// A list with one more item, unless it holds that item.
pub open spec fn with_new<T>(list: Seq<T>, item: T) -> Seq<T> {
    if list.contains(item) {
        list
    } else {
        list.push(item)
    }
}

/// The package managers that a list of items asks for, each where it is first asked for, blank items
/// left out; or the error for the first item that is not known.
pub open spec fn managers_of(items: Seq<Seq<char>>) -> Result<Seq<PackageManagerSpec>, Seq<char>>
    decreases items.len(),
{
    if items.len() == 0 {
        Ok(Seq::empty())
    } else {
        match managers_of(items.drop_last()) {
            Err(e) => Err(e),
            Ok(before) => {
                let name = lowered(trimmed(items.last()));
                if name.len() == 0 {
                    Ok(before)
                } else {
                    match manager_for(name) {
                        Some(manager) => Ok(with_new(before, manager)),
                        None => Err(unsupported_manager(name)),
                    }
                }
            },
        }
    }
}

/// The items of `[package_managers]`.
pub open spec fn manager_items(package_managers: Option<&PackageManagersConfig>) -> Seq<Seq<char>> {
    match package_managers {
        Some(config) => listed_texts(config.items),
        None => Seq::empty(),
    }
}

/// The package manager that a name in lower case stands for.
fn manager_from_name(name: &str) -> (r: Option<PackageManagerSpec>)
    ensures
        r == manager_for(name@),
{
    if same(name, "npm") {
        Some(PackageManagerSpec::Npm)
    } else if same(name, "pnpm") {
        Some(PackageManagerSpec::Pnpm)
    } else if same(name, "yarn") {
        Some(PackageManagerSpec::Yarn)
    } else if same(name, "pip") || same(name, "pip3") {
        Some(PackageManagerSpec::Pip)
    } else if same(name, "uv") {
        Some(PackageManagerSpec::Uv)
    } else if same(name, "cargo") {
        Some(PackageManagerSpec::Cargo)
    } else if same(name, "go") || same(name, "gomod") || same(name, "go-mod") {
        Some(PackageManagerSpec::Go)
    } else if same(name, "deno") {
        Some(PackageManagerSpec::Deno)
    } else if same(name, "bun") {
        Some(PackageManagerSpec::Bun)
    } else {
        None
    }
}

/// Whether a list holds a package manager.
fn holds(list: &Vec<PackageManagerSpec>, manager: PackageManagerSpec) -> (r: bool)
    ensures
        r == list@.contains(manager),
{
    let mut i: usize = 0;
    while i < list.len()
        invariant
            i <= list.len(),
            forall|j: int| 0 <= j < i ==> list@[j] != manager,
        decreases list.len() - i,
    {
        if list[i] == manager {
            assert(list@[i as int] == manager);
            return true;
        }
        i = i + 1;
    }
    false
}

/// The package managers that `[package_managers]` asks for.
pub fn parse_package_manager_specs(package_managers: Option<&PackageManagersConfig>) -> (r: Result<
    Vec<PackageManagerSpec>,
    String,
>)
    ensures
        match r {
            Ok(list) => managers_of(manager_items(package_managers)) == Ok::<Seq<PackageManagerSpec>, Seq<char>>(
                list@,
            ),
            Err(e) => managers_of(manager_items(package_managers)) == Err::<Seq<PackageManagerSpec>, Seq<char>>(
                e@,
            ),
        },
{
    let items: Vec<String> = match package_managers {
        Some(config) => items_of(&config.items),
        None => Vec::new(),
    };
    let ghost all = texts(items@);
    assert(all =~= manager_items(package_managers));
    let mut specs: Vec<PackageManagerSpec> = Vec::new();
    let mut i: usize = 0;
    assert(all.take(0) =~= Seq::empty());
    while i < items.len()
        invariant
            i <= items.len(),
            all == texts(items@),
            all == manager_items(package_managers),
            managers_of(all.take(i as int)) == Ok::<Seq<PackageManagerSpec>, Seq<char>>(specs@),
        decreases items.len() - i,
    {
        let ghost upto = all.take(i + 1);
        assert(upto.drop_last() =~= all.take(i as int));
        assert(upto.last() == items@[i as int]@);
        let normalized: String = to_ascii_lowercase(trim(items[i].as_str()));
        if normalized.as_str().unicode_len() > 0 {
            match manager_from_name(normalized.as_str()) {
                Some(manager) => {
                    if !holds(&specs, manager) {
                        specs.push(manager);
                    }
                },
                None => {
                    let e = "unsupported package manager '".to_string().concat(normalized.as_str()).concat(
                        "'. supported: npm, pnpm, yarn, pip, uv, cargo, go, deno, bun",
                    );
                    proof {
                        lemma_error_stays(|s: Seq<Seq<char>>| managers_of(s), all, i + 1);
                    }
                    return Err(e);
                },
            }
        }
        i = i + 1;
    }
    assert(all.take(i as int) =~= all);
    Ok(specs)
}

/// No package manager is asked for twice.
pub proof fn law_managers_are_distinct(items: Seq<Seq<char>>)
    ensures
        managers_of(items) matches Ok(list) ==> list.no_duplicates(),
    decreases items.len(),
{
    if items.len() > 0 {
        law_managers_are_distinct(items.drop_last());
    }
}

/// The runtime that is added for a kind of runtimes.
pub open spec fn default_runtime(family: RuntimeFamily) -> RuntimeView {
    match family {
        RuntimeFamily::Node => RuntimeView::Node { version: DEFAULT_NODE@ },
        RuntimeFamily::Rust => RuntimeView::Rust { toolchain: DEFAULT_RUST@ },
        RuntimeFamily::Python => RuntimeView::Python { version: None },
        RuntimeFamily::Go => RuntimeView::Go { version: DEFAULT_GO@ },
        RuntimeFamily::Deno => RuntimeView::Deno { version: None },
        RuntimeFamily::Bun => RuntimeView::Bun { version: None },
    }
}

/// Whether a list holds a runtime of a kind.
pub open spec fn has_family(runtimes: Seq<RuntimeView>, family: RuntimeFamily) -> bool {
    exists|i: int| 0 <= i < runtimes.len() && (#[trigger] runtimes[i]).family() == family
}

/// The runtimes of a recipe with those that its package managers need and it does not name.
pub open spec fn merged(runtimes: Seq<RuntimeView>, managers: Seq<PackageManagerSpec>) -> Seq<RuntimeView>
    decreases managers.len(),
{
    if managers.len() == 0 {
        runtimes
    } else {
        let before = merged(runtimes, managers.drop_last());
        let family = needed_runtime(managers.last());
        if has_family(before, family) {
            before
        } else {
            before.push(default_runtime(family))
        }
    }
}

/// The notes on the runtimes that are added.
pub open spec fn merge_notes(runtimes: Seq<RuntimeView>, managers: Seq<PackageManagerSpec>) -> Seq<LogView>
    decreases managers.len(),
{
    if managers.len() == 0 {
        Seq::empty()
    } else {
        let notes = merge_notes(runtimes, managers.drop_last());
        let family = needed_runtime(managers.last());
        if has_family(merged(runtimes, managers.drop_last()), family) {
            notes
        } else {
            notes.push(
                LogView {
                    level: Level::Info,
                    message: "Auto-adding runtime '"@ + family_name(family) + "' for package manager '"@
                        + manager_name(managers.last()) + "'"@,
                },
            )
        }
    }
}

/// Whether a list holds a runtime of a kind.
pub fn holds_family(runtimes: &Vec<RuntimeSpec>, family: RuntimeFamily) -> (r: bool)
    ensures
        r == has_family(runtime_views(runtimes@), family),
{
    let ghost views = runtime_views(runtimes@);
    let mut i: usize = 0;
    while i < runtimes.len()
        invariant
            i <= runtimes.len(),
            views == runtime_views(runtimes@),
            forall|j: int| 0 <= j < i ==> (#[trigger] views[j]).family() != family,
        decreases runtimes.len() - i,
    {
        assert(views[i as int] == runtimes@[i as int]@);
        if runtimes[i].family() == family {
            return true;
        }
        i = i + 1;
    }
    false
}

/// The runtime that is added for a kind of runtimes.
fn runtime_by_default(family: RuntimeFamily) -> (r: RuntimeSpec)
    ensures
        r@ == default_runtime(family),
{
    match family {
        RuntimeFamily::Node => RuntimeSpec::Node { version: DEFAULT_NODE.to_string() },
        RuntimeFamily::Rust => RuntimeSpec::Rust { toolchain: DEFAULT_RUST.to_string() },
        RuntimeFamily::Python => RuntimeSpec::Python { version: None },
        RuntimeFamily::Go => RuntimeSpec::Go { version: DEFAULT_GO.to_string() },
        RuntimeFamily::Deno => RuntimeSpec::Deno { version: None },
        RuntimeFamily::Bun => RuntimeSpec::Bun { version: None },
    }
}

/// Adds the runtimes that the package managers need and the recipe does not name; gives the notes
/// on what was added.
pub fn merge_required_runtimes(runtimes: &mut Vec<RuntimeSpec>, managers: &Vec<PackageManagerSpec>) -> (r: Vec<
    LogLine,
>)
    ensures
        runtime_views(final(runtimes)@) == merged(runtime_views(old(runtimes)@), managers@),
        log_views(r@) == merge_notes(runtime_views(old(runtimes)@), managers@),
{
    let mut notes: Vec<LogLine> = Vec::new();
    let ghost start = runtime_views(runtimes@);
    let mut i: usize = 0;
    assert(managers@.take(0) =~= Seq::empty());
    assert(log_views(notes@) =~= Seq::empty());
    while i < managers.len()
        invariant
            i <= managers.len(),
            runtime_views(runtimes@) == merged(start, managers@.take(i as int)),
            log_views(notes@) == merge_notes(start, managers@.take(i as int)),
        decreases managers.len() - i,
    {
        let ghost before = runtime_views(runtimes@);
        let ghost noted = log_views(notes@);
        assert(managers@.take(i + 1).drop_last() =~= managers@.take(i as int));
        let manager = managers[i];
        let family = manager.required_runtime();
        if !holds_family(runtimes, family) {
            let message = "Auto-adding runtime '".to_string().concat(runtime_family_name(family)).concat(
                "' for package manager '",
            ).concat(manager.name()).concat("'");
            let note = log_info(message.as_str());
            let added = runtime_by_default(family);
            notes.push(note);
            assert(log_views(notes@) =~= noted.push(note@));
            runtimes.push(added);
            assert(runtime_views(runtimes@) =~= before.push(added@));
        }
        i = i + 1;
    }
    assert(managers@.take(i as int) =~= managers@);
    notes
}

/// Required runtimes are added where they are missing: whatever a recipe names, afterwards every
/// package manager finds a runtime of the kind that it needs.
pub proof fn law_managers_find_their_runtimes(runtimes: Seq<RuntimeView>, managers: Seq<PackageManagerSpec>)
    ensures
        forall|m: PackageManagerSpec|
            managers.contains(m) ==> #[trigger] has_family(merged(runtimes, managers), needed_runtime(m)),
    decreases managers.len(),
{
    if managers.len() > 0 {
        law_managers_find_their_runtimes(runtimes, managers.drop_last());
        let before = merged(runtimes, managers.drop_last());
        let after = merged(runtimes, managers);
        assert forall|m: PackageManagerSpec| managers.contains(m) implies #[trigger] has_family(
            after,
            needed_runtime(m),
        ) by {
            let k = choose|k: int| 0 <= k < managers.len() && managers[k] == m;
            if k == managers.len() - 1 {
                if !has_family(before, needed_runtime(m)) {
                    assert(after[before.len() as int].family() == needed_runtime(m));
                }
            } else {
                assert(managers.drop_last()[k] == m);
                assert(has_family(before, needed_runtime(m)));
                let i = choose|i: int|
                    0 <= i < before.len() && (#[trigger] before[i]).family() == needed_runtime(m);
                assert(after[i] == before[i]);
            }
        }
    }
}

/// What a recipe names stays as it is: runtimes are only added, at the end, at most one of a kind
/// and none of a kind that the recipe names.
pub proof fn law_named_runtimes_stay(runtimes: Seq<RuntimeView>, managers: Seq<PackageManagerSpec>)
    ensures
        merged(runtimes, managers).len() >= runtimes.len(),
        merged(runtimes, managers).take(runtimes.len() as int) == runtimes,
        forall|i: int, j: int|
            0 <= i < j < merged(runtimes, managers).len() && runtimes.len() <= j ==> (#[trigger] merged(
                runtimes,
                managers,
            )[i]).family() != (#[trigger] merged(runtimes, managers)[j]).family(),
    decreases managers.len(),
{
    let after = merged(runtimes, managers);
    if managers.len() == 0 {
        assert(after.take(runtimes.len() as int) =~= runtimes);
    } else {
        let before = merged(runtimes, managers.drop_last());
        law_named_runtimes_stay(runtimes, managers.drop_last());
        assert(after.take(runtimes.len() as int) =~= before.take(runtimes.len() as int));
        assert forall|i: int, j: int|
            0 <= i < j < after.len() && runtimes.len() <= j implies (#[trigger] after[i]).family() != (
        #[trigger] after[j]).family() by {
            assert(after[i] == before[i]);
            if j < before.len() {
                assert(after[j] == before[j]);
            }
        }
    }
}

/// A recipe that names what its package managers need is left alone.
pub proof fn law_nothing_added_twice(runtimes: Seq<RuntimeView>, managers: Seq<PackageManagerSpec>)
    requires
        forall|m: PackageManagerSpec| managers.contains(m) ==> #[trigger] has_family(runtimes, needed_runtime(m)),
    ensures
        merged(runtimes, managers) == runtimes,
        merge_notes(runtimes, managers) == Seq::<LogView>::empty(),
    decreases managers.len(),
{
    if managers.len() > 0 {
        assert forall|m: PackageManagerSpec| managers.drop_last().contains(m) implies #[trigger] has_family(
            runtimes,
            needed_runtime(m),
        ) by {
            let k = choose|k: int| 0 <= k < managers.drop_last().len() && managers.drop_last()[k] == m;
            assert(managers[k] == m);
        }
        law_nothing_added_twice(runtimes, managers.drop_last());
        assert(managers.contains(managers.last()));
        assert(has_family(runtimes, needed_runtime(managers.last())));
    }
}

/// The body of a script that hands its arguments to `command`.
pub open spec fn wrapper_body(command: Seq<char>) -> Seq<char> {
    "#!/bin/sh\nexec "@ + command + " \"$@\"\n"@
}

/// The steps that make a package manager ready in the payload `stage`: `bin` is the directory of the
/// wrappers, `envs` the isolated environment.
pub open spec fn preparation(
    manager: PackageManagerSpec,
    stage: Seq<u8>,
    bin: Seq<u8>,
    envs: Seq<(Seq<char>, Seq<char>)>,
) -> Seq<StepView> {
    match manager {
        PackageManagerSpec::Npm => seq![available_step(stage, envs, "npm"@, "runtime 'node' is required"@)],
        PackageManagerSpec::Pnpm => seq![
            available_step(stage, envs, "corepack"@, "runtime 'node' is required for pnpm"@),
            run_step(
                shell("corepack prepare pnpm@latest --activate"@, stage, envs),
                "failed to prepare pnpm via corepack"@,
            ),
        ] + script_steps(within(bin, "pnpm"@), wrapper_body("corepack pnpm"@)),
        PackageManagerSpec::Yarn => seq![
            available_step(stage, envs, "corepack"@, "runtime 'node' is required for yarn"@),
            run_step(
                shell("corepack prepare yarn@stable --activate"@, stage, envs),
                "failed to prepare yarn via corepack"@,
            ),
        ] + script_steps(within(bin, "yarn"@), wrapper_body("corepack yarn"@)),
        PackageManagerSpec::Pip => seq![
            available_step(stage, envs, "python"@, "runtime 'python' is required for pip"@),
        ] + script_steps(within(bin, "pip"@), wrapper_body("python -m pip"@)) + script_steps(
            within(bin, "pip3"@),
            wrapper_body("python -m pip"@),
        ),
        PackageManagerSpec::Uv => seq![
            available_step(stage, envs, "python"@, "runtime 'python' is required for uv"@),
            run_step(
                shell("python -m pip install --upgrade uv"@, stage, envs),
                "failed to install uv in isolated environment"@,
            ),
        ] + script_steps(within(bin, "uv"@), wrapper_body("python -m uv"@)),
        PackageManagerSpec::Cargo => seq![
            available_step(stage, envs, "cargo"@, "runtime 'rust' is required for cargo"@),
        ],
        PackageManagerSpec::Go => seq![available_step(stage, envs, "go"@, "runtime 'go' is required"@)],
        PackageManagerSpec::Deno => seq![available_step(stage, envs, "deno"@, "runtime 'deno' is required"@)],
        PackageManagerSpec::Bun => seq![available_step(stage, envs, "bun"@, "runtime 'bun' is required"@)],
    }
}

/// The steps that make package managers ready, one after the other.
pub open spec fn preparations(
    managers: Seq<PackageManagerSpec>,
    stage: Seq<u8>,
    bin: Seq<u8>,
    envs: Seq<(Seq<char>, Seq<char>)>,
) -> Seq<StepView>
    decreases managers.len(),
{
    if managers.len() == 0 {
        Seq::empty()
    } else {
        preparations(managers.drop_last(), stage, bin, envs) + preparation(managers.last(), stage, bin, envs)
    }
}

/// The script that hands its arguments to `command`.
fn wrapper_script(path: &HostPath, command: &str) -> (r: Plan)
    ensures
        r@ == script_steps(path@, wrapper_body(command@)),
{
    write_executable_script(path, "#!/bin/sh\nexec ".to_string().concat(command).concat(" \"$@\"\n").as_str())
}

/// The steps that make a package manager ready.
fn prepare_manager(
    manager: PackageManagerSpec,
    stage_root: &HostPath,
    bin: &HostPath,
    envs: &Vec<(String, String)>,
) -> (r: Plan)
    ensures
        r@ == preparation(manager, stage_root@, bin@, env_texts(envs@)),
{
    let mut plan = Plan::new();
    match manager {
        PackageManagerSpec::Npm => {
            plan.push(ensure_command_available(stage_root, envs, "npm", "runtime 'node' is required"));
        },
        PackageManagerSpec::Pnpm => {
            plan.push(
                ensure_command_available(stage_root, envs, "corepack", "runtime 'node' is required for pnpm"),
            );
            plan.run(
                run_shell("corepack prepare pnpm@latest --activate", stage_root, envs),
                "failed to prepare pnpm via corepack",
            );
            plan.append(wrapper_script(&bin.join("pnpm"), "corepack pnpm"));
        },
        PackageManagerSpec::Yarn => {
            plan.push(
                ensure_command_available(stage_root, envs, "corepack", "runtime 'node' is required for yarn"),
            );
            plan.run(
                run_shell("corepack prepare yarn@stable --activate", stage_root, envs),
                "failed to prepare yarn via corepack",
            );
            plan.append(wrapper_script(&bin.join("yarn"), "corepack yarn"));
        },
        PackageManagerSpec::Pip => {
            plan.push(
                ensure_command_available(stage_root, envs, "python", "runtime 'python' is required for pip"),
            );
            plan.append(wrapper_script(&bin.join("pip"), "python -m pip"));
            plan.append(wrapper_script(&bin.join("pip3"), "python -m pip"));
        },
        PackageManagerSpec::Uv => {
            plan.push(
                ensure_command_available(stage_root, envs, "python", "runtime 'python' is required for uv"),
            );
            plan.run(
                run_shell("python -m pip install --upgrade uv", stage_root, envs),
                "failed to install uv in isolated environment",
            );
            plan.append(wrapper_script(&bin.join("uv"), "python -m uv"));
        },
        PackageManagerSpec::Cargo => {
            plan.push(
                ensure_command_available(stage_root, envs, "cargo", "runtime 'rust' is required for cargo"),
            );
        },
        PackageManagerSpec::Go => {
            plan.push(ensure_command_available(stage_root, envs, "go", "runtime 'go' is required"));
        },
        PackageManagerSpec::Deno => {
            plan.push(ensure_command_available(stage_root, envs, "deno", "runtime 'deno' is required"));
        },
        PackageManagerSpec::Bun => {
            plan.push(ensure_command_available(stage_root, envs, "bun", "runtime 'bun' is required"));
        },
    }
    assert(plan@ =~= preparation(manager, stage_root@, bin@, env_texts(envs@)));
    plan
}

/// The steps that make the package managers ready in the payload `stage`, whose tools directory is
/// named `tools`.
pub open spec fn manager_steps(
    stage: Seq<u8>,
    tools: Seq<char>,
    managers: Seq<PackageManagerSpec>,
    envs: Seq<(Seq<char>, Seq<char>)>,
) -> Seq<StepView> {
    let bin = joined(stage, pm_bin(tools));
    if managers.len() == 0 {
        Seq::empty()
    } else {
        seq![step_line("Preparing package managers"@), StepView::CreateDirs(bin)] + preparations(
            managers,
            stage,
            bin,
            envs,
        )
    }
}

/// The steps that make the package managers ready in the payload; `tools_dir` is the name of its
/// tools directory, `envs` the isolated environment.
pub fn ensure_package_managers(
    stage_root: &HostPath,
    tools_dir: &str,
    managers: &Vec<PackageManagerSpec>,
    envs: &Vec<(String, String)>,
) -> (r: Plan)
    ensures
        r@ == manager_steps(stage_root@, tools_dir@, managers@, env_texts(envs@)),
{
    let mut plan = Plan::new();
    if managers.len() == 0 {
        return plan;
    }
    let bin = stage_root.join_path(&pm_bin_in(tools_dir));
    plan.log(log_step("Preparing package managers"));
    plan.create_dirs(&bin);
    let ghost head = plan@;
    let ghost texts = env_texts(envs@);
    let mut i: usize = 0;
    assert(managers@.take(0) =~= Seq::empty());
    assert(plan@ =~= head + preparations(managers@.take(0), stage_root@, bin@, texts));
    while i < managers.len()
        invariant
            i <= managers.len(),
            texts == env_texts(envs@),
            plan@ == head + preparations(managers@.take(i as int), stage_root@, bin@, texts),
        decreases managers.len() - i,
    {
        let ghost before = plan@;
        assert(managers@.take(i + 1).drop_last() =~= managers@.take(i as int));
        plan.append(prepare_manager(managers[i], stage_root, &bin, envs));
        i = i + 1;
        assert(plan@ =~= head + preparations(managers@.take(i as int), stage_root@, bin@, texts));
    }
    assert(managers@.take(i as int) =~= managers@);
    assert(head =~= seq![step_line("Preparing package managers"@), StepView::CreateDirs(bin@)]);
    plan
}

/// A name means the package manager of that name; `pip3` means `pip`, `gomod` and `go-mod` mean `go`, and
/// no other names mean one.
pub proof fn law_managers_are_what_is_named(name: Seq<char>)
    ensures
        manager_for(name) == Some(PackageManagerSpec::Npm) <==> name == "npm"@,
        manager_for(name) == Some(PackageManagerSpec::Pnpm) <==> name == "pnpm"@,
        manager_for(name) == Some(PackageManagerSpec::Yarn) <==> name == "yarn"@,
        manager_for(name) == Some(PackageManagerSpec::Pip) <==> name == "pip"@ || name == "pip3"@,
        manager_for(name) == Some(PackageManagerSpec::Uv) <==> name == "uv"@,
        manager_for(name) == Some(PackageManagerSpec::Cargo) <==> name == "cargo"@,
        manager_for(name) == Some(PackageManagerSpec::Go) <==> name == "go"@ || name == "gomod"@ || name
            == "go-mod"@,
        manager_for(name) == Some(PackageManagerSpec::Deno) <==> name == "deno"@,
        manager_for(name) == Some(PackageManagerSpec::Bun) <==> name == "bun"@,
{
    reveal_strlit("npm");
    reveal_strlit("pnpm");
    reveal_strlit("yarn");
    reveal_strlit("pip");
    reveal_strlit("pip3");
    reveal_strlit("uv");
    reveal_strlit("cargo");
    reveal_strlit("go");
    reveal_strlit("gomod");
    reveal_strlit("go-mod");
    reveal_strlit("deno");
    reveal_strlit("bun");
    assert("npm"@[0] == 'n' && "pnpm"@[1] == 'n' && "yarn"@[0] == 'y' && "pip"@[0] == 'p' && "pip3"@[1] == 'i');
    assert("pnpm"@[0] == 'p' && "uv"@[0] == 'u' && "cargo"@[0] == 'c' && "go"@[0] == 'g' && "gomod"@[0] == 'g');
    assert("go-mod"@[0] == 'g' && "deno"@[0] == 'd' && "bun"@[0] == 'b');
    assert("gomod"@.len() == 5 && "go-mod"@.len() == 6 && "go"@.len() == 2);
}

/// `[package_managers]` is read item by item, in any case and with white space round the names: a
/// package manager is on the list if and only if an item that is not blank names it, those that are named
/// first come first, and an item that names none is an error.
pub proof fn law_managers_are_read_item_by_item(items: Seq<Seq<char>>)
    ensures
        managers_of(items) is Ok <==> forall|i: int|
            0 <= i < items.len() && trimmed(#[trigger] items[i]).len() > 0 ==> manager_for(
                lowered(trimmed(items[i])),
            ) is Some,
        managers_of(items) matches Ok(list) ==> forall|m: PackageManagerSpec|
            #[trigger] list.contains(m) <==> exists|i: int|
                0 <= i < items.len() && trimmed(#[trigger] items[i]).len() > 0 && manager_for(
                    lowered(trimmed(items[i])),
                ) == Some(m),
        managers_of(items) matches Ok(list) ==> forall|k: int|
            0 <= k <= items.len() ==> (#[trigger] managers_of(items.take(k)) matches Ok(first)
                && first.is_prefix_of(list)),
    decreases items.len(),
{
    if items.len() > 0 {
        let front = items.drop_last();
        let last = items.last();
        law_managers_are_read_item_by_item(front);
        assert forall|i: int| 0 <= i < front.len() implies #[trigger] front[i] == items[i] by {}
        assert(items[items.len() - 1] == last);
        assert(lowered(trimmed(last)).len() == trimmed(last).len());
        if managers_of(front) is Err {
            let k = choose|k: int|
                0 <= k < front.len() && trimmed(#[trigger] front[k]).len() > 0 && manager_for(
                    lowered(trimmed(front[k])),
                ) is None;
            assert(items[k] == front[k]);
        }
        if managers_of(items) is Ok {
            let list = managers_of(items)->Ok_0;
            let before = managers_of(front)->Ok_0;
            assert forall|i: int| 0 <= i < items.len() && trimmed(
                #[trigger] items[i],
            ).len() > 0 implies manager_for(lowered(trimmed(items[i]))) is Some by {
                if i < front.len() {
                    assert(front[i] == items[i]);
                }
            }
            assert forall|m: PackageManagerSpec| #[trigger] list.contains(m) <==> exists|i: int|
                0 <= i < items.len() && trimmed(#[trigger] items[i]).len() > 0 && manager_for(
                    lowered(trimmed(items[i])),
                ) == Some(m) by {
                if list.contains(m) {
                    let j = choose|j: int| 0 <= j < list.len() && list[j] == m;
                    if j < before.len() {
                        assert(before[j] == m);
                        assert(before.contains(m));
                        let i = choose|i: int|
                            0 <= i < front.len() && trimmed(#[trigger] front[i]).len() > 0 && manager_for(
                                lowered(trimmed(front[i])),
                            ) == Some(m);
                        assert(items[i] == front[i]);
                    }
                }
                if exists|i: int|
                    0 <= i < items.len() && trimmed(#[trigger] items[i]).len() > 0 && manager_for(
                        lowered(trimmed(items[i])),
                    ) == Some(m) {
                    let i = choose|i: int|
                        0 <= i < items.len() && trimmed(#[trigger] items[i]).len() > 0 && manager_for(
                            lowered(trimmed(items[i])),
                        ) == Some(m);
                    if i < front.len() {
                        assert(front[i] == items[i]);
                        assert(before.contains(m));
                        let j = choose|j: int| 0 <= j < before.len() && before[j] == m;
                        assert(list[j] == m);
                    } else if !before.contains(m) {
                        assert(list[before.len() as int] == m);
                    }
                }
            }
            assert forall|k: int| 0 <= k <= items.len() implies (#[trigger] managers_of(items.take(k)) matches Ok(
                first,
            ) && first.is_prefix_of(list)) by {
                if k < items.len() {
                    assert(items.take(k) =~= front.take(k));
                    let first = managers_of(front.take(k))->Ok_0;
                    assert(first.is_prefix_of(before));
                    assert forall|j: int| 0 <= j < first.len() implies first[j] == list[j] by {
                        assert(first[j] == before[j]);
                    }
                    assert(first =~= list.subrange(0, first.len() as int));
                } else {
                    assert(items.take(k) =~= items);
                    assert(list =~= list.subrange(0, list.len() as int));
                }
            }
        }
    } else {
        assert forall|k: int| 0 <= k <= items.len() implies (#[trigger] managers_of(items.take(k)) matches Ok(first)
            && first.is_prefix_of(managers_of(items)->Ok_0)) by {
            assert(items.take(k) =~= items);
        }
    }
}

/// A package manager needs the runtime that it comes with: Node for npm, pnpm and yarn, Python for pip
/// and uv, Rust for Cargo, and Go, Deno and Bun for their own.
pub proof fn law_managers_need_their_runtime(manager: PackageManagerSpec)
    ensures
        needed_runtime(manager) == RuntimeFamily::Node <==> manager == PackageManagerSpec::Npm || manager
            == PackageManagerSpec::Pnpm || manager == PackageManagerSpec::Yarn,
        needed_runtime(manager) == RuntimeFamily::Python <==> manager == PackageManagerSpec::Pip || manager
            == PackageManagerSpec::Uv,
        needed_runtime(manager) == RuntimeFamily::Rust <==> manager == PackageManagerSpec::Cargo,
        needed_runtime(manager) == RuntimeFamily::Go <==> manager == PackageManagerSpec::Go,
        needed_runtime(manager) == RuntimeFamily::Deno <==> manager == PackageManagerSpec::Deno,
        needed_runtime(manager) == RuntimeFamily::Bun <==> manager == PackageManagerSpec::Bun,
{
}

/// A runtime is added only for a package manager that needs one of its kind, where the recipe names none
/// of that kind; it is added in the version that an item without a version means, and there is one note
/// for each. Runtimes are added in the order of the package managers.
pub proof fn law_added_runtimes_are_needed(runtimes: Seq<RuntimeView>, managers: Seq<PackageManagerSpec>)
    ensures
        forall|i: int|
            runtimes.len() <= i < merged(runtimes, managers).len() ==> exists|k: int|
                0 <= k < managers.len() && needed_runtime(#[trigger] managers[k]) == (#[trigger] merged(
                    runtimes,
                    managers,
                )[i]).family(),
        forall|i: int|
            runtimes.len() <= i < merged(runtimes, managers).len() ==> (match #[trigger] merged(
                runtimes,
                managers,
            )[i] {
                RuntimeView::Node { version } => version == "22.14.0"@,
                RuntimeView::Rust { toolchain } => toolchain == "stable"@,
                RuntimeView::Python { version } => version is None,
                RuntimeView::Go { version } => version == "1.22.12"@,
                RuntimeView::Deno { version } => version is None,
                RuntimeView::Bun { version } => version is None,
            }),
        merge_notes(runtimes, managers).len() == merged(runtimes, managers).len() - runtimes.len(),
        forall|k: int|
            0 <= k <= managers.len() ==> (#[trigger] merged(runtimes, managers.take(k))).is_prefix_of(
                merged(runtimes, managers),
            ),
    decreases managers.len(),
{
    let after = merged(runtimes, managers);
    if managers.len() > 0 {
        let front = managers.drop_last();
        let before = merged(runtimes, front);
        law_added_runtimes_are_needed(runtimes, front);
        law_named_runtimes_stay(runtimes, front);
        assert forall|i: int| runtimes.len() <= i < after.len() implies exists|k: int|
            0 <= k < managers.len() && needed_runtime(#[trigger] managers[k]) == (#[trigger] after[i]).family() by {
            if i < before.len() {
                assert(before[i] == after[i]);
                let k = choose|k: int|
                    0 <= k < front.len() && needed_runtime(#[trigger] front[k]) == before[i].family();
                assert(managers[k] == front[k]);
            } else {
                assert(needed_runtime(managers[managers.len() - 1]) == after[i].family());
            }
        }
        assert forall|i: int| runtimes.len() <= i < after.len() implies (match #[trigger] after[i] {
            RuntimeView::Node { version } => version == "22.14.0"@,
            RuntimeView::Rust { toolchain } => toolchain == "stable"@,
            RuntimeView::Python { version } => version is None,
            RuntimeView::Go { version } => version == "1.22.12"@,
            RuntimeView::Deno { version } => version is None,
            RuntimeView::Bun { version } => version is None,
        }) by {
            if i < before.len() {
                assert(before[i] == after[i]);
            }
        }
        assert forall|k: int| 0 <= k <= managers.len() implies (#[trigger] merged(
            runtimes,
            managers.take(k),
        )).is_prefix_of(after) by {
            if k < managers.len() {
                assert(managers.take(k) =~= front.take(k));
                let first = merged(runtimes, front.take(k));
                assert(first.is_prefix_of(before));
                assert forall|j: int| 0 <= j < first.len() implies first[j] == after[j] by {
                    assert(first[j] == before[j]);
                }
                assert(first =~= after.subrange(0, first.len() as int));
            } else {
                assert(managers.take(k) =~= managers);
                assert(after =~= after.subrange(0, after.len() as int));
            }
        }
    } else {
        assert forall|k: int| 0 <= k <= managers.len() implies (#[trigger] merged(
            runtimes,
            managers.take(k),
        )).is_prefix_of(after) by {
            assert(managers.take(k) =~= managers);
            assert(after =~= after.subrange(0, after.len() as int));
        }
    }
}

/// The checks, commands and scripts that make a package manager ready, for all of them: a step that
/// looks for what it is run by in the isolated environment comes first and fails where that is not there;
/// pnpm and yarn are then prepared by corepack and uv is installed by pip; pnpm, yarn, pip and uv get
/// scripts that hand their arguments on, and the others are commands of their runtime.
pub proof fn law_managers_are_made_ready(
    manager: PackageManagerSpec,
    stage: Seq<u8>,
    bin: Seq<u8>,
    envs: Seq<(Seq<char>, Seq<char>)>,
)
    ensures
        ({
            let steps = preparation(manager, stage, bin, envs);
            let needed = match manager {
                PackageManagerSpec::Npm => "npm"@,
                PackageManagerSpec::Pnpm => "corepack"@,
                PackageManagerSpec::Yarn => "corepack"@,
                PackageManagerSpec::Pip => "python"@,
                PackageManagerSpec::Uv => "python"@,
                PackageManagerSpec::Cargo => "cargo"@,
                PackageManagerSpec::Go => "go"@,
                PackageManagerSpec::Deno => "deno"@,
                PackageManagerSpec::Bun => "bun"@,
            };
            &&& steps.len() > 0 && looks_for(steps[0], needed, stage, envs)
            &&& manager == PackageManagerSpec::Pnpm ==> steps.len() == 4 && runs_shell(
                steps[1],
                "corepack prepare pnpm@latest --activate"@,
                stage,
                envs,
            ) && writes_script(steps[2], steps[3], within(bin, "pnpm"@), "corepack pnpm"@)
            &&& manager == PackageManagerSpec::Yarn ==> steps.len() == 4 && runs_shell(
                steps[1],
                "corepack prepare yarn@stable --activate"@,
                stage,
                envs,
            ) && writes_script(steps[2], steps[3], within(bin, "yarn"@), "corepack yarn"@)
            &&& manager == PackageManagerSpec::Uv ==> steps.len() == 4 && runs_shell(
                steps[1],
                "python -m pip install --upgrade uv"@,
                stage,
                envs,
            ) && writes_script(steps[2], steps[3], within(bin, "uv"@), "python -m uv"@)
            &&& manager == PackageManagerSpec::Pip ==> steps.len() == 5 && writes_script(
                steps[1],
                steps[2],
                within(bin, "pip"@),
                "python -m pip"@,
            ) && writes_script(steps[3], steps[4], within(bin, "pip3"@), "python -m pip"@)
            &&& manager == PackageManagerSpec::Npm || manager == PackageManagerSpec::Cargo || manager
                == PackageManagerSpec::Go || manager == PackageManagerSpec::Deno || manager
                == PackageManagerSpec::Bun ==> steps.len() == 1
        }),
{
    let steps = preparation(manager, stage, bin, envs);
    let given = envs.map_values(|e: (Seq<char>, Seq<char>)| (e.0, ArgView::Text(e.1)));
    assert(steps[0]->Run_command.envs =~= given);
    assert(steps[0]->Run_command.args =~= seq![
        ArgView::Text("-c"@),
        steps[0]->Run_command.args[1],
    ]);
    if steps.len() == 4 {
        assert(steps[1]->Run_command.envs =~= given);
        assert(steps[1]->Run_command.args =~= seq![ArgView::Text("-c"@), steps[1]->Run_command.args[1]]);
        assert(steps[3]->Run_command.args =~= seq![ArgView::Text("+x"@), steps[3]->Run_command.args[1]]);
    }
    if steps.len() == 5 {
        assert(steps[2]->Run_command.args =~= seq![ArgView::Text("+x"@), steps[2]->Run_command.args[1]]);
        assert(steps[4]->Run_command.args =~= seq![ArgView::Text("+x"@), steps[4]->Run_command.args[1]]);
    }
}

/// Whether a step runs a command of the shell in `dir` with the environment `envs`.
pub open spec fn runs_shell(
    step: StepView,
    command: Seq<char>,
    dir: Seq<u8>,
    envs: Seq<(Seq<char>, Seq<char>)>,
) -> bool {
    &&& step is Run
    &&& step->Run_command.program == ArgView::Text("sh"@)
    &&& step->Run_command.args == seq![ArgView::Text("-c"@), ArgView::Text(command)]
    &&& step->Run_command.dir == Some(dir)
    &&& step->Run_command.envs == envs.map_values(|e: (Seq<char>, Seq<char>)| (e.0, ArgView::Text(e.1)))
    &&& step->Run_cleanup is None
}

/// Whether a step fails unless a command is there in the environment `envs`.
pub open spec fn looks_for(
    step: StepView,
    command: Seq<char>,
    dir: Seq<u8>,
    envs: Seq<(Seq<char>, Seq<char>)>,
) -> bool {
    runs_shell(step, "command -v "@ + command + " >/dev/null 2>&1"@, dir, envs) && step->Run_command.quiet
}

/// Whether two steps write a script that hands its arguments to `command`, and make it executable.
pub open spec fn writes_script(write: StepView, mark: StepView, path: Seq<u8>, command: Seq<char>) -> bool {
    &&& write == StepView::Write { path, contents: "#!/bin/sh\nexec "@ + command + " \"$@\"\n"@ }
    &&& mark is Run
    &&& mark->Run_command.program == ArgView::Text("/bin/chmod"@)
    &&& mark->Run_command.args == seq![ArgView::Text("+x"@), ArgView::Path(path)]
}

/// Every package manager of a recipe is made ready, one after the other in the order of the recipe: the
/// steps of the first of them come first, and their scripts go into one directory of the tools, which is
/// made before. Without package managers nothing is done.
pub proof fn law_every_manager_is_made_ready(
    stage: Seq<u8>,
    tools: Seq<char>,
    managers: Seq<PackageManagerSpec>,
    envs: Seq<(Seq<char>, Seq<char>)>,
    k: int,
)
    requires
        0 <= k < managers.len(),
    ensures
        ({
            let bin = joined(stage, within(within(encode_utf8(tools), "pm"@), "bin"@));
            let steps = manager_steps(stage, tools, managers, envs);
            let own = preparation(managers[k], stage, bin, envs);
            &&& steps[0] is Log && steps[1] == StepView::CreateDirs(bin)
            &&& manager_steps(stage, tools, managers.take(0), envs).len() == 0
            &&& k == 0 ==> steps.len() >= 2 + own.len() && steps.subrange(2, 2 + own.len() as int) == own
            &&& k > 0 ==> {
                let before = manager_steps(stage, tools, managers.take(k), envs);
                &&& steps.len() >= before.len() + own.len()
                &&& steps.subrange(before.len() as int, (before.len() + own.len()) as int) == own
            }
            &&& k + 1 == managers.len() ==> steps.len() == own.len() + (if k == 0 {
                2
            } else {
                manager_steps(stage, tools, managers.take(k), envs).len()
            })
        }),
{
    let bin = joined(stage, pm_bin(tools));
    let own = preparation(managers[k], stage, bin, envs);
    let steps = manager_steps(stage, tools, managers, envs);
    let head = seq![step_line("Preparing package managers"@), StepView::CreateDirs(bin)];
    let first = preparations(managers.take(k), stage, bin, envs);
    lemma_preparations_begin(managers, stage, bin, envs, k + 1);
    assert(managers.take(k + 1).drop_last() =~= managers.take(k));
    let upto = preparations(managers.take(k + 1), stage, bin, envs);
    assert(upto == first + own);
    let all = preparations(managers, stage, bin, envs);
    assert(all.take(upto.len() as int) == upto);
    assert(steps == head + all);
    let n = 2 + first.len();
    assert(steps.subrange(n as int, (n + own.len()) as int) =~= own) by {
        assert forall|j: int| 0 <= j < own.len() implies steps[n + j] == own[j] by {
            assert(all.take(upto.len() as int)[first.len() + j] == upto[first.len() + j]);
        }
    }
    if k == 0 {
        assert(managers.take(0) =~= Seq::empty());
        assert(first.len() == 0);
    }
    if k + 1 == managers.len() {
        assert(managers.take(k + 1) =~= managers);
    }
}

/// What is done for the first package managers comes first.
proof fn lemma_preparations_begin(
    managers: Seq<PackageManagerSpec>,
    stage: Seq<u8>,
    bin: Seq<u8>,
    envs: Seq<(Seq<char>, Seq<char>)>,
    k: int,
)
    requires
        0 <= k <= managers.len(),
    ensures
        ({
            let first = preparations(managers.take(k), stage, bin, envs);
            let all = preparations(managers, stage, bin, envs);
            first.len() <= all.len() && all.take(first.len() as int) == first
        }),
    decreases managers.len(),
{
    let first = preparations(managers.take(k), stage, bin, envs);
    let all = preparations(managers, stage, bin, envs);
    if k < managers.len() {
        let front = managers.drop_last();
        lemma_preparations_begin(front, stage, bin, envs, k);
        assert(front.take(k) =~= managers.take(k));
        let before = preparations(front, stage, bin, envs);
        assert(all.take(first.len() as int) =~= before.take(first.len() as int));
    } else {
        assert(managers.take(k) =~= managers);
        assert(all.take(first.len() as int) =~= all);
    }
}

/// The note on a runtime that is added names it and the package manager that needs it: the notes of the first
/// package managers come first, and one that finds no runtime of its kind adds one at the end.
pub proof fn law_notes_name_runtime_and_manager(
    runtimes: Seq<RuntimeView>,
    managers: Seq<PackageManagerSpec>,
    manager: PackageManagerSpec,
)
    ensures
        ({
            let before = merge_notes(runtimes, managers);
            let after = merge_notes(runtimes, managers.push(manager));
            let found = exists|i: int|
                0 <= i < merged(runtimes, managers).len() && (#[trigger] merged(runtimes, managers)[i]).family()
                    == needed_runtime(manager);
            let name = match manager {
                PackageManagerSpec::Npm => "npm"@,
                PackageManagerSpec::Pnpm => "pnpm"@,
                PackageManagerSpec::Yarn => "yarn"@,
                PackageManagerSpec::Pip => "pip"@,
                PackageManagerSpec::Uv => "uv"@,
                PackageManagerSpec::Cargo => "cargo"@,
                PackageManagerSpec::Go => "go"@,
                PackageManagerSpec::Deno => "deno"@,
                PackageManagerSpec::Bun => "bun"@,
            };
            let runtime = match needed_runtime(manager) {
                RuntimeFamily::Node => "node"@,
                RuntimeFamily::Rust => "rust"@,
                RuntimeFamily::Python => "python"@,
                RuntimeFamily::Go => "go"@,
                RuntimeFamily::Deno => "deno"@,
                RuntimeFamily::Bun => "bun"@,
            };
            after == if found {
                before
            } else {
                before.push(
                    LogView {
                        level: Level::Info,
                        message: "Auto-adding runtime '"@ + runtime + "' for package manager '"@ + name + "'"@,
                    },
                )
            }
        }),
{
    assert(managers.push(manager).drop_last() =~= managers);
}

/// Of several items of `[package_managers]` that name none the first counts, and the error names it.
pub proof fn law_first_unknown_manager_counts(items: Seq<Seq<char>>)
    requires
        managers_of(items) is Err,
    ensures
        exists|k: int|
            0 <= k < items.len() && managers_of(items.take(k)) is Ok && managers_of(items) == Err::<
                Seq<PackageManagerSpec>,
                Seq<char>,
            >(
                "unsupported package manager '"@ + lowered(trimmed(#[trigger] items[k]))
                    + "'. supported: npm, pnpm, yarn, pip, uv, cargo, go, deno, bun"@,
            ),
    decreases items.len(),
{
    let front = items.drop_last();
    if managers_of(front) is Err {
        law_first_unknown_manager_counts(front);
        let k = choose|k: int|
            0 <= k < front.len() && managers_of(front.take(k)) is Ok && managers_of(front) == Err::<
                Seq<PackageManagerSpec>,
                Seq<char>,
            >(
                "unsupported package manager '"@ + lowered(trimmed(#[trigger] front[k]))
                    + "'. supported: npm, pnpm, yarn, pip, uv, cargo, go, deno, bun"@,
            );
        assert(front.take(k) =~= items.take(k));
        assert(items[k] == front[k]);
    } else {
        let k = items.len() - 1;
        assert(items.take(k) =~= front);
        assert(items[k] == items.last());
    }
}

} // verus!
