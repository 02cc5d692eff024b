//! The isolated environment: which commands are blocked, and the path that commands are looked for on.
use vstd::prelude::*;
use vstd::string::*;
use vstd::utf8::encode_utf8;
use crate::command::{env_texts, script_steps, write_executable_script, ArgView, Plan, StepView};
use crate::managers::{
    has_family, holds_family, law_managers_find_their_runtimes, manager_name, merged, needed_runtime,
    PackageManagerSpec,
};
use crate::paths::{
    holds_path, inside, joined, law_tools_stay_in_the_payload, path_views, pm_bin, pm_bin_in, shown, tools_dir, within,
    HostPath,
};
use crate::runtime::{
    family_name, runtime_family_name, runtime_views, RuntimeFamily, RuntimeSpec, RuntimeView,
};
use crate::text::{join_texts, joined_text, texts};

verus! {

/// The path of the host that is kept.
pub const BASE_SYSTEM_PATH: &'static str = "/usr/bin:/bin:/usr/sbin:/sbin";

/// The path of the host that is kept.
pub fn base_system_path() -> (r: String)
    ensures
        r@ == BASE_SYSTEM_PATH@,
{
    BASE_SYSTEM_PATH.to_string()
}

/// All kinds of runtimes.
pub open spec fn families() -> Seq<RuntimeFamily> {
    seq![
        RuntimeFamily::Node,
        RuntimeFamily::Rust,
        RuntimeFamily::Python,
        RuntimeFamily::Go,
        RuntimeFamily::Deno,
        RuntimeFamily::Bun,
    ]
}

/// The commands of a kind of runtimes.
pub open spec fn family_commands(family: RuntimeFamily) -> Seq<Seq<char>> {
    match family {
        RuntimeFamily::Node => seq!["node"@, "npm"@, "npx"@, "corepack"@, "pnpm"@, "yarn"@],
        RuntimeFamily::Rust => seq![
            "rustc"@,
            "cargo"@,
            "rustup"@,
            "rustfmt"@,
            "clippy-driver"@,
            "cargo-clippy"@,
        ],
        RuntimeFamily::Python => seq!["python"@, "python3"@, "pip"@, "pip3"@, "uv"@],
        RuntimeFamily::Go => seq!["go"@, "gofmt"@],
        RuntimeFamily::Deno => seq!["deno"@],
        RuntimeFamily::Bun => seq!["bun"@, "bunx"@],
    }
}

/// The commands of those `kinds` of which the recipe asks for no runtime, each with its kind.
pub open spec fn blocked_among(kinds: Seq<RuntimeFamily>, runtimes: Seq<RuntimeView>) -> Seq<
    (Seq<char>, RuntimeFamily),
>
    decreases kinds.len(),
{
    if kinds.len() == 0 {
        Seq::empty()
    } else {
        let before = blocked_among(kinds.drop_last(), runtimes);
        let family = kinds.last();
        if has_family(runtimes, family) {
            before
        } else {
            before + family_commands(family).map_values(|c: Seq<char>| (c, family))
        }
    }
}

/// The commands that are blocked, each with the kind of runtimes that has it.
pub open spec fn blocked(runtimes: Seq<RuntimeView>) -> Seq<(Seq<char>, RuntimeFamily)> {
    blocked_among(families(), runtimes)
}

/// The script that stands for a blocked command.
pub open spec fn shim_body(command: Seq<char>, family: RuntimeFamily) -> Seq<char> {
    "#!/bin/sh\necho \"tortia: '"@ + command + "' is blocked in this isolated environment (add runtime '"@
        + family_name(family) + "' in [runtimes].items)\" >&2\nexit 127\n"@
}

/// The steps that write the scripts for blocked commands into the directory `root`.
pub open spec fn shim_steps(root: Seq<u8>, commands: Seq<(Seq<char>, RuntimeFamily)>) -> Seq<StepView>
    decreases commands.len(),
{
    if commands.len() == 0 {
        Seq::empty()
    } else {
        shim_steps(root, commands.drop_last()) + script_steps(
            within(root, commands.last().0),
            shim_body(commands.last().0, commands.last().1),
        )
    }
}

/// The names and kinds of a list of commands.
pub open spec fn command_views(list: Seq<(String, RuntimeFamily)>) -> Seq<(Seq<char>, RuntimeFamily)> {
    list.map_values(|c: (String, RuntimeFamily)| (c.0@, c.1))
}

/// The commands of a kind of runtimes.
fn commands_of(family: RuntimeFamily) -> (r: Vec<String>)
    ensures
        texts(r@) == family_commands(family),
{
    let mut r: Vec<String> = Vec::new();
    match family {
        RuntimeFamily::Node => {
            r.push("node".to_string());
            r.push("npm".to_string());
            r.push("npx".to_string());
            r.push("corepack".to_string());
            r.push("pnpm".to_string());
            r.push("yarn".to_string());
        },
        RuntimeFamily::Rust => {
            r.push("rustc".to_string());
            r.push("cargo".to_string());
            r.push("rustup".to_string());
            r.push("rustfmt".to_string());
            r.push("clippy-driver".to_string());
            r.push("cargo-clippy".to_string());
        },
        RuntimeFamily::Python => {
            r.push("python".to_string());
            r.push("python3".to_string());
            r.push("pip".to_string());
            r.push("pip3".to_string());
            r.push("uv".to_string());
        },
        RuntimeFamily::Go => {
            r.push("go".to_string());
            r.push("gofmt".to_string());
        },
        RuntimeFamily::Deno => {
            r.push("deno".to_string());
        },
        RuntimeFamily::Bun => {
            r.push("bun".to_string());
            r.push("bunx".to_string());
        },
    }
    assert(texts(r@) =~= family_commands(family));
    r
}

/// The commands that are blocked, each with the kind of runtimes that has it.
pub fn blocked_commands(specs: &Vec<RuntimeSpec>) -> (r: Vec<(String, RuntimeFamily)>)
    ensures
        command_views(r@) == blocked(runtime_views(specs@)),
{
    let ghost runtimes = runtime_views(specs@);
    let mut kinds: Vec<RuntimeFamily> = Vec::new();
    kinds.push(RuntimeFamily::Node);
    kinds.push(RuntimeFamily::Rust);
    kinds.push(RuntimeFamily::Python);
    kinds.push(RuntimeFamily::Go);
    kinds.push(RuntimeFamily::Deno);
    kinds.push(RuntimeFamily::Bun);
    assert(kinds@ =~= families());
    let mut r: Vec<(String, RuntimeFamily)> = Vec::new();
    let mut i: usize = 0;
    assert(kinds@.take(0) =~= Seq::empty());
    assert(command_views(r@) =~= Seq::empty());
    while i < kinds.len()
        invariant
            i <= kinds.len(),
            runtimes == runtime_views(specs@),
            command_views(r@) == blocked_among(kinds@.take(i as int), runtimes),
        decreases kinds.len() - i,
    {
        let family = kinds[i];
        let ghost before = command_views(r@);
        assert(kinds@.take(i + 1).drop_last() =~= kinds@.take(i as int));
        if !holds_family(specs, family) {
            let commands: Vec<String> = commands_of(family);
            let ghost added = family_commands(family).map_values(|c: Seq<char>| (c, family));
            let mut j: usize = 0;
            assert(command_views(r@) =~= before + added.take(0));
            while j < commands.len()
                invariant
                    j <= commands.len(),
                    texts(commands@) == family_commands(family),
                    added == family_commands(family).map_values(|c: Seq<char>| (c, family)),
                    command_views(r@) == before + added.take(j as int),
                decreases commands.len() - j,
            {
                let ghost now = command_views(r@);
                let command = commands[j].clone();
                assert(added[j as int] == (texts(commands@)[j as int], family));
                r.push((command, family));
                assert(command_views(r@) =~= now.push((command@, family)));
                j = j + 1;
                assert(command_views(r@) =~= before + added.take(j as int));
            }
            assert(added.take(j as int) =~= added);
        }
        i = i + 1;
    }
    assert(kinds@.take(i as int) =~= kinds@);
    r
}

/// The steps that block the commands of runtimes that are not among `runtimes` in the payload `stage`,
/// whose tools directory is named `tools`.
pub open spec fn blocking_steps(stage: Seq<u8>, tools: Seq<char>, runtimes: Seq<RuntimeView>) -> Seq<StepView> {
    seq![StepView::CreateDirs(within(stage, tools))] + shim_steps(within(stage, tools), blocked(runtimes))
}

/// The steps that block the commands of runtimes that the recipe does not ask for: `tools` is the
/// name of the tools directory in the payload.
pub fn prepare_runtime_shims(stage_root: &HostPath, tools: &str, specs: &Vec<RuntimeSpec>) -> (r: Plan)
    ensures
        r@ == blocking_steps(stage_root@, tools@, runtime_views(specs@)),
{
    let root = stage_root.join(tools);
    let commands: Vec<(String, RuntimeFamily)> = blocked_commands(specs);
    let ghost all = command_views(commands@);
    let mut plan = Plan::new();
    plan.create_dirs(&root);
    let ghost head = plan@;
    let mut i: usize = 0;
    assert(all.take(0) =~= Seq::empty());
    assert(plan@ =~= head + shim_steps(root@, all.take(0)));
    while i < commands.len()
        invariant
            i <= commands.len(),
            all == command_views(commands@),
            plan@ == head + shim_steps(root@, all.take(i as int)),
        decreases commands.len() - i,
    {
        assert(all.take(i + 1).drop_last() =~= all.take(i as int));
        assert(all.take(i + 1).last() == (commands@[i as int].0@, commands@[i as int].1));
        let command = commands[i].0.as_str();
        let body = "#!/bin/sh\necho \"tortia: '".to_string().concat(command).concat(
            "' is blocked in this isolated environment (add runtime '",
        ).concat(runtime_family_name(commands[i].1)).concat("' in [runtimes].items)\" >&2\nexit 127\n");
        plan.append(write_executable_script(&root.join(command), body.as_str()));
        i = i + 1;
        assert(plan@ =~= head + shim_steps(root@, all.take(i as int)));
    }
    assert(all.take(i as int) =~= all);
    assert(head =~= seq![StepView::CreateDirs(root@)]);
    plan
}

/// What is blocked among some kinds: the commands of those that the recipe does not ask for.
proof fn lemma_blocked_among(kinds: Seq<RuntimeFamily>, runtimes: Seq<RuntimeView>, c: Seq<char>, family: RuntimeFamily)
    ensures
        blocked_among(kinds, runtimes).contains((c, family)) <==> kinds.contains(family) && family_commands(
            family,
        ).contains(c) && !has_family(runtimes, family),
    decreases kinds.len(),
{
    if kinds.len() > 0 {
        let front = kinds.drop_last();
        let last = kinds.last();
        let before = blocked_among(front, runtimes);
        let all = blocked_among(kinds, runtimes);
        let added = family_commands(last).map_values(|x: Seq<char>| (x, last));
        lemma_blocked_among(front, runtimes, c, family);
        if all.contains((c, family)) {
            let k = choose|k: int| 0 <= k < all.len() && all[k] == (c, family);
            if k < before.len() {
                assert(before[k] == (c, family));
                let m = choose|m: int| 0 <= m < front.len() && front[m] == family;
                assert(kinds[m] == family);
            } else {
                assert(added[k - before.len()] == (c, family));
                assert(family_commands(last)[k - before.len()] == c);
                assert(kinds[kinds.len() - 1] == family);
            }
        }
        if kinds.contains(family) && family_commands(family).contains(c) && !has_family(runtimes, family) {
            if front.contains(family) {
                let k = choose|k: int| 0 <= k < before.len() && before[k] == (c, family);
                assert(all[k] == (c, family));
            } else {
                let m = choose|m: int| 0 <= m < kinds.len() && kinds[m] == family;
                if m < front.len() {
                    assert(front[m] == family);
                }
                let k = choose|k: int| 0 <= k < family_commands(family).len() && family_commands(family)[k] == c;
                assert(added[k] == (c, family));
                assert(all[before.len() + k] == (c, family));
            }
        }
    }
}

/// A command of a runtime is blocked exactly where the recipe asks for no runtime of its kind.
pub proof fn law_blocked_unless_requested(runtimes: Seq<RuntimeView>, command: Seq<char>, family: RuntimeFamily)
    requires
        family_commands(family).contains(command),
    ensures
        blocked(runtimes).contains((command, family)) <==> !has_family(runtimes, family),
{
    let kinds = families();
    assert(kinds[0] == RuntimeFamily::Node && kinds[1] == RuntimeFamily::Rust && kinds[2] == RuntimeFamily::Python);
    assert(kinds[3] == RuntimeFamily::Go && kinds[4] == RuntimeFamily::Deno && kinds[5] == RuntimeFamily::Bun);
    assert(kinds.contains(family));
    lemma_blocked_among(kinds, runtimes, command, family);
}

/// Every command on a list gets its script.
proof fn lemma_script_is_written(root: Seq<u8>, commands: Seq<(Seq<char>, RuntimeFamily)>, k: int)
    requires
        0 <= k < commands.len(),
    ensures
        shim_steps(root, commands).contains(
            StepView::Write {
                path: within(root, commands[k].0),
                contents: shim_body(commands[k].0, commands[k].1),
            },
        ),
    decreases commands.len(),
{
    let front = commands.drop_last();
    let before = shim_steps(root, front);
    let all = shim_steps(root, commands);
    let script = StepView::Write {
        path: within(root, commands[k].0),
        contents: shim_body(commands[k].0, commands[k].1),
    };
    if k < front.len() {
        lemma_script_is_written(root, front, k);
        let m = choose|m: int| 0 <= m < before.len() && before[m] == script;
        assert(all[m] == script);
    } else {
        assert(all[before.len() as int] == script);
    }
}

/// A runtime that the recipe does not ask for is not available: the tools directory of the payload
/// `root` gets a script for each of its commands that says so.
pub proof fn law_other_runtimes_are_not_available(
    root: Seq<u8>,
    tools: Seq<char>,
    runtimes: Seq<RuntimeView>,
    command: Seq<char>,
    family: RuntimeFamily,
)
    requires
        !has_family(runtimes, family),
        family_commands(family).contains(command),
    ensures
        shim_steps(within(root, tools), blocked(runtimes)).contains(
            StepView::Write {
                path: within(within(root, tools), command),
                contents: shim_body(command, family),
            },
        ),
{
    law_blocked_unless_requested(runtimes, command, family);
    let all = blocked(runtimes);
    let k = choose|k: int| 0 <= k < all.len() && all[k] == (command, family);
    lemma_script_is_written(within(root, tools), all, k);
}

/// The name of a package manager is a command of the kind of runtimes that it needs, and of no other.
proof fn lemma_managers_belong(manager: PackageManagerSpec, family: RuntimeFamily)
    requires
        family != needed_runtime(manager),
    ensures
        !family_commands(family).contains(manager_name(manager)),
{
    reveal_strlit("npm");
    reveal_strlit("pnpm");
    reveal_strlit("yarn");
    reveal_strlit("pip");
    reveal_strlit("uv");
    reveal_strlit("cargo");
    reveal_strlit("go");
    reveal_strlit("deno");
    reveal_strlit("bun");
    reveal_strlit("node");
    reveal_strlit("npx");
    reveal_strlit("corepack");
    reveal_strlit("rustc");
    reveal_strlit("rustup");
    reveal_strlit("rustfmt");
    reveal_strlit("clippy-driver");
    reveal_strlit("cargo-clippy");
    reveal_strlit("python");
    reveal_strlit("python3");
    reveal_strlit("pip3");
    reveal_strlit("gofmt");
    reveal_strlit("bunx");
    let name = manager_name(manager);
    let list = family_commands(family);
    assert forall|k: int| 0 <= k < list.len() implies #[trigger] list[k] != name by {
        assert(list[k].len() != name.len() || list[k][0] != name[0] || list[k][1] != name[1]);
    }
}

/// No package manager of a recipe is blocked: its command is there once the runtimes that are missing
/// are added.
pub proof fn law_managers_are_not_blocked(
    runtimes: Seq<RuntimeView>,
    managers: Seq<PackageManagerSpec>,
    manager: PackageManagerSpec,
    family: RuntimeFamily,
)
    requires
        managers.contains(manager),
    ensures
        !blocked(merged(runtimes, managers)).contains((manager_name(manager), family)),
{
    let all = merged(runtimes, managers);
    law_managers_find_their_runtimes(runtimes, managers);
    lemma_blocked_among(families(), all, manager_name(manager), family);
    assert(has_family(all, needed_runtime(manager)));
    if family != needed_runtime(manager) {
        lemma_managers_belong(manager, family);
    }
}

/// The texts of those of `bins` that `there` holds.
pub open spec fn present_texts(bins: Seq<Seq<u8>>, there: Seq<Seq<u8>>) -> Seq<Seq<char>>
    decreases bins.len(),
{
    if bins.len() == 0 {
        Seq::empty()
    } else if there.contains(bins.last()) {
        present_texts(bins.drop_last(), there).push(shown(bins.last()))
    } else {
        present_texts(bins.drop_last(), there)
    }
}

/// The text of a path, where `there` holds it.
pub open spec fn present_text(path: Seq<u8>, there: Seq<Seq<u8>>) -> Seq<Seq<char>> {
    if there.contains(path) {
        seq![shown(path)]
    } else {
        Seq::empty()
    }
}

/// The entries of the isolated path: the blocked commands come first, then the package managers,
/// then the runtimes, then the path of the host. What does not exist is left out.
pub open spec fn path_entries(root: Seq<u8>, tools: Seq<char>, bins: Seq<Seq<u8>>, there: Seq<Seq<u8>>) -> Seq<
    Seq<char>,
> {
    present_text(within(root, tools), there) + present_text(joined(root, pm_bin(tools)), there) + present_texts(
        bins,
        there,
    ) + seq![BASE_SYSTEM_PATH@]
}

/// The variable `name` with a directory of the tools, where that directory exists.
pub open spec fn home_variable(name: Seq<char>, path: Seq<u8>, there: Seq<Seq<u8>>) -> Seq<(Seq<char>, Seq<char>)> {
    if there.contains(path) {
        seq![(name, shown(path))]
    } else {
        Seq::empty()
    }
}

/// The isolated environment of the payload `root`: `there` are the paths that exist.
pub open spec fn isolated_env(root: Seq<u8>, tools: Seq<char>, bins: Seq<Seq<u8>>, there: Seq<Seq<u8>>) -> Seq<
    (Seq<char>, Seq<char>),
> {
    seq![("PATH"@, joined_text(path_entries(root, tools, bins, there), ":"@))] + home_variable(
        "CARGO_HOME"@,
        within(within(root, tools), "cargo"@),
        there,
    ) + home_variable("RUSTUP_HOME"@, within(within(root, tools), "rustup"@), there)
}

/// The paths of which the isolated environment depends on whether they exist.
pub fn env_probes(payload_root: &HostPath, tools: &str, runtime_bin_paths: &Vec<HostPath>) -> (r: Vec<HostPath>)
    ensures
        path_views(r@) == seq![
            within(payload_root@, tools@),
            joined(payload_root@, pm_bin(tools@)),
            within(within(payload_root@, tools@), "cargo"@),
            within(within(payload_root@, tools@), "rustup"@),
        ] + path_views(runtime_bin_paths@),
        path_views(r@) == probes(payload_root@, tools@, path_views(runtime_bin_paths@)),
{
    let shims = payload_root.join(tools);
    let cargo = shims.join("cargo");
    let rustup = shims.join("rustup");
    let mut r: Vec<HostPath> = Vec::new();
    r.push(shims);
    r.push(payload_root.join_path(&pm_bin_in(tools)));
    r.push(cargo);
    r.push(rustup);
    let ghost head = path_views(r@);
    let ghost all = path_views(runtime_bin_paths@);
    let mut i: usize = 0;
    assert(path_views(r@) =~= head + all.take(0));
    while i < runtime_bin_paths.len()
        invariant
            i <= runtime_bin_paths.len(),
            all == path_views(runtime_bin_paths@),
            path_views(r@) == head + all.take(i as int),
        decreases runtime_bin_paths.len() - i,
    {
        let ghost before = path_views(r@);
        r.push(runtime_bin_paths[i].copy());
        assert(path_views(r@) =~= before.push(all[i as int]));
        i = i + 1;
        assert(path_views(r@) =~= head + all.take(i as int));
    }
    assert(all.take(i as int) =~= all);
    assert(head =~= seq![
        within(payload_root@, tools@),
        joined(payload_root@, pm_bin(tools@)),
        within(within(payload_root@, tools@), "cargo"@),
        within(within(payload_root@, tools@), "rustup"@),
    ]);
    r
}

/// The isolated environment of a payload: `there` are those of its [`env_probes`] that exist.
pub fn build_isolated_env(
    payload_root: &HostPath,
    tools: &str,
    runtime_bin_paths: &Vec<HostPath>,
    there: &Vec<HostPath>,
) -> (r: Vec<(String, String)>)
    ensures
        env_texts(r@) == isolated_env(
            payload_root@,
            tools@,
            path_views(runtime_bin_paths@),
            path_views(there@),
        ),
{
    let ghost exist = path_views(there@);
    let ghost bins = path_views(runtime_bin_paths@);
    let mut entries: Vec<String> = Vec::new();
    let shims = payload_root.join(tools);
    if holds_path(there, &shims) {
        entries.push(shims.display());
    }
    assert(texts(entries@) =~= present_text(shims@, exist));
    let pm = payload_root.join_path(&pm_bin_in(tools));
    let ghost first = texts(entries@);
    if holds_path(there, &pm) {
        entries.push(pm.display());
    }
    assert(texts(entries@) =~= first + present_text(pm@, exist));
    let ghost head = texts(entries@);
    let mut i: usize = 0;
    assert(bins.take(0) =~= Seq::empty());
    assert(texts(entries@) =~= head + present_texts(bins.take(0), exist));
    while i < runtime_bin_paths.len()
        invariant
            i <= runtime_bin_paths.len(),
            bins == path_views(runtime_bin_paths@),
            exist == path_views(there@),
            texts(entries@) == head + present_texts(bins.take(i as int), exist),
        decreases runtime_bin_paths.len() - i,
    {
        let ghost before = texts(entries@);
        let bin = &runtime_bin_paths[i];
        assert(bins.take(i + 1).drop_last() =~= bins.take(i as int));
        assert(bins.take(i + 1).last() == bin@);
        if holds_path(there, bin) {
            let text = bin.display();
            entries.push(text);
            assert(texts(entries@) =~= before.push(text@));
        }
        i = i + 1;
        assert(texts(entries@) =~= head + present_texts(bins.take(i as int), exist));
    }
    assert(bins.take(i as int) =~= bins);
    let ghost before = texts(entries@);
    entries.push(base_system_path());
    assert(texts(entries@) =~= before.push(BASE_SYSTEM_PATH@));
    assert(texts(entries@) =~= path_entries(payload_root@, tools@, bins, exist));
    let mut envs: Vec<(String, String)> = Vec::new();
    envs.push(("PATH".to_string(), join_texts(&entries, ":")));
    let cargo_home = shims.join("cargo");
    if holds_path(there, &cargo_home) {
        envs.push(("CARGO_HOME".to_string(), cargo_home.display()));
    }
    let rustup_home = shims.join("rustup");
    if holds_path(there, &rustup_home) {
        envs.push(("RUSTUP_HOME".to_string(), rustup_home.display()));
    }
    assert(env_texts(envs@) =~= isolated_env(payload_root@, tools@, bins, exist));
    envs
}

/// The isolated path ends with the path of the host that is kept.
pub proof fn law_path_ends_with_the_base(root: Seq<u8>, tools: Seq<char>, bins: Seq<Seq<u8>>, there: Seq<Seq<u8>>)
    ensures
        isolated_env(root, tools, bins, there)[0].0 == "PATH"@,
        BASE_SYSTEM_PATH@.is_suffix_of(isolated_env(root, tools, bins, there)[0].1),
{
    let entries = path_entries(root, tools, bins, there);
    let path = joined_text(entries, ":"@);
    assert(entries.last() == BASE_SYSTEM_PATH@);
    assert(isolated_env(root, tools, bins, there)[0] == ("PATH"@, path));
    let base = BASE_SYSTEM_PATH@;
    assert(path.subrange(path.len() - base.len(), path.len() as int) =~= base);
}

/// Where the directory of the blocked commands exists, it comes first on the isolated path.
pub proof fn law_blocked_commands_come_first(
    root: Seq<u8>,
    tools: Seq<char>,
    bins: Seq<Seq<u8>>,
    there: Seq<Seq<u8>>,
)
    requires
        there.contains(within(root, tools)),
    ensures
        path_entries(root, tools, bins, there)[0] == shown(within(root, tools)),
{
}

/// Every text among the present ones is that of a path in `bins`.
proof fn lemma_present_texts(bins: Seq<Seq<u8>>, there: Seq<Seq<u8>>, k: int)
    requires
        0 <= k < present_texts(bins, there).len(),
    ensures
        exists|m: int|
            0 <= m < bins.len() && shown(#[trigger] bins[m]) == present_texts(bins, there)[k]
                && there.contains(bins[m]),
    decreases bins.len(),
{
    let front = bins.drop_last();
    let before = present_texts(front, there);
    if k < before.len() {
        lemma_present_texts(front, there, k);
        let m = choose|m: int|
            0 <= m < front.len() && shown(#[trigger] front[m]) == before[k] && there.contains(front[m]);
        assert(bins[m] == front[m]);
    } else {
        assert(bins[bins.len() - 1] == bins.last());
    }
}

/// Every entry of the isolated path but the last is a directory of the payload, where the runtimes
/// are: no directory of the host's users is on it.
pub proof fn law_path_stays_in_the_payload(
    root: Seq<u8>,
    raw: Option<Seq<char>>,
    bins: Seq<Seq<u8>>,
    there: Seq<Seq<u8>>,
    k: int,
)
    requires
        forall|i: int| 0 <= i < bins.len() ==> inside(root, #[trigger] bins[i]),
        0 <= k < path_entries(root, tools_dir(raw), bins, there).len() - 1,
    ensures
        exists|p: Seq<u8>|
            inside(root, p) && there.contains(p) && path_entries(root, tools_dir(raw), bins, there)[k]
                == #[trigger] shown(p),
{
    let tools = tools_dir(raw);
    law_tools_stay_in_the_payload(root, raw);
    let entries = path_entries(root, tools, bins, there);
    let shims = present_text(within(root, tools), there);
    let pm = present_text(joined(root, pm_bin(tools)), there);
    let rest = present_texts(bins, there);
    if k < shims.len() {
        assert(entries[k] == shown(within(root, tools)));
    } else if k < shims.len() + pm.len() {
        assert(entries[k] == pm[k - shims.len()]);
        assert(entries[k] == shown(joined(root, pm_bin(tools))));
    } else {
        let j = k - shims.len() - pm.len();
        assert(entries[k] == rest[j]);
        lemma_present_texts(bins, there, j);
        let m = choose|m: int|
            0 <= m < bins.len() && shown(#[trigger] bins[m]) == rest[j] && there.contains(bins[m]);
        assert(inside(root, bins[m]));
    }
}

/// The isolated environment sets the path and the homes of Rust's tools, and no other variable.
pub proof fn law_environment_sets_no_other_variable(
    root: Seq<u8>,
    tools: Seq<char>,
    bins: Seq<Seq<u8>>,
    there: Seq<Seq<u8>>,
    k: int,
)
    requires
        0 <= k < isolated_env(root, tools, bins, there).len(),
    ensures
        ({
            let name = isolated_env(root, tools, bins, there)[k].0;
            name == "PATH"@ || name == "CARGO_HOME"@ || name == "RUSTUP_HOME"@
        }),
{
}

/// The texts of the paths that are there.
proof fn lemma_present_texts_filter(bins: Seq<Seq<u8>>, there: Seq<Seq<u8>>)
    ensures
        present_texts(bins, there) == bins.filter(|p: Seq<u8>| there.contains(p)).map_values(
            |p: Seq<u8>| shown(p),
        ),
    decreases bins.len(),
{
    reveal(Seq::filter);
    let found = bins.filter(|p: Seq<u8>| there.contains(p));
    if bins.len() > 0 {
        lemma_present_texts_filter(bins.drop_last(), there);
    }
    assert(present_texts(bins, there) =~= found.map_values(|p: Seq<u8>| shown(p)));
}

/// The texts of paths one after the other.
proof fn lemma_present_texts_concat(a: Seq<Seq<u8>>, b: Seq<Seq<u8>>, there: Seq<Seq<u8>>)
    ensures
        present_texts(a + b, there) == present_texts(a, there) + present_texts(b, there),
    decreases b.len(),
{
    if b.len() == 0 {
        assert(a + b =~= a);
    } else {
        lemma_present_texts_concat(a, b.drop_last(), there);
        assert((a + b).drop_last() =~= a + b.drop_last());
        assert((a + b).last() == b.last());
    }
    assert(present_texts(a + b, there) =~= present_texts(a, there) + present_texts(b, there));
}

/// The isolated path names, in this order, the directory of the blocked commands, that of the package
/// managers and those of the runtimes, of all of them those that exist, and then the path of the host
/// that is kept, and nothing else.
pub proof fn law_path_is_in_order(root: Seq<u8>, tools: Seq<char>, bins: Seq<Seq<u8>>, there: Seq<Seq<u8>>)
    ensures
        path_entries(root, tools, bins, there) == (seq![
            within(root, tools),
            joined(root, within(within(encode_utf8(tools), "pm"@), "bin"@)),
        ] + bins).filter(|p: Seq<u8>| there.contains(p)).map_values(|p: Seq<u8>| shown(p)).push(
            "/usr/bin:/bin:/usr/sbin:/sbin"@,
        ),
        isolated_env(root, tools, bins, there)[0] == (
            "PATH"@,
            joined_text(path_entries(root, tools, bins, there), ":"@),
        ),
{
    let shims = within(root, tools);
    let pm = joined(root, pm_bin(tools));
    let both = seq![shims, pm];
    lemma_present_texts_filter(both + bins, there);
    lemma_present_texts_concat(both, bins, there);
    assert(both.drop_last() =~= seq![shims]);
    assert(both.drop_last().drop_last() =~= Seq::empty());
    assert(present_texts(seq![shims].drop_last(), there) =~= Seq::empty());
    assert(present_texts(seq![shims], there) =~= present_text(shims, there));
    assert(present_texts(both, there) =~= present_text(shims, there) + present_text(pm, there));
    assert(path_entries(root, tools, bins, there) =~= present_texts(both + bins, there).push(
        "/usr/bin:/bin:/usr/sbin:/sbin"@,
    ));
}

/// The homes of Rust's tools are set to the directories in the payload exactly where these exist.
pub proof fn law_rust_homes_are_set_where_they_exist(
    root: Seq<u8>,
    tools: Seq<char>,
    bins: Seq<Seq<u8>>,
    there: Seq<Seq<u8>>,
)
    ensures
        ({
            let env = isolated_env(root, tools, bins, there);
            let cargo = within(within(root, tools), "cargo"@);
            let rustup = within(within(root, tools), "rustup"@);
            &&& env.contains(("CARGO_HOME"@, shown(cargo))) <==> there.contains(cargo)
            &&& env.contains(("RUSTUP_HOME"@, shown(rustup))) <==> there.contains(rustup)
            &&& env.len() == 1 + (if there.contains(cargo) { 1int } else { 0 }) + (if there.contains(rustup) {
                1int
            } else {
                0
            })
        }),
{
    let env = isolated_env(root, tools, bins, there);
    let cargo = within(within(root, tools), "cargo"@);
    let rustup = within(within(root, tools), "rustup"@);
    reveal_strlit("PATH");
    reveal_strlit("CARGO_HOME");
    reveal_strlit("RUSTUP_HOME");
    assert("PATH"@.len() == 4 && "CARGO_HOME"@.len() == 10 && "RUSTUP_HOME"@.len() == 11);
    if there.contains(cargo) {
        assert(env[1] == ("CARGO_HOME"@, shown(cargo)));
        if there.contains(rustup) {
            assert(env[2] == ("RUSTUP_HOME"@, shown(rustup)));
        }
    } else if there.contains(rustup) {
        assert(env[1] == ("RUSTUP_HOME"@, shown(rustup)));
    }
}

/// Which commands come with a kind of runtimes: these are blocked where the recipe asks for no runtime of
/// the kind, and no others are.
pub proof fn law_commands_come_with_their_kind(
    runtimes: Seq<RuntimeView>,
    command: Seq<char>,
    family: RuntimeFamily,
)
    ensures
        ({
            let own = match family {
                RuntimeFamily::Node => command == "node"@ || command == "npm"@ || command == "npx"@ || command
                    == "corepack"@ || command == "pnpm"@ || command == "yarn"@,
                RuntimeFamily::Rust => command == "rustc"@ || command == "cargo"@ || command == "rustup"@ || command
                    == "rustfmt"@ || command == "clippy-driver"@ || command == "cargo-clippy"@,
                RuntimeFamily::Python => command == "python"@ || command == "python3"@ || command == "pip"@
                    || command == "pip3"@ || command == "uv"@,
                RuntimeFamily::Go => command == "go"@ || command == "gofmt"@,
                RuntimeFamily::Deno => command == "deno"@,
                RuntimeFamily::Bun => command == "bun"@ || command == "bunx"@,
            };
            blocked(runtimes).contains((command, family)) <==> own && forall|i: int|
                0 <= i < runtimes.len() ==> (#[trigger] runtimes[i]).family() != family
        }),
{
    let list = family_commands(family);
    match family {
        RuntimeFamily::Node => {
            assert(list[0] == "node"@ && list[1] == "npm"@ && list[2] == "npx"@ && list[3] == "corepack"@);
            assert(list[4] == "pnpm"@ && list[5] == "yarn"@ && list.len() == 6);
        },
        RuntimeFamily::Rust => {
            assert(list[0] == "rustc"@ && list[1] == "cargo"@ && list[2] == "rustup"@ && list[3] == "rustfmt"@);
            assert(list[4] == "clippy-driver"@ && list[5] == "cargo-clippy"@ && list.len() == 6);
        },
        RuntimeFamily::Python => {
            assert(list[0] == "python"@ && list[1] == "python3"@ && list[2] == "pip"@ && list[3] == "pip3"@);
            assert(list[4] == "uv"@ && list.len() == 5);
        },
        RuntimeFamily::Go => {
            assert(list[0] == "go"@ && list[1] == "gofmt"@ && list.len() == 2);
        },
        RuntimeFamily::Deno => {
            assert(list[0] == "deno"@ && list.len() == 1);
        },
        RuntimeFamily::Bun => {
            assert(list[0] == "bun"@ && list[1] == "bunx"@ && list.len() == 2);
        },
    }
    if list.contains(command) {
        law_blocked_unless_requested(runtimes, command, family);
    } else {
        lemma_only_commands_are_blocked(families(), runtimes, command, family);
    }
}

/// What is blocked is a command of its kind.
proof fn lemma_only_commands_are_blocked(
    kinds: Seq<RuntimeFamily>,
    runtimes: Seq<RuntimeView>,
    command: Seq<char>,
    family: RuntimeFamily,
)
    ensures
        blocked_among(kinds, runtimes).contains((command, family)) ==> family_commands(family).contains(command),
    decreases kinds.len(),
{
    if kinds.len() > 0 {
        let front = kinds.drop_last();
        lemma_only_commands_are_blocked(front, runtimes, command, family);
        let before = blocked_among(front, runtimes);
        let all = blocked_among(kinds, runtimes);
        if all.contains((command, family)) {
            let k = choose|k: int| 0 <= k < all.len() && all[k] == (command, family);
            if k < before.len() {
                assert(before[k] == all[k]);
            } else {
                let added = family_commands(kinds.last()).map_values(|c: Seq<char>| (c, kinds.last()));
                assert(all[k] == added[k - before.len()]);
                assert(family_commands(family)[k - before.len()] == command);
            }
        }
    }
}

/// A blocked command is a script that says so and fails, made executable, in the tools directory, which is
/// made first. There is one for every blocked command, and nothing else is written.
pub proof fn law_blocked_commands_fail(stage: Seq<u8>, tools: Seq<char>, runtimes: Seq<RuntimeView>, k: int)
    requires
        0 <= k < blocked(runtimes).len(),
    ensures
        ({
            let steps = blocking_steps(stage, tools, runtimes);
            let (command, family) = blocked(runtimes)[k];
            let path = within(within(stage, tools), command);
            let name = match family {
                RuntimeFamily::Node => "node"@,
                RuntimeFamily::Rust => "rust"@,
                RuntimeFamily::Python => "python"@,
                RuntimeFamily::Go => "go"@,
                RuntimeFamily::Deno => "deno"@,
                RuntimeFamily::Bun => "bun"@,
            };
            &&& steps.len() == 1 + 2 * blocked(runtimes).len()
            &&& steps[0] == StepView::CreateDirs(within(stage, tools))
            &&& steps[1 + 2 * k] == StepView::Write {
                path,
                contents: "#!/bin/sh\necho \"tortia: '"@ + command
                    + "' is blocked in this isolated environment (add runtime '"@ + name
                    + "' in [runtimes].items)\" >&2\nexit 127\n"@,
            }
            &&& steps[2 + 2 * k] is Run && steps[2 + 2 * k]->Run_command.program == ArgView::Text("/bin/chmod"@)
            &&& steps[2 + 2 * k]->Run_command.args == seq![ArgView::Text("+x"@), ArgView::Path(path)]
        }),
{
    lemma_shim_steps_at(within(stage, tools), blocked(runtimes), k);
    let args = blocking_steps(stage, tools, runtimes)[2 + 2 * k]->Run_command.args;
    assert(args =~= seq![
        ArgView::Text("+x"@),
        ArgView::Path(within(within(stage, tools), blocked(runtimes)[k].0)),
    ]);
}

/// The script for a command stands at its place.
proof fn lemma_shim_steps_at(root: Seq<u8>, commands: Seq<(Seq<char>, RuntimeFamily)>, k: int)
    requires
        0 <= k < commands.len(),
    ensures
        shim_steps(root, commands).len() == 2 * commands.len(),
        shim_steps(root, commands)[2 * k] == script_steps(
            within(root, commands[k].0),
            shim_body(commands[k].0, commands[k].1),
        )[0],
        shim_steps(root, commands)[2 * k + 1] == script_steps(
            within(root, commands[k].0),
            shim_body(commands[k].0, commands[k].1),
        )[1],
    decreases commands.len(),
{
    let front = commands.drop_last();
    let before = shim_steps(root, front);
    let last = script_steps(within(root, commands.last().0), shim_body(commands.last().0, commands.last().1));
    let all = shim_steps(root, commands);
    assert(all == before + last);
    if k < front.len() {
        lemma_shim_steps_at(root, front, k);
        assert(front[k] == commands[k]);
        assert(all[2 * k] == before[2 * k] && all[2 * k + 1] == before[2 * k + 1]);
    } else {
        if front.len() > 0 {
            lemma_shim_steps_at(root, front, 0);
        }
        assert(before.len() == 2 * k);
        assert(all[2 * k] == last[0] && all[2 * k + 1] == last[1]);
    }
}

/// The paths of which the isolated environment depends on whether they exist.
pub open spec fn probes(root: Seq<u8>, tools: Seq<char>, bins: Seq<Seq<u8>>) -> Seq<Seq<u8>> {
    seq![
        within(root, tools),
        joined(root, pm_bin(tools)),
        within(within(root, tools), "cargo"@),
        within(within(root, tools), "rustup"@),
    ] + bins
}

/// The isolated environment depends on the existence of no path but the probed ones: where two hosts agree
/// on these, they have the same environment.
pub proof fn law_only_probed_paths_count(
    root: Seq<u8>,
    tools: Seq<char>,
    bins: Seq<Seq<u8>>,
    a: Seq<Seq<u8>>,
    b: Seq<Seq<u8>>,
)
    requires
        forall|i: int|
            0 <= i < probes(root, tools, bins).len() ==> a.contains(#[trigger] probes(root, tools, bins)[i])
                == b.contains(probes(root, tools, bins)[i]),
    ensures
        isolated_env(root, tools, bins, a) == isolated_env(root, tools, bins, b),
{
    let all = probes(root, tools, bins);
    assert(all[0] == within(root, tools) && all[1] == joined(root, pm_bin(tools)));
    assert(all[2] == within(within(root, tools), "cargo"@) && all[3] == within(within(root, tools), "rustup"@));
    assert forall|i: int| 0 <= i < bins.len() implies a.contains(#[trigger] bins[i]) == b.contains(bins[i]) by {
        assert(all[4 + i] == bins[i]);
    }
    lemma_present_texts_agree(bins, a, b);
}

/// The texts of the paths that are there depend on these paths alone.
proof fn lemma_present_texts_agree(bins: Seq<Seq<u8>>, a: Seq<Seq<u8>>, b: Seq<Seq<u8>>)
    requires
        forall|i: int| 0 <= i < bins.len() ==> a.contains(#[trigger] bins[i]) == b.contains(bins[i]),
    ensures
        present_texts(bins, a) == present_texts(bins, b),
    decreases bins.len(),
{
    if bins.len() > 0 {
        let front = bins.drop_last();
        assert forall|i: int| 0 <= i < front.len() implies a.contains(#[trigger] front[i]) == b.contains(front[i]) by {
            assert(front[i] == bins[i]);
        }
        lemma_present_texts_agree(front, a, b);
        assert(bins[bins.len() - 1] == bins.last());
    }
}

} // verus!
