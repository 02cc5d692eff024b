use tortia::bundle::parse_bundle_path;
use tortia::cleanup::{
    clean_artifacts, clean_options, clean_targets, find_temp_dirs, run_clean, sort_targets, CleanAction, CleanOptions,
    CleanReport, CleanSites, TempEntry,
};
use tortia::command::{CommandLine, Plan, Step};
use tortia::course::{build_course, opening_line, run_course, Course, Phase};
use tortia::dependencies::{auto_install_dependencies, watched_files, DependencyAction, DependencyRun, Ecosystem};
use tortia::extensions::ExtensionEvent;
use tortia::host_install::{ensure_system_packages_installed, HostAction, HostRun};
use tortia::host_packages::{HostPackageManager, HostPackageRequest};
use tortia::log::{log_info, Level, LogLine};
use tortia::managers::PackageManagerSpec;
use tortia::paths::{temp_dir_name, HostPath, BUILD_TEMP_PREFIX, RUN_TEMP_PREFIX};
use tortia::provision::ensure_runtimes;
use tortia::recipe::SystemPackagesConfig;
use tortia::runner::{Directive, Outcome, Runner};
use tortia::runtime::RuntimeSpec;
use tortia::staging::{copy_file_with_parents, copy_includes, CopyAction, CopyRun, Entry, EntryKind};

fn p(text: &str) -> HostPath {
    HostPath::from_text(text)
}

fn shown(paths: &Vec<HostPath>) -> Vec<String> {
    paths.iter().map(|path| path.display()).collect()
}

fn directive(runner: &Runner) -> String {
    match runner.directive() {
        Directive::Perform(Step::Log(line)) => format!("log {}", line.message),
        Directive::Perform(Step::Run(_)) => "run".to_string(),
        Directive::Perform(Step::Require { .. }) => "require".to_string(),
        Directive::Perform(_) => "other".to_string(),
        Directive::Remove(path) => format!("remove {}", path.display()),
        Directive::Finished => "finished".to_string(),
        Directive::Failed(error) => format!("failed {error}"),
    }
}

fn plan() -> Plan {
    let mut plan = Plan::new();
    plan.log(log_info("a"));
    plan.run_then_remove(CommandLine::named("x"), &p("/f"), "x failed");
    plan.require(&p("/g"), "g is missing");
    plan
}

#[test]
fn announced_commands_decide() {
    let end = |outcome: Outcome| {
        let mut plan = Plan::new();
        plan.log(log_info("x"));
        plan.run(CommandLine::named("x"), "x failed");
        let mut runner = Runner::new(plan);
        runner.advance(Outcome::Done);
        runner.advance(outcome);
        directive(&runner)
    };
    assert_eq!(end(Outcome::Done), "finished");
    assert_eq!(end(Outcome::Refused), "failed x failed");
    assert_eq!(end(Outcome::Error("no such file".to_string())), "failed no such file");
}

#[test]
fn plans_run_to_their_end() {
    let mut runner = Runner::new(plan());
    assert_eq!(directive(&runner), "log a");
    runner.advance(Outcome::Done);
    assert_eq!(directive(&runner), "run");
    runner.advance(Outcome::Done);
    assert_eq!(directive(&runner), "remove /f");
    runner.advance(Outcome::Error("does not matter".to_string()));
    assert_eq!(directive(&runner), "require");
    runner.advance(Outcome::Done);
    assert_eq!(directive(&runner), "finished");
    runner.advance(Outcome::Refused);
    assert_eq!(directive(&runner), "finished");
}

#[test]
fn plans_stop_at_a_refusal_and_tidy_up() {
    let mut runner = Runner::new(plan());
    runner.advance(Outcome::Done);
    runner.advance(Outcome::Refused);
    assert_eq!(directive(&runner), "remove /f");
    runner.advance(Outcome::Done);
    assert_eq!(directive(&runner), "failed x failed");
    runner.advance(Outcome::Done);
    assert_eq!(directive(&runner), "failed x failed");
}

#[test]
fn plans_stop_at_what_is_missing() {
    let mut runner = Runner::new(plan());
    for outcome in [Outcome::Done, Outcome::Done, Outcome::Done, Outcome::Refused] {
        runner.advance(outcome);
    }
    assert_eq!(directive(&runner), "failed g is missing");
}

#[test]
fn plans_stop_at_an_error() {
    let mut runner = Runner::new(plan());
    runner.advance(Outcome::Done);
    runner.advance(Outcome::Error("no such program".to_string()));
    assert_eq!(directive(&runner), "failed no such program");
}

fn request(manager: HostPackageManager, package: &str) -> HostPackageRequest {
    HostPackageRequest { manager, package: package.to_string() }
}

fn packages(auto_install: bool, update: bool, missing_only: Option<bool>) -> SystemPackagesConfig {
    SystemPackagesConfig {
        items: None,
        auto_install: Some(auto_install),
        use_sudo: None,
        update: Some(update),
        missing_only,
    }
}

fn host_action(run: &HostRun) -> String {
    match run.action() {
        HostAction::FindManager(m) => format!("find {}", m.name()),
        HostAction::FindPackage(i) => format!("look for {}", run.requests[i].package),
        HostAction::Update(m) => format!("update {}", m.name()),
        HostAction::Install(i) => format!("install {}", run.requests[i].package),
        HostAction::Finished => "finished".to_string(),
        HostAction::Failed(e) => format!("failed {e}"),
    }
}

fn follow(run: &mut HostRun, answers: &[bool]) -> Vec<String> {
    let mut seen = Vec::new();
    for answer in answers {
        let action = host_action(run);
        let note = run.advance(*answer);
        seen.push(match note {
            Some(line) => format!("{action} ({})", line.message),
            None => action,
        });
    }
    seen.push(host_action(run));
    seen
}

fn line(found: &Option<LogLine>) -> Option<(Level, &str)> {
    found.as_ref().map(|l| (l.level, l.message.as_str()))
}

#[test]
fn host_packages_are_installed_once_each_manager_is_updated() {
    let requests = vec![
        request(HostPackageManager::Brew, "a"),
        request(HostPackageManager::Brew, "b"),
        request(HostPackageManager::Apt, "c"),
    ];
    let config = packages(true, true, None);
    let (mut run, opening) = ensure_system_packages_installed(Some(&config), requests);
    assert_eq!(line(&opening), Some((Level::Step, "Installing host system packages")));
    assert!(!run.use_sudo);
    let answers = [true, false, true, true, true, false, true, true, true];
    assert_eq!(
        follow(&mut run, &answers),
        vec![
            "find brew",
            "look for a",
            "update brew",
            "install a",
            "find brew",
            "look for b",
            "install b",
            "find apt",
            "look for c (System package already installed: apt:c)",
            "finished",
        ]
    );
}

#[test]
fn all_host_packages_are_installed_where_that_is_asked_for() {
    let requests = vec![request(HostPackageManager::Pacman, "a")];
    let config = packages(true, false, Some(false));
    let (mut run, _) = ensure_system_packages_installed(Some(&config), requests);
    assert_eq!(follow(&mut run, &[true, true]), vec!["find pacman", "install a", "finished"]);
}

#[test]
fn host_packages_stop_at_a_failure() {
    let start = |update: bool| {
        let config = packages(true, update, Some(false));
        ensure_system_packages_installed(Some(&config), vec![request(HostPackageManager::Apt, "a")]).0
    };
    assert_eq!(
        follow(&mut start(false), &[false, true]).last().unwrap(),
        "failed system package manager 'apt' is not available on this host"
    );
    assert_eq!(follow(&mut start(true), &[true, false]).last().unwrap(), "failed apt-get update failed");
    assert_eq!(follow(&mut start(false), &[true, false]).last().unwrap(), "failed apt-get install failed");
}

#[test]
fn host_packages_are_skipped_unless_asked_for() {
    let requests = vec![request(HostPackageManager::Brew, "a")];
    let config = packages(false, true, None);
    let (run, opening) = ensure_system_packages_installed(Some(&config), requests);
    assert_eq!(
        line(&opening),
        Some((Level::Info, "System packages are configured but auto_install is false. Skipping."))
    );
    assert_eq!(host_action(&run), "finished");
    let (run, opening) = ensure_system_packages_installed(None, vec![]);
    assert!(opening.is_none());
    assert_eq!(host_action(&run), "finished");
}

fn installs(managers: Vec<PackageManagerSpec>, present: &[&str]) -> Vec<String> {
    let present: Vec<String> = present.iter().map(|s| s.to_string()).collect();
    let (mut run, _): (DependencyRun, Option<LogLine>) = auto_install_dependencies(&managers, true);
    let mut seen = Vec::new();
    loop {
        match run.step(&present) {
            DependencyAction::Install { command, failure, .. } => seen.push(format!("{command} or {failure}")),
            DependencyAction::Note(note) => seen.push(note),
            DependencyAction::Finished => return seen,
            DependencyAction::Failed(error) => panic!("{error}"),
        }
    }
}

#[test]
fn lock_files_choose_the_command() {
    let one = |manager: PackageManagerSpec, present: &[&str]| installs(vec![manager], present);
    assert_eq!(
        one(PackageManagerSpec::Npm, &["package.json", "package-lock.json"]),
        vec!["npm ci or npm auto-install failed"]
    );
    assert_eq!(one(PackageManagerSpec::Npm, &["package.json"]), vec!["npm install or npm auto-install failed"]);
    assert_eq!(
        one(PackageManagerSpec::Pnpm, &["package.json", "pnpm-lock.yaml"]),
        vec!["pnpm install --frozen-lockfile or pnpm auto-install failed"]
    );
    assert_eq!(one(PackageManagerSpec::Pnpm, &["package.json"]), vec!["pnpm install or pnpm auto-install failed"]);
    assert_eq!(
        one(PackageManagerSpec::Yarn, &["package.json", "yarn.lock"]),
        vec!["yarn install --immutable || yarn install --frozen-lockfile || yarn install or yarn auto-install failed"]
    );
    assert_eq!(one(PackageManagerSpec::Yarn, &["package.json"]), vec!["yarn install or yarn auto-install failed"]);
    assert_eq!(one(PackageManagerSpec::Bun, &["package.json"]), vec!["bun install or bun auto-install failed"]);
    assert_eq!(
        one(PackageManagerSpec::Uv, &["requirements.txt", "pyproject.toml"]),
        vec!["uv sync or uv sync failed"]
    );
    assert_eq!(
        one(PackageManagerSpec::Uv, &["requirements.txt"]),
        vec!["uv pip install -r requirements.txt or uv requirements install failed"]
    );
    assert_eq!(
        one(PackageManagerSpec::Pip, &["pyproject.toml", "requirements.txt"]),
        vec!["pip install -r requirements.txt or pip requirements install failed"]
    );
    assert_eq!(
        one(PackageManagerSpec::Pip, &["pyproject.toml"]),
        vec!["pip install . or pip project install failed"]
    );
    assert_eq!(one(PackageManagerSpec::Cargo, &["Cargo.toml"]), vec!["cargo fetch or cargo fetch failed"]);
    assert_eq!(one(PackageManagerSpec::Go, &["go.mod"]), vec!["go mod download or go mod download failed"]);
    let note = "Deno package manager is prepared. Add explicit deps.command if you need cache prefetch.";
    assert_eq!(one(PackageManagerSpec::Deno, &["deno.json"]), vec![note]);
    assert_eq!(one(PackageManagerSpec::Deno, &["deno.jsonc"]), vec![note]);
    assert_eq!(one(PackageManagerSpec::Npm, &["package-lock.json"]).len(), 0);
}

#[test]
fn an_ecosystem_installs_once() {
    let all = vec![
        PackageManagerSpec::Npm,
        PackageManagerSpec::Bun,
        PackageManagerSpec::Pip,
        PackageManagerSpec::Uv,
        PackageManagerSpec::Cargo,
    ];
    assert_eq!(
        installs(all.clone(), &["package.json", "pyproject.toml", "Cargo.toml"]),
        vec![
            "npm install or npm auto-install failed",
            "pip install . or pip project install failed",
            "cargo fetch or cargo fetch failed",
        ]
    );
    let (mut run, opening) = auto_install_dependencies(&all, false);
    assert!(opening.is_none());
    assert!(matches!(run.step(&watched_files()), DependencyAction::Finished));
    let (mut run, opening) = auto_install_dependencies(&all, true);
    assert_eq!(line(&opening), Some((Level::Step, "Auto-installing dependencies")));
    assert!(matches!(
        run.step(&watched_files()),
        DependencyAction::Install { ecosystem: Ecosystem::JavaScript, .. }
    ));
    assert!(auto_install_dependencies(&vec![], true).1.is_none());
    assert_eq!(watched_files().len(), 10);
}

#[test]
fn installation_stops_at_the_first_that_fails() {
    let managers = vec![PackageManagerSpec::Npm, PackageManagerSpec::Cargo];
    let (mut run, _) = auto_install_dependencies(&managers, true);
    assert!(matches!(run.step(&watched_files()), DependencyAction::Install { .. }));
    run.failed("npm auto-install failed".to_string());
    for _ in 0..2 {
        assert!(matches!(
            run.step(&watched_files()),
            DependencyAction::Failed(error) if error == "npm auto-install failed"
        ));
    }
}

#[test]
fn clean_removes_temporary_directories_by_default() {
    let chosen = |temp, cache, tools, all| {
        let o: CleanOptions = clean_options(&p("/w"), temp, cache, tools, all, false);
        (o.temp, o.cache, o.tools)
    };
    assert_eq!(chosen(false, false, false, false), (true, false, false));
    assert_eq!(chosen(false, true, false, false), (false, true, false));
    assert_eq!(chosen(true, false, true, false), (true, false, true));
    assert_eq!(chosen(false, false, false, true), (true, true, true));
}

fn entry(path: &str, is_dir: bool) -> TempEntry {
    TempEntry { path: p(path), is_dir }
}

#[test]
fn temporary_directories_are_found_by_their_names() {
    let build = format!("/tmp/{}", temp_dir_name(BUILD_TEMP_PREFIX, 7, 99));
    let run = format!("/tmp/{}", temp_dir_name(RUN_TEMP_PREFIX, 7, 99));
    let entries = vec![
        entry(&run, true),
        entry(&build, true),
        entry("/tmp/tortia-build-file", false),
        entry("/tmp/tortia", true),
        TempEntry { path: HostPath { bytes: b"/tmp/tortia-build-\xff".to_vec() }, is_dir: true },
    ];
    assert_eq!(shown(&find_temp_dirs(&entries, BUILD_TEMP_PREFIX)), vec![build.clone()]);
    assert_eq!(shown(&find_temp_dirs(&entries, RUN_TEMP_PREFIX)), vec![run.clone()]);
    let sites = CleanSites {
        temp_entries: entries,
        cache_root: p("/home/u/.cache/tortia"),
        project_root: Some(p("/w")),
        tools_dir: ".tortia-tools".to_string(),
    };
    let all = clean_options(&p("/w"), false, false, false, true, false);
    assert_eq!(
        shown(&clean_targets(&all, &sites)),
        vec!["/home/u/.cache/tortia".to_string(), build, run, "/w/.tortia-tools".to_string()]
    );
}

#[test]
fn targets_are_sorted_and_listed_once() {
    let list: Vec<HostPath> = ["/b", "/a/c", "/a-b", "/a", "/a//c", "/b/", "x"].iter().map(|s| p(s)).collect();
    let mut expected: Vec<std::path::PathBuf> =
        ["/b", "/a/c", "/a-b", "/a", "/a//c", "/b/", "x"].iter().map(std::path::PathBuf::from).collect();
    expected.sort();
    expected.dedup();
    let expected: Vec<String> = expected.iter().map(|x| x.to_str().unwrap().to_string()).collect();
    assert_eq!(shown(&sort_targets(&list)), expected);
}

fn cleaning(dry_run: bool, facts: &[(&str, bool, Option<&str>)]) -> CleanReport {
    let entries = facts.iter().map(|(path, _, _)| entry(path, true)).collect();
    let sites = CleanSites {
        temp_entries: entries,
        cache_root: p("/c"),
        project_root: None,
        tools_dir: "t".to_string(),
    };
    let mut run = run_clean(&clean_options(&p("/w"), true, false, false, false, dry_run), &sites);
    while let Some(target) = run.target() {
        let name = target.display();
        let (_, present, error) = facts.iter().find(|f| f.0 == name).unwrap();
        match run.found(*present) {
            CleanAction::Next => {}
            CleanAction::Remove => run.removed(error.map(|e| e.to_string())),
        }
    }
    run.report
}

#[test]
fn clean_reports_what_became_of_its_targets() {
    let facts = [
        ("/tmp/tortia-build-1", true, None),
        ("/tmp/tortia-build-2", false, None),
        ("/tmp/tortia-run-1", true, Some("denied")),
    ];
    let report = cleaning(false, &facts);
    assert_eq!(shown(&report.removed), vec!["/tmp/tortia-build-1"]);
    assert_eq!(shown(&report.missing), vec!["/tmp/tortia-build-2"]);
    assert_eq!(report.failed.len(), 1);
    let (lines, result) = clean_artifacts(&report, false);
    let lines: Vec<(Level, &str)> = lines.iter().map(|l| (l.level, l.message.as_str())).collect();
    assert_eq!(
        lines,
        vec![
            (Level::Info, "Removed /tmp/tortia-build-1"),
            (Level::Info, "Not found /tmp/tortia-build-2"),
            (Level::Error, "Failed to remove /tmp/tortia-run-1 (denied)"),
        ]
    );
    assert_eq!(result.unwrap_err(), "clean completed with failures");
}

#[test]
fn dry_runs_remove_nothing() {
    let facts = [("/tmp/tortia-build-1", true, Some("not tried")), ("/tmp/tortia-run-1", false, None)];
    let report = cleaning(true, &facts);
    let (lines, result) = clean_artifacts(&report, true);
    let lines: Vec<(Level, &str)> = lines.iter().map(|l| (l.level, l.message.as_str())).collect();
    assert_eq!(
        lines,
        vec![
            (Level::Info, "Dry-run mode: no files were removed"),
            (Level::Info, "Would remove /tmp/tortia-build-1"),
            (Level::Info, "Not found /tmp/tortia-run-1"),
            (Level::Success, "Clean completed"),
        ]
    );
    assert!(result.is_ok());
}

enum Node {
    File,
    Link,
    Dir(Vec<(&'static str, Node)>),
}

fn find<'a>(tree: &'a Node, path: &str) -> Option<&'a Node> {
    let mut node = tree;
    for name in path.split('/').filter(|n| !n.is_empty()) {
        match node {
            Node::Dir(children) => node = &children.iter().find(|c| c.0 == name)?.1,
            _ => return None,
        }
    }
    Some(node)
}

fn copied(tree: &Node, takes: &[&str], leaves: &[&str]) -> Vec<String> {
    let paths = |list: &[&str]| list.iter().map(|s| parse_bundle_path(s).unwrap()).collect();
    let mut run: CopyRun = copy_includes(&p("/p"), &p("/s"), paths(takes), paths(leaves));
    let mut seen = Vec::new();
    let entries = |dir: &HostPath| -> Vec<Entry> {
        match find(tree, dir.display().strip_prefix("/p").unwrap()) {
            Some(Node::Dir(children)) => children
                .iter()
                .map(|(name, node)| Entry {
                    name: name.as_bytes().to_vec(),
                    kind: match node {
                        Node::File => EntryKind::File,
                        Node::Link => EntryKind::Link,
                        Node::Dir(_) => EntryKind::Directory,
                    },
                })
                .collect(),
            _ => panic!("no directory"),
        }
    };
    loop {
        match run.step() {
            CopyAction::Look(path) => {
                let node = find(tree, path.display().strip_prefix("/p").unwrap());
                run.looked(node.is_some(), matches!(node, Some(Node::File)));
            }
            CopyAction::List(dir) => run.listed(&entries(&dir)),
            CopyAction::Enter { made, dir } => {
                seen.push(format!("make {}", made.display()));
                run.listed(&entries(&dir));
            }
            CopyAction::Copy { from, to } => seen.push(format!("{} to {}", from.display(), to.display())),
            CopyAction::Finished => return seen,
            CopyAction::Failed(error) => {
                seen.push(error);
                return seen;
            }
        }
    }
}

fn tree() -> Node {
    Node::Dir(vec![
        ("a.txt", Node::File),
        ("src", Node::Dir(vec![("m.rs", Node::File), ("gen", Node::Dir(vec![("g.rs", Node::File)])), ("z", Node::File)])),
        ("target", Node::Dir(vec![("x", Node::File), ("l", Node::Link)])),
        ("empty", Node::Dir(vec![])),
    ])
}

#[test]
fn copying_stops_at_the_first_failure() {
    let taken = vec![parse_bundle_path("a.txt").unwrap(), parse_bundle_path("b.txt").unwrap()];
    let mut run = copy_includes(&p("/p"), &p("/s"), taken, vec![]);
    assert!(matches!(run.step(), CopyAction::Look(_)));
    run.looked(true, true);
    assert!(matches!(run.step(), CopyAction::Copy { .. }));
    run.failed("disk full".to_string());
    for _ in 0..2 {
        assert!(matches!(run.step(), CopyAction::Failed(error) if error == "disk full"));
    }
}

#[test]
fn whole_projects_are_copied_without_what_is_left_out() {
    assert_eq!(
        copied(&tree(), &["."], &["target", "src/gen"]),
        vec!["/p/a.txt to /s/a.txt", "make /s/src", "/p/src/m.rs to /s/src/m.rs", "/p/src/z to /s/src/z", "make /s/empty"]
    );
}

#[test]
fn parts_of_projects_are_copied() {
    assert_eq!(
        copied(&tree(), &["src", "a.txt", "src/z", "empty"], &["src/z"]),
        vec![
            "/p/src/m.rs to /s/src/m.rs",
            "make /s/src/gen",
            "/p/src/gen/g.rs to /s/src/gen/g.rs",
            "/p/a.txt to /s/a.txt",
        ]
    );
    assert_eq!(
        copied(&tree(), &["a.txt", "none", "src"], &[]),
        vec!["/p/a.txt to /s/a.txt", "bundle.include path not found: none"]
    );
}

#[test]
fn listed_files_and_directories_are_copied() {
    let script = Node::Dir(vec![("index.js", Node::File), ("node_modules", Node::Dir(vec![("x", Node::File)]))]);
    assert_eq!(copied(&script, &["index.js"], &[]), vec!["/p/index.js to /s/index.js"]);
    let project = Node::Dir(vec![
        ("Cargo.toml", Node::File),
        ("src", Node::Dir(vec![("main.rs", Node::File)])),
        ("target", Node::Dir(vec![("x", Node::File)])),
    ]);
    assert_eq!(
        copied(&project, &["Cargo.toml", "src"], &[]),
        vec!["/p/Cargo.toml to /s/Cargo.toml", "/p/src/main.rs to /s/src/main.rs"]
    );
    assert_eq!(copied(&project, &["src", "Cargo.toml"], &["src"]), vec!["/p/Cargo.toml to /s/Cargo.toml"]);
}

#[test]
fn links_are_refused_even_where_they_are_left_out() {
    assert_eq!(
        copied(&tree(), &["target"], &["target/l"]),
        vec!["/p/target/x to /s/target/x", "symlink is not supported in bundle: /p/target/l"]
    );
}

#[test]
fn files_are_copied_into_directories_that_are_made() {
    let plan = copy_file_with_parents(&p("/p/a"), &p("/s/a"));
    assert_eq!(plan.steps.len(), 2);
    assert!(matches!(&plan.steps[0], Step::CreateParentDirs(path) if path.display() == "/s/a"));
    assert!(matches!(&plan.steps[1], Step::Copy { from, to } if from.display() == "/p/a" && to.display() == "/s/a"));
}

#[test]
fn runtimes_are_provisioned_in_order() {
    let specs = vec![
        RuntimeSpec::Deno { version: None },
        RuntimeSpec::Node { version: "1".to_string() },
        RuntimeSpec::Deno { version: Some("2".to_string()) },
        RuntimeSpec::Go { version: "3".to_string() },
        RuntimeSpec::Rust { toolchain: "stable".to_string() },
        RuntimeSpec::Python { version: None },
        RuntimeSpec::Bun { version: None },
    ];
    let (mut run, plan) = ensure_runtimes(&p("/s"), "t", &specs, "linux", "x86_64");
    assert!(matches!(&plan.steps[0], Step::CreateDirs(path) if path.display() == "/s/t"));
    let mut probes = Vec::new();
    while !run.over() {
        probes.push(run.probe().unwrap().display());
        assert!(run.advance(true).is_some());
    }
    assert_eq!(
        probes,
        vec![
            "/s/t/deno/bin/deno",
            "/s/t/node-v1-linux-x64/bin/node",
            "/s/t/deno/bin/deno",
            "/s/t/go-3-linux-amd64/go/bin/go",
            "/s/t/cargo/bin/rustup",
            "/s/t/miniconda/bin/python",
            "/s/t/bun/bin/bun",
        ]
    );
    assert_eq!(
        run.dirs,
        vec![
            "deno/bin",
            "node-v1-linux-x64/bin",
            "go-3-linux-amd64/go/bin",
            "cargo/bin",
            "miniconda/bin",
            "bun/bin",
        ]
    );
    assert_eq!(run.bins()[1].display(), "/s/t/node-v1-linux-x64/bin");
}

#[test]
fn runtimes_that_cannot_be_had_are_an_error() {
    let specs = vec![RuntimeSpec::Deno { version: None }, RuntimeSpec::Go { version: "3".to_string() }];
    let (mut run, _) = ensure_runtimes(&p("/s"), "t", &specs, "plan9", "x86_64");
    assert!(run.advance(false).is_some());
    assert_eq!(run.probe().unwrap_err(), "go runtime install is not supported on plan9/x86_64");
    assert!(run.advance(false).is_none());
    assert!(run.over());
    assert_eq!(run.outcome().unwrap_err(), "go runtime install is not supported on plan9/x86_64");
    assert_eq!(run.dirs, vec!["deno/bin"]);
    let none = vec![];
    let (run, plan) = ensure_runtimes(&p("/s"), "t", &none, "linux", "x86_64");
    assert!(run.over());
    assert!(matches!(&plan.steps[0], Step::Log(l) if l.message == "No runtimes requested"));
}

#[test]
fn runtimes_stop_at_the_first_that_fails() {
    let specs = vec![RuntimeSpec::Deno { version: None }, RuntimeSpec::Bun { version: None }];
    let (mut run, _) = ensure_runtimes(&p("/s"), "t", &specs, "linux", "x86_64");
    assert!(run.advance(false).is_some());
    assert!(!run.over());
    run.failed("no network".to_string());
    assert!(run.over());
    assert_eq!(run.next, 1);
    assert_eq!(run.outcome().unwrap_err(), "no network");
}

#[test]
fn plain_versions_stay_in_the_payload() {
    let leads_up = |version: &str| {
        let specs = vec![RuntimeSpec::Node { version: version.to_string() }];
        let (mut run, _) = ensure_runtimes(&p("/s"), "t", &specs, "linux", "x86_64");
        assert!(run.advance(false).is_some());
        assert!(run.bins()[0].display().starts_with("/s/t/node-v"));
        run.dirs[0].split('/').any(|segment| segment == "..")
    };
    assert!(!leads_up("22.14.0"));
    assert!(!leads_up(".."));
    assert!(!leads_up("a/b"));
    assert!(leads_up("1/../../x"));
}

fn phases(mut course: Course) -> Vec<Phase> {
    let mut seen = Vec::new();
    while let Some(phase) = course.phase() {
        seen.push(phase);
        course.advance(None);
    }
    assert!(course.outcome().is_ok());
    seen
}

#[test]
fn builds_and_runs_have_their_phases() {
    assert_eq!(
        phases(build_course()),
        vec![
            Phase::ArchiveDir,
            Phase::SystemPackages,
            Phase::Stage,
            Phase::Bundle,
            Phase::Runtimes,
            Phase::Shims,
            Phase::Environment,
            Phase::Managers,
            Phase::Environment,
            Phase::Extensions(ExtensionEvent::BeforeDeps),
            Phase::Dependencies,
            Phase::Extensions(ExtensionEvent::AfterDeps),
            Phase::DepsHook,
            Phase::Extensions(ExtensionEvent::BeforeBuild),
            Phase::BuildHook,
            Phase::Extensions(ExtensionEvent::AfterBuild),
            Phase::Manifest,
            Phase::Pack,
        ]
    );
    assert_eq!(
        phases(run_course()),
        vec![
            Phase::Unpack,
            Phase::ReadManifest,
            Phase::Environment,
            Phase::Extensions(ExtensionEvent::BeforeRun),
            Phase::Main,
            Phase::Extensions(ExtensionEvent::AfterRun),
        ]
    );
}

#[test]
fn courses_stop_at_a_failure() {
    let mut course = run_course();
    course.advance(None);
    course.advance(Some("bad manifest".to_string()));
    assert_eq!(course.phase(), None);
    course.advance(None);
    assert_eq!(course.phase(), None);
    assert_eq!(course.outcome().unwrap_err(), "bad manifest");
}

#[test]
fn some_phases_are_announced() {
    assert_eq!(opening_line(Phase::Stage, "app").unwrap().message, "Preparing stage for app");
    assert_eq!(opening_line(Phase::Bundle, "app").unwrap().message, "Copying bundle files");
    assert_eq!(opening_line(Phase::Runtimes, "app").unwrap().message, "Provisioning isolated runtimes");
    assert!(opening_line(Phase::Pack, "app").is_none());
}
