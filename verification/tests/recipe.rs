use tortia::bundle::{is_excluded, parse_bundle_path, parse_bundle_paths, RelPath};
use tortia::command::Step;
use tortia::extensions::{
    extension_candidates, extension_event_items, extension_event_name, extension_plan_from_manifest,
    parse_extension_paths, parse_extension_plan, resolve_extension_script, ExtensionEvent,
};
use tortia::host_packages::{is_safe_package_token, manager_binary, parse_host_package_requests, HostPackageManager};
use tortia::log::Level;
use tortia::managers::{merge_required_runtimes, parse_package_manager_specs, PackageManagerSpec};
use tortia::packaging::build_package;
use tortia::paths::HostPath;
use tortia::recipe::{
    config_path, infer_project_name, init_dir, init_tortia, unreadable_config, BundleConfig, ExtensionsConfig, HookConfig,
    PackageManagersConfig, ProjectConfig, RunConfig, RuntimesConfig, SystemPackagesConfig, TortiaConfig,
    TortiaManifest, DEFAULT_CONFIG,
};
use tortia::runtime::{parse_runtime_specs, runtime_family_name, RuntimeFamily, RuntimeSpec};

fn p(text: &str) -> HostPath {
    HostPath::from_text(text)
}

fn text(path: &HostPath) -> String {
    String::from_utf8(path.bytes.clone()).unwrap()
}

fn list(items: &[&str]) -> Option<Vec<String>> {
    Some(items.iter().map(|s| s.to_string()).collect())
}

fn shown(runtime: &RuntimeSpec) -> String {
    match runtime {
        RuntimeSpec::Node { version } => format!("node {version}"),
        RuntimeSpec::Rust { toolchain } => format!("rust {toolchain}"),
        RuntimeSpec::Python { version } => format!("python {version:?}"),
        RuntimeSpec::Go { version } => format!("go {version}"),
        RuntimeSpec::Deno { version } => format!("deno {version:?}"),
        RuntimeSpec::Bun { version } => format!("bun {version:?}"),
    }
}

fn runtimes(items: &[&str]) -> Result<Vec<String>, String> {
    let config = RuntimesConfig { items: list(items) };
    parse_runtime_specs(Some(&config)).map(|specs| specs.iter().map(shown).collect())
}

fn managers(items: &[&str]) -> Result<Vec<&'static str>, String> {
    let config = PackageManagersConfig { items: list(items), auto_install: None };
    parse_package_manager_specs(Some(&config)).map(|specs| specs.iter().map(|m| m.name()).collect())
}

fn packages(items: &[&str]) -> Result<Vec<String>, String> {
    let config = SystemPackagesConfig {
        items: list(items),
        auto_install: None,
        use_sudo: None,
        update: None,
        missing_only: None,
    };
    parse_host_package_requests(Some(&config)).map(|requests| {
        requests.iter().map(|r| format!("{}:{}", r.manager.name(), r.package)).collect()
    })
}

fn extensions(dirs: Option<Vec<String>>, before_run: Option<Vec<String>>) -> ExtensionsConfig {
    ExtensionsConfig {
        dirs,
        before_deps: None,
        after_deps: None,
        before_build: None,
        after_build: None,
        before_run,
        after_run: None,
    }
}

fn bundle(takes: &[&str], leaves: &[&str]) -> Result<(Vec<String>, Vec<String>), String> {
    let config = BundleConfig { includes: list(takes), excludes: list(leaves) };
    parse_bundle_paths(Some(&config)).map(|(a, b)| (texts(&a), texts(&b)))
}

fn texts(paths: &Vec<RelPath>) -> Vec<String> {
    paths.iter().map(|path| path.text()).collect()
}

fn config() -> TortiaConfig {
    TortiaConfig {
        project: Some(ProjectConfig { name: Some("my-app".to_string()) }),
        runtimes: None,
        package_managers: None,
        system_packages: None,
        extensions: None,
        deps: None,
        build: None,
        run: RunConfig { command: "node index.js".to_string() },
        bundle: None,
    }
}

#[test]
fn runtimes_have_their_defaults() {
    assert_eq!(
        runtimes(&["node", "rust", "python", "go", "deno", "bun"]).unwrap(),
        vec!["node 22.14.0", "rust stable", "python None", "go 1.22.12", "deno None", "bun None"]
    );
    assert_eq!(parse_runtime_specs(None).unwrap().len(), 0);
    assert_eq!(parse_runtime_specs(Some(&RuntimesConfig { items: None })).unwrap().len(), 0);
}

#[test]
fn runtimes_have_their_versions() {
    assert_eq!(
        runtimes(&[
            " node@v20.1.0 ",
            "",
            "  ",
            "rust@nightly",
            "py@3.12",
            "python@v3",
            "golang@v1.21",
            "deno@vv2.2.5",
            "bun @ 1.2.5",
            "node@22@x",
        ])
        .unwrap(),
        vec![
            "node 20.1.0",
            "rust nightly",
            "python Some(\"3.12\")",
            "python Some(\"v3\")",
            "go 1.21",
            "deno Some(\"2.2.5\")",
            "bun Some(\"1.2.5\")",
            "node 22@x",
        ]
    );
}

#[test]
fn latest_means_no_version() {
    assert_eq!(
        runtimes(&["python@latest", "deno@LATEST", "bun@Latest", "python@ "]).unwrap(),
        vec!["python None", "deno None", "bun None", "python None"]
    );
    assert_eq!(runtimes(&["node@latest"]).unwrap(), vec!["node latest"]);
}

#[test]
fn unknown_runtimes_are_refused() {
    let expected = "unsupported runtime 'Ruby'. supported: node, rust, python, go, deno, bun (e.g. node@22.14.0, rust@stable, python@3.12, go@1.22.12, deno@2.2.5, bun@1.2.5)";
    assert_eq!(runtimes(&["node", "Ruby@3", "perl"]).unwrap_err(), expected);
    assert!(runtimes(&["Node"]).is_err());
}

#[test]
fn families_have_their_names() {
    let found: Vec<&str> = [
        RuntimeFamily::Node,
        RuntimeFamily::Rust,
        RuntimeFamily::Python,
        RuntimeFamily::Go,
        RuntimeFamily::Deno,
        RuntimeFamily::Bun,
    ]
    .iter()
    .map(|f| runtime_family_name(*f))
    .collect();
    assert_eq!(found, vec!["node", "rust", "python", "go", "deno", "bun"]);
}

#[test]
fn managers_are_read_once_each() {
    assert_eq!(
        managers(&[" NPM ", "pnpm", "yarn", "pip", "PIP3", "uv", "cargo", "go", "gomod", "go-mod", "deno", "bun", "", "npm"])
            .unwrap(),
        vec!["npm", "pnpm", "yarn", "pip", "uv", "cargo", "go", "deno", "bun"]
    );
    assert_eq!(
        managers(&["npm", "Maven"]).unwrap_err(),
        "unsupported package manager 'maven'. supported: npm, pnpm, yarn, pip, uv, cargo, go, deno, bun"
    );
    assert_eq!(parse_package_manager_specs(None).unwrap().len(), 0);
}

#[test]
fn managers_need_runtimes() {
    let found: Vec<&str> = [
        PackageManagerSpec::Npm,
        PackageManagerSpec::Pnpm,
        PackageManagerSpec::Yarn,
        PackageManagerSpec::Pip,
        PackageManagerSpec::Uv,
        PackageManagerSpec::Cargo,
        PackageManagerSpec::Go,
        PackageManagerSpec::Deno,
        PackageManagerSpec::Bun,
    ]
    .iter()
    .map(|m| runtime_family_name(m.required_runtime()))
    .collect();
    assert_eq!(found, vec!["node", "node", "node", "python", "python", "rust", "go", "deno", "bun"]);
}

#[test]
fn missing_runtimes_are_added() {
    let mut specs = vec![RuntimeSpec::Rust { toolchain: "nightly".to_string() }];
    let asked = vec![
        PackageManagerSpec::Npm,
        PackageManagerSpec::Pnpm,
        PackageManagerSpec::Cargo,
        PackageManagerSpec::Uv,
        PackageManagerSpec::Bun,
    ];
    let notes = merge_required_runtimes(&mut specs, &asked);
    let found: Vec<String> = specs.iter().map(shown).collect();
    assert_eq!(found, vec!["rust nightly", "node 22.14.0", "python None", "bun None"]);
    let lines: Vec<&str> = notes.iter().map(|n| n.message.as_str()).collect();
    assert_eq!(
        lines,
        vec![
            "Auto-adding runtime 'node' for package manager 'npm'",
            "Auto-adding runtime 'python' for package manager 'uv'",
            "Auto-adding runtime 'bun' for package manager 'bun'",
        ]
    );
    assert!(notes.iter().all(|n| n.level == Level::Info));
    assert_eq!(merge_required_runtimes(&mut specs, &asked).len(), 0);
    assert_eq!(specs.len(), 4);
}

#[test]
fn host_packages_are_read_once_each() {
    assert_eq!(
        packages(&["brew:wget", " Apt : libssl-dev ", "homebrew:wget", "apt-get:libssl-dev", "", "pacman:a:b/c@1_+.-"])
            .unwrap(),
        vec!["brew:wget", "apt:libssl-dev", "pacman:a:b/c@1_+.-"]
    );
    assert_eq!(parse_host_package_requests(None).unwrap().len(), 0);
}

#[test]
fn bad_host_packages_are_refused() {
    assert_eq!(
        packages(&[" wget "]).unwrap_err(),
        "invalid system package entry 'wget'. expected '<manager>:<package>'"
    );
    assert_eq!(
        packages(&["Yum :x"]).unwrap_err(),
        "unsupported system package manager 'Yum '. supported: brew, apt, pacman"
    );
    assert_eq!(
        packages(&["brew: "]).unwrap_err(),
        "invalid system package entry 'brew:': missing package name"
    );
    assert_eq!(
        packages(&["brew:a;b"]).unwrap_err(),
        "invalid package token 'a;b' in 'brew:a;b'. only [a-zA-Z0-9._+:/@-] are allowed"
    );
    assert!(is_safe_package_token("aZ09._+:/@-"));
    assert!(is_safe_package_token(""));
    for bad in ["a b", "é", "$x", "a`", "\n"] {
        assert!(!is_safe_package_token(bad));
    }
}

#[test]
fn host_managers_have_names_and_binaries() {
    assert_eq!(HostPackageManager::from_name("homebrew"), Some(HostPackageManager::Brew));
    assert_eq!(HostPackageManager::from_name("apt-get"), Some(HostPackageManager::Apt));
    assert_eq!(HostPackageManager::from_name("pacman"), Some(HostPackageManager::Pacman));
    assert_eq!(HostPackageManager::from_name("Brew"), None);
    assert_eq!(manager_binary(HostPackageManager::Apt), "apt-get");
    assert_eq!(manager_binary(HostPackageManager::Brew), "brew");
    assert_eq!(manager_binary(HostPackageManager::Pacman), "pacman");
}

#[test]
fn bundle_paths_are_normalised() {
    for (raw, expected) in [("", ""), (".", ""), (" . ", ""), ("./", ""), ("a/./b//c/", "a/b/c"), (" a", " a")] {
        assert_eq!(parse_bundle_path(raw).unwrap().text(), expected, "{raw}");
    }
    assert_eq!(parse_bundle_path("/a").unwrap_err(), "bundle path must be relative: /a");
    assert_eq!(parse_bundle_path("a/../b").unwrap_err(), "bundle path cannot contain '..': a/../b");
}

#[test]
fn normal_paths_read_back_but_for_dots_between_blanks() {
    for raw in ["a/b", "./x//y", "a b/c", "..a"] {
        let once = parse_bundle_path(raw).unwrap().text();
        assert_eq!(parse_bundle_path(&once).unwrap().text(), once);
    }
    let odd = parse_bundle_path("./ .").unwrap().text();
    assert_eq!(odd, " .");
    assert_eq!(parse_bundle_path(&odd).unwrap().text(), "");
}

#[test]
fn bundles_take_in_and_leave_out() {
    assert_eq!(bundle(&[], &["."]).unwrap(), (vec!["".to_string()], vec![]));
    assert_eq!(
        bundle(&["src", "./a.txt"], &[".git", "", "target/"]).unwrap(),
        (vec!["src".to_string(), "a.txt".to_string()], vec![".git".to_string(), "target".to_string()])
    );
    assert_eq!(bundle(&["/x"], &["../y"]).unwrap_err(), "bundle path must be relative: /x");
    assert_eq!(bundle(&["x"], &["../y"]).unwrap_err(), "bundle path cannot contain '..': ../y");
    let (takes, leaves) = parse_bundle_paths(None).unwrap();
    assert_eq!((texts(&takes), leaves.len()), (vec!["".to_string()], 0));
}

#[test]
fn exclusion_covers_what_lies_below() {
    let leaves = vec![parse_bundle_path("target").unwrap(), parse_bundle_path("a/b").unwrap()];
    let names = |s: &str| -> Vec<Vec<u8>> { s.split('/').map(|n| n.as_bytes().to_vec()).collect() };
    for inside in ["target", "target/debug/x", "a/b", "a/b/c"] {
        assert!(is_excluded(&names(inside), &leaves), "{inside}");
    }
    for outside in ["targets", "a", "a/bc", "x/target"] {
        assert!(!is_excluded(&names(outside), &leaves), "{outside}");
    }
}

#[test]
fn projects_have_names() {
    let named = ProjectConfig { name: Some("  app ".to_string()) };
    let blank = ProjectConfig { name: Some("  ".to_string()) };
    let none = ProjectConfig { name: None };
    assert_eq!(infer_project_name(&p("/w/dir"), Some(&named)).unwrap(), "app");
    assert_eq!(infer_project_name(&p("/w/dir"), Some(&blank)).unwrap(), "dir");
    assert_eq!(infer_project_name(&p("/w/dir/"), Some(&none)).unwrap(), "dir");
    assert_eq!(infer_project_name(&p("/w/dir"), None).unwrap(), "dir");
    assert_eq!(infer_project_name(&p("/"), None).unwrap_err(), "unable to infer project name from directory");
    let odd = HostPath { bytes: vec![b'/', 0xff] };
    assert!(infer_project_name(&odd, None).is_err());
}

#[test]
fn extensions_have_their_defaults() {
    let plan = parse_extension_plan(None).unwrap();
    assert_eq!(texts(&plan.dirs), vec![".tortia/extensions", "extensions"]);
    let plan = parse_extension_plan(Some(&extensions(list(&["x/./y"]), list(&["pre.sh"])))).unwrap();
    assert_eq!(texts(&plan.dirs), vec!["x/y"]);
    assert_eq!(texts(extension_event_items(&plan, ExtensionEvent::BeforeRun)), vec!["pre.sh"]);
    assert_eq!(extension_event_items(&plan, ExtensionEvent::AfterRun).len(), 0);
    assert_eq!(extension_event_items(&plan, ExtensionEvent::BeforeDeps).len(), 0);
    assert_eq!(extension_event_name(ExtensionEvent::BeforeDeps), "before_deps");
    assert_eq!(extension_event_name(ExtensionEvent::AfterDeps), "after_deps");
    assert_eq!(extension_event_name(ExtensionEvent::BeforeBuild), "before_build");
    assert_eq!(extension_event_name(ExtensionEvent::AfterBuild), "after_build");
    assert_eq!(extension_event_name(ExtensionEvent::BeforeRun), "before_run");
    assert_eq!(extension_event_name(ExtensionEvent::AfterRun), "after_run");
}

#[test]
fn bad_extensions_are_refused() {
    assert_eq!(
        parse_extension_plan(Some(&extensions(list(&["."]), None))).unwrap_err(),
        "extensions.dirs cannot contain '.' or empty path"
    );
    assert_eq!(
        parse_extension_plan(Some(&extensions(None, list(&["a", ""])))).unwrap_err(),
        "extensions.before_run cannot contain '.' or empty path"
    );
    assert_eq!(
        parse_extension_plan(Some(&extensions(None, list(&["../a"])))).unwrap_err(),
        "bundle path cannot contain '..': ../a"
    );
    assert_eq!(
        parse_extension_paths(&vec!["/a".to_string()], "x").unwrap_err(),
        "bundle path must be relative: /a"
    );
}

#[test]
fn manifests_name_the_scripts_of_the_run() {
    let mut manifest = TortiaManifest {
        name: "a".to_string(),
        run_command: "b".to_string(),
        built_at_unix: 1,
        tool_bin_paths: vec![],
        extension_dirs: vec!["extensions".to_string()],
        before_run_extensions: vec!["pre".to_string()],
        after_run_extensions: vec!["post.sh".to_string()],
    };
    let plan = extension_plan_from_manifest(&manifest).unwrap();
    assert_eq!(texts(&plan.dirs), vec!["extensions"]);
    assert_eq!(texts(&plan.before_run), vec!["pre"]);
    assert_eq!(texts(&plan.after_run), vec!["post.sh"]);
    assert_eq!(plan.before_deps.len() + plan.after_deps.len() + plan.before_build.len() + plan.after_build.len(), 0);
    manifest.after_run_extensions = vec!["".to_string()];
    assert_eq!(
        extension_plan_from_manifest(&manifest).unwrap_err(),
        "manifest.after_run_extensions cannot contain '.' or empty path"
    );
}

#[test]
fn scripts_are_searched_in_order() {
    let dirs = vec![parse_bundle_path(".tortia/extensions").unwrap(), parse_bundle_path("extensions").unwrap()];
    let plain = parse_bundle_path("sub/pre").unwrap();
    let found: Vec<String> = extension_candidates(&p("/r"), &dirs, &plain).iter().map(text).collect();
    assert_eq!(
        found,
        vec![
            "/r/.tortia/extensions/sub/pre",
            "/r/.tortia/extensions/sub/pre.sh",
            "/r/extensions/sub/pre",
            "/r/extensions/sub/pre.sh",
        ]
    );
    let files = vec![p("/r/extensions/sub/pre"), p("/r/.tortia/extensions/sub/pre.sh")];
    let script = resolve_extension_script(&p("/r"), &dirs, &plain, &files).unwrap();
    assert_eq!(text(&script), "/r/.tortia/extensions/sub/pre.sh");
    assert_eq!(
        resolve_extension_script(&p("/r"), &dirs, &plain, &vec![]).unwrap_err(),
        "extension script 'sub/pre' was not found in configured extension dirs"
    );
}

#[test]
fn scripts_with_an_extension_get_no_other() {
    let dirs = vec![parse_bundle_path("e").unwrap()];
    for (name, count) in [("a.sh", 1), ("a.", 1), ("a.b/c", 2), (".hidden", 2), ("..x", 1), ("a", 2)] {
        let script = parse_bundle_path(name).unwrap();
        let with = std::path::Path::new(name).extension().is_some();
        assert_eq!(with, count == 1);
        assert_eq!(extension_candidates(&p("/r"), &dirs, &script).len(), count, "{name}");
    }
}

#[test]
fn init_writes_the_first_recipe() {
    assert_eq!(text(&config_path(&p("/w"))), "/w/RecipeFile");
    let made = init_dir(&p("/w"));
    assert_eq!(made.steps.len(), 1);
    assert!(matches!(&made.steps[0], Step::CreateDirs(dir) if text(dir) == "/w"));
    let plan = init_tortia(&p("/w"), false, false).unwrap();
    assert_eq!(plan.steps.len(), 2);
    match &plan.steps[0] {
        Step::Write { path, contents } => {
            assert_eq!(text(path), "/w/RecipeFile");
            assert_eq!(contents, DEFAULT_CONFIG);
        }
        _ => panic!("no file is written"),
    }
    assert!(matches!(&plan.steps[1], Step::Log(line) if line.message == "Created /w/RecipeFile"));
    assert!(init_tortia(&p("/w"), true, true).is_ok());
    assert_eq!(
        init_tortia(&p("/w"), true, false).err().unwrap(),
        "/w/RecipeFile already exists. Use --force to overwrite."
    );
    assert_eq!(unreadable_config(&p("/w")), "failed to read /w/RecipeFile");
}

#[test]
fn the_first_recipe_is_a_recipe() {
    let value: toml::Value = toml::from_str(DEFAULT_CONFIG).unwrap();
    assert_eq!(value["project"]["name"].as_str(), Some("my-app"));
    assert_eq!(value["package_managers"]["auto_install"].as_bool(), Some(true));
    assert_eq!(value["system_packages"]["missing_only"].as_bool(), Some(true));
    assert_eq!(value["extensions"]["dirs"][0].as_str(), Some(".tortia/extensions"));
    assert_eq!(value["bundle"]["exclude"][1].as_str(), Some("target"));
    assert_eq!(value["run"]["command"].as_str(), Some(""));
}

#[test]
fn builds_follow_the_recipe() {
    let mut c = config();
    c.package_managers = Some(PackageManagersConfig { items: list(&["npm"]), auto_install: Some(true) });
    c.bundle = Some(BundleConfig { includes: list(&["index.js"]), excludes: None });
    c.deps = Some(HookConfig { command: Some("make deps".to_string()) });
    let (notes, plan) = build_package(&p("/w/x"), &c, None);
    let plan = plan.ok().unwrap();
    assert_eq!(notes.len(), 1);
    assert_eq!(plan.name, "my-app");
    assert_eq!(plan.run_command, "node index.js");
    assert_eq!(texts(&plan.includes), vec!["index.js"]);
    assert_eq!(plan.managers, vec![PackageManagerSpec::Npm]);
    assert!(plan.auto_install);
    assert_eq!(plan.runtimes.iter().map(shown).collect::<Vec<_>>(), vec!["node 22.14.0"]);
    assert_eq!(plan.deps.as_deref(), Some("make deps"));
    assert_eq!(plan.build, None);
    assert_eq!(text(&plan.archive), "/w/x/my-app.tortia");
    let (_, other) = build_package(&p("/w/x"), &config(), Some(&p("out/a.tortia")));
    let other = other.ok().unwrap();
    assert_eq!(text(&other.archive), "/w/x/out/a.tortia");
    assert!(!other.auto_install);
}

#[test]
fn the_first_error_of_a_recipe_counts() {
    let mut c = config();
    c.extensions = Some(extensions(list(&["."]), None));
    let error = |c: &TortiaConfig| build_package(&p("/"), c, None).1.err().unwrap();
    assert_eq!(error(&c), "extensions.dirs cannot contain '.' or empty path");
    c.system_packages = Some(SystemPackagesConfig {
        items: list(&["x"]),
        auto_install: None,
        use_sudo: None,
        update: None,
        missing_only: None,
    });
    assert!(error(&c).starts_with("invalid system package entry 'x'"));
    c.package_managers = Some(PackageManagersConfig { items: list(&["npm"]), auto_install: None });
    assert_eq!(build_package(&p("/"), &c, None).0.len(), 1);
    c.runtimes = Some(RuntimesConfig { items: list(&["ruby"]) });
    assert!(error(&c).starts_with("unsupported runtime 'ruby'"));
    assert_eq!(build_package(&p("/"), &c, None).0.len(), 0);
    c.package_managers = Some(PackageManagersConfig { items: list(&["maven"]), auto_install: None });
    assert!(error(&c).starts_with("unsupported package manager 'maven'"));
    c.bundle = Some(BundleConfig { includes: list(&["/x"]), excludes: None });
    assert_eq!(error(&c), "bundle path must be relative: /x");
    c.run = RunConfig { command: " \t".to_string() };
    assert_eq!(error(&c), "[run].command is required in RecipeFile");
    c.project = None;
    assert_eq!(error(&c), "unable to infer project name from directory");
}
