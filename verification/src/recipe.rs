//! The recipe of a project, the manifest of an archive, and the first recipe of a new project.
use vstd::prelude::*;
use vstd::string::*;
use crate::command::{Plan, Step, StepView};
use crate::log::{log_success, Level, LogView};
use crate::paths::{name_text, shown, within, HostPath, CONFIG_FILE};
use crate::text::{texts, trim, trimmed};

verus! {

/// The recipe that a new project starts with.
pub const DEFAULT_CONFIG: &'static str = r#"[project]
name = "my-app"

[runtimes]
items = [] # e.g. ["node@22.14.0", "rust@stable", "python@3.12", "go@1.22.12", "deno@2.2.5", "bun@1.2.5"]

[package_managers]
items = [] # e.g. ["npm", "pnpm", "pip", "uv", "cargo", "go", "deno", "bun"]
auto_install = true

[system_packages]
items = [] # e.g. ["brew:wget", "apt:libssl-dev", "pacman:jq"]
auto_install = false
use_sudo = false
update = false
missing_only = true

[extensions]
dirs = [".tortia/extensions", "extensions"] # searched in order
before_deps = []
after_deps = []
before_build = []
after_build = []
before_run = []
after_run = []

[deps]
command = "" # e.g. npm ci --prefix app

[build]
command = "" # e.g. npm run build --prefix app

[run]
command = "" # e.g. node app/index.js

[bundle]
include = ["."]
exclude = [".git", "target"]
"#;

/// A recipe.
pub struct TortiaConfig {
    pub project: Option<ProjectConfig>,
    pub runtimes: Option<RuntimesConfig>,
    pub package_managers: Option<PackageManagersConfig>,
    pub system_packages: Option<SystemPackagesConfig>,
    pub extensions: Option<ExtensionsConfig>,
    pub deps: Option<HookConfig>,
    pub build: Option<HookConfig>,
    pub run: RunConfig,
    pub bundle: Option<BundleConfig>,
}

/// `[project]`.
pub struct ProjectConfig {
    pub name: Option<String>,
}

/// `[runtimes]`.
pub struct RuntimesConfig {
    pub items: Option<Vec<String>>,
}

/// `[package_managers]`.
pub struct PackageManagersConfig {
    pub items: Option<Vec<String>>,
    pub auto_install: Option<bool>,
}

/// `[system_packages]`.
pub struct SystemPackagesConfig {
    pub items: Option<Vec<String>>,
    pub auto_install: Option<bool>,
    pub use_sudo: Option<bool>,
    pub update: Option<bool>,
    pub missing_only: Option<bool>,
}

/// `[extensions]`.
pub struct ExtensionsConfig {
    pub dirs: Option<Vec<String>>,
    pub before_deps: Option<Vec<String>>,
    pub after_deps: Option<Vec<String>>,
    pub before_build: Option<Vec<String>>,
    pub after_build: Option<Vec<String>>,
    pub before_run: Option<Vec<String>>,
    pub after_run: Option<Vec<String>>,
}

/// `[deps]` and `[build]`.
pub struct HookConfig {
    pub command: Option<String>,
}

/// `[run]`.
pub struct RunConfig {
    pub command: String,
}

/// `[bundle]`.
pub struct BundleConfig {
    pub includes: Option<Vec<String>>,
    pub excludes: Option<Vec<String>>,
}

/// The manifest of an archive.
pub struct TortiaManifest {
    pub name: String,
    pub run_command: String,
    pub built_at_unix: u64,
    pub tool_bin_paths: Vec<String>,
    pub extension_dirs: Vec<String>,
    pub before_run_extensions: Vec<String>,
    pub after_run_extensions: Vec<String>,
}

/// The manifest of an archive.
pub struct ManifestView {
    pub name: Seq<char>,
    pub run_command: Seq<char>,
    pub built_at_unix: int,
    pub tool_bin_paths: Seq<Seq<char>>,
    pub extension_dirs: Seq<Seq<char>>,
    pub before_run_extensions: Seq<Seq<char>>,
    pub after_run_extensions: Seq<Seq<char>>,
}

impl View for TortiaManifest {
    type V = ManifestView;

    open spec fn view(&self) -> ManifestView {
        ManifestView {
            name: self.name@,
            run_command: self.run_command@,
            built_at_unix: self.built_at_unix as int,
            tool_bin_paths: texts(self.tool_bin_paths@),
            extension_dirs: texts(self.extension_dirs@),
            before_run_extensions: texts(self.before_run_extensions@),
            after_run_extensions: texts(self.after_run_extensions@),
        }
    }
}

/// The texts of an optional list: none where there is no list.
pub open spec fn listed_texts(list: Option<Vec<String>>) -> Seq<Seq<char>> {
    match list {
        Some(items) => texts(items@),
        None => Seq::empty(),
    }
}

/// The texts of an optional list, `default` where there is no list.
pub open spec fn listed_or(list: Option<Vec<String>>, default: Seq<Seq<char>>) -> Seq<Seq<char>> {
    match list {
        Some(items) => texts(items@),
        None => default,
    }
}

/// An optional flag, `default` where it is not set.
pub open spec fn flag_or(flag: Option<bool>, default: bool) -> bool {
    match flag {
        Some(value) => value,
        None => default,
    }
}

/// The items of an optional list: none where there is no list.
pub fn items_of(list: &Option<Vec<String>>) -> (r: Vec<String>)
    ensures
        texts(r@) == listed_texts(*list),
{
    match list {
        Some(items) => items.clone(),
        None => {
            let r: Vec<String> = Vec::new();
            assert(texts(r@) =~= Seq::empty());
            r
        },
    }
}

/// The name of a project: the trimmed name of the recipe, or the name of the project's directory.
pub open spec fn project_name(root: Seq<u8>, project: Option<&ProjectConfig>) -> Result<
    Seq<char>,
    Seq<char>,
> {
    if project is Some && project->0.name is Some && trimmed(project->0.name->0@).len() > 0 {
        Ok(trimmed(project->0.name->0@))
    } else {
        match name_text(root) {
            Some(name) => Ok(name),
            None => Err("unable to infer project name from directory"@),
        }
    }
}

/// The name of the project in `project_root`.
pub fn infer_project_name(project_root: &HostPath, project: Option<&ProjectConfig>) -> (r: Result<String, String>)
    ensures
        match r {
            Ok(name) => project_name(project_root@, project) == Ok::<Seq<char>, Seq<char>>(name@),
            Err(e) => project_name(project_root@, project) == Err::<Seq<char>, Seq<char>>(e@),
        },
{
    if let Some(project) = project {
        if let Some(name) = &project.name {
            let name = trim(name.as_str());
            if name.unicode_len() > 0 {
                return Ok(name.to_string());
            }
        }
    }
    match project_root.name() {
        Some(name) => Ok(name),
        None => Err("unable to infer project name from directory".to_string()),
    }
}

/// The recipe of the project in `dir`.
pub fn config_path(dir: &HostPath) -> (r: HostPath)
    ensures
        r@ == within(dir@, CONFIG_FILE@),
{
    dir.join(CONFIG_FILE)
}

/// The error for a recipe that cannot be read.
pub fn unreadable_config(dir: &HostPath) -> (r: String)
    ensures
        r@ == "failed to read "@ + shown(within(dir@, CONFIG_FILE@)),
{
    "failed to read ".to_string().concat(config_path(dir).display().as_str())
}

/// The steps that make the directory of a project; they come before it is asked whether the project
/// has a recipe.
pub fn init_dir(dir: &HostPath) -> (r: Plan)
    ensures
        r@ == seq![StepView::CreateDirs(dir@)],
{
    let mut plan = Plan::new();
    plan.create_dirs(dir);
    assert(plan@ =~= seq![StepView::CreateDirs(dir@)]);
    plan
}

/// The steps that write the first recipe of the project in `dir`; `present` tells whether it has a
/// recipe, which only `force` overwrites.
pub fn init_tortia(dir: &HostPath, present: bool, force: bool) -> (r: Result<Plan, String>)
    ensures
        r is Err <==> present && !force,
        r matches Err(e) ==> e@ == shown(within(dir@, CONFIG_FILE@))
            + " already exists. Use --force to overwrite."@,
        r matches Ok(plan) ==> plan@ == seq![
            StepView::Write { path: within(dir@, CONFIG_FILE@), contents: DEFAULT_CONFIG@ },
            StepView::Log(
                LogView { level: Level::Success, message: "Created "@ + shown(within(dir@, CONFIG_FILE@)) },
            ),
        ],
{
    let path = config_path(dir);
    if present && !force {
        return Err(path.display().concat(" already exists. Use --force to overwrite."));
    }
    let line = log_success("Created ".to_string().concat(path.display().as_str()).as_str());
    let mut plan = Plan::new();
    plan.push(Step::Write { path, contents: DEFAULT_CONFIG.to_string() });
    plan.log(line);
    assert(plan@ =~= seq![
        StepView::Write { path: within(dir@, CONFIG_FILE@), contents: DEFAULT_CONFIG@ },
        StepView::Log(line@),
    ]);
    Ok(plan)
}

} // verus!
