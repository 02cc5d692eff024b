//! Extension scripts: where they are looked for, and when they run.
use vstd::prelude::*;
use vstd::string::*;
use crate::bundle::{
    bundle_path, law_bundle_paths_stay_inside, law_path_text_reads_back, parse_bundle_path, proper, proper_name,
    reads_as_dot, rel_text, rel_views, RelPath,
};
use crate::command::{env_texts, run_step, Arg, ArgView, CommandLine, CommandView, Plan, StepView};
use crate::log::{log_step, Level, LogView};
use crate::paths::{holds_path, path_views, shown, within, HostPath};
use crate::recipe::{items_of, listed_or, listed_texts, ExtensionsConfig, TortiaManifest};
use crate::text::{lemma_error_stays, optional_text, texts, trimmed, white_space};

verus! {

/// The moments at which extension scripts run.
#[derive(Debug, Clone, Copy, PartialEq, Eq, Structural)]
pub enum ExtensionEvent {
    BeforeDeps,
    AfterDeps,
    BeforeBuild,
    AfterBuild,
    BeforeRun,
    AfterRun,
}

/// The directories in which scripts are looked for, and the scripts of every moment.
#[derive(Debug)]
pub struct ExtensionPlan {
    pub dirs: Vec<RelPath>,
    pub before_deps: Vec<RelPath>,
    pub after_deps: Vec<RelPath>,
    pub before_build: Vec<RelPath>,
    pub after_build: Vec<RelPath>,
    pub before_run: Vec<RelPath>,
    pub after_run: Vec<RelPath>,
}

/// The directories in which scripts are looked for, and the scripts of every moment.
pub struct ExtensionView {
    pub dirs: Seq<Seq<Seq<char>>>,
    pub before_deps: Seq<Seq<Seq<char>>>,
    pub after_deps: Seq<Seq<Seq<char>>>,
    pub before_build: Seq<Seq<Seq<char>>>,
    pub after_build: Seq<Seq<Seq<char>>>,
    pub before_run: Seq<Seq<Seq<char>>>,
    pub after_run: Seq<Seq<Seq<char>>>,
}

impl View for ExtensionPlan {
    type V = ExtensionView;

    open spec fn view(&self) -> ExtensionView {
        ExtensionView {
            dirs: rel_views(self.dirs@),
            before_deps: rel_views(self.before_deps@),
            after_deps: rel_views(self.after_deps@),
            before_build: rel_views(self.before_build@),
            after_build: rel_views(self.after_build@),
            before_run: rel_views(self.before_run@),
            after_run: rel_views(self.after_run@),
        }
    }
}

/// Whether every path of a list lies below the project.
pub open spec fn all_below(list: Seq<Seq<Seq<char>>>) -> bool {
    forall|i: int| 0 <= i < list.len() ==> (#[trigger] list[i]).len() > 0 && proper(list[i])
}

impl ExtensionView {
    /// The scripts of a moment.
    pub open spec fn items(self, event: ExtensionEvent) -> Seq<Seq<Seq<char>>> {
        match event {
            ExtensionEvent::BeforeDeps => self.before_deps,
            ExtensionEvent::AfterDeps => self.after_deps,
            ExtensionEvent::BeforeBuild => self.before_build,
            ExtensionEvent::AfterBuild => self.after_build,
            ExtensionEvent::BeforeRun => self.before_run,
            ExtensionEvent::AfterRun => self.after_run,
        }
    }

    /// What every plan of a recipe or a manifest keeps to: every directory and every script lies below
    /// the project.
    pub open spec fn valid(self) -> bool {
        &&& all_below(self.dirs)
        &&& all_below(self.before_deps)
        &&& all_below(self.after_deps)
        &&& all_below(self.before_build)
        &&& all_below(self.after_build)
        &&& all_below(self.before_run)
        &&& all_below(self.after_run)
    }
}

/// The name of a moment.
pub open spec fn event_name(event: ExtensionEvent) -> Seq<char> {
    match event {
        ExtensionEvent::BeforeDeps => "before_deps"@,
        ExtensionEvent::AfterDeps => "after_deps"@,
        ExtensionEvent::BeforeBuild => "before_build"@,
        ExtensionEvent::AfterBuild => "after_build"@,
        ExtensionEvent::BeforeRun => "before_run"@,
        ExtensionEvent::AfterRun => "after_run"@,
    }
}

/// The scripts of a moment.
pub fn extension_event_items(plan: &ExtensionPlan, event: ExtensionEvent) -> (r: &Vec<RelPath>)
    ensures
        rel_views(r@) == plan@.items(event),
{
    match event {
        ExtensionEvent::BeforeDeps => &plan.before_deps,
        ExtensionEvent::AfterDeps => &plan.after_deps,
        ExtensionEvent::BeforeBuild => &plan.before_build,
        ExtensionEvent::AfterBuild => &plan.after_build,
        ExtensionEvent::BeforeRun => &plan.before_run,
        ExtensionEvent::AfterRun => &plan.after_run,
    }
}

/// The name of a moment.
pub fn extension_event_name(event: ExtensionEvent) -> (r: &'static str)
    ensures
        r@ == event_name(event),
{
    match event {
        ExtensionEvent::BeforeDeps => "before_deps",
        ExtensionEvent::AfterDeps => "after_deps",
        ExtensionEvent::BeforeBuild => "before_build",
        ExtensionEvent::AfterBuild => "after_build",
        ExtensionEvent::BeforeRun => "before_run",
        ExtensionEvent::AfterRun => "after_run",
    }
}

/// The paths that the list `label` names, or the error for the first that has one: no path may be
/// the project itself.
pub open spec fn extension_paths(values: Seq<Seq<char>>, label: Seq<char>) -> Result<
    Seq<Seq<Seq<char>>>,
    Seq<char>,
>
    decreases values.len(),
{
    if values.len() == 0 {
        Ok(Seq::empty())
    } else {
        match (extension_paths(values.drop_last(), label), bundle_path(values.last())) {
            (Err(e), _) => Err(e),
            (Ok(_), Err(e)) => Err(e),
            (Ok(before), Ok(path)) => if path.len() == 0 {
                Err(label + " cannot contain '.' or empty path"@)
            } else {
                Ok(before.push(path))
            },
        }
    }
}

/// Every path of a list of extensions lies below the project.
proof fn lemma_extension_paths_below(values: Seq<Seq<char>>, label: Seq<char>)
    ensures
        extension_paths(values, label) matches Ok(list) ==> all_below(list) && list.len() == values.len(),
    decreases values.len(),
{
    if values.len() > 0 {
        lemma_extension_paths_below(values.drop_last(), label);
        law_bundle_paths_stay_inside(values.last());
    }
}

/// The paths that the list `label` names.
pub fn parse_extension_paths(values: &Vec<String>, label: &str) -> (r: Result<Vec<RelPath>, String>)
    ensures
        match r {
            Ok(list) => extension_paths(texts(values@), label@) == Ok::<Seq<Seq<Seq<char>>>, Seq<char>>(
                rel_views(list@),
            ) && all_below(rel_views(list@)),
            Err(e) => extension_paths(texts(values@), label@) == Err::<Seq<Seq<Seq<char>>>, Seq<char>>(e@),
        },
{
    let ghost all = texts(values@);
    let mut list: Vec<RelPath> = Vec::new();
    let mut i: usize = 0;
    assert(all.take(0) =~= Seq::empty());
    assert(rel_views(list@) =~= Seq::empty());
    while i < values.len()
        invariant
            i <= values.len(),
            all == texts(values@),
            extension_paths(all.take(i as int), label@) == Ok::<Seq<Seq<Seq<char>>>, Seq<char>>(rel_views(list@)),
        decreases values.len() - i,
    {
        let ghost before = rel_views(list@);
        let ghost upto = all.take(i + 1);
        assert(upto.drop_last() =~= all.take(i as int));
        assert(upto.last() == values@[i as int]@);
        match parse_bundle_path(values[i].as_str()) {
            Ok(path) => {
                if path.is_root() {
                    proof {
                        lemma_error_stays(|s: Seq<Seq<char>>| extension_paths(s, label@), all, i + 1);
                    }
                    return Err(label.to_string().concat(" cannot contain '.' or empty path"));
                }
                list.push(path);
                assert(rel_views(list@) =~= before.push(path@));
            },
            Err(e) => {
                proof {
                    lemma_error_stays(|s: Seq<Seq<char>>| extension_paths(s, label@), all, i + 1);
                }
                return Err(e);
            },
        }
        i = i + 1;
    }
    assert(all.take(i as int) =~= all);
    proof {
        lemma_extension_paths_below(all, label@);
    }
    Ok(list)
}

/// The directories in which scripts are looked for where a recipe names none.
pub open spec fn default_dirs() -> Seq<Seq<char>> {
    seq![".tortia/extensions"@, "extensions"@]
}

/// The first error of seven lists, or the plan that they make.
pub open spec fn plan_of(
    dirs: Result<Seq<Seq<Seq<char>>>, Seq<char>>,
    before_deps: Result<Seq<Seq<Seq<char>>>, Seq<char>>,
    after_deps: Result<Seq<Seq<Seq<char>>>, Seq<char>>,
    before_build: Result<Seq<Seq<Seq<char>>>, Seq<char>>,
    after_build: Result<Seq<Seq<Seq<char>>>, Seq<char>>,
    before_run: Result<Seq<Seq<Seq<char>>>, Seq<char>>,
    after_run: Result<Seq<Seq<Seq<char>>>, Seq<char>>,
) -> Result<ExtensionView, Seq<char>> {
    if dirs is Err {
        Err(dirs->Err_0)
    } else if before_deps is Err {
        Err(before_deps->Err_0)
    } else if after_deps is Err {
        Err(after_deps->Err_0)
    } else if before_build is Err {
        Err(before_build->Err_0)
    } else if after_build is Err {
        Err(after_build->Err_0)
    } else if before_run is Err {
        Err(before_run->Err_0)
    } else if after_run is Err {
        Err(after_run->Err_0)
    } else {
        Ok(
            ExtensionView {
                dirs: dirs->Ok_0,
                before_deps: before_deps->Ok_0,
                after_deps: after_deps->Ok_0,
                before_build: before_build->Ok_0,
                after_build: after_build->Ok_0,
                before_run: before_run->Ok_0,
                after_run: after_run->Ok_0,
            },
        )
    }
}

/// The plan of `[extensions]`.
pub open spec fn recipe_plan(extensions: Option<&ExtensionsConfig>) -> Result<ExtensionView, Seq<char>> {
    match extensions {
        Some(config) => plan_of(
            extension_paths(listed_or(config.dirs, default_dirs()), "extensions.dirs"@),
            extension_paths(listed_texts(config.before_deps), "extensions.before_deps"@),
            extension_paths(listed_texts(config.after_deps), "extensions.after_deps"@),
            extension_paths(listed_texts(config.before_build), "extensions.before_build"@),
            extension_paths(listed_texts(config.after_build), "extensions.after_build"@),
            extension_paths(listed_texts(config.before_run), "extensions.before_run"@),
            extension_paths(listed_texts(config.after_run), "extensions.after_run"@),
        ),
        None => match extension_paths(default_dirs(), "extensions.dirs"@) {
            Err(e) => Err(e),
            Ok(dirs) => Ok(
                ExtensionView {
                    dirs,
                    before_deps: Seq::empty(),
                    after_deps: Seq::empty(),
                    before_build: Seq::empty(),
                    after_build: Seq::empty(),
                    before_run: Seq::empty(),
                    after_run: Seq::empty(),
                },
            ),
        },
    }
}

/// The plan of a manifest: it has scripts for the run only.
pub open spec fn manifest_plan(
    dirs: Seq<Seq<char>>,
    before_run: Seq<Seq<char>>,
    after_run: Seq<Seq<char>>,
) -> Result<ExtensionView, Seq<char>> {
    plan_of(
        extension_paths(dirs, "manifest.extension_dirs"@),
        Ok(Seq::empty()),
        Ok(Seq::empty()),
        Ok(Seq::empty()),
        Ok(Seq::empty()),
        extension_paths(before_run, "manifest.before_run_extensions"@),
        extension_paths(after_run, "manifest.after_run_extensions"@),
    )
}

/// The directories in which scripts are looked for where a recipe names none.
fn default_dir_texts() -> (r: Vec<String>)
    ensures
        texts(r@) == default_dirs(),
{
    let mut r: Vec<String> = Vec::new();
    r.push(".tortia/extensions".to_string());
    r.push("extensions".to_string());
    assert(texts(r@) =~= default_dirs());
    r
}

/// No paths.
fn no_paths() -> (r: Vec<RelPath>)
    ensures
        rel_views(r@) == Seq::<Seq<Seq<char>>>::empty(),
{
    let r: Vec<RelPath> = Vec::new();
    assert(rel_views(r@) =~= Seq::empty());
    r
}

/// The plan of `[extensions]`.
pub fn parse_extension_plan(extensions: Option<&ExtensionsConfig>) -> (r: Result<ExtensionPlan, String>)
    ensures
        match r {
            Ok(plan) => recipe_plan(extensions) == Ok::<ExtensionView, Seq<char>>(plan@) && plan@.valid(),
            Err(e) => recipe_plan(extensions) == Err::<ExtensionView, Seq<char>>(e@),
        },
{
    let config = match extensions {
        Some(config) => config,
        None => {
            return match parse_extension_paths(&default_dir_texts(), "extensions.dirs") {
                Err(e) => Err(e),
                Ok(dirs) => Ok(
                    ExtensionPlan {
                        dirs,
                        before_deps: no_paths(),
                        after_deps: no_paths(),
                        before_build: no_paths(),
                        after_build: no_paths(),
                        before_run: no_paths(),
                        after_run: no_paths(),
                    },
                ),
            };
        },
    };
    let dir_texts: Vec<String> = match &config.dirs {
        Some(list) => list.clone(),
        None => default_dir_texts(),
    };
    let dirs = match parse_extension_paths(&dir_texts, "extensions.dirs") {
        Ok(list) => list,
        Err(e) => {
            return Err(e);
        },
    };
    let before_deps = match parse_extension_paths(&items_of(&config.before_deps), "extensions.before_deps") {
        Ok(list) => list,
        Err(e) => {
            return Err(e);
        },
    };
    let after_deps = match parse_extension_paths(&items_of(&config.after_deps), "extensions.after_deps") {
        Ok(list) => list,
        Err(e) => {
            return Err(e);
        },
    };
    let before_build = match parse_extension_paths(&items_of(&config.before_build), "extensions.before_build") {
        Ok(list) => list,
        Err(e) => {
            return Err(e);
        },
    };
    let after_build = match parse_extension_paths(&items_of(&config.after_build), "extensions.after_build") {
        Ok(list) => list,
        Err(e) => {
            return Err(e);
        },
    };
    let before_run = match parse_extension_paths(&items_of(&config.before_run), "extensions.before_run") {
        Ok(list) => list,
        Err(e) => {
            return Err(e);
        },
    };
    let after_run = match parse_extension_paths(&items_of(&config.after_run), "extensions.after_run") {
        Ok(list) => list,
        Err(e) => {
            return Err(e);
        },
    };
    Ok(ExtensionPlan { dirs, before_deps, after_deps, before_build, after_build, before_run, after_run })
}

/// The plan of a manifest.
pub fn extension_plan_from_manifest(manifest: &TortiaManifest) -> (r: Result<ExtensionPlan, String>)
    ensures
        match r {
            Ok(plan) => manifest_plan(
                texts(manifest.extension_dirs@),
                texts(manifest.before_run_extensions@),
                texts(manifest.after_run_extensions@),
            ) == Ok::<ExtensionView, Seq<char>>(plan@) && plan@.valid(),
            Err(e) => manifest_plan(
                texts(manifest.extension_dirs@),
                texts(manifest.before_run_extensions@),
                texts(manifest.after_run_extensions@),
            ) == Err::<ExtensionView, Seq<char>>(e@),
        },
{
    let dirs = match parse_extension_paths(&manifest.extension_dirs, "manifest.extension_dirs") {
        Ok(list) => list,
        Err(e) => {
            return Err(e);
        },
    };
    let before_run = match parse_extension_paths(
        &manifest.before_run_extensions,
        "manifest.before_run_extensions",
    ) {
        Ok(list) => list,
        Err(e) => {
            return Err(e);
        },
    };
    let after_run = match parse_extension_paths(
        &manifest.after_run_extensions,
        "manifest.after_run_extensions",
    ) {
        Ok(list) => list,
        Err(e) => {
            return Err(e);
        },
    };
    Ok(
        ExtensionPlan {
            dirs,
            before_deps: no_paths(),
            after_deps: no_paths(),
            before_build: no_paths(),
            after_build: no_paths(),
            before_run,
            after_run,
        },
    )
}

/// The texts of a list of paths.
pub open spec fn path_texts(list: Seq<Seq<Seq<char>>>) -> Seq<Seq<char>> {
    list.map_values(|p: Seq<Seq<char>>| rel_text(p))
}

/// Whether no path of a list reads as `.` when it is written out.
pub open spec fn none_reads_as_dot(list: Seq<Seq<Seq<char>>>) -> bool {
    forall|i: int| 0 <= i < list.len() ==> !reads_as_dot(#[trigger] list[i])
}

/// A list of paths that is written out and read again is the same list.
proof fn lemma_paths_read_back(list: Seq<Seq<Seq<char>>>, label: Seq<char>)
    requires
        all_below(list),
        none_reads_as_dot(list),
    ensures
        extension_paths(path_texts(list), label) == Ok::<Seq<Seq<Seq<char>>>, Seq<char>>(list),
    decreases list.len(),
{
    let all = path_texts(list);
    if list.len() > 0 {
        let front = list.drop_last();
        assert forall|i: int| 0 <= i < front.len() implies proper(#[trigger] front[i]) && front[i].len() > 0
            && !reads_as_dot(front[i]) by {
            assert(list[i] == front[i]);
        }
        lemma_paths_read_back(front, label);
        assert(all.drop_last() =~= path_texts(front));
        assert(all.last() == rel_text(list.last()));
        law_path_text_reads_back(list.last());
        assert(front.push(list.last()) =~= list);
    } else {
        assert(list =~= Seq::empty());
    }
}

/// A run finds what the build left in the manifest: the directories and the scripts of the run are
/// those of the recipe. Paths whose only name is a dot between white space are left out: their text
/// stands for the project itself, which the manifest may not name.
pub proof fn law_manifest_keeps_the_run(plan: ExtensionView)
    requires
        plan.valid(),
        none_reads_as_dot(plan.dirs),
        none_reads_as_dot(plan.before_run),
        none_reads_as_dot(plan.after_run),
    ensures
        manifest_plan(path_texts(plan.dirs), path_texts(plan.before_run), path_texts(plan.after_run)) matches Ok(
            found,
        ) && {
            &&& found.dirs == plan.dirs
            &&& found.before_run == plan.before_run
            &&& found.after_run == plan.after_run
            &&& found.before_deps.len() == 0 && found.after_deps.len() == 0
            &&& found.before_build.len() == 0 && found.after_build.len() == 0
        },
{
    lemma_paths_read_back(plan.dirs, "manifest.extension_dirs"@);
    lemma_paths_read_back(plan.before_run, "manifest.before_run_extensions"@);
    lemma_paths_read_back(plan.after_run, "manifest.after_run_extensions"@);
}

/// Whether a name has an extension: a dot that is not its first scalar value.
pub open spec fn has_extension(name: Seq<char>) -> bool {
    exists|i: int| 0 < i < name.len() && name[i] == '.'
}

/// The files that a reference may mean in a directory, in the order in which they are tried.
pub open spec fn dir_candidates(root: Seq<u8>, dir: Seq<Seq<char>>, script: Seq<Seq<char>>) -> Seq<Seq<u8>> {
    let base = within(root, rel_text(dir));
    if has_extension(script.last()) {
        seq![within(base, rel_text(script))]
    } else {
        seq![within(base, rel_text(script)), within(base, rel_text(script) + ".sh"@)]
    }
}

/// The files that a reference may mean, in the order in which they are tried.
pub open spec fn candidates(root: Seq<u8>, dirs: Seq<Seq<Seq<char>>>, script: Seq<Seq<char>>) -> Seq<Seq<u8>>
    decreases dirs.len(),
{
    if dirs.len() == 0 {
        Seq::empty()
    } else {
        candidates(root, dirs.drop_last(), script) + dir_candidates(root, dirs.last(), script)
    }
}

/// The first path of `list` that `files` holds.
pub open spec fn first_present(list: Seq<Seq<u8>>, files: Seq<Seq<u8>>) -> Option<Seq<u8>>
    decreases list.len(),
{
    if list.len() == 0 {
        None
    } else if files.contains(list[0]) {
        Some(list[0])
    } else {
        first_present(list.skip(1), files)
    }
}

/// Directories are searched in order: what is found stands in the list, and nothing before it is
/// there; where nothing is found, nothing of the list is there.
pub proof fn law_first_present_is_first(list: Seq<Seq<u8>>, files: Seq<Seq<u8>>)
    ensures
        match first_present(list, files) {
            Some(found) => exists|k: int|
                0 <= k < list.len() && #[trigger] list[k] == found && files.contains(found) && (forall|j: int|
                    0 <= j < k ==> !files.contains(#[trigger] list[j])),
            None => forall|j: int| 0 <= j < list.len() ==> !files.contains(#[trigger] list[j]),
        },
    decreases list.len(),
{
    if list.len() > 0 && !files.contains(list[0]) {
        let rest = list.skip(1);
        law_first_present_is_first(rest, files);
        match first_present(rest, files) {
            Some(found) => {
                let k = choose|k: int|
                    0 <= k < rest.len() && #[trigger] rest[k] == found && files.contains(found) && (forall|j: int|
                        0 <= j < k ==> !files.contains(#[trigger] rest[j]));
                assert forall|j: int| 0 <= j < k + 1 implies !files.contains(#[trigger] list[j]) by {
                    if j > 0 {
                        assert(rest[j - 1] == list[j]);
                    }
                }
                assert(list[k + 1] == found);
            },
            None => {
                assert forall|j: int| 0 <= j < list.len() implies !files.contains(#[trigger] list[j]) by {
                    if j > 0 {
                        assert(rest[j - 1] == list[j]);
                    }
                }
            },
        }
    }
}

/// Whether a name has an extension.
fn name_has_extension(name: &str) -> (r: bool)
    ensures
        r == has_extension(name@),
{
    let n: usize = name.unicode_len();
    let mut i: usize = 1;
    while i < n
        invariant
            1 <= i,
            n == name@.len(),
            forall|j: int| 0 < j < i && j < n ==> name@[j] != '.',
        decreases n - i,
    {
        if name.get_char(i) == '.' {
            return true;
        }
        i = i + 1;
    }
    false
}

/// The files that a reference may mean, in the order in which they are tried.
pub fn extension_candidates(root: &HostPath, dirs: &Vec<RelPath>, script_ref: &RelPath) -> (r: Vec<HostPath>)
    requires
        script_ref@.len() > 0,
    ensures
        path_views(r@) == candidates(root@, rel_views(dirs@), script_ref@),
{
    let ghost views = rel_views(dirs@);
    let text = script_ref.text();
    let last: &String = &script_ref.parts[script_ref.parts.len() - 1];
    assert(script_ref@.last() == last@);
    let plain = !name_has_extension(last.as_str());
    let mut list: Vec<HostPath> = Vec::new();
    let mut i: usize = 0;
    assert(views.take(0) =~= Seq::empty());
    assert(path_views(list@) =~= Seq::empty());
    while i < dirs.len()
        invariant
            i <= dirs.len(),
            views == rel_views(dirs@),
            text@ == rel_text(script_ref@),
            plain == !has_extension(script_ref@.last()),
            path_views(list@) == candidates(root@, views.take(i as int), script_ref@),
        decreases dirs.len() - i,
    {
        let ghost before = path_views(list@);
        assert(views.take(i + 1).drop_last() =~= views.take(i as int));
        assert(views.take(i + 1).last() == dirs@[i as int]@);
        let base = root.join(dirs[i].text().as_str());
        let first = base.join(text.as_str());
        list.push(first);
        if plain {
            let second = base.join(text.clone().concat(".sh").as_str());
            list.push(second);
        }
        assert(path_views(list@) =~= before + dir_candidates(root@, dirs@[i as int]@, script_ref@));
        i = i + 1;
    }
    assert(views.take(i as int) =~= views);
    list
}

/// The script that a reference means: the first of its candidates among `files`, the candidates that
/// are files.
pub fn resolve_extension_script(
    root: &HostPath,
    dirs: &Vec<RelPath>,
    script_ref: &RelPath,
    files: &Vec<HostPath>,
) -> (r: Result<HostPath, String>)
    requires
        script_ref@.len() > 0,
    ensures
        match r {
            Ok(path) => first_present(
                candidates(root@, rel_views(dirs@), script_ref@),
                path_views(files@),
            ) == Some(path@),
            Err(e) => first_present(
                candidates(root@, rel_views(dirs@), script_ref@),
                path_views(files@),
            ) is None && e@ == "extension script '"@ + rel_text(script_ref@)
                + "' was not found in configured extension dirs"@,
        },
{
    let list: Vec<HostPath> = extension_candidates(root, dirs, script_ref);
    let ghost all = path_views(list@);
    let ghost there = path_views(files@);
    let mut i: usize = 0;
    assert(all.skip(0) =~= all);
    while i < list.len()
        invariant
            i <= list.len(),
            all == path_views(list@),
            all == candidates(root@, rel_views(dirs@), script_ref@),
            there == path_views(files@),
            first_present(all, there) == first_present(all.skip(i as int), there),
        decreases list.len() - i,
    {
        assert(all.skip(i as int)[0] == list@[i as int]@);
        if holds_path(files, &list[i]) {
            return Ok(list[i].copy());
        }
        assert(all.skip(i as int).skip(1) =~= all.skip(i + 1));
        i = i + 1;
    }
    Err(
        "extension script '".to_string().concat(script_ref.text().as_str()).concat(
            "' was not found in configured extension dirs",
        ),
    )
}

/// The steps that run a script at a moment.
pub open spec fn script_run_steps(
    search_root: Seq<u8>,
    working_dir: Seq<u8>,
    envs: Seq<(Seq<char>, Seq<char>)>,
    event: ExtensionEvent,
    script: Seq<u8>,
) -> Seq<StepView> {
    seq![
        StepView::Log(
            LogView {
                level: Level::Step,
                message: "[extension:"@ + event_name(event) + "] "@ + shown(script),
            },
        ),
        run_step(
            CommandView::named("sh"@).path(script).in_dir(working_dir).env(
                "TORTIA_EVENT"@,
                ArgView::Text(event_name(event)),
            ).env("TORTIA_PROJECT_ROOT"@, ArgView::Path(search_root)).env(
                "TORTIA_STAGE_ROOT"@,
                ArgView::Path(working_dir),
            ).env_all(envs),
            "extension '"@ + shown(script) + "' failed during event '"@ + event_name(event) + "'"@,
        ),
    ]
}

/// The scripts of a moment on their way.
pub struct ExtensionRun<'a> {
    pub search_root: HostPath,
    pub working_dir: HostPath,
    pub plan: &'a ExtensionPlan,
    pub event: ExtensionEvent,
    /// The index of the script at hand.
    pub next: usize,
    /// What went wrong with the script at hand.
    pub error: Option<String>,
}

/// The scripts of a moment on their way.
pub struct ExtensionRunView {
    pub search_root: Seq<u8>,
    pub working_dir: Seq<u8>,
    pub plan: ExtensionView,
    pub event: ExtensionEvent,
    pub next: int,
    pub error: Option<Seq<char>>,
}

/// What comes of a script: which of its candidates are files, and the error with which it ended.
pub struct ScriptResult {
    pub files: Seq<Seq<u8>>,
    pub ended: Option<Seq<char>>,
}

impl<'a> View for ExtensionRun<'a> {
    type V = ExtensionRunView;

    open spec fn view(&self) -> ExtensionRunView {
        ExtensionRunView {
            search_root: self.search_root@,
            working_dir: self.working_dir@,
            plan: self.plan@,
            event: self.event,
            next: self.next as int,
            error: optional_text(self.error),
        }
    }
}

impl ExtensionRunView {
    /// The scripts of a moment before the first.
    pub open spec fn start(
        search_root: Seq<u8>,
        working_dir: Seq<u8>,
        plan: ExtensionView,
        event: ExtensionEvent,
    ) -> ExtensionRunView {
        ExtensionRunView { search_root, working_dir, plan, event, next: 0, error: None }
    }

    /// Whether all scripts were run, or one has failed.
    pub open spec fn over(self) -> bool {
        self.error is Some || self.next >= self.plan.items(self.event).len()
    }

    /// The script at hand, as the plan names it.
    pub open spec fn item(self) -> Seq<Seq<char>> {
        self.plan.items(self.event)[self.next]
    }

    /// The files that the script at hand may be.
    pub open spec fn tried(self) -> Seq<Seq<u8>> {
        candidates(self.search_root, self.plan.dirs, self.item())
    }

    /// The file that the script at hand is, where `files` are those of its candidates that are files,
    /// or the error where there is none.
    pub open spec fn located(self, files: Seq<Seq<u8>>) -> Result<Seq<u8>, Seq<char>> {
        match first_present(self.tried(), files) {
            Some(script) => Ok(script),
            None => Err(
                "extension script '"@ + rel_text(self.item()) + "' was not found in configured extension dirs"@,
            ),
        }
    }

    /// What is done for the script at hand: the steps that run it, or the error where it is not found.
    pub open spec fn step(self, envs: Seq<(Seq<char>, Seq<char>)>, files: Seq<Seq<u8>>) -> Result<
        Seq<StepView>,
        Seq<char>,
    > {
        match self.located(files) {
            Ok(script) => Ok(
                script_run_steps(self.search_root, self.working_dir, envs, self.event, script),
            ),
            Err(e) => Err(e),
        }
    }

    /// The scripts when the one at hand has succeeded, or failed with an error.
    pub open spec fn ended(self, error: Option<Seq<char>>) -> ExtensionRunView {
        if self.over() {
            self
        } else if error is Some {
            ExtensionRunView { error, ..self }
        } else {
            ExtensionRunView { next: self.next + 1, ..self }
        }
    }

    /// The scripts after what came of the one at hand: one that is not found has failed.
    pub open spec fn after(self, result: ScriptResult) -> ExtensionRunView {
        match self.located(result.files) {
            Ok(_) => self.ended(result.ended),
            Err(e) => self.ended(Some(e)),
        }
    }

    /// The scripts after a number of results.
    pub open spec fn after_all(self, results: Seq<ScriptResult>) -> ExtensionRunView
        decreases results.len(),
    {
        if results.len() == 0 {
            self
        } else {
            self.after_all(results.drop_last()).after(results.last())
        }
    }

    /// Whether the script with the index `i` is found and succeeds.
    pub open spec fn succeeds(self, i: int, result: ScriptResult) -> bool {
        (ExtensionRunView { next: i, ..self }).located(result.files) is Ok && result.ended is None
    }

    /// Whether every script is found and succeeds.
    pub open spec fn all_succeed(self, results: Seq<ScriptResult>) -> bool {
        let n = self.plan.items(self.event).len();
        &&& results.len() >= n
        &&& forall|i: int| 0 <= i < n ==> self.succeeds(i, #[trigger] results[i])
    }
}

/// Starts the scripts of a moment: they are looked for below `search_root` and run in `working_dir`.
pub fn run_extensions<'a>(
    search_root: &HostPath,
    working_dir: &HostPath,
    plan: &'a ExtensionPlan,
    event: ExtensionEvent,
) -> (r: ExtensionRun<'a>)
    ensures
        r@ == ExtensionRunView::start(search_root@, working_dir@, plan@, event),
{
    ExtensionRun {
        search_root: search_root.copy(),
        working_dir: working_dir.copy(),
        plan,
        event,
        next: 0,
        error: None,
    }
}

impl<'a> ExtensionRun<'a> {
    /// Whether all scripts were run, or one has failed.
    pub fn over(&self) -> (r: bool)
        ensures
            r == self@.over(),
    {
        self.error.is_some() || self.next >= extension_event_items(self.plan, self.event).len()
    }

    /// The files that the script at hand may be, in the order in which they are tried.
    pub fn tried(&self) -> (r: Vec<HostPath>)
        requires
            self@.plan.valid(),
            !self@.over(),
        ensures
            path_views(r@) == self@.tried(),
    {
        let items = extension_event_items(self.plan, self.event);
        assert(self@.item() == items@[self.next as int]@);
        extension_candidates(&self.search_root, &self.plan.dirs, &items[self.next])
    }

    /// The steps that run the script at hand; `files` are those of its candidates that are files. Where
    /// it is not found there are none, and the scripts have failed.
    pub fn script(&mut self, envs: &Vec<(String, String)>, files: &Vec<HostPath>) -> (r: Option<Plan>)
        requires
            old(self)@.plan.valid(),
            !old(self)@.over(),
        ensures
            match old(self)@.step(env_texts(envs@), path_views(files@)) {
                Ok(steps) => r matches Some(plan) && plan@ == steps && final(self)@ == old(self)@,
                Err(error) => r is None && final(self)@ == old(self)@.ended(Some(error)),
            },
    {
        let plan = self.plan;
        let event = self.event;
        let items = extension_event_items(plan, event);
        let item = &items[self.next];
        assert(self@.item() == item@);
        let script = match resolve_extension_script(&self.search_root, &plan.dirs, item, files) {
            Ok(script) => script,
            Err(e) => {
                self.error = Some(e);
                return None;
            },
        };
        let name = extension_event_name(event);
        let mut steps = Plan::new();
        steps.log(
            log_step(
                "[extension:".to_string().concat(name).concat("] ").concat(script.display().as_str()).as_str(),
            ),
        );
        let command = CommandLine::named("sh").path(&script).in_dir(&self.working_dir).env(
            "TORTIA_EVENT",
            Arg::Text(name.to_string()),
        ).env("TORTIA_PROJECT_ROOT", Arg::Path(self.search_root.copy())).env(
            "TORTIA_STAGE_ROOT",
            Arg::Path(self.working_dir.copy()),
        ).env_all(envs);
        steps.run(
            command,
            "extension '".to_string().concat(script.display().as_str()).concat("' failed during event '").concat(
                name,
            ).concat("'").as_str(),
        );
        assert(steps@ =~= script_run_steps(
            self.search_root@,
            self.working_dir@,
            env_texts(envs@),
            event,
            script@,
        ));
        Some(steps)
    }

    /// Notes that the script at hand has succeeded, or failed with an error.
    pub fn ended(&mut self, error: Option<String>)
        ensures
            final(self)@ == old(self)@.ended(optional_text(error)),
    {
        if !self.over() {
            if error.is_some() {
                self.error = error;
            } else {
                let n: usize = extension_event_items(self.plan, self.event).len();
                assert(self.next < n);
                self.next = self.next + 1;
            }
        }
    }

    /// How the scripts ended, or stand.
    pub fn outcome(&self) -> (r: Result<(), String>)
        ensures
            match r {
                Ok(_) => self@.error is None,
                Err(e) => self@.error == Some(e@),
            },
    {
        match &self.error {
            Some(e) => Err(e.clone()),
            None => Ok(()),
        }
    }
}

/// A script is run only where it was found: with the first of the files that it may be, in the order
/// of the directories, and never where none of them is there.
pub proof fn law_scripts_are_found_in_order(
    run: ExtensionRunView,
    envs: Seq<(Seq<char>, Seq<char>)>,
    files: Seq<Seq<u8>>,
)
    ensures
        run.step(envs, files) is Ok <==> exists|k: int|
            0 <= k < run.tried().len() && files.contains(#[trigger] run.tried()[k]),
        run.step(envs, files) matches Ok(steps) ==> exists|k: int|
            0 <= k < run.tried().len() && steps == script_run_steps(
                run.search_root,
                run.working_dir,
                envs,
                run.event,
                #[trigger] run.tried()[k],
            ) && forall|j: int| 0 <= j < k ==> !files.contains(#[trigger] run.tried()[j]),
{
    law_first_present_is_first(run.tried(), files);
}

/// A script that fails or is not found is the last: none that comes after it is begun.
pub proof fn law_scripts_stop_at_a_failure(run: ExtensionRunView, results: Seq<ScriptResult>)
    requires
        run.error is Some,
    ensures
        run.over(),
        run.after_all(results) == run,
    decreases results.len(),
{
    if results.len() > 0 {
        law_scripts_stop_at_a_failure(run, results.drop_last());
    }
}

/// Scripts are begun one at a time in the order of the plan, each only when all before it were found
/// and have succeeded; the error is that of the first that was not found or has failed.
pub proof fn law_scripts_run_in_order(start: ExtensionRunView, results: Seq<ScriptResult>)
    requires
        start.next == 0,
        start.error is None,
    ensures
        ({
            let run = start.after_all(results);
            &&& run == (ExtensionRunView { next: run.next, error: run.error, ..start })
            &&& 0 <= run.next <= start.plan.items(start.event).len()
            &&& run.next <= results.len()
            &&& !run.over() ==> run.next == results.len()
            &&& forall|i: int| 0 <= i < run.next ==> start.succeeds(i, #[trigger] results[i])
            &&& run.error is Some ==> {
                &&& run.next < results.len()
                &&& run.next < start.plan.items(start.event).len()
                &&& run.error == match (ExtensionRunView { next: run.next, ..start }).located(results[run.next].files) {
                    Ok(_) => results[run.next].ended,
                    Err(e) => Some(e),
                }
            }
        }),
    decreases results.len(),
{
    if results.len() > 0 {
        let front = results.drop_last();
        law_scripts_run_in_order(start, front);
        let before = start.after_all(front);
        let run = start.after_all(results);
        assert(run == before.after(results.last()));
        if !before.over() {
            let at = ExtensionRunView { next: before.next, ..start };
            assert(at == before);
        }
        assert forall|i: int| 0 <= i < run.next implies start.succeeds(i, #[trigger] results[i]) by {
            if i < before.next {
                assert(front[i] == results[i]);
            }
        }
        if before.error is Some {
            assert(front[before.next] == results[before.next]);
        }
    }
}

/// The scripts of a moment succeed if and only if each of them is found and succeeds; without scripts
/// nothing is begun.
pub proof fn law_scripts_succeed_together(start: ExtensionRunView, results: Seq<ScriptResult>)
    requires
        start.next == 0,
        start.error is None,
        start.after_all(results).over(),
    ensures
        start.after_all(results).error is None <==> start.all_succeed(results),
        start.plan.items(start.event).len() == 0 ==> start.over() && start.after_all(results) == start,
{
    law_scripts_run_in_order(start, results);
    let run = start.after_all(results);
    if run.error is Some {
        assert(!start.succeeds(run.next, results[run.next]));
    }
}

/// Whether a list of scripts is what a list of a recipe names: one path for each text, in their order.
pub open spec fn reads(list: Seq<Seq<Seq<char>>>, values: Option<Vec<String>>) -> bool {
    match values {
        Some(values) => list.len() == values@.len() && forall|i: int|
            0 <= i < list.len() ==> bundle_path((#[trigger] values@[i])@) == Ok::<Seq<Seq<char>>, Seq<char>>(list[i]),
        None => list.len() == 0,
    }
}

/// Whether every text of a list of a recipe names a path below the project.
pub open spec fn readable(values: Option<Vec<String>>) -> bool {
    values matches Some(values) ==> forall|i: int|
        0 <= i < values@.len() ==> bundle_path((#[trigger] values@[i])@) is Ok && bundle_path(
            values@[i]@,
        )->Ok_0.len() > 0
}

/// A list of extensions is read text by text.
proof fn lemma_extension_paths_one_by_one(values: Seq<Seq<char>>, label: Seq<char>)
    ensures
        extension_paths(values, label) is Ok <==> forall|i: int|
            0 <= i < values.len() ==> bundle_path(#[trigger] values[i]) is Ok && bundle_path(values[i])->Ok_0.len()
                > 0,
        extension_paths(values, label) matches Ok(list) ==> list.len() == values.len() && forall|i: int|
            0 <= i < values.len() ==> bundle_path(#[trigger] values[i]) == Ok::<Seq<Seq<char>>, Seq<char>>(list[i]),
    decreases values.len(),
{
    if values.len() > 0 {
        let front = values.drop_last();
        lemma_extension_paths_one_by_one(front, label);
        assert forall|i: int| 0 <= i < front.len() implies #[trigger] front[i] == values[i] by {}
        if extension_paths(values, label) is Ok {
            let list = extension_paths(values, label)->Ok_0;
            assert forall|i: int| 0 <= i < values.len() implies bundle_path(#[trigger] values[i]) == Ok::<
                Seq<Seq<char>>,
                Seq<char>,
            >(list[i]) && list[i].len() > 0 by {
                if i < front.len() {
                    assert(front[i] == values[i]);
                }
            }
        } else if extension_paths(front, label) is Err {
            let k = choose|k: int|
                0 <= k < front.len() && !(bundle_path(#[trigger] front[k]) is Ok && bundle_path(
                    front[k],
                )->Ok_0.len() > 0);
            assert(front[k] == values[k]);
        } else {
            assert(values[values.len() - 1] == values.last());
        }
    }
}

/// A list of a recipe is read text by text.
proof fn lemma_list_is_read(values: Option<Vec<String>>, label: Seq<char>)
    ensures
        extension_paths(listed_texts(values), label) is Ok <==> readable(values),
        extension_paths(listed_texts(values), label) matches Ok(list) ==> reads(list, values),
{
    let all = listed_texts(values);
    lemma_extension_paths_one_by_one(all, label);
    if let Some(v) = values {
        assert forall|i: int| 0 <= i < v@.len() implies #[trigger] all[i] == v@[i]@ by {}
        if extension_paths(all, label) is Ok {
            let list = extension_paths(all, label)->Ok_0;
            assert forall|i: int| 0 <= i < list.len() implies bundle_path((#[trigger] v@[i])@) == Ok::<
                Seq<Seq<char>>,
                Seq<char>,
            >(list[i]) by {
                assert(all[i] == v@[i]@);
            }
            assert(readable(values)) by {
                assert forall|i: int| 0 <= i < v@.len() implies bundle_path((#[trigger] v@[i])@) is Ok && bundle_path(
                    v@[i]@,
                )->Ok_0.len() > 0 by {
                    assert(all[i] == v@[i]@);
                }
            }
        } else {
            let k = choose|k: int|
                0 <= k < all.len() && !(bundle_path(#[trigger] all[k]) is Ok && bundle_path(all[k])->Ok_0.len() > 0);
            assert(all[k] == v@[k]@);
            assert(!readable(values));
        }
    }
}

/// At every moment the scripts run that the list of the same name in `[extensions]` names, in its order:
/// before the dependencies those of `before_deps`, after them those of `after_deps`, and so on; the
/// recipe is accepted if and only if every text of its lists names a path below the project. Where there
/// are no `dirs`, scripts are looked for in `.tortia/extensions` and then in `extensions`.
pub proof fn law_scripts_run_at_the_moment_of_their_list(config: ExtensionsConfig)
    ensures
        recipe_plan(Some(&config)) is Ok <==> readable(config.dirs) && readable(config.before_deps) && readable(
            config.after_deps,
        ) && readable(config.before_build) && readable(config.after_build) && readable(config.before_run) && readable(
            config.after_run,
        ),
        recipe_plan(Some(&config)) matches Ok(plan) ==> {
            &&& reads(plan.items(ExtensionEvent::BeforeDeps), config.before_deps)
            &&& reads(plan.items(ExtensionEvent::AfterDeps), config.after_deps)
            &&& reads(plan.items(ExtensionEvent::BeforeBuild), config.before_build)
            &&& reads(plan.items(ExtensionEvent::AfterBuild), config.after_build)
            &&& reads(plan.items(ExtensionEvent::BeforeRun), config.before_run)
            &&& reads(plan.items(ExtensionEvent::AfterRun), config.after_run)
            &&& reads(plan.before_deps, config.before_deps)
            &&& reads(plan.after_deps, config.after_deps)
            &&& reads(plan.before_build, config.before_build)
            &&& reads(plan.after_build, config.after_build)
            &&& reads(plan.before_run, config.before_run)
            &&& reads(plan.after_run, config.after_run)
            &&& config.dirs is Some ==> reads(plan.dirs, config.dirs)
            &&& config.dirs is None ==> plan.dirs == seq![seq![".tortia"@, "extensions"@], seq!["extensions"@]]
        },
{
    lemma_list_is_read(config.dirs, "extensions.dirs"@);
    lemma_list_is_read(config.before_deps, "extensions.before_deps"@);
    lemma_list_is_read(config.after_deps, "extensions.after_deps"@);
    lemma_list_is_read(config.before_build, "extensions.before_build"@);
    lemma_list_is_read(config.after_build, "extensions.after_build"@);
    lemma_list_is_read(config.before_run, "extensions.before_run"@);
    lemma_list_is_read(config.after_run, "extensions.after_run"@);
    lemma_default_dirs("extensions.dirs"@);
}

/// Without `[extensions]` no script runs at any moment, and scripts would be looked for in
/// `.tortia/extensions` and then in `extensions`.
pub proof fn law_no_extensions_no_scripts(event: ExtensionEvent)
    ensures
        recipe_plan(None) matches Ok(plan) && plan.items(event).len() == 0 && plan.dirs == seq![
            seq![".tortia"@, "extensions"@],
            seq!["extensions"@],
        ],
{
    lemma_default_dirs("extensions.dirs"@);
}

/// The directories in which scripts are looked for where a recipe names none.
proof fn lemma_default_dirs(label: Seq<char>)
    ensures
        extension_paths(default_dirs(), label) == Ok::<Seq<Seq<Seq<char>>>, Seq<char>>(
            seq![seq![".tortia"@, "extensions"@], seq!["extensions"@]],
        ),
{
    reveal_strlit(".tortia/extensions");
    reveal_strlit(".tortia");
    reveal_strlit("extensions");
    reveal_strlit("/");
    reveal_strlit(".");
    reveal_strlit("..");
    let first = seq![".tortia"@, "extensions"@];
    let second = seq!["extensions"@];
    assert(proper_name(".tortia"@)) by {
        assert(".tortia"@[1] == 't');
        assert(".tortia"@.len() == 7);
    }
    assert(proper_name("extensions"@));
    assert(proper(first) && proper(second));
    assert(first.drop_last() =~= seq![".tortia"@]);
    assert(rel_text(first.drop_last()) == ".tortia"@);
    assert(rel_text(first) == ".tortia"@ + "/"@ + "extensions"@);
    assert(rel_text(first) =~= ".tortia/extensions"@);
    assert(rel_text(second) =~= "extensions"@);
    assert(!white_space('e') && !white_space('s'));
    assert(trimmed("extensions"@) == "extensions"@);
    law_path_text_reads_back(first);
    law_path_text_reads_back(second);
    let all = default_dirs();
    assert(all.drop_last() =~= seq![".tortia/extensions"@]);
    assert(all.drop_last().drop_last() =~= Seq::empty());
    assert(extension_paths(all.drop_last().drop_last(), label)->Ok_0 =~= Seq::empty());
    assert(extension_paths(all.drop_last(), label)->Ok_0 =~= seq![first]);
    assert(extension_paths(all, label)->Ok_0 =~= seq![first, second]);
}

/// The scripts of a run are those that the manifest names for the same moment; it has no others.
pub proof fn law_manifest_scripts_run_at_their_moment(
    dirs: Seq<Seq<char>>,
    before_run: Seq<Seq<char>>,
    after_run: Seq<Seq<char>>,
)
    requires
        manifest_plan(dirs, before_run, after_run) is Ok,
    ensures
        ({
            let plan = manifest_plan(dirs, before_run, after_run)->Ok_0;
            let first = plan.items(ExtensionEvent::BeforeRun);
            let last = plan.items(ExtensionEvent::AfterRun);
            &&& first.len() == before_run.len() && last.len() == after_run.len() && plan.dirs.len() == dirs.len()
            &&& forall|i: int|
                0 <= i < first.len() ==> bundle_path(#[trigger] before_run[i]) == Ok::<Seq<Seq<char>>, Seq<char>>(
                    first[i],
                )
            &&& forall|i: int|
                0 <= i < last.len() ==> bundle_path(#[trigger] after_run[i]) == Ok::<Seq<Seq<char>>, Seq<char>>(
                    last[i],
                )
            &&& forall|i: int|
                0 <= i < dirs.len() ==> bundle_path(#[trigger] dirs[i]) == Ok::<Seq<Seq<char>>, Seq<char>>(
                    plan.dirs[i],
                )
            &&& plan.items(ExtensionEvent::BeforeDeps).len() == 0 && plan.items(ExtensionEvent::AfterDeps).len() == 0
            &&& plan.items(ExtensionEvent::BeforeBuild).len() == 0
            &&& plan.items(ExtensionEvent::AfterBuild).len() == 0
        }),
{
    lemma_extension_paths_one_by_one(dirs, "manifest.extension_dirs"@);
    lemma_extension_paths_one_by_one(before_run, "manifest.before_run_extensions"@);
    lemma_extension_paths_one_by_one(after_run, "manifest.after_run_extensions"@);
}

/// A script is run by `sh` in the working directory and gets no argument. It is told its moment, the
/// directory in which it was looked for and the working directory, and has the isolated environment.
pub proof fn law_scripts_know_their_moment(
    search_root: Seq<u8>,
    working_dir: Seq<u8>,
    envs: Seq<(Seq<char>, Seq<char>)>,
    event: ExtensionEvent,
    script: Seq<u8>,
)
    ensures
        ({
            let steps = script_run_steps(search_root, working_dir, envs, event, script);
            let command = steps[1]->Run_command;
            let moment = match event {
                ExtensionEvent::BeforeDeps => "before_deps"@,
                ExtensionEvent::AfterDeps => "after_deps"@,
                ExtensionEvent::BeforeBuild => "before_build"@,
                ExtensionEvent::AfterBuild => "after_build"@,
                ExtensionEvent::BeforeRun => "before_run"@,
                ExtensionEvent::AfterRun => "after_run"@,
            };
            &&& steps.len() == 2 && steps[0] is Log && steps[1] is Run
            &&& command.program == ArgView::Text("sh"@)
            &&& command.args == seq![ArgView::Path(script)]
            &&& command.dir == Some(working_dir)
            &&& command.envs.len() == 3 + envs.len()
            &&& command.envs[0] == ("TORTIA_EVENT"@, ArgView::Text(moment))
            &&& command.envs[1] == ("TORTIA_PROJECT_ROOT"@, ArgView::Path(search_root))
            &&& command.envs[2] == ("TORTIA_STAGE_ROOT"@, ArgView::Path(working_dir))
            &&& forall|i: int|
                0 <= i < envs.len() ==> command.envs[3 + i] == ((#[trigger] envs[i]).0, ArgView::Text(envs[i].1))
            &&& steps[1]->Run_failure == "extension '"@ + shown(script) + "' failed during event '"@ + moment + "'"@
        }),
{
    let command = script_run_steps(search_root, working_dir, envs, event, script)[1]->Run_command;
    assert(command.args =~= seq![ArgView::Path(script)]);
}

/// Where a script is looked for: in every directory of the plan, in their order, under its own name and,
/// unless the name has an extension, then with `.sh` added.
pub proof fn law_scripts_are_looked_for_in_every_directory(
    root: Seq<u8>,
    dirs: Seq<Seq<Seq<char>>>,
    script: Seq<Seq<char>>,
)
    requires
        script.len() > 0,
    ensures
        ({
            let list = candidates(root, dirs, script);
            let named = exists|i: int| 0 < i < script.last().len() && script.last()[i] == '.';
            &&& named ==> list.len() == dirs.len() && forall|i: int|
                0 <= i < dirs.len() ==> list[i] == within(
                    within(root, rel_text(#[trigger] dirs[i])),
                    rel_text(script),
                )
            &&& !named ==> list.len() == 2 * dirs.len() && forall|i: int|
                0 <= i < dirs.len() ==> list[2 * i] == within(
                    within(root, rel_text(#[trigger] dirs[i])),
                    rel_text(script),
                ) && list[2 * i + 1] == within(within(root, rel_text(dirs[i])), rel_text(script) + ".sh"@)
        }),
    decreases dirs.len(),
{
    if dirs.len() > 0 {
        let front = dirs.drop_last();
        law_scripts_are_looked_for_in_every_directory(root, front, script);
        let list = candidates(root, dirs, script);
        let before = candidates(root, front, script);
        assert forall|i: int| 0 <= i < front.len() implies #[trigger] dirs[i] == front[i] by {}
        assert forall|i: int| 0 <= i < before.len() implies list[i] == before[i] by {}
        assert(dirs[dirs.len() - 1] == dirs.last());
    }
}

/// Whether every text of a list names a path below the project.
pub open spec fn all_readable(values: Seq<Seq<char>>) -> bool {
    forall|i: int|
        0 <= i < values.len() ==> bundle_path(#[trigger] values[i]) is Ok && bundle_path(values[i])->Ok_0.len() > 0
}

/// A manifest's lists are accepted if and only if every text names a path below the archive.
pub proof fn law_manifest_lists_are_read(
    dirs: Seq<Seq<char>>,
    before_run: Seq<Seq<char>>,
    after_run: Seq<Seq<char>>,
)
    ensures
        manifest_plan(dirs, before_run, after_run) is Ok <==> all_readable(dirs) && all_readable(before_run)
            && all_readable(after_run),
{
    lemma_extension_paths_one_by_one(dirs, "manifest.extension_dirs"@);
    lemma_extension_paths_one_by_one(before_run, "manifest.before_run_extensions"@);
    lemma_extension_paths_one_by_one(after_run, "manifest.after_run_extensions"@);
}

/// The script at hand is the next one on the list of the moment, the first one first; it is looked for in
/// the directories of the plan below the search root, and run from where it is found.
pub proof fn law_scripts_are_taken_from_the_list_in_order(
    run: ExtensionRunView,
    envs: Seq<(Seq<char>, Seq<char>)>,
    files: Seq<Seq<u8>>,
)
    requires
        0 <= run.next,
    ensures
        ({
            let list = match run.event {
                ExtensionEvent::BeforeDeps => run.plan.before_deps,
                ExtensionEvent::AfterDeps => run.plan.after_deps,
                ExtensionEvent::BeforeBuild => run.plan.before_build,
                ExtensionEvent::AfterBuild => run.plan.after_build,
                ExtensionEvent::BeforeRun => run.plan.before_run,
                ExtensionEvent::AfterRun => run.plan.after_run,
            };
            &&& run.over() <==> run.error is Some || run.next >= list.len()
            &&& !run.over() ==> {
                &&& run.item() == list[run.next]
                &&& run.tried() == candidates(run.search_root, run.plan.dirs, list[run.next])
                &&& run.step(envs, files) matches Ok(steps) ==> files.contains(run.located(files)->Ok_0) && steps
                    == script_run_steps(
                    run.search_root,
                    run.working_dir,
                    envs,
                    run.event,
                    run.located(files)->Ok_0,
                )
                &&& run.step(envs, files) matches Err(e) ==> e == "extension script '"@ + rel_text(list[run.next])
                    + "' was not found in configured extension dirs"@
                &&& run.ended(None) == (ExtensionRunView { next: run.next + 1, ..run })
                &&& forall|e: Seq<char>|
                    #[trigger] run.ended(Some(e)) == (ExtensionRunView { error: Some(e), ..run })
            }
        }),
{
    if !run.over() {
        law_first_present_is_first(run.tried(), files);
    }
}

/// Of several errors in a list of extensions the first counts: that of the path itself, or that the path is
/// the project, which is named after the list.
pub proof fn law_first_error_of_a_list_counts(values: Seq<Seq<char>>, label: Seq<char>)
    requires
        extension_paths(values, label) is Err,
    ensures
        exists|k: int|
            0 <= k < values.len() && extension_paths(values.take(k), label) is Ok && (match bundle_path(
                #[trigger] values[k],
            ) {
                Err(e) => extension_paths(values, label) == Err::<Seq<Seq<Seq<char>>>, Seq<char>>(e),
                Ok(path) => path.len() == 0 && extension_paths(values, label) == Err::<
                    Seq<Seq<Seq<char>>>,
                    Seq<char>,
                >(label + " cannot contain '.' or empty path"@),
            }),
    decreases values.len(),
{
    let front = values.drop_last();
    if extension_paths(front, label) is Err {
        law_first_error_of_a_list_counts(front, label);
        let k = choose|k: int|
            0 <= k < front.len() && extension_paths(front.take(k), label) is Ok && (match bundle_path(
                #[trigger] front[k],
            ) {
                Err(e) => extension_paths(front, label) == Err::<Seq<Seq<Seq<char>>>, Seq<char>>(e),
                Ok(path) => path.len() == 0 && extension_paths(front, label) == Err::<
                    Seq<Seq<Seq<char>>>,
                    Seq<char>,
                >(label + " cannot contain '.' or empty path"@),
            });
        assert(front.take(k) =~= values.take(k));
        assert(values[k] == front[k]);
    } else {
        let k = values.len() - 1;
        assert(values.take(k) =~= front);
        assert(values[k] == values.last());
    }
}

/// Of several lists of `[extensions]` with errors the first counts, and it names itself: the directories,
/// then the moments in their order.
pub proof fn law_first_list_with_an_error_counts(config: ExtensionsConfig)
    ensures
        ({
            let plan = recipe_plan(Some(&config));
            let dirs = match config.dirs {
                Some(list) => extension_paths(texts(list@), "extensions.dirs"@),
                None => extension_paths(seq![".tortia/extensions"@, "extensions"@], "extensions.dirs"@),
            };
            let before_deps = extension_paths(listed_texts(config.before_deps), "extensions.before_deps"@);
            let after_deps = extension_paths(listed_texts(config.after_deps), "extensions.after_deps"@);
            let before_build = extension_paths(listed_texts(config.before_build), "extensions.before_build"@);
            let after_build = extension_paths(listed_texts(config.after_build), "extensions.after_build"@);
            let before_run = extension_paths(listed_texts(config.before_run), "extensions.before_run"@);
            let after_run = extension_paths(listed_texts(config.after_run), "extensions.after_run"@);
            match (dirs, before_deps, after_deps, before_build, after_build, before_run, after_run) {
                (Err(e), _, _, _, _, _, _) => plan == Err::<ExtensionView, Seq<char>>(e),
                (_, Err(e), _, _, _, _, _) => plan == Err::<ExtensionView, Seq<char>>(e),
                (_, _, Err(e), _, _, _, _) => plan == Err::<ExtensionView, Seq<char>>(e),
                (_, _, _, Err(e), _, _, _) => plan == Err::<ExtensionView, Seq<char>>(e),
                (_, _, _, _, Err(e), _, _) => plan == Err::<ExtensionView, Seq<char>>(e),
                (_, _, _, _, _, Err(e), _) => plan == Err::<ExtensionView, Seq<char>>(e),
                (_, _, _, _, _, _, Err(e)) => plan == Err::<ExtensionView, Seq<char>>(e),
                _ => plan is Ok,
            }
        }),
{
    assert(default_dirs() =~= seq![".tortia/extensions"@, "extensions"@]);
}

} // verus!
