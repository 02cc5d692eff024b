//! Archives: where they go, what their manifest says, and how a run finds it again.
use vstd::prelude::*;
use vstd::string::*;
use vstd::utf8::encode_utf8;
use crate::bundle::{rel_views, RelPath};
use crate::command::{
    run_step, step_line, success_line, ArgView, CommandLine, CommandView, Plan, Step, StepView,
};
use crate::extensions::{path_texts, ExtensionPlan, ExtensionView};
use crate::log::{log_step, log_success};
use crate::paths::{
    absolute, given_path, inside, joined, lemma_encode_ascii, lemma_encode_concat, lemma_joined_stays_below,
    lemma_named_concat, lemma_pieces_concat, lemma_same_from, lemma_stays_below, lemma_text_absolute,
    lemma_text_ends_with_slash, named, path_views, same_path, shown, stays_below, within, HostPath, DOT, MANIFEST_FILE,
    SLASH,
};
use crate::recipe::{ManifestView, TortiaManifest};
use crate::text::{lemma_position_is, pieces, texts};

verus! {

/// The archive of a project: where `output` says, taken from the project, or `<name>.tortia` in it.
pub open spec fn archive_path(root: Seq<u8>, output: Option<Seq<u8>>, name: Seq<char>) -> Seq<u8> {
    match output {
        Some(path) => joined(root, path),
        None => within(root, name + ".tortia"@),
    }
}

/// The archive of a project, with the plan that makes the directory for it.
pub fn resolve_archive_path(project_root: &HostPath, output: Option<&HostPath>, project_name: &str) -> (r: (
    HostPath,
    Plan,
))
    ensures
        r.0@ == archive_path(project_root@, given_path(output), project_name@),
        r.1@ == seq![StepView::CreateParentDirs(r.0@)],
{
    let path = match output {
        Some(path) => project_root.join_path(path),
        None => project_root.join(project_name.to_string().concat(".tortia").as_str()),
    };
    let mut plan = Plan::new();
    plan.push(Step::CreateParentDirs(path.copy()));
    assert(plan@ =~= seq![StepView::CreateParentDirs(path@)]);
    (path, plan)
}

/// An absolute output is the archive itself, wherever the project is.
pub proof fn law_absolute_output_is_kept(root: Seq<u8>, output: Seq<u8>, name: Seq<char>)
    requires
        absolute(output),
    ensures
        archive_path(root, Some(output), name) == output,
{
}

/// The steps that pack a payload; `present` tells whether there is an archive in its place.
pub open spec fn pack_steps(stage: Seq<u8>, archive: Seq<u8>, present: bool) -> Seq<StepView> {
    (if present { seq![StepView::RemoveFile(archive)] } else { Seq::empty() }) + seq![
        step_line("Creating archive "@ + shown(archive)),
        run_step(
            CommandView::named("7z"@).arg("a"@).arg("-t7z"@).path(archive).arg("."@).in_dir(stage),
            "7z failed while creating .tortia archive"@,
        ),
        success_line("Built "@ + shown(archive)),
    ]
}

/// The steps that pack a payload; `present` tells whether there is an archive in its place.
pub fn pack(stage_root: &HostPath, archive: &HostPath, present: bool) -> (r: Plan)
    ensures
        r@ == pack_steps(stage_root@, archive@, present),
{
    let mut plan = Plan::new();
    if present {
        plan.push(Step::RemoveFile(archive.copy()));
    }
    plan.log(log_step("Creating archive ".to_string().concat(archive.display().as_str()).as_str()));
    plan.run(
        CommandLine::named("7z").arg("a").arg("-t7z").path(archive).arg(".").in_dir(stage_root),
        "7z failed while creating .tortia archive",
    );
    plan.log(log_success("Built ".to_string().concat(archive.display().as_str()).as_str()));
    assert(plan@ =~= pack_steps(stage_root@, archive@, present));
    plan
}

/// The steps that unpack an archive into `root`.
pub open spec fn unpack_steps(archive: Seq<u8>, root: Seq<u8>) -> Seq<StepView> {
    seq![
        step_line("Extracting "@ + shown(archive)),
        run_step(
            CommandView::named("7z"@).arg("x"@).path(archive).arg("-o"@ + shown(root)).arg("-y"@),
            "7z failed while extracting .tortia archive"@,
        ),
        StepView::Require {
            path: within(root, MANIFEST_FILE@),
            failure: "Invalid .tortia file: missing "@ + MANIFEST_FILE@,
        },
    ]
}

/// The steps that unpack an archive into `root`.
pub fn unpack(archive: &HostPath, root: &HostPath) -> (r: Plan)
    ensures
        r@ == unpack_steps(archive@, root@),
{
    let mut plan = Plan::new();
    plan.log(log_step("Extracting ".to_string().concat(archive.display().as_str()).as_str()));
    plan.run(
        CommandLine::named("7z").arg("x").path(archive).arg(
            "-o".to_string().concat(root.display().as_str()).as_str(),
        ).arg("-y"),
        "7z failed while extracting .tortia archive",
    );
    plan.require(
        &root.join(MANIFEST_FILE),
        "Invalid .tortia file: missing ".to_string().concat(MANIFEST_FILE).as_str(),
    );
    assert(plan@ =~= unpack_steps(archive@, root@));
    plan
}

/// The relative path `rel` taken from the directory `base`, as text.
pub open spec fn text_joined(base: Seq<char>, rel: Seq<char>) -> Seq<char> {
    if base.len() == 0 || base.last() == '/' {
        base + rel
    } else {
        base + "/"@ + rel
    }
}

/// A relative path without the separators and the `.` segments at its start.
pub open spec fn undotted(path: Seq<char>) -> Seq<char>
    decreases path.len(),
{
    if path.len() > 0 && path[0] == '/' {
        undotted(path.skip(1))
    } else if path.len() > 1 && path[0] == '.' && path[1] == '/' {
        undotted(path.skip(2))
    } else if path.len() == 1 && path[0] == '.' {
        Seq::empty()
    } else {
        path
    }
}

/// The directory `dir` of the tools directory `tools`, from the payload.
pub open spec fn tool_path(tools: Seq<char>, dir: Seq<char>) -> Seq<char> {
    undotted(text_joined(tools, dir))
}

/// The directories of the tools directory `tools`, from the payload.
pub open spec fn tool_paths(tools: Seq<char>, dirs: Seq<Seq<char>>) -> Seq<Seq<char>> {
    dirs.map_values(|dir: Seq<char>| tool_path(tools, dir))
}

/// A relative path without the separators and the `.` segments at its start.
fn without_dots(path: &str) -> (r: String)
    ensures
        r@ == undotted(path@),
{
    let n: usize = path.unicode_len();
    let mut i: usize = 0;
    assert(path@.skip(0) =~= path@);
    while i < n
        invariant
            i <= n == path@.len(),
            undotted(path@.skip(i as int)) == undotted(path@),
        decreases n - i,
    {
        let c = path.get_char(i);
        let ghost rest = path@.skip(i as int);
        assert(rest[0] == c);
        if c == '/' {
            assert(rest.skip(1) =~= path@.skip(i + 1));
            i = i + 1;
        } else if c == '.' && i + 1 == n {
            return String::new();
        } else if c == '.' && path.get_char(i + 1) == '/' {
            assert(rest[1] == path@[i + 1]);
            assert(rest.skip(2) =~= path@.skip(i + 2));
            i = i + 2;
        } else {
            assert(rest.len() > 1 ==> rest[1] == path@[i + 1]);
            assert(undotted(rest) == rest);
            let r = path.substring_char(i, n);
            assert(r@ =~= rest);
            return r.to_string();
        }
    }
    assert(path@.skip(i as int) =~= Seq::empty());
    String::new()
}

/// The directory `dir` of the tools directory `tools`, from the payload.
pub fn tool_bin_path(tools: &str, dir: &str) -> (r: String)
    ensures
        r@ == tool_path(tools@, dir@),
{
    let n: usize = tools.unicode_len();
    let whole = if n == 0 || tools.get_char(n - 1) == '/' {
        tools.to_string().concat(dir)
    } else {
        tools.to_string().concat("/").concat(dir)
    };
    without_dots(whole.as_str())
}

/// The manifest of an archive: the directories `dirs` of the tools directory `tools` hold the
/// commands of the runtimes.
pub open spec fn manifest_of(
    name: Seq<char>,
    run_command: Seq<char>,
    built_at_unix: int,
    tools: Seq<char>,
    dirs: Seq<Seq<char>>,
    plan: ExtensionView,
) -> ManifestView {
    ManifestView {
        name,
        run_command,
        built_at_unix,
        tool_bin_paths: tool_paths(tools, dirs),
        extension_dirs: path_texts(plan.dirs),
        before_run_extensions: path_texts(plan.before_run),
        after_run_extensions: path_texts(plan.after_run),
    }
}

/// The manifest of an archive: the directories `dirs` of the tools directory `tools` hold the
/// commands of the runtimes.
pub fn manifest(
    name: String,
    run_command: String,
    built_at_unix: u64,
    tools: &str,
    dirs: &Vec<String>,
    plan: &ExtensionPlan,
) -> (r: TortiaManifest)
    ensures
        r.name@ == name@,
        r.run_command@ == run_command@,
        r.built_at_unix == built_at_unix,
        texts(r.tool_bin_paths@) == tool_paths(tools@, texts(dirs@)),
        texts(r.extension_dirs@) == path_texts(plan@.dirs),
        texts(r.before_run_extensions@) == path_texts(plan@.before_run),
        texts(r.after_run_extensions@) == path_texts(plan@.after_run),
        r@ == manifest_of(name@, run_command@, built_at_unix as int, tools@, texts(dirs@), plan@),
{
    let ghost all = tool_paths(tools@, texts(dirs@));
    let mut tool_bin_paths: Vec<String> = Vec::new();
    let mut i: usize = 0;
    assert(texts(tool_bin_paths@) =~= all.take(0));
    while i < dirs.len()
        invariant
            i <= dirs.len(),
            all == tool_paths(tools@, texts(dirs@)),
            texts(tool_bin_paths@) == all.take(i as int),
        decreases dirs.len() - i,
    {
        let ghost before = texts(tool_bin_paths@);
        let path = tool_bin_path(tools, dirs[i].as_str());
        tool_bin_paths.push(path);
        assert(all[i as int] == path@);
        assert(texts(tool_bin_paths@) =~= before.push(path@));
        i = i + 1;
        assert(texts(tool_bin_paths@) =~= all.take(i as int));
    }
    assert(all.take(i as int) =~= all);
    TortiaManifest {
        name,
        run_command,
        built_at_unix,
        tool_bin_paths,
        extension_dirs: written(&plan.dirs),
        before_run_extensions: written(&plan.before_run),
        after_run_extensions: written(&plan.after_run),
    }
}

/// The texts of a list of paths.
fn written(list: &Vec<RelPath>) -> (r: Vec<String>)
    ensures
        texts(r@) == path_texts(rel_views(list@)),
{
    let ghost all = path_texts(rel_views(list@));
    let mut r: Vec<String> = Vec::new();
    let mut i: usize = 0;
    assert(texts(r@) =~= all.take(0));
    while i < list.len()
        invariant
            i <= list.len(),
            all == path_texts(rel_views(list@)),
            texts(r@) == all.take(i as int),
        decreases list.len() - i,
    {
        let ghost before = texts(r@);
        let text = list[i].text();
        r.push(text);
        assert(all[i as int] == text@);
        assert(texts(r@) =~= before.push(text@));
        i = i + 1;
        assert(texts(r@) =~= all.take(i as int));
    }
    assert(all.take(i as int) =~= all);
    r
}

/// The directories of the commands that a manifest names, in the unpacked archive `root`.
pub open spec fn run_bins(root: Seq<u8>, paths: Seq<Seq<char>>) -> Seq<Seq<u8>> {
    paths.map_values(|path: Seq<char>| within(root, path))
}

/// The directories of the commands that a manifest names, in the unpacked archive `root`.
pub fn runtime_bin_paths(root: &HostPath, manifest: &TortiaManifest) -> (r: Vec<HostPath>)
    ensures
        path_views(r@) == run_bins(root@, texts(manifest.tool_bin_paths@)),
{
    let ghost all = run_bins(root@, texts(manifest.tool_bin_paths@));
    let mut r: Vec<HostPath> = Vec::new();
    let mut i: usize = 0;
    assert(path_views(r@) =~= all.take(0));
    while i < manifest.tool_bin_paths.len()
        invariant
            i <= manifest.tool_bin_paths.len(),
            all == run_bins(root@, texts(manifest.tool_bin_paths@)),
            path_views(r@) == all.take(i as int),
        decreases manifest.tool_bin_paths.len() - i,
    {
        let ghost before = path_views(r@);
        let path = root.join(manifest.tool_bin_paths[i].as_str());
        r.push(path);
        assert(all[i as int] == path@);
        assert(path_views(r@) =~= before.push(path@));
        i = i + 1;
        assert(path_views(r@) =~= all.take(i as int));
    }
    assert(all.take(i as int) =~= all);
    r
}

/// A path without the separators and dots at its start is relative.
proof fn lemma_undotted_is_relative(path: Seq<char>)
    ensures
        undotted(path).len() > 0 ==> undotted(path)[0] != '/',
    decreases path.len(),
{
    if path.len() > 0 && path[0] == '/' {
        lemma_undotted_is_relative(path.skip(1));
    } else if path.len() > 1 && path[0] == '.' && path[1] == '/' {
        lemma_undotted_is_relative(path.skip(2));
    }
}

/// The separators and dots at the start of a relative path stand for no component.
proof fn lemma_undotted_components(path: Seq<char>)
    ensures
        named(pieces(encode_utf8(path), SLASH)) == named(pieces(encode_utf8(undotted(path)), SLASH)),
    decreases path.len(),
{
    lemma_encode_ascii('/');
    lemma_encode_ascii('.');
    let nothing = Seq::<u8>::empty();
    let dot = seq![DOT];
    lemma_position_is(nothing, SLASH, 0);
    lemma_position_is(dot, SLASH, 1);
    assert(pieces(nothing, SLASH) =~= seq![nothing]);
    assert(pieces(dot, SLASH) =~= seq![dot]);
    assert(seq![nothing].drop_last() =~= Seq::empty());
    assert(seq![dot].drop_last() =~= Seq::empty());
    assert(named(Seq::<Seq<u8>>::empty()) =~= Seq::empty());
    assert(named(seq![nothing]) =~= Seq::empty());
    assert(named(seq![dot]) =~= Seq::empty());
    if path.len() > 0 && path[0] == '/' {
        let rest = path.skip(1);
        lemma_undotted_components(rest);
        assert(path =~= seq!['/'] + rest);
        lemma_encode_concat(seq!['/'], rest);
        assert(encode_utf8(path) =~= nothing + seq![SLASH] + encode_utf8(rest));
        lemma_pieces_concat(nothing, encode_utf8(rest), SLASH);
        lemma_named_concat(seq![nothing], pieces(encode_utf8(rest), SLASH));
        assert(named(pieces(encode_utf8(path), SLASH)) =~= named(pieces(encode_utf8(rest), SLASH)));
    } else if path.len() > 1 && path[0] == '.' && path[1] == '/' {
        let rest = path.skip(2);
        lemma_undotted_components(rest);
        assert(path =~= seq!['.'] + (seq!['/'] + rest));
        lemma_encode_concat(seq!['.'], seq!['/'] + rest);
        lemma_encode_concat(seq!['/'], rest);
        assert(encode_utf8(path) =~= dot + seq![SLASH] + encode_utf8(rest));
        lemma_pieces_concat(dot, encode_utf8(rest), SLASH);
        lemma_named_concat(seq![dot], pieces(encode_utf8(rest), SLASH));
        assert(named(pieces(encode_utf8(path), SLASH)) =~= named(pieces(encode_utf8(rest), SLASH)));
    } else if path.len() == 1 && path[0] == '.' {
        assert(path =~= seq!['.']);
        assert(encode_utf8(Seq::<char>::empty()) =~= nothing);
    }
}

/// Paths are joined as text as they are joined on the host.
proof fn lemma_text_joined(tools: Seq<char>, dir: Seq<char>)
    requires
        tools.len() > 0,
        dir.len() > 0 && dir[0] != '/',
    ensures
        encode_utf8(text_joined(tools, dir)) == joined(encode_utf8(tools), encode_utf8(dir)),
{
    lemma_text_absolute(dir);
    lemma_text_ends_with_slash(tools);
    reveal_strlit("/");
    assert("/"@ =~= seq!['/']);
    lemma_encode_ascii('/');
    lemma_encode_concat(tools, dir);
    lemma_encode_concat(tools, "/"@);
    lemma_encode_concat(tools + "/"@, dir);
    assert(encode_utf8(text_joined(tools, dir)) =~= joined(encode_utf8(tools), encode_utf8(dir)));
}

/// A run finds the commands of a runtime where the build put them: what the manifest says of a
/// directory of the tools leads to that directory in every place that the payload is unpacked to.
pub proof fn law_run_finds_the_tools(root: Seq<u8>, tools: Seq<char>, dir: Seq<char>)
    requires
        root.len() > 0,
        tools.len() > 0 && tools[0] != '/',
        dir.len() > 0 && dir[0] != '/',
    ensures
        same_path(within(root, tool_path(tools, dir)), within(within(root, tools), dir)),
{
    let whole = text_joined(tools, dir);
    let t = encode_utf8(tools);
    let d = encode_utf8(dir);
    lemma_text_absolute(tools);
    lemma_text_absolute(dir);
    lemma_text_joined(tools, dir);
    assert(joined(joined(root, t), d) =~= joined(root, joined(t, d)));
    let short = undotted(whole);
    lemma_undotted_is_relative(whole);
    lemma_undotted_components(whole);
    if short.len() > 0 {
        lemma_text_absolute(short);
    } else {
        assert(encode_utf8(short) =~= Seq::empty());
    }
    lemma_same_from(root, encode_utf8(short), encode_utf8(whole));
}

/// What the manifest says of a directory of the tools leads to no place outside the unpacked archive,
/// where neither the tools directory nor that directory leads up.
pub proof fn law_tools_stay_in_the_archive(root: Seq<u8>, tools: Seq<char>, dir: Seq<char>)
    requires
        stays_below(tools),
        stays_below(dir),
    ensures
        inside(root, within(root, tool_path(tools, dir))),
{
    let whole = text_joined(tools, dir);
    let short = undotted(whole);
    lemma_stays_below(tools);
    lemma_stays_below(dir);
    lemma_text_joined(tools, dir);
    lemma_joined_stays_below(encode_utf8(tools), encode_utf8(dir));
    lemma_undotted_components(whole);
    lemma_undotted_is_relative(whole);
    if short.len() > 0 {
        lemma_text_absolute(short);
    } else {
        assert(encode_utf8(short) =~= Seq::empty());
    }
}

/// A payload is packed whole, from its own directory, into the archive; an archive in its place is
/// removed first, and only then.
pub proof fn law_payloads_are_packed_whole(stage: Seq<u8>, archive: Seq<u8>, present: bool)
    ensures
        ({
            let steps = pack_steps(stage, archive, present);
            let n = if present { 1int } else { 0 };
            &&& steps.len() == n + 3
            &&& present ==> steps[0] == StepView::RemoveFile(archive)
            &&& steps[n] is Log && steps[n + 2] is Log
            &&& steps[n + 1] is Run
            &&& steps[n + 1]->Run_command.program == ArgView::Text("7z"@)
            &&& steps[n + 1]->Run_command.args == seq![
                ArgView::Text("a"@),
                ArgView::Text("-t7z"@),
                ArgView::Path(archive),
                ArgView::Text("."@),
            ]
            &&& steps[n + 1]->Run_command.dir == Some(stage)
        }),
{
    let steps = pack_steps(stage, archive, present);
    let n = if present { 1int } else { 0 };
    assert(steps[n + 1]->Run_command.args =~= seq![
        ArgView::Text("a"@),
        ArgView::Text("-t7z"@),
        ArgView::Path(archive),
        ArgView::Text("."@),
    ]);
}

/// An archive is unpacked whole into `root`, and it is an error where no manifest is there then.
pub proof fn law_archives_are_unpacked_whole(archive: Seq<u8>, root: Seq<u8>)
    ensures
        ({
            let steps = unpack_steps(archive, root);
            &&& steps.len() == 3 && steps[0] is Log && steps[1] is Run && steps[2] is Require
            &&& steps[1]->Run_command.program == ArgView::Text("7z"@)
            &&& steps[1]->Run_command.args == seq![
                ArgView::Text("x"@),
                ArgView::Path(archive),
                ArgView::Text("-o"@ + shown(root)),
                ArgView::Text("-y"@),
            ]
            &&& steps[2]->Require_path == within(root, ".tortia-manifest.toml"@)
        }),
{
    assert(unpack_steps(archive, root)[1]->Run_command.args =~= seq![
        ArgView::Text("x"@),
        ArgView::Path(archive),
        ArgView::Text("-o"@ + shown(root)),
        ArgView::Text("-y"@),
    ]);
}

/// The archive is where the command line says, from the project, and else it is the project's name with
/// `.tortia` in the project.
pub proof fn law_archives_are_where_they_are_asked_for(root: Seq<u8>, output: Seq<u8>, name: Seq<char>)
    ensures
        archive_path(root, None, name) == within(root, name + ".tortia"@),
        output.len() > 0 && output[0] == 0x2f ==> archive_path(root, Some(output), name) == output,
        output.len() > 0 && output[0] != 0x2f && root.len() > 0 && root.last() != 0x2f ==> archive_path(
            root,
            Some(output),
            name,
        ) == root + seq![0x2fu8] + output,
{
    if output.len() > 0 && output[0] != 0x2f && root.len() > 0 && root.last() != 0x2f {
        assert(root.push(SLASH) + output =~= root + seq![0x2fu8] + output);
    }
}

/// The manifest names one directory of commands for each that the build has, in their order, and a run
/// looks for each of them in the unpacked archive.
pub proof fn law_manifests_name_every_directory(
    root: Seq<u8>,
    tools: Seq<char>,
    dirs: Seq<Seq<char>>,
    i: int,
)
    requires
        0 <= i < dirs.len(),
    ensures
        tool_paths(tools, dirs).len() == dirs.len(),
        run_bins(root, tool_paths(tools, dirs)).len() == dirs.len(),
        run_bins(root, tool_paths(tools, dirs))[i] == within(root, tool_paths(tools, dirs)[i]),
        tool_paths(tools, dirs)[i] == tool_paths(tools, seq![dirs[i]])[0],
{
}

/// What the manifest names is the directory of commands below the tools directory, as text, where the name
/// of the tools directory begins with neither a slash nor a dot and does not end with a slash.
pub proof fn law_manifests_name_the_tools_directory(tools: Seq<char>, dir: Seq<char>)
    requires
        tools.len() > 0,
        tools[0] != '/',
        tools[0] == '.' ==> tools.len() > 1 && tools[1] != '/',
        tools.last() != '/',
    ensures
        tool_path(tools, dir) == tools + seq!['/'] + dir,
{
    reveal_strlit("/");
    assert("/"@ =~= seq!['/']);
}

} // verus!
