//! Installation of runtimes into the tools directory of a payload.
use vstd::prelude::*;
use vstd::string::*;
use crate::command::{
    info_line, run_step, run_then_remove, step_line, success_line, Arg, ArgView, CommandLine, CommandView, Download,
    Plan, Step, StepView,
};
use crate::isolation::{base_system_path, BASE_SYSTEM_PATH};
use crate::log::{log_info, log_step, log_success, Level, LogLine, LogView};
use crate::paths::{shown, within, HostPath};
use crate::text::{optional_text, same};

verus! {

/// The file of a download in the cache.
pub open spec fn cache_file(downloads: Seq<u8>, key: Seq<char>) -> Seq<u8> {
    within(downloads, key)
}

/// The steps of a download: from the cache where it is `cached`, else from the network, and then
/// into the cache.
pub open spec fn download_steps(
    url: Seq<char>,
    key: Seq<char>,
    destination: Seq<u8>,
    working_dir: Seq<u8>,
    downloads: Seq<u8>,
    cached: bool,
) -> Seq<StepView> {
    let file = cache_file(downloads, key);
    if cached {
        seq![
            StepView::CreateParentDirs(destination),
            StepView::Copy { from: file, to: destination },
            info_line("Using cached download "@ + shown(file)),
        ]
    } else {
        seq![
            StepView::CreateParentDirs(destination),
            info_line("Downloading "@ + url),
            run_step(
                CommandView::named("curl"@).arg("-fsSL"@).arg(url).arg("-o"@).path(destination).in_dir(working_dir),
                "failed to download "@ + url,
            ),
            StepView::CreateParentDirs(file),
            StepView::Store { from: destination, to: file },
        ]
    }
}

/// The file of a download in the cache; `downloads` is the directory of the downloads there.
pub fn cached_download(download: &Download, downloads: &HostPath) -> (r: HostPath)
    ensures
        r@ == cache_file(downloads@, download.cache_key@),
{
    downloads.join(download.cache_key.as_str())
}

/// The steps of a download; `cached` tells whether the cache has it.
pub fn download_with_cache(download: &Download, downloads: &HostPath, cached: bool) -> (r: Plan)
    ensures
        r@ == download_steps(
            download.url@,
            download.cache_key@,
            download.destination@,
            download.working_dir@,
            downloads@,
            cached,
        ),
{
    let file = cached_download(download, downloads);
    let url = download.url.as_str();
    let mut plan = Plan::new();
    plan.push(Step::CreateParentDirs(download.destination.copy()));
    if cached {
        let line = log_info("Using cached download ".to_string().concat(file.display().as_str()).as_str());
        plan.push(Step::Copy { from: file, to: download.destination.copy() });
        plan.log(line);
    } else {
        plan.log(log_info("Downloading ".to_string().concat(url).as_str()));
        plan.run(
            CommandLine::named("curl").arg("-fsSL").arg(url).arg("-o").path(&download.destination).in_dir(
                &download.working_dir,
            ),
            "failed to download ".to_string().concat(url).as_str(),
        );
        plan.push(Step::CreateParentDirs(file.copy()));
        plan.push(Step::Store { from: download.destination.copy(), to: file });
    }
    assert(plan@ =~= download_steps(
        download.url@,
        download.cache_key@,
        download.destination@,
        download.working_dir@,
        downloads@,
        cached,
    ));
    plan
}

/// What is in the cache is not fetched again: no command is run for it.
pub proof fn law_cached_download_runs_nothing(
    url: Seq<char>,
    key: Seq<char>,
    destination: Seq<u8>,
    working_dir: Seq<u8>,
    downloads: Seq<u8>,
)
    ensures
        forall|i: int|
            0 <= i < download_steps(url, key, destination, working_dir, downloads, true).len() ==> !((
            #[trigger] download_steps(url, key, destination, working_dir, downloads, true)[i]) is Run),
{
}

/// A download fills the cache for the next one: what it leaves there is what is copied the next time.
pub proof fn law_downloads_fill_the_cache(
    url: Seq<char>,
    key: Seq<char>,
    destination: Seq<u8>,
    working_dir: Seq<u8>,
    downloads: Seq<u8>,
)
    ensures
        ({
            let fresh = download_steps(url, key, destination, working_dir, downloads, false);
            let cached = download_steps(url, key, destination, working_dir, downloads, true);
            &&& fresh.last() is Store && cached[1] is Copy
            &&& fresh.last()->Store_from == destination && cached[1]->Copy_to == destination
            &&& fresh.last()->Store_to == cached[1]->Copy_from
        }),
{
}

/// The note on a download that could not be put into the cache.
pub fn store_note(path: &HostPath, error: &str) -> (r: LogLine)
    ensures
        r@ == (LogView {
            level: Level::Info,
            message: "Could not write download cache "@ + shown(path@) + " ("@ + error@ + ")"@,
        }),
{
    log_info(
        "Could not write download cache ".to_string().concat(path.display().as_str()).concat(" (").concat(
            error,
        ).concat(")").as_str(),
    )
}

/// Adds a download.
fn push_download(plan: &mut Plan, url: &str, key: &str, destination: &HostPath, working_dir: &HostPath)
    ensures
        final(plan)@ == old(plan)@.push(
            StepView::Download {
                url: url@,
                cache_key: key@,
                destination: destination@,
                working_dir: working_dir@,
            },
        ),
{
    plan.push(
        Step::Download(
            Download {
                url: url.to_string(),
                cache_key: key.to_string(),
                destination: destination.copy(),
                working_dir: working_dir.copy(),
            },
        ),
    );
}

/// The path with the directory `bin` before that of the host.
pub open spec fn path_with(bin: Seq<u8>) -> Seq<char> {
    shown(bin) + ":"@ + BASE_SYSTEM_PATH@
}

/// The path with the directory `bin` before that of the host.
fn path_variable(bin: &HostPath) -> (r: Arg)
    ensures
        r@ == ArgView::Text(path_with(bin@)),
{
    Arg::Text(bin.display().concat(":").concat(BASE_SYSTEM_PATH))
}

/// The path of the host that is kept.
fn base_variable() -> (r: Arg)
    ensures
        r@ == ArgView::Text(BASE_SYSTEM_PATH@),
{
    Arg::Text(base_system_path())
}

/// The names by which Node calls a system and a machine, or the error where it has none for it.
pub open spec fn node_platform(os: Seq<char>, arch: Seq<char>) -> Result<(Seq<char>, Seq<char>), Seq<char>> {
    if os != "macos"@ && os != "linux"@ {
        Err("node runtime install is not supported on OS: "@ + os)
    } else if arch != "x86_64"@ && arch != "aarch64"@ {
        Err("node runtime install is not supported on ARCH: "@ + arch)
    } else {
        Ok(
            (
                if os == "macos"@ { "darwin"@ } else { "linux"@ },
                if arch == "x86_64"@ { "x64"@ } else { "arm64"@ },
            ),
        )
    }
}

/// The name by which Miniconda calls a system and a machine, or the error where it has none for it.
pub open spec fn python_platform(os: Seq<char>, arch: Seq<char>) -> Result<Seq<char>, Seq<char>> {
    if os == "macos"@ && arch == "aarch64"@ {
        Ok("MacOSX-arm64"@)
    } else if os == "macos"@ && arch == "x86_64"@ {
        Ok("MacOSX-x86_64"@)
    } else if os == "linux"@ && arch == "aarch64"@ {
        Ok("Linux-aarch64"@)
    } else if os == "linux"@ && arch == "x86_64"@ {
        Ok("Linux-x86_64"@)
    } else {
        Err("python runtime install is not supported on "@ + os + "/"@ + arch)
    }
}

/// The names by which Go calls a system and a machine, or the error where it has none for it.
pub open spec fn go_platform(os: Seq<char>, arch: Seq<char>) -> Result<(Seq<char>, Seq<char>), Seq<char>> {
    if os == "macos"@ && arch == "aarch64"@ {
        Ok(("darwin"@, "arm64"@))
    } else if os == "macos"@ && arch == "x86_64"@ {
        Ok(("darwin"@, "amd64"@))
    } else if os == "linux"@ && arch == "aarch64"@ {
        Ok(("linux"@, "arm64"@))
    } else if os == "linux"@ && arch == "x86_64"@ {
        Ok(("linux"@, "amd64"@))
    } else {
        Err("go runtime install is not supported on "@ + os + "/"@ + arch)
    }
}

/// The names by which Node calls a system and a machine.
pub fn node_names(os: &str, arch: &str) -> (r: Result<(&'static str, &'static str), String>)
    ensures
        match r {
            Ok((o, a)) => node_platform(os@, arch@) == Ok::<(Seq<char>, Seq<char>), Seq<char>>((o@, a@)),
            Err(e) => node_platform(os@, arch@) == Err::<(Seq<char>, Seq<char>), Seq<char>>(e@),
        },
{
    let system = if same(os, "macos") {
        "darwin"
    } else if same(os, "linux") {
        "linux"
    } else {
        return Err("node runtime install is not supported on OS: ".to_string().concat(os));
    };
    let machine = if same(arch, "x86_64") {
        "x64"
    } else if same(arch, "aarch64") {
        "arm64"
    } else {
        return Err("node runtime install is not supported on ARCH: ".to_string().concat(arch));
    };
    Ok((system, machine))
}

/// The name by which Miniconda calls a system and a machine.
pub fn python_name(os: &str, arch: &str) -> (r: Result<&'static str, String>)
    ensures
        match r {
            Ok(p) => python_platform(os@, arch@) == Ok::<Seq<char>, Seq<char>>(p@),
            Err(e) => python_platform(os@, arch@) == Err::<Seq<char>, Seq<char>>(e@),
        },
{
    if same(os, "macos") && same(arch, "aarch64") {
        Ok("MacOSX-arm64")
    } else if same(os, "macos") && same(arch, "x86_64") {
        Ok("MacOSX-x86_64")
    } else if same(os, "linux") && same(arch, "aarch64") {
        Ok("Linux-aarch64")
    } else if same(os, "linux") && same(arch, "x86_64") {
        Ok("Linux-x86_64")
    } else {
        Err("python runtime install is not supported on ".to_string().concat(os).concat("/").concat(arch))
    }
}

/// The names by which Go calls a system and a machine.
pub fn go_names(os: &str, arch: &str) -> (r: Result<(&'static str, &'static str), String>)
    ensures
        match r {
            Ok((o, a)) => go_platform(os@, arch@) == Ok::<(Seq<char>, Seq<char>), Seq<char>>((o@, a@)),
            Err(e) => go_platform(os@, arch@) == Err::<(Seq<char>, Seq<char>), Seq<char>>(e@),
        },
{
    if same(os, "macos") && same(arch, "aarch64") {
        Ok(("darwin", "arm64"))
    } else if same(os, "macos") && same(arch, "x86_64") {
        Ok(("darwin", "amd64"))
    } else if same(os, "linux") && same(arch, "aarch64") {
        Ok(("linux", "arm64"))
    } else if same(os, "linux") && same(arch, "x86_64") {
        Ok(("linux", "amd64"))
    } else {
        Err("go runtime install is not supported on ".to_string().concat(os).concat("/").concat(arch))
    }
}

/// The directory of a version of Node among the tools.
pub open spec fn node_folder(version: Seq<char>, os: Seq<char>, arch: Seq<char>) -> Seq<char> {
    "node-v"@ + version + "-"@ + os + "-"@ + arch
}

/// The steps that install a version of Node, for a system and a machine as Node calls them; `present`
/// tells whether it is there.
pub open spec fn node_steps(
    tools: Seq<u8>,
    version: Seq<char>,
    os: Seq<char>,
    arch: Seq<char>,
    present: bool,
) -> Seq<StepView> {
    let folder = node_folder(version, os, arch);
    let bin = within(tools, folder + "/bin"@);
    let archive = folder + ".tar.xz"@;
    if present {
        seq![info_line("runtime node@"@ + version + " already installed"@)]
    } else {
        seq![
            step_line("Installing runtime node@"@ + version),
            StepView::Download {
                url: "https://nodejs.org/dist/v"@ + version + "/"@ + archive,
                cache_key: "node/"@ + archive,
                destination: within(tools, archive),
                working_dir: tools,
            },
            run_then_remove(
                CommandView::named("tar"@).arg("-xJf"@).path(within(tools, archive)).arg("-C"@).path(tools),
                within(tools, archive),
                "failed to extract downloaded node runtime"@,
            ),
            StepView::Require {
                path: within(bin, "node"@),
                failure: "node runtime install completed but node binary was not found"@,
            },
            success_line("Installed node@"@ + version),
        ]
    }
}

/// The directory of a version of Node among the tools.
pub fn node_folder_name(version: &str, os: &str, arch: &str) -> (r: String)
    ensures
        r@ == node_folder(version@, os@, arch@),
{
    "node-v".to_string().concat(version).concat("-").concat(os).concat("-").concat(arch)
}

/// The steps that install a version of Node; `present` tells whether it is there.
pub fn install_node_runtime(tools_root: &HostPath, version: &str, os: &str, arch: &str, present: bool) -> (r: Result<
    Plan,
    String,
>)
    ensures
        match node_platform(os@, arch@) {
            Ok((o, a)) => r matches Ok(plan) && plan@ == node_steps(tools_root@, version@, o, a, present),
            Err(error) => r matches Err(e) && e@ == error,
        },
{
    let (o, a) = match node_names(os, arch) {
        Ok(names) => names,
        Err(e) => {
            return Err(e);
        },
    };
    let folder = node_folder_name(version, o, a);
    let mut plan = Plan::new();
    if present {
        plan.log(log_info("runtime node@".to_string().concat(version).concat(" already installed").as_str()));
        assert(plan@ =~= node_steps(tools_root@, version@, o@, a@, present));
        return Ok(plan);
    }
    let bin = tools_root.join(folder.clone().concat("/bin").as_str());
    let archive = folder.concat(".tar.xz");
    let archive_path = tools_root.join(archive.as_str());
    plan.log(log_step("Installing runtime node@".to_string().concat(version).as_str()));
    push_download(
        &mut plan,
        "https://nodejs.org/dist/v".to_string().concat(version).concat("/").concat(archive.as_str()).as_str(),
        "node/".to_string().concat(archive.as_str()).as_str(),
        &archive_path,
        tools_root,
    );
    plan.run_then_remove(
        CommandLine::named("tar").arg("-xJf").path(&archive_path).arg("-C").path(tools_root),
        &archive_path,
        "failed to extract downloaded node runtime",
    );
    plan.require(&bin.join("node"), "node runtime install completed but node binary was not found");
    plan.log(log_success("Installed node@".to_string().concat(version).as_str()));
    assert(plan@ =~= node_steps(tools_root@, version@, o@, a@, present));
    Ok(plan)
}

/// A command with the variables that Rust's tools read.
pub open spec fn rust_env(command: CommandView, tools: Seq<u8>, path: Seq<char>) -> CommandView {
    command.in_dir(tools).env("CARGO_HOME"@, ArgView::Path(within(tools, "cargo"@))).env(
        "RUSTUP_HOME"@,
        ArgView::Path(within(tools, "rustup"@)),
    ).env("PATH"@, ArgView::Text(path))
}

/// The steps that install a toolchain of Rust; `present` tells whether `rustup` is there.
pub open spec fn rust_steps(tools: Seq<u8>, toolchain: Seq<char>, present: bool) -> Seq<StepView> {
    let bin = within(tools, "cargo/bin"@);
    let rustup = within(bin, "rustup"@);
    let script = within(tools, "rustup-init.sh"@);
    let homes = seq![
        StepView::CreateDirs(within(tools, "cargo"@)),
        StepView::CreateDirs(within(tools, "rustup"@)),
    ];
    let install = seq![
        step_line("Installing runtime rustup"@),
        StepView::Download {
            url: "https://sh.rustup.rs"@,
            cache_key: "scripts/rustup-init.sh"@,
            destination: script,
            working_dir: tools,
        },
        run_then_remove(
            rust_env(
                CommandView::named("sh"@).path(script).arg("-y"@).arg("--default-toolchain"@).arg(toolchain).arg(
                    "--profile"@,
                ).arg("minimal"@).arg("--no-modify-path"@),
                tools,
                BASE_SYSTEM_PATH@,
            ),
            script,
            "failed to install rustup for isolated runtime"@,
        ),
    ];
    let choose_toolchain = seq![
        step_line("Ensuring rust toolchain "@ + toolchain),
        run_step(
            rust_env(
                CommandView::of(ArgView::Path(rustup)).arg("toolchain"@).arg("install"@).arg(toolchain),
                tools,
                path_with(bin),
            ),
            "failed to install rust toolchain: "@ + toolchain,
        ),
        run_step(
            rust_env(
                CommandView::of(ArgView::Path(rustup)).arg("default"@).arg(toolchain),
                tools,
                path_with(bin),
            ),
            "failed to set rust default toolchain: "@ + toolchain,
        ),
        StepView::Require {
            path: within(bin, "rustc"@),
            failure: "rust runtime install completed but rustc binary was not found"@,
        },
        success_line("Installed rust@"@ + toolchain),
    ];
    if present {
        homes + choose_toolchain
    } else {
        homes + install + choose_toolchain
    }
}

/// A command with the variables that Rust's tools read.
fn with_rust_env(command: CommandLine, tools_root: &HostPath, path: Arg) -> (r: CommandLine)
    requires
        path@ is Text,
    ensures
        r@ == rust_env(command@, tools_root@, path@->Text_0),
{
    command.in_dir(tools_root).env("CARGO_HOME", Arg::Path(tools_root.join("cargo"))).env(
        "RUSTUP_HOME",
        Arg::Path(tools_root.join("rustup")),
    ).env("PATH", path)
}

/// The steps that install a toolchain of Rust; `present` tells whether `rustup` is there.
pub fn install_rust_runtime(tools_root: &HostPath, toolchain: &str, present: bool) -> (r: Plan)
    ensures
        r@ == rust_steps(tools_root@, toolchain@, present),
{
    let bin = tools_root.join("cargo/bin");
    let mut plan = Plan::new();
    plan.create_dirs(&tools_root.join("cargo"));
    plan.create_dirs(&tools_root.join("rustup"));
    if !present {
        let script = tools_root.join("rustup-init.sh");
        plan.log(log_step("Installing runtime rustup"));
        push_download(&mut plan, "https://sh.rustup.rs", "scripts/rustup-init.sh", &script, tools_root);
        let command = CommandLine::named("sh").path(&script).arg("-y").arg("--default-toolchain").arg(
            toolchain,
        ).arg("--profile").arg("minimal").arg("--no-modify-path");
        plan.run_then_remove(
            with_rust_env(command, tools_root, base_variable()),
            &script,
            "failed to install rustup for isolated runtime",
        );
    }
    plan.log(log_step("Ensuring rust toolchain ".to_string().concat(toolchain).as_str()));
    let install = CommandLine::of(Arg::Path(bin.join("rustup"))).arg("toolchain").arg("install").arg(toolchain);
    plan.run(
        with_rust_env(install, tools_root, path_variable(&bin)),
        "failed to install rust toolchain: ".to_string().concat(toolchain).as_str(),
    );
    let default = CommandLine::of(Arg::Path(bin.join("rustup"))).arg("default").arg(toolchain);
    plan.run(
        with_rust_env(default, tools_root, path_variable(&bin)),
        "failed to set rust default toolchain: ".to_string().concat(toolchain).as_str(),
    );
    plan.require(&bin.join("rustc"), "rust runtime install completed but rustc binary was not found");
    plan.log(log_success("Installed rust@".to_string().concat(toolchain).as_str()));
    assert(plan@ =~= rust_steps(tools_root@, toolchain@, present));
    plan
}

/// The steps that install Python, for a platform as Miniconda calls it; `present` tells whether it is
/// there.
pub open spec fn python_steps(
    tools: Seq<u8>,
    version: Option<Seq<char>>,
    platform: Seq<char>,
    present: bool,
) -> Seq<StepView> {
    let bin = within(tools, "miniconda/bin"@);
    let installer = within(tools, "miniconda-installer.sh"@);
    let install = seq![
        step_line("Installing runtime python (Miniconda)"@),
        StepView::Download {
            url: "https://repo.anaconda.com/miniconda/Miniconda3-latest-"@ + platform + ".sh"@,
            cache_key: "python/miniconda-"@ + platform + ".sh"@,
            destination: installer,
            working_dir: tools,
        },
        run_then_remove(
            CommandView::named("sh"@).path(installer).arg("-b"@).arg("-p"@).path(
                within(tools, "miniconda"@),
            ).in_dir(tools).env("PATH"@, ArgView::Text(BASE_SYSTEM_PATH@)),
            installer,
            "failed to install python runtime (miniconda)"@,
        ),
    ];
    let choose_version = match version {
        Some(v) => seq![
            step_line("Ensuring python "@ + v),
            run_step(
                CommandView::of(ArgView::Path(within(bin, "conda"@))).arg("install"@).arg("-y"@).arg(
                    "python="@ + v,
                ).in_dir(tools).env("PATH"@, ArgView::Text(path_with(bin))),
                "failed to install python version "@ + v,
            ),
        ],
        None => Seq::empty(),
    };
    let check = seq![
        StepView::Require {
            path: within(bin, "python"@),
            failure: "python runtime install completed but python binary was not found"@,
        },
        success_line("Installed python runtime"@),
    ];
    (if present { Seq::empty() } else { install }) + choose_version + check
}

/// The steps that install Python; `present` tells whether it is there.
pub fn install_python_runtime(
    tools_root: &HostPath,
    version: &Option<String>,
    os: &str,
    arch: &str,
    present: bool,
) -> (r: Result<Plan, String>)
    ensures
        match python_platform(os@, arch@) {
            Ok(p) => r matches Ok(plan) && plan@ == python_steps(tools_root@, optional_text(*version), p, present),
            Err(error) => r matches Err(e) && e@ == error,
        },
{
    let platform = match python_name(os, arch) {
        Ok(platform) => platform,
        Err(e) => {
            return Err(e);
        },
    };
    let bin = tools_root.join("miniconda/bin");
    let mut plan = Plan::new();
    if !present {
        let installer = tools_root.join("miniconda-installer.sh");
        plan.log(log_step("Installing runtime python (Miniconda)"));
        push_download(
            &mut plan,
            "https://repo.anaconda.com/miniconda/Miniconda3-latest-".to_string().concat(platform).concat(
                ".sh",
            ).as_str(),
            "python/miniconda-".to_string().concat(platform).concat(".sh").as_str(),
            &installer,
            tools_root,
        );
        plan.run_then_remove(
            CommandLine::named("sh").path(&installer).arg("-b").arg("-p").path(
                &tools_root.join("miniconda"),
            ).in_dir(tools_root).env("PATH", base_variable()),
            &installer,
            "failed to install python runtime (miniconda)",
        );
    }
    if let Some(v) = version {
        plan.log(log_step("Ensuring python ".to_string().concat(v.as_str()).as_str()));
        plan.run(
            CommandLine::of(Arg::Path(bin.join("conda"))).arg("install").arg("-y").arg(
                "python=".to_string().concat(v.as_str()).as_str(),
            ).in_dir(tools_root).env("PATH", path_variable(&bin)),
            "failed to install python version ".to_string().concat(v.as_str()).as_str(),
        );
    }
    plan.require(&bin.join("python"), "python runtime install completed but python binary was not found");
    plan.log(log_success("Installed python runtime"));
    assert(plan@ =~= python_steps(tools_root@, optional_text(*version), platform@, present));
    Ok(plan)
}

/// The directory of a version of Go among the tools.
pub open spec fn go_folder(version: Seq<char>, os: Seq<char>, arch: Seq<char>) -> Seq<char> {
    "go-"@ + version + "-"@ + os + "-"@ + arch
}

/// The steps that install a version of Go, for a system and a machine as Go calls them; `present`
/// tells whether it is there.
pub open spec fn go_steps(
    tools: Seq<u8>,
    version: Seq<char>,
    os: Seq<char>,
    arch: Seq<char>,
    present: bool,
) -> Seq<StepView> {
    let folder = go_folder(version, os, arch);
    let bin = within(tools, folder + "/go/bin"@);
    let archive = "go"@ + version + "."@ + os + "-"@ + arch + ".tar.gz"@;
    if present {
        seq![info_line("runtime go@"@ + version + " already installed"@)]
    } else {
        seq![
            step_line("Installing runtime go@"@ + version),
            StepView::CreateDirs(within(tools, folder)),
            StepView::Download {
                url: "https://go.dev/dl/"@ + archive,
                cache_key: "go/"@ + archive,
                destination: within(tools, archive),
                working_dir: tools,
            },
            run_then_remove(
                CommandView::named("tar"@).arg("-xzf"@).path(within(tools, archive)).arg("-C"@).path(
                    within(tools, folder),
                ),
                within(tools, archive),
                "failed to extract downloaded go runtime"@,
            ),
            StepView::Require {
                path: within(bin, "go"@),
                failure: "go runtime install completed but go binary was not found"@,
            },
            success_line("Installed go@"@ + version),
        ]
    }
}

/// The directory of a version of Go among the tools.
pub fn go_folder_name(version: &str, os: &str, arch: &str) -> (r: String)
    ensures
        r@ == go_folder(version@, os@, arch@),
{
    "go-".to_string().concat(version).concat("-").concat(os).concat("-").concat(arch)
}

/// The steps that install a version of Go; `present` tells whether it is there.
pub fn install_go_runtime(tools_root: &HostPath, version: &str, os: &str, arch: &str, present: bool) -> (r: Result<
    Plan,
    String,
>)
    ensures
        match go_platform(os@, arch@) {
            Ok((o, a)) => r matches Ok(plan) && plan@ == go_steps(tools_root@, version@, o, a, present),
            Err(error) => r matches Err(e) && e@ == error,
        },
{
    let (o, a) = match go_names(os, arch) {
        Ok(names) => names,
        Err(e) => {
            return Err(e);
        },
    };
    let mut plan = Plan::new();
    if present {
        plan.log(log_info("runtime go@".to_string().concat(version).concat(" already installed").as_str()));
        assert(plan@ =~= go_steps(tools_root@, version@, o@, a@, present));
        return Ok(plan);
    }
    let folder = go_folder_name(version, o, a);
    let install_dir = tools_root.join(folder.as_str());
    let bin = tools_root.join(folder.concat("/go/bin").as_str());
    let archive = "go".to_string().concat(version).concat(".").concat(o).concat("-").concat(a).concat(".tar.gz");
    let archive_path = tools_root.join(archive.as_str());
    plan.log(log_step("Installing runtime go@".to_string().concat(version).as_str()));
    plan.create_dirs(&install_dir);
    push_download(
        &mut plan,
        "https://go.dev/dl/".to_string().concat(archive.as_str()).as_str(),
        "go/".to_string().concat(archive.as_str()).as_str(),
        &archive_path,
        tools_root,
    );
    plan.run_then_remove(
        CommandLine::named("tar").arg("-xzf").path(&archive_path).arg("-C").path(&install_dir),
        &archive_path,
        "failed to extract downloaded go runtime",
    );
    plan.require(&bin.join("go"), "go runtime install completed but go binary was not found");
    plan.log(log_success("Installed go@".to_string().concat(version).as_str()));
    assert(plan@ =~= go_steps(tools_root@, version@, o@, a@, present));
    Ok(plan)
}

/// A runtime that a script of its makers installs.
pub struct ScriptedView {
    pub name: Seq<char>,
    pub url: Seq<char>,
    /// The script among the tools.
    pub script: Seq<char>,
    /// The variable for the directory of the runtime.
    pub variable: Seq<char>,
    /// What stands before a version in the argument of the script.
    pub prefix: Seq<char>,
}

/// How Deno is installed.
pub open spec fn deno() -> ScriptedView {
    ScriptedView {
        name: "deno"@,
        url: "https://deno.land/install.sh"@,
        script: "deno-install.sh"@,
        variable: "DENO_INSTALL"@,
        prefix: "v"@,
    }
}

/// How Bun is installed.
pub open spec fn bun() -> ScriptedView {
    ScriptedView {
        name: "bun"@,
        url: "https://bun.sh/install"@,
        script: "bun-install.sh"@,
        variable: "BUN_INSTALL"@,
        prefix: "bun-v"@,
    }
}

/// The steps that install a runtime by the script of its makers; `present` tells whether it is there,
/// which is enough where no version is asked for.
pub open spec fn scripted_steps(
    tools: Seq<u8>,
    how: ScriptedView,
    version: Option<Seq<char>>,
    present: bool,
) -> Seq<StepView> {
    let dir = within(tools, how.name);
    let script = within(tools, how.script);
    let label = match version {
        Some(v) => how.name + "@"@ + v,
        None => how.name + "@latest"@,
    };
    let command = CommandView::named("sh"@).path(script).in_dir(tools).env(how.variable, ArgView::Path(dir)).env(
        "PATH"@,
        ArgView::Text(BASE_SYSTEM_PATH@),
    );
    if present && version is None {
        seq![info_line("runtime "@ + how.name + " already installed"@)]
    } else {
        seq![
            step_line("Installing runtime "@ + label),
            StepView::CreateDirs(dir),
            StepView::Download {
                url: how.url,
                cache_key: "scripts/"@ + how.script,
                destination: script,
                working_dir: tools,
            },
            run_then_remove(
                match version {
                    Some(v) => command.arg(how.prefix + v),
                    None => command,
                },
                script,
                "failed to install runtime "@ + label,
            ),
            StepView::Require {
                path: within(within(tools, how.name + "/bin"@), how.name),
                failure: how.name + " runtime install completed but "@ + how.name + " binary was not found"@,
            },
            success_line("Installed "@ + label),
        ]
    }
}

/// The steps that install a runtime by the script of its makers.
fn install_scripted(
    tools_root: &HostPath,
    name: &str,
    url: &str,
    script_name: &str,
    variable: &str,
    prefix: &str,
    version: &Option<String>,
    present: bool,
) -> (r: Plan)
    ensures
        r@ == scripted_steps(
            tools_root@,
            (ScriptedView { name: name@, url: url@, script: script_name@, variable: variable@, prefix: prefix@ }),
            optional_text(*version),
            present,
        ),
{
    let ghost how = ScriptedView {
        name: name@,
        url: url@,
        script: script_name@,
        variable: variable@,
        prefix: prefix@,
    };
    let mut plan = Plan::new();
    if present && version.is_none() {
        plan.log(log_info("runtime ".to_string().concat(name).concat(" already installed").as_str()));
        assert(plan@ =~= scripted_steps(tools_root@, how, optional_text(*version), present));
        return plan;
    }
    let dir = tools_root.join(name);
    let script = tools_root.join(script_name);
    let label = match version {
        Some(v) => name.to_string().concat("@").concat(v.as_str()),
        None => name.to_string().concat("@latest"),
    };
    plan.log(log_step("Installing runtime ".to_string().concat(label.as_str()).as_str()));
    plan.create_dirs(&dir);
    push_download(
        &mut plan,
        url,
        "scripts/".to_string().concat(script_name).as_str(),
        &script,
        tools_root,
    );
    let command = CommandLine::named("sh").path(&script).in_dir(tools_root).env(variable, Arg::Path(dir)).env(
        "PATH",
        base_variable(),
    );
    let command = match version {
        Some(v) => command.arg(prefix.to_string().concat(v.as_str()).as_str()),
        None => command,
    };
    plan.run_then_remove(
        command,
        &script,
        "failed to install runtime ".to_string().concat(label.as_str()).as_str(),
    );
    let bin = tools_root.join(name.to_string().concat("/bin").as_str());
    plan.require(
        &bin.join(name),
        name.to_string().concat(" runtime install completed but ").concat(name).concat(
            " binary was not found",
        ).as_str(),
    );
    plan.log(log_success("Installed ".to_string().concat(label.as_str()).as_str()));
    assert(plan@ =~= scripted_steps(tools_root@, how, optional_text(*version), present));
    plan
}

/// The steps that install Deno; `present` tells whether it is there.
pub fn install_deno_runtime(tools_root: &HostPath, version: &Option<String>, present: bool) -> (r: Plan)
    ensures
        r@ == scripted_steps(tools_root@, deno(), optional_text(*version), present),
{
    install_scripted(
        tools_root,
        "deno",
        "https://deno.land/install.sh",
        "deno-install.sh",
        "DENO_INSTALL",
        "v",
        version,
        present,
    )
}

/// The steps that install Bun; `present` tells whether it is there.
pub fn install_bun_runtime(tools_root: &HostPath, version: &Option<String>, present: bool) -> (r: Plan)
    ensures
        r@ == scripted_steps(tools_root@, bun(), optional_text(*version), present),
{
    install_scripted(
        tools_root,
        "bun",
        "https://bun.sh/install",
        "bun-install.sh",
        "BUN_INSTALL",
        "bun-v",
        version,
        present,
    )
}

/// What is not in the cache is fetched by one command: `curl` gets the file from its address to its
/// place, and fails where the server does; it is then left in the cache. What is in the cache is copied to
/// its place, and nothing else is done.
pub proof fn law_downloads_end_up_in_their_place(
    url: Seq<char>,
    key: Seq<char>,
    destination: Seq<u8>,
    working_dir: Seq<u8>,
    downloads: Seq<u8>,
)
    ensures
        ({
            let fresh = download_steps(url, key, destination, working_dir, downloads, false);
            let cached = download_steps(url, key, destination, working_dir, downloads, true);
            let file = within(downloads, key);
            &&& fresh.len() == 5 && cached.len() == 3
            &&& fresh[0] == StepView::CreateParentDirs(destination) && fresh[1] is Log && fresh[2] is Run
            &&& fresh[2]->Run_command.program == ArgView::Text("curl"@)
            &&& fresh[2]->Run_command.args == seq![
                ArgView::Text("-fsSL"@),
                ArgView::Text(url),
                ArgView::Text("-o"@),
                ArgView::Path(destination),
            ]
            &&& fresh[2]->Run_command.dir == Some(working_dir)
            &&& fresh[3] == StepView::CreateParentDirs(file)
            &&& fresh[4] == StepView::Store { from: destination, to: file }
            &&& cached[0] == StepView::CreateParentDirs(destination)
            &&& cached[1] == StepView::Copy { from: file, to: destination }
            &&& cached[2] is Log
        }),
{
    let fresh = download_steps(url, key, destination, working_dir, downloads, false);
    assert(fresh[2]->Run_command.args =~= seq![
        ArgView::Text("-fsSL"@),
        ArgView::Text(url),
        ArgView::Text("-o"@),
        ArgView::Path(destination),
    ]);
}

} // verus!
