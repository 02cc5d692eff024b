use tortia::archive::{manifest, pack, resolve_archive_path, runtime_bin_paths, tool_bin_path, unpack};
use tortia::bundle::parse_bundle_path;
use tortia::command::{
    command_exists, ensure_command_available, run_required, run_shell, write_executable_script, Arg, CommandLine,
    Download, Plan, Step,
};
use tortia::course::{
    build_phase_plan, build_phase_scripts, check_archive, payload_dir, run_course, run_finished, run_main, run_package,
    run_phase_plan, run_phase_scripts, Phase,
};
use tortia::extensions::{parse_extension_plan, run_extensions, ExtensionEvent};
use tortia::host_packages::{
    ensure_manager_available, is_host_package_installed, manager_lookup, run_host_package_install,
    run_host_package_update, HostPackageManager, HostPackageRequest,
};
use tortia::install::{
    cached_download, download_with_cache, install_bun_runtime, install_deno_runtime, install_go_runtime,
    install_node_runtime, install_python_runtime, install_rust_runtime, store_note,
};
use tortia::isolation::{
    base_system_path, blocked_commands, build_isolated_env, env_probes, prepare_runtime_shims,
};
use tortia::log::{log_error, log_info, log_step, log_success, log_with, Level};
use tortia::managers::{ensure_package_managers, PackageManagerSpec};
use tortia::packaging::{run_hook, BuildPlan};
use tortia::paths::HostPath;
use tortia::recipe::{ExtensionsConfig, TortiaManifest};
use tortia::runtime::RuntimeSpec;

fn p(text: &str) -> HostPath {
    HostPath::from_text(text)
}

fn envs() -> Vec<(String, String)> {
    vec![("PATH".to_string(), "/x".to_string())]
}

fn arg(a: &Arg) -> String {
    match a {
        Arg::Text(s) => s.clone(),
        Arg::Path(path) => format!("<{}>", path.display()),
    }
}

fn command(c: &CommandLine) -> String {
    let mut words = vec![arg(&c.program)];
    words.extend(c.args.iter().map(arg));
    if let Some(dir) = &c.dir {
        words.push(format!("in <{}>", dir.display()));
    }
    for (key, value) in &c.envs {
        words.push(format!("{key}={}", arg(value)));
    }
    if c.quiet {
        words.push("quiet".to_string());
    }
    words.join(" ")
}

fn step(s: &Step) -> String {
    match s {
        Step::Log(line) => {
            let mark = match line.level {
                Level::Step => "step",
                Level::Info => "info",
                Level::Success => "ok",
                Level::Error => "error",
            };
            format!("{mark}: {}", line.message)
        }
        Step::CreateDirs(path) => format!("dirs {}", path.display()),
        Step::CreateParentDirs(path) => format!("parents of {}", path.display()),
        Step::Copy { from, to } => format!("copy {} to {}", from.display(), to.display()),
        Step::Store { from, to } => format!("store {} to {}", from.display(), to.display()),
        Step::Write { path, contents } => format!("write {}: {contents}", path.display()),
        Step::RemoveFile(path) => format!("remove {}", path.display()),
        Step::Download(d) => format!(
            "download {} as {} to {} in {}",
            d.url,
            d.cache_key,
            d.destination.display(),
            d.working_dir.display()
        ),
        Step::Run(run) => {
            let cleanup = match &run.cleanup {
                Some(path) => format!(" then remove {}", path.display()),
                None => String::new(),
            };
            format!("run {}{cleanup} or {}", command(&run.command), run.failure)
        }
        Step::Require { path, failure } => format!("require {} or {failure}", path.display()),
    }
}

fn steps(plan: &Plan) -> Vec<String> {
    plan.steps.iter().map(step).collect()
}

#[test]
fn lines_are_printed_by_level() {
    assert_eq!(log_with(&log_step("a"), false), "[STEP] a");
    assert_eq!(log_with(&log_info("a"), false), "[INFO] a");
    assert_eq!(log_with(&log_success("a"), false), "[OK] a");
    assert_eq!(log_with(&log_error("a"), false), "[ERROR] a");
    assert_eq!(log_with(&log_step("a"), true), "\x1b[34m[STEP]\x1b[0m a");
    assert_eq!(log_with(&log_info("a"), true), "\x1b[33m[INFO]\x1b[0m a");
    assert_eq!(log_with(&log_success("a"), true), "\x1b[32m[OK]\x1b[0m a");
    assert_eq!(log_with(&log_error("a"), true), "\x1b[31m[ERROR]\x1b[0m a");
}

#[test]
fn shell_commands() {
    assert_eq!(command(&run_shell("make", &p("/s"), &envs())), "sh -c make in </s> PATH=/x");
    assert_eq!(
        command(&command_exists(&p("/r"), "brew")),
        "sh -c command -v brew >/dev/null 2>&1 in </r> quiet"
    );
    assert_eq!(
        step(&ensure_command_available(&p("/s"), &envs(), "npm", "hint")),
        "run sh -c command -v npm >/dev/null 2>&1 in </s> PATH=/x quiet or required command 'npm' not found in isolated PATH (hint)"
    );
    assert_eq!(
        steps(&run_required(&p("/s"), &envs(), "npm ci", "failed")),
        vec!["step: npm ci", "run sh -c npm ci in </s> PATH=/x or failed"]
    );
    assert_eq!(
        steps(&write_executable_script(&p("/s/x"), "body")),
        vec![
            "write /s/x: body",
            "run /bin/chmod +x </s/x> or failed to set executable permission for /s/x",
        ]
    );
}

#[test]
fn downloads_use_the_cache() {
    let download = Download {
        url: "https://h/f".to_string(),
        cache_key: "node/f".to_string(),
        destination: p("/t/f"),
        working_dir: p("/t"),
    };
    assert_eq!(cached_download(&download, &p("/c/downloads")).display(), "/c/downloads/node/f");
    assert_eq!(
        steps(&download_with_cache(&download, &p("/c/downloads"), true)),
        vec![
            "parents of /t/f",
            "copy /c/downloads/node/f to /t/f",
            "info: Using cached download /c/downloads/node/f",
        ]
    );
    assert_eq!(
        steps(&download_with_cache(&download, &p("/c/downloads"), false)),
        vec![
            "parents of /t/f",
            "info: Downloading https://h/f",
            "run curl -fsSL https://h/f -o </t/f> in </t> or failed to download https://h/f",
            "parents of /c/downloads/node/f",
            "store /t/f to /c/downloads/node/f",
        ]
    );
    assert_eq!(store_note(&p("/c/f"), "no space").message, "Could not write download cache /c/f (no space)");
}

#[test]
fn node_is_installed() {
    let plan = install_node_runtime(&p("/t"), "22.14.0", "linux", "x86_64", false).unwrap();
    assert_eq!(
        steps(&plan),
        vec![
            "step: Installing runtime node@22.14.0",
            "download https://nodejs.org/dist/v22.14.0/node-v22.14.0-linux-x64.tar.xz as node/node-v22.14.0-linux-x64.tar.xz to /t/node-v22.14.0-linux-x64.tar.xz in /t",
            "run tar -xJf </t/node-v22.14.0-linux-x64.tar.xz> -C </t> then remove /t/node-v22.14.0-linux-x64.tar.xz or failed to extract downloaded node runtime",
            "require /t/node-v22.14.0-linux-x64/bin/node or node runtime install completed but node binary was not found",
            "ok: Installed node@22.14.0",
        ]
    );
    let there = install_node_runtime(&p("/t"), "22.14.0", "macos", "aarch64", true).unwrap();
    assert_eq!(steps(&there), vec!["info: runtime node@22.14.0 already installed"]);
    let mac = install_node_runtime(&p("/t"), "1", "macos", "aarch64", false).unwrap();
    assert!(steps(&mac)[1].contains("node-v1-darwin-arm64.tar.xz"));
    assert_eq!(
        install_node_runtime(&p("/t"), "1", "windows", "sparc", false).unwrap_err(),
        "node runtime install is not supported on OS: windows"
    );
    assert_eq!(
        install_node_runtime(&p("/t"), "1", "linux", "sparc", false).unwrap_err(),
        "node runtime install is not supported on ARCH: sparc"
    );
}

#[test]
fn rust_is_installed() {
    let base = "/usr/bin:/bin:/usr/sbin:/sbin";
    let tail = vec![
        "step: Ensuring rust toolchain stable".to_string(),
        format!("run </t/cargo/bin/rustup> toolchain install stable in </t> CARGO_HOME=</t/cargo> RUSTUP_HOME=</t/rustup> PATH=/t/cargo/bin:{base} or failed to install rust toolchain: stable"),
        format!("run </t/cargo/bin/rustup> default stable in </t> CARGO_HOME=</t/cargo> RUSTUP_HOME=</t/rustup> PATH=/t/cargo/bin:{base} or failed to set rust default toolchain: stable"),
        "require /t/cargo/bin/rustc or rust runtime install completed but rustc binary was not found".to_string(),
        "ok: Installed rust@stable".to_string(),
    ];
    let mut there = vec!["dirs /t/cargo".to_string(), "dirs /t/rustup".to_string()];
    let mut fresh = there.clone();
    there.extend(tail.clone());
    assert_eq!(steps(&install_rust_runtime(&p("/t"), "stable", true)), there);
    fresh.extend(vec![
        "step: Installing runtime rustup".to_string(),
        "download https://sh.rustup.rs as scripts/rustup-init.sh to /t/rustup-init.sh in /t".to_string(),
        format!("run sh </t/rustup-init.sh> -y --default-toolchain stable --profile minimal --no-modify-path in </t> CARGO_HOME=</t/cargo> RUSTUP_HOME=</t/rustup> PATH={base} then remove /t/rustup-init.sh or failed to install rustup for isolated runtime"),
    ]);
    fresh.extend(tail);
    assert_eq!(steps(&install_rust_runtime(&p("/t"), "stable", false)), fresh);
    assert_eq!(base_system_path(), base);
}

#[test]
fn python_is_installed() {
    let version = Some("3.12".to_string());
    let plan = install_python_runtime(&p("/t"), &version, "linux", "x86_64", false).unwrap();
    assert_eq!(
        steps(&plan),
        vec![
            "step: Installing runtime python (Miniconda)",
            "download https://repo.anaconda.com/miniconda/Miniconda3-latest-Linux-x86_64.sh as python/miniconda-Linux-x86_64.sh to /t/miniconda-installer.sh in /t",
            "run sh </t/miniconda-installer.sh> -b -p </t/miniconda> in </t> PATH=/usr/bin:/bin:/usr/sbin:/sbin then remove /t/miniconda-installer.sh or failed to install python runtime (miniconda)",
            "step: Ensuring python 3.12",
            "run </t/miniconda/bin/conda> install -y python=3.12 in </t> PATH=/t/miniconda/bin:/usr/bin:/bin:/usr/sbin:/sbin or failed to install python version 3.12",
            "require /t/miniconda/bin/python or python runtime install completed but python binary was not found",
            "ok: Installed python runtime",
        ]
    );
    let there = install_python_runtime(&p("/t"), &None, "macos", "aarch64", true).unwrap();
    assert_eq!(steps(&there).len(), 2);
    for (os, arch, name) in [
        ("macos", "aarch64", "MacOSX-arm64"),
        ("macos", "x86_64", "MacOSX-x86_64"),
        ("linux", "aarch64", "Linux-aarch64"),
    ] {
        let plan = install_python_runtime(&p("/t"), &None, os, arch, false).unwrap();
        assert!(steps(&plan)[1].contains(name));
    }
    assert_eq!(
        install_python_runtime(&p("/t"), &None, "freebsd", "x86_64", true).unwrap_err(),
        "python runtime install is not supported on freebsd/x86_64"
    );
}

#[test]
fn go_is_installed() {
    let plan = install_go_runtime(&p("/t"), "1.22.12", "linux", "aarch64", false).unwrap();
    assert_eq!(
        steps(&plan),
        vec![
            "step: Installing runtime go@1.22.12",
            "dirs /t/go-1.22.12-linux-arm64",
            "download https://go.dev/dl/go1.22.12.linux-arm64.tar.gz as go/go1.22.12.linux-arm64.tar.gz to /t/go1.22.12.linux-arm64.tar.gz in /t",
            "run tar -xzf </t/go1.22.12.linux-arm64.tar.gz> -C </t/go-1.22.12-linux-arm64> then remove /t/go1.22.12.linux-arm64.tar.gz or failed to extract downloaded go runtime",
            "require /t/go-1.22.12-linux-arm64/go/bin/go or go runtime install completed but go binary was not found",
            "ok: Installed go@1.22.12",
        ]
    );
    let there = install_go_runtime(&p("/t"), "1", "macos", "x86_64", true).unwrap();
    assert_eq!(steps(&there), vec!["info: runtime go@1 already installed"]);
    assert_eq!(
        install_go_runtime(&p("/t"), "1", "linux", "riscv64", false).unwrap_err(),
        "go runtime install is not supported on linux/riscv64"
    );
}

#[test]
fn deno_and_bun_are_installed() {
    assert_eq!(
        steps(&install_deno_runtime(&p("/t"), &Some("2.2.5".to_string()), true)),
        vec![
            "step: Installing runtime deno@2.2.5",
            "dirs /t/deno",
            "download https://deno.land/install.sh as scripts/deno-install.sh to /t/deno-install.sh in /t",
            "run sh </t/deno-install.sh> v2.2.5 in </t> DENO_INSTALL=</t/deno> PATH=/usr/bin:/bin:/usr/sbin:/sbin then remove /t/deno-install.sh or failed to install runtime deno@2.2.5",
            "require /t/deno/bin/deno or deno runtime install completed but deno binary was not found",
            "ok: Installed deno@2.2.5",
        ]
    );
    assert_eq!(steps(&install_deno_runtime(&p("/t"), &None, true)), vec!["info: runtime deno already installed"]);
    assert_eq!(
        steps(&install_bun_runtime(&p("/t"), &None, false)),
        vec![
            "step: Installing runtime bun@latest",
            "dirs /t/bun",
            "download https://bun.sh/install as scripts/bun-install.sh to /t/bun-install.sh in /t",
            "run sh </t/bun-install.sh> in </t> BUN_INSTALL=</t/bun> PATH=/usr/bin:/bin:/usr/sbin:/sbin then remove /t/bun-install.sh or failed to install runtime bun@latest",
            "require /t/bun/bin/bun or bun runtime install completed but bun binary was not found",
            "ok: Installed bun@latest",
        ]
    );
    let versioned = install_bun_runtime(&p("/t"), &Some("1.2.5".to_string()), true);
    assert!(steps(&versioned)[3].starts_with("run sh </t/bun-install.sh> bun-v1.2.5 in </t>"));
    assert_eq!(steps(&install_bun_runtime(&p("/t"), &None, true)), vec!["info: runtime bun already installed"]);
}

#[test]
fn package_managers_are_prepared() {
    assert_eq!(ensure_package_managers(&p("/s"), "t", &vec![], &envs()).steps.len(), 0);
    let all = vec![
        PackageManagerSpec::Npm,
        PackageManagerSpec::Pnpm,
        PackageManagerSpec::Yarn,
        PackageManagerSpec::Pip,
        PackageManagerSpec::Uv,
        PackageManagerSpec::Cargo,
        PackageManagerSpec::Go,
        PackageManagerSpec::Deno,
        PackageManagerSpec::Bun,
    ];
    let look = |command: &str, hint: &str| {
        format!("run sh -c command -v {command} >/dev/null 2>&1 in </s> PATH=/x quiet or required command '{command}' not found in isolated PATH ({hint})")
    };
    let script = |name: &str, command: &str| {
        vec![
            format!("write /s/t/pm/bin/{name}: #!/bin/sh\nexec {command} \"$@\"\n"),
            format!("run /bin/chmod +x </s/t/pm/bin/{name}> or failed to set executable permission for /s/t/pm/bin/{name}"),
        ]
    };
    let shell = |command: &str, failure: &str| format!("run sh -c {command} in </s> PATH=/x or {failure}");
    let mut expected = vec!["step: Preparing package managers".to_string(), "dirs /s/t/pm/bin".to_string()];
    expected.push(look("npm", "runtime 'node' is required"));
    expected.push(look("corepack", "runtime 'node' is required for pnpm"));
    expected.push(shell("corepack prepare pnpm@latest --activate", "failed to prepare pnpm via corepack"));
    expected.extend(script("pnpm", "corepack pnpm"));
    expected.push(look("corepack", "runtime 'node' is required for yarn"));
    expected.push(shell("corepack prepare yarn@stable --activate", "failed to prepare yarn via corepack"));
    expected.extend(script("yarn", "corepack yarn"));
    expected.push(look("python", "runtime 'python' is required for pip"));
    expected.extend(script("pip", "python -m pip"));
    expected.extend(script("pip3", "python -m pip"));
    expected.push(look("python", "runtime 'python' is required for uv"));
    expected.push(shell("python -m pip install --upgrade uv", "failed to install uv in isolated environment"));
    expected.extend(script("uv", "python -m uv"));
    expected.push(look("cargo", "runtime 'rust' is required for cargo"));
    expected.push(look("go", "runtime 'go' is required"));
    expected.push(look("deno", "runtime 'deno' is required"));
    expected.push(look("bun", "runtime 'bun' is required"));
    assert_eq!(steps(&ensure_package_managers(&p("/s"), "t", &all, &envs())), expected);
}

#[test]
fn host_package_commands() {
    let request = |manager: HostPackageManager| HostPackageRequest { manager, package: "x".to_string() };
    assert_eq!(
        steps(&run_host_package_update(&p("/r"), HostPackageManager::Brew, false)),
        vec!["step: Updating brew metadata", "run brew update in </r> or brew update failed"]
    );
    assert_eq!(
        steps(&run_host_package_update(&p("/r"), HostPackageManager::Apt, true)),
        vec!["step: Updating apt metadata", "run sudo apt-get update in </r> or apt-get update failed"]
    );
    assert_eq!(
        steps(&run_host_package_update(&p("/r"), HostPackageManager::Pacman, false)),
        vec!["step: Updating pacman metadata", "run pacman -Sy --noconfirm in </r> or pacman update failed"]
    );
    assert_eq!(
        steps(&run_host_package_install(&p("/r"), &request(HostPackageManager::Brew), false)),
        vec!["step: Installing brew:x", "run brew install x in </r> or brew install failed"]
    );
    assert_eq!(
        steps(&run_host_package_install(&p("/r"), &request(HostPackageManager::Apt), true)),
        vec!["step: Installing apt:x", "run sudo apt-get install -y x in </r> or apt-get install failed"]
    );
    assert_eq!(
        steps(&run_host_package_install(&p("/r"), &request(HostPackageManager::Pacman), false)),
        vec!["step: Installing pacman:x", "run pacman -S --noconfirm x in </r> or pacman install failed"]
    );
    let installed = |m: HostPackageManager| command(&is_host_package_installed(&p("/r"), &request(m)));
    assert_eq!(installed(HostPackageManager::Brew), "brew list --versions x in </r> quiet");
    assert_eq!(installed(HostPackageManager::Apt), "dpkg -s x in </r> quiet");
    assert_eq!(installed(HostPackageManager::Pacman), "pacman -Qi x in </r> quiet");
    let look = manager_lookup(&p("/r"), HostPackageManager::Apt);
    assert_eq!(command(&look), "sh -c command -v apt-get >/dev/null 2>&1 in </r> quiet");
    assert!(ensure_manager_available(HostPackageManager::Apt, true).is_ok());
    assert_eq!(
        ensure_manager_available(HostPackageManager::Apt, false).unwrap_err(),
        "system package manager 'apt' is not available on this host"
    );
}

#[test]
fn other_runtimes_are_blocked() {
    let asked = vec![
        RuntimeSpec::Node { version: "1".to_string() },
        RuntimeSpec::Rust { toolchain: "stable".to_string() },
        RuntimeSpec::Python { version: None },
        RuntimeSpec::Deno { version: None },
        RuntimeSpec::Bun { version: None },
    ];
    assert_eq!(
        steps(&prepare_runtime_shims(&p("/s"), "t", &asked)),
        vec![
            "dirs /s/t",
            "write /s/t/go: #!/bin/sh\necho \"tortia: 'go' is blocked in this isolated environment (add runtime 'go' in [runtimes].items)\" >&2\nexit 127\n",
            "run /bin/chmod +x </s/t/go> or failed to set executable permission for /s/t/go",
            "write /s/t/gofmt: #!/bin/sh\necho \"tortia: 'gofmt' is blocked in this isolated environment (add runtime 'go' in [runtimes].items)\" >&2\nexit 127\n",
            "run /bin/chmod +x </s/t/gofmt> or failed to set executable permission for /s/t/gofmt",
        ]
    );
    let all: Vec<String> = blocked_commands(&vec![]).into_iter().map(|c| c.0).collect();
    assert_eq!(
        all,
        vec![
            "node", "npm", "npx", "corepack", "pnpm", "yarn", "rustc", "cargo", "rustup", "rustfmt", "clippy-driver",
            "cargo-clippy", "python", "python3", "pip", "pip3", "uv", "go", "gofmt", "deno", "bun", "bunx",
        ]
    );
}

#[test]
fn the_environment_is_isolated() {
    let bins = vec![p("/s/t/node/bin"), p("/s/t/cargo/bin")];
    let probes: Vec<String> = env_probes(&p("/s"), "t", &bins).iter().map(|b| b.display()).collect();
    assert_eq!(
        probes,
        vec!["/s/t", "/s/t/pm/bin", "/s/t/cargo", "/s/t/rustup", "/s/t/node/bin", "/s/t/cargo/bin"]
    );
    let base = "/usr/bin:/bin:/usr/sbin:/sbin";
    assert_eq!(
        build_isolated_env(&p("/s"), "t", &bins, &env_probes(&p("/s"), "t", &bins)),
        vec![
            ("PATH".to_string(), format!("/s/t:/s/t/pm/bin:/s/t/node/bin:/s/t/cargo/bin:{base}")),
            ("CARGO_HOME".to_string(), "/s/t/cargo".to_string()),
            ("RUSTUP_HOME".to_string(), "/s/t/rustup".to_string()),
        ]
    );
    assert_eq!(
        build_isolated_env(&p("/s"), "t", &bins, &vec![p("/s/t/cargo/bin")]),
        vec![("PATH".to_string(), format!("/s/t/cargo/bin:{base}"))]
    );
    assert_eq!(
        build_isolated_env(&p("/s"), "t", &vec![], &vec![]),
        vec![("PATH".to_string(), base.to_string())]
    );
}

#[test]
fn hooks_run_their_command() {
    assert_eq!(run_hook(&p("/s"), "deps", &None, &envs()).steps.len(), 0);
    assert_eq!(run_hook(&p("/s"), "deps", &Some(" \n".to_string()), &envs()).steps.len(), 0);
    assert_eq!(
        steps(&run_hook(&p("/s"), "build", &Some(" make all ".to_string()), &envs())),
        vec!["step: [build] make all", "run sh -c make all in </s> PATH=/x or build hook failed: make all"]
    );
}

#[test]
fn scripts_get_their_variables() {
    let config = ExtensionsConfig {
        dirs: Some(vec!["e".to_string()]),
        before_deps: None,
        after_deps: None,
        before_build: Some(vec!["a".to_string(), "b.sh".to_string()]),
        after_build: None,
        before_run: None,
        after_run: None,
    };
    let plan = parse_extension_plan(Some(&config)).unwrap();
    let files = vec![p("/p/e/a.sh")];
    let mut scripts = run_extensions(&p("/p"), &p("/s"), &plan, ExtensionEvent::BeforeBuild);
    assert_eq!(scripts.tried()[1].display(), "/p/e/a.sh");
    let run = scripts.script(&envs(), &files).unwrap();
    assert_eq!(
        steps(&run),
        vec![
            "step: [extension:before_build] /p/e/a.sh",
            "run sh </p/e/a.sh> in </s> TORTIA_EVENT=before_build TORTIA_PROJECT_ROOT=</p> TORTIA_STAGE_ROOT=</s> PATH=/x or extension '/p/e/a.sh' failed during event 'before_build'",
        ]
    );
    scripts.ended(None);
    assert_eq!(scripts.next, 1);
    assert!(!scripts.over());
    assert!(scripts.script(&envs(), &vec![p("/p/e/b.sh")]).is_some());
    scripts.ended(None);
    assert!(scripts.over());
    assert!(scripts.outcome().is_ok());
    assert!(run_extensions(&p("/p"), &p("/s"), &plan, ExtensionEvent::AfterBuild).over());
}

#[test]
fn scripts_stop_at_the_first_that_fails() {
    let config = ExtensionsConfig {
        dirs: Some(vec!["e".to_string()]),
        before_deps: None,
        after_deps: None,
        before_build: Some(vec!["a.sh".to_string(), "b.sh".to_string(), "c.sh".to_string()]),
        after_build: None,
        before_run: None,
        after_run: None,
    };
    let plan = parse_extension_plan(Some(&config)).unwrap();
    let files = vec![p("/p/e/a.sh"), p("/p/e/c.sh")];
    let mut scripts = run_extensions(&p("/p"), &p("/s"), &plan, ExtensionEvent::BeforeBuild);
    assert!(scripts.script(&envs(), &files).is_some());
    scripts.ended(None);
    assert!(scripts.script(&envs(), &files).is_none());
    let missing = "extension script 'b.sh' was not found in configured extension dirs";
    assert!(scripts.over());
    assert_eq!(scripts.outcome().unwrap_err(), missing);
    scripts.ended(None);
    assert_eq!(scripts.next, 1);
    assert_eq!(scripts.outcome().unwrap_err(), missing);

    let mut scripts = run_extensions(&p("/p"), &p("/s"), &plan, ExtensionEvent::BeforeBuild);
    assert!(scripts.script(&envs(), &files).is_some());
    scripts.ended(Some("extension '/p/e/a.sh' failed during event 'before_build'".to_string()));
    assert!(scripts.over());
    assert_eq!(scripts.next, 0);
    assert_eq!(scripts.outcome().unwrap_err(), "extension '/p/e/a.sh' failed during event 'before_build'");
}

#[test]
fn archives_have_their_place() {
    let place = |output: Option<&HostPath>| {
        let (path, plan) = resolve_archive_path(&p("/w"), output, "my-app");
        assert_eq!(steps(&plan), vec![format!("parents of {}", path.display())]);
        path.display()
    };
    assert_eq!(place(None), "/w/my-app.tortia");
    assert_eq!(place(Some(&p("out/x.tortia"))), "/w/out/x.tortia");
    assert_eq!(place(Some(&p("/tmp/x.tortia"))), "/tmp/x.tortia");
}

#[test]
fn archives_are_packed_and_unpacked() {
    let packed = vec![
        "step: Creating archive /w/a.tortia",
        "run 7z a -t7z </w/a.tortia> . in </s> or 7z failed while creating .tortia archive",
        "ok: Built /w/a.tortia",
    ];
    assert_eq!(steps(&pack(&p("/s"), &p("/w/a.tortia"), false)), packed);
    let again = steps(&pack(&p("/s"), &p("/w/a.tortia"), true));
    assert_eq!(again[0], "remove /w/a.tortia");
    assert_eq!(again[1..], packed[..]);
    assert_eq!(
        steps(&unpack(&p("/w/a.tortia"), &p("/tmp/r"))),
        vec![
            "step: Extracting /w/a.tortia",
            "run 7z x </w/a.tortia> -o/tmp/r -y or 7z failed while extracting .tortia archive",
            "require /tmp/r/.tortia-manifest.toml or Invalid .tortia file: missing .tortia-manifest.toml",
        ]
    );
    assert!(check_archive(&p("/w/a.tortia"), true).is_ok());
    assert_eq!(check_archive(&p("/w/a.tortia"), false).unwrap_err(), "Archive not found: /w/a.tortia");
}

#[test]
fn manifests_name_the_tools_from_the_payload() {
    for (tools, dir) in [
        (".tortia-tools", "deno/bin"),
        ("./t", "deno/bin"),
        ("t/", "cargo/bin"),
        (".", "bun/bin"),
        ("././/x", "bun/bin"),
        (".x", "bun/bin"),
    ] {
        let stage = std::path::PathBuf::from("/tmp/stage/payload");
        let bin = stage.join(tools).join(dir);
        let expected = bin.strip_prefix(&stage).unwrap().to_string_lossy().to_string();
        assert_eq!(tool_bin_path(tools, dir), expected);
    }
    assert_eq!(tool_bin_path("./t", "deno/bin"), "t/deno/bin");
}

#[test]
fn runs_find_what_builds_left() {
    let config = ExtensionsConfig {
        dirs: Some(vec!["e".to_string()]),
        before_deps: Some(vec!["x".to_string()]),
        after_deps: None,
        before_build: None,
        after_build: None,
        before_run: Some(vec!["sub/pre".to_string()]),
        after_run: Some(vec!["post.sh".to_string()]),
    };
    let plan = parse_extension_plan(Some(&config)).unwrap();
    let dirs = vec!["deno/bin".to_string(), "cargo/bin".to_string()];
    let made = manifest("app".to_string(), "run it".to_string(), 7, "./t", &dirs, &plan);
    assert_eq!(made.name, "app");
    assert_eq!(made.run_command, "run it");
    assert_eq!(made.built_at_unix, 7);
    assert_eq!(made.tool_bin_paths, vec!["t/deno/bin", "t/cargo/bin"]);
    assert_eq!(made.extension_dirs, vec!["e"]);
    assert_eq!(made.before_run_extensions, vec!["sub/pre"]);
    assert_eq!(made.after_run_extensions, vec!["post.sh"]);
    let found = run_package(&p("/tmp/r"), &made).ok().unwrap();
    let bins: Vec<String> = found.bins.iter().map(|b| b.display()).collect();
    assert_eq!(bins, vec!["/tmp/r/t/deno/bin", "/tmp/r/t/cargo/bin"]);
    assert!(p("/tmp/r").join("./t").join("deno/bin").same_as(&found.bins[0]));
    assert_eq!(found.extensions.dirs[0].text(), "e");
    assert_eq!(found.extensions.before_run[0].text(), "sub/pre");
    assert_eq!(found.extensions.after_run[0].text(), "post.sh");
    assert_eq!(found.extensions.before_deps.len(), 0);
    assert_eq!(runtime_bin_paths(&p("/tmp/r"), &made).len(), 2);
}

#[test]
fn bad_manifests_are_refused() {
    let mut bad = TortiaManifest {
        name: "a".to_string(),
        run_command: "x".to_string(),
        built_at_unix: 0,
        tool_bin_paths: vec![],
        extension_dirs: vec![".".to_string()],
        before_run_extensions: vec![],
        after_run_extensions: vec![],
    };
    assert_eq!(
        run_package(&p("/r"), &bad).err().unwrap(),
        "manifest.extension_dirs cannot contain '.' or empty path"
    );
    bad.run_command = "\t ".to_string();
    assert_eq!(run_package(&p("/r"), &bad).err().unwrap(), "Invalid manifest: run_command is empty");
}

#[test]
fn the_command_of_a_manifest_runs() {
    assert_eq!(
        steps(&run_main(&p("/r"), " node x", &envs())),
        vec!["step: Running:  node x", "run sh -c  node x in </r> PATH=/x or run command failed:  node x"]
    );
    assert_eq!(run_finished().message, "Run finished successfully");
    assert_eq!(run_finished().level, Level::Success);
}

#[test]
fn paths_of_recipes_have_host_names() {
    let names = parse_bundle_path("a/é").unwrap().names();
    assert_eq!(names, vec![b"a".to_vec(), "é".as_bytes().to_vec()]);
}

#[test]
fn phases_of_a_build_have_their_plans() {
    let build = BuildPlan {
        name: "app".to_string(),
        run_command: "go".to_string(),
        includes: vec![],
        excludes: vec![],
        managers: vec![PackageManagerSpec::Pnpm],
        auto_install: true,
        runtimes: vec![RuntimeSpec::Node { version: "1".to_string() }],
        packages: vec![],
        extensions: parse_extension_plan(None).unwrap(),
        deps: Some("get it".to_string()),
        build: Some("make it".to_string()),
        archive: p("/o/app.tortia"),
    };
    let stage = payload_dir(&p("/tmp/x"));
    assert_eq!(stage.display(), "/tmp/x/payload");
    let plan = |phase: Phase| build_phase_plan(phase, &build, &stage, "t", &envs(), true).map(|plan| steps(&plan));
    let make_parent = resolve_archive_path(&p("/o"), None, "app").1;
    assert_eq!(plan(Phase::ArchiveDir), Some(steps(&make_parent)));
    let mut make_stage = Plan::new();
    make_stage.create_dirs(&stage);
    assert_eq!(plan(Phase::Stage), Some(steps(&make_stage)));
    assert_eq!(plan(Phase::Shims), Some(steps(&prepare_runtime_shims(&stage, "t", &build.runtimes))));
    assert_eq!(plan(Phase::Managers), Some(steps(&ensure_package_managers(&stage, "t", &build.managers, &envs()))));
    assert_eq!(
        plan(Phase::DepsHook),
        Some(vec![
            "step: [deps] get it".to_string(),
            "run sh -c get it in </tmp/x/payload> PATH=/x or deps hook failed: get it".to_string(),
        ])
    );
    assert_eq!(
        plan(Phase::BuildHook),
        Some(vec![
            "step: [build] make it".to_string(),
            "run sh -c make it in </tmp/x/payload> PATH=/x or build hook failed: make it".to_string(),
        ])
    );
    assert_eq!(plan(Phase::Pack), Some(steps(&pack(&stage, &p("/o/app.tortia"), true))));
    assert_eq!(plan(Phase::Bundle), None);
    assert_eq!(plan(Phase::Main), None);

    let phase = Phase::Extensions(ExtensionEvent::AfterDeps);
    assert_eq!(plan(phase), None);
    let scripts = build_phase_scripts(phase, &p("/w"), &stage, &build.extensions).unwrap();
    assert_eq!(scripts.search_root.display(), "/w");
    assert_eq!(scripts.working_dir.display(), "/tmp/x/payload");
    assert_eq!(scripts.event, ExtensionEvent::AfterDeps);
    assert!(build_phase_scripts(Phase::Pack, &p("/w"), &stage, &build.extensions).is_none());
}

#[test]
fn phases_of_a_run_have_their_plans() {
    let plan = |phase: Phase| {
        run_phase_plan(phase, &p("/a.tortia"), &p("/r"), "go", &envs()).map(|plan| steps(&plan))
    };
    assert_eq!(plan(Phase::Unpack), Some(steps(&unpack(&p("/a.tortia"), &p("/r")))));
    assert_eq!(
        plan(Phase::Main),
        Some(vec!["step: Running: go".to_string(), "run sh -c go in </r> PATH=/x or run command failed: go".to_string()])
    );
    assert_eq!(plan(Phase::ReadManifest), None);
    let extensions = parse_extension_plan(None).unwrap();
    let phase = Phase::Extensions(ExtensionEvent::BeforeRun);
    assert_eq!(plan(phase), None);
    let scripts = run_phase_scripts(phase, &p("/r"), &extensions).unwrap();
    assert_eq!(scripts.search_root.display(), "/r");
    assert_eq!(scripts.working_dir.display(), "/r");
    assert_eq!(scripts.event, ExtensionEvent::BeforeRun);
    assert!(run_phase_scripts(Phase::Main, &p("/r"), &extensions).is_none());
}

/// The phases that a run begins after the manifest is read, and how it ends, where the commands in
/// `failing` fail.
fn run_with(failing: &[&str]) -> (Vec<String>, Result<(), String>) {
    let config = ExtensionsConfig {
        dirs: Some(vec!["e".to_string()]),
        before_deps: None,
        after_deps: None,
        before_build: None,
        after_build: None,
        before_run: Some(vec!["a.sh".to_string(), "b.sh".to_string()]),
        after_run: Some(vec!["c.sh".to_string()]),
    };
    let plan = parse_extension_plan(Some(&config)).unwrap();
    let mut begun = Vec::new();
    let mut course = run_course();
    while let Some(phase) = course.phase() {
        let error = if let Some(mut scripts) = run_phase_scripts(phase, &p("/r"), &plan) {
            while !scripts.over() {
                let script = scripts.tried()[0].copy();
                scripts.script(&envs(), &vec![script.copy()]).unwrap();
                begun.push(script.display());
                let fails = failing.contains(&script.display().as_str());
                scripts.ended(if fails { Some(script.display()) } else { None });
            }
            scripts.outcome().err()
        } else if phase == Phase::Main {
            begun.push("main".to_string());
            if failing.contains(&"main") { Some("main".to_string()) } else { None }
        } else {
            None
        };
        course.advance(error);
    }
    (begun, course.outcome())
}

#[test]
fn runs_succeed_with_all_their_commands() {
    let all = vec!["/r/e/a.sh", "/r/e/b.sh", "main", "/r/e/c.sh"];
    let (begun, outcome) = run_with(&[]);
    assert_eq!(begun, all);
    assert!(outcome.is_ok());
    for (i, failing) in all.iter().enumerate() {
        let (begun, outcome) = run_with(&[failing]);
        assert_eq!(begun, all[..i + 1]);
        assert_eq!(outcome.unwrap_err(), *failing);
    }
}
