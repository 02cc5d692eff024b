//! The way through the runtimes that go into a payload.
use vstd::prelude::*;
use vstd::string::*;
use vstd::utf8::encode_utf8;
use crate::command::{info_line, ArgView, Plan, StepView};
use crate::install::{
    bun, deno, go_folder, go_folder_name, go_names, go_platform, go_steps, install_bun_runtime, install_deno_runtime,
    install_go_runtime, install_node_runtime, install_python_runtime, install_rust_runtime, node_folder,
    node_folder_name, node_names, node_platform, node_steps, python_name, python_platform, python_steps, rust_steps,
    scripted_steps,
};
use crate::log::{log_info, Level, LogView};
use crate::paths::{
    inside, law_tools_stay_in_the_payload, lemma_further_inside, lemma_pieces_concat, lemma_stays_below, path_views,
    same_path, shown, stays_below, tools_dir, within, HostPath,
};
use crate::runtime::{runtime_views, RuntimeFamily, RuntimeSpec, RuntimeView};
use crate::text::{lemma_position, lemma_position_is, optional_text, pieces, texts};

verus! {

/// The directory of a runtime's commands, from the tools directory, or the error where the runtime
/// cannot be had for the host.
pub open spec fn bin_dir(runtime: RuntimeView, os: Seq<char>, arch: Seq<char>) -> Result<Seq<char>, Seq<char>> {
    match runtime {
        RuntimeView::Node { version } => match node_platform(os, arch) {
            Ok((o, a)) => Ok(node_folder(version, o, a) + "/bin"@),
            Err(e) => Err(e),
        },
        RuntimeView::Rust { toolchain } => Ok("cargo/bin"@),
        RuntimeView::Python { version } => match python_platform(os, arch) {
            Ok(platform) => Ok("miniconda/bin"@),
            Err(e) => Err(e),
        },
        RuntimeView::Go { version } => match go_platform(os, arch) {
            Ok((o, a)) => Ok(go_folder(version, o, a) + "/go/bin"@),
            Err(e) => Err(e),
        },
        RuntimeView::Deno { version } => Ok("deno"@ + "/bin"@),
        RuntimeView::Bun { version } => Ok("bun"@ + "/bin"@),
    }
}

/// The command whose presence tells that a runtime of a kind is installed.
pub open spec fn probe(family: RuntimeFamily) -> Seq<char> {
    match family {
        RuntimeFamily::Node => "node"@,
        RuntimeFamily::Rust => "rustup"@,
        RuntimeFamily::Python => "python"@,
        RuntimeFamily::Go => "go"@,
        RuntimeFamily::Deno => "deno"@,
        RuntimeFamily::Bun => "bun"@,
    }
}

/// The command that an installed runtime of a kind must have.
pub open spec fn main_command(family: RuntimeFamily) -> Seq<char> {
    if family == RuntimeFamily::Rust {
        "rustc"@
    } else {
        probe(family)
    }
}

/// The steps that install a runtime below `tools`, or the error where it cannot be had for the host.
pub open spec fn runtime_steps(
    tools: Seq<u8>,
    runtime: RuntimeView,
    os: Seq<char>,
    arch: Seq<char>,
    present: bool,
) -> Result<Seq<StepView>, Seq<char>> {
    match runtime {
        RuntimeView::Node { version } => match node_platform(os, arch) {
            Ok((o, a)) => Ok(node_steps(tools, version, o, a, present)),
            Err(e) => Err(e),
        },
        RuntimeView::Rust { toolchain } => Ok(rust_steps(tools, toolchain, present)),
        RuntimeView::Python { version } => match python_platform(os, arch) {
            Ok(platform) => Ok(python_steps(tools, version, platform, present)),
            Err(e) => Err(e),
        },
        RuntimeView::Go { version } => match go_platform(os, arch) {
            Ok((o, a)) => Ok(go_steps(tools, version, o, a, present)),
            Err(e) => Err(e),
        },
        RuntimeView::Deno { version } => Ok(scripted_steps(tools, deno(), version, present)),
        RuntimeView::Bun { version } => Ok(scripted_steps(tools, bun(), version, present)),
    }
}

/// The directory of a runtime's commands, from the tools directory.
pub fn runtime_bin_dir(runtime: &RuntimeSpec, os: &str, arch: &str) -> (r: Result<String, String>)
    ensures
        match r {
            Ok(dir) => bin_dir(runtime@, os@, arch@) == Ok::<Seq<char>, Seq<char>>(dir@),
            Err(e) => bin_dir(runtime@, os@, arch@) == Err::<Seq<char>, Seq<char>>(e@),
        },
{
    match runtime {
        RuntimeSpec::Node { version } => match node_names(os, arch) {
            Ok((o, a)) => Ok(node_folder_name(version.as_str(), o, a).concat("/bin")),
            Err(e) => Err(e),
        },
        RuntimeSpec::Rust { .. } => Ok("cargo/bin".to_string()),
        RuntimeSpec::Python { .. } => match python_name(os, arch) {
            Ok(_) => Ok("miniconda/bin".to_string()),
            Err(e) => Err(e),
        },
        RuntimeSpec::Go { version } => match go_names(os, arch) {
            Ok((o, a)) => Ok(go_folder_name(version.as_str(), o, a).concat("/go/bin")),
            Err(e) => Err(e),
        },
        RuntimeSpec::Deno { .. } => Ok("deno".to_string().concat("/bin")),
        RuntimeSpec::Bun { .. } => Ok("bun".to_string().concat("/bin")),
    }
}

/// The command whose presence tells that a runtime of a kind is installed.
fn probe_name(family: RuntimeFamily) -> (r: &'static str)
    ensures
        r@ == probe(family),
{
    match family {
        RuntimeFamily::Node => "node",
        RuntimeFamily::Rust => "rustup",
        RuntimeFamily::Python => "python",
        RuntimeFamily::Go => "go",
        RuntimeFamily::Deno => "deno",
        RuntimeFamily::Bun => "bun",
    }
}

/// The steps that install a runtime below `tools_root`; `present` tells whether its command is there.
pub fn install_runtime(tools_root: &HostPath, runtime: &RuntimeSpec, os: &str, arch: &str, present: bool) -> (r: Result<
    Plan,
    String,
>)
    ensures
        match r {
            Ok(plan) => runtime_steps(tools_root@, runtime@, os@, arch@, present) == Ok::<Seq<StepView>, Seq<char>>(
                plan@,
            ),
            Err(e) => runtime_steps(tools_root@, runtime@, os@, arch@, present) == Err::<Seq<StepView>, Seq<char>>(
                e@,
            ),
        },
{
    match runtime {
        RuntimeSpec::Node { version } => install_node_runtime(tools_root, version.as_str(), os, arch, present),
        RuntimeSpec::Rust { toolchain } => Ok(install_rust_runtime(tools_root, toolchain.as_str(), present)),
        RuntimeSpec::Python { version } => install_python_runtime(tools_root, version, os, arch, present),
        RuntimeSpec::Go { version } => install_go_runtime(tools_root, version.as_str(), os, arch, present),
        RuntimeSpec::Deno { version } => Ok(install_deno_runtime(tools_root, version, present)),
        RuntimeSpec::Bun { version } => Ok(install_bun_runtime(tools_root, version, present)),
    }
}

/// Whether one of the directories `dirs` of the tools is the directory `dir`.
pub open spec fn has_dir(tools: Seq<u8>, dirs: Seq<Seq<char>>, dir: Seq<char>) -> bool {
    exists|i: int| 0 <= i < dirs.len() && same_path(within(tools, #[trigger] dirs[i]), within(tools, dir))
}

/// The directories with one more, unless it is among them.
pub open spec fn with_dir(tools: Seq<u8>, dirs: Seq<Seq<char>>, dir: Seq<char>) -> Seq<Seq<char>> {
    if has_dir(tools, dirs, dir) {
        dirs
    } else {
        dirs.push(dir)
    }
}

/// The directories of the runtimes' commands, from the tools directory: each one once, in the order of
/// the runtimes. The error is that of the first runtime that cannot be had.
pub open spec fn bin_dirs(tools: Seq<u8>, runtimes: Seq<RuntimeView>, os: Seq<char>, arch: Seq<char>) -> Result<
    Seq<Seq<char>>,
    Seq<char>,
>
    decreases runtimes.len(),
{
    if runtimes.len() == 0 {
        Ok(Seq::empty())
    } else {
        match bin_dirs(tools, runtimes.drop_last(), os, arch) {
            Err(e) => Err(e),
            Ok(dirs) => match bin_dir(runtimes.last(), os, arch) {
                Err(e) => Err(e),
                Ok(dir) => Ok(with_dir(tools, dirs, dir)),
            },
        }
    }
}

/// The work on the runtimes that go into a payload.
pub struct RuntimeRun<'a> {
    pub tools_root: HostPath,
    pub runtimes: &'a Vec<RuntimeSpec>,
    pub os: String,
    pub arch: String,
    /// The index of the runtime at hand.
    pub next: usize,
    /// The directories of the commands of the runtimes before it, from the tools directory.
    pub dirs: Vec<String>,
    pub error: Option<String>,
}

/// The work on the runtimes that go into a payload.
pub struct RuntimeRunView {
    pub tools: Seq<u8>,
    pub runtimes: Seq<RuntimeView>,
    pub os: Seq<char>,
    pub arch: Seq<char>,
    pub next: int,
    pub dirs: Seq<Seq<char>>,
    pub error: Option<Seq<char>>,
}

impl<'a> View for RuntimeRun<'a> {
    type V = RuntimeRunView;

    open spec fn view(&self) -> RuntimeRunView {
        RuntimeRunView {
            tools: self.tools_root@,
            runtimes: runtime_views(self.runtimes@),
            os: self.os@,
            arch: self.arch@,
            next: self.next as int,
            dirs: texts(self.dirs@),
            error: optional_text(self.error),
        }
    }
}

impl RuntimeRunView {
    /// The work before the first runtime.
    pub open spec fn start(
        tools: Seq<u8>,
        runtimes: Seq<RuntimeView>,
        os: Seq<char>,
        arch: Seq<char>,
    ) -> RuntimeRunView {
        RuntimeRunView { tools, runtimes, os, arch, next: 0, dirs: Seq::empty(), error: None }
    }

    /// What the work keeps to: the directories are those of the runtimes before the one at hand.
    pub open spec fn valid(self) -> bool {
        &&& 0 <= self.next <= self.runtimes.len()
        &&& bin_dirs(self.tools, self.runtimes.take(self.next), self.os, self.arch) == Ok::<
            Seq<Seq<char>>,
            Seq<char>,
        >(self.dirs)
    }

    /// Whether all runtimes are dealt with, or one has failed.
    pub open spec fn over(self) -> bool {
        self.error is Some || self.next >= self.runtimes.len()
    }

    /// The command that tells whether the runtime at hand is installed, or the error where that
    /// runtime cannot be had for the host.
    pub open spec fn probed(self) -> Result<Seq<u8>, Seq<char>> {
        let runtime = self.runtimes[self.next];
        match bin_dir(runtime, self.os, self.arch) {
            Ok(dir) => Ok(within(within(self.tools, dir), probe(runtime.family()))),
            Err(e) => Err(e),
        }
    }

    /// The work when a runtime has failed with an error.
    pub open spec fn failed(self, error: Seq<char>) -> RuntimeRunView {
        RuntimeRunView { error: Some(error), ..self }
    }

    /// The work when the installation of the runtime at hand is begun: one that cannot be had has
    /// failed.
    pub open spec fn begun(self) -> RuntimeRunView {
        match bin_dir(self.runtimes[self.next], self.os, self.arch) {
            Ok(dir) => RuntimeRunView {
                next: self.next + 1,
                dirs: with_dir(self.tools, self.dirs, dir),
                ..self
            },
            Err(e) => self.failed(e),
        }
    }

    /// The work after the runtime at hand, whose installation has succeeded, or failed with an error.
    pub open spec fn after(self, ended: Option<Seq<char>>) -> RuntimeRunView {
        if self.over() {
            self
        } else {
            match ended {
                Some(error) if self.begun().error is None => self.begun().failed(error),
                _ => self.begun(),
            }
        }
    }

    /// The work after a number of runtimes.
    pub open spec fn after_all(self, results: Seq<Option<Seq<char>>>) -> RuntimeRunView
        decreases results.len(),
    {
        if results.len() == 0 {
            self
        } else {
            self.after_all(results.drop_last()).after(results.last())
        }
    }
}

/// Starts the work on the runtimes that go into the payload `stage_root`, whose tools directory is
/// `tools`; the plan comes before the first of them.
pub fn ensure_runtimes<'a>(
    stage_root: &HostPath,
    tools: &str,
    runtimes: &'a Vec<RuntimeSpec>,
    os: &str,
    arch: &str,
) -> (r: (RuntimeRun<'a>, Plan))
    ensures
        r.0@ == RuntimeRunView::start(within(stage_root@, tools@), runtime_views(runtimes@), os@, arch@),
        r.0@.valid(),
        runtimes@.len() == 0 ==> r.1@ == seq![info_line("No runtimes requested"@)],
        runtimes@.len() > 0 ==> r.1@ == seq![StepView::CreateDirs(within(stage_root@, tools@))],
{
    let tools_root = stage_root.join(tools);
    let mut plan = Plan::new();
    if runtimes.len() == 0 {
        plan.log(log_info("No runtimes requested"));
    } else {
        plan.create_dirs(&tools_root);
    }
    let run = RuntimeRun {
        tools_root,
        runtimes,
        os: os.to_string(),
        arch: arch.to_string(),
        next: 0,
        dirs: Vec::new(),
        error: None,
    };
    assert(run@.dirs =~= Seq::empty());
    assert(run@.runtimes.take(0) =~= Seq::empty());
    (run, plan)
}

impl<'a> RuntimeRun<'a> {
    /// Whether all runtimes are dealt with, or one has failed.
    pub fn over(&self) -> (r: bool)
        ensures
            r == self@.over(),
    {
        self.error.is_some() || self.next >= self.runtimes.len()
    }

    /// The command that tells whether the runtime at hand is installed.
    pub fn probe(&self) -> (r: Result<HostPath, String>)
        requires
            !self@.over(),
        ensures
            match r {
                Ok(path) => self@.probed() == Ok::<Seq<u8>, Seq<char>>(path@),
                Err(e) => self@.probed() == Err::<Seq<u8>, Seq<char>>(e@),
            },
    {
        let runtime = &self.runtimes[self.next];
        match runtime_bin_dir(runtime, self.os.as_str(), self.arch.as_str()) {
            Ok(dir) => Ok(self.tools_root.join(dir.as_str()).join(probe_name(runtime.family()))),
            Err(e) => Err(e),
        }
    }

    /// Whether the directory `dir` is among those of the runtimes so far.
    fn has(&self, dir: &str) -> (r: bool)
        ensures
            r == has_dir(self@.tools, self@.dirs, dir@),
    {
        let path = self.tools_root.join(dir);
        let mut i: usize = 0;
        while i < self.dirs.len()
            invariant
                i <= self.dirs.len(),
                path@ == within(self@.tools, dir@),
                forall|j: int|
                    0 <= j < i ==> !same_path(within(self@.tools, #[trigger] self@.dirs[j]), path@),
            decreases self.dirs.len() - i,
        {
            assert(self@.dirs[i as int] == self.dirs@[i as int]@);
            if self.tools_root.join(self.dirs[i].as_str()).same_as(&path) {
                return true;
            }
            i = i + 1;
        }
        false
    }

    /// Goes on to the next runtime, with the steps that install the one at hand; `present` tells
    /// whether its command is there. Where it cannot be had there are none, and the work has failed;
    /// where the steps fail, [`failed`](Self::failed) takes note of it.
    pub fn advance(&mut self, present: bool) -> (r: Option<Plan>)
        requires
            !old(self)@.over(),
            old(self)@.valid(),
        ensures
            final(self)@ == old(self)@.begun(),
            final(self)@.valid(),
            match runtime_steps(
                old(self)@.tools,
                old(self)@.runtimes[old(self)@.next],
                old(self)@.os,
                old(self)@.arch,
                present,
            ) {
                Ok(steps) => r matches Some(plan) && plan@ == steps && final(self)@.error is None,
                Err(error) => r is None && final(self)@.error == Some(error),
            },
    {
        let runtimes = self.runtimes;
        let runtime = &runtimes[self.next];
        let ghost before = self@;
        assert(runtime@ == before.runtimes[before.next]);
        let dir = match runtime_bin_dir(runtime, self.os.as_str(), self.arch.as_str()) {
            Ok(dir) => dir,
            Err(e) => {
                self.error = Some(e);
                return None;
            },
        };
        let plan = match install_runtime(&self.tools_root, runtime, self.os.as_str(), self.arch.as_str(), present) {
            Ok(plan) => plan,
            Err(e) => {
                self.error = Some(e);
                return None;
            },
        };
        if !self.has(dir.as_str()) {
            self.dirs.push(dir);
            assert(self@.dirs =~= before.dirs.push(dir@));
        }
        let n: usize = self.runtimes.len();
        assert(self.next < n);
        self.next = self.next + 1;
        assert(self@ == before.begun());
        assert(before.runtimes.take(before.next + 1).drop_last() =~= before.runtimes.take(before.next));
        assert(before.runtimes.take(before.next + 1).last() == runtime@);
        Some(plan)
    }

    /// Notes that the installation of a runtime has failed with an error: no other is begun.
    pub fn failed(&mut self, error: String)
        requires
            old(self)@.valid(),
        ensures
            final(self)@ == old(self)@.failed(error@),
            final(self)@.over(),
            final(self)@.valid(),
    {
        self.error = Some(error);
    }

    /// How the work ended, or stands.
    pub fn outcome(&self) -> (r: Result<(), String>)
        ensures
            match r {
                Ok(_) => self@.error is None,
                Err(e) => self@.error == Some(e@),
            },
    {
        match &self.error {
            Some(e) => Err(e.clone()),
            None => Ok(()),
        }
    }

    /// The directories of the commands of the runtimes so far.
    pub fn bins(&self) -> (r: Vec<HostPath>)
        ensures
            path_views(r@) == self@.dirs.map_values(|dir: Seq<char>| within(self@.tools, dir)),
    {
        let ghost all = self@.dirs.map_values(|dir: Seq<char>| within(self@.tools, dir));
        let mut bins: Vec<HostPath> = Vec::new();
        let mut i: usize = 0;
        assert(path_views(bins@) =~= all.take(0));
        while i < self.dirs.len()
            invariant
                i <= self.dirs.len(),
                all == self@.dirs.map_values(|dir: Seq<char>| within(self@.tools, dir)),
                path_views(bins@) == all.take(i as int),
            decreases self.dirs.len() - i,
        {
            let ghost before = path_views(bins@);
            let bin = self.tools_root.join(self.dirs[i].as_str());
            bins.push(bin);
            assert(all[i as int] == bin@);
            assert(path_views(bins@) =~= before.push(bin@));
            i = i + 1;
            assert(path_views(bins@) =~= all.take(i as int));
        }
        assert(all.take(i as int) =~= all);
        bins
    }
}

/// A runtime that fails is the last: none that comes after it is begun.
pub proof fn law_runtimes_stop_at_a_failure(run: RuntimeRunView, results: Seq<Option<Seq<char>>>)
    requires
        run.error is Some,
    ensures
        run.over(),
        run.after_all(results) == run,
    decreases results.len(),
{
    if results.len() > 0 {
        law_runtimes_stop_at_a_failure(run, results.drop_last());
    }
}

/// Runtimes are installed in the order of the list, each only when all before it were installed; work
/// that ends without an error has installed them all, and lists the directories of all.
pub proof fn law_runtimes_are_installed_in_order(start: RuntimeRunView, results: Seq<Option<Seq<char>>>)
    requires
        start.valid(),
        start.next == 0,
        start.error is None,
    ensures
        ({
            let run = start.after_all(results);
            &&& run.valid()
            &&& run == (RuntimeRunView { next: run.next, dirs: run.dirs, error: run.error, ..start })
            &&& run.next <= results.len()
            &&& !run.over() ==> run.next == results.len()
            &&& forall|i: int| 0 <= i < run.next - 1 ==> (#[trigger] results[i]) is None
            &&& run.error is None && run.next > 0 ==> results[run.next - 1] is None
            &&& run.error matches Some(e) ==> {
                ||| run.next > 0 && results[run.next - 1] == Some(e)
                ||| run.next < run.runtimes.len() && bin_dir(run.runtimes[run.next], run.os, run.arch) == Err::<
                    Seq<char>,
                    Seq<char>,
                >(e)
            }
            &&& run.error is None && run.over() ==> bin_dirs(start.tools, start.runtimes, start.os, start.arch)
                == Ok::<Seq<Seq<char>>, Seq<char>>(run.dirs)
        }),
    decreases results.len(),
{
    if results.len() > 0 {
        let front = results.drop_last();
        law_runtimes_are_installed_in_order(start, front);
        let before = start.after_all(front);
        let run = start.after_all(results);
        assert(run == before.after(results.last()));
        if !before.over() {
            assert(before.runtimes.take(before.next + 1).drop_last() =~= before.runtimes.take(before.next));
            assert(before.runtimes.take(before.next + 1).last() == before.runtimes[before.next]);
        }
        assert forall|i: int| 0 <= i < run.next - 1 implies (#[trigger] results[i]) is None by {
            assert(front[i] == results[i]);
        }
        if before.over() && before.next > 0 {
            assert(front[before.next - 1] == results[before.next - 1]);
        }
    }
    let run = start.after_all(results);
    if run.next == run.runtimes.len() {
        assert(run.runtimes.take(run.next) =~= start.runtimes);
    }
}

/// The runtimes are all installed if and only if each can be had for the host and each installation
/// succeeds.
pub proof fn law_runtimes_succeed_together(start: RuntimeRunView, results: Seq<Option<Seq<char>>>)
    requires
        start.valid(),
        start.next == 0,
        start.error is None,
        start.after_all(results).over(),
    ensures
        start.after_all(results).error is None <==> {
            &&& bin_dirs(start.tools, start.runtimes, start.os, start.arch) is Ok
            &&& results.len() >= start.runtimes.len()
            &&& forall|i: int| 0 <= i < start.runtimes.len() ==> (#[trigger] results[i]) is None
        },
{
    law_runtimes_are_installed_in_order(start, results);
    let run = start.after_all(results);
    if run.error is Some && bin_dirs(start.tools, start.runtimes, start.os, start.arch) is Ok && run.next
        < run.runtimes.len() {
        law_every_runtime_is_listed(start.tools, start.runtimes, start.os, start.arch, run.next);
    }
    if run.error is None {
        assert forall|i: int| 0 <= i < start.runtimes.len() implies (#[trigger] results[i]) is None by {
            assert(i < run.next - 1 || i == run.next - 1);
        }
    }
}

/// No directory of commands is listed twice.
pub proof fn law_bin_dirs_are_distinct(
    tools: Seq<u8>,
    runtimes: Seq<RuntimeView>,
    os: Seq<char>,
    arch: Seq<char>,
)
    requires
        bin_dirs(tools, runtimes, os, arch) is Ok,
    ensures
        forall|i: int, j: int|
            #![trigger bin_dirs(tools, runtimes, os, arch)->Ok_0[i], bin_dirs(tools, runtimes, os, arch)->Ok_0[j]]
            0 <= i < j < bin_dirs(tools, runtimes, os, arch)->Ok_0.len() ==> !same_path(
                within(tools, bin_dirs(tools, runtimes, os, arch)->Ok_0[i]),
                within(tools, bin_dirs(tools, runtimes, os, arch)->Ok_0[j]),
            ),
    decreases runtimes.len(),
{
    if runtimes.len() > 0 {
        law_bin_dirs_are_distinct(tools, runtimes.drop_last(), os, arch);
    }
}

/// Every runtime has the directory of its commands on the list.
pub proof fn law_every_runtime_is_listed(
    tools: Seq<u8>,
    runtimes: Seq<RuntimeView>,
    os: Seq<char>,
    arch: Seq<char>,
    k: int,
)
    requires
        bin_dirs(tools, runtimes, os, arch) is Ok,
        0 <= k < runtimes.len(),
    ensures
        bin_dir(runtimes[k], os, arch) is Ok,
        has_dir(tools, bin_dirs(tools, runtimes, os, arch)->Ok_0, bin_dir(runtimes[k], os, arch)->Ok_0),
    decreases runtimes.len(),
{
    let all = bin_dirs(tools, runtimes, os, arch)->Ok_0;
    let front = runtimes.drop_last();
    let before = bin_dirs(tools, front, os, arch)->Ok_0;
    if k < front.len() {
        law_every_runtime_is_listed(tools, front, os, arch, k);
        let dir = bin_dir(runtimes[k], os, arch)->Ok_0;
        assert(front[k] == runtimes[k]);
        let i = choose|i: int|
            0 <= i < before.len() && same_path(within(tools, #[trigger] before[i]), within(tools, dir));
        assert(all[i] == before[i]);
    } else {
        let dir = bin_dir(runtimes.last(), os, arch)->Ok_0;
        if !has_dir(tools, before, dir) {
            assert(all[before.len() as int] == dir);
        }
    }
}

/// Every directory on the list is that of a runtime.
pub proof fn lemma_listed_dirs(tools: Seq<u8>, runtimes: Seq<RuntimeView>, os: Seq<char>, arch: Seq<char>, i: int)
    requires
        bin_dirs(tools, runtimes, os, arch) is Ok,
        0 <= i < bin_dirs(tools, runtimes, os, arch)->Ok_0.len(),
    ensures
        exists|k: int|
            0 <= k < runtimes.len() && bin_dir(#[trigger] runtimes[k], os, arch) == Ok::<Seq<char>, Seq<char>>(
                bin_dirs(tools, runtimes, os, arch)->Ok_0[i],
            ),
    decreases runtimes.len(),
{
    let front = runtimes.drop_last();
    let before = bin_dirs(tools, front, os, arch)->Ok_0;
    if i < before.len() {
        lemma_listed_dirs(tools, front, os, arch, i);
        let k = choose|k: int|
            0 <= k < front.len() && bin_dir(#[trigger] front[k], os, arch) == Ok::<Seq<char>, Seq<char>>(before[i]);
        assert(runtimes[k] == front[k]);
    } else {
        assert(runtimes[runtimes.len() - 1] == runtimes.last());
    }
}

/// A directory of commands is a relative path.
pub proof fn lemma_bin_dir_is_relative(runtime: RuntimeView, os: Seq<char>, arch: Seq<char>)
    requires
        bin_dir(runtime, os, arch) is Ok,
    ensures
        bin_dir(runtime, os, arch)->Ok_0.len() > 0,
        bin_dir(runtime, os, arch)->Ok_0[0] != '/',
{
    reveal_strlit("node-v");
    reveal_strlit("go-");
    reveal_strlit("cargo/bin");
    reveal_strlit("miniconda/bin");
    reveal_strlit("deno");
    reveal_strlit("bun");
    let dir = bin_dir(runtime, os, arch)->Ok_0;
    match runtime {
        RuntimeView::Node { version } => {
            assert(dir[0] == 'n');
        },
        RuntimeView::Go { version } => {
            assert(dir[0] == 'g');
        },
        RuntimeView::Deno { version } => {
            assert(dir[0] == 'd');
        },
        RuntimeView::Bun { version } => {
            assert(dir[0] == 'b');
        },
        _ => {},
    }
}

/// Whether the version of a runtime whose directory is named after it holds no slash.
pub open spec fn plain(runtime: RuntimeView) -> bool {
    match runtime {
        RuntimeView::Node { version } => !version.contains('/'),
        RuntimeView::Go { version } => !version.contains('/'),
        _ => true,
    }
}

/// The segments of a text without a slash.
proof fn lemma_one_segment(text: Seq<char>)
    requires
        !text.contains('/'),
    ensures
        pieces(text, '/') == seq![text],
{
    lemma_position(text, '/');
    lemma_position_is(text, '/', text.len() as int);
    assert(pieces(text, '/') =~= seq![text]);
}

/// The directory `bin` of a directory that stays below, as text.
proof fn lemma_bin_stays_below(folder: Seq<char>)
    requires
        folder.len() > 2,
        !folder.contains('/'),
    ensures
        stays_below(folder + "/bin"@),
        stays_below(folder + "/go/bin"@),
{
    reveal_strlit("/bin");
    reveal_strlit("/go/bin");
    reveal_strlit("..");
    let bin = seq!['b', 'i', 'n'];
    let go = seq!['g', 'o'];
    assert("/bin"@ =~= seq!['/'] + bin);
    assert("/go/bin"@ =~= seq!['/'] + (go + seq!['/'] + bin));
    lemma_one_segment(folder);
    lemma_one_segment(bin);
    lemma_one_segment(go);
    lemma_pieces_concat(folder, bin, '/');
    lemma_pieces_concat(go, bin, '/');
    lemma_pieces_concat(folder, go + seq!['/'] + bin, '/');
    assert(folder + "/bin"@ =~= folder + seq!['/'] + bin);
    assert(folder + "/go/bin"@ =~= folder + seq!['/'] + (go + seq!['/'] + bin));
    assert(folder.contains(folder[0]));
    assert((folder + "/bin"@)[0] == folder[0]);
    assert((folder + "/go/bin"@)[0] == folder[0]);
    let up = ".."@;
    assert(up[0] != bin[0] && up[0] != go[0] && up.len() != folder.len());
}

/// The directory of a runtime's commands does not lead up where its version holds no slash.
pub proof fn law_plain_versions_stay_below(runtime: RuntimeView, os: Seq<char>, arch: Seq<char>)
    requires
        bin_dir(runtime, os, arch) is Ok,
        plain(runtime),
    ensures
        stays_below(bin_dir(runtime, os, arch)->Ok_0),
{
    reveal_strlit("node-v");
    reveal_strlit("go-");
    reveal_strlit("-");
    reveal_strlit("darwin");
    reveal_strlit("linux");
    reveal_strlit("x64");
    reveal_strlit("arm64");
    reveal_strlit("amd64");
    reveal_strlit("cargo/bin");
    reveal_strlit("miniconda/bin");
    reveal_strlit("deno");
    reveal_strlit("bun");
    reveal_strlit("/bin");
    match runtime {
        RuntimeView::Node { version } => {
            let (o, a) = node_platform(os, arch)->Ok_0;
            let folder = node_folder(version, o, a);
            lemma_no_slash("node-v"@ + version + "-"@ + o + "-"@, a);
            lemma_no_slash("node-v"@ + version + "-"@ + o, "-"@);
            lemma_no_slash("node-v"@ + version + "-"@, o);
            lemma_no_slash("node-v"@ + version, "-"@);
            lemma_no_slash("node-v"@, version);
            lemma_bin_stays_below(folder);
        },
        RuntimeView::Go { version } => {
            let (o, a) = go_platform(os, arch)->Ok_0;
            let folder = go_folder(version, o, a);
            lemma_no_slash("go-"@ + version + "-"@ + o + "-"@, a);
            lemma_no_slash("go-"@ + version + "-"@ + o, "-"@);
            lemma_no_slash("go-"@ + version + "-"@, o);
            lemma_no_slash("go-"@ + version, "-"@);
            lemma_no_slash("go-"@, version);
            lemma_bin_stays_below(folder);
        },
        RuntimeView::Rust { toolchain } => {
            let folder = seq!['c', 'a', 'r', 'g', 'o'];
            lemma_bin_stays_below(folder);
            assert("cargo/bin"@ =~= folder + "/bin"@);
        },
        RuntimeView::Python { version } => {
            let folder = seq!['m', 'i', 'n', 'i', 'c', 'o', 'n', 'd', 'a'];
            lemma_bin_stays_below(folder);
            assert("miniconda/bin"@ =~= folder + "/bin"@);
        },
        RuntimeView::Deno { version } => {
            lemma_bin_stays_below("deno"@);
        },
        RuntimeView::Bun { version } => {
            lemma_bin_stays_below("bun"@);
        },
    }
}

/// Two texts without a slash, one after the other, hold none.
proof fn lemma_no_slash(a: Seq<char>, b: Seq<char>)
    ensures
        !a.contains('/') && !b.contains('/') ==> !(a + b).contains('/'),
{
    if !a.contains('/') && !b.contains('/') {
        assert forall|i: int| 0 <= i < (a + b).len() implies (a + b)[i] != '/' by {
            if i < a.len() {
                assert(a.contains(a[i]));
            } else {
                assert(b.contains(b[i - a.len()]));
            }
        }
    }
}

/// Whatever the environment says, the commands of a runtime lie in the payload, unless its version
/// makes a directory that leads up.
pub proof fn law_runtimes_stay_in_the_payload(
    root: Seq<u8>,
    raw: Option<Seq<char>>,
    runtime: RuntimeView,
    os: Seq<char>,
    arch: Seq<char>,
)
    requires
        bin_dir(runtime, os, arch) is Ok,
        stays_below(bin_dir(runtime, os, arch)->Ok_0),
    ensures
        inside(root, within(within(root, tools_dir(raw)), bin_dir(runtime, os, arch)->Ok_0)),
{
    let dir = bin_dir(runtime, os, arch)->Ok_0;
    law_tools_stay_in_the_payload(root, raw);
    lemma_stays_below(dir);
    lemma_further_inside(root, within(root, tools_dir(raw)), encode_utf8(dir));
}

/// Nothing is fetched for a runtime that is installed, unless it is Deno or Bun in a given version.
pub proof fn law_installed_runtimes_are_not_fetched(
    tools: Seq<u8>,
    runtime: RuntimeView,
    os: Seq<char>,
    arch: Seq<char>,
)
    requires
        runtime_steps(tools, runtime, os, arch, true) is Ok,
        runtime matches RuntimeView::Deno { version } ==> version is None,
        runtime matches RuntimeView::Bun { version } ==> version is None,
    ensures
        forall|i: int|
            0 <= i < runtime_steps(tools, runtime, os, arch, true)->Ok_0.len() ==> !((
            #[trigger] runtime_steps(tools, runtime, os, arch, true)->Ok_0[i]) is Download),
{
}

/// A runtime that is not installed is fetched, and the plan for it fails unless the command of the
/// runtime is there in the end.
pub proof fn law_installation_is_checked(tools: Seq<u8>, runtime: RuntimeView, os: Seq<char>, arch: Seq<char>)
    requires
        runtime_steps(tools, runtime, os, arch, false) is Ok,
    ensures
        bin_dir(runtime, os, arch) is Ok,
        exists|i: int|
            0 <= i < runtime_steps(tools, runtime, os, arch, false)->Ok_0.len() && (
            #[trigger] runtime_steps(tools, runtime, os, arch, false)->Ok_0[i]) is Download,
        ({
            let steps = runtime_steps(tools, runtime, os, arch, false)->Ok_0;
            let checked = steps[steps.len() - 2];
            checked is Require && checked->Require_path == within(
                within(tools, bin_dir(runtime, os, arch)->Ok_0),
                main_command(runtime.family()),
            )
        }),
{
    let steps = runtime_steps(tools, runtime, os, arch, false)->Ok_0;
    let bin = within(tools, bin_dir(runtime, os, arch)->Ok_0);
    match runtime {
        RuntimeView::Node { version } => {
            assert(steps[1] is Download);
            assert(steps[steps.len() - 2]->Require_path == within(bin, "node"@));
        },
        RuntimeView::Rust { toolchain } => {
            assert(steps[3] is Download);
            assert(steps[steps.len() - 2]->Require_path == within(bin, "rustc"@));
        },
        RuntimeView::Python { version } => {
            assert(steps[1] is Download);
            assert(steps[steps.len() - 2]->Require_path == within(bin, "python"@));
        },
        RuntimeView::Go { version } => {
            assert(steps[2] is Download);
            assert(steps[steps.len() - 2]->Require_path == within(bin, "go"@));
        },
        RuntimeView::Deno { version } => {
            assert(steps[2] is Download);
            assert(steps[steps.len() - 2]->Require_path == within(bin, "deno"@));
        },
        RuntimeView::Bun { version } => {
            assert(steps[2] is Download);
            assert(steps[steps.len() - 2]->Require_path == within(bin, "bun"@));
        },
    }
}

/// Whether a plan downloads one file: from `url`, to `destination`, under the name `key` in the cache.
pub open spec fn one_download(steps: Seq<StepView>, url: Seq<char>, key: Seq<char>, destination: Seq<u8>) -> bool {
    exists|k: int|
        0 <= k < steps.len() && (#[trigger] steps[k]) is Download && steps[k]->Download_url == url
            && steps[k]->Download_cache_key == key && steps[k]->Download_destination == destination && forall|j: int|
            0 <= j < steps.len() && (#[trigger] steps[j]) is Download ==> j == k
}

/// Whether a step runs a command: this one, in `dir` with the variables `envs`; `left` is the file that is
/// removed when it has ended.
pub open spec fn runs(
    step: StepView,
    program: ArgView,
    args: Seq<ArgView>,
    dir: Seq<u8>,
    envs: Seq<(Seq<char>, ArgView)>,
    left: Option<Seq<u8>>,
) -> bool {
    &&& step is Run
    &&& step->Run_command.program == program
    &&& step->Run_command.args == args
    &&& step->Run_command.dir == Some(dir)
    &&& step->Run_command.envs == envs
    &&& step->Run_cleanup == left
}

/// Whether a plan runs one command: this one.
pub open spec fn only_command(
    steps: Seq<StepView>,
    program: ArgView,
    args: Seq<ArgView>,
    dir: Seq<u8>,
    envs: Seq<(Seq<char>, ArgView)>,
    left: Option<Seq<u8>>,
) -> bool {
    exists|k: int|
        0 <= k < steps.len() && runs(#[trigger] steps[k], program, args, dir, envs, left) && forall|j: int|
            0 <= j < steps.len() && (#[trigger] steps[j]) is Run ==> j == k
}

/// Whether a plan ends with a check that a file is there, before its last line.
pub open spec fn checks(steps: Seq<StepView>, path: Seq<u8>) -> bool {
    &&& steps.len() >= 2
    &&& steps[steps.len() - 2] is Require
    &&& steps[steps.len() - 2]->Require_path == path
    &&& steps.last() is Log
}

/// The version of Deno that is asked for is the one that is installed, whether or not the command is
/// there: the plan runs one command, the script that it has downloaded, with the version as its only
/// argument. Without a version the script gets no argument, and nothing is done where the command is
/// there.
pub proof fn law_deno_is_installed_as_asked(
    tools: Seq<u8>,
    version: Option<Seq<char>>,
    os: Seq<char>,
    arch: Seq<char>,
    present: bool,
)
    ensures
        runtime_steps(tools, RuntimeView::Deno { version }, os, arch, present) matches Ok(steps) && {
            let script = within(tools, "deno-install.sh"@);
            if present && version is None {
                forall|i: int| 0 <= i < steps.len() ==> (#[trigger] steps[i]) is Log
            } else {
                &&& one_download(steps, "https://deno.land/install.sh"@, "scripts/"@ + "deno-install.sh"@, script)
                &&& only_command(
                    steps,
                    ArgView::Text("sh"@),
                    match version {
                        Some(v) => seq![ArgView::Path(script), ArgView::Text("v"@ + v)],
                        None => seq![ArgView::Path(script)],
                    },
                    tools,
                    seq![
                        ("DENO_INSTALL"@, ArgView::Path(within(tools, "deno"@))),
                        ("PATH"@, ArgView::Text("/usr/bin:/bin:/usr/sbin:/sbin"@)),
                    ],
                    Some(script),
                )
                &&& checks(steps, within(within(tools, "deno"@ + "/bin"@), "deno"@))
            }
        },
{
    let steps = runtime_steps(tools, RuntimeView::Deno { version }, os, arch, present)->Ok_0;
    let script = within(tools, "deno-install.sh"@);
    if !(present && version is None) {
        assert(steps[2] is Download && steps[3] is Run && steps[4] is Require);
        let command = steps[3]->Run_command;
        assert(command.args =~= match version {
            Some(v) => seq![ArgView::Path(script), ArgView::Text("v"@ + v)],
            None => seq![ArgView::Path(script)],
        });
        assert(command.envs =~= seq![
            ("DENO_INSTALL"@, ArgView::Path(within(tools, "deno"@))),
            ("PATH"@, ArgView::Text("/usr/bin:/bin:/usr/sbin:/sbin"@)),
        ]);
    }
}

/// The version of Bun that is asked for is the one that is installed, whether or not the command is
/// there: the plan runs one command, the script that it has downloaded, with the version as its only
/// argument. Without a version the script gets no argument, and nothing is done where the command is
/// there.
pub proof fn law_bun_is_installed_as_asked(
    tools: Seq<u8>,
    version: Option<Seq<char>>,
    os: Seq<char>,
    arch: Seq<char>,
    present: bool,
)
    ensures
        runtime_steps(tools, RuntimeView::Bun { version }, os, arch, present) matches Ok(steps) && {
            let script = within(tools, "bun-install.sh"@);
            if present && version is None {
                forall|i: int| 0 <= i < steps.len() ==> (#[trigger] steps[i]) is Log
            } else {
                &&& one_download(steps, "https://bun.sh/install"@, "scripts/"@ + "bun-install.sh"@, script)
                &&& only_command(
                    steps,
                    ArgView::Text("sh"@),
                    match version {
                        Some(v) => seq![ArgView::Path(script), ArgView::Text("bun-v"@ + v)],
                        None => seq![ArgView::Path(script)],
                    },
                    tools,
                    seq![
                        ("BUN_INSTALL"@, ArgView::Path(within(tools, "bun"@))),
                        ("PATH"@, ArgView::Text("/usr/bin:/bin:/usr/sbin:/sbin"@)),
                    ],
                    Some(script),
                )
                &&& checks(steps, within(within(tools, "bun"@ + "/bin"@), "bun"@))
            }
        },
{
    let steps = runtime_steps(tools, RuntimeView::Bun { version }, os, arch, present)->Ok_0;
    let script = within(tools, "bun-install.sh"@);
    if !(present && version is None) {
        assert(steps[2] is Download && steps[3] is Run && steps[4] is Require);
        let command = steps[3]->Run_command;
        assert(command.args =~= match version {
            Some(v) => seq![ArgView::Path(script), ArgView::Text("bun-v"@ + v)],
            None => seq![ArgView::Path(script)],
        });
        assert(command.envs =~= seq![
            ("BUN_INSTALL"@, ArgView::Path(within(tools, "bun"@))),
            ("PATH"@, ArgView::Text("/usr/bin:/bin:/usr/sbin:/sbin"@)),
        ]);
    }
}

/// The version of Node that is asked for is the one that is installed, from the archive for the host:
/// what is downloaded is what is unpacked into the tools directory, and its `node` is looked for. There
/// is such an archive for macOS and Linux on x86-64 and AArch64, and none elsewhere. Nothing is done
/// where the command is there.
pub proof fn law_node_is_installed_as_asked(
    tools: Seq<u8>,
    version: Seq<char>,
    os: Seq<char>,
    arch: Seq<char>,
    present: bool,
)
    ensures
        ({
            let result = runtime_steps(tools, RuntimeView::Node { version }, os, arch, present);
            let o = if os == "macos"@ { "darwin"@ } else { "linux"@ };
            let a = if arch == "x86_64"@ { "x64"@ } else { "arm64"@ };
            let folder = "node-v"@ + version + "-"@ + o + "-"@ + a;
            let file = within(tools, folder + ".tar.xz"@);
            &&& result is Ok <==> (os == "macos"@ || os == "linux"@) && (arch == "x86_64"@ || arch == "aarch64"@)
            &&& result matches Ok(steps) ==> if present {
                forall|i: int| 0 <= i < steps.len() ==> (#[trigger] steps[i]) is Log
            } else {
                &&& one_download(
                    steps,
                    "https://nodejs.org/dist/v"@ + version + "/"@ + (folder + ".tar.xz"@),
                    "node/"@ + (folder + ".tar.xz"@),
                    file,
                )
                &&& only_unpacking(steps, "-xJf"@, file, tools)
                &&& checks(steps, within(within(tools, folder + "/bin"@), "node"@))
                &&& bin_dir(RuntimeView::Node { version }, os, arch) == Ok::<Seq<char>, Seq<char>>(folder + "/bin"@)
            }
        }),
{
    reveal_strlit("macos");
    reveal_strlit("linux");
    let result = runtime_steps(tools, RuntimeView::Node { version }, os, arch, present);
    if result is Ok && !present {
        let steps = result->Ok_0;
        assert(steps[1] is Download && steps[2] is Run && steps[3] is Require);
        assert(steps[2]->Run_command.args =~= seq![
            ArgView::Text("-xJf"@),
            ArgView::Path(steps[1]->Download_destination),
            ArgView::Text("-C"@),
            ArgView::Path(tools),
        ]);
    }
}

/// The version of Go that is asked for is the one that is installed, from the archive for the host:
/// what is downloaded is what is unpacked into a directory of its own, and its `go` is looked for. There
/// is such an archive for macOS and Linux on x86-64 and AArch64, and none elsewhere. Nothing is done
/// where the command is there.
pub proof fn law_go_is_installed_as_asked(
    tools: Seq<u8>,
    version: Seq<char>,
    os: Seq<char>,
    arch: Seq<char>,
    present: bool,
)
    ensures
        ({
            let result = runtime_steps(tools, RuntimeView::Go { version }, os, arch, present);
            let o = if os == "macos"@ { "darwin"@ } else { "linux"@ };
            let a = if arch == "x86_64"@ { "amd64"@ } else { "arm64"@ };
            let folder = "go-"@ + version + "-"@ + o + "-"@ + a;
            let archive = "go"@ + version + "."@ + o + "-"@ + a + ".tar.gz"@;
            &&& result is Ok <==> (os == "macos"@ || os == "linux"@) && (arch == "x86_64"@ || arch == "aarch64"@)
            &&& result matches Ok(steps) ==> if present {
                forall|i: int| 0 <= i < steps.len() ==> (#[trigger] steps[i]) is Log
            } else {
                &&& one_download(steps, "https://go.dev/dl/"@ + archive, "go/"@ + archive, within(tools, archive))
                &&& only_unpacking(steps, "-xzf"@, within(tools, archive), within(tools, folder))
                &&& checks(steps, within(within(tools, folder + "/go/bin"@), "go"@))
                &&& bin_dir(RuntimeView::Go { version }, os, arch) == Ok::<Seq<char>, Seq<char>>(folder + "/go/bin"@)
            }
        }),
{
    reveal_strlit("macos");
    reveal_strlit("linux");
    reveal_strlit("x86_64");
    reveal_strlit("aarch64");
    assert("macos"@[0] != "linux"@[0] && "x86_64"@.len() != "aarch64"@.len());
    let result = runtime_steps(tools, RuntimeView::Go { version }, os, arch, present);
    if result is Ok && !present {
        let steps = result->Ok_0;
        let folder = steps[1]->CreateDirs_0;
        assert(steps[2] is Download && steps[3] is Run && steps[4] is Require);
        assert(steps[3]->Run_command.args =~= seq![
            ArgView::Text("-xzf"@),
            ArgView::Path(steps[2]->Download_destination),
            ArgView::Text("-C"@),
            ArgView::Path(folder),
        ]);
    }
}

/// Whether a plan runs one command: `tar`, which unpacks `file` into `dir`; the file is removed then.
pub open spec fn only_unpacking(steps: Seq<StepView>, how: Seq<char>, file: Seq<u8>, dir: Seq<u8>) -> bool {
    exists|k: int|
        0 <= k < steps.len() && (#[trigger] steps[k]) is Run && steps[k]->Run_command.program == ArgView::Text(
            "tar"@,
        ) && steps[k]->Run_command.args == seq![
            ArgView::Text(how),
            ArgView::Path(file),
            ArgView::Text("-C"@),
            ArgView::Path(dir),
        ] && steps[k]->Run_cleanup == Some(file) && forall|j: int|
            0 <= j < steps.len() && (#[trigger] steps[j]) is Run ==> j == k
}

/// The toolchain of Rust that is asked for is the one that is installed and made the default one,
/// whether or not `rustup` is there; where it is not, its installer is run first, for the same toolchain.
/// All commands keep to the tools directory.
pub proof fn law_rust_is_installed_as_asked(
    tools: Seq<u8>,
    toolchain: Seq<char>,
    os: Seq<char>,
    arch: Seq<char>,
    present: bool,
)
    ensures
        runtime_steps(tools, RuntimeView::Rust { toolchain }, os, arch, present) matches Ok(steps) && {
            let script = within(tools, "rustup-init.sh"@);
            let bin = within(tools, "cargo/bin"@);
            let rustup = ArgView::Path(within(bin, "rustup"@));
            let path = shown(bin) + ":"@ + "/usr/bin:/bin:/usr/sbin:/sbin"@;
            let n = steps.len();
            &&& n == if present { 7int } else { 10int }
            &&& runs(
                steps[n - 4],
                rustup,
                seq![ArgView::Text("toolchain"@), ArgView::Text("install"@), ArgView::Text(toolchain)],
                tools,
                rust_homes(tools, path),
                None,
            )
            &&& runs(
                steps[n - 3],
                rustup,
                seq![ArgView::Text("default"@), ArgView::Text(toolchain)],
                tools,
                rust_homes(tools, path),
                None,
            )
            &&& checks(steps, within(bin, "rustc"@))
            &&& present ==> forall|i: int|
                0 <= i < n - 4 ==> !((#[trigger] steps[i]) is Run) && !(steps[i] is Download)
            &&& !present ==> {
                &&& one_download(steps, "https://sh.rustup.rs"@, "scripts/rustup-init.sh"@, script)
                &&& runs(
                    steps[4],
                    ArgView::Text("sh"@),
                    seq![
                        ArgView::Path(script),
                        ArgView::Text("-y"@),
                        ArgView::Text("--default-toolchain"@),
                        ArgView::Text(toolchain),
                        ArgView::Text("--profile"@),
                        ArgView::Text("minimal"@),
                        ArgView::Text("--no-modify-path"@),
                    ],
                    tools,
                    rust_homes(tools, "/usr/bin:/bin:/usr/sbin:/sbin"@),
                    Some(script),
                )
            }
        },
{
    let steps = runtime_steps(tools, RuntimeView::Rust { toolchain }, os, arch, present)->Ok_0;
    let bin = within(tools, "cargo/bin"@);
    let path = shown(bin) + ":"@ + "/usr/bin:/bin:/usr/sbin:/sbin"@;
    let n = steps.len();
    let script = within(tools, "rustup-init.sh"@);
    let first = steps[n - 4]->Run_command;
    let second = steps[n - 3]->Run_command;
    assert(first.args =~= seq![ArgView::Text("toolchain"@), ArgView::Text("install"@), ArgView::Text(toolchain)]);
    assert(first.envs =~= rust_homes(tools, path));
    assert(second.args =~= seq![ArgView::Text("default"@), ArgView::Text(toolchain)]);
    assert(second.envs =~= rust_homes(tools, path));
    if !present {
        let init = steps[4]->Run_command;
        assert(steps[3] is Download);
        assert(init.args =~= seq![
            ArgView::Path(script),
            ArgView::Text("-y"@),
            ArgView::Text("--default-toolchain"@),
            ArgView::Text(toolchain),
            ArgView::Text("--profile"@),
            ArgView::Text("minimal"@),
            ArgView::Text("--no-modify-path"@),
        ]);
        assert(init.envs =~= rust_homes(tools, "/usr/bin:/bin:/usr/sbin:/sbin"@));
    }
}

/// The variables that keep Rust in the tools directory.
pub open spec fn rust_homes(tools: Seq<u8>, path: Seq<char>) -> Seq<(Seq<char>, ArgView)> {
    seq![
        ("CARGO_HOME"@, ArgView::Path(within(tools, "cargo"@))),
        ("RUSTUP_HOME"@, ArgView::Path(within(tools, "rustup"@))),
        ("PATH"@, ArgView::Text(path)),
    ]
}

/// The version of Python that is asked for is the one that `conda` is told to install, whether or not
/// the command is there, and without a version `conda` is not run; the installer for the host is run
/// exactly where the command is not there. There is one for macOS and Linux on x86-64 and AArch64, and
/// none elsewhere.
pub proof fn law_python_is_installed_as_asked(
    tools: Seq<u8>,
    version: Option<Seq<char>>,
    os: Seq<char>,
    arch: Seq<char>,
    present: bool,
)
    ensures
        ({
            let result = runtime_steps(tools, RuntimeView::Python { version }, os, arch, present);
            let platform = if os == "macos"@ {
                if arch == "x86_64"@ { "MacOSX-x86_64"@ } else { "MacOSX-arm64"@ }
            } else {
                if arch == "x86_64"@ { "Linux-x86_64"@ } else { "Linux-aarch64"@ }
            };
            let installer = within(tools, "miniconda-installer.sh"@);
            let bin = within(tools, "miniconda/bin"@);
            &&& result is Ok <==> (os == "macos"@ || os == "linux"@) && (arch == "x86_64"@ || arch == "aarch64"@)
            &&& result matches Ok(steps) ==> {
                let n = steps.len();
                &&& n == 2 + (if present { 0int } else { 3int }) + (if version is Some { 2int } else { 0int })
                &&& checks(steps, within(bin, "python"@))
                &&& !present ==> {
                    &&& one_download(
                        steps,
                        "https://repo.anaconda.com/miniconda/Miniconda3-latest-"@ + platform + ".sh"@,
                        "python/miniconda-"@ + platform + ".sh"@,
                        installer,
                    )
                    &&& runs(
                        steps[2],
                        ArgView::Text("sh"@),
                        seq![
                            ArgView::Path(installer),
                            ArgView::Text("-b"@),
                            ArgView::Text("-p"@),
                            ArgView::Path(within(tools, "miniconda"@)),
                        ],
                        tools,
                        seq![("PATH"@, ArgView::Text("/usr/bin:/bin:/usr/sbin:/sbin"@))],
                        Some(installer),
                    )
                }
                &&& version matches Some(v) ==> runs(
                    steps[n - 3],
                    ArgView::Path(within(bin, "conda"@)),
                    seq![ArgView::Text("install"@), ArgView::Text("-y"@), ArgView::Text("python="@ + v)],
                    tools,
                    seq![("PATH"@, ArgView::Text(shown(bin) + ":"@ + "/usr/bin:/bin:/usr/sbin:/sbin"@))],
                    None,
                )
                &&& present && version is None ==> forall|i: int|
                    0 <= i < n ==> !((#[trigger] steps[i]) is Run) && !(steps[i] is Download)
            }
        }),
{
    reveal_strlit("macos");
    reveal_strlit("linux");
    reveal_strlit("x86_64");
    reveal_strlit("aarch64");
    assert("macos"@[0] != "linux"@[0] && "x86_64"@.len() != "aarch64"@.len());
    let result = runtime_steps(tools, RuntimeView::Python { version }, os, arch, present);
    if result is Ok {
        let steps = result->Ok_0;
        let n = steps.len();
        let bin = within(tools, "miniconda/bin"@);
        if !present {
            let init = steps[2]->Run_command;
            assert(steps[1] is Download);
            assert(init.args =~= seq![
                ArgView::Path(within(tools, "miniconda-installer.sh"@)),
                ArgView::Text("-b"@),
                ArgView::Text("-p"@),
                ArgView::Path(within(tools, "miniconda"@)),
            ]);
            assert(init.envs =~= seq![("PATH"@, ArgView::Text("/usr/bin:/bin:/usr/sbin:/sbin"@))]);
        }
        if let Some(v) = version {
            let conda = steps[n - 3]->Run_command;
            assert(conda.args =~= seq![
                ArgView::Text("install"@),
                ArgView::Text("-y"@),
                ArgView::Text("python="@ + v),
            ]);
            assert(conda.envs =~= seq![
                ("PATH"@, ArgView::Text(shown(bin) + ":"@ + "/usr/bin:/bin:/usr/sbin:/sbin"@)),
            ]);
        }
    }
}

/// Where the commands of a runtime are, from the tools directory, and the command whose presence tells
/// that it is installed.
pub proof fn law_commands_are_where_runtimes_put_them(run: RuntimeRunView)
    requires
        !run.over(),
        0 <= run.next,
    ensures
        ({
            let runtime = run.runtimes[run.next];
            let dir = bin_dir(runtime, run.os, run.arch);
            &&& runtime is Rust ==> dir == Ok::<Seq<char>, Seq<char>>("cargo/bin"@)
            &&& runtime is Python && dir is Ok ==> dir->Ok_0 == "miniconda/bin"@
            &&& runtime is Deno ==> dir == Ok::<Seq<char>, Seq<char>>("deno"@ + "/bin"@)
            &&& runtime is Bun ==> dir == Ok::<Seq<char>, Seq<char>>("bun"@ + "/bin"@)
            &&& run.probed() is Ok <==> dir is Ok
            &&& dir is Ok ==> run.probed() == Ok::<Seq<u8>, Seq<char>>(
                within(
                    within(run.tools, dir->Ok_0),
                    match runtime {
                        RuntimeView::Node { .. } => "node"@,
                        RuntimeView::Rust { .. } => "rustup"@,
                        RuntimeView::Python { .. } => "python"@,
                        RuntimeView::Go { .. } => "go"@,
                        RuntimeView::Deno { .. } => "deno"@,
                        RuntimeView::Bun { .. } => "bun"@,
                    },
                ),
            )
        }),
{
}

/// The directories of the commands are listed in the order of the runtimes: those of the first runtimes come
/// first, whatever comes after them, and a runtime adds its own directory at the end unless it is listed.
pub proof fn law_directories_are_listed_in_order(
    tools: Seq<u8>,
    runtimes: Seq<RuntimeView>,
    os: Seq<char>,
    arch: Seq<char>,
    k: int,
)
    requires
        bin_dirs(tools, runtimes, os, arch) is Ok,
        0 <= k <= runtimes.len(),
    ensures
        bin_dirs(tools, runtimes.take(k), os, arch) matches Ok(first) && first.is_prefix_of(
            bin_dirs(tools, runtimes, os, arch)->Ok_0,
        ),
        bin_dirs(tools, runtimes, os, arch)->Ok_0.len() <= runtimes.len(),
    decreases runtimes.len(),
{
    let all = bin_dirs(tools, runtimes, os, arch)->Ok_0;
    if runtimes.len() > 0 {
        let front = runtimes.drop_last();
        let before = bin_dirs(tools, front, os, arch)->Ok_0;
        law_directories_are_listed_in_order(tools, front, os, arch, if k < runtimes.len() { k } else { 0 });
        if k < runtimes.len() {
            assert(runtimes.take(k) =~= front.take(k));
            let first = bin_dirs(tools, front.take(k), os, arch)->Ok_0;
            assert forall|i: int| 0 <= i < first.len() implies first[i] == all[i] by {
                assert(first[i] == before[i]);
            }
            assert(first =~= all.subrange(0, first.len() as int));
        }
    }
    if k == runtimes.len() {
        assert(runtimes.take(k) =~= runtimes);
        assert(all =~= all.subrange(0, all.len() as int));
    }
}

/// An installation says what was installed: the last line of its plan names the runtime and the version
/// that was asked for.
pub proof fn law_installations_name_what_was_installed(
    tools: Seq<u8>,
    runtime: RuntimeView,
    os: Seq<char>,
    arch: Seq<char>,
    present: bool,
)
    requires
        runtime_steps(tools, runtime, os, arch, present) is Ok,
    ensures
        ({
            let steps = runtime_steps(tools, runtime, os, arch, present)->Ok_0;
            let said = |message: Seq<char>| StepView::Log(LogView { level: Level::Success, message });
            let noted = |message: Seq<char>| StepView::Log(LogView { level: Level::Info, message });
            match runtime {
                RuntimeView::Node { version } => steps.last() == if present {
                    noted("runtime node@"@ + version + " already installed"@)
                } else {
                    said("Installed node@"@ + version)
                },
                RuntimeView::Go { version } => steps.last() == if present {
                    noted("runtime go@"@ + version + " already installed"@)
                } else {
                    said("Installed go@"@ + version)
                },
                RuntimeView::Rust { toolchain } => steps.last() == said("Installed rust@"@ + toolchain),
                RuntimeView::Python { .. } => steps.last() == said("Installed python runtime"@),
                RuntimeView::Deno { version } => steps.last() == match version {
                    Some(v) => said("Installed "@ + ("deno"@ + "@"@ + v)),
                    None => if present {
                        noted("runtime "@ + "deno"@ + " already installed"@)
                    } else {
                        said("Installed "@ + ("deno"@ + "@latest"@))
                    },
                },
                RuntimeView::Bun { version } => steps.last() == match version {
                    Some(v) => said("Installed "@ + ("bun"@ + "@"@ + v)),
                    None => if present {
                        noted("runtime "@ + "bun"@ + " already installed"@)
                    } else {
                        said("Installed "@ + ("bun"@ + "@latest"@))
                    },
                },
            }
        }),
{
}

/// A runtime that cannot be had for the host is an error that names the host: Node tells the operating
/// system apart from the machine, Python and Go name both.
pub proof fn law_hosts_without_a_runtime_are_named(
    tools: Seq<u8>,
    runtime: RuntimeView,
    os: Seq<char>,
    arch: Seq<char>,
    present: bool,
)
    requires
        runtime_steps(tools, runtime, os, arch, present) is Err,
    ensures
        ({
            let error = runtime_steps(tools, runtime, os, arch, present)->Err_0;
            &&& runtime is Node || runtime is Python || runtime is Go
            &&& runtime is Node ==> error == if os != "macos"@ && os != "linux"@ {
                "node runtime install is not supported on OS: "@ + os
            } else {
                "node runtime install is not supported on ARCH: "@ + arch
            }
            &&& runtime is Python ==> error == "python runtime install is not supported on "@ + os + "/"@ + arch
            &&& runtime is Go ==> error == "go runtime install is not supported on "@ + os + "/"@ + arch
            &&& bin_dir(runtime, os, arch) == Err::<Seq<char>, Seq<char>>(error)
        }),
{
}

/// A runtime that is begun is counted, and its directory is listed; one that cannot be had is not, and ends
/// the work. What is known of the host and of the recipe stays as it is.
pub proof fn law_runtimes_are_taken_one_by_one(run: RuntimeRunView)
    requires
        run.valid(),
        !run.over(),
    ensures
        ({
            let runtime = run.runtimes[run.next];
            let begun = run.begun();
            &&& begun.runtimes == run.runtimes && begun.tools == run.tools && begun.os == run.os && begun.arch
                == run.arch
            &&& bin_dir(runtime, run.os, run.arch) matches Ok(dir) ==> {
                &&& begun.next == run.next + 1 && begun.error is None
                &&& run.dirs.is_prefix_of(begun.dirs)
                &&& exists|i: int|
                    0 <= i < begun.dirs.len() && same_path(
                        within(run.tools, #[trigger] begun.dirs[i]),
                        within(run.tools, dir),
                    )
            }
            &&& bin_dir(runtime, run.os, run.arch) matches Err(e) ==> begun == (RuntimeRunView {
                error: Some(e),
                ..run
            })
        }),
{
    if let Ok(dir) = bin_dir(run.runtimes[run.next], run.os, run.arch) {
        let begun = run.begun();
        assert(run.dirs =~= begun.dirs.subrange(0, run.dirs.len() as int));
        if !has_dir(run.tools, run.dirs, dir) {
            assert(begun.dirs[run.dirs.len() as int] == dir);
        }
    }
}

} // verus!
