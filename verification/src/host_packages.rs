//! Packages that a recipe wants on the host itself.
use vstd::prelude::*;
use vstd::string::*;
use crate::command::{command_exists, lookup, run_step, ArgView, CommandLine, CommandView, Plan, StepView};
use crate::log::{log_step, Level, LogView};
use crate::managers::with_new;
use crate::paths::HostPath;
use crate::recipe::{items_of, listed_texts, SystemPackagesConfig};
use crate::text::{
    lemma_error_stays, lemma_position, lemma_position_is, lowered, same, split_once, split_pair, texts,
    to_ascii_lowercase, trim, trimmed,
};

verus! {

/// A package manager of the host.
#[derive(Debug, Clone, Copy, PartialEq, Eq, Structural)]
pub enum HostPackageManager {
    Brew,
    Apt,
    Pacman,
}

/// A package that is wanted on the host.
#[derive(Debug)]
pub struct HostPackageRequest {
    pub manager: HostPackageManager,
    pub package: String,
}

/// A package that is wanted on the host.
pub struct RequestView {
    pub manager: HostPackageManager,
    pub package: Seq<char>,
}

impl View for HostPackageRequest {
    type V = RequestView;

    open spec fn view(&self) -> RequestView {
        RequestView { manager: self.manager, package: self.package@ }
    }
}

/// The packages that a list asks for.
pub open spec fn request_views(list: Seq<HostPackageRequest>) -> Seq<RequestView> {
    list.map_values(|r: HostPackageRequest| r@)
}

/// The package manager that a name in lower case stands for.
pub open spec fn host_manager_for(name: Seq<char>) -> Option<HostPackageManager> {
    if name == "brew"@ || name == "homebrew"@ {
        Some(HostPackageManager::Brew)
    } else if name == "apt"@ || name == "apt-get"@ {
        Some(HostPackageManager::Apt)
    } else if name == "pacman"@ {
        Some(HostPackageManager::Pacman)
    } else {
        None
    }
}

/// The name of a package manager.
pub open spec fn host_manager_name(manager: HostPackageManager) -> Seq<char> {
    match manager {
        HostPackageManager::Brew => "brew"@,
        HostPackageManager::Apt => "apt"@,
        HostPackageManager::Pacman => "pacman"@,
    }
}

/// The program of a package manager.
pub open spec fn host_binary(manager: HostPackageManager) -> Seq<char> {
    match manager {
        HostPackageManager::Brew => "brew"@,
        HostPackageManager::Apt => "apt-get"@,
        HostPackageManager::Pacman => "pacman"@,
    }
}

impl HostPackageManager {
    /// The package manager that a name in lower case stands for.
    pub fn from_name(name: &str) -> (r: Option<HostPackageManager>)
        ensures
            r == host_manager_for(name@),
    {
        if same(name, "brew") || same(name, "homebrew") {
            Some(HostPackageManager::Brew)
        } else if same(name, "apt") || same(name, "apt-get") {
            Some(HostPackageManager::Apt)
        } else if same(name, "pacman") {
            Some(HostPackageManager::Pacman)
        } else {
            None
        }
    }

    /// The name of the package manager.
    pub fn name(self) -> (r: &'static str)
        ensures
            r@ == host_manager_name(self),
    {
        match self {
            HostPackageManager::Brew => "brew",
            HostPackageManager::Apt => "apt",
            HostPackageManager::Pacman => "pacman",
        }
    }
}

/// The program of a package manager.
pub fn manager_binary(manager: HostPackageManager) -> (r: &'static str)
    ensures
        r@ == host_binary(manager),
{
    match manager {
        HostPackageManager::Brew => "brew",
        HostPackageManager::Apt => "apt-get",
        HostPackageManager::Pacman => "pacman",
    }
}

/// Whether a scalar value may stand in the name of a package.
pub open spec fn safe_char(c: char) -> bool {
    ||| 'a' <= c <= 'z'
    ||| 'A' <= c <= 'Z'
    ||| '0' <= c <= '9'
    ||| c == '.'
    ||| c == '_'
    ||| c == '+'
    ||| c == ':'
    ||| c == '/'
    ||| c == '@'
    ||| c == '-'
}

/// Whether a text may be the name of a package.
pub open spec fn safe_token(value: Seq<char>) -> bool {
    forall|i: int| 0 <= i < value.len() ==> safe_char(#[trigger] value[i])
}

/// Whether a text may be the name of a package.
pub fn is_safe_package_token(value: &str) -> (r: bool)
    ensures
        r == safe_token(value@),
{
    let n: usize = value.unicode_len();
    let mut i: usize = 0;
    while i < n
        invariant
            i <= n == value@.len(),
            forall|j: int| 0 <= j < i ==> safe_char(#[trigger] value@[j]),
        decreases n - i,
    {
        let c = value.get_char(i);
        if !(('a' <= c && c <= 'z') || ('A' <= c && c <= 'Z') || ('0' <= c && c <= '9') || c == '.' || c == '_'
            || c == '+' || c == ':' || c == '/' || c == '@' || c == '-') {
            assert(!safe_char(value@[i as int]));
            return false;
        }
        i = i + 1;
    }
    true
}

/// What an item `<manager>:<package>` asks for; nothing where it is blank.
pub open spec fn request_of(item: Seq<char>) -> Result<Option<RequestView>, Seq<char>> {
    let whole = trimmed(item);
    if whole.len() == 0 {
        Ok(None)
    } else {
        match split_pair(whole, ':') {
            None => Err("invalid system package entry '"@ + whole + "'. expected '<manager>:<package>'"@),
            Some((left, right)) => match host_manager_for(lowered(trimmed(left))) {
                None => Err(
                    "unsupported system package manager '"@ + left + "'. supported: brew, apt, pacman"@,
                ),
                Some(manager) => {
                    let package = trimmed(right);
                    if package.len() == 0 {
                        Err("invalid system package entry '"@ + whole + "': missing package name"@)
                    } else if !safe_token(package) {
                        Err(
                            "invalid package token '"@ + package + "' in '"@ + whole
                                + "'. only [a-zA-Z0-9._+:/@-] are allowed"@,
                        )
                    } else {
                        Ok(Some(RequestView { manager, package }))
                    }
                },
            },
        }
    }
}

/// The packages that a list of items asks for, each where it is first asked for; or the error for
/// the first item that has one.
pub open spec fn requests_of(items: Seq<Seq<char>>) -> Result<Seq<RequestView>, Seq<char>>
    decreases items.len(),
{
    if items.len() == 0 {
        Ok(Seq::empty())
    } else {
        match (requests_of(items.drop_last()), request_of(items.last())) {
            (Err(e), _) => Err(e),
            (Ok(_), Err(e)) => Err(e),
            (Ok(before), Ok(None)) => Ok(before),
            (Ok(before), Ok(Some(request))) => Ok(with_new(before, request)),
        }
    }
}

/// The items of `[system_packages]`.
pub open spec fn package_items(system_packages: Option<&SystemPackagesConfig>) -> Seq<Seq<char>> {
    match system_packages {
        Some(config) => listed_texts(config.items),
        None => Seq::empty(),
    }
}

/// What an item `<manager>:<package>` asks for; nothing where it is blank.
fn parse_request(item: &str) -> (r: Result<Option<HostPackageRequest>, String>)
    ensures
        match r {
            Ok(Some(request)) => request_of(item@) == Ok::<Option<RequestView>, Seq<char>>(Some(request@)),
            Ok(None) => request_of(item@) == Ok::<Option<RequestView>, Seq<char>>(None),
            Err(e) => request_of(item@) == Err::<Option<RequestView>, Seq<char>>(e@),
        },
{
    let whole = trim(item);
    if whole.unicode_len() == 0 {
        return Ok(None);
    }
    let (left, right) = match split_once(whole, ':') {
        Some((left, right)) => (left, right),
        None => {
            return Err(
                "invalid system package entry '".to_string().concat(whole).concat(
                    "'. expected '<manager>:<package>'",
                ),
            );
        },
    };
    let manager = match HostPackageManager::from_name(to_ascii_lowercase(trim(left)).as_str()) {
        Some(manager) => manager,
        None => {
            return Err(
                "unsupported system package manager '".to_string().concat(left).concat(
                    "'. supported: brew, apt, pacman",
                ),
            );
        },
    };
    let package = trim(right);
    if package.unicode_len() == 0 {
        return Err(
            "invalid system package entry '".to_string().concat(whole).concat("': missing package name"),
        );
    }
    if !is_safe_package_token(package) {
        return Err(
            "invalid package token '".to_string().concat(package).concat("' in '").concat(whole).concat(
                "'. only [a-zA-Z0-9._+:/@-] are allowed",
            ),
        );
    }
    Ok(Some(HostPackageRequest { manager, package: package.to_string() }))
}

/// Whether a list asks for a package.
fn holds(list: &Vec<HostPackageRequest>, request: &HostPackageRequest) -> (r: bool)
    ensures
        r == request_views(list@).contains(request@),
{
    let ghost all = request_views(list@);
    let mut i: usize = 0;
    while i < list.len()
        invariant
            i <= list.len(),
            all == request_views(list@),
            forall|j: int| 0 <= j < i ==> all[j] != request@,
        decreases list.len() - i,
    {
        assert(all[i as int] == list@[i as int]@);
        if list[i].manager == request.manager && same(list[i].package.as_str(), request.package.as_str()) {
            return true;
        }
        i = i + 1;
    }
    false
}

/// The packages that `[system_packages]` asks for.
pub fn parse_host_package_requests(system_packages: Option<&SystemPackagesConfig>) -> (r: Result<
    Vec<HostPackageRequest>,
    String,
>)
    ensures
        match r {
            Ok(list) => requests_of(package_items(system_packages)) == Ok::<Seq<RequestView>, Seq<char>>(
                request_views(list@),
            ),
            Err(e) => requests_of(package_items(system_packages)) == Err::<Seq<RequestView>, Seq<char>>(e@),
        },
{
    let items: Vec<String> = match system_packages {
        Some(config) => items_of(&config.items),
        None => Vec::new(),
    };
    let ghost all = texts(items@);
    assert(all =~= package_items(system_packages));
    let mut requests: Vec<HostPackageRequest> = Vec::new();
    let mut i: usize = 0;
    assert(all.take(0) =~= Seq::empty());
    assert(request_views(requests@) =~= Seq::empty());
    while i < items.len()
        invariant
            i <= items.len(),
            all == texts(items@),
            all == package_items(system_packages),
            requests_of(all.take(i as int)) == Ok::<Seq<RequestView>, Seq<char>>(request_views(requests@)),
        decreases items.len() - i,
    {
        let ghost before = request_views(requests@);
        let ghost upto = all.take(i + 1);
        assert(upto.drop_last() =~= all.take(i as int));
        assert(upto.last() == items@[i as int]@);
        match parse_request(items[i].as_str()) {
            Err(e) => {
                proof {
                    lemma_error_stays(|s: Seq<Seq<char>>| requests_of(s), all, i + 1);
                }
                return Err(e);
            },
            Ok(None) => {},
            Ok(Some(request)) => {
                if !holds(&requests, &request) {
                    requests.push(request);
                    assert(request_views(requests@) =~= before.push(request@));
                }
            },
        }
        i = i + 1;
    }
    assert(all.take(i as int) =~= all);
    Ok(requests)
}

/// Every package that is asked for has a name of allowed scalar values, which is not empty, and none
/// is asked for twice.
pub proof fn law_requests_are_safe_and_distinct(items: Seq<Seq<char>>)
    ensures
        requests_of(items) matches Ok(list) ==> list.no_duplicates() && forall|i: int|
            0 <= i < list.len() ==> safe_token((#[trigger] list[i]).package) && list[i].package.len() > 0,
    decreases items.len(),
{
    if items.len() > 0 {
        law_requests_are_safe_and_distinct(items.drop_last());
    }
}

/// A command of a package manager, by `sudo` where that is wanted.
pub open spec fn host_command(
    root: Seq<u8>,
    program: Seq<char>,
    args: Seq<Seq<char>>,
    use_sudo: bool,
) -> CommandView {
    let start = if use_sudo { CommandView::named("sudo"@).arg(program) } else { CommandView::named(program) };
    start.arg_all(args).in_dir(root)
}

/// The arguments with which a package manager updates what it knows.
pub open spec fn update_args(manager: HostPackageManager) -> Seq<Seq<char>> {
    match manager {
        HostPackageManager::Brew => seq!["update"@],
        HostPackageManager::Apt => seq!["update"@],
        HostPackageManager::Pacman => seq!["-Sy"@, "--noconfirm"@],
    }
}

/// The arguments with which a package manager installs a package.
pub open spec fn install_args(request: RequestView) -> Seq<Seq<char>> {
    match request.manager {
        HostPackageManager::Brew => seq!["install"@, request.package],
        HostPackageManager::Apt => seq!["install"@, "-y"@, request.package],
        HostPackageManager::Pacman => seq!["-S"@, "--noconfirm"@, request.package],
    }
}

/// The command that succeeds where a package is installed.
pub open spec fn installed_command(root: Seq<u8>, request: RequestView) -> CommandView {
    let start = match request.manager {
        HostPackageManager::Brew => CommandView::named("brew"@).arg("list"@).arg("--versions"@),
        HostPackageManager::Apt => CommandView::named("dpkg"@).arg("-s"@),
        HostPackageManager::Pacman => CommandView::named("pacman"@).arg("-Qi"@),
    };
    start.arg(request.package).in_dir(root).silent()
}

/// The error where a package manager is not there.
pub open spec fn unavailable(manager: HostPackageManager) -> Seq<char> {
    "system package manager '"@ + host_manager_name(manager) + "' is not available on this host"@
}

/// The command that succeeds where a package manager is there.
pub fn manager_lookup(project_root: &HostPath, manager: HostPackageManager) -> (r: CommandLine)
    ensures
        r@ == CommandView::named("sh"@).arg("-c"@).arg(lookup(host_binary(manager))).in_dir(project_root@).silent(),
{
    command_exists(project_root, manager_binary(manager))
}

/// Accepts a package manager that is there; `found` tells whether its [`manager_lookup`] succeeded.
pub fn ensure_manager_available(manager: HostPackageManager, found: bool) -> (r: Result<(), String>)
    ensures
        r is Ok <==> found,
        r matches Err(e) ==> e@ == unavailable(manager),
{
    if found {
        Ok(())
    } else {
        Err(
            "system package manager '".to_string().concat(manager.name()).concat(
                "' is not available on this host",
            ),
        )
    }
}

/// The command that succeeds where a package is installed.
pub fn is_host_package_installed(project_root: &HostPath, request: &HostPackageRequest) -> (r: CommandLine)
    ensures
        r@ == installed_command(project_root@, request@),
{
    let start = match request.manager {
        HostPackageManager::Brew => CommandLine::named("brew").arg("list").arg("--versions"),
        HostPackageManager::Apt => CommandLine::named("dpkg").arg("-s"),
        HostPackageManager::Pacman => CommandLine::named("pacman").arg("-Qi"),
    };
    start.arg(request.package.as_str()).in_dir(project_root).silent()
}

/// A command of a package manager, by `sudo` where that is wanted.
pub fn run_host_command(project_root: &HostPath, program: &str, args: &Vec<String>, use_sudo: bool) -> (r:
    CommandLine)
    ensures
        r@ == host_command(project_root@, program@, texts(args@), use_sudo),
{
    let start = if use_sudo {
        CommandLine::named("sudo").arg(program)
    } else {
        CommandLine::named(program)
    };
    start.arg_all(args).in_dir(project_root)
}

/// The steps by which a package manager updates what it knows.
pub open spec fn update_steps(root: Seq<u8>, manager: HostPackageManager, use_sudo: bool) -> Seq<StepView> {
    seq![
        StepView::Log(
            LogView { level: Level::Step, message: "Updating "@ + host_manager_name(manager) + " metadata"@ },
        ),
        run_step(
            host_command(root, host_binary(manager), update_args(manager), use_sudo),
            host_binary(manager) + " "@ + "update failed"@,
        ),
    ]
}

/// The steps by which a package manager installs a package.
pub open spec fn install_steps(root: Seq<u8>, request: RequestView, use_sudo: bool) -> Seq<StepView> {
    seq![
        StepView::Log(
            LogView {
                level: Level::Step,
                message: "Installing "@ + host_manager_name(request.manager) + ":"@ + request.package,
            },
        ),
        run_step(
            host_command(root, host_binary(request.manager), install_args(request), use_sudo),
            host_binary(request.manager) + " "@ + "install failed"@,
        ),
    ]
}

/// The steps by which a package manager updates what it knows.
pub fn run_host_package_update(project_root: &HostPath, manager: HostPackageManager, use_sudo: bool) -> (r: Plan)
    ensures
        r@ == update_steps(project_root@, manager, use_sudo),
{
    let mut args: Vec<String> = Vec::new();
    match manager {
        HostPackageManager::Brew | HostPackageManager::Apt => {
            args.push("update".to_string());
        },
        HostPackageManager::Pacman => {
            args.push("-Sy".to_string());
            args.push("--noconfirm".to_string());
        },
    }
    assert(texts(args@) =~= update_args(manager));
    let mut plan = Plan::new();
    plan.log(log_step("Updating ".to_string().concat(manager.name()).concat(" metadata").as_str()));
    plan.run(
        run_host_command(project_root, manager_binary(manager), &args, use_sudo),
        manager_binary(manager).to_string().concat(" ").concat("update failed").as_str(),
    );
    assert(plan@ =~= update_steps(project_root@, manager, use_sudo));
    plan
}

/// The steps by which a package manager installs a package.
pub fn run_host_package_install(project_root: &HostPath, request: &HostPackageRequest, use_sudo: bool) -> (r: Plan)
    ensures
        r@ == install_steps(project_root@, request@, use_sudo),
{
    let mut args: Vec<String> = Vec::new();
    match request.manager {
        HostPackageManager::Brew => {
            args.push("install".to_string());
        },
        HostPackageManager::Apt => {
            args.push("install".to_string());
            args.push("-y".to_string());
        },
        HostPackageManager::Pacman => {
            args.push("-S".to_string());
            args.push("--noconfirm".to_string());
        },
    }
    args.push(request.package.clone());
    assert(texts(args@) =~= install_args(request@));
    let mut plan = Plan::new();
    plan.log(
        log_step(
            "Installing ".to_string().concat(request.manager.name()).concat(":").concat(
                request.package.as_str(),
            ).as_str(),
        ),
    );
    plan.run(
        run_host_command(project_root, manager_binary(request.manager), &args, use_sudo),
        manager_binary(request.manager).to_string().concat(" ").concat("install failed").as_str(),
    );
    assert(plan@ =~= install_steps(project_root@, request@, use_sudo));
    plan
}

/// Packages are installed on the host itself: every command runs in the project's directory, with
/// `sudo` exactly where that is asked for.
pub proof fn law_sudo_only_where_asked(root: Seq<u8>, request: RequestView, use_sudo: bool)
    ensures
        ({
            let update = update_steps(root, request.manager, use_sudo)[1];
            let install = install_steps(root, request, use_sudo)[1];
            &&& update is Run && install is Run
            &&& update->Run_command.dir == Some(root) && install->Run_command.dir == Some(root)
            &&& use_sudo ==> update->Run_command.program == ArgView::Text("sudo"@) && install->Run_command.program
                == ArgView::Text("sudo"@)
            &&& use_sudo ==> update->Run_command.args[0] == ArgView::Text(host_binary(request.manager))
                && install->Run_command.args[0] == ArgView::Text(host_binary(request.manager))
            &&& !use_sudo ==> update->Run_command.program == ArgView::Text(host_binary(request.manager))
                && install->Run_command.program == ArgView::Text(host_binary(request.manager))
        }),
{
}

/// The package that is asked for is the last word of the command that installs it.
pub proof fn law_the_package_is_installed(root: Seq<u8>, request: RequestView, use_sudo: bool)
    ensures
        install_steps(root, request, use_sudo)[1]->Run_command.args.last() == ArgView::Text(request.package),
{
    let args = install_args(request).map_values(|s: Seq<char>| ArgView::Text(s));
    assert(args.last() == ArgView::Text(request.package));
}

/// An item of `[system_packages]` is a package manager and, after the first `:`, a package, with white
/// space round them: `brew` or `homebrew`, `apt` or `apt-get`, `pacman`, in any case. The package is what
/// is asked for as it is written, and is accepted if and only if it is not empty and of the scalar values
/// that are allowed. Without a `:` an item is an error, unless it is blank.
pub proof fn law_requests_are_what_is_named(item: Seq<char>, left: Seq<char>, right: Seq<char>)
    ensures
        trimmed(item).len() == 0 ==> request_of(item) == Ok::<Option<RequestView>, Seq<char>>(None),
        trimmed(item).len() > 0 && !trimmed(item).contains(':') ==> request_of(item) is Err,
        trimmed(item) == left + seq![':'] + right && !left.contains(':') ==> {
            let name = lowered(trimmed(left));
            let package = trimmed(right);
            let manager = if name == "brew"@ || name == "homebrew"@ {
                Some(HostPackageManager::Brew)
            } else if name == "apt"@ || name == "apt-get"@ {
                Some(HostPackageManager::Apt)
            } else if name == "pacman"@ {
                Some(HostPackageManager::Pacman)
            } else {
                None
            };
            &&& request_of(item) is Ok <==> manager is Some && package.len() > 0 && forall|i: int|
                0 <= i < package.len() ==> allowed(#[trigger] package[i])
            &&& request_of(item) is Ok ==> request_of(item)->Ok_0 == Some(
                RequestView { manager: manager->0, package },
            )
        },
{
    let whole = trimmed(item);
    lemma_position(whole, ':');
    if whole == left + seq![':'] + right && !left.contains(':') {
        lemma_position_is(whole, ':', left.len() as int);
        assert(whole.take(left.len() as int) =~= left);
        assert(whole.skip(left.len() as int + 1) =~= right);
        let package = trimmed(right);
        assert forall|i: int| 0 <= i < package.len() implies safe_char(#[trigger] package[i]) == allowed(
            package[i],
        ) by {
            lemma_allowed(package[i]);
        }
    }
}

/// What may be in the name of a package.
proof fn lemma_allowed(c: char)
    ensures
        safe_char(c) == allowed(c),
{
    reveal_strlit("._+:/@-");
    let t = "._+:/@-"@;
    assert(t[0] == '.' && t[1] == '_' && t[2] == '+' && t[3] == ':' && t[4] == '/' && t[5] == '@' && t[6] == '-');
    assert(t.len() == 7);
    if t.contains(c) {
        let k = choose|k: int| 0 <= k < t.len() && t[k] == c;
        assert(k == 0 || k == 1 || k == 2 || k == 3 || k == 4 || k == 5 || k == 6);
    }
}

/// Whether a package may be named with a scalar value: an ASCII letter or digit, or one of `._+:/@-`.
pub open spec fn allowed(c: char) -> bool {
    ||| 0x30 <= c as u32 <= 0x39
    ||| 0x41 <= c as u32 <= 0x5a
    ||| 0x61 <= c as u32 <= 0x7a
    ||| "._+:/@-"@.contains(c)
}

/// `[system_packages]` is read item by item: a package is asked for if and only if an item names it,
/// those that are named first come first, and an item that is an error makes the whole an error.
pub proof fn law_requests_are_read_item_by_item(items: Seq<Seq<char>>)
    ensures
        requests_of(items) is Ok <==> forall|i: int| 0 <= i < items.len() ==> request_of(#[trigger] items[i]) is Ok,
        requests_of(items) matches Ok(list) ==> forall|r: RequestView|
            #[trigger] list.contains(r) <==> exists|i: int|
                0 <= i < items.len() && request_of(#[trigger] items[i]) == Ok::<Option<RequestView>, Seq<char>>(
                    Some(r),
                ),
        requests_of(items) matches Ok(list) ==> forall|k: int|
            0 <= k <= items.len() ==> (#[trigger] requests_of(items.take(k)) matches Ok(first)
                && first.is_prefix_of(list)),
    decreases items.len(),
{
    if items.len() > 0 {
        let front = items.drop_last();
        let last = items.last();
        law_requests_are_read_item_by_item(front);
        assert forall|i: int| 0 <= i < front.len() implies #[trigger] front[i] == items[i] by {}
        assert(items[items.len() - 1] == last);
        if requests_of(front) is Err {
            let k = choose|k: int| 0 <= k < front.len() && request_of(#[trigger] front[k]) is Err;
            assert(items[k] == front[k]);
        }
        if requests_of(items) is Ok {
            let list = requests_of(items)->Ok_0;
            let before = requests_of(front)->Ok_0;
            assert forall|i: int| 0 <= i < items.len() implies request_of(#[trigger] items[i]) is Ok by {
                if i < front.len() {
                    assert(front[i] == items[i]);
                }
            }
            assert forall|r: RequestView| #[trigger] list.contains(r) <==> exists|i: int|
                0 <= i < items.len() && request_of(#[trigger] items[i]) == Ok::<Option<RequestView>, Seq<char>>(
                    Some(r),
                ) by {
                if list.contains(r) {
                    let j = choose|j: int| 0 <= j < list.len() && list[j] == r;
                    if j < before.len() {
                        assert(before[j] == r);
                        assert(before.contains(r));
                        let i = choose|i: int|
                            0 <= i < front.len() && request_of(#[trigger] front[i]) == Ok::<
                                Option<RequestView>,
                                Seq<char>,
                            >(Some(r));
                        assert(items[i] == front[i]);
                    }
                }
                if exists|i: int|
                    0 <= i < items.len() && request_of(#[trigger] items[i]) == Ok::<Option<RequestView>, Seq<char>>(
                        Some(r),
                    ) {
                    let i = choose|i: int|
                        0 <= i < items.len() && request_of(#[trigger] items[i]) == Ok::<
                            Option<RequestView>,
                            Seq<char>,
                        >(Some(r));
                    if i < front.len() {
                        assert(front[i] == items[i]);
                        assert(before.contains(r));
                        let j = choose|j: int| 0 <= j < before.len() && before[j] == r;
                        assert(list[j] == r);
                    } else if !before.contains(r) {
                        assert(list[before.len() as int] == r);
                    }
                }
            }
            assert forall|k: int| 0 <= k <= items.len() implies (#[trigger] requests_of(items.take(k)) matches Ok(
                first,
            ) && first.is_prefix_of(list)) by {
                if k < items.len() {
                    assert(items.take(k) =~= front.take(k));
                    let first = requests_of(front.take(k))->Ok_0;
                    assert(first.is_prefix_of(before));
                    assert forall|j: int| 0 <= j < first.len() implies first[j] == list[j] by {
                        assert(first[j] == before[j]);
                    }
                    assert(first =~= list.subrange(0, first.len() as int));
                } else {
                    assert(items.take(k) =~= items);
                    assert(list =~= list.subrange(0, list.len() as int));
                }
            }
        }
    } else {
        assert forall|k: int| 0 <= k <= items.len() implies (#[trigger] requests_of(items.take(k)) matches Ok(first)
            && first.is_prefix_of(requests_of(items)->Ok_0)) by {
            assert(items.take(k) =~= items);
        }
    }
}

/// What is run on the host, word by word: the update and the installation by each package manager, by
/// `sudo` where that is wanted, and the question whether a package is installed, which is never asked by
/// `sudo` and shows nothing.
pub proof fn law_host_commands_word_by_word(root: Seq<u8>, request: RequestView, use_sudo: bool)
    ensures
        ({
            let update = update_steps(root, request.manager, use_sudo);
            let install = install_steps(root, request, use_sudo);
            let ask = installed_command(root, request);
            &&& update.len() == 2 && update[0] is Log && update[1] is Run
            &&& install.len() == 2 && install[0] is Log && install[1] is Run
            &&& said(update[1]->Run_command) == prefixed(
                use_sudo,
                match request.manager {
                    HostPackageManager::Brew => seq!["brew"@, "update"@],
                    HostPackageManager::Apt => seq!["apt-get"@, "update"@],
                    HostPackageManager::Pacman => seq!["pacman"@, "-Sy"@, "--noconfirm"@],
                },
            )
            &&& said(install[1]->Run_command) == prefixed(
                use_sudo,
                match request.manager {
                    HostPackageManager::Brew => seq!["brew"@, "install"@, request.package],
                    HostPackageManager::Apt => seq!["apt-get"@, "install"@, "-y"@, request.package],
                    HostPackageManager::Pacman => seq!["pacman"@, "-S"@, "--noconfirm"@, request.package],
                },
            )
            &&& said(ask) == prefixed(
                false,
                match request.manager {
                    HostPackageManager::Brew => seq!["brew"@, "list"@, "--versions"@, request.package],
                    HostPackageManager::Apt => seq!["dpkg"@, "-s"@, request.package],
                    HostPackageManager::Pacman => seq!["pacman"@, "-Qi"@, request.package],
                },
            )
            &&& ask.quiet && ask.dir == Some(root) && ask.envs.len() == 0
            &&& update[1]->Run_command.dir == Some(root) && install[1]->Run_command.dir == Some(root)
            &&& update[1]->Run_command.envs.len() == 0 && install[1]->Run_command.envs.len() == 0
        }),
{
    let update = update_steps(root, request.manager, use_sudo);
    let install = install_steps(root, request, use_sudo);
    let ask = installed_command(root, request);
    match request.manager {
        HostPackageManager::Brew => {
            assert(said(update[1]->Run_command) =~= prefixed(use_sudo, seq!["brew"@, "update"@]));
            assert(said(install[1]->Run_command) =~= prefixed(use_sudo, seq!["brew"@, "install"@, request.package]));
            assert(said(ask) =~= prefixed(false, seq!["brew"@, "list"@, "--versions"@, request.package]));
        },
        HostPackageManager::Apt => {
            assert(said(update[1]->Run_command) =~= prefixed(use_sudo, seq!["apt-get"@, "update"@]));
            assert(said(install[1]->Run_command) =~= prefixed(
                use_sudo,
                seq!["apt-get"@, "install"@, "-y"@, request.package],
            ));
            assert(said(ask) =~= prefixed(false, seq!["dpkg"@, "-s"@, request.package]));
        },
        HostPackageManager::Pacman => {
            assert(said(update[1]->Run_command) =~= prefixed(use_sudo, seq!["pacman"@, "-Sy"@, "--noconfirm"@]));
            assert(said(install[1]->Run_command) =~= prefixed(
                use_sudo,
                seq!["pacman"@, "-S"@, "--noconfirm"@, request.package],
            ));
            assert(said(ask) =~= prefixed(false, seq!["pacman"@, "-Qi"@, request.package]));
        },
    }
}

/// The words of a command, its program first.
pub open spec fn said(command: CommandView) -> Seq<ArgView> {
    seq![command.program] + command.args
}

/// The words of a command, after `sudo` where that is wanted.
pub open spec fn prefixed(use_sudo: bool, words: Seq<Seq<char>>) -> Seq<ArgView> {
    (if use_sudo { seq![ArgView::Text("sudo"@)] } else { Seq::empty() }) + words.map_values(
        |w: Seq<char>| ArgView::Text(w),
    )
}

/// Of several items of `[system_packages]` with errors the first counts.
pub proof fn law_first_wrong_request_counts(items: Seq<Seq<char>>)
    requires
        requests_of(items) is Err,
    ensures
        exists|k: int|
            0 <= k < items.len() && requests_of(items.take(k)) is Ok && (request_of(#[trigger] items[k]) matches Err(
                e,
            ) && requests_of(items) == Err::<Seq<RequestView>, Seq<char>>(e)),
    decreases items.len(),
{
    let front = items.drop_last();
    if requests_of(front) is Err {
        law_first_wrong_request_counts(front);
        let k = choose|k: int|
            0 <= k < front.len() && requests_of(front.take(k)) is Ok && (request_of(#[trigger] front[k]) matches Err(
                e,
            ) && requests_of(front) == Err::<Seq<RequestView>, Seq<char>>(e));
        assert(front.take(k) =~= items.take(k));
        assert(items[k] == front[k]);
    } else {
        let k = items.len() - 1;
        assert(items.take(k) =~= front);
        assert(items[k] == items.last());
    }
}

/// What is wrong with an item of `[system_packages]` is told with its own words: first that it has no `:`,
/// then that its package manager is none, then that it names no package, then that its package may not be
/// named so.
pub proof fn law_wrong_requests_are_told_in_their_words(item: Seq<char>, left: Seq<char>, right: Seq<char>)
    requires
        request_of(item) is Err,
    ensures
        ({
            let whole = trimmed(item);
            let name = lowered(trimmed(left));
            let known = name == "brew"@ || name == "homebrew"@ || name == "apt"@ || name == "apt-get"@ || name
                == "pacman"@;
            let error = request_of(item)->Err_0;
            &&& !whole.contains(':') ==> error == "invalid system package entry '"@ + whole
                + "'. expected '<manager>:<package>'"@
            &&& whole == left + seq![':'] + right && !left.contains(':') ==> {
                &&& !known ==> error == "unsupported system package manager '"@ + left
                    + "'. supported: brew, apt, pacman"@
                &&& known && trimmed(right).len() == 0 ==> error == "invalid system package entry '"@ + whole
                    + "': missing package name"@
                &&& known && trimmed(right).len() > 0 ==> error == "invalid package token '"@ + trimmed(right)
                    + "' in '"@ + whole + "'. only [a-zA-Z0-9._+:/@-] are allowed"@
            }
        }),
{
    let whole = trimmed(item);
    lemma_position(whole, ':');
    if whole == left + seq![':'] + right && !left.contains(':') {
        lemma_position_is(whole, ':', left.len() as int);
        assert(whole.take(left.len() as int) =~= left);
        assert(whole.skip(left.len() as int + 1) =~= right);
    }
}

} // verus!
