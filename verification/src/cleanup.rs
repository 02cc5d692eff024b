//! Removal of what the tool leaves behind: temporary directories, the cache, a project's tools.
use vstd::prelude::*;
use vstd::string::*;
use crate::log::{log_error, log_info, log_success, log_views, Level, LogLine, LogView};
use crate::paths::{
    components, lemma_components_irreflexive, lemma_components_transitive, lemma_name_of_path, name_text, path_before,
    path_views, same_path, shown, temp_name, within, HostPath, Order, BUILD_TEMP_PREFIX, RUN_TEMP_PREFIX,
};
use crate::text::{decimal, optional_text, starts_with};

verus! {

/// What a clean run removes.
#[derive(Debug)]
pub struct CleanOptions {
    pub project_dir: HostPath,
    pub temp: bool,
    pub cache: bool,
    pub tools: bool,
    pub dry_run: bool,
}

/// What a clean run did to its targets.
#[derive(Debug)]
pub struct CleanReport {
    pub removed: Vec<HostPath>,
    pub missing: Vec<HostPath>,
    pub failed: Vec<(HostPath, String)>,
}

/// The options of a clean run that the command line asks for: everything with `all`, only the
/// temporary directories where nothing is asked for.
pub fn clean_options(dir: &HostPath, temp: bool, cache: bool, tools: bool, all: bool, dry_run: bool) -> (r:
    CleanOptions)
    ensures
        r.project_dir@ == dir@,
        r.temp == (temp || all || !(cache || tools)),
        r.cache == (cache || all),
        r.tools == (tools || all),
        (r.temp, r.cache, r.tools) == selection(temp, cache, tools, all),
        r.dry_run == dry_run,
{
    CleanOptions {
        project_dir: dir.copy(),
        temp: temp || all || !(cache || tools),
        cache: cache || all,
        tools: tools || all,
        dry_run,
    }
}

/// An entry of the directory for temporary files.
pub struct TempEntry {
    pub path: HostPath,
    pub is_dir: bool,
}

/// Whether an entry is a directory whose name starts with `prefix`.
pub open spec fn is_temp_dir(entry: TempEntry, prefix: Seq<char>) -> bool {
    entry.is_dir && name_text(entry.path@) is Some && prefix.is_prefix_of(name_text(entry.path@)->0)
}

/// The paths of the directories among `entries` whose names start with `prefix`.
pub open spec fn temp_dirs(entries: Seq<TempEntry>, prefix: Seq<char>) -> Seq<Seq<u8>>
    decreases entries.len(),
{
    if entries.len() == 0 {
        Seq::empty()
    } else if is_temp_dir(entries.last(), prefix) {
        temp_dirs(entries.drop_last(), prefix).push(entries.last().path@)
    } else {
        temp_dirs(entries.drop_last(), prefix)
    }
}

/// The paths of the directories among `entries` whose names start with `prefix`.
pub fn find_temp_dirs(entries: &Vec<TempEntry>, prefix: &str) -> (r: Vec<HostPath>)
    ensures
        path_views(r@) == temp_dirs(entries@, prefix@),
{
    let mut dirs: Vec<HostPath> = Vec::new();
    let mut i: usize = 0;
    assert(entries@.take(0) =~= Seq::empty());
    assert(path_views(dirs@) =~= Seq::empty());
    while i < entries.len()
        invariant
            i <= entries.len(),
            path_views(dirs@) == temp_dirs(entries@.take(i as int), prefix@),
        decreases entries.len() - i,
    {
        let ghost before = path_views(dirs@);
        let entry = &entries[i];
        assert(entries@.take(i + 1).drop_last() =~= entries@.take(i as int));
        if entry.is_dir {
            if let Some(name) = entry.path.name() {
                if starts_with(name.as_str(), prefix) {
                    dirs.push(entry.path.copy());
                    assert(path_views(dirs@) =~= before.push(entry.path@));
                }
            }
        }
        i = i + 1;
    }
    assert(entries@.take(i as int) =~= entries@);
    dirs
}

/// Decimal digits hold no slash.
proof fn lemma_decimal_without_slash(n: nat)
    ensures
        !decimal(n).contains('/'),
    decreases n,
{
    let digit = (48 + n % 10) as u8 as char;
    assert(digit != '/');
    if n >= 10 {
        lemma_decimal_without_slash(n / 10);
        let before = decimal(n / 10);
        assert forall|i: int| 0 <= i < decimal(n).len() implies decimal(n)[i] != '/' by {
            if i < before.len() {
                assert(before.contains(before[i]));
            }
        }
    }
}

/// A clean run finds the temporary directories that the tool makes.
pub proof fn law_temp_dirs_are_found(entry: TempEntry, temp: Seq<u8>, prefix: Seq<char>, process: nat, stamp: nat)
    requires
        entry.is_dir,
        entry.path@ == within(temp, temp_name(prefix, process, stamp)),
        !prefix.contains('/'),
    ensures
        is_temp_dir(entry, prefix),
{
    let name = temp_name(prefix, process, stamp);
    let first = decimal(process);
    let second = decimal(stamp);
    reveal_strlit("-");
    lemma_decimal_without_slash(process);
    lemma_decimal_without_slash(stamp);
    let n = prefix.len() as int;
    let m = n + 1 + first.len();
    assert forall|i: int| 0 <= i < name.len() implies name[i] != '/' by {
        if i < n {
            assert(prefix.contains(prefix[i]));
        } else if n < i < m {
            assert(first.contains(first[i - n - 1]));
        } else if i > m {
            assert(second.contains(second[i - m - 1]));
        }
    }
    assert(name[n] == '-');
    lemma_name_of_path(temp, name);
    assert(prefix =~= name.subrange(0, n));
}

/// Where a clean run may find something to remove.
pub struct CleanSites {
    /// The entries of the directory for temporary files.
    pub temp_entries: Vec<TempEntry>,
    /// The directory of the cache.
    pub cache_root: HostPath,
    /// The project's directory, where it was looked up.
    pub project_root: Option<HostPath>,
    /// The name of the tools directory.
    pub tools_dir: String,
}

/// Everything that the options select, in the order in which it is found.
pub open spec fn selected(options: CleanOptions, sites: CleanSites) -> Seq<Seq<u8>> {
    let temp = if options.temp {
        temp_dirs(sites.temp_entries@, BUILD_TEMP_PREFIX@) + temp_dirs(sites.temp_entries@, RUN_TEMP_PREFIX@)
    } else {
        Seq::empty()
    };
    let cache = if options.cache {
        seq![sites.cache_root@]
    } else {
        Seq::empty()
    };
    let tools = if options.tools && sites.project_root is Some {
        seq![within(sites.project_root->0@, sites.tools_dir@)]
    } else {
        Seq::empty()
    };
    temp + cache + tools
}

/// Whether `p` stands at index `k` of `from` and no path before it is the same.
pub open spec fn first_of(from: Seq<Seq<u8>>, k: int, p: Seq<u8>) -> bool {
    &&& 0 <= k < from.len()
    &&& from[k] == p
    &&& forall|j: int| 0 <= j < k ==> !same_path(#[trigger] from[j], p)
}

/// Whether `from` holds `p`, and no same path before it.
pub open spec fn picked(from: Seq<Seq<u8>>, p: Seq<u8>) -> bool {
    exists|k: int| first_of(from, k, p)
}

/// Whether `to` holds a path that is the same as `p`.
pub open spec fn covered(to: Seq<Seq<u8>>, p: Seq<u8>) -> bool {
    exists|i: int| 0 <= i < to.len() && same_path(#[trigger] to[i], p)
}

/// Whether `to` holds the paths of `from` in ascending order, each once and as it first occurs.
pub open spec fn sorted_selection(from: Seq<Seq<u8>>, to: Seq<Seq<u8>>) -> bool {
    &&& forall|i: int, j: int| 0 <= i < j < to.len() ==> path_before(#[trigger] to[i], #[trigger] to[j])
    &&& forall|i: int| 0 <= i < to.len() ==> #[trigger] picked(from, to[i])
    &&& forall|k: int| 0 <= k < from.len() ==> #[trigger] covered(to, from[k])
}

/// The paths of `list` in ascending order, each once.
pub fn sort_targets(list: &Vec<HostPath>) -> (r: Vec<HostPath>)
    ensures
        sorted_selection(path_views(list@), path_views(r@)),
{
    let mut out: Vec<HostPath> = Vec::new();
    let ghost from = path_views(list@);
    let mut i: usize = 0;
    assert(sorted_selection(from.take(0), path_views(out@)));
    while i < list.len()
        invariant
            i <= list.len(),
            from == path_views(list@),
            sorted_selection(from.take(i as int), path_views(out@)),
        decreases list.len() - i,
    {
        let target = &list[i];
        let ghost done = from.take(i as int);
        let ghost more = from.take(i + 1);
        let ghost before = path_views(out@);
        assert(more =~= done.push(target@));
        let mut p: usize = 0;
        let mut fresh: bool = true;
        let mut found: bool = false;
        while p < out.len() && !found
            invariant
                p <= out.len(),
                before == path_views(out@),
                forall|a: int| 0 <= a < p ==> path_before(#[trigger] before[a], target@),
                found ==> p < out.len(),
                found && fresh ==> path_before(target@, before[p as int]),
                !fresh ==> found && same_path(before[p as int], target@),
            decreases out.len() - p + (if found { 0int } else { 1int }),
        {
            assert(before[p as int] == out@[p as int]@);
            match out[p].order(target) {
                Order::Before => {
                    p = p + 1;
                },
                Order::Same => {
                    fresh = false;
                    found = true;
                },
                Order::After => {
                    found = true;
                },
            }
        }
        if fresh {
            proof {
                lemma_insert(done, before, target@, p as int);
            }
            out.insert(p, target.copy());
            assert(path_views(out@) =~= before.insert(p as int, target@));
        } else {
            proof {
                lemma_keep(done, before, target@, p as int);
            }
        }
        i = i + 1;
    }
    assert(from.take(i as int) =~= from);
    out
}

/// A path that stands between its neighbours keeps a selection sorted.
proof fn lemma_insert(done: Seq<Seq<u8>>, sorted: Seq<Seq<u8>>, t: Seq<u8>, p: int)
    requires
        sorted_selection(done, sorted),
        0 <= p <= sorted.len(),
        forall|a: int| 0 <= a < p ==> path_before(#[trigger] sorted[a], t),
        p < sorted.len() ==> path_before(t, sorted[p]),
    ensures
        sorted_selection(done.push(t), sorted.insert(p, t)),
{
    let more = done.push(t);
    let out = sorted.insert(p, t);
    assert forall|b: int| p <= b < sorted.len() implies path_before(t, #[trigger] sorted[b]) by {
        if b > p {
            lemma_components_transitive(components(t), components(sorted[p]), components(sorted[b]));
        }
    }
    assert forall|i: int, j: int| 0 <= i < j < out.len() implies path_before(#[trigger] out[i], #[trigger] out[j]) by {
        let x = if i < p { sorted[i] } else if i == p { t } else { sorted[i - 1] };
        let y = if j < p { sorted[j] } else if j == p { t } else { sorted[j - 1] };
        assert(out[i] == x && out[j] == y);
    }
    assert(first_of(more, done.len() as int, t)) by {
        assert forall|j: int| 0 <= j < done.len() implies !same_path(#[trigger] more[j], t) by {
            assert(more[j] == done[j]);
            assert(covered(sorted, done[j]));
            let m = choose|m: int| 0 <= m < sorted.len() && same_path(#[trigger] sorted[m], done[j]);
            lemma_components_irreflexive(components(t));
            assert(path_before(sorted[m], t) || path_before(t, sorted[m]));
        }
    }
    assert forall|i: int| 0 <= i < out.len() implies #[trigger] picked(more, out[i]) by {
        if i == p {
            assert(out[i] == t);
        } else {
            let m = if i < p { i } else { i - 1 };
            let x = sorted[m];
            assert(out[i] == x);
            assert(picked(done, sorted[m]));
            let k = choose|k: int| first_of(done, k, x);
            assert forall|j: int| 0 <= j < k implies !same_path(#[trigger] more[j], x) by {
                assert(more[j] == done[j]);
            }
            assert(first_of(more, k, x));
        }
    }
    assert forall|k: int| 0 <= k < more.len() implies #[trigger] covered(out, more[k]) by {
        if k == done.len() {
            assert(out[p] == t);
        } else {
            assert(more[k] == done[k]);
            assert(covered(sorted, done[k]));
            let m = choose|m: int| 0 <= m < sorted.len() && same_path(#[trigger] sorted[m], done[k]);
            let i = if m < p { m } else { m + 1 };
            assert(out[i] == sorted[m]);
        }
    }
}

/// A path that a selection already holds leaves it as it is.
proof fn lemma_keep(done: Seq<Seq<u8>>, sorted: Seq<Seq<u8>>, t: Seq<u8>, p: int)
    requires
        sorted_selection(done, sorted),
        0 <= p < sorted.len(),
        same_path(sorted[p], t),
    ensures
        sorted_selection(done.push(t), sorted),
{
    let more = done.push(t);
    assert forall|i: int| 0 <= i < sorted.len() implies #[trigger] picked(more, sorted[i]) by {
        assert(picked(done, sorted[i]));
        let k = choose|k: int| first_of(done, k, sorted[i]);
        assert forall|j: int| 0 <= j < k implies !same_path(#[trigger] more[j], sorted[i]) by {
            assert(more[j] == done[j]);
        }
        assert(first_of(more, k, sorted[i]));
    }
    assert forall|k: int| 0 <= k < more.len() implies #[trigger] covered(sorted, more[k]) by {
        if k < done.len() {
            assert(covered(sorted, done[k]));
            assert(more[k] == done[k]);
        } else {
            assert(same_path(sorted[p], t));
        }
    }
}

/// The paths that the options select, in ascending order, each once.
pub fn clean_targets(options: &CleanOptions, sites: &CleanSites) -> (r: Vec<HostPath>)
    ensures
        sorted_selection(selected(*options, *sites), path_views(r@)),
{
    let mut targets: Vec<HostPath> = Vec::new();
    if options.temp {
        targets = find_temp_dirs(&sites.temp_entries, BUILD_TEMP_PREFIX);
        let ghost first = path_views(targets@);
        let mut more: Vec<HostPath> = find_temp_dirs(&sites.temp_entries, RUN_TEMP_PREFIX);
        let ghost second = path_views(more@);
        targets.append(&mut more);
        assert(path_views(targets@) =~= first + second);
    }
    let ghost temp = path_views(targets@);
    if options.cache {
        targets.push(sites.cache_root.copy());
    }
    let ghost cache = path_views(targets@);
    if options.tools {
        if let Some(project_root) = &sites.project_root {
            targets.push(project_root.join(sites.tools_dir.as_str()));
        }
    }
    assert(path_views(targets@) =~= selected(*options, *sites));
    sort_targets(&targets)
}

/// The first `n` paths of two sorted selections of the same list agree.
proof fn lemma_selections_agree(from: Seq<Seq<u8>>, a: Seq<Seq<u8>>, b: Seq<Seq<u8>>, n: int)
    requires
        sorted_selection(from, a),
        sorted_selection(from, b),
        0 <= n <= a.len(),
    ensures
        n <= b.len(),
        forall|i: int| 0 <= i < n ==> a[i] == b[i],
    decreases n,
{
    if n > 0 {
        let i = n - 1;
        lemma_selections_agree(from, a, b, i);
        assert(picked(from, a[i]));
        let k = choose|k: int| first_of(from, k, a[i]);
        assert(covered(b, from[k]));
        let m = choose|m: int| 0 <= m < b.len() && same_path(#[trigger] b[m], from[k]);
        if m < i {
            assert(b[m] == a[m]);
            assert(path_before(a[m], a[i]));
            lemma_components_irreflexive(components(a[i]));
        }
        assert(picked(from, b[i]));
        let l = choose|l: int| first_of(from, l, b[i]);
        assert(covered(a, from[l]));
        let q = choose|q: int| 0 <= q < a.len() && same_path(#[trigger] a[q], from[l]);
        if q < i {
            assert(path_before(b[q], b[i]));
            lemma_components_irreflexive(components(b[i]));
        }
        if m > i {
            assert(path_before(b[i], b[m]));
            lemma_components_irreflexive(components(b[i]));
            if q > i {
                assert(path_before(a[i], a[q]));
                lemma_components_transitive(components(b[i]), components(b[m]), components(a[q]));
            }
        }
        assert(same_path(a[i], b[i]));
        if k < l {
            assert(same_path(from[k], b[i]));
        } else if l < k {
            assert(same_path(from[l], a[i]));
        }
    }
}

/// Only one list is the sorted selection of another: which paths a clean run goes through, and in
/// which order, depends on nothing but what it found.
pub proof fn law_selection_is_unique(from: Seq<Seq<u8>>, a: Seq<Seq<u8>>, b: Seq<Seq<u8>>)
    requires
        sorted_selection(from, a),
        sorted_selection(from, b),
    ensures
        a == b,
{
    lemma_selections_agree(from, a, b, a.len() as int);
    lemma_selections_agree(from, b, a, b.len() as int);
    assert(a =~= b);
}

/// A clean run on its way through its targets.
pub struct CleanRun {
    pub targets: Vec<HostPath>,
    pub dry_run: bool,
    pub next: usize,
    pub report: CleanReport,
}

/// A clean run on its way through its targets.
pub struct CleanState {
    pub targets: Seq<Seq<u8>>,
    pub dry_run: bool,
    pub next: int,
    pub removed: Seq<Seq<u8>>,
    pub missing: Seq<Seq<u8>>,
    pub failed: Seq<(Seq<u8>, Seq<char>)>,
}

/// What is to be done with the target at hand.
#[derive(Debug, Clone, Copy, PartialEq, Eq, Structural)]
pub enum CleanAction {
    /// Nothing: go on with the next target.
    Next,
    /// Remove it and tell how that went.
    Remove,
}

/// What became of a target when its turn came.
pub enum Fate {
    /// It was not there.
    Absent,
    /// It was there; the error tells why it could not be removed, where that was tried and failed.
    Present(Option<Seq<char>>),
}

/// The failures that a list holds.
pub open spec fn failure_views(list: Seq<(HostPath, String)>) -> Seq<(Seq<u8>, Seq<char>)> {
    list.map_values(|f: (HostPath, String)| (f.0@, f.1@))
}

impl View for CleanRun {
    type V = CleanState;

    open spec fn view(&self) -> CleanState {
        CleanState {
            targets: path_views(self.targets@),
            dry_run: self.dry_run,
            next: self.next as int,
            removed: path_views(self.report.removed@),
            missing: path_views(self.report.missing@),
            failed: failure_views(self.report.failed@),
        }
    }
}

impl CleanState {
    /// The run before its first target.
    pub open spec fn start(targets: Seq<Seq<u8>>, dry_run: bool) -> CleanState {
        CleanState {
            targets,
            dry_run,
            next: 0,
            removed: Seq::empty(),
            missing: Seq::empty(),
            failed: Seq::empty(),
        }
    }

    /// Whether a target is at hand.
    pub open spec fn pending(self) -> bool {
        0 <= self.next < self.targets.len()
    }

    /// The run after the target at hand met its fate. A dry run reports what is there as removed.
    pub open spec fn after(self, fate: Fate) -> CleanState {
        let target = self.targets[self.next];
        match fate {
            Fate::Absent => CleanState { next: self.next + 1, missing: self.missing.push(target), ..self },
            Fate::Present(Some(error)) if !self.dry_run => CleanState {
                next: self.next + 1,
                failed: self.failed.push((target, error)),
                ..self
            },
            Fate::Present(_) => CleanState { next: self.next + 1, removed: self.removed.push(target), ..self },
        }
    }

    /// The run after its first targets met their fates.
    pub open spec fn after_all(self, fates: Seq<Fate>) -> CleanState
        decreases fates.len(),
    {
        if fates.len() == 0 {
            self
        } else {
            self.after_all(fates.drop_last()).after(fates.last())
        }
    }
}

/// Starts a clean run.
pub fn run_clean(options: &CleanOptions, sites: &CleanSites) -> (r: CleanRun)
    ensures
        sorted_selection(selected(*options, *sites), r@.targets),
        r@ == CleanState::start(r@.targets, options.dry_run),
{
    let r = CleanRun {
        targets: clean_targets(options, sites),
        dry_run: options.dry_run,
        next: 0,
        report: CleanReport { removed: Vec::new(), missing: Vec::new(), failed: Vec::new() },
    };
    assert(r@.removed =~= Seq::empty() && r@.missing =~= Seq::empty() && r@.failed =~= Seq::empty());
    r
}

impl CleanRun {
    /// The target at hand.
    pub fn target(&self) -> (r: Option<&HostPath>)
        ensures
            r is Some == self@.pending(),
            r matches Some(p) ==> p@ == self@.targets[self@.next],
    {
        if self.next < self.targets.len() {
            Some(&self.targets[self.next])
        } else {
            None
        }
    }

    /// Takes note of whether the target at hand exists, and says what to do with it. A dry run
    /// never removes anything.
    pub fn found(&mut self, present: bool) -> (r: CleanAction)
        requires
            old(self)@.pending(),
        ensures
            present && !old(self)@.dry_run ==> r == CleanAction::Remove && final(self)@ == old(self)@,
            present && old(self)@.dry_run ==> r == CleanAction::Next && final(self)@ == old(self)@.after(
                Fate::Present(None),
            ),
            !present ==> r == CleanAction::Next && final(self)@ == old(self)@.after(Fate::Absent),
    {
        let ghost before = self@;
        let n: usize = self.targets.len();
        assert(self.next < n);
        let target = self.targets[self.next].copy();
        if !present {
            self.report.missing.push(target);
            self.next = self.next + 1;
            assert(self@.missing =~= before.missing.push(target@));
            CleanAction::Next
        } else if self.dry_run {
            self.report.removed.push(target);
            self.next = self.next + 1;
            assert(self@.removed =~= before.removed.push(target@));
            CleanAction::Next
        } else {
            CleanAction::Remove
        }
    }

    /// Takes note of how the removal of the target at hand went.
    pub fn removed(&mut self, error: Option<String>)
        requires
            old(self)@.pending(),
            !old(self)@.dry_run,
        ensures
            final(self)@ == old(self)@.after(Fate::Present(optional_text(error))),
    {
        let ghost before = self@;
        let n: usize = self.targets.len();
        assert(self.next < n);
        let target = self.targets[self.next].copy();
        match error {
            Some(message) => {
                self.report.failed.push((target, message));
                self.next = self.next + 1;
                assert(self@.failed =~= before.failed.push((target@, message@)));
            },
            None => {
                self.report.removed.push(target);
                self.next = self.next + 1;
                assert(self@.removed =~= before.removed.push(target@));
            },
        }
    }
}

/// The lists of a report.
#[derive(Clone, Copy, PartialEq, Eq, Structural)]
pub enum ReportList {
    Removed,
    Missing,
    Failed,
}

/// The list of the report that a fate leads to.
pub open spec fn list_for(fate: Fate, dry_run: bool) -> ReportList {
    match fate {
        Fate::Absent => ReportList::Missing,
        Fate::Present(Some(_)) if !dry_run => ReportList::Failed,
        Fate::Present(_) => ReportList::Removed,
    }
}

/// The targets whose fates lead to `list`, in their order.
pub open spec fn listed(targets: Seq<Seq<u8>>, fates: Seq<Fate>, dry_run: bool, list: ReportList) -> Seq<
    Seq<u8>,
>
    decreases fates.len(),
{
    if fates.len() == 0 {
        Seq::empty()
    } else if list_for(fates.last(), dry_run) == list {
        listed(targets, fates.drop_last(), dry_run, list).push(targets[fates.len() - 1])
    } else {
        listed(targets, fates.drop_last(), dry_run, list)
    }
}

/// The paths of failures.
pub open spec fn failed_paths(failed: Seq<(Seq<u8>, Seq<char>)>) -> Seq<Seq<u8>> {
    failed.map_values(|f: (Seq<u8>, Seq<char>)| f.0)
}

/// Every target ends up in exactly one list of the report: what was not there in `missing`, what
/// could not be removed in `failed`, all else in `removed`, each list in the order of the targets.
pub proof fn law_report_partitions_targets(targets: Seq<Seq<u8>>, dry_run: bool, fates: Seq<Fate>)
    requires
        fates.len() <= targets.len(),
    ensures
        CleanState::start(targets, dry_run).after_all(fates).next == fates.len(),
        CleanState::start(targets, dry_run).after_all(fates).targets == targets,
        CleanState::start(targets, dry_run).after_all(fates).dry_run == dry_run,
        CleanState::start(targets, dry_run).after_all(fates).missing == listed(
            targets,
            fates,
            dry_run,
            ReportList::Missing,
        ),
        CleanState::start(targets, dry_run).after_all(fates).removed == listed(
            targets,
            fates,
            dry_run,
            ReportList::Removed,
        ),
        failed_paths(CleanState::start(targets, dry_run).after_all(fates).failed) == listed(
            targets,
            fates,
            dry_run,
            ReportList::Failed,
        ),
        listed(targets, fates, dry_run, ReportList::Missing).len() + listed(
            targets,
            fates,
            dry_run,
            ReportList::Removed,
        ).len() + listed(targets, fates, dry_run, ReportList::Failed).len() == fates.len(),
    decreases fates.len(),
{
    let start = CleanState::start(targets, dry_run);
    if fates.len() == 0 {
        assert(failed_paths(start.failed) =~= Seq::empty());
    } else {
        law_report_partitions_targets(targets, dry_run, fates.drop_last());
        let before = start.after_all(fates.drop_last());
        let end = before.after(fates.last());
        assert(failed_paths(end.failed) =~= if list_for(fates.last(), dry_run) == ReportList::Failed {
            failed_paths(before.failed).push(targets[fates.len() - 1])
        } else {
            failed_paths(before.failed)
        });
    }
}

/// A dry run reports no failure, whatever the fates of its targets.
pub proof fn law_dry_run_never_fails(targets: Seq<Seq<u8>>, fates: Seq<Fate>)
    requires
        fates.len() <= targets.len(),
    ensures
        CleanState::start(targets, true).after_all(fates).failed.len() == 0,
    decreases fates.len(),
{
    if fates.len() > 0 {
        law_report_partitions_targets(targets, true, fates.drop_last());
        law_dry_run_never_fails(targets, fates.drop_last());
    }
}

/// A note in the log.
pub open spec fn note(message: Seq<char>) -> LogView {
    LogView { level: Level::Info, message }
}

/// The notes on what was removed, or would be.
pub open spec fn removed_lines(list: Seq<HostPath>, dry_run: bool) -> Seq<LogView> {
    let word = if dry_run { "Would remove "@ } else { "Removed "@ };
    list.map_values(|p: HostPath| note(word + shown(p@)))
}

/// The notes on what was not there.
pub open spec fn missing_lines(list: Seq<HostPath>) -> Seq<LogView> {
    list.map_values(|p: HostPath| note("Not found "@ + shown(p@)))
}

/// The errors on what could not be removed.
pub open spec fn failed_lines(list: Seq<(HostPath, String)>) -> Seq<LogView> {
    list.map_values(
        |f: (HostPath, String)|
            LogView {
                level: Level::Error,
                message: "Failed to remove "@ + shown(f.0@) + " ("@ + f.1@ + ")"@,
            },
    )
}

/// The lines of the log that tell what a clean run did.
pub open spec fn report_lines(report: CleanReport, dry_run: bool) -> Seq<LogView> {
    let head = if dry_run { seq![note("Dry-run mode: no files were removed"@)] } else { Seq::empty() };
    let tail = if report.failed@.len() == 0 {
        seq![LogView { level: Level::Success, message: "Clean completed"@ }]
    } else {
        Seq::empty()
    };
    head + removed_lines(report.removed@, dry_run) + missing_lines(report.missing@) + failed_lines(
        report.failed@,
    ) + tail
}

/// What a clean run tells at its end: the lines of the log, and whether it failed.
pub fn clean_artifacts(report: &CleanReport, dry_run: bool) -> (r: (Vec<LogLine>, Result<(), String>))
    ensures
        log_views(r.0@) == report_lines(*report, dry_run),
        r.1 is Ok <==> report.failed@.len() == 0,
        r.1 matches Err(message) ==> message@ == "clean completed with failures"@,
{
    let mut lines: Vec<LogLine> = Vec::new();
    if dry_run {
        lines.push(log_info("Dry-run mode: no files were removed"));
    }
    let word = if dry_run { "Would remove " } else { "Removed " };
    let ghost head = log_views(lines@);
    let ghost removed = removed_lines(report.removed@, dry_run);
    let mut i: usize = 0;
    assert(log_views(lines@) =~= head + removed.take(0));
    while i < report.removed.len()
        invariant
            i <= report.removed.len(),
            word@ == (if dry_run { "Would remove "@ } else { "Removed "@ }),
            removed == removed_lines(report.removed@, dry_run),
            log_views(lines@) == head + removed.take(i as int),
        decreases report.removed.len() - i,
    {
        let ghost before = log_views(lines@);
        let line = log_info(word.to_string().concat(report.removed[i].display().as_str()).as_str());
        assert(line@ == removed[i as int]);
        lines.push(line);
        assert(log_views(lines@) =~= before.push(removed[i as int]));
        i = i + 1;
        assert(log_views(lines@) =~= head + removed.take(i as int));
    }
    let ghost base = log_views(lines@);
    let ghost missing = missing_lines(report.missing@);
    let mut j: usize = 0;
    assert(log_views(lines@) =~= base + missing.take(0));
    while j < report.missing.len()
        invariant
            j <= report.missing.len(),
            missing == missing_lines(report.missing@),
            log_views(lines@) == base + missing.take(j as int),
        decreases report.missing.len() - j,
    {
        let ghost before = log_views(lines@);
        let line = log_info("Not found ".to_string().concat(report.missing[j].display().as_str()).as_str());
        assert(line@ == missing[j as int]);
        lines.push(line);
        assert(log_views(lines@) =~= before.push(missing[j as int]));
        j = j + 1;
        assert(log_views(lines@) =~= base + missing.take(j as int));
    }
    let ghost both = log_views(lines@);
    let ghost failed = failed_lines(report.failed@);
    let mut k: usize = 0;
    assert(log_views(lines@) =~= both + failed.take(0));
    while k < report.failed.len()
        invariant
            k <= report.failed.len(),
            failed == failed_lines(report.failed@),
            log_views(lines@) == both + failed.take(k as int),
        decreases report.failed.len() - k,
    {
        let ghost before = log_views(lines@);
        let failure = &report.failed[k];
        let message = "Failed to remove ".to_string().concat(failure.0.display().as_str()).concat(" (").concat(
            failure.1.as_str(),
        ).concat(")");
        let line = log_error(message.as_str());
        assert(line@ == failed[k as int]);
        lines.push(line);
        assert(log_views(lines@) =~= before.push(failed[k as int]));
        k = k + 1;
        assert(log_views(lines@) =~= both + failed.take(k as int));
    }
    assert(removed.take(i as int) =~= removed && missing.take(j as int) =~= missing && failed.take(k as int)
        =~= failed);
    if report.failed.len() == 0 {
        let ghost before = log_views(lines@);
        lines.push(log_success("Clean completed"));
        assert(log_views(lines@) =~= before.push(LogView { level: Level::Success, message: "Clean completed"@ }));
        assert(log_views(lines@) =~= report_lines(*report, dry_run));
        (lines, Ok(()))
    } else {
        assert(log_views(lines@) =~= report_lines(*report, dry_run));
        (lines, Err("clean completed with failures".to_string()))
    }
}

/// Whether `p` is the path of a temporary directory of the tool among `entries`.
pub open spec fn is_left_behind(entries: Seq<TempEntry>, p: Seq<u8>) -> bool {
    exists|i: int|
        0 <= i < entries.len() && (#[trigger] entries[i]).path@ == p && entries[i].is_dir && (name_text(p) matches Some(
            name,
        ) && ("tortia-build"@.is_prefix_of(name) || "tortia-run"@.is_prefix_of(name)))
}

/// The temporary directories with a prefix are the entries that are directories and have it.
proof fn lemma_temp_dirs_hold(entries: Seq<TempEntry>, prefix: Seq<char>, p: Seq<u8>)
    ensures
        temp_dirs(entries, prefix).contains(p) <==> exists|i: int|
            0 <= i < entries.len() && (#[trigger] entries[i]).path@ == p && entries[i].is_dir && name_text(
                p,
            ) is Some && prefix.is_prefix_of(name_text(p)->0),
    decreases entries.len(),
{
    if entries.len() > 0 {
        let front = entries.drop_last();
        lemma_temp_dirs_hold(front, prefix, p);
        let all = temp_dirs(entries, prefix);
        let before = temp_dirs(front, prefix);
        if all.contains(p) {
            let k = choose|k: int| 0 <= k < all.len() && all[k] == p;
            if k < before.len() {
                assert(before[k] == p);
                let i = choose|i: int|
                    0 <= i < front.len() && (#[trigger] front[i]).path@ == p && front[i].is_dir && name_text(
                        p,
                    ) is Some && prefix.is_prefix_of(name_text(p)->0);
                assert(entries[i] == front[i]);
            } else {
                assert(entries[entries.len() - 1].path@ == p);
            }
        }
        if exists|i: int|
            0 <= i < entries.len() && (#[trigger] entries[i]).path@ == p && entries[i].is_dir && name_text(
                p,
            ) is Some && prefix.is_prefix_of(name_text(p)->0) {
            let i = choose|i: int|
                0 <= i < entries.len() && (#[trigger] entries[i]).path@ == p && entries[i].is_dir && name_text(
                    p,
                ) is Some && prefix.is_prefix_of(name_text(p)->0);
            if i < front.len() {
                assert(front[i] == entries[i]);
                let k = choose|k: int| 0 <= k < before.len() && before[k] == p;
                assert(all[k] == p);
            } else {
                assert(all[before.len() as int] == p);
            }
        }
    }
}

/// Whether the options ask for a path: as a temporary directory of the tool, as the directory of the
/// cache or as the tools directory of the project.
pub open spec fn asked_for(options: CleanOptions, sites: CleanSites, p: Seq<u8>) -> bool {
    ||| options.temp && is_left_behind(sites.temp_entries@, p)
    ||| options.cache && p == sites.cache_root@
    ||| options.tools && sites.project_root is Some && p == within(sites.project_root->0@, sites.tools_dir@)
}

/// What a clean run removes is what its options ask for. Every target is a temporary directory of the
/// tool and the options ask for those, or the directory of the cache and they ask for it, or the tools
/// directory of the project and they ask for it; and each of these that they ask for is a target. No two
/// targets are the same path.
pub proof fn law_targets_are_what_is_asked_for(options: CleanOptions, sites: CleanSites, targets: Seq<Seq<u8>>)
    requires
        sorted_selection(selected(options, sites), targets),
    ensures
        forall|i: int| 0 <= i < targets.len() ==> asked_for(options, sites, #[trigger] targets[i]),
        options.temp ==> forall|p: Seq<u8>|
            #[trigger] is_left_behind(sites.temp_entries@, p) ==> exists|i: int|
                0 <= i < targets.len() && same_path(#[trigger] targets[i], p),
        options.cache ==> exists|i: int| 0 <= i < targets.len() && same_path(#[trigger] targets[i], sites.cache_root@),
        options.tools && sites.project_root is Some ==> exists|i: int|
            0 <= i < targets.len() && same_path(
                #[trigger] targets[i],
                within(sites.project_root->0@, sites.tools_dir@),
            ),
        forall|i: int, j: int|
            0 <= i < j < targets.len() ==> !same_path(#[trigger] targets[i], #[trigger] targets[j]),
{
    let from = selected(options, sites);
    let entries = sites.temp_entries@;
    let builds = temp_dirs(entries, "tortia-build"@);
    let runs = temp_dirs(entries, "tortia-run"@);
    assert forall|i: int| 0 <= i < targets.len() implies asked_for(options, sites, #[trigger] targets[i]) by {
        let p = targets[i];
        assert(picked(from, targets[i]));
        let k = choose|k: int| first_of(from, k, p);
        lemma_temp_dirs_hold(entries, "tortia-build"@, p);
        lemma_temp_dirs_hold(entries, "tortia-run"@, p);
        if options.temp && k < builds.len() {
            assert(builds[k] == p);
        } else if options.temp && k < builds.len() + runs.len() {
            assert(runs[k - builds.len()] == p);
        }
    }
    assert forall|k: int| 0 <= k < from.len() implies exists|i: int|
        0 <= i < targets.len() && same_path(#[trigger] targets[i], #[trigger] from[k]) by {
        assert(covered(targets, from[k]));
    }
    if options.temp {
        assert forall|p: Seq<u8>| #[trigger] is_left_behind(entries, p) implies exists|i: int|
            0 <= i < targets.len() && same_path(#[trigger] targets[i], p) by {
            lemma_temp_dirs_hold(entries, "tortia-build"@, p);
            lemma_temp_dirs_hold(entries, "tortia-run"@, p);
            if builds.contains(p) {
                let k = choose|k: int| 0 <= k < builds.len() && builds[k] == p;
                assert(from[k] == p);
            } else {
                let k = choose|k: int| 0 <= k < runs.len() && runs[k] == p;
                assert(from[builds.len() + k] == p);
            }
        }
    }
    let n = if options.temp { builds.len() + runs.len() } else { 0 };
    if options.cache {
        assert(from[n as int] == sites.cache_root@);
    }
    if options.tools && sites.project_root is Some {
        assert(from[from.len() - 1] == within(sites.project_root->0@, sites.tools_dir@));
    }
    assert forall|i: int, j: int| 0 <= i < j < targets.len() implies !same_path(
        #[trigger] targets[i],
        #[trigger] targets[j],
    ) by {
        assert(path_before(targets[i], targets[j]));
        lemma_components_irreflexive(components(targets[i]));
    }
}

/// The command line selects what is removed: everything with `all`, the temporary directories where
/// neither the cache nor the tools are asked for, and else just what is asked for.
pub open spec fn selection(temp: bool, cache: bool, tools: bool, all: bool) -> (bool, bool, bool) {
    if all {
        (true, true, true)
    } else if !cache && !tools {
        (true, false, false)
    } else {
        (temp, cache, tools)
    }
}

/// Nothing is removed that is not asked for: without `all`, the cache and the tools are removed only by
/// their own flags, and the temporary directories by theirs or where no other flag is given.
pub proof fn law_flags_select_what_they_name(temp: bool, cache: bool, tools: bool, all: bool)
    ensures
        ({
            let (t, c, p) = selection(temp, cache, tools, all);
            &&& c <==> cache || all
            &&& p <==> tools || all
            &&& t <==> temp || all || (!cache && !tools)
        }),
{
}

/// What becomes of a target. One that was not there is reported as missing; one that could not be removed
/// is reported as failed with the error, except in a dry run, which removes nothing; every other one is
/// reported as removed. It goes into one list only, and the run goes on with the next target.
pub proof fn law_targets_are_reported_as_they_fared(run: CleanState, error: Seq<char>)
    requires
        run.pending(),
    ensures
        ({
            let target = run.targets[run.next];
            let absent = run.after(Fate::Absent);
            let gone = run.after(Fate::Present(None));
            let stuck = run.after(Fate::Present(Some(error)));
            &&& absent.missing == run.missing.push(target) && absent.removed == run.removed && absent.failed
                == run.failed
            &&& gone.removed == run.removed.push(target) && gone.missing == run.missing && gone.failed == run.failed
            &&& run.dry_run ==> stuck == gone
            &&& !run.dry_run ==> stuck.failed == run.failed.push((target, error)) && stuck.removed == run.removed
                && stuck.missing == run.missing
            &&& forall|fate: Fate|
                (#[trigger] run.after(fate)).next == run.next + 1 && run.after(fate).targets == run.targets
                    && run.after(fate).dry_run == run.dry_run
        }),
{
}

/// The log of a clean run has a line for every target: what was removed, or would be in a dry run, then
/// what was not there, then what could not be removed, each with its path. A dry run says so first, and
/// only a run without failures says at its end that it is complete.
pub proof fn law_every_target_has_its_line(report: CleanReport, dry_run: bool, i: int)
    ensures
        ({
            let lines = report_lines(report, dry_run);
            let head = if dry_run { 1int } else { 0 };
            let removed = report.removed@.len();
            let missing = report.missing@.len();
            let failed = report.failed@.len();
            let word = if dry_run { "Would remove "@ } else { "Removed "@ };
            &&& lines.len() == head + removed + missing + failed + (if failed == 0 { 1int } else { 0 })
            &&& dry_run ==> lines[0] == (LogView {
                level: Level::Info,
                message: "Dry-run mode: no files were removed"@,
            })
            &&& 0 <= i < removed ==> lines[head + i] == (LogView {
                level: Level::Info,
                message: word + shown(report.removed@[i]@),
            })
            &&& 0 <= i < missing ==> lines[head + removed + i] == (LogView {
                level: Level::Info,
                message: "Not found "@ + shown(report.missing@[i]@),
            })
            &&& 0 <= i < failed ==> lines[head + removed + missing + i] == (LogView {
                level: Level::Error,
                message: "Failed to remove "@ + shown(report.failed@[i].0@) + " ("@ + report.failed@[i].1@ + ")"@,
            })
            &&& failed == 0 ==> lines.last() == (LogView { level: Level::Success, message: "Clean completed"@ })
        }),
{
}

} // verus!
