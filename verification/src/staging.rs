//! The way of the project's files into the payload.
use vstd::prelude::*;
use vstd::string::*;
use crate::bundle::{
    copy_entry, copy_include, excluded, host_names, name_views, rel_text, rel_views, EntryAction, IncludeAction,
    RelPath,
};
use crate::command::{Plan, Step, StepView};
use crate::paths::{joined, shown, HostPath};
use crate::text::optional_text;

verus! {

/// What an entry of a directory is.
#[derive(Debug, Clone, Copy, PartialEq, Eq, Structural)]
pub enum EntryKind {
    File,
    Directory,
    Link,
}

/// An entry of a directory.
pub struct Entry {
    pub name: Vec<u8>,
    pub kind: EntryKind,
}

/// An entry of a directory.
pub struct EntryView {
    pub name: Seq<u8>,
    pub kind: EntryKind,
}

impl View for Entry {
    type V = EntryView;

    open spec fn view(&self) -> EntryView {
        EntryView { name: self.name@, kind: self.kind }
    }
}

/// The entries that a list holds.
pub open spec fn entry_views(list: Seq<Entry>) -> Seq<EntryView> {
    list.map_values(|e: Entry| e@)
}

/// Something below the project that is still to be dealt with.
pub struct Pending {
    /// The names on the way from the project.
    pub names: Vec<Vec<u8>>,
    pub kind: EntryKind,
}

/// Something below the project that is still to be dealt with.
pub struct PendingView {
    pub names: Seq<Seq<u8>>,
    pub kind: EntryKind,
}

impl View for Pending {
    type V = PendingView;

    open spec fn view(&self) -> PendingView {
        PendingView { names: name_views(self.names@), kind: self.kind }
    }
}

/// What is still to be dealt with, as a list holds it.
pub open spec fn pending_views(list: Seq<Pending>) -> Seq<PendingView> {
    list.map_values(|p: Pending| p@)
}

/// The path that names lead to from a directory.
pub open spec fn at(root: Seq<u8>, names: Seq<Seq<u8>>) -> Seq<u8>
    decreases names.len(),
{
    if names.len() == 0 {
        root
    } else {
        joined(at(root, names.drop_last()), names.last())
    }
}

/// What the copying waits for.
pub enum Wait {
    Nothing,
    /// What the project holds at the path to take in next.
    Include,
    /// The entries of the directory that these names lead to.
    Listing(Vec<Vec<u8>>),
}

/// What the copying waits for.
pub enum WaitView {
    Nothing,
    Include,
    Listing(Seq<Seq<u8>>),
}

impl View for Wait {
    type V = WaitView;

    open spec fn view(&self) -> WaitView {
        match *self {
            Wait::Nothing => WaitView::Nothing,
            Wait::Include => WaitView::Include,
            Wait::Listing(names) => WaitView::Listing(name_views(names@)),
        }
    }
}

/// What is to be done next.
pub enum CopyAction {
    /// See what the project holds at a path to take in.
    Look(HostPath),
    /// List a directory.
    List(HostPath),
    /// Make a directory of the payload, and list the one of the project.
    Enter { made: HostPath, dir: HostPath },
    /// Copy a file, into a directory that is made where it is missing.
    Copy { from: HostPath, to: HostPath },
    /// Nothing: all is copied.
    Finished,
    /// Nothing: the copying failed, with this error.
    Failed(String),
}

/// What is to be done next.
pub enum CopyActionView {
    Look(Seq<u8>),
    List(Seq<u8>),
    Enter { made: Seq<u8>, dir: Seq<u8> },
    Copy { from: Seq<u8>, to: Seq<u8> },
    Finished,
    Failed(Seq<char>),
}

impl View for CopyAction {
    type V = CopyActionView;

    open spec fn view(&self) -> CopyActionView {
        match *self {
            CopyAction::Look(path) => CopyActionView::Look(path@),
            CopyAction::List(path) => CopyActionView::List(path@),
            CopyAction::Enter { made, dir } => CopyActionView::Enter { made: made@, dir: dir@ },
            CopyAction::Copy { from, to } => CopyActionView::Copy { from: from@, to: to@ },
            CopyAction::Finished => CopyActionView::Finished,
            CopyAction::Failed(e) => CopyActionView::Failed(e@),
        }
    }
}

/// The copying of what goes into the bundle.
pub struct CopyRun {
    pub project_root: HostPath,
    pub stage_root: HostPath,
    pub includes: Vec<RelPath>,
    pub excludes: Vec<RelPath>,
    /// The index of the path to take in next.
    pub next: usize,
    /// What is still to be dealt with; the last comes next.
    pub todo: Vec<Pending>,
    pub wait: Wait,
    pub error: Option<String>,
}

/// The copying of what goes into the bundle.
pub struct CopyView {
    pub project: Seq<u8>,
    pub stage: Seq<u8>,
    pub includes: Seq<Seq<Seq<char>>>,
    pub excludes: Seq<Seq<Seq<char>>>,
    pub next: int,
    pub todo: Seq<PendingView>,
    pub wait: WaitView,
    pub error: Option<Seq<char>>,
}

impl View for CopyRun {
    type V = CopyView;

    open spec fn view(&self) -> CopyView {
        CopyView {
            project: self.project_root@,
            stage: self.stage_root@,
            includes: rel_views(self.includes@),
            excludes: rel_views(self.excludes@),
            next: self.next as int,
            todo: pending_views(self.todo@),
            wait: self.wait@,
            error: optional_text(self.error),
        }
    }
}

/// The error for a symbolic link.
pub open spec fn link_error(path: Seq<u8>) -> Seq<char> {
    "symlink is not supported in bundle: "@ + shown(path)
}

/// The entries of the directory that `names` lead to, the first one last.
pub open spec fn stacked(names: Seq<Seq<u8>>, entries: Seq<EntryView>) -> Seq<PendingView>
    decreases entries.len(),
{
    if entries.len() == 0 {
        Seq::empty()
    } else {
        stacked(names, entries.drop_first()).push(
            PendingView { names: names.push(entries[0].name), kind: entries[0].kind },
        )
    }
}

impl CopyView {
    /// The copying before its first step.
    pub open spec fn start(
        project: Seq<u8>,
        stage: Seq<u8>,
        includes: Seq<Seq<Seq<char>>>,
        excludes: Seq<Seq<Seq<char>>>,
    ) -> CopyView {
        CopyView {
            project,
            stage,
            includes,
            excludes,
            next: 0,
            todo: Seq::empty(),
            wait: WaitView::Nothing,
            error: None,
        }
    }

    /// What every copying keeps to.
    pub open spec fn valid(self) -> bool {
        &&& 0 <= self.next <= self.includes.len()
        &&& self.wait is Include ==> self.next < self.includes.len() && self.includes[self.next].len() > 0
    }

    /// The next step: what is to be done, and the copying once it is begun. A symbolic link is an
    /// error, even where it would be left out.
    pub open spec fn step(self) -> (CopyView, CopyActionView)
        decreases self.todo.len(),
    {
        if self.error is Some {
            (self, CopyActionView::Failed(self.error->0))
        } else {
            match self.wait {
                WaitView::Include => (
                    self,
                    CopyActionView::Look(at(self.project, host_names(self.includes[self.next]))),
                ),
                WaitView::Listing(names) => (self, CopyActionView::List(at(self.project, names))),
                WaitView::Nothing => if self.todo.len() > 0 {
                    let top = self.todo.last();
                    let rest = CopyView { todo: self.todo.drop_last(), ..self };
                    let from = at(self.project, top.names);
                    let to = at(self.stage, top.names);
                    if top.kind == EntryKind::Link {
                        (CopyView { error: Some(link_error(from)), ..rest }, CopyActionView::Failed(link_error(from)))
                    } else if excluded(top.names, self.excludes) {
                        rest.step()
                    } else if top.kind == EntryKind::Directory {
                        (
                            CopyView { wait: WaitView::Listing(top.names), ..rest },
                            CopyActionView::Enter { made: to, dir: from },
                        )
                    } else {
                        (rest, CopyActionView::Copy { from, to })
                    }
                } else if self.next < self.includes.len() {
                    if self.includes[self.next].len() == 0 {
                        (
                            CopyView { wait: WaitView::Listing(Seq::empty()), next: self.next + 1, ..self },
                            CopyActionView::List(self.project),
                        )
                    } else {
                        (
                            CopyView { wait: WaitView::Include, ..self },
                            CopyActionView::Look(at(self.project, host_names(self.includes[self.next]))),
                        )
                    }
                } else {
                    (self, CopyActionView::Finished)
                },
            }
        }
    }

    /// The copying when it is known what the project holds at the path to take in.
    pub open spec fn looked(self, present: bool, is_file: bool) -> CopyView {
        let path = self.includes[self.next];
        if !present {
            CopyView {
                wait: WaitView::Nothing,
                error: Some("bundle.include path not found: "@ + rel_text(path)),
                ..self
            }
        } else if !is_file {
            CopyView { wait: WaitView::Listing(host_names(path)), next: self.next + 1, ..self }
        } else if excluded(host_names(path), self.excludes) {
            CopyView { wait: WaitView::Nothing, next: self.next + 1, ..self }
        } else {
            CopyView {
                wait: WaitView::Nothing,
                next: self.next + 1,
                todo: self.todo.push(PendingView { names: host_names(path), kind: EntryKind::File }),
                ..self
            }
        }
    }

    /// The copying when the entries of the directory at hand are known.
    pub open spec fn listed(self, entries: Seq<EntryView>) -> CopyView {
        CopyView { wait: WaitView::Nothing, todo: self.todo + stacked(self.wait->Listing_0, entries), ..self }
    }

    /// The copying when a step could not be carried out.
    pub open spec fn failed(self, error: Seq<char>) -> CopyView {
        CopyView { error: Some(error), ..self }
    }
}

/// The path that names lead to from a directory.
fn path_at(root: &HostPath, names: &Vec<Vec<u8>>) -> (r: HostPath)
    ensures
        r@ == at(root@, name_views(names@)),
{
    let ghost all = name_views(names@);
    let mut path = root.copy();
    let mut i: usize = 0;
    assert(all.take(0) =~= Seq::empty());
    while i < names.len()
        invariant
            i <= names.len(),
            all == name_views(names@),
            path@ == at(root@, all.take(i as int)),
        decreases names.len() - i,
    {
        path = path.join_path(&HostPath { bytes: names[i].clone() });
        assert(all.take(i + 1).drop_last() =~= all.take(i as int));
        assert(all.take(i + 1).last() == names@[i as int]@);
        i = i + 1;
    }
    assert(all.take(i as int) =~= all);
    path
}

/// The names of a path with one more.
fn with_name(names: &Vec<Vec<u8>>, name: &Vec<u8>) -> (r: Vec<Vec<u8>>)
    ensures
        name_views(r@) == name_views(names@).push(name@),
{
    let ghost all = name_views(names@);
    let mut r: Vec<Vec<u8>> = Vec::new();
    let mut i: usize = 0;
    assert(name_views(r@) =~= all.take(0));
    while i < names.len()
        invariant
            i <= names.len(),
            all == name_views(names@),
            name_views(r@) == all.take(i as int),
        decreases names.len() - i,
    {
        let ghost before = name_views(r@);
        r.push(names[i].clone());
        assert(name_views(r@) =~= before.push(all[i as int]));
        i = i + 1;
        assert(name_views(r@) =~= all.take(i as int));
    }
    assert(all.take(i as int) =~= all);
    let last: Vec<u8> = name.clone();
    r.push(last);
    assert(name_views(r@) =~= all.push(last@));
    r
}

/// The steps that copy a file into a directory that is made where it is missing.
pub fn copy_file_with_parents(source: &HostPath, destination: &HostPath) -> (r: Plan)
    ensures
        r@ == seq![
            StepView::CreateParentDirs(destination@),
            StepView::Copy { from: source@, to: destination@ },
        ],
{
    let mut plan = Plan::new();
    plan.push(Step::CreateParentDirs(destination.copy()));
    plan.push(Step::Copy { from: source.copy(), to: destination.copy() });
    assert(plan@ =~= seq![
        StepView::CreateParentDirs(destination@),
        StepView::Copy { from: source@, to: destination@ },
    ]);
    plan
}

/// Starts the copying of what goes into the bundle.
pub fn copy_includes(
    project_root: &HostPath,
    stage_root: &HostPath,
    includes: Vec<RelPath>,
    excludes: Vec<RelPath>,
) -> (r: CopyRun)
    ensures
        r@ == CopyView::start(project_root@, stage_root@, rel_views(includes@), rel_views(excludes@)),
        r@.valid(),
{
    let run = CopyRun {
        project_root: project_root.copy(),
        stage_root: stage_root.copy(),
        includes,
        excludes,
        next: 0,
        todo: Vec::new(),
        wait: Wait::Nothing,
        error: None,
    };
    assert(run@.todo =~= Seq::empty());
    run
}

impl CopyRun {
    /// The next step.
    pub fn step(&mut self) -> (r: CopyAction)
        requires
            old(self)@.valid(),
        ensures
            (final(self)@, r@) == old(self)@.step(),
            final(self)@.valid(),
            r@ is Look ==> final(self)@.wait is Include,
            r@ is List || r@ is Enter ==> final(self)@.wait is Listing,
    {
        if let Some(e) = &self.error {
            return CopyAction::Failed(e.clone());
        }
        match &self.wait {
            Wait::Include => {
                assert(self@.includes[self@.next] == self.includes@[self.next as int]@);
                return CopyAction::Look(path_at(&self.project_root, &self.includes[self.next].names()));
            },
            Wait::Listing(names) => {
                return CopyAction::List(path_at(&self.project_root, names));
            },
            Wait::Nothing => {},
        }
        let ghost start = self@;
        while self.todo.len() > 0
            invariant
                start == old(self)@,
                self@.step() == start.step(),
                self@.valid(),
                self@.error is None,
                self@.wait is Nothing,
            decreases self.todo.len(),
        {
            let ghost before = self@;
            match self.todo.pop() {
                None => {},
                Some(top) => {
                    assert(before.todo.last() == top@);
                    assert(self@.todo =~= before.todo.drop_last());
                    let from = path_at(&self.project_root, &top.names);
                    let is_link = top.kind == EntryKind::Link;
                    let is_dir = top.kind == EntryKind::Directory;
                    match copy_entry(&from, &top.names, &self.excludes, is_link, is_dir) {
                        Err(e) => {
                            self.error = Some(e.clone());
                            return CopyAction::Failed(e);
                        },
                        Ok(EntryAction::Skip) => {},
                        Ok(EntryAction::Enter) => {
                            let made = path_at(&self.stage_root, &top.names);
                            self.wait = Wait::Listing(top.names);
                            return CopyAction::Enter { made, dir: from };
                        },
                        Ok(EntryAction::Copy) => {
                            return CopyAction::Copy { from, to: path_at(&self.stage_root, &top.names) };
                        },
                    }
                },
            }
        }
        assert(self@.todo.len() == 0);
        if self.next < self.includes.len() {
            assert(self@.includes[self@.next] == self.includes@[self.next as int]@);
            if self.includes[self.next].is_root() {
                let names: Vec<Vec<u8>> = Vec::new();
                assert(name_views(names@) =~= Seq::empty());
                self.wait = Wait::Listing(names);
                self.next = self.next + 1;
                CopyAction::List(self.project_root.copy())
            } else {
                self.wait = Wait::Include;
                CopyAction::Look(path_at(&self.project_root, &self.includes[self.next].names()))
            }
        } else {
            CopyAction::Finished
        }
    }

    /// Goes on when it is known what the project holds at the path to take in.
    pub fn looked(&mut self, present: bool, is_file: bool)
        requires
            old(self)@.valid(),
            old(self)@.wait is Include,
        ensures
            final(self)@ == old(self)@.looked(present, is_file),
            final(self)@.valid(),
    {
        let ghost before = self@;
        assert(before.includes[before.next] == self.includes@[self.next as int]@);
        match copy_include(&self.includes[self.next], &self.excludes, present, is_file) {
            Err(e) => {
                self.wait = Wait::Nothing;
                self.error = Some(e);
            },
            Ok(action) => {
                let names = self.includes[self.next].names();
                let n: usize = self.includes.len();
                assert(self.next < n);
                self.next = self.next + 1;
                match action {
                    IncludeAction::File => {
                        self.wait = Wait::Nothing;
                        let added = Pending { names, kind: EntryKind::File };
                        self.todo.push(added);
                        assert(self@.todo =~= before.todo.push(added@));
                    },
                    IncludeAction::Nothing => {
                        self.wait = Wait::Nothing;
                    },
                    _ => {
                        self.wait = Wait::Listing(names);
                    },
                }
            },
        }
    }

    /// Goes on when the entries of the directory at hand are known.
    pub fn listed(&mut self, entries: &Vec<Entry>)
        requires
            old(self)@.valid(),
            old(self)@.wait is Listing,
        ensures
            final(self)@ == old(self)@.listed(entry_views(entries@)),
            final(self)@.valid(),
    {
        let ghost before = self@;
        let mut wait = Wait::Nothing;
        std::mem::swap(&mut wait, &mut self.wait);
        if let Wait::Listing(names) = wait {
            let ghost all = entry_views(entries@);
            let ghost way = name_views(names@);
            let mut i: usize = entries.len();
            assert(all.skip(i as int) =~= Seq::empty());
            assert(before.todo + stacked(way, all.skip(i as int)) =~= before.todo);
            while i > 0
                invariant
                    i <= entries.len(),
                    all == entry_views(entries@),
                    way == name_views(names@),
                    self@ == (CopyView {
                        wait: WaitView::Nothing,
                        todo: before.todo + stacked(way, all.skip(i as int)),
                        ..before
                    }),
                decreases i,
            {
                i = i - 1;
                let ghost rest = all.skip(i as int);
                assert(rest.drop_first() =~= all.skip(i + 1));
                assert(rest[0] == entries@[i as int]@);
                let added = Pending { names: with_name(&names, &entries[i].name), kind: entries[i].kind };
                let ghost earlier = self@.todo;
                self.todo.push(added);
                assert(self@.todo =~= earlier.push(added@));
                assert(self@.todo =~= before.todo + stacked(way, rest));
            }
            assert(all.skip(0) =~= all);
        }
    }

    /// Notes that a step could not be carried out: nothing more is copied.
    pub fn failed(&mut self, error: String)
        requires
            old(self)@.valid(),
        ensures
            final(self)@ == old(self)@.failed(error@),
            final(self)@.valid(),
    {
        self.error = Some(error);
    }
}

/// A copying that has failed stays so: nothing is looked at or copied after it.
pub proof fn law_copying_stops_at_a_failure(copying: CopyView, error: Seq<char>)
    ensures
        copying.failed(error).step() == (copying.failed(error), CopyActionView::Failed(error)),
{
}

/// A symbolic link is never copied: the copying fails where it meets one, with an error that names it,
/// even where it would be left out.
pub proof fn law_links_are_refused(copying: CopyView)
    requires
        copying.error is None,
        copying.wait is Nothing,
        copying.todo.len() > 0,
        copying.todo.last().kind == EntryKind::Link,
    ensures
        copying.step().1 == CopyActionView::Failed(
            "symlink is not supported in bundle: "@ + shown(at(copying.project, copying.todo.last().names)),
        ),
        copying.step().0.error is Some,
{
}

/// What is copied is copied from its place in the project to the same place in the payload: the way from
/// a directory is the way to the directory before the last name, and then that name.
pub proof fn law_places_are_name_by_name(root: Seq<u8>, names: Seq<Seq<u8>>, name: Seq<u8>)
    ensures
        at(root, Seq::empty()) == root,
        at(root, names.push(name)) == joined(at(root, names), name),
{
    assert(names.push(name).drop_last() =~= names);
}

/// Nothing is copied that is not there: a path to take in that the project does not hold ends the copying
/// with an error that names it.
pub proof fn law_missing_paths_are_errors(copying: CopyView)
    requires
        copying.wait is Include,
        copying.error is None,
    ensures
        copying.looked(false, false).step().1 == CopyActionView::Failed(
            "bundle.include path not found: "@ + rel_text(copying.includes[copying.next]),
        ),
{
}

/// A directory that is not left out is made in the payload and then read in the project, and a file that
/// is not left out is copied, each from its place in the project to the same place in the payload; what is
/// left out, with everything below it, is passed over.
pub proof fn law_entries_are_copied_to_their_place(copying: CopyView)
    requires
        copying.error is None,
        copying.wait is Nothing,
        copying.todo.len() > 0,
        copying.todo.last().kind != EntryKind::Link,
    ensures
        ({
            let top = copying.todo.last();
            let rest = CopyView { todo: copying.todo.drop_last(), ..copying };
            let left_out = exists|i: int|
                0 <= i < copying.excludes.len() && host_names(#[trigger] copying.excludes[i]).is_prefix_of(top.names);
            &&& left_out ==> copying.step() == rest.step()
            &&& !left_out && top.kind == EntryKind::File ==> copying.step() == (
                rest,
                CopyActionView::Copy { from: at(copying.project, top.names), to: at(copying.stage, top.names) },
            )
            &&& !left_out && top.kind == EntryKind::Directory ==> copying.step() == (
                CopyView { wait: WaitView::Listing(top.names), ..rest },
                CopyActionView::Enter { made: at(copying.stage, top.names), dir: at(copying.project, top.names) },
            )
        }),
{
}

} // verus!
