//! What the copying makes of a directory tree: every file that is not left out, each one once.
use vstd::prelude::*;
use vstd::utf8::encode_utf8;
use crate::bundle::{bundle_path, excluded, host_names, law_exclusion_covers_what_lies_below, rel_text};
use crate::packaging::{build_of, law_builds_take_and_leave_what_the_recipe_names};
use crate::recipe::TortiaConfig;
use crate::staging::{
    at, link_error, stacked, CopyActionView, CopyView, EntryKind, EntryView, PendingView, WaitView,
};

verus! {

/// A file, a symbolic link or a directory with what it holds.
pub enum NodeView {
    File,
    Link,
    Directory(Seq<ChildView>),
}

/// An entry of a directory, with what lies below it.
pub struct ChildView {
    pub name: Seq<u8>,
    pub node: NodeView,
}

/// A node, with the names that lead to it.
pub struct PlaceView {
    pub names: Seq<Seq<u8>>,
    pub node: NodeView,
}

/// What a node is.
pub open spec fn kind(node: NodeView) -> EntryKind {
    match node {
        NodeView::File => EntryKind::File,
        NodeView::Link => EntryKind::Link,
        NodeView::Directory(_) => EntryKind::Directory,
    }
}

/// What the listing of a directory says.
pub open spec fn listing(children: Seq<ChildView>) -> Seq<EntryView> {
    children.map_values(|c: ChildView| EntryView { name: c.name, kind: kind(c.node) })
}

/// What a copying knows of places before it has looked into them.
pub open spec fn outlines(places: Seq<PlaceView>) -> Seq<PendingView> {
    places.map_values(|p: PlaceView| PendingView { names: p.names, kind: kind(p.node) })
}

/// The entries of a directory as places, the first one last.
pub open spec fn spread(names: Seq<Seq<u8>>, children: Seq<ChildView>) -> Seq<PlaceView>
    decreases children.len(),
{
    if children.len() == 0 {
        Seq::empty()
    } else {
        spread(names, children.drop_first()).push(
            PlaceView { names: names.push(children[0].name), node: children[0].node },
        )
    }
}

/// The number of nodes of a tree.
pub open spec fn size(node: NodeView) -> nat
    decreases node,
{
    match node {
        NodeView::Directory(children) => 1 + sizes(children),
        _ => 1,
    }
}

/// The number of nodes of the trees below a directory.
pub open spec fn sizes(children: Seq<ChildView>) -> nat
    decreases children,
{
    if children.len() == 0 {
        0
    } else {
        size(children[0].node) + sizes(children.drop_first())
    }
}

/// The number of nodes of the trees at places.
pub open spec fn total(places: Seq<PlaceView>) -> nat
    decreases places.len(),
{
    if places.len() == 0 {
        0
    } else {
        total(places.drop_last()) + size(places.last().node)
    }
}

/// The nodes of places, one list after the other.
pub proof fn lemma_total_concat(a: Seq<PlaceView>, b: Seq<PlaceView>)
    ensures
        total(a + b) == total(a) + total(b),
    decreases b.len(),
{
    if b.len() == 0 {
        assert(a + b =~= a);
    } else {
        lemma_total_concat(a, b.drop_last());
        assert((a + b).drop_last() =~= a + b.drop_last());
        assert((a + b).last() == b.last());
    }
}

/// The nodes of the entries of a directory.
pub proof fn lemma_total_spread(names: Seq<Seq<u8>>, children: Seq<ChildView>)
    ensures
        total(spread(names, children)) == sizes(children),
    decreases children.len(),
{
    if children.len() > 0 {
        lemma_total_spread(names, children.drop_first());
        let all = spread(names, children);
        assert(all.drop_last() =~= spread(names, children.drop_first()));
    }
}

/// The files that are copied, in their order, and the symbolic link at which the copying fails.
pub struct WalkView {
    pub files: Seq<Seq<Seq<u8>>>,
    pub link: Option<Seq<Seq<u8>>>,
}

impl WalkView {
    /// One after the other; a failure is the end.
    pub open spec fn chain(self, next: WalkView) -> WalkView {
        if self.link is Some {
            self
        } else {
            WalkView { files: self.files + next.files, link: next.link }
        }
    }
}

/// No file.
pub open spec fn nothing() -> WalkView {
    WalkView { files: Seq::empty(), link: None }
}

/// What is copied of places, of which the last comes first.
pub open spec fn walk(places: Seq<PlaceView>, excludes: Seq<Seq<Seq<char>>>) -> WalkView
    decreases total(places),
{
    if places.len() == 0 {
        nothing()
    } else {
        let top = places.last();
        let rest = places.drop_last();
        match top.node {
            NodeView::Link => WalkView { files: Seq::empty(), link: Some(top.names) },
            NodeView::File => if excluded(top.names, excludes) {
                walk(rest, excludes)
            } else {
                WalkView { files: seq![top.names], link: None }.chain(walk(rest, excludes))
            },
            NodeView::Directory(children) => if excluded(top.names, excludes) {
                walk(rest, excludes)
            } else {
                proof {
                    lemma_total_concat(rest, spread(top.names, children));
                    lemma_total_spread(top.names, children);
                }
                walk(rest + spread(top.names, children), excludes)
            },
        }
    }
}

/// What is copied of a node.
pub open spec fn bundled(names: Seq<Seq<u8>>, node: NodeView, excludes: Seq<Seq<Seq<char>>>) -> WalkView
    decreases node,
{
    match node {
        NodeView::Link => WalkView { files: Seq::empty(), link: Some(names) },
        NodeView::File => if excluded(names, excludes) {
            nothing()
        } else {
            WalkView { files: seq![names], link: None }
        },
        NodeView::Directory(children) => if excluded(names, excludes) {
            nothing()
        } else {
            bundled_all(names, children, excludes)
        },
    }
}

/// What is copied of the entries of a directory.
pub open spec fn bundled_all(
    names: Seq<Seq<u8>>,
    children: Seq<ChildView>,
    excludes: Seq<Seq<Seq<char>>>,
) -> WalkView
    decreases children,
{
    if children.len() == 0 {
        nothing()
    } else {
        bundled(names.push(children[0].name), children[0].node, excludes).chain(
            bundled_all(names, children.drop_first(), excludes),
        )
    }
}

/// A node on top of places is copied before them.
pub proof fn lemma_walk_node(
    places: Seq<PlaceView>,
    names: Seq<Seq<u8>>,
    node: NodeView,
    excludes: Seq<Seq<Seq<char>>>,
)
    ensures
        walk(places.push(PlaceView { names, node }), excludes) == bundled(names, node, excludes).chain(
            walk(places, excludes),
        ),
    decreases node,
{
    let all = places.push(PlaceView { names, node });
    assert(all.drop_last() =~= places);
    let after = walk(places, excludes);
    assert(nothing().chain(after).files =~= after.files);
    match node {
        NodeView::Directory(children) => if !excluded(names, excludes) {
            lemma_walk_children(places, names, children, excludes);
        },
        _ => {},
    }
}

/// The entries of a directory on top of places are copied before them.
pub proof fn lemma_walk_children(
    places: Seq<PlaceView>,
    names: Seq<Seq<u8>>,
    children: Seq<ChildView>,
    excludes: Seq<Seq<Seq<char>>>,
)
    ensures
        walk(places + spread(names, children), excludes) == bundled_all(names, children, excludes).chain(
            walk(places, excludes),
        ),
    decreases children,
{
    let after = walk(places, excludes);
    if children.len() == 0 {
        assert(places + spread(names, children) =~= places);
        assert(nothing().chain(after).files =~= after.files);
    } else {
        let rest = children.drop_first();
        let first = names.push(children[0].name);
        let node = children[0].node;
        let lower = places + spread(names, rest);
        assert(places + spread(names, children) =~= lower.push(PlaceView { names: first, node }));
        lemma_walk_node(lower, first, node, excludes);
        lemma_walk_children(places, names, rest, excludes);
        let a = bundled(first, node, excludes);
        let b = bundled_all(names, rest, excludes);
        assert(a.chain(b).chain(after).files =~= a.chain(b.chain(after)).files);
    }
}

/// The places from the first on that is a symbolic link or is not left out.
pub open spec fn settled(places: Seq<PlaceView>, excludes: Seq<Seq<Seq<char>>>) -> Seq<PlaceView>
    decreases places.len(),
{
    if places.len() > 0 && !(places.last().node is Link) && excluded(places.last().names, excludes) {
        settled(places.drop_last(), excludes)
    } else {
        places
    }
}

/// What is left out before the first place that counts changes nothing.
pub proof fn lemma_settled(places: Seq<PlaceView>, excludes: Seq<Seq<Seq<char>>>)
    ensures
        total(settled(places, excludes)) <= total(places),
        walk(places, excludes) == walk(settled(places, excludes), excludes),
        settled(places, excludes).len() > 0 ==> {
            let top = settled(places, excludes).last();
            top.node is Link || !excluded(top.names, excludes)
        },
    decreases places.len(),
{
    if places.len() > 0 && !(places.last().node is Link) && excluded(places.last().names, excludes) {
        lemma_settled(places.drop_last(), excludes);
    }
}

/// A copying passes over what is left out.
proof fn lemma_step_settles(copying: CopyView, places: Seq<PlaceView>)
    requires
        copying.error is None,
        copying.wait is Nothing,
        copying.todo == outlines(places),
    ensures
        copying.step() == (CopyView { todo: outlines(settled(places, copying.excludes)), ..copying }).step(),
    decreases places.len(),
{
    if places.len() > 0 && !(places.last().node is Link) && excluded(places.last().names, copying.excludes) {
        let rest = CopyView { todo: copying.todo.drop_last(), ..copying };
        assert(outlines(places).drop_last() =~= outlines(places.drop_last()));
        assert(copying.todo.last().names == places.last().names);
        lemma_step_settles(rest, places.drop_last());
    }
}

/// What the listing of a directory brings.
proof fn lemma_listing(names: Seq<Seq<u8>>, children: Seq<ChildView>)
    ensures
        stacked(names, listing(children)) == outlines(spread(names, children)),
    decreases children.len(),
{
    if children.len() > 0 {
        lemma_listing(names, children.drop_first());
        assert(listing(children).drop_first() =~= listing(children.drop_first()));
        assert(stacked(names, listing(children)) =~= outlines(spread(names, children)));
    } else {
        assert(stacked(names, listing(children)) =~= outlines(spread(names, children)));
    }
}

/// What a copying does with the trees at `places`, which are all that it has to deal with: the files
/// that it copies, and the failure at which it ends. The listings of directories are those of the trees.
pub open spec fn deeds(copying: CopyView, places: Seq<PlaceView>) -> Seq<CopyActionView>
    decreases total(places),
{
    let rest = settled(places, copying.excludes);
    proof {
        lemma_settled(places, copying.excludes);
    }
    if rest.len() == 0 {
        Seq::empty()
    } else {
        let top = rest.last();
        let lower = rest.drop_last();
        let (next, action) = copying.step();
        match top.node {
            NodeView::Link => seq![action],
            NodeView::File => seq![action] + deeds(next, lower),
            NodeView::Directory(children) => {
                proof {
                    lemma_total_concat(lower, spread(top.names, children));
                    lemma_total_spread(top.names, children);
                }
                deeds(next.listed(listing(children)), lower + spread(top.names, children))
            },
        }
    }
}

/// The copies and the failure of a walk.
pub open spec fn deeds_of(project: Seq<u8>, stage: Seq<u8>, walked: WalkView) -> Seq<CopyActionView> {
    walked.files.map_values(
        |names: Seq<Seq<u8>>| CopyActionView::Copy { from: at(project, names), to: at(stage, names) },
    ) + match walked.link {
        Some(names) => seq![CopyActionView::Failed(link_error(at(project, names)))],
        None => Seq::empty(),
    }
}

/// A copying does what the walk over the trees says: it copies the files that are not left out, each
/// from the project to its place in the payload, and fails at the first symbolic link that it meets.
pub proof fn law_copying_follows_the_trees(copying: CopyView, places: Seq<PlaceView>)
    requires
        copying.error is None,
        copying.wait is Nothing,
        copying.todo == outlines(places),
    ensures
        deeds(copying, places) == deeds_of(copying.project, copying.stage, walk(places, copying.excludes)),
    decreases total(places),
{
    let excludes = copying.excludes;
    let rest = settled(places, excludes);
    lemma_settled(places, excludes);
    lemma_step_settles(copying, places);
    let walked = walk(places, excludes);
    if rest.len() == 0 {
        assert(deeds_of(copying.project, copying.stage, walked) =~= Seq::empty());
    } else {
        let top = rest.last();
        let lower = rest.drop_last();
        let settled_copying = CopyView { todo: outlines(rest), ..copying };
        assert(settled_copying.todo.last() == (PendingView { names: top.names, kind: kind(top.node) }));
        assert(settled_copying.todo.drop_last() =~= outlines(lower));
        let (next, action) = copying.step();
        match top.node {
            NodeView::Link => {
                assert(deeds_of(copying.project, copying.stage, walked) =~= seq![action]);
            },
            NodeView::File => {
                assert(next == (CopyView { todo: outlines(lower), ..copying }));
                law_copying_follows_the_trees(next, lower);
                let later = walk(lower, excludes);
                assert(walked.files =~= seq![top.names] + later.files);
                assert(deeds_of(copying.project, copying.stage, walked) =~= seq![action] + deeds_of(
                    copying.project,
                    copying.stage,
                    later,
                ));
            },
            NodeView::Directory(children) => {
                let below = spread(top.names, children);
                lemma_total_concat(lower, below);
                lemma_total_spread(top.names, children);
                lemma_listing(top.names, children);
                let after = next.listed(listing(children));
                assert(after.todo =~= outlines(lower + below));
                law_copying_follows_the_trees(after, lower + below);
            },
        }
    }
}

/// All files of a tree, in their order.
pub open spec fn files(names: Seq<Seq<u8>>, node: NodeView) -> Seq<Seq<Seq<u8>>>
    decreases node,
{
    match node {
        NodeView::File => seq![names],
        NodeView::Link => Seq::empty(),
        NodeView::Directory(children) => files_below(names, children),
    }
}

/// All files below a directory, in their order.
pub open spec fn files_below(names: Seq<Seq<u8>>, children: Seq<ChildView>) -> Seq<Seq<Seq<u8>>>
    decreases children,
{
    if children.len() == 0 {
        Seq::empty()
    } else {
        files(names.push(children[0].name), children[0].node) + files_below(names, children.drop_first())
    }
}

/// The files that are not left out.
pub open spec fn kept(list: Seq<Seq<Seq<u8>>>, excludes: Seq<Seq<Seq<char>>>) -> Seq<Seq<Seq<u8>>>
    decreases list.len(),
{
    if list.len() == 0 {
        Seq::empty()
    } else if excluded(list.last(), excludes) {
        kept(list.drop_last(), excludes)
    } else {
        kept(list.drop_last(), excludes).push(list.last())
    }
}

/// What is kept of two lists.
proof fn lemma_kept_concat(a: Seq<Seq<Seq<u8>>>, b: Seq<Seq<Seq<u8>>>, excludes: Seq<Seq<Seq<char>>>)
    ensures
        kept(a + b, excludes) == kept(a, excludes) + kept(b, excludes),
    decreases b.len(),
{
    if b.len() == 0 {
        assert(a + b =~= a);
        assert(kept(a, excludes) + kept(b, excludes) =~= kept(a, excludes));
    } else {
        lemma_kept_concat(a, b.drop_last(), excludes);
        assert((a + b).drop_last() =~= a + b.drop_last());
        assert((a + b).last() == b.last());
        assert(kept(a + b, excludes) =~= kept(a, excludes) + kept(b, excludes));
    }
}

/// Nothing is kept of a directory that is left out.
proof fn lemma_nothing_kept(names: Seq<Seq<u8>>, node: NodeView, excludes: Seq<Seq<Seq<char>>>)
    requires
        excluded(names, excludes),
    ensures
        kept(files(names, node), excludes) == Seq::<Seq<Seq<u8>>>::empty(),
    decreases node,
{
    match node {
        NodeView::File => {
            assert(seq![names].drop_last() =~= Seq::empty());
            assert(kept(seq![names].drop_last(), excludes) =~= Seq::empty());
        },
        NodeView::Link => {},
        NodeView::Directory(children) => {
            lemma_nothing_kept_below(names, children, excludes);
        },
    }
}

/// Nothing is kept below a directory that is left out.
proof fn lemma_nothing_kept_below(names: Seq<Seq<u8>>, children: Seq<ChildView>, excludes: Seq<Seq<Seq<char>>>)
    requires
        excluded(names, excludes),
    ensures
        kept(files_below(names, children), excludes) == Seq::<Seq<Seq<u8>>>::empty(),
    decreases children,
{
    if children.len() > 0 {
        let first = names.push(children[0].name);
        law_exclusion_covers_what_lies_below(names, seq![children[0].name], excludes);
        assert(first =~= names + seq![children[0].name]);
        lemma_nothing_kept(first, children[0].node, excludes);
        lemma_nothing_kept_below(names, children.drop_first(), excludes);
        lemma_kept_concat(files(first, children[0].node), files_below(names, children.drop_first()), excludes);
    }
}

/// The bundle holds exactly the files that are not left out: where the copying of a tree meets no
/// symbolic link, it copies every file of the tree but those that `excludes` covers, in their order.
pub proof fn law_bundle_holds_what_is_not_left_out(
    names: Seq<Seq<u8>>,
    node: NodeView,
    excludes: Seq<Seq<Seq<char>>>,
)
    requires
        bundled(names, node, excludes).link is None,
    ensures
        bundled(names, node, excludes).files == kept(files(names, node), excludes),
    decreases node,
{
    if excluded(names, excludes) {
        lemma_nothing_kept(names, node, excludes);
    } else {
        match node {
            NodeView::File => {
                assert(seq![names].drop_last() =~= Seq::empty());
                assert(kept(seq![names].drop_last(), excludes) =~= Seq::empty());
                assert(kept(seq![names], excludes) =~= seq![names]);
            },
            NodeView::Link => {},
            NodeView::Directory(children) => {
                lemma_bundle_below(names, children, excludes);
            },
        }
    }
}

/// The same of what lies below a directory.
pub proof fn lemma_bundle_below(names: Seq<Seq<u8>>, children: Seq<ChildView>, excludes: Seq<Seq<Seq<char>>>)
    requires
        bundled_all(names, children, excludes).link is None,
    ensures
        bundled_all(names, children, excludes).files == kept(files_below(names, children), excludes),
    decreases children,
{
    if children.len() > 0 {
        let first = names.push(children[0].name);
        law_bundle_holds_what_is_not_left_out(first, children[0].node, excludes);
        lemma_bundle_below(names, children.drop_first(), excludes);
        lemma_kept_concat(files(first, children[0].node), files_below(names, children.drop_first()), excludes);
    }
}

/// The copying of a whole directory: what it does with the entries is to copy the files below it that
/// are not left out, unless it meets a symbolic link.
pub proof fn law_directories_are_copied_whole(
    copying: CopyView,
    names: Seq<Seq<u8>>,
    children: Seq<ChildView>,
)
    requires
        copying.error is None,
        copying.wait == WaitView::Listing(names),
        copying.todo.len() == 0,
        bundled_all(names, children, copying.excludes).link is None,
    ensures
        deeds(copying.listed(listing(children)), spread(names, children)) == kept(
            files_below(names, children),
            copying.excludes,
        ).map_values(
            |file: Seq<Seq<u8>>|
                CopyActionView::Copy { from: at(copying.project, file), to: at(copying.stage, file) },
        ),
{
    let places = spread(names, children);
    let begun = copying.listed(listing(children));
    lemma_listing(names, children);
    assert(begun.todo =~= outlines(places));
    law_copying_follows_the_trees(begun, places);
    let none = Seq::<PlaceView>::empty();
    assert(none + places =~= places);
    lemma_walk_children(none, names, children, copying.excludes);
    lemma_bundle_below(names, children, copying.excludes);
    let walked = walk(places, copying.excludes);
    assert(walked.files =~= kept(files_below(names, children), copying.excludes));
    assert(deeds_of(copying.project, copying.stage, walked) =~= walked.files.map_values(
        |file: Seq<Seq<u8>>| CopyActionView::Copy { from: at(copying.project, file), to: at(copying.stage, file) },
    ));
}

/// Where a recipe takes in the whole project, the copying lists it and copies every file that is not
/// left out, unless it meets a symbolic link.
pub proof fn law_projects_are_copied_whole(
    project: Seq<u8>,
    stage: Seq<u8>,
    excludes: Seq<Seq<Seq<char>>>,
    children: Seq<ChildView>,
)
    requires
        bundled_all(Seq::empty(), children, excludes).link is None,
    ensures
        ({
            let (begun, action) = CopyView::start(project, stage, seq![Seq::empty()], excludes).step();
            &&& action == CopyActionView::List(project)
            &&& begun.wait is Listing
            &&& deeds(begun.listed(listing(children)), spread(Seq::empty(), children)) == kept(
                files_below(Seq::empty(), children),
                excludes,
            ).map_values(
                |file: Seq<Seq<u8>>| CopyActionView::Copy { from: at(project, file), to: at(stage, file) },
            )
        }),
{
    let start = CopyView::start(project, stage, seq![Seq::empty()], excludes);
    let (begun, action) = start.step();
    law_directories_are_copied_whole(begun, Seq::empty(), children);
}

/// What is copied for a path to take in: the file, or what is copied of the directory's entries.
pub open spec fn include_walk(path: Seq<Seq<char>>, node: NodeView, excludes: Seq<Seq<Seq<char>>>) -> WalkView {
    match node {
        NodeView::Directory(children) => bundled_all(host_names(path), children, excludes),
        _ => bundled(host_names(path), node, excludes),
    }
}

/// What is copied for the first paths to take in, one after the other: `nodes` are what the project
/// holds at them.
pub open spec fn taken(
    includes: Seq<Seq<Seq<char>>>,
    nodes: Seq<NodeView>,
    excludes: Seq<Seq<Seq<char>>>,
) -> WalkView
    decreases nodes.len(),
{
    if nodes.len() == 0 || includes.len() == 0 {
        nothing()
    } else {
        include_walk(includes[0], nodes[0], excludes).chain(
            taken(includes.drop_first(), nodes.drop_first(), excludes),
        )
    }
}

/// All files at the first paths to take in, one path after the other.
pub open spec fn files_taken(includes: Seq<Seq<Seq<char>>>, nodes: Seq<NodeView>) -> Seq<Seq<Seq<u8>>>
    decreases nodes.len(),
{
    if nodes.len() == 0 || includes.len() == 0 {
        Seq::empty()
    } else {
        files(host_names(includes[0]), nodes[0]) + files_taken(includes.drop_first(), nodes.drop_first())
    }
}

/// What a path to take in adds to the places, once it is known what the project holds there.
pub open spec fn include_places(
    path: Seq<Seq<char>>,
    node: NodeView,
    excludes: Seq<Seq<Seq<char>>>,
) -> Seq<PlaceView> {
    match node {
        NodeView::Directory(children) => spread(host_names(path), children),
        _ => if excluded(host_names(path), excludes) {
            Seq::empty()
        } else {
            seq![PlaceView { names: host_names(path), node }]
        },
    }
}

/// What a copying does to its end: the files that it copies, and how it ends. The trees at `places`
/// are what it has to deal with; `nodes` are what the project holds at the paths to take in that are
/// left. Where there are fewer nodes than such paths, the project holds nothing at the next one.
pub open spec fn run_deeds(copying: CopyView, places: Seq<PlaceView>, nodes: Seq<NodeView>) -> Seq<CopyActionView>
    decreases nodes.len(), total(places),
{
    let rest = settled(places, copying.excludes);
    proof {
        lemma_settled(places, copying.excludes);
    }
    let (next, action) = copying.step();
    if rest.len() > 0 {
        let top = rest.last();
        let lower = rest.drop_last();
        match top.node {
            NodeView::Link => seq![action],
            NodeView::File => seq![action] + run_deeds(next, lower, nodes),
            NodeView::Directory(children) => {
                proof {
                    lemma_total_concat(lower, spread(top.names, children));
                    lemma_total_spread(top.names, children);
                }
                run_deeds(next.listed(listing(children)), lower + spread(top.names, children), nodes)
            },
        }
    } else if copying.next >= copying.includes.len() {
        seq![action]
    } else if nodes.len() == 0 {
        seq![next.looked(false, false).step().1]
    } else {
        let path = copying.includes[copying.next];
        let known = if path.len() == 0 { next } else { next.looked(true, nodes[0] is File) };
        let begun = match nodes[0] {
            NodeView::Directory(children) => known.listed(listing(children)),
            _ => known,
        };
        run_deeds(begun, include_places(path, nodes[0], copying.excludes), nodes.drop_first())
    }
}

/// How a copying ends that meets no symbolic link, where the project holds something at the first
/// `found` paths to take in and nothing at the next one.
pub open spec fn run_end(includes: Seq<Seq<Seq<char>>>, found: int) -> CopyActionView {
    if found >= includes.len() {
        CopyActionView::Finished
    } else {
        CopyActionView::Failed("bundle.include path not found: "@ + rel_text(includes[found]))
    }
}

/// The copies and the end of a walk: the failure at a symbolic link, else `end`.
pub open spec fn whole_run(
    project: Seq<u8>,
    stage: Seq<u8>,
    walked: WalkView,
    end: CopyActionView,
) -> Seq<CopyActionView> {
    if walked.link is Some {
        deeds_of(project, stage, walked)
    } else {
        deeds_of(project, stage, walked).push(end)
    }
}

/// Whether a list of nodes can be what the project holds at paths to take in: a path is followed
/// through symbolic links, and the project itself is a directory.
pub open spec fn holdable(includes: Seq<Seq<Seq<char>>>, nodes: Seq<NodeView>) -> bool {
    &&& nodes.len() <= includes.len()
    &&& forall|i: int| 0 <= i < nodes.len() ==> !((#[trigger] nodes[i]) is Link)
    &&& forall|i: int| 0 <= i < nodes.len() && includes[i].len() == 0 ==> (#[trigger] nodes[i]) is Directory
    &&& nodes.len() < includes.len() ==> includes[nodes.len() as int].len() > 0
}

/// What a path to take in adds is what is copied for it.
proof fn lemma_include_places(path: Seq<Seq<char>>, node: NodeView, excludes: Seq<Seq<Seq<char>>>)
    requires
        !(node is Link),
    ensures
        walk(include_places(path, node, excludes), excludes) == include_walk(path, node, excludes),
{
    let none = Seq::<PlaceView>::empty();
    let names = host_names(path);
    let walked = include_walk(path, node, excludes);
    assert(walked.chain(nothing()).files =~= walked.files);
    match node {
        NodeView::Directory(children) => {
            lemma_walk_children(none, names, children, excludes);
            assert(none + spread(names, children) =~= spread(names, children));
        },
        _ => {
            lemma_walk_node(none, names, node, excludes);
            assert(none.push(PlaceView { names, node }) =~= seq![PlaceView { names, node }]);
        },
    }
}

/// A run copies what the recipe takes in: for each path, in the order of the recipe, the files there
/// that are not left out. It ends at the first symbolic link that it meets or at the first path that
/// is not there, with the error for it, and else it finishes.
pub proof fn law_runs_copy_what_is_taken(copying: CopyView, places: Seq<PlaceView>, nodes: Seq<NodeView>)
    requires
        copying.error is None,
        copying.wait is Nothing,
        copying.todo == outlines(places),
        0 <= copying.next <= copying.includes.len(),
        holdable(copying.includes.skip(copying.next), nodes),
    ensures
        run_deeds(copying, places, nodes) == whole_run(
            copying.project,
            copying.stage,
            walk(places, copying.excludes).chain(
                taken(copying.includes.skip(copying.next), nodes, copying.excludes),
            ),
            run_end(copying.includes, copying.next + nodes.len()),
        ),
    decreases nodes.len(), total(places),
{
    let project = copying.project;
    let stage = copying.stage;
    let excludes = copying.excludes;
    let rest = settled(places, excludes);
    lemma_settled(places, excludes);
    lemma_step_settles(copying, places);
    let left = copying.includes.skip(copying.next);
    let later = taken(left, nodes, excludes);
    let walked = walk(places, excludes).chain(later);
    let end = run_end(copying.includes, copying.next + nodes.len());
    let settled_copying = CopyView { todo: outlines(rest), ..copying };
    let (next, action) = copying.step();
    if rest.len() > 0 {
        let top = rest.last();
        let lower = rest.drop_last();
        assert(settled_copying.todo.last() == (PendingView { names: top.names, kind: kind(top.node) }));
        assert(settled_copying.todo.drop_last() =~= outlines(lower));
        match top.node {
            NodeView::Link => {
                assert(whole_run(project, stage, walked, end) =~= seq![action]);
            },
            NodeView::File => {
                assert(next == (CopyView { todo: outlines(lower), ..copying }));
                law_runs_copy_what_is_taken(next, lower, nodes);
                let after = walk(lower, excludes).chain(later);
                assert(walked.files =~= seq![top.names] + after.files);
                assert(whole_run(project, stage, walked, end) =~= seq![action] + whole_run(
                    project,
                    stage,
                    after,
                    end,
                ));
            },
            NodeView::Directory(children) => {
                let below = spread(top.names, children);
                lemma_total_concat(lower, below);
                lemma_total_spread(top.names, children);
                lemma_listing(top.names, children);
                let after = next.listed(listing(children));
                assert(after.todo =~= outlines(lower + below));
                law_runs_copy_what_is_taken(after, lower + below, nodes);
            },
        }
    } else {
        assert(settled_copying.todo.len() == 0);
        assert(walked.files =~= later.files);
        if nodes.len() == 0 {
            assert(whole_run(project, stage, walked, end) =~= seq![end]);
            if copying.next < copying.includes.len() {
                assert(left[0] == copying.includes[copying.next]);
            }
        } else {
            let path = copying.includes[copying.next];
            let more = include_places(path, nodes[0], excludes);
            let others = nodes.drop_first();
            assert(left[0] == path);
            assert(left.drop_first() =~= copying.includes.skip(copying.next + 1));
            assert(host_names(path).len() == path.len());
            let known = if path.len() == 0 { next } else { next.looked(true, nodes[0] is File) };
            let begun = match nodes[0] {
                NodeView::Directory(children) => known.listed(listing(children)),
                _ => known,
            };
            match nodes[0] {
                NodeView::Directory(children) => {
                    assert(path.len() == 0 ==> host_names(path) =~= Seq::empty());
                    lemma_listing(host_names(path), children);
                    assert(begun.todo =~= outlines(more));
                },
                _ => {
                    assert(begun.todo =~= outlines(more));
                },
            }
            let paths = left.drop_first();
            assert forall|i: int| 0 <= i < others.len() implies !((#[trigger] others[i]) is Link) && (paths[i].len()
                == 0 ==> others[i] is Directory) by {
                assert(others[i] == nodes[i + 1]);
                assert(paths[i] == left[i + 1]);
            }
            lemma_include_places(path, nodes[0], excludes);
            law_runs_copy_what_is_taken(begun, more, others);
        }
    }
}

/// What is taken in is what is not left out: where the copying meets no symbolic link, it copies every
/// file at the paths to take in but those that `excludes` covers, in their order.
pub proof fn law_taken_is_what_is_not_left_out(
    includes: Seq<Seq<Seq<char>>>,
    nodes: Seq<NodeView>,
    excludes: Seq<Seq<Seq<char>>>,
)
    requires
        taken(includes, nodes, excludes).link is None,
    ensures
        taken(includes, nodes, excludes).files == kept(files_taken(includes, nodes), excludes),
    decreases nodes.len(),
{
    if nodes.len() > 0 && includes.len() > 0 {
        let names = host_names(includes[0]);
        let rest = includes.drop_first();
        let others = nodes.drop_first();
        match nodes[0] {
            NodeView::Directory(children) => {
                lemma_bundle_below(names, children, excludes);
            },
            _ => {
                law_bundle_holds_what_is_not_left_out(names, nodes[0], excludes);
            },
        }
        law_taken_is_what_is_not_left_out(rest, others, excludes);
        lemma_kept_concat(files(names, nodes[0]), files_taken(rest, others), excludes);
    }
}

/// The payload holds what the recipe takes in: where the project holds something at every path of
/// `[bundle].include` and the copying meets no symbolic link, it copies every file there but those
/// that `[bundle].exclude` covers, each to its place in the payload, and finishes.
pub proof fn law_recipes_are_copied_whole(
    project: Seq<u8>,
    stage: Seq<u8>,
    includes: Seq<Seq<Seq<char>>>,
    excludes: Seq<Seq<Seq<char>>>,
    nodes: Seq<NodeView>,
)
    requires
        nodes.len() == includes.len(),
        holdable(includes, nodes),
        taken(includes, nodes, excludes).link is None,
    ensures
        run_deeds(CopyView::start(project, stage, includes, excludes), Seq::empty(), nodes) == kept(
            files_taken(includes, nodes),
            excludes,
        ).map_values(
            |file: Seq<Seq<u8>>| CopyActionView::Copy { from: at(project, file), to: at(stage, file) },
        ).push(CopyActionView::Finished),
{
    let start = CopyView::start(project, stage, includes, excludes);
    let none = Seq::<PlaceView>::empty();
    let walked = taken(includes, nodes, excludes);
    assert(includes.skip(0) =~= includes);
    assert(start.todo =~= outlines(none));
    law_runs_copy_what_is_taken(start, none, nodes);
    law_taken_is_what_is_not_left_out(includes, nodes, excludes);
    assert(nothing().chain(walked).files =~= walked.files);
    assert(deeds_of(project, stage, walked) =~= walked.files.map_values(
        |file: Seq<Seq<u8>>| CopyActionView::Copy { from: at(project, file), to: at(stage, file) },
    ));
}

/// What is kept of a list of files is what is not left out: nothing that is covered, and everything
/// else.
pub proof fn law_kept_is_what_is_not_left_out(list: Seq<Seq<Seq<u8>>>, excludes: Seq<Seq<Seq<char>>>)
    ensures
        forall|i: int|
            0 <= i < kept(list, excludes).len() ==> !excluded(#[trigger] kept(list, excludes)[i], excludes)
                && list.contains(kept(list, excludes)[i]),
        forall|i: int|
            0 <= i < list.len() && !excluded(#[trigger] list[i], excludes) ==> kept(list, excludes).contains(list[i]),
    decreases list.len(),
{
    if list.len() > 0 {
        let front = list.drop_last();
        law_kept_is_what_is_not_left_out(front, excludes);
        let before = kept(front, excludes);
        let all = kept(list, excludes);
        assert forall|i: int| 0 <= i < all.len() implies !excluded(#[trigger] all[i], excludes) && list.contains(
            all[i],
        ) by {
            if i < before.len() {
                assert(all[i] == before[i]);
                let k = choose|k: int| 0 <= k < front.len() && front[k] == before[i];
                assert(list[k] == front[k]);
            } else {
                assert(list[list.len() - 1] == list.last());
            }
        }
        assert forall|i: int| 0 <= i < list.len() && !excluded(#[trigger] list[i], excludes) implies all.contains(
            list[i],
        ) by {
            if i < front.len() {
                assert(front[i] == list[i]);
                let k = choose|k: int| 0 <= k < before.len() && before[k] == front[i];
                assert(all[k] == before[k]);
            } else {
                assert(all[all.len() - 1] == list[i]);
            }
        }
    }
}

/// Nothing of a node that is copied is left out.
proof fn lemma_nothing_left_out(names: Seq<Seq<u8>>, node: NodeView, excludes: Seq<Seq<Seq<char>>>)
    ensures
        forall|k: int|
            0 <= k < bundled(names, node, excludes).files.len() ==> !excluded(
                #[trigger] bundled(names, node, excludes).files[k],
                excludes,
            ),
    decreases node,
{
    if let NodeView::Directory(children) = node {
        lemma_nothing_left_out_below(names, children, excludes);
    }
}

/// Nothing of the entries of a directory that is copied is left out.
proof fn lemma_nothing_left_out_below(names: Seq<Seq<u8>>, children: Seq<ChildView>, excludes: Seq<Seq<Seq<char>>>)
    ensures
        forall|k: int|
            0 <= k < bundled_all(names, children, excludes).files.len() ==> !excluded(
                #[trigger] bundled_all(names, children, excludes).files[k],
                excludes,
            ),
    decreases children,
{
    if children.len() > 0 {
        let first = bundled(names.push(children[0].name), children[0].node, excludes);
        let rest = bundled_all(names, children.drop_first(), excludes);
        lemma_nothing_left_out(names.push(children[0].name), children[0].node, excludes);
        lemma_nothing_left_out_below(names, children.drop_first(), excludes);
        let all = first.chain(rest);
        assert forall|k: int| 0 <= k < all.files.len() implies !excluded(#[trigger] all.files[k], excludes) by {
            if k < first.files.len() {
                assert(all.files[k] == first.files[k]);
            } else {
                assert(all.files[k] == rest.files[k - first.files.len()]);
            }
        }
    }
}

/// Nothing that is copied for the paths to take in is left out.
proof fn lemma_nothing_taken_is_left_out(
    includes: Seq<Seq<Seq<char>>>,
    nodes: Seq<NodeView>,
    excludes: Seq<Seq<Seq<char>>>,
)
    ensures
        forall|k: int|
            0 <= k < taken(includes, nodes, excludes).files.len() ==> !excluded(
                #[trigger] taken(includes, nodes, excludes).files[k],
                excludes,
            ),
    decreases nodes.len(),
{
    if nodes.len() > 0 && includes.len() > 0 {
        let first = include_walk(includes[0], nodes[0], excludes);
        let rest = taken(includes.drop_first(), nodes.drop_first(), excludes);
        match nodes[0] {
            NodeView::Directory(children) => {
                lemma_nothing_left_out_below(host_names(includes[0]), children, excludes);
            },
            _ => {
                lemma_nothing_left_out(host_names(includes[0]), nodes[0], excludes);
            },
        }
        lemma_nothing_taken_is_left_out(includes.drop_first(), nodes.drop_first(), excludes);
        let all = first.chain(rest);
        assert forall|k: int| 0 <= k < all.files.len() implies !excluded(#[trigger] all.files[k], excludes) by {
            if k < first.files.len() {
                assert(all.files[k] == first.files[k]);
            } else {
                assert(all.files[k] == rest.files[k - first.files.len()]);
            }
        }
    }
}

/// No file at or below a path that `[bundle].exclude` names is copied, whatever the project holds: every
/// file that a build copies goes from its place in the project to the same place in the payload, and the
/// names on its way do not start with those of the path.
pub proof fn law_builds_copy_nothing_that_is_left_out(
    root: Seq<u8>,
    stage: Seq<u8>,
    config: TortiaConfig,
    output: Option<Seq<u8>>,
    nodes: Seq<NodeView>,
    i: int,
    k: int,
)
    requires
        build_of(root, config, output) is Ok,
        config.bundle is Some && config.bundle->0.excludes is Some,
        0 <= i < config.bundle->0.excludes->0@.len(),
        bundle_path(config.bundle->0.excludes->0@[i]@)->Ok_0.len() > 0,
        holdable(build_of(root, config, output)->Ok_0.includes, nodes),
        0 <= k < build_deeds(root, stage, config, output, nodes).len(),
        build_deeds(root, stage, config, output, nodes)[k] is Copy,
    ensures
        exists|names: Seq<Seq<u8>>|
            #![trigger at(root, names)]
            build_deeds(root, stage, config, output, nodes)[k] == (CopyActionView::Copy {
                from: at(root, names),
                to: at(stage, names),
            }) && !(bundle_path(config.bundle->0.excludes->0@[i]@)->Ok_0.map_values(
                |name: Seq<char>| encode_utf8(name),
            )).is_prefix_of(names),
{
    let b = build_of(root, config, output)->Ok_0;
    let p = bundle_path(config.bundle->0.excludes->0@[i]@)->Ok_0;
    law_builds_take_and_leave_what_the_recipe_names(root, config, output);
    assert(b.excludes.contains(p));
    let m = choose|m: int| 0 <= m < b.excludes.len() && b.excludes[m] == p;
    lemma_run_of_a_build(root, stage, b.includes, b.excludes, nodes);
    lemma_nothing_taken_is_left_out(b.includes, nodes, b.excludes);
    let walked = taken(b.includes, nodes, b.excludes);
    let all = build_deeds(root, stage, config, output, nodes);
    assert(k < walked.files.len());
    let names = walked.files[k];
    assert(all[k] == (CopyActionView::Copy { from: at(root, names), to: at(stage, names) }));
    assert(!excluded(names, b.excludes));
    assert(host_names(b.excludes[m]) =~= p.map_values(|name: Seq<char>| encode_utf8(name)));
}

/// Every file at the paths that `[bundle].include` names is copied unless a path of `[bundle].exclude`
/// covers it, where the copying meets no symbolic link and every path is there.
pub proof fn law_builds_copy_all_that_is_not_left_out(
    root: Seq<u8>,
    stage: Seq<u8>,
    config: TortiaConfig,
    output: Option<Seq<u8>>,
    nodes: Seq<NodeView>,
    names: Seq<Seq<u8>>,
)
    requires
        build_of(root, config, output) is Ok,
        nodes.len() == build_of(root, config, output)->Ok_0.includes.len(),
        holdable(build_of(root, config, output)->Ok_0.includes, nodes),
        taken(
            build_of(root, config, output)->Ok_0.includes,
            nodes,
            build_of(root, config, output)->Ok_0.excludes,
        ).link is None,
        files_taken(build_of(root, config, output)->Ok_0.includes, nodes).contains(names),
        config.bundle is Some && config.bundle->0.excludes is Some ==> forall|i: int|
            0 <= i < config.bundle->0.excludes->0@.len() && bundle_path(
                (#[trigger] config.bundle->0.excludes->0@[i])@,
            )->Ok_0.len() > 0 ==> !(bundle_path(config.bundle->0.excludes->0@[i]@)->Ok_0.map_values(
                |name: Seq<char>| encode_utf8(name),
            )).is_prefix_of(names),
    ensures
        build_deeds(root, stage, config, output, nodes).contains(
            CopyActionView::Copy { from: at(root, names), to: at(stage, names) },
        ),
        build_deeds(root, stage, config, output, nodes).last() == CopyActionView::Finished,
{
    let b = build_of(root, config, output)->Ok_0;
    law_builds_take_and_leave_what_the_recipe_names(root, config, output);
    law_recipes_are_copied_whole(root, stage, b.includes, b.excludes, nodes);
    let all = files_taken(b.includes, nodes);
    law_kept_is_what_is_not_left_out(all, b.excludes);
    if excluded(names, b.excludes) {
        let m = choose|m: int|
            0 <= m < b.excludes.len() && host_names(#[trigger] b.excludes[m]).is_prefix_of(names);
        let p = b.excludes[m];
        assert(b.excludes.contains(p));
        let list = config.bundle->0.excludes->0@;
        let i = choose|i: int|
            0 <= i < list.len() && bundle_path((#[trigger] list[i])@) == Ok::<Seq<Seq<char>>, Seq<char>>(p);
        assert(host_names(p) =~= p.map_values(|name: Seq<char>| encode_utf8(name)));
        assert(bundle_path(list[i]@)->Ok_0.len() > 0);
        assert(false);
    }
    let n = choose|n: int| 0 <= n < all.len() && all[n] == names;
    assert(kept(all, b.excludes).contains(all[n]));
    let m = choose|m: int| 0 <= m < kept(all, b.excludes).len() && kept(all, b.excludes)[m] == names;
    assert(build_deeds(root, stage, config, output, nodes)[m] == (CopyActionView::Copy {
        from: at(root, names),
        to: at(stage, names),
    }));
}

/// What the copying of a build does in the payload `stage`, where `nodes` are what the project `root`
/// holds at the paths to take in.
pub open spec fn build_deeds(
    root: Seq<u8>,
    stage: Seq<u8>,
    config: TortiaConfig,
    output: Option<Seq<u8>>,
    nodes: Seq<NodeView>,
) -> Seq<CopyActionView> {
    let b = build_of(root, config, output)->Ok_0;
    run_deeds(CopyView::start(root, stage, b.includes, b.excludes), Seq::empty(), nodes)
}

/// What a copying does from its start.
proof fn lemma_run_of_a_build(
    project: Seq<u8>,
    stage: Seq<u8>,
    includes: Seq<Seq<Seq<char>>>,
    excludes: Seq<Seq<Seq<char>>>,
    nodes: Seq<NodeView>,
)
    requires
        holdable(includes, nodes),
    ensures
        run_deeds(CopyView::start(project, stage, includes, excludes), Seq::empty(), nodes) == whole_run(
            project,
            stage,
            taken(includes, nodes, excludes),
            run_end(includes, nodes.len() as int),
        ),
{
    let start = CopyView::start(project, stage, includes, excludes);
    let none = Seq::<PlaceView>::empty();
    let walked = taken(includes, nodes, excludes);
    assert(includes.skip(0) =~= includes);
    assert(start.todo =~= outlines(none));
    law_runs_copy_what_is_taken(start, none, nodes);
    assert(nothing().chain(walked).files =~= walked.files);
}

} // verus!
