//! Relative paths of a recipe, and what of a project goes into the bundle.
use vstd::prelude::*;
use vstd::string::*;
use vstd::utf8::encode_utf8;
use crate::paths::{lemma_pieces_concat, same_bytes, shown, HostPath};
use crate::recipe::{listed_or, listed_texts, BundleConfig};
use crate::text::{
    end_trimmed, join_texts, joined_text, lemma_error_stays, lemma_position, lemma_position_is, pieces, position,
    same, split, start_trimmed, texts, trim, trimmed, white_space,
};

verus! {

/// A path below the project: the names on the way, none of them empty, `.` or `..`. Without names
/// it is the project itself.
#[derive(Debug)]
pub struct RelPath {
    pub parts: Vec<String>,
}

impl View for RelPath {
    type V = Seq<Seq<char>>;

    open spec fn view(&self) -> Seq<Seq<char>> {
        texts(self.parts@)
    }
}

/// The paths that a list holds.
pub open spec fn rel_views(list: Seq<RelPath>) -> Seq<Seq<Seq<char>>> {
    list.map_values(|p: RelPath| p@)
}

/// Whether a text is a name on the way of a path.
pub open spec fn proper_name(name: Seq<char>) -> bool {
    name.len() > 0 && name != "."@ && name != ".."@ && !name.contains('/')
}

/// Whether every part of a path is a name.
pub open spec fn proper(path: Seq<Seq<char>>) -> bool {
    forall|i: int| 0 <= i < path.len() ==> proper_name(#[trigger] path[i])
}

/// The text of a path.
pub open spec fn rel_text(path: Seq<Seq<char>>) -> Seq<char> {
    joined_text(path, "/"@)
}

/// The segments of a path that are names: neither empty nor `.`.
pub open spec fn names(segments: Seq<Seq<char>>) -> Seq<Seq<char>>
    decreases segments.len(),
{
    if segments.len() == 0 {
        Seq::empty()
    } else if segments.last().len() == 0 || segments.last() == "."@ {
        names(segments.drop_last())
    } else {
        names(segments.drop_last()).push(segments.last())
    }
}

/// The path below the project that a text of the recipe names, or the error where it leads
/// elsewhere.
pub open spec fn bundle_path(raw: Seq<char>) -> Result<Seq<Seq<char>>, Seq<char>> {
    if raw.len() == 0 || trimmed(raw) == "."@ {
        Ok(Seq::empty())
    } else if raw[0] == '/' {
        Err("bundle path must be relative: "@ + raw)
    } else if pieces(raw, '/').contains(".."@) {
        Err("bundle path cannot contain '..': "@ + raw)
    } else {
        Ok(names(pieces(raw, '/')))
    }
}

impl RelPath {
    /// The project itself.
    pub fn root() -> (r: RelPath)
        ensures
            r@ == Seq::<Seq<char>>::empty(),
    {
        let r = RelPath { parts: Vec::new() };
        assert(r@ =~= Seq::empty());
        r
    }

    /// Whether the path is the project itself.
    pub fn is_root(&self) -> (r: bool)
        ensures
            r == (self@.len() == 0),
    {
        self.parts.len() == 0
    }

    /// The same path again.
    pub fn copy(&self) -> (r: RelPath)
        ensures
            r@ == self@,
    {
        RelPath { parts: self.parts.clone() }
    }

    /// The text of the path.
    pub fn text(&self) -> (r: String)
        ensures
            r@ == rel_text(self@),
    {
        join_texts(&self.parts, "/")
    }
}

/// The path below the project that a text of the recipe names.
pub fn parse_bundle_path(raw: &str) -> (r: Result<RelPath, String>)
    ensures
        match r {
            Ok(path) => bundle_path(raw@) == Ok::<Seq<Seq<char>>, Seq<char>>(path@),
            Err(e) => bundle_path(raw@) == Err::<Seq<Seq<char>>, Seq<char>>(e@),
        },
{
    if raw.unicode_len() == 0 || same(trim(raw), ".") {
        return Ok(RelPath::root());
    }
    if raw.get_char(0) == '/' {
        return Err("bundle path must be relative: ".to_string().concat(raw));
    }
    let segments: Vec<String> = split(raw, '/');
    let ghost all = pieces(raw@, '/');
    let mut parts: Vec<String> = Vec::new();
    let mut i: usize = 0;
    assert(all.take(0) =~= Seq::empty());
    assert(texts(parts@) =~= Seq::empty());
    while i < segments.len()
        invariant
            i <= segments.len(),
            raw@.len() > 0,
            trimmed(raw@) != "."@,
            raw@[0] != '/',
            all == pieces(raw@, '/'),
            all == texts(segments@),
            texts(parts@) == names(all.take(i as int)),
            forall|j: int| 0 <= j < i ==> all[j] != ".."@,
        decreases segments.len() - i,
    {
        let ghost before = texts(parts@);
        let segment = segments[i].as_str();
        assert(all[i as int] == segment@);
        assert(all.take(i + 1).drop_last() =~= all.take(i as int));
        if same(segment, "..") {
            assert(all.contains(".."@));
            return Err("bundle path cannot contain '..': ".to_string().concat(raw));
        }
        if segment.unicode_len() > 0 && !same(segment, ".") {
            parts.push(segment.to_string());
            assert(texts(parts@) =~= before.push(segment@));
        }
        i = i + 1;
    }
    assert(all.take(i as int) =~= all);
    assert(!all.contains(".."@));
    Ok(RelPath { parts })
}

/// No piece of a text holds the separator.
proof fn lemma_pieces_hold_no_separator<T>(s: Seq<T>, x: T)
    ensures
        pieces(s, x).len() > 0,
        forall|i: int| 0 <= i < pieces(s, x).len() ==> !(#[trigger] pieces(s, x)[i]).contains(x),
    decreases s.len(),
{
    lemma_position(s, x);
    let i = position(s, x);
    if i < s.len() {
        lemma_pieces_hold_no_separator(s.skip(i + 1), x);
        let rest = pieces(s.skip(i + 1), x);
        assert forall|k: int| 0 <= k < pieces(s, x).len() implies !(#[trigger] pieces(s, x)[k]).contains(x) by {
            if k > 0 {
                assert(pieces(s, x)[k] == rest[k - 1]);
            }
        }
    }
}

/// The names among segments are segments.
proof fn lemma_names_are_segments(segments: Seq<Seq<char>>)
    ensures
        forall|i: int|
            0 <= i < names(segments).len() ==> segments.contains(#[trigger] names(segments)[i]) && names(
                segments,
            )[i].len() > 0 && names(segments)[i] != "."@,
    decreases segments.len(),
{
    if segments.len() > 0 {
        let before = names(segments.drop_last());
        lemma_names_are_segments(segments.drop_last());
        assert forall|i: int| 0 <= i < names(segments).len() implies segments.contains(
            #[trigger] names(segments)[i],
        ) && names(segments)[i].len() > 0 && names(segments)[i] != "."@ by {
            if i < before.len() {
                assert(names(segments)[i] == before[i]);
                let k = choose|k: int| 0 <= k < segments.drop_last().len() && segments.drop_last()[k] == before[i];
                assert(segments[k] == before[i]);
            } else {
                assert(segments[segments.len() - 1] == names(segments)[i]);
            }
        }
    }
}

/// A path of a recipe stays below the project: it is relative and none of its names leads up.
pub proof fn law_bundle_paths_stay_inside(raw: Seq<char>)
    ensures
        bundle_path(raw) matches Ok(path) ==> proper(path),
{
    if let Ok(path) = bundle_path(raw) {
        if path.len() > 0 {
            let all = pieces(raw, '/');
            lemma_pieces_hold_no_separator(raw, '/');
            lemma_names_are_segments(all);
            assert forall|i: int| 0 <= i < path.len() implies proper_name(#[trigger] path[i]) by {
                let k = choose|k: int| 0 <= k < all.len() && all[k] == path[i];
                assert(!all[k].contains('/'));
            }
        }
    }
}

/// The pieces of the text of a path are its names.
proof fn lemma_pieces_of_path(path: Seq<Seq<char>>)
    requires
        proper(path),
        path.len() > 0,
    ensures
        pieces(rel_text(path), '/') == path,
        rel_text(path).len() > 0,
        rel_text(path)[0] == path[0][0],
    decreases path.len(),
{
    reveal_strlit("/");
    assert("/"@ =~= seq!['/']);
    let last = path.last();
    assert(proper_name(last));
    assert(proper_name(path[0]));
    assert(pieces(last, '/') =~= seq![last]) by {
        lemma_position_is(last, '/', last.len() as int);
    }
    if path.len() == 1 {
        assert(path =~= seq![last]);
    } else {
        let front = path.drop_last();
        assert forall|i: int| 0 <= i < front.len() implies proper_name(#[trigger] front[i]) by {
            assert(path[i] == front[i]);
        }
        lemma_pieces_of_path(front);
        lemma_pieces_concat(rel_text(front), last, '/');
        assert(rel_text(path) =~= rel_text(front) + seq!['/'] + last);
        assert(path =~= front + seq![last]);
        assert(front[0] == path[0]);
    }
}

/// The segments of a path that are all names are its names.
proof fn lemma_names_of_path(path: Seq<Seq<char>>)
    requires
        proper(path),
    ensures
        names(path) == path,
    decreases path.len(),
{
    if path.len() > 0 {
        let front = path.drop_last();
        assert forall|i: int| 0 <= i < front.len() implies proper_name(#[trigger] front[i]) by {
            assert(path[i] == front[i]);
        }
        lemma_names_of_path(front);
        assert(proper_name(path.last()));
        assert(front.push(path.last()) =~= path);
    } else {
        assert(names(path) =~= path);
    }
}

/// Trimming leaves what is no white space.
proof fn lemma_trim_keeps(s: Seq<char>, c: char)
    requires
        s.contains(c),
        !white_space(c),
    ensures
        trimmed(s).contains(c),
{
    lemma_start_trim_keeps(s, c);
    lemma_end_trim_keeps(start_trimmed(s), c);
}

/// Trimming at the start leaves what is no white space.
proof fn lemma_start_trim_keeps(s: Seq<char>, c: char)
    requires
        s.contains(c),
        !white_space(c),
    ensures
        start_trimmed(s).contains(c),
    decreases s.len(),
{
    if s.len() > 0 && white_space(s[0]) {
        let k = choose|k: int| 0 <= k < s.len() && s[k] == c;
        assert(s.skip(1)[k - 1] == c);
        lemma_start_trim_keeps(s.skip(1), c);
    }
}

/// Trimming at the end leaves what is no white space.
proof fn lemma_end_trim_keeps(s: Seq<char>, c: char)
    requires
        s.contains(c),
        !white_space(c),
    ensures
        end_trimmed(s).contains(c),
    decreases s.len(),
{
    if s.len() > 0 && white_space(s.last()) {
        let k = choose|k: int| 0 <= k < s.len() && s[k] == c;
        assert(s.drop_last()[k] == c);
        lemma_end_trim_keeps(s.drop_last(), c);
    }
}

/// Whether the text of a path reads as `.`: its one name is a dot between white space.
pub open spec fn reads_as_dot(path: Seq<Seq<char>>) -> bool {
    path.len() == 1 && trimmed(path[0]) == "."@
}

/// A path that is written out and read again is the same path. A path whose only name is a dot
/// between white space is left out: its text stands for the project itself.
pub proof fn law_path_text_reads_back(path: Seq<Seq<char>>)
    requires
        proper(path),
        !reads_as_dot(path),
    ensures
        bundle_path(rel_text(path)) == Ok::<Seq<Seq<char>>, Seq<char>>(path),
{
    let text = rel_text(path);
    if path.len() == 0 {
        assert(path =~= Seq::empty());
    } else {
        lemma_pieces_of_path(path);
        lemma_names_of_path(path);
        assert(proper_name(path[0]));
        assert(text[0] != '/') by {
            assert(path[0].contains(path[0][0]));
        }
        if path.contains(".."@) {
            let k = choose|k: int| 0 <= k < path.len() && path[k] == ".."@;
            assert(proper_name(path[k]));
        }
        if path.len() > 1 {
            reveal_strlit("/");
            reveal_strlit(".");
            let front = rel_text(path.drop_last());
            assert(text[front.len() as int] == '/');
            lemma_trim_keeps(text, '/');
            assert(!"."@.contains('/'));
        } else {
            assert(text == path[0]);
        }
    }
}

/// Normalising is idempotent: what a text of the recipe names, its normal form names.
pub proof fn law_normal_form_is_stable(raw: Seq<char>)
    requires
        bundle_path(raw) matches Ok(path) && !reads_as_dot(path),
    ensures
        bundle_path(rel_text(bundle_path(raw)->Ok_0)) == bundle_path(raw),
{
    law_bundle_paths_stay_inside(raw);
    law_path_text_reads_back(bundle_path(raw)->Ok_0);
}

/// The paths that a list of texts names, or the error for the first that has one.
pub open spec fn bundle_paths(values: Seq<Seq<char>>) -> Result<Seq<Seq<Seq<char>>>, Seq<char>>
    decreases values.len(),
{
    if values.len() == 0 {
        Ok(Seq::empty())
    } else {
        match (bundle_paths(values.drop_last()), bundle_path(values.last())) {
            (Err(e), _) => Err(e),
            (Ok(_), Err(e)) => Err(e),
            (Ok(before), Ok(path)) => Ok(before.push(path)),
        }
    }
}

/// The paths of a list but for the project itself.
pub open spec fn below(list: Seq<Seq<Seq<char>>>) -> Seq<Seq<Seq<char>>>
    decreases list.len(),
{
    if list.len() == 0 {
        Seq::empty()
    } else if list.last().len() == 0 {
        below(list.drop_last())
    } else {
        below(list.drop_last()).push(list.last())
    }
}

/// The texts of `[bundle].include`, the whole project where there is no such list.
pub open spec fn included_texts(bundle: Option<&BundleConfig>) -> Seq<Seq<char>> {
    match bundle {
        Some(config) => listed_or(config.includes, seq!["."@]),
        None => seq!["."@],
    }
}

/// The texts of `[bundle].exclude`.
pub open spec fn excluded_texts(bundle: Option<&BundleConfig>) -> Seq<Seq<char>> {
    match bundle {
        Some(config) => listed_texts(config.excludes),
        None => Seq::empty(),
    }
}

/// What `[bundle]` takes in and what it leaves out: an empty list takes in the whole project, and
/// the project itself cannot be left out.
pub open spec fn bundle_of(bundle: Option<&BundleConfig>) -> Result<
    (Seq<Seq<Seq<char>>>, Seq<Seq<Seq<char>>>),
    Seq<char>,
> {
    match (bundle_paths(included_texts(bundle)), bundle_paths(excluded_texts(bundle))) {
        (Err(e), _) => Err(e),
        (Ok(_), Err(e)) => Err(e),
        (Ok(takes), Ok(leaves)) => Ok(
            (if takes.len() == 0 { seq![Seq::<Seq<char>>::empty()] } else { takes }, below(leaves)),
        ),
    }
}

/// The paths that a list of texts names.
pub fn parse_paths(values: &Vec<String>) -> (r: Result<Vec<RelPath>, String>)
    ensures
        match r {
            Ok(list) => bundle_paths(texts(values@)) == Ok::<Seq<Seq<Seq<char>>>, Seq<char>>(rel_views(list@)),
            Err(e) => bundle_paths(texts(values@)) == Err::<Seq<Seq<Seq<char>>>, Seq<char>>(e@),
        },
{
    let ghost all = texts(values@);
    let mut list: Vec<RelPath> = Vec::new();
    let mut i: usize = 0;
    assert(all.take(0) =~= Seq::empty());
    assert(rel_views(list@) =~= Seq::empty());
    while i < values.len()
        invariant
            i <= values.len(),
            all == texts(values@),
            bundle_paths(all.take(i as int)) == Ok::<Seq<Seq<Seq<char>>>, Seq<char>>(rel_views(list@)),
        decreases values.len() - i,
    {
        let ghost before = rel_views(list@);
        let ghost upto = all.take(i + 1);
        assert(upto.drop_last() =~= all.take(i as int));
        assert(upto.last() == values@[i as int]@);
        match parse_bundle_path(values[i].as_str()) {
            Ok(path) => {
                list.push(path);
                assert(rel_views(list@) =~= before.push(path@));
            },
            Err(e) => {
                proof {
                    lemma_error_stays(|s: Seq<Seq<char>>| bundle_paths(s), all, i + 1);
                }
                return Err(e);
            },
        }
        i = i + 1;
    }
    assert(all.take(i as int) =~= all);
    Ok(list)
}

/// What `[bundle]` takes in and what it leaves out.
pub fn parse_bundle_paths(bundle: Option<&BundleConfig>) -> (r: Result<(Vec<RelPath>, Vec<RelPath>), String>)
    ensures
        match r {
            Ok((takes, leaves)) => bundle_of(bundle) == Ok::<
                (Seq<Seq<Seq<char>>>, Seq<Seq<Seq<char>>>),
                Seq<char>,
            >((rel_views(takes@), rel_views(leaves@))),
            Err(e) => bundle_of(bundle) == Err::<(Seq<Seq<Seq<char>>>, Seq<Seq<Seq<char>>>), Seq<char>>(e@),
        },
{
    let mut take_texts: Vec<String> = Vec::new();
    take_texts.push(".".to_string());
    assert(texts(take_texts@) =~= seq!["."@]);
    let mut leave_texts: Vec<String> = Vec::new();
    assert(texts(leave_texts@) =~= Seq::empty());
    if let Some(config) = bundle {
        if let Some(list) = &config.includes {
            take_texts = list.clone();
        }
        if let Some(list) = &config.excludes {
            leave_texts = list.clone();
        }
    }
    let mut takes: Vec<RelPath> = match parse_paths(&take_texts) {
        Ok(list) => list,
        Err(e) => {
            return Err(e);
        },
    };
    if takes.len() == 0 {
        takes.push(RelPath::root());
        assert(rel_views(takes@) =~= seq![Seq::<Seq<char>>::empty()]);
    }
    let all: Vec<RelPath> = match parse_paths(&leave_texts) {
        Ok(list) => list,
        Err(e) => {
            return Err(e);
        },
    };
    let ghost views = rel_views(all@);
    let mut leaves: Vec<RelPath> = Vec::new();
    let mut i: usize = 0;
    assert(views.take(0) =~= Seq::empty());
    assert(rel_views(leaves@) =~= Seq::empty());
    while i < all.len()
        invariant
            i <= all.len(),
            views == rel_views(all@),
            rel_views(leaves@) == below(views.take(i as int)),
        decreases all.len() - i,
    {
        let ghost before = rel_views(leaves@);
        assert(views.take(i + 1).drop_last() =~= views.take(i as int));
        assert(views.take(i + 1).last() == all@[i as int]@);
        if !all[i].is_root() {
            leaves.push(all[i].copy());
            assert(rel_views(leaves@) =~= before.push(all@[i as int]@));
        }
        i = i + 1;
    }
    assert(views.take(i as int) =~= views);
    Ok((takes, leaves))
}

/// The names of a path as the host writes them.
pub open spec fn host_names(path: Seq<Seq<char>>) -> Seq<Seq<u8>> {
    path.map_values(|name: Seq<char>| encode_utf8(name))
}

/// The names of a path of the host.
pub open spec fn name_views(list: Seq<Vec<u8>>) -> Seq<Seq<u8>> {
    list.map_values(|name: Vec<u8>| name@)
}

/// Whether a path of the host is one of `excludes` or lies below one.
pub open spec fn excluded(path: Seq<Seq<u8>>, excludes: Seq<Seq<Seq<char>>>) -> bool {
    exists|i: int| 0 <= i < excludes.len() && host_names(#[trigger] excludes[i]).is_prefix_of(path)
}

/// What lies below an excluded path is excluded too.
pub proof fn law_exclusion_covers_what_lies_below(
    path: Seq<Seq<u8>>,
    rest: Seq<Seq<u8>>,
    excludes: Seq<Seq<Seq<char>>>,
)
    requires
        excluded(path, excludes),
    ensures
        excluded(path + rest, excludes),
{
    let i = choose|i: int| 0 <= i < excludes.len() && host_names(#[trigger] excludes[i]).is_prefix_of(path);
    let e = host_names(excludes[i]);
    assert forall|k: int| 0 <= k < e.len() implies e[k] == (path + rest)[k] by {
        assert(e[k] == path[k]);
    }
    assert(e.is_prefix_of(path + rest));
}

impl RelPath {
    /// The names of the path as the host writes them.
    pub fn names(&self) -> (r: Vec<Vec<u8>>)
        ensures
            name_views(r@) == host_names(self@),
    {
        let mut r: Vec<Vec<u8>> = Vec::new();
        let ghost all = host_names(self@);
        let mut i: usize = 0;
        assert(name_views(r@) =~= all.take(0));
        while i < self.parts.len()
            invariant
                i <= self.parts.len(),
                all == host_names(self@),
                name_views(r@) == all.take(i as int),
            decreases self.parts.len() - i,
        {
            let ghost before = name_views(r@);
            let name: Vec<u8> = self.parts[i].as_str().as_bytes_vec();
            assert(all[i as int] == encode_utf8(self@[i as int]));
            r.push(name);
            assert(name_views(r@) =~= before.push(name@));
            i = i + 1;
            assert(name_views(r@) =~= all.take(i as int));
        }
        assert(all.take(i as int) =~= all);
        r
    }
}

/// Whether `path` starts with `prefix`, name by name.
fn starts_with_names(path: &Vec<Vec<u8>>, prefix: &Vec<Vec<u8>>) -> (r: bool)
    ensures
        r == name_views(prefix@).is_prefix_of(name_views(path@)),
{
    let ghost p = name_views(path@);
    let ghost q = name_views(prefix@);
    if prefix.len() > path.len() {
        return false;
    }
    let mut i: usize = 0;
    while i < prefix.len()
        invariant
            i <= prefix.len() <= path.len(),
            p == name_views(path@),
            q == name_views(prefix@),
            forall|j: int| 0 <= j < i ==> p[j] == q[j],
        decreases prefix.len() - i,
    {
        assert(p[i as int] == path@[i as int]@ && q[i as int] == prefix@[i as int]@);
        if !same_bytes(&path[i], &prefix[i]) {
            return false;
        }
        i = i + 1;
    }
    assert(q =~= p.subrange(0, q.len() as int));
    true
}

/// Whether a path below the project, given by its names, is one of `excludes` or lies below one.
pub fn is_excluded(relative_path: &Vec<Vec<u8>>, excludes: &Vec<RelPath>) -> (r: bool)
    ensures
        r == excluded(name_views(relative_path@), rel_views(excludes@)),
{
    let ghost path = name_views(relative_path@);
    let ghost views = rel_views(excludes@);
    let mut i: usize = 0;
    while i < excludes.len()
        invariant
            i <= excludes.len(),
            path == name_views(relative_path@),
            views == rel_views(excludes@),
            forall|j: int| 0 <= j < i ==> !host_names(#[trigger] views[j]).is_prefix_of(path),
        decreases excludes.len() - i,
    {
        assert(views[i as int] == excludes@[i as int]@);
        if starts_with_names(relative_path, &excludes[i].names()) {
            return true;
        }
        i = i + 1;
    }
    false
}

/// What is copied for a path that the bundle takes in.
#[derive(Debug, Clone, Copy, PartialEq, Eq, Structural)]
pub enum IncludeAction {
    /// Everything in the project.
    Project,
    /// The file.
    File,
    /// Everything in the directory.
    Directory,
    /// Nothing: it is left out.
    Nothing,
}

/// What is copied for a path that the bundle takes in: `present` and `is_file` tell what the project
/// holds there.
pub fn copy_include(path: &RelPath, excludes: &Vec<RelPath>, present: bool, is_file: bool) -> (r: Result<
    IncludeAction,
    String,
>)
    ensures
        r is Err <==> path@.len() > 0 && !present,
        r matches Err(e) ==> e@ == "bundle.include path not found: "@ + rel_text(path@),
        r matches Ok(action) ==> {
            &&& action == IncludeAction::Project <==> path@.len() == 0
            &&& action == IncludeAction::Directory <==> path@.len() > 0 && !is_file
            &&& action == IncludeAction::Nothing <==> path@.len() > 0 && is_file && excluded(
                host_names(path@),
                rel_views(excludes@),
            )
        },
{
    if path.is_root() {
        return Ok(IncludeAction::Project);
    }
    if !present {
        return Err("bundle.include path not found: ".to_string().concat(path.text().as_str()));
    }
    if !is_file {
        return Ok(IncludeAction::Directory);
    }
    if is_excluded(&path.names(), excludes) {
        Ok(IncludeAction::Nothing)
    } else {
        Ok(IncludeAction::File)
    }
}

/// What is done with an entry of a directory that is copied.
#[derive(Debug, Clone, Copy, PartialEq, Eq, Structural)]
pub enum EntryAction {
    /// Nothing: it is left out.
    Skip,
    /// Create the directory and copy what it holds.
    Enter,
    /// Copy the file.
    Copy,
}

/// What is done with an entry of a directory that is copied: `path` is the entry's path, `names`
/// its names below the project. The bundle takes no symbolic link.
pub fn copy_entry(
    path: &HostPath,
    names: &Vec<Vec<u8>>,
    excludes: &Vec<RelPath>,
    is_symlink: bool,
    is_dir: bool,
) -> (r: Result<EntryAction, String>)
    ensures
        r is Err <==> is_symlink,
        r matches Err(e) ==> e@ == "symlink is not supported in bundle: "@ + shown(path@),
        r matches Ok(action) ==> {
            &&& action == EntryAction::Skip <==> excluded(name_views(names@), rel_views(excludes@))
            &&& action == EntryAction::Enter <==> is_dir && !excluded(name_views(names@), rel_views(excludes@))
        },
{
    if is_symlink {
        return Err("symlink is not supported in bundle: ".to_string().concat(path.display().as_str()));
    }
    if is_excluded(names, excludes) {
        Ok(EntryAction::Skip)
    } else if is_dir {
        Ok(EntryAction::Enter)
    } else {
        Ok(EntryAction::Copy)
    }
}

/// Which texts of a recipe name a path below the project: those that are not absolute and have no
/// segment `..`, and those that stand for the project itself. The names of the path are the segments of
/// the text in their order, but for empty ones and `.`.
pub proof fn law_paths_are_what_the_text_names(raw: Seq<char>)
    ensures
        raw.len() == 0 || trimmed(raw) == "."@ ==> bundle_path(raw) == Ok::<Seq<Seq<char>>, Seq<char>>(Seq::empty()),
        raw.len() > 0 && trimmed(raw) != "."@ ==> (bundle_path(raw) is Ok <==> raw[0] != '/' && forall|i: int|
            0 <= i < pieces(raw, '/').len() ==> #[trigger] pieces(raw, '/')[i] != ".."@),
        raw.len() > 0 && trimmed(raw) != "."@ && bundle_path(raw) is Ok ==> bundle_path(raw)->Ok_0 == pieces(
            raw,
            '/',
        ).filter(|s: Seq<char>| s.len() > 0 && s != "."@),
{
    if raw.len() > 0 && trimmed(raw) != "."@ {
        lemma_names_are_filtered(pieces(raw, '/'));
        if pieces(raw, '/').contains(".."@) {
            let k = choose|k: int| 0 <= k < pieces(raw, '/').len() && pieces(raw, '/')[k] == ".."@;
            assert(pieces(raw, '/')[k] == ".."@);
        }
    }
}

/// The names among segments are those that are neither empty nor `.`.
proof fn lemma_names_are_filtered(segments: Seq<Seq<char>>)
    ensures
        names(segments) == segments.filter(|s: Seq<char>| s.len() > 0 && s != "."@),
    decreases segments.len(),
{
    reveal(Seq::filter);
    if segments.len() > 0 {
        lemma_names_are_filtered(segments.drop_last());
    }
}

/// The paths of a list but for the project itself are those that have a name.
proof fn lemma_below_is_filtered(list: Seq<Seq<Seq<char>>>)
    ensures
        below(list) == list.filter(|p: Seq<Seq<char>>| p.len() > 0),
    decreases list.len(),
{
    reveal(Seq::filter);
    if list.len() > 0 {
        lemma_below_is_filtered(list.drop_last());
    }
}

/// Each path of a list is what the text at its place names.
proof fn lemma_paths_one_by_one(values: Seq<Seq<char>>)
    requires
        bundle_paths(values) is Ok,
    ensures
        bundle_paths(values)->Ok_0.len() == values.len(),
        forall|i: int|
            0 <= i < values.len() ==> bundle_path(#[trigger] values[i]) == Ok::<Seq<Seq<char>>, Seq<char>>(
                bundle_paths(values)->Ok_0[i],
            ),
    decreases values.len(),
{
    if values.len() > 0 {
        let front = values.drop_last();
        lemma_paths_one_by_one(front);
        assert forall|i: int| 0 <= i < values.len() implies bundle_path(#[trigger] values[i]) == Ok::<
            Seq<Seq<char>>,
            Seq<char>,
        >(bundle_paths(values)->Ok_0[i]) by {
            if i < front.len() {
                assert(front[i] == values[i]);
            }
        }
    }
}

/// `[bundle]` is read item by item. What is taken in are the paths that `include` names, in its order,
/// and the whole project where it names none. What is left out are the paths that `exclude` names, in
/// its order, but for the project itself.
pub proof fn law_bundles_are_read_item_by_item(bundle: BundleConfig)
    requires
        bundle_of(Some(&bundle)) is Ok,
    ensures
        ({
            let (takes, leaves) = bundle_of(Some(&bundle))->Ok_0;
            &&& bundle.includes is None || bundle.includes->0@.len() == 0 ==> takes == seq![
                Seq::<Seq<char>>::empty(),
            ]
            &&& bundle.includes matches Some(list) ==> {
                &&& list@.len() > 0 ==> takes.len() == list@.len()
                &&& forall|i: int|
                    0 <= i < list@.len() ==> bundle_path((#[trigger] list@[i])@) == Ok::<Seq<Seq<char>>, Seq<char>>(
                        takes[i],
                    )
            }
            &&& bundle.excludes is None ==> leaves.len() == 0
            &&& bundle.excludes matches Some(list) ==> {
                &&& forall|i: int| 0 <= i < list@.len() ==> bundle_path((#[trigger] list@[i])@) is Ok
                &&& leaves == Seq::new(list@.len(), |i: int| bundle_path(list@[i]@)->Ok_0).filter(
                    |p: Seq<Seq<char>>| p.len() > 0,
                )
                &&& forall|i: int|
                    0 <= i < list@.len() && bundle_path((#[trigger] list@[i])@)->Ok_0.len() > 0 ==> leaves.contains(
                        bundle_path(list@[i]@)->Ok_0,
                    )
                &&& forall|p: Seq<Seq<char>>|
                    leaves.contains(p) ==> p.len() > 0 && exists|i: int|
                        0 <= i < list@.len() && bundle_path((#[trigger] list@[i])@) == Ok::<
                            Seq<Seq<char>>,
                            Seq<char>,
                        >(p)
            }
        }),
{
    let (takes, leaves) = bundle_of(Some(&bundle))->Ok_0;
    lemma_paths_one_by_one(included_texts(Some(&bundle)));
    lemma_paths_one_by_one(excluded_texts(Some(&bundle)));
    if let Some(list) = bundle.includes {
        assert forall|i: int| 0 <= i < list@.len() implies bundle_path((#[trigger] list@[i])@) == Ok::<
            Seq<Seq<char>>,
            Seq<char>,
        >(takes[i]) by {
            assert(included_texts(Some(&bundle))[i] == list@[i]@);
        }
    } else {
        reveal_strlit(".");
        lemma_dot_is_the_project();
        assert(included_texts(Some(&bundle))[0] == "."@);
        assert(takes =~= seq![Seq::<Seq<char>>::empty()]);
    }
    if let Some(list) = bundle.excludes {
        let values = excluded_texts(Some(&bundle));
        let all = bundle_paths(values)->Ok_0;
        assert forall|i: int| 0 <= i < list@.len() implies bundle_path((#[trigger] list@[i])@) == Ok::<
            Seq<Seq<char>>,
            Seq<char>,
        >(all[i]) by {
            assert(values[i] == list@[i]@);
        }
        assert(all =~= Seq::new(list@.len(), |i: int| bundle_path(list@[i]@)->Ok_0));
        lemma_below_is_filtered(all);
        lemma_below_holds(all);
        assert forall|i: int| 0 <= i < list@.len() && bundle_path(
            (#[trigger] list@[i])@,
        )->Ok_0.len() > 0 implies leaves.contains(bundle_path(list@[i]@)->Ok_0) by {
            assert(all.contains(all[i]));
        }
        assert forall|p: Seq<Seq<char>>| leaves.contains(p) implies p.len() > 0 && exists|i: int|
            0 <= i < list@.len() && bundle_path((#[trigger] list@[i])@) == Ok::<Seq<Seq<char>>, Seq<char>>(p) by {
            assert(all.contains(p));
            let i = choose|i: int| 0 <= i < all.len() && all[i] == p;
            assert(bundle_path(list@[i]@) == Ok::<Seq<Seq<char>>, Seq<char>>(p));
        }
    }
}

/// The text `.` stands for the project itself.
proof fn lemma_dot_is_the_project()
    ensures
        trimmed("."@) == "."@,
        bundle_path("."@) == Ok::<Seq<Seq<char>>, Seq<char>>(Seq::empty()),
{
    reveal_strlit(".");
    assert(!white_space('.'));
    assert(start_trimmed("."@) == "."@);
}

/// The paths of a list but for the project itself are paths of the list.
proof fn lemma_below_holds(list: Seq<Seq<Seq<char>>>)
    ensures
        forall|p: Seq<Seq<char>>| below(list).contains(p) <==> list.contains(p) && p.len() > 0,
    decreases list.len(),
{
    if list.len() > 0 {
        let front = list.drop_last();
        lemma_below_holds(front);
        assert forall|p: Seq<Seq<char>>| below(list).contains(p) <==> list.contains(p) && p.len() > 0 by {
            if list.contains(p) && p.len() > 0 {
                let k = choose|k: int| 0 <= k < list.len() && list[k] == p;
                if k < front.len() {
                    assert(front[k] == p);
                    assert(front.contains(p));
                    assert(below(front).contains(p));
                    let m = choose|m: int| 0 <= m < below(front).len() && below(front)[m] == p;
                    assert(below(list)[m] == p);
                } else {
                    assert(below(list)[below(front).len() as int] == p);
                }
            }
            if below(list).contains(p) {
                let m = choose|m: int| 0 <= m < below(list).len() && below(list)[m] == p;
                if m < below(front).len() {
                    assert(below(front)[m] == p);
                    assert(below(front).contains(p));
                    assert(front.contains(p));
                    let k = choose|k: int| 0 <= k < front.len() && front[k] == p;
                    assert(list[k] == p);
                } else {
                    assert(list[list.len() - 1] == p);
                }
            }
        }
    }
}

/// Without `[bundle]` the whole project is taken in, and nothing is left out.
pub proof fn law_no_bundle_is_the_whole_project()
    ensures
        bundle_of(None) == Ok::<(Seq<Seq<Seq<char>>>, Seq<Seq<Seq<char>>>), Seq<char>>(
            (seq![Seq::<Seq<char>>::empty()], Seq::empty()),
        ),
{
    lemma_dot_is_the_project();
    let values = included_texts(None);
    assert(values.drop_last() =~= Seq::empty());
    assert(bundle_paths(values.drop_last())->Ok_0 =~= Seq::empty());
    assert(bundle_paths(values)->Ok_0 =~= seq![Seq::<Seq<char>>::empty()]);
}

/// The names of a path as the host writes them are the names in UTF-8.
pub proof fn law_names_are_written_in_utf8(path: Seq<Seq<char>>, i: int)
    requires
        0 <= i < path.len(),
    ensures
        host_names(path).len() == path.len(),
        host_names(path)[i] == encode_utf8(path[i]),
{
}

/// Of several paths with errors the first counts, and the error names its text.
pub proof fn law_first_wrong_path_counts(values: Seq<Seq<char>>)
    requires
        bundle_paths(values) is Err,
    ensures
        exists|k: int|
            0 <= k < values.len() && bundle_paths(values.take(k)) is Ok && bundle_path(#[trigger] values[k]) is Err
                && bundle_paths(values) == Err::<Seq<Seq<Seq<char>>>, Seq<char>>(
                if values[k][0] == '/' {
                    "bundle path must be relative: "@ + values[k]
                } else {
                    "bundle path cannot contain '..': "@ + values[k]
                },
            ),
    decreases values.len(),
{
    let front = values.drop_last();
    if bundle_paths(front) is Err {
        law_first_wrong_path_counts(front);
        let k = choose|k: int|
            0 <= k < front.len() && bundle_paths(front.take(k)) is Ok && bundle_path(#[trigger] front[k]) is Err
                && bundle_paths(front) == Err::<Seq<Seq<Seq<char>>>, Seq<char>>(
                if front[k][0] == '/' {
                    "bundle path must be relative: "@ + front[k]
                } else {
                    "bundle path cannot contain '..': "@ + front[k]
                },
            );
        assert(front.take(k) =~= values.take(k));
        assert(values[k] == front[k]);
    } else {
        let k = values.len() - 1;
        assert(values.take(k) =~= front);
        assert(values[k] == values.last());
    }
}

/// `[bundle]` is accepted if and only if every text of its lists names a path of the project; an error in
/// `include` counts before one in `exclude`.
pub proof fn law_bundles_are_accepted_with_all_their_paths(bundle: BundleConfig)
    ensures
        ({
            let takes = bundle_paths(listed_or(bundle.includes, seq!["."@]));
            let leaves = bundle_paths(listed_texts(bundle.excludes));
            &&& bundle_of(Some(&bundle)) is Ok <==> takes is Ok && leaves is Ok
            &&& takes matches Err(e) ==> bundle_of(Some(&bundle)) is Err && bundle_of(Some(&bundle))->Err_0 == e
            &&& takes is Ok && leaves is Err ==> bundle_of(Some(&bundle))->Err_0 == leaves->Err_0
            &&& bundle.includes matches Some(list) ==> (takes is Ok <==> forall|i: int|
                0 <= i < list@.len() ==> bundle_path((#[trigger] list@[i])@) is Ok)
            &&& bundle.includes is None ==> takes is Ok
            &&& bundle.excludes matches Some(list) ==> (leaves is Ok <==> forall|i: int|
                0 <= i < list@.len() ==> bundle_path((#[trigger] list@[i])@) is Ok)
            &&& bundle.excludes is None ==> leaves is Ok
        }),
{
    if let Some(list) = bundle.includes {
        lemma_paths_are_accepted(list@);
    } else {
        law_no_bundle_is_the_whole_project();
    }
    if let Some(list) = bundle.excludes {
        lemma_paths_are_accepted(list@);
    }
}

/// A list of texts is accepted if and only if each text is.
proof fn lemma_paths_are_accepted(list: Seq<String>)
    ensures
        bundle_paths(texts(list)) is Ok <==> forall|i: int|
            0 <= i < list.len() ==> bundle_path((#[trigger] list[i])@) is Ok,
{
    let values = texts(list);
    if bundle_paths(values) is Ok {
        lemma_paths_one_by_one(values);
        assert forall|i: int| 0 <= i < list.len() implies bundle_path((#[trigger] list[i])@) is Ok by {
            assert(values[i] == list[i]@);
        }
    } else {
        law_first_wrong_path_counts(values);
        let k = choose|k: int|
            0 <= k < values.len() && bundle_paths(values.take(k)) is Ok && bundle_path(#[trigger] values[k]) is Err;
        assert(values[k] == list[k]@);
    }
}

} // verus!
