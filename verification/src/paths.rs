//! Paths of the host as bytes, and the places that the tool itself uses.
//!
//! A path follows the POSIX rules: `/` separates its segments, repeated separators and `.` segments
//! mean nothing (but for a leading `.`), and a path that starts with `/` is absolute.
use vstd::prelude::*;
use vstd::string::*;
use vstd::utf8::{
    char_is_scalar, decode_utf8, encode_scalar, encode_utf8, encode_utf8_decode_utf8, encode_utf8_valid_utf8,
    valid_utf8,
};
use crate::text::{
    decimal, decimal_text, law_decimals_read_back, lemma_position, lemma_position_is, optional_text, pieces, position,
    same, split, texts, trim, trimmed,
};

verus! {

/// The name of the recipe in a project.
pub const CONFIG_FILE: &'static str = "RecipeFile";

/// The name of the manifest in an archive.
pub const MANIFEST_FILE: &'static str = ".tortia-manifest.toml";

/// The directory of the tools in a payload, unless the environment names another.
pub const DEFAULT_TOOLS_DIR: &'static str = ".tortia-tools";

/// What the names of the temporary directories of a build start with.
pub const BUILD_TEMP_PREFIX: &'static str = "tortia-build";

/// What the names of the temporary directories of a run start with.
pub const RUN_TEMP_PREFIX: &'static str = "tortia-run";

/// The byte that separates the segments of a path.
pub const SLASH: u8 = 0x2f;

/// The byte that the segments for this and the parent directory are made of.
pub const DOT: u8 = 0x2e;

/// A path of the host.
#[derive(Debug)]
pub struct HostPath {
    pub bytes: Vec<u8>,
}

impl View for HostPath {
    type V = Seq<u8>;

    open spec fn view(&self) -> Seq<u8> {
        self.bytes@
    }
}

/// The paths that a list holds.
pub open spec fn path_views(list: Seq<HostPath>) -> Seq<Seq<u8>> {
    list.map_values(|p: HostPath| p@)
}

/// The bytes of an optional path.
pub open spec fn optional_path(value: Option<HostPath>) -> Option<Seq<u8>> {
    match value {
        Some(p) => Some(p@),
        None => None,
    }
}

/// The bytes of an optional path.
pub open spec fn given_path(value: Option<&HostPath>) -> Option<Seq<u8>> {
    match value {
        Some(p) => Some(p@),
        None => None,
    }
}

/// One component of a path.
pub enum ComponentView {
    Root,
    Current,
    Parent,
    Normal(Seq<u8>),
}

/// One component of a path.
pub enum PathComponent {
    Root,
    Current,
    Parent,
    Normal(Vec<u8>),
}

impl View for PathComponent {
    type V = ComponentView;

    open spec fn view(&self) -> ComponentView {
        match *self {
            PathComponent::Root => ComponentView::Root,
            PathComponent::Current => ComponentView::Current,
            PathComponent::Parent => ComponentView::Parent,
            PathComponent::Normal(name) => ComponentView::Normal(name@),
        }
    }
}

/// The components that a list holds.
pub open spec fn component_views(list: Seq<PathComponent>) -> Seq<ComponentView> {
    list.map_values(|c: PathComponent| c@)
}

/// Whether a path starts at the root.
pub open spec fn absolute(p: Seq<u8>) -> bool {
    p.len() > 0 && p[0] == SLASH
}

/// `rel` taken from the directory `base`; an absolute `rel` replaces it.
pub open spec fn joined(base: Seq<u8>, rel: Seq<u8>) -> Seq<u8> {
    if absolute(rel) {
        rel
    } else if base.len() == 0 || base.last() == SLASH {
        base + rel
    } else {
        base.push(SLASH) + rel
    }
}

/// The path of the text `name` in the directory `base`.
pub open spec fn within(base: Seq<u8>, name: Seq<char>) -> Seq<u8> {
    joined(base, encode_utf8(name))
}

/// The components that a list of segments stands for: empty and `.` segments stand for none.
pub open spec fn named(segments: Seq<Seq<u8>>) -> Seq<ComponentView>
    decreases segments.len(),
{
    if segments.len() == 0 {
        Seq::empty()
    } else {
        let before = named(segments.drop_last());
        let last = segments.last();
        if last.len() == 0 || last == seq![DOT] {
            before
        } else if last == seq![DOT, DOT] {
            before.push(ComponentView::Parent)
        } else {
            before.push(ComponentView::Normal(last))
        }
    }
}

/// What a path starts with: the root, this directory, or neither.
pub open spec fn leading(p: Seq<u8>) -> Seq<ComponentView> {
    if absolute(p) {
        seq![ComponentView::Root]
    } else if pieces(p, SLASH)[0] == seq![DOT] {
        seq![ComponentView::Current]
    } else {
        Seq::empty()
    }
}

/// The components of a path.
pub open spec fn components(p: Seq<u8>) -> Seq<ComponentView> {
    leading(p) + named(pieces(p, SLASH))
}

/// Whether two paths have the same components.
pub open spec fn same_path(p: Seq<u8>, q: Seq<u8>) -> bool {
    components(p) == components(q)
}

/// Whether a relative path leads through a parent directory.
pub open spec fn leads_up(rel: Seq<u8>) -> bool {
    named(pieces(rel, SLASH)).contains(ComponentView::Parent)
}

/// Whether a path lies in the directory `root` or is that directory: it is what a relative path that
/// does not lead up leads to from there.
pub open spec fn inside(root: Seq<u8>, p: Seq<u8>) -> bool {
    exists|rel: Seq<u8>| p == #[trigger] joined(root, rel) && !absolute(rel) && !leads_up(rel)
}

/// Whether a text is a relative path that does not lead up.
pub open spec fn stays_below(text: Seq<char>) -> bool {
    text.len() > 0 && text[0] != '/' && !pieces(text, '/').contains(".."@)
}

/// The lexicographic order of bytes.
pub open spec fn bytes_before(a: Seq<u8>, b: Seq<u8>) -> bool
    decreases a.len(),
{
    if b.len() == 0 {
        false
    } else if a.len() == 0 {
        true
    } else {
        a[0] < b[0] || (a[0] == b[0] && bytes_before(a.skip(1), b.skip(1)))
    }
}

/// The kinds of components in their order.
pub open spec fn component_rank(c: ComponentView) -> int {
    match c {
        ComponentView::Root => 0,
        ComponentView::Current => 1,
        ComponentView::Parent => 2,
        ComponentView::Normal(_) => 3,
    }
}

/// The order of components: by kind, names by their bytes.
pub open spec fn component_before(a: ComponentView, b: ComponentView) -> bool {
    match (a, b) {
        (ComponentView::Normal(x), ComponentView::Normal(y)) => bytes_before(x, y),
        _ => component_rank(a) < component_rank(b),
    }
}

/// The lexicographic order of lists of components.
pub open spec fn components_before(a: Seq<ComponentView>, b: Seq<ComponentView>) -> bool
    decreases a.len(),
{
    if b.len() == 0 {
        false
    } else if a.len() == 0 {
        true
    } else {
        component_before(a[0], b[0]) || (a[0] == b[0] && components_before(a.skip(1), b.skip(1)))
    }
}

/// The order of paths: component by component.
pub open spec fn path_before(p: Seq<u8>, q: Seq<u8>) -> bool {
    components_before(components(p), components(q))
}

/// What `String::from_utf8_lossy` makes of bytes.
pub uninterp spec fn lossy_text(bytes: Seq<u8>) -> Seq<char>;

/// `String::from_utf8_lossy`: the text that is left when what is not UTF-8 is replaced; bytes that
/// are UTF-8 throughout give the text that they encode.
#[verifier::external_body]
fn from_utf8_lossy(bytes: &Vec<u8>) -> (r: String)
    ensures
        r@ == lossy_text(bytes@),
        valid_utf8(bytes@) ==> r@ == decode_utf8(bytes@),
{
    String::from_utf8_lossy(bytes.as_slice()).into_owned()
}

/// Bytes as text: what they encode, or what is left when what is not UTF-8 is replaced.
pub open spec fn shown(bytes: Seq<u8>) -> Seq<char> {
    if valid_utf8(bytes) {
        decode_utf8(bytes)
    } else {
        lossy_text(bytes)
    }
}

/// `String::from_utf8`: bytes that are UTF-8 throughout give the text that they encode, other bytes
/// give none.
#[verifier::external_body]
fn from_utf8(bytes: Vec<u8>) -> (r: Option<String>)
    ensures
        r is Some <==> valid_utf8(bytes@),
        r matches Some(s) ==> s@ == decode_utf8(bytes@),
{
    String::from_utf8(bytes).ok()
}

impl HostPath {
    /// The path that a text names.
    pub fn from_text(text: &str) -> (r: HostPath)
        ensures
            r@ == encode_utf8(text@),
    {
        HostPath { bytes: text.as_bytes_vec() }
    }

    /// The same path again.
    pub fn copy(&self) -> (r: HostPath)
        ensures
            r@ == self@,
    {
        HostPath { bytes: self.bytes.clone() }
    }

    /// The path as text, for messages and for values that are text.
    pub fn display(&self) -> (r: String)
        ensures
            r@ == shown(self@),
    {
        from_utf8_lossy(&self.bytes)
    }

    /// Whether the path starts at the root.
    pub fn is_absolute(&self) -> (r: bool)
        ensures
            r == absolute(self@),
    {
        self.bytes.len() > 0 && self.bytes[0] == SLASH
    }

    /// `rel` taken from this directory.
    pub fn join_path(&self, rel: &HostPath) -> (r: HostPath)
        ensures
            r@ == joined(self@, rel@),
    {
        if rel.is_absolute() {
            return rel.copy();
        }
        let mut bytes: Vec<u8> = self.bytes.clone();
        if bytes.len() > 0 && bytes[bytes.len() - 1] != SLASH {
            bytes.push(SLASH);
        }
        let mut i: usize = 0;
        let ghost base = bytes@;
        while i < rel.bytes.len()
            invariant
                i <= rel.bytes.len(),
                bytes@ == base + rel@.take(i as int),
            decreases rel.bytes.len() - i,
        {
            bytes.push(rel.bytes[i]);
            i = i + 1;
            assert(bytes@ =~= base + rel@.take(i as int));
        }
        assert(rel@.take(i as int) =~= rel@);
        HostPath { bytes }
    }

    /// The path of the text `name` in this directory.
    pub fn join(&self, name: &str) -> (r: HostPath)
        ensures
            r@ == within(self@, name@),
    {
        self.join_path(&HostPath::from_text(name))
    }
}

/// The name of a temporary directory: the prefix, the process and the time.
pub open spec fn temp_name(prefix: Seq<char>, process: nat, stamp: nat) -> Seq<char> {
    prefix + "-"@ + decimal(process) + "-"@ + decimal(stamp)
}

/// The name of the temporary directory that `process` makes at the time `stamp`.
pub fn temp_dir_name(prefix: &str, process: u32, stamp: u128) -> (r: String)
    ensures
        r@ == temp_name(prefix@, process as nat, stamp as nat),
{
    prefix.to_string().concat("-").concat(decimal_text(process as u128).as_str()).concat("-").concat(
        decimal_text(stamp).as_str(),
    )
}

/// The tools directory that the environment's value selects: the trimmed value, unless it is empty,
/// absolute or leads through a parent directory.
pub open spec fn tools_dir(raw: Option<Seq<char>>) -> Seq<char> {
    match raw {
        None => DEFAULT_TOOLS_DIR@,
        Some(value) => {
            let v = trimmed(value);
            if v.len() == 0 || v[0] == '/' || pieces(v, '/').contains(".."@) {
                DEFAULT_TOOLS_DIR@
            } else {
                v
            }
        },
    }
}

/// The directory of the package manager wrappers, from the payload.
pub open spec fn pm_bin(tools: Seq<char>) -> Seq<u8> {
    within(within(encode_utf8(tools), "pm"@), "bin"@)
}

/// The text of an optional value of the environment.
pub open spec fn optional_shown(value: Option<Seq<u8>>) -> Option<Seq<char>> {
    match value {
        Some(bytes) => Some(shown(bytes)),
        None => None,
    }
}

/// What the environment says of the places for caches.
pub struct CacheEnv {
    /// Whether the host is a Windows host.
    pub windows: bool,
    /// `TORTIA_CACHE_DIR`.
    pub cache_dir: Option<HostPath>,
    /// `LOCALAPPDATA`.
    pub local_app_data: Option<HostPath>,
    /// `XDG_CACHE_HOME`.
    pub xdg_cache_home: Option<HostPath>,
    /// `HOME`.
    pub home: Option<HostPath>,
    /// The directory for temporary files.
    pub temp_dir: HostPath,
}

impl CacheEnv {
    /// Whether the environment names the cache directory itself.
    pub open spec fn names_cache(&self) -> bool {
        self.cache_dir is Some && trimmed(shown(self.cache_dir->0@)).len() > 0
    }

    /// The directory of the cache.
    pub open spec fn root(&self) -> Seq<u8> {
        if self.names_cache() {
            encode_utf8(trimmed(shown(self.cache_dir->0@)))
        } else if self.windows && self.local_app_data is Some {
            within(within(self.local_app_data->0@, "tortia"@), "cache"@)
        } else if !self.windows && self.xdg_cache_home is Some {
            within(self.xdg_cache_home->0@, "tortia"@)
        } else if !self.windows && self.home is Some {
            within(within(self.home->0@, ".cache"@), "tortia"@)
        } else {
            within(self.temp_dir@, "tortia-cache"@)
        }
    }
}

/// The name of the tools directory in a payload that the text `given` selects.
pub fn tools_dir_for(given: &str) -> (r: String)
    ensures
        r@ == tools_dir(Some(given@)),
{
    let value = trim(given);
    if value.unicode_len() == 0 || value.get_char(0) == '/' {
        return DEFAULT_TOOLS_DIR.to_string();
    }
    let parts: Vec<String> = split(value, '/');
    let mut i: usize = 0;
    while i < parts.len()
        invariant
            i <= parts.len(),
            value@ == trimmed(given@),
            texts(parts@) == pieces(value@, '/'),
            forall|j: int| 0 <= j < i ==> texts(parts@)[j] != ".."@,
        decreases parts.len() - i,
    {
        if same(parts[i].as_str(), "..") {
            assert(texts(parts@)[i as int] == ".."@);
            assert(pieces(value@, '/').contains(".."@));
            return DEFAULT_TOOLS_DIR.to_string();
        }
        i = i + 1;
    }
    assert(!pieces(value@, '/').contains(".."@));
    value.to_string()
}

/// The name of the tools directory in a payload; `raw` is the value of `TORTIA_TOOLS_DIR`, where it
/// is set.
pub fn tools_dir_name(raw: Option<&HostPath>) -> (r: String)
    ensures
        r@ == tools_dir(optional_shown(given_path(raw))),
{
    match raw {
        None => DEFAULT_TOOLS_DIR.to_string(),
        Some(given) => tools_dir_for(given.display().as_str()),
    }
}

/// The directory of the package manager wrappers for the tools directory `tools`, from the payload.
pub fn pm_bin_in(tools: &str) -> (r: HostPath)
    ensures
        r@ == pm_bin(tools@),
{
    HostPath::from_text(tools).join("pm").join("bin")
}

/// The directory of the package manager wrappers, from the payload; `raw` is the value of
/// `TORTIA_TOOLS_DIR`, where it is set.
pub fn pm_bin_relative(raw: Option<&HostPath>) -> (r: HostPath)
    ensures
        r@ == pm_bin(tools_dir(optional_shown(given_path(raw)))),
{
    pm_bin_in(tools_dir_name(raw).as_str())
}

/// The directory of the cache that the text `given` names, unless it is blank.
pub fn named_cache(given: &str) -> (r: Option<HostPath>)
    ensures
        r is Some <==> trimmed(given@).len() > 0,
        r matches Some(path) ==> path@ == encode_utf8(trimmed(given@)),
{
    let value = trim(given);
    if value.unicode_len() > 0 {
        Some(HostPath::from_text(value))
    } else {
        None
    }
}

/// The directory of the cache.
pub fn cache_root(env: &CacheEnv) -> (r: HostPath)
    ensures
        r@ == env.root(),
{
    if let Some(path) = &env.cache_dir {
        if let Some(named) = named_cache(path.display().as_str()) {
            return named;
        }
    }
    if env.windows {
        if let Some(local) = &env.local_app_data {
            return local.join("tortia").join("cache");
        }
    } else {
        if let Some(xdg) = &env.xdg_cache_home {
            return xdg.join("tortia");
        }
        if let Some(home) = &env.home {
            return home.join(".cache").join("tortia");
        }
    }
    env.temp_dir.join("tortia-cache")
}

/// The directory of the downloads in the cache.
pub fn downloads_cache_dir(env: &CacheEnv) -> (r: HostPath)
    ensures
        r@ == within(env.root(), "downloads"@),
{
    cache_root(env).join("downloads")
}

/// The bytes of a path between its separators.
fn split_bytes(bytes: &Vec<u8>, sep: u8) -> (r: Vec<Vec<u8>>)
    ensures
        r@.map_values(|v: Vec<u8>| v@) == pieces(bytes@, sep),
{
    let mut parts: Vec<Vec<u8>> = Vec::new();
    let mut current: Vec<u8> = Vec::new();
    let mut i: usize = 0;
    let ghost view = |v: Vec<u8>| v@;
    let ghost mut start: int = 0;
    assert(bytes@.skip(0) =~= bytes@);
    assert(parts@.map_values(view) + pieces(bytes@, sep) =~= pieces(bytes@, sep));
    while i < bytes.len()
        invariant
            0 <= start <= i <= bytes.len(),
            view == (|v: Vec<u8>| v@),
            current@ == bytes@.subrange(start, i as int),
            forall|j: int| start <= j < i ==> bytes@[j] != sep,
            pieces(bytes@, sep) == parts@.map_values(view) + pieces(bytes@.skip(start), sep),
        decreases bytes.len() - i,
    {
        if bytes[i] == sep {
            let ghost rest = bytes@.skip(start);
            let ghost before = parts@.map_values(view);
            proof {
                lemma_position_is(rest, sep, i - start);
                assert(rest.take(i - start) =~= current@);
                assert(rest.skip(i - start + 1) =~= bytes@.skip(i + 1));
            }
            parts.push(current);
            assert(parts@.map_values(view) =~= before.push(bytes@.subrange(start, i as int)));
            assert(parts@.map_values(view) + pieces(bytes@.skip(i + 1), sep) =~= before + pieces(rest, sep));
            current = Vec::new();
            proof {
                start = i + 1;
            }
        } else {
            current.push(bytes[i]);
        }
        i = i + 1;
        assert(current@ =~= bytes@.subrange(start, i as int));
    }
    let ghost rest = bytes@.skip(start);
    let ghost before = parts@.map_values(view);
    proof {
        lemma_position_is(rest, sep, rest.len() as int);
        assert(rest =~= current@);
    }
    parts.push(current);
    assert(parts@.map_values(view) =~= before + seq![rest]);
    parts
}

impl HostPath {
    /// The components of the path.
    pub fn components(&self) -> (r: Vec<PathComponent>)
        ensures
            component_views(r@) == components(self@),
    {
        let mut parts: Vec<Vec<u8>> = split_bytes(&self.bytes, SLASH);
        let ghost view = |v: Vec<u8>| v@;
        let ghost segments = parts@.map_values(view);
        let mut r: Vec<PathComponent> = Vec::new();
        proof {
            lemma_position(self@, SLASH);
            assert(segments.len() > 0);
            assert(segments[0] == parts@[0]@);
        }
        if self.is_absolute() {
            r.push(PathComponent::Root);
        } else if parts[0].len() == 1 && parts[0][0] == DOT {
            assert(parts@[0]@ =~= seq![DOT]);
            r.push(PathComponent::Current);
        }
        assert(component_views(r@) =~= leading(self@));
        let n: usize = parts.len();
        let mut i: usize = 0;
        assert(segments.take(0) =~= Seq::empty());
        assert(leading(self@) + named(segments.take(0)) =~= leading(self@));
        while i < n
            invariant
                i <= n == parts@.len(),
                view == (|v: Vec<u8>| v@),
                segments == parts@.map_values(view),
                component_views(r@) == leading(self@) + named(segments.take(i as int)),
            decreases n - i,
        {
            let ghost before = component_views(r@);
            let part = &parts[i];
            assert(segments[i as int] == part@);
            assert(segments.take(i + 1).drop_last() =~= segments.take(i as int));
            if part.len() == 0 || (part.len() == 1 && part[0] == DOT) {
                assert(part@.len() == 1 ==> part@ =~= seq![DOT]);
            } else if part.len() == 2 && part[0] == DOT && part[1] == DOT {
                assert(part@ =~= seq![DOT, DOT]);
                r.push(PathComponent::Parent);
                assert(component_views(r@) =~= before.push(ComponentView::Parent));
            } else {
                r.push(PathComponent::Normal(part.clone()));
                assert(component_views(r@) =~= before.push(ComponentView::Normal(part@)));
            }
            i = i + 1;
            assert(component_views(r@) =~= leading(self@) + named(segments.take(i as int)));
        }
        assert(segments.take(n as int) =~= segments);
        r
    }
}

/// The name that a path ends with, where its last component is a name.
pub open spec fn file_name(p: Seq<u8>) -> Option<Seq<u8>> {
    if components(p).len() > 0 && components(p).last() is Normal {
        Some(components(p).last()->Normal_0)
    } else {
        None
    }
}

/// The text of the name that a path ends with, where it has one that is text.
pub open spec fn name_text(p: Seq<u8>) -> Option<Seq<char>> {
    if file_name(p) is Some && valid_utf8(file_name(p)->0) {
        Some(decode_utf8(file_name(p)->0))
    } else {
        None
    }
}

impl HostPath {
    /// The text of the name that the path ends with, where it has one that is text.
    pub fn name(&self) -> (r: Option<String>)
        ensures
            optional_text(r) == name_text(self@),
    {
        let mut parts: Vec<PathComponent> = self.components();
        let ghost all = components(self@);
        assert(component_views(parts@).len() == parts@.len());
        match parts.pop() {
            None => None,
            Some(last) => {
                assert(all.last() == last@);
                match last {
                    PathComponent::Normal(name) => from_utf8(name),
                    _ => None,
                }
            },
        }
    }
}

/// How one value stands to another in an order.
#[derive(Debug, Clone, Copy, PartialEq, Eq, Structural)]
pub enum Order {
    Before,
    Same,
    After,
}

/// No bytes stand before themselves.
pub proof fn lemma_bytes_irreflexive(a: Seq<u8>)
    ensures
        !bytes_before(a, a),
    decreases a.len(),
{
    if a.len() > 0 {
        lemma_bytes_irreflexive(a.skip(1));
    }
}

/// The order of bytes is transitive.
pub proof fn lemma_bytes_transitive(a: Seq<u8>, b: Seq<u8>, c: Seq<u8>)
    requires
        bytes_before(a, b),
        bytes_before(b, c),
    ensures
        bytes_before(a, c),
    decreases a.len(),
{
    if a.len() > 0 && b.len() > 0 && c.len() > 0 && a[0] == b[0] && b[0] == c[0] {
        lemma_bytes_transitive(a.skip(1), b.skip(1), c.skip(1));
    }
}

/// No component stands before itself.
pub proof fn lemma_component_irreflexive(a: ComponentView)
    ensures
        !component_before(a, a),
{
    if let ComponentView::Normal(x) = a {
        lemma_bytes_irreflexive(x);
    }
}

/// The order of components is transitive.
pub proof fn lemma_component_transitive(a: ComponentView, b: ComponentView, c: ComponentView)
    requires
        component_before(a, b),
        component_before(b, c),
    ensures
        component_before(a, c),
{
    match (a, b, c) {
        (ComponentView::Normal(x), ComponentView::Normal(y), ComponentView::Normal(z)) => {
            lemma_bytes_transitive(x, y, z);
        },
        _ => {},
    }
}

/// No list of components stands before itself.
pub proof fn lemma_components_irreflexive(a: Seq<ComponentView>)
    ensures
        !components_before(a, a),
    decreases a.len(),
{
    if a.len() > 0 {
        lemma_component_irreflexive(a[0]);
        lemma_components_irreflexive(a.skip(1));
    }
}

/// The order of lists of components is transitive.
pub proof fn lemma_components_transitive(
    a: Seq<ComponentView>,
    b: Seq<ComponentView>,
    c: Seq<ComponentView>,
)
    requires
        components_before(a, b),
        components_before(b, c),
    ensures
        components_before(a, c),
    decreases a.len(),
{
    if a.len() > 0 && b.len() > 0 && c.len() > 0 {
        if component_before(a[0], b[0]) && component_before(b[0], c[0]) {
            lemma_component_transitive(a[0], b[0], c[0]);
        } else if a[0] == b[0] && b[0] == c[0] && !component_before(a[0], b[0]) && !component_before(b[0], c[0]) {
            lemma_components_transitive(a.skip(1), b.skip(1), c.skip(1));
        } else if a[0] == b[0] && b[0] == c[0] {
            lemma_component_irreflexive(a[0]);
        }
    }
}

/// The order of two sequences of bytes.
fn order_bytes(a: &Vec<u8>, b: &Vec<u8>) -> (r: Order)
    ensures
        match r {
            Order::Before => bytes_before(a@, b@),
            Order::Same => a@ == b@,
            Order::After => bytes_before(b@, a@),
        },
{
    let mut i: usize = 0;
    assert(a@.skip(0) =~= a@ && b@.skip(0) =~= b@);
    while i < a.len() && i < b.len()
        invariant
            i <= a.len(),
            i <= b.len(),
            forall|j: int| 0 <= j < i ==> a@[j] == b@[j],
            bytes_before(a@, b@) == bytes_before(a@.skip(i as int), b@.skip(i as int)),
            bytes_before(b@, a@) == bytes_before(b@.skip(i as int), a@.skip(i as int)),
        decreases a.len() - i,
    {
        assert(a@.skip(i as int)[0] == a@[i as int] && b@.skip(i as int)[0] == b@[i as int]);
        if a[i] < b[i] {
            return Order::Before;
        }
        if b[i] < a[i] {
            return Order::After;
        }
        assert(a@.skip(i as int).skip(1) =~= a@.skip(i + 1));
        assert(b@.skip(i as int).skip(1) =~= b@.skip(i + 1));
        i = i + 1;
    }
    if i < b.len() {
        Order::Before
    } else if i < a.len() {
        Order::After
    } else {
        assert(a@ =~= b@);
        Order::Same
    }
}

/// The place of a component's kind.
fn rank(c: &PathComponent) -> (r: u8)
    ensures
        r == component_rank(c@),
{
    match c {
        PathComponent::Root => 0,
        PathComponent::Current => 1,
        PathComponent::Parent => 2,
        PathComponent::Normal(_) => 3,
    }
}

/// The order of two components.
fn order_component(a: &PathComponent, b: &PathComponent) -> (r: Order)
    ensures
        match r {
            Order::Before => component_before(a@, b@),
            Order::Same => a@ == b@,
            Order::After => component_before(b@, a@),
        },
{
    match (a, b) {
        (PathComponent::Normal(x), PathComponent::Normal(y)) => order_bytes(x, y),
        _ => {
            if rank(a) < rank(b) {
                Order::Before
            } else if rank(b) < rank(a) {
                Order::After
            } else {
                Order::Same
            }
        },
    }
}

impl HostPath {
    /// The order of two paths: component by component.
    pub fn order(&self, other: &HostPath) -> (r: Order)
        ensures
            match r {
                Order::Before => path_before(self@, other@),
                Order::Same => same_path(self@, other@),
                Order::After => path_before(other@, self@),
            },
    {
        let a: Vec<PathComponent> = self.components();
        let b: Vec<PathComponent> = other.components();
        let ghost x = components(self@);
        let ghost y = components(other@);
        let mut i: usize = 0;
        assert(x.skip(0) =~= x && y.skip(0) =~= y);
        while i < a.len() && i < b.len()
            invariant
                x == components(self@),
                y == components(other@),
                component_views(a@) == x,
                component_views(b@) == y,
                i <= a.len(),
                i <= b.len(),
                forall|j: int| 0 <= j < i ==> x[j] == y[j],
                components_before(x, y) == components_before(x.skip(i as int), y.skip(i as int)),
                components_before(y, x) == components_before(y.skip(i as int), x.skip(i as int)),
            decreases a.len() - i,
        {
            assert(x.skip(i as int)[0] == a@[i as int]@ && y.skip(i as int)[0] == b@[i as int]@);
            match order_component(&a[i], &b[i]) {
                Order::Before => {
                    return Order::Before;
                },
                Order::After => {
                    return Order::After;
                },
                Order::Same => {},
            }
            proof {
                lemma_component_irreflexive(x[i as int]);
                assert(x.skip(i as int).skip(1) =~= x.skip(i + 1));
                assert(y.skip(i as int).skip(1) =~= y.skip(i + 1));
                assert(x[i as int] == a@[i as int]@ && y[i as int] == b@[i as int]@);
            }
            i = i + 1;
        }
        if i < b.len() {
            Order::Before
        } else if i < a.len() {
            Order::After
        } else {
            assert(x =~= y);
            Order::Same
        }
    }

    /// Whether two paths have the same components.
    pub fn same_as(&self, other: &HostPath) -> (r: bool)
        ensures
            r == same_path(self@, other@),
    {
        let o = self.order(other);
        proof {
            lemma_components_irreflexive(components(self@));
        }
        match o {
            Order::Same => true,
            _ => false,
        }
    }
}

/// Whether two sequences of bytes are the same.
pub fn same_bytes(a: &Vec<u8>, b: &Vec<u8>) -> (r: bool)
    ensures
        r == (a@ == b@),
{
    if a.len() != b.len() {
        return false;
    }
    let mut i: usize = 0;
    while i < a.len()
        invariant
            i <= a.len() == b.len(),
            forall|j: int| 0 <= j < i ==> a@[j] == b@[j],
        decreases a.len() - i,
    {
        if a[i] != b[i] {
            return false;
        }
        i = i + 1;
    }
    assert(a@ =~= b@);
    true
}

/// Whether a list holds a path, byte for byte.
pub fn holds_path(list: &Vec<HostPath>, path: &HostPath) -> (r: bool)
    ensures
        r == path_views(list@).contains(path@),
{
    let ghost all = path_views(list@);
    let mut i: usize = 0;
    while i < list.len()
        invariant
            i <= list.len(),
            all == path_views(list@),
            forall|j: int| 0 <= j < i ==> all[j] != path@,
        decreases list.len() - i,
    {
        assert(all[i as int] == list@[i as int]@);
        if same_bytes(&list[i].bytes, &path.bytes) {
            return true;
        }
        i = i + 1;
    }
    false
}

/// Which scalar value a slash is.
proof fn lemma_slash(c: char)
    ensures
        c as u32 == 0x2f <==> c == '/',
{
}

/// A text is an absolute path exactly where it starts with a slash.
pub proof fn lemma_text_absolute(text: Seq<char>)
    requires
        text.len() > 0,
    ensures
        encode_utf8(text).len() > 0,
        absolute(encode_utf8(text)) <==> text[0] == '/',
{
    char_is_scalar(text[0]);
    let c = text[0] as u32;
    assert(encode_utf8(text) == encode_scalar(c) + encode_utf8(text.drop_first()));
    assert(encode_utf8(text)[0] == encode_scalar(c)[0]);
    if c <= 0x7f {
        assert((c & 0x7f) as u8 == c) by (bit_vector)
            requires
                c <= 0x7f,
        ;
        assert(encode_scalar(c)[0] == c);
    } else if c <= 0x7ff {
        assert((0xc0u8 | ((c >> 6) & 0x1f) as u8) >= 0xc0) by (bit_vector);
        assert(encode_scalar(c)[0] >= 0xc0);
    } else if c <= 0xffff {
        assert((0xe0u8 | ((c >> 12) & 0x0f) as u8) >= 0xc0) by (bit_vector);
        assert(encode_scalar(c)[0] >= 0xc0);
    } else {
        assert((0xf0u8 | ((c >> 18) & 0x7) as u8) >= 0xc0) by (bit_vector);
        assert(encode_scalar(c)[0] >= 0xc0);
    }
    lemma_slash(text[0]);
}

/// The last byte of a scalar value of two or more bytes is not that of a slash.
proof fn lemma_last_byte(c: char)
    ensures
        encode_scalar(c as u32).len() > 0,
        encode_scalar(c as u32).last() == SLASH <==> c == '/',
{
    char_is_scalar(c);
    let u = c as u32;
    if u <= 0x7f {
        assert((u & 0x7f) as u8 == u) by (bit_vector)
            requires
                u <= 0x7f,
        ;
        assert(encode_scalar(u).last() == u);
    } else {
        assert((0x80u8 | (u & 0x3f) as u8) >= 0x80) by (bit_vector);
        assert(encode_scalar(u).last() >= 0x80);
    }
    lemma_slash(c);
}

/// Two texts one after the other are encoded one after the other.
pub proof fn lemma_encode_concat(a: Seq<char>, b: Seq<char>)
    ensures
        encode_utf8(a + b) == encode_utf8(a) + encode_utf8(b),
    decreases a.len(),
{
    if a.len() == 0 {
        assert(a + b =~= b);
        assert(encode_utf8(a) + encode_utf8(b) =~= encode_utf8(b));
    } else {
        lemma_encode_concat(a.drop_first(), b);
        assert((a + b).drop_first() =~= a.drop_first() + b);
        assert((a + b)[0] == a[0]);
        assert(encode_utf8(a + b) =~= encode_utf8(a) + encode_utf8(b));
    }
}

/// A scalar value below 128 is encoded as itself.
pub proof fn lemma_encode_ascii(c: char)
    requires
        c as u32 <= 0x7f,
    ensures
        encode_utf8(seq![c]) == seq![c as u8],
{
    let u = c as u32;
    assert((u & 0x7f) as u8 == u) by (bit_vector)
        requires
            u <= 0x7f,
    ;
    assert(seq![c].drop_first() =~= Seq::empty());
    assert(encode_utf8(seq![c].drop_first()) =~= Seq::empty());
    assert(encode_scalar(u) =~= seq![c as u8]);
    assert(encode_utf8(seq![c]) =~= seq![c as u8]);
}

/// The bytes of a text end with a slash exactly where the text does.
pub proof fn lemma_text_ends_with_slash(text: Seq<char>)
    requires
        text.len() > 0,
    ensures
        encode_utf8(text).len() > 0,
        encode_utf8(text).last() == SLASH <==> text.last() == '/',
{
    let last = text.last();
    assert(text =~= text.drop_last() + seq![last]);
    lemma_encode_concat(text.drop_last(), seq![last]);
    assert(seq![last].drop_first() =~= Seq::empty());
    assert(encode_utf8(seq![last].drop_first()) =~= Seq::empty());
    assert(encode_utf8(seq![last]) =~= encode_scalar(last as u32));
    lemma_last_byte(last);
}

/// The segments of two paths with a separator between them.
pub proof fn lemma_pieces_concat<T>(a: Seq<T>, b: Seq<T>, x: T)
    ensures
        pieces(a, x).len() > 0,
        pieces(a + seq![x] + b, x) == pieces(a, x) + pieces(b, x),
    decreases a.len(),
{
    let whole = a + seq![x] + b;
    lemma_position(a, x);
    let i = position(a, x);
    lemma_position_is(whole, x, i);
    if i < a.len() {
        let rest = a.skip(i + 1);
        lemma_pieces_concat(rest, b, x);
        assert(whole.take(i) =~= a.take(i));
        assert(whole.skip(i + 1) =~= rest + seq![x] + b);
        assert(pieces(whole, x) =~= pieces(a, x) + pieces(b, x));
    } else {
        assert(whole.take(i) =~= a);
        assert(whole.skip(i + 1) =~= b);
        assert(pieces(whole, x) =~= pieces(a, x) + pieces(b, x));
    }
}

/// The components of two lists of segments, one after the other.
pub proof fn lemma_named_concat(a: Seq<Seq<u8>>, b: Seq<Seq<u8>>)
    ensures
        named(a + b) == named(a) + named(b),
    decreases b.len(),
{
    if b.len() == 0 {
        assert(a + b =~= a);
        assert(named(a) + named(b) =~= named(a));
    } else {
        lemma_named_concat(a, b.drop_last());
        assert((a + b).drop_last() =~= a + b.drop_last());
        assert((a + b).last() == b.last());
        assert(named(a + b) =~= named(a) + named(b));
    }
}

/// What two relative paths with the same components lead to from a directory has the same components.
pub proof fn lemma_same_from(base: Seq<u8>, x: Seq<u8>, y: Seq<u8>)
    requires
        base.len() > 0,
        !absolute(x),
        !absolute(y),
        named(pieces(x, SLASH)) == named(pieces(y, SLASH)),
    ensures
        same_path(joined(base, x), joined(base, y)),
{
    let trunk = if base.last() == SLASH { base.drop_last() } else { base };
    let first = trunk + seq![SLASH] + x;
    let second = trunk + seq![SLASH] + y;
    assert(joined(base, x) =~= first);
    assert(joined(base, y) =~= second);
    lemma_pieces_concat(trunk, x, SLASH);
    lemma_pieces_concat(trunk, y, SLASH);
    lemma_named_concat(pieces(trunk, SLASH), pieces(x, SLASH));
    lemma_named_concat(pieces(trunk, SLASH), pieces(y, SLASH));
    assert(pieces(first, SLASH)[0] == pieces(trunk, SLASH)[0]);
    assert(pieces(second, SLASH)[0] == pieces(trunk, SLASH)[0]);
    assert(first[0] == second[0]);
}

/// The bytes of a scalar value other than a slash do not hold that of a slash.
proof fn lemma_scalar_without_slash(c: char)
    requires
        c != '/',
    ensures
        !encode_scalar(c as u32).contains(SLASH),
{
    char_is_scalar(c);
    let u = c as u32;
    let bytes = encode_scalar(u);
    lemma_slash(c);
    if u <= 0x7f {
        assert((u & 0x7f) as u8 == u) by (bit_vector)
            requires
                u <= 0x7f,
        ;
    } else {
        assert((0x80u8 | (u & 0x3f) as u8) >= 0x80) by (bit_vector);
        assert((0x80u8 | ((u >> 6) & 0x3f) as u8) >= 0x80) by (bit_vector);
        assert((0x80u8 | ((u >> 12) & 0x3f) as u8) >= 0x80) by (bit_vector);
        assert((0xc0u8 | ((u >> 6) & 0x1f) as u8) >= 0x80) by (bit_vector);
        assert((0xe0u8 | ((u >> 12) & 0x0f) as u8) >= 0x80) by (bit_vector);
        assert((0xf0u8 | ((u >> 18) & 0x7) as u8) >= 0x80) by (bit_vector);
        assert forall|i: int| 0 <= i < bytes.len() implies #[trigger] bytes[i] >= 0x80 by {}
    }
}

/// The bytes of a text without a slash do not hold that of a slash.
proof fn lemma_text_without_slash(text: Seq<char>)
    requires
        !text.contains('/'),
    ensures
        !encode_utf8(text).contains(SLASH),
    decreases text.len(),
{
    if text.len() > 0 {
        let rest = text.drop_first();
        assert(text.contains(text[0]));
        assert forall|i: int| 0 <= i < rest.len() implies rest[i] != '/' by {
            assert(rest[i] == text[i + 1]);
        }
        lemma_text_without_slash(rest);
        lemma_scalar_without_slash(text[0]);
        let head = encode_scalar(text[0] as u32);
        let all = encode_utf8(text);
        assert(all == head + encode_utf8(rest));
        assert forall|i: int| 0 <= i < all.len() implies all[i] != SLASH by {
            if i < head.len() {
                assert(head.contains(head[i]));
            } else {
                assert(encode_utf8(rest).contains(encode_utf8(rest)[i - head.len()]));
            }
        }
    }
}

/// What is put under a name is found under that name.
pub proof fn lemma_name_of_path(base: Seq<u8>, name: Seq<char>)
    requires
        name.len() > 0,
        !name.contains('/'),
        name != seq!['.'],
        name != seq!['.', '.'],
    ensures
        name_text(within(base, name)) == Some(name),
{
    let bytes = encode_utf8(name);
    let path = within(base, name);
    lemma_text_without_slash(name);
    lemma_text_absolute(name);
    assert(name.contains(name[0]));
    lemma_position(bytes, SLASH);
    lemma_position_is(bytes, SLASH, bytes.len() as int);
    assert(pieces(bytes, SLASH) =~= seq![bytes]);
    lemma_encode_ascii('.');
    lemma_encode_concat(seq!['.'], seq!['.']);
    assert(seq!['.'] + seq!['.'] =~= seq!['.', '.']);
    assert(seq![DOT] + seq![DOT] =~= seq![DOT, DOT]);
    encode_utf8_decode_utf8(name);
    encode_utf8_valid_utf8(name);
    encode_utf8_decode_utf8(seq!['.']);
    encode_utf8_decode_utf8(seq!['.', '.']);
    assert(bytes != seq![DOT] && bytes != seq![DOT, DOT]);
    assert(seq![bytes].drop_last() =~= Seq::empty());
    assert(named(seq![bytes].drop_last()) =~= Seq::empty());
    assert(named(seq![bytes]) =~= seq![ComponentView::Normal(bytes)]);
    if base.len() == 0 {
        assert(path =~= bytes);
        assert(components(path).last() == ComponentView::Normal(bytes));
    } else {
        let trunk = if base.last() == SLASH { base.drop_last() } else { base };
        assert(path =~= trunk + seq![SLASH] + bytes);
        lemma_pieces_concat(trunk, bytes, SLASH);
        lemma_named_concat(pieces(trunk, SLASH), seq![bytes]);
        assert(components(path).last() == ComponentView::Normal(bytes));
    }
}

/// The segments of a text, encoded, are those of the encoded text.
proof fn lemma_encoded_pieces(text: Seq<char>)
    ensures
        pieces(encode_utf8(text), SLASH) == pieces(text, '/').map_values(|t: Seq<char>| encode_utf8(t)),
    decreases text.len(),
{
    let encoded = |t: Seq<char>| encode_utf8(t);
    lemma_position(text, '/');
    let i = position(text, '/');
    let first = text.take(i);
    assert forall|k: int| 0 <= k < first.len() implies first[k] != '/' by {
        assert(first[k] == text[k]);
    }
    lemma_text_without_slash(first);
    let head = encode_utf8(first);
    lemma_position(head, SLASH);
    lemma_position_is(head, SLASH, head.len() as int);
    assert(pieces(head, SLASH) =~= seq![head]);
    if i < text.len() {
        let rest = text.skip(i + 1);
        lemma_encoded_pieces(rest);
        assert(text =~= first + (seq!['/'] + rest));
        lemma_encode_concat(first, seq!['/'] + rest);
        lemma_encode_concat(seq!['/'], rest);
        lemma_encode_ascii('/');
        assert(encode_utf8(text) =~= head + seq![SLASH] + encode_utf8(rest));
        lemma_pieces_concat(head, encode_utf8(rest), SLASH);
        assert(pieces(text, '/').map_values(encoded) =~= seq![head] + pieces(rest, '/').map_values(encoded));
    } else {
        assert(first =~= text);
        assert(pieces(text, '/').map_values(encoded) =~= seq![head]);
    }
}

/// A path leads up where one of its segments does.
proof fn lemma_parent_segment(segments: Seq<Seq<u8>>)
    ensures
        named(segments).contains(ComponentView::Parent) ==> segments.contains(seq![DOT, DOT]),
    decreases segments.len(),
{
    if segments.len() > 0 && named(segments).contains(ComponentView::Parent) {
        let front = segments.drop_last();
        lemma_parent_segment(front);
        let before = named(front);
        let all = named(segments);
        let k = choose|k: int| 0 <= k < all.len() && all[k] == ComponentView::Parent;
        if k < before.len() {
            assert(before[k] == all[k]);
            assert(before.contains(ComponentView::Parent));
            let m = choose|m: int| 0 <= m < front.len() && front[m] == seq![DOT, DOT];
            assert(segments[m] == front[m]);
        } else {
            assert(segments[segments.len() - 1] == segments.last());
        }
    }
}

/// A text that stays below is such a path.
pub proof fn lemma_stays_below(text: Seq<char>)
    requires
        stays_below(text),
    ensures
        !absolute(encode_utf8(text)),
        !leads_up(encode_utf8(text)),
{
    lemma_text_absolute(text);
    lemma_encoded_pieces(text);
    let segments = pieces(encode_utf8(text), SLASH);
    lemma_parent_segment(segments);
    if segments.contains(seq![DOT, DOT]) {
        let k = choose|k: int| 0 <= k < segments.len() && segments[k] == seq![DOT, DOT];
        let t = pieces(text, '/')[k];
        assert(encode_utf8(t) == seq![DOT, DOT]);
        lemma_encode_ascii('.');
        lemma_encode_concat(seq!['.'], seq!['.']);
        assert(seq!['.'] + seq!['.'] =~= seq!['.', '.']);
        assert(seq![DOT] + seq![DOT] =~= seq![DOT, DOT]);
        encode_utf8_decode_utf8(t);
        encode_utf8_decode_utf8(seq!['.', '.']);
        reveal_strlit("..");
        assert(t =~= ".."@);
        assert(pieces(text, '/').contains(".."@));
    }
}

/// Of two relative paths that do not lead up, one after the other does not lead up.
pub proof fn lemma_joined_stays_below(way: Seq<u8>, rel: Seq<u8>)
    requires
        !absolute(way) && !leads_up(way),
        !absolute(rel) && !leads_up(rel),
    ensures
        !absolute(joined(way, rel)) && !leads_up(joined(way, rel)),
{
    let whole = joined(way, rel);
    if way.len() == 0 {
        assert(whole =~= rel);
    } else {
        let ends = way.last() == SLASH;
        let trunk = if ends { way.drop_last() } else { way };
        assert(whole =~= trunk + seq![SLASH] + rel);
        lemma_pieces_concat(trunk, rel, SLASH);
        lemma_named_concat(pieces(trunk, SLASH), pieces(rel, SLASH));
        let nothing = Seq::<u8>::empty();
        if ends {
            assert(way =~= trunk + seq![SLASH] + nothing);
            lemma_pieces_concat(trunk, nothing, SLASH);
            lemma_position_is(nothing, SLASH, 0);
            assert(pieces(nothing, SLASH) =~= seq![nothing]);
            assert(pieces(way, SLASH).drop_last() =~= pieces(trunk, SLASH));
        }
        if leads_up(whole) {
            let all = named(pieces(whole, SLASH));
            let a = named(pieces(trunk, SLASH));
            let b = named(pieces(rel, SLASH));
            let k = choose|k: int| 0 <= k < all.len() && all[k] == ComponentView::Parent;
            if k < a.len() {
                assert(a[k] == ComponentView::Parent);
            } else {
                assert(b[k - a.len()] == ComponentView::Parent);
            }
        }
    }
}

/// A path from a path inside stays inside.
pub proof fn lemma_further_inside(root: Seq<u8>, p: Seq<u8>, rel: Seq<u8>)
    requires
        inside(root, p),
        !absolute(rel) && !leads_up(rel),
    ensures
        inside(root, joined(p, rel)),
{
    let way = choose|way: Seq<u8>| p == #[trigger] joined(root, way) && !absolute(way) && !leads_up(way);
    lemma_joined_stays_below(way, rel);
    assert(joined(p, rel) =~= joined(root, joined(way, rel)));
}

/// What a text that stays below names from a directory is inside it.
pub proof fn lemma_text_inside(root: Seq<u8>, text: Seq<char>)
    requires
        stays_below(text),
    ensures
        inside(root, within(root, text)),
{
    lemma_stays_below(text);
}

/// Whatever the environment says, the tools directory is relative and does not lead up.
pub proof fn law_tools_dir_is_relative(raw: Option<Seq<char>>)
    ensures
        stays_below(tools_dir(raw)),
{
    reveal_strlit(".tortia-tools");
    reveal_strlit("..");
    let d = DEFAULT_TOOLS_DIR@;
    assert(pieces(d, '/') =~= seq![d]) by {
        lemma_position_is(d, '/', d.len() as int);
    }
}

/// The names on the way to the package manager wrappers do not lead up.
proof fn lemma_wrapper_names()
    ensures
        stays_below("pm"@),
        stays_below("bin"@),
{
    reveal_strlit("pm");
    reveal_strlit("bin");
    reveal_strlit("..");
    lemma_position_is("pm"@, '/', 2);
    lemma_position_is("bin"@, '/', 3);
    assert(pieces("pm"@, '/') =~= seq!["pm"@]);
    assert(pieces("bin"@, '/') =~= seq!["bin"@]);
}

/// Whatever the environment says, the tools directory of a payload and its package manager wrappers
/// lie in the payload.
pub proof fn law_tools_stay_in_the_payload(root: Seq<u8>, raw: Option<Seq<char>>)
    ensures
        inside(root, within(root, tools_dir(raw))),
        inside(root, joined(root, pm_bin(tools_dir(raw)))),
{
    let tools = tools_dir(raw);
    law_tools_dir_is_relative(raw);
    lemma_wrapper_names();
    lemma_text_inside(root, tools);
    lemma_stays_below(tools);
    lemma_stays_below("pm"@);
    lemma_stays_below("bin"@);
    lemma_joined_stays_below(encode_utf8(tools), encode_utf8("pm"@));
    lemma_joined_stays_below(within(encode_utf8(tools), "pm"@), encode_utf8("bin"@));
}

/// A relative path is taken from its base with one slash between them, and an absolute one stands for
/// itself.
pub proof fn law_paths_are_joined_with_one_slash(base: Seq<u8>, rel: Seq<u8>)
    ensures
        rel.len() > 0 && rel[0] == 0x2f ==> joined(base, rel) == rel,
        !(rel.len() > 0 && rel[0] == 0x2f) ==> {
            &&& base.len() == 0 || base.last() == 0x2f ==> joined(base, rel) == base + rel
            &&& base.len() > 0 && base.last() != 0x2f ==> joined(base, rel) == base + seq![0x2fu8] + rel
        },
{
    assert(base.push(SLASH) + rel =~= base + seq![0x2fu8] + rel);
}

/// The tools directory is what the environment names, without the white space round it, if and only if
/// that is a relative path that does not lead up; else it is `.tortia-tools`.
pub proof fn law_tools_dir_is_what_is_named(value: Seq<char>)
    ensures
        tools_dir(None) == ".tortia-tools"@,
        ({
            let named = trimmed(value);
            let accepted = named.len() > 0 && named[0] != '/' && forall|i: int|
                0 <= i < pieces(named, '/').len() ==> #[trigger] pieces(named, '/')[i] != ".."@;
            &&& accepted ==> tools_dir(Some(value)) == named
            &&& !accepted ==> tools_dir(Some(value)) == ".tortia-tools"@
        }),
{
    let named = trimmed(value);
    if pieces(named, '/').contains(".."@) {
        let k = choose|k: int| 0 <= k < pieces(named, '/').len() && pieces(named, '/')[k] == ".."@;
        assert(pieces(named, '/')[k] == ".."@);
    }
}

/// The cache is where `TORTIA_CACHE_DIR` says unless that is blank; else in the user's directory for
/// caches: below `LOCALAPPDATA` on Windows, elsewhere below `XDG_CACHE_HOME` or else `HOME`; and below
/// the directory for temporary files where none of these is set.
pub proof fn law_cache_is_where_the_environment_says(env: CacheEnv)
    ensures
        ({
            let named = env.cache_dir is Some && trimmed(shown(env.cache_dir->0@)).len() > 0;
            let temp = within(env.temp_dir@, "tortia-cache"@);
            &&& named ==> env.root() == encode_utf8(trimmed(shown(env.cache_dir->0@)))
            &&& !named && env.windows ==> env.root() == match env.local_app_data {
                Some(local) => within(within(local@, "tortia"@), "cache"@),
                None => temp,
            }
            &&& !named && !env.windows ==> env.root() == match (env.xdg_cache_home, env.home) {
                (Some(xdg), _) => within(xdg@, "tortia"@),
                (None, Some(home)) => within(within(home@, ".cache"@), "tortia"@),
                (None, None) => temp,
            }
        }),
{
}

/// What is put under a name in a directory has that name, unless the name is `.` or `..`.
pub proof fn law_paths_have_the_name_they_are_put_under(base: Seq<u8>, name: Seq<char>)
    requires
        name.len() > 0,
        !name.contains('/'),
        name != seq!['.'],
        name != seq!['.', '.'],
    ensures
        name_text(within(base, name)) == Some(name),
{
    lemma_name_of_path(base, name);
}

/// The temporary directories of different processes or moments have different names.
pub proof fn law_temp_names_differ(prefix: Seq<char>, a: nat, b: nat, c: nat, d: nat)
    requires
        temp_name(prefix, a, b) == temp_name(prefix, c, d),
    ensures
        a == c,
        b == d,
{
    reveal_strlit("-");
    let dash = seq!['-'];
    assert("-"@ =~= dash);
    let left = decimal(a) + dash + decimal(b);
    let right = decimal(c) + dash + decimal(d);
    let n = prefix.len() as int + 1;
    assert(temp_name(prefix, a, b).skip(n) =~= left);
    assert(temp_name(prefix, c, d).skip(n) =~= right);
    law_decimals_read_back(a);
    law_decimals_read_back(b);
    law_decimals_read_back(c);
    law_decimals_read_back(d);
    lemma_first_dash(decimal(a), decimal(b));
    lemma_first_dash(decimal(c), decimal(d));
    assert(left.take(decimal(a).len() as int) =~= decimal(a));
    assert(right.take(decimal(c).len() as int) =~= decimal(c));
    assert(left.skip(decimal(a).len() as int + 1) =~= decimal(b));
    assert(right.skip(decimal(c).len() as int + 1) =~= decimal(d));
}

/// The first dash stands behind the digits.
proof fn lemma_first_dash(digits: Seq<char>, rest: Seq<char>)
    requires
        forall|i: int| 0 <= i < digits.len() ==> 0x30 <= (#[trigger] digits[i]) as u32 <= 0x39,
    ensures
        position(digits + seq!['-'] + rest, '-') == digits.len(),
{
    let all = digits + seq!['-'] + rest;
    assert forall|i: int| 0 <= i < digits.len() implies all[i] != '-' by {
        assert(all[i] == digits[i]);
    }
    lemma_position_is(all, '-', digits.len() as int);
}

/// Bytes are ordered by the first in which they differ, and a beginning comes before the whole.
pub proof fn law_bytes_are_ordered_by_the_first_difference(a: Seq<u8>, b: Seq<u8>)
    ensures
        bytes_before(a, b) <==> (a.len() < b.len() && a.is_prefix_of(b)) || exists|k: int|
            0 <= k < a.len() && k < b.len() && #[trigger] a[k] < b[k] && a.take(k) == b.take(k),
    decreases a.len(),
{
    if a.len() > 0 && b.len() > 0 {
        let x = a.skip(1);
        let y = b.skip(1);
        law_bytes_are_ordered_by_the_first_difference(x, y);
        if a[0] == b[0] {
            if x.is_prefix_of(y) {
                assert(a =~= b.subrange(0, a.len() as int)) by {
                    assert forall|i: int| 0 <= i < a.len() implies a[i] == b[i] by {
                        if i > 0 {
                            assert(x[i - 1] == y[i - 1]);
                        }
                    }
                }
            }
            if a.is_prefix_of(b) {
                assert forall|i: int| 0 <= i < x.len() implies x[i] == y[i] by {
                    assert(a[i + 1] == b[i + 1]);
                }
                assert(x =~= y.subrange(0, x.len() as int));
            }
            if exists|k: int| 0 <= k < x.len() && k < y.len() && #[trigger] x[k] < y[k] && x.take(k) == y.take(k) {
                let k = choose|k: int|
                    0 <= k < x.len() && k < y.len() && #[trigger] x[k] < y[k] && x.take(k) == y.take(k);
                assert(a[k + 1] < b[k + 1]);
                assert(a.take(k + 1) =~= b.take(k + 1)) by {
                    assert forall|i: int| 0 <= i < k + 1 implies a[i] == b[i] by {
                        if i > 0 {
                            assert(x.take(k)[i - 1] == y.take(k)[i - 1]);
                        }
                    }
                }
            }
            if exists|k: int| 0 <= k < a.len() && k < b.len() && #[trigger] a[k] < b[k] && a.take(k) == b.take(k) {
                let k = choose|k: int|
                    0 <= k < a.len() && k < b.len() && #[trigger] a[k] < b[k] && a.take(k) == b.take(k);
                assert(k > 0);
                assert(x[k - 1] < y[k - 1]);
                assert(x.take(k - 1) =~= y.take(k - 1)) by {
                    assert forall|i: int| 0 <= i < k - 1 implies x[i] == y[i] by {
                        assert(a.take(k)[i + 1] == b.take(k)[i + 1]);
                    }
                }
            }
        } else {
            if a[0] < b[0] {
                assert(a.take(0) =~= b.take(0));
            } else {
                assert(!a.is_prefix_of(b)) by {
                    if a.is_prefix_of(b) {
                        assert(b.subrange(0, a.len() as int)[0] == b[0]);
                    }
                }
                if exists|k: int| 0 <= k < a.len() && k < b.len() && #[trigger] a[k] < b[k] && a.take(k) == b.take(k) {
                    let k = choose|k: int|
                        0 <= k < a.len() && k < b.len() && #[trigger] a[k] < b[k] && a.take(k) == b.take(k);
                    if k > 0 {
                        assert(a.take(k)[0] == b.take(k)[0]);
                    }
                }
            }
        }
    } else if a.len() == 0 && b.len() > 0 {
        assert(a =~= b.subrange(0, 0));
    }
}

/// A path is its segments: empty ones and `.` mean nothing but for a `.` at its very beginning, `..` leads
/// up, every other one is a name, and a slash at the beginning is the root.
pub proof fn law_paths_are_their_segments(p: Seq<u8>)
    ensures
        ({
            let segments = pieces(p, 0x2fu8).filter(|s: Seq<u8>| s.len() > 0 && s != seq![0x2eu8]);
            let begins = if p.len() > 0 && p[0] == 0x2f {
                seq![ComponentView::Root]
            } else if pieces(p, 0x2fu8)[0] == seq![0x2eu8] {
                seq![ComponentView::Current]
            } else {
                Seq::empty()
            };
            components(p) == begins + segments.map_values(
                |s: Seq<u8>| if s == seq![0x2eu8, 0x2eu8] { ComponentView::Parent } else { ComponentView::Normal(s) },
            )
        }),
{
    lemma_named_is_filtered(pieces(p, SLASH));
}

/// The components of segments.
proof fn lemma_named_is_filtered(segments: Seq<Seq<u8>>)
    ensures
        named(segments) == segments.filter(|s: Seq<u8>| s.len() > 0 && s != seq![0x2eu8]).map_values(
            |s: Seq<u8>| if s == seq![0x2eu8, 0x2eu8] { ComponentView::Parent } else { ComponentView::Normal(s) },
        ),
    decreases segments.len(),
{
    reveal(Seq::filter);
    if segments.len() > 0 {
        lemma_named_is_filtered(segments.drop_last());
    }
    assert(named(segments) =~= segments.filter(|s: Seq<u8>| s.len() > 0 && s != seq![0x2eu8]).map_values(
        |s: Seq<u8>| if s == seq![0x2eu8, 0x2eu8] { ComponentView::Parent } else { ComponentView::Normal(s) },
    ));
}

/// Paths are ordered by the first component in which they differ, and a beginning comes before the whole;
/// the root comes first, then `.`, then `..`, then names by their bytes.
pub proof fn law_paths_are_ordered_by_the_first_difference(a: Seq<ComponentView>, b: Seq<ComponentView>)
    ensures
        components_before(a, b) <==> (a.len() < b.len() && a.is_prefix_of(b)) || exists|k: int|
            0 <= k < a.len() && k < b.len() && component_first(#[trigger] a[k], b[k]) && a.take(k) == b.take(k),
    decreases a.len(),
{
    if a.len() > 0 && b.len() > 0 {
        let x = a.skip(1);
        let y = b.skip(1);
        law_paths_are_ordered_by_the_first_difference(x, y);
        lemma_component_irreflexive(a[0]);
        assert(component_before(a[0], b[0]) == component_first(a[0], b[0]));
        if a[0] == b[0] {
            if x.is_prefix_of(y) {
                assert(a =~= b.subrange(0, a.len() as int)) by {
                    assert forall|i: int| 0 <= i < a.len() implies a[i] == b[i] by {
                        if i > 0 {
                            assert(x[i - 1] == y[i - 1]);
                        }
                    }
                }
            }
            if a.is_prefix_of(b) {
                assert forall|i: int| 0 <= i < x.len() implies x[i] == y[i] by {
                    assert(a[i + 1] == b[i + 1]);
                }
                assert(x =~= y.subrange(0, x.len() as int));
            }
            if exists|k: int|
                0 <= k < x.len() && k < y.len() && component_first(#[trigger] x[k], y[k]) && x.take(k) == y.take(k) {
                let k = choose|k: int|
                    0 <= k < x.len() && k < y.len() && component_first(#[trigger] x[k], y[k]) && x.take(k) == y.take(
                        k,
                    );
                assert(component_first(a[k + 1], b[k + 1]));
                assert(a.take(k + 1) =~= b.take(k + 1)) by {
                    assert forall|i: int| 0 <= i < k + 1 implies a[i] == b[i] by {
                        if i > 0 {
                            assert(x.take(k)[i - 1] == y.take(k)[i - 1]);
                        }
                    }
                }
            }
            if exists|k: int|
                0 <= k < a.len() && k < b.len() && component_first(#[trigger] a[k], b[k]) && a.take(k) == b.take(k) {
                let k = choose|k: int|
                    0 <= k < a.len() && k < b.len() && component_first(#[trigger] a[k], b[k]) && a.take(k) == b.take(
                        k,
                    );
                assert(k > 0);
                assert(component_first(x[k - 1], y[k - 1]));
                assert(x.take(k - 1) =~= y.take(k - 1)) by {
                    assert forall|i: int| 0 <= i < k - 1 implies x[i] == y[i] by {
                        assert(a.take(k)[i + 1] == b.take(k)[i + 1]);
                    }
                }
            }
        } else {
            if component_first(a[0], b[0]) {
                assert(a.take(0) =~= b.take(0));
            } else {
                assert(!a.is_prefix_of(b)) by {
                    if a.is_prefix_of(b) {
                        assert(b.subrange(0, a.len() as int)[0] == b[0]);
                    }
                }
                if exists|k: int|
                    0 <= k < a.len() && k < b.len() && component_first(#[trigger] a[k], b[k]) && a.take(k) == b.take(
                        k,
                    ) {
                    let k = choose|k: int|
                        0 <= k < a.len() && k < b.len() && component_first(#[trigger] a[k], b[k]) && a.take(k)
                            == b.take(k);
                    if k > 0 {
                        assert(a.take(k)[0] == b.take(k)[0]);
                    }
                }
            }
        }
    } else if a.len() == 0 && b.len() > 0 {
        assert(a =~= b.subrange(0, 0));
    }
}

/// Whether a component comes before another.
pub open spec fn component_first(a: ComponentView, b: ComponentView) -> bool {
    match a {
        ComponentView::Root => !(b is Root),
        ComponentView::Current => b is Parent || b is Normal,
        ComponentView::Parent => b is Normal,
        ComponentView::Normal(x) => b is Normal && bytes_before(x, b->Normal_0),
    }
}

} // verus!
