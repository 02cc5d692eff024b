//! Runtimes that a recipe asks for.
use vstd::prelude::*;
use vstd::string::*;
use crate::recipe::{items_of, listed_texts, RuntimesConfig};
use crate::text::{
    eq_ignore_ascii_case, lemma_error_stays, lemma_position, lemma_position_is, lowered, optional_text, same,
    split_once, split_pair, texts, trim, trim_start_matches, trimmed, without_leading,
};

verus! {

/// The version of Node where a recipe names none.
pub const DEFAULT_NODE: &'static str = "22.14.0";

/// The toolchain of Rust where a recipe names none.
pub const DEFAULT_RUST: &'static str = "stable";

/// The version of Go where a recipe names none.
pub const DEFAULT_GO: &'static str = "1.22.12";

/// A runtime that a recipe asks for. A version that is not given means the latest one.
#[allow(inconsistent_fields)]
#[derive(Debug)]
pub enum RuntimeSpec {
    Node { version: String },
    Rust { toolchain: String },
    Python { version: Option<String> },
    Go { version: String },
    Deno { version: Option<String> },
    Bun { version: Option<String> },
}

/// A runtime that a recipe asks for.
#[allow(inconsistent_fields)]
pub enum RuntimeView {
    Node { version: Seq<char> },
    Rust { toolchain: Seq<char> },
    Python { version: Option<Seq<char>> },
    Go { version: Seq<char> },
    Deno { version: Option<Seq<char>> },
    Bun { version: Option<Seq<char>> },
}

impl View for RuntimeSpec {
    type V = RuntimeView;

    open spec fn view(&self) -> RuntimeView {
        match *self {
            RuntimeSpec::Node { version } => RuntimeView::Node { version: version@ },
            RuntimeSpec::Rust { toolchain } => RuntimeView::Rust { toolchain: toolchain@ },
            RuntimeSpec::Python { version } => RuntimeView::Python { version: optional_text(version) },
            RuntimeSpec::Go { version } => RuntimeView::Go { version: version@ },
            RuntimeSpec::Deno { version } => RuntimeView::Deno { version: optional_text(version) },
            RuntimeSpec::Bun { version } => RuntimeView::Bun { version: optional_text(version) },
        }
    }
}

/// The kinds of runtimes.
#[derive(Debug, Clone, Copy, PartialEq, Eq, Structural)]
pub enum RuntimeFamily {
    Node,
    Rust,
    Python,
    Go,
    Deno,
    Bun,
}

/// The runtimes that a list holds.
pub open spec fn runtime_views(list: Seq<RuntimeSpec>) -> Seq<RuntimeView> {
    list.map_values(|r: RuntimeSpec| r@)
}

impl RuntimeView {
    /// The kind of the runtime.
    pub open spec fn family(self) -> RuntimeFamily {
        match self {
            RuntimeView::Node { .. } => RuntimeFamily::Node,
            RuntimeView::Rust { .. } => RuntimeFamily::Rust,
            RuntimeView::Python { .. } => RuntimeFamily::Python,
            RuntimeView::Go { .. } => RuntimeFamily::Go,
            RuntimeView::Deno { .. } => RuntimeFamily::Deno,
            RuntimeView::Bun { .. } => RuntimeFamily::Bun,
        }
    }
}

impl RuntimeSpec {
    /// The kind of the runtime.
    pub fn family(&self) -> (r: RuntimeFamily)
        ensures
            r == self@.family(),
    {
        match self {
            RuntimeSpec::Node { .. } => RuntimeFamily::Node,
            RuntimeSpec::Rust { .. } => RuntimeFamily::Rust,
            RuntimeSpec::Python { .. } => RuntimeFamily::Python,
            RuntimeSpec::Go { .. } => RuntimeFamily::Go,
            RuntimeSpec::Deno { .. } => RuntimeFamily::Deno,
            RuntimeSpec::Bun { .. } => RuntimeFamily::Bun,
        }
    }
}

/// The name of a kind of runtimes.
pub open spec fn family_name(family: RuntimeFamily) -> Seq<char> {
    match family {
        RuntimeFamily::Node => "node"@,
        RuntimeFamily::Rust => "rust"@,
        RuntimeFamily::Python => "python"@,
        RuntimeFamily::Go => "go"@,
        RuntimeFamily::Deno => "deno"@,
        RuntimeFamily::Bun => "bun"@,
    }
}

/// The name of a kind of runtimes.
pub fn runtime_family_name(family: RuntimeFamily) -> (r: &'static str)
    ensures
        r@ == family_name(family),
{
    match family {
        RuntimeFamily::Node => "node",
        RuntimeFamily::Rust => "rust",
        RuntimeFamily::Python => "python",
        RuntimeFamily::Go => "go",
        RuntimeFamily::Deno => "deno",
        RuntimeFamily::Bun => "bun",
    }
}

/// The name and the version that an item `<name>@<version>` stands for, both trimmed; the version
/// is empty where the item has none.
pub open spec fn name_and_version(item: Seq<char>) -> (Seq<char>, Seq<char>) {
    let whole = trimmed(item);
    match split_pair(whole, '@') {
        Some((left, right)) => (trimmed(left), trimmed(right)),
        None => (whole, Seq::empty()),
    }
}

/// A version without the `v`s that it starts with, or `default` where there is none.
pub open spec fn version_or(version: Seq<char>, default: Seq<char>) -> Seq<char> {
    if version.len() == 0 {
        default
    } else {
        without_leading(version, 'v')
    }
}

/// Whether a version asks for the latest one.
pub open spec fn asks_for_latest(version: Seq<char>) -> bool {
    version.len() == 0 || lowered(version) == lowered("latest"@)
}

/// A version without the `v`s that it starts with, or none where it asks for the latest one.
pub open spec fn version_or_latest(version: Seq<char>) -> Option<Seq<char>> {
    if asks_for_latest(version) {
        None
    } else {
        Some(without_leading(version, 'v'))
    }
}

/// The runtime that a name and a version stand for.
pub open spec fn runtime_for(name: Seq<char>, version: Seq<char>) -> Option<RuntimeView> {
    if name == "node"@ {
        Some(RuntimeView::Node { version: version_or(version, DEFAULT_NODE@) })
    } else if name == "rust"@ {
        Some(RuntimeView::Rust { toolchain: if version.len() == 0 { DEFAULT_RUST@ } else { version } })
    } else if name == "python"@ || name == "py"@ {
        Some(RuntimeView::Python { version: if asks_for_latest(version) { None } else { Some(version) } })
    } else if name == "go"@ || name == "golang"@ {
        Some(RuntimeView::Go { version: version_or(version, DEFAULT_GO@) })
    } else if name == "deno"@ {
        Some(RuntimeView::Deno { version: version_or_latest(version) })
    } else if name == "bun"@ {
        Some(RuntimeView::Bun { version: version_or_latest(version) })
    } else {
        None
    }
}

/// The error for a runtime that is not known.
pub open spec fn unsupported_runtime(name: Seq<char>) -> Seq<char> {
    "unsupported runtime '"@ + name
        + "'. supported: node, rust, python, go, deno, bun (e.g. node@22.14.0, rust@stable, python@3.12, go@1.22.12, deno@2.2.5, bun@1.2.5)"@
}

/// The runtimes that a list of items asks for, in its order, blank items left out; or the error for
/// the first item that is not known.
pub open spec fn runtimes_of(items: Seq<Seq<char>>) -> Result<Seq<RuntimeView>, Seq<char>>
    decreases items.len(),
{
    if items.len() == 0 {
        Ok(Seq::empty())
    } else {
        match runtimes_of(items.drop_last()) {
            Err(e) => Err(e),
            Ok(before) => {
                let (name, version) = name_and_version(items.last());
                if trimmed(items.last()).len() == 0 {
                    Ok(before)
                } else {
                    match runtime_for(name, version) {
                        Some(runtime) => Ok(before.push(runtime)),
                        None => Err(unsupported_runtime(name)),
                    }
                }
            },
        }
    }
}

/// The items of `[runtimes]`.
pub open spec fn runtime_items(runtimes: Option<&RuntimesConfig>) -> Seq<Seq<char>> {
    match runtimes {
        Some(config) => listed_texts(config.items),
        None => Seq::empty(),
    }
}

/// A version without the `v`s that it starts with, or none where it asks for the latest one.
fn latest_or_version(version: &str) -> (r: Option<String>)
    ensures
        optional_text(r) == version_or_latest(version@),
{
    if version.unicode_len() == 0 || eq_ignore_ascii_case(version, "latest") {
        None
    } else {
        Some(trim_start_matches(version, 'v').to_string())
    }
}

/// A version without the `v`s that it starts with, or `default` where there is none.
fn version_or_default(version: &str, default: &str) -> (r: String)
    ensures
        r@ == version_or(version@, default@),
{
    if version.unicode_len() == 0 {
        default.to_string()
    } else {
        trim_start_matches(version, 'v').to_string()
    }
}

/// The runtime that a name and a version stand for.
fn parse_runtime(name: &str, version: &str) -> (r: Option<RuntimeSpec>)
    ensures
        match r {
            Some(runtime) => runtime_for(name@, version@) == Some(runtime@),
            None => runtime_for(name@, version@) is None,
        },
{
    if same(name, "node") {
        Some(RuntimeSpec::Node { version: version_or_default(version, DEFAULT_NODE) })
    } else if same(name, "rust") {
        let toolchain = if version.unicode_len() == 0 { DEFAULT_RUST } else { version };
        Some(RuntimeSpec::Rust { toolchain: toolchain.to_string() })
    } else if same(name, "python") || same(name, "py") {
        let resolved = if version.unicode_len() == 0 || eq_ignore_ascii_case(version, "latest") {
            None
        } else {
            Some(version.to_string())
        };
        Some(RuntimeSpec::Python { version: resolved })
    } else if same(name, "go") || same(name, "golang") {
        Some(RuntimeSpec::Go { version: version_or_default(version, DEFAULT_GO) })
    } else if same(name, "deno") {
        Some(RuntimeSpec::Deno { version: latest_or_version(version) })
    } else if same(name, "bun") {
        Some(RuntimeSpec::Bun { version: latest_or_version(version) })
    } else {
        None
    }
}

/// The runtimes that `[runtimes]` asks for.
pub fn parse_runtime_specs(runtimes: Option<&RuntimesConfig>) -> (r: Result<Vec<RuntimeSpec>, String>)
    ensures
        match r {
            Ok(list) => runtimes_of(runtime_items(runtimes)) == Ok::<Seq<RuntimeView>, Seq<char>>(
                runtime_views(list@),
            ),
            Err(e) => runtimes_of(runtime_items(runtimes)) == Err::<Seq<RuntimeView>, Seq<char>>(e@),
        },
{
    let items: Vec<String> = match runtimes {
        Some(config) => items_of(&config.items),
        None => Vec::new(),
    };
    let ghost all = texts(items@);
    assert(all =~= runtime_items(runtimes));
    let mut specs: Vec<RuntimeSpec> = Vec::new();
    let mut i: usize = 0;
    assert(all.take(0) =~= Seq::empty());
    assert(runtime_views(specs@) =~= Seq::empty());
    while i < items.len()
        invariant
            i <= items.len(),
            all == texts(items@),
            all == runtime_items(runtimes),
            runtimes_of(all.take(i as int)) == Ok::<Seq<RuntimeView>, Seq<char>>(runtime_views(specs@)),
        decreases items.len() - i,
    {
        let ghost before = runtime_views(specs@);
        let ghost upto = all.take(i + 1);
        assert(upto.drop_last() =~= all.take(i as int));
        let normalized = trim(items[i].as_str());
        assert(upto.last() == items@[i as int]@);
        if normalized.unicode_len() > 0 {
            let (name, version) = match split_once(normalized, '@') {
                Some((left, right)) => (trim(left), trim(right)),
                None => (normalized, ""),
            };
            proof {
                reveal_strlit("");
                assert(""@ =~= Seq::empty());
            }
            assert((name@, version@) == name_and_version(upto.last()));
            match parse_runtime(name, version) {
                Some(runtime) => {
                    specs.push(runtime);
                    assert(runtime_views(specs@) =~= before.push(runtime@));
                },
                None => {
                    let e = "unsupported runtime '".to_string().concat(name).concat(
                        "'. supported: node, rust, python, go, deno, bun (e.g. node@22.14.0, rust@stable, python@3.12, go@1.22.12, deno@2.2.5, bun@1.2.5)",
                    );
                    proof {
                        lemma_error_stays(|s: Seq<Seq<char>>| runtimes_of(s), all, i + 1);
                    }
                    return Err(e);
                },
            }
        }
        i = i + 1;
    }
    assert(all.take(i as int) =~= all);
    Ok(specs)
}

/// An item of `[runtimes]` is a name and, after the first `@`, a version, with white space round them.
pub proof fn law_items_are_split_at_the_first_at(item: Seq<char>, name: Seq<char>, version: Seq<char>)
    ensures
        !trimmed(item).contains('@') ==> name_and_version(item) == (trimmed(item), Seq::<char>::empty()),
        trimmed(item) == name + seq!['@'] + version && !name.contains('@') ==> name_and_version(item) == (
            trimmed(name),
            trimmed(version),
        ),
{
    let whole = trimmed(item);
    lemma_position(whole, '@');
    if whole == name + seq!['@'] + version && !name.contains('@') {
        lemma_position_is(whole, '@', name.len() as int);
        assert(whole.take(name.len() as int) =~= name);
        assert(whole.skip(name.len() as int + 1) =~= version);
    }
}

/// A name and a version mean the runtime of that name in that version. Node and Go are taken without
/// leading `v`s and have a version of their own where none is given, Rust has a toolchain of its own; for
/// Python, Deno and Bun no version and `latest` both mean that any will do, and Deno and Bun are taken
/// without leading `v`s. No other names mean a runtime.
pub proof fn law_runtimes_are_what_is_named(name: Seq<char>, version: Seq<char>)
    ensures
        name == "node"@ ==> runtime_for(name, version) == Some(
            RuntimeView::Node {
                version: if version.len() == 0 { "22.14.0"@ } else { without_leading(version, 'v') },
            },
        ),
        name == "rust"@ ==> runtime_for(name, version) == Some(
            RuntimeView::Rust { toolchain: if version.len() == 0 { "stable"@ } else { version } },
        ),
        name == "python"@ || name == "py"@ ==> runtime_for(name, version) == Some(
            RuntimeView::Python {
                version: if version.len() == 0 || lowered(version) == "latest"@ { None } else { Some(version) },
            },
        ),
        name == "go"@ || name == "golang"@ ==> runtime_for(name, version) == Some(
            RuntimeView::Go {
                version: if version.len() == 0 { "1.22.12"@ } else { without_leading(version, 'v') },
            },
        ),
        name == "deno"@ ==> runtime_for(name, version) == Some(
            RuntimeView::Deno {
                version: if version.len() == 0 || lowered(version) == "latest"@ {
                    None
                } else {
                    Some(without_leading(version, 'v'))
                },
            },
        ),
        name == "bun"@ ==> runtime_for(name, version) == Some(
            RuntimeView::Bun {
                version: if version.len() == 0 || lowered(version) == "latest"@ {
                    None
                } else {
                    Some(without_leading(version, 'v'))
                },
            },
        ),
        name != "node"@ && name != "rust"@ && name != "python"@ && name != "py"@ && name != "go"@ && name
            != "golang"@ && name != "deno"@ && name != "bun"@ ==> runtime_for(name, version) is None,
{
    reveal_strlit("node");
    reveal_strlit("rust");
    reveal_strlit("python");
    reveal_strlit("py");
    reveal_strlit("go");
    reveal_strlit("golang");
    reveal_strlit("deno");
    reveal_strlit("bun");
    reveal_strlit("latest");
    assert(lowered("latest"@) =~= "latest"@);
    assert("node"@[0] == 'n' && "rust"@[0] == 'r' && "python"@[0] == 'p' && "py"@[0] == 'p');
    assert("go"@[0] == 'g' && "golang"@[0] == 'g' && "deno"@[0] == 'd' && "bun"@[0] == 'b');
}

/// `[runtimes]` is read item by item: blank items are passed over, every other one gives one runtime, in
/// their order, and one that names no runtime is an error.
pub proof fn law_runtimes_are_read_item_by_item(items: Seq<Seq<char>>)
    ensures
        ({
            let named = items.filter(|item: Seq<char>| trimmed(item).len() > 0);
            &&& runtimes_of(items) is Ok <==> forall|i: int|
                0 <= i < named.len() ==> runtime_for(
                    name_and_version(#[trigger] named[i]).0,
                    name_and_version(named[i]).1,
                ) is Some
            &&& runtimes_of(items) matches Ok(list) ==> list.len() == named.len() && forall|i: int|
                0 <= i < named.len() ==> runtime_for(
                    name_and_version(#[trigger] named[i]).0,
                    name_and_version(named[i]).1,
                ) == Some(list[i])
        }),
    decreases items.len(),
{
    reveal(Seq::filter);
    let named = items.filter(|item: Seq<char>| trimmed(item).len() > 0);
    if items.len() > 0 {
        let front = items.drop_last();
        law_runtimes_are_read_item_by_item(front);
        let before = front.filter(|item: Seq<char>| trimmed(item).len() > 0);
        let last = items.last();
        if trimmed(last).len() > 0 {
            assert(named == before.push(last));
            assert forall|i: int| 0 <= i < before.len() implies #[trigger] named[i] == before[i] by {}
            assert(named[before.len() as int] == last);
            if runtimes_of(front) is Err {
                let k = choose|k: int|
                    0 <= k < before.len() && runtime_for(
                        name_and_version(#[trigger] before[k]).0,
                        name_and_version(before[k]).1,
                    ) is None;
                assert(named[k] == before[k]);
            }
        }
    }
}

/// A runtime is of the kind that it is made as.
pub proof fn law_runtimes_are_of_their_kind(runtime: RuntimeView)
    ensures
        runtime.family() == RuntimeFamily::Node <==> runtime is Node,
        runtime.family() == RuntimeFamily::Rust <==> runtime is Rust,
        runtime.family() == RuntimeFamily::Python <==> runtime is Python,
        runtime.family() == RuntimeFamily::Go <==> runtime is Go,
        runtime.family() == RuntimeFamily::Deno <==> runtime is Deno,
        runtime.family() == RuntimeFamily::Bun <==> runtime is Bun,
{
}

/// Of several items of `[runtimes]` that name none the first counts, and the error begins with its name.
pub proof fn law_first_unknown_runtime_counts(items: Seq<Seq<char>>)
    requires
        runtimes_of(items) is Err,
    ensures
        exists|k: int|
            0 <= k < items.len() && runtimes_of(items.take(k)) is Ok && begins(
                runtimes_of(items)->Err_0,
                "unsupported runtime '"@ + name_and_version(#[trigger] items[k]).0 + "'. supported: "@,
            ),
    decreases items.len(),
{
    let front = items.drop_last();
    if runtimes_of(front) is Err {
        law_first_unknown_runtime_counts(front);
        let k = choose|k: int|
            0 <= k < front.len() && runtimes_of(front.take(k)) is Ok && begins(
                runtimes_of(front)->Err_0,
                "unsupported runtime '"@ + name_and_version(#[trigger] front[k]).0 + "'. supported: "@,
            );
        assert(front.take(k) =~= items.take(k));
        assert(items[k] == front[k]);
    } else {
        let k = items.len() - 1;
        let name = name_and_version(items[k]).0;
        assert(items.take(k) =~= front);
        assert(items[k] == items.last());
        reveal_strlit("'. supported: ");
        reveal_strlit(
            "'. supported: node, rust, python, go, deno, bun (e.g. node@22.14.0, rust@stable, python@3.12, go@1.22.12, deno@2.2.5, bun@1.2.5)",
        );
        let start = "unsupported runtime '"@ + name + "'. supported: "@;
        assert(start =~= unsupported_runtime(name).take(start.len() as int));
    }
}

/// Whether a text begins with another.
pub open spec fn begins(text: Seq<char>, start: Seq<char>) -> bool {
    start.len() <= text.len() && start == text.take(start.len() as int)
}

} // verus!
