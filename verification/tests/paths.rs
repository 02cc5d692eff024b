use std::path::{Component, Path, PathBuf};
use tortia::paths::{
    cache_root, downloads_cache_dir, holds_path, pm_bin_in, pm_bin_relative, temp_dir_name, tools_dir_name, CacheEnv,
    HostPath, Order, PathComponent, BUILD_TEMP_PREFIX, CONFIG_FILE, DEFAULT_TOOLS_DIR, MANIFEST_FILE, RUN_TEMP_PREFIX,
};

const SAMPLES: [&str; 20] = [
    "", "/", ".", "..", "a", "a/", "a//b", "./a", "a/./b", "a/../b", "/a", "//a", "/./a", "a/b", "a-b", "a.b", ".a",
    "b", "/a/b", "é/x",
];

fn p(text: &str) -> HostPath {
    HostPath::from_text(text)
}

fn text(path: &HostPath) -> String {
    String::from_utf8(path.bytes.clone()).unwrap()
}

fn env() -> CacheEnv {
    CacheEnv {
        windows: false,
        cache_dir: None,
        local_app_data: None,
        xdg_cache_home: None,
        home: None,
        temp_dir: p("/tmp"),
    }
}

#[test]
fn joins_as_the_host_does() {
    for base in SAMPLES {
        for rel in SAMPLES {
            let expected = PathBuf::from(base).join(rel);
            assert_eq!(text(&p(base).join(rel)), expected.to_str().unwrap(), "{base} {rel}");
        }
    }
}

#[test]
fn reads_components_as_the_host_does() {
    for s in SAMPLES {
        let found = p(s).components();
        let expected: Vec<Component> = Path::new(s).components().collect();
        assert_eq!(found.len(), expected.len(), "{s}");
        for (a, b) in found.iter().zip(expected) {
            let same = match (a, b) {
                (PathComponent::Root, Component::RootDir) => true,
                (PathComponent::Current, Component::CurDir) => true,
                (PathComponent::Parent, Component::ParentDir) => true,
                (PathComponent::Normal(x), Component::Normal(y)) => x.as_slice() == y.as_encoded_bytes(),
                _ => false,
            };
            assert!(same, "{s}");
        }
        assert_eq!(p(s).is_absolute(), Path::new(s).is_absolute());
    }
}

#[test]
fn orders_paths_as_the_host_does() {
    for a in SAMPLES {
        for b in SAMPLES {
            let expected = match Path::new(a).cmp(Path::new(b)) {
                std::cmp::Ordering::Less => Order::Before,
                std::cmp::Ordering::Equal => Order::Same,
                std::cmp::Ordering::Greater => Order::After,
            };
            assert_eq!(p(a).order(&p(b)), expected, "{a} {b}");
            assert_eq!(p(a).same_as(&p(b)), Path::new(a) == Path::new(b), "{a} {b}");
        }
    }
}

#[test]
fn names_what_a_path_ends_with() {
    for s in SAMPLES {
        let expected = Path::new(s).file_name().and_then(|n| n.to_str()).map(|n| n.to_string());
        assert_eq!(p(s).name(), expected, "{s}");
    }
    let odd = HostPath { bytes: vec![b'/', b'a', b'/', 0xff, b'x'] };
    assert_eq!(odd.name(), None);
}

#[test]
fn shows_bytes_that_are_not_text() {
    let odd = HostPath { bytes: vec![b'a', 0xff, b'b', 0xe2, 0x82] };
    assert_eq!(odd.display(), "a\u{fffd}b\u{fffd}");
    assert_eq!(p("é/x").display(), "é/x");
}

#[test]
fn the_environment_names_the_tools_directory() {
    assert_eq!(tools_dir_name(None), DEFAULT_TOOLS_DIR);
    assert_eq!(DEFAULT_TOOLS_DIR, ".tortia-tools");
    assert_eq!(tools_dir_name(Some(&p(" my tools "))), "my tools");
    assert_eq!(tools_dir_name(Some(&p("a/./b"))), "a/./b");
    assert_eq!(tools_dir_name(Some(&p("..a"))), "..a");
    for refused in ["", "  ", "/abs", " /abs ", "..", "a/..", "../a", "a/../b"] {
        assert_eq!(tools_dir_name(Some(&p(refused))), ".tortia-tools", "{refused}");
    }
    let odd = HostPath { bytes: vec![b't', 0xff] };
    assert_eq!(tools_dir_name(Some(&odd)), "t\u{fffd}");
}

#[test]
fn wrappers_lie_in_the_tools_directory() {
    assert_eq!(text(&pm_bin_relative(None)), ".tortia-tools/pm/bin");
    assert_eq!(text(&pm_bin_relative(Some(&p("t/")))), "t/pm/bin");
    assert_eq!(text(&pm_bin_relative(Some(&p("/t")))), ".tortia-tools/pm/bin");
    assert_eq!(text(&pm_bin_in("x")), "x/pm/bin");
}

#[test]
fn the_cache_is_found_in_order() {
    let mut e = env();
    assert_eq!(text(&cache_root(&e)), "/tmp/tortia-cache");
    e.home = Some(p("/home/u"));
    assert_eq!(text(&cache_root(&e)), "/home/u/.cache/tortia");
    e.xdg_cache_home = Some(p("/xdg"));
    assert_eq!(text(&cache_root(&e)), "/xdg/tortia");
    assert_eq!(text(&downloads_cache_dir(&e)), "/xdg/tortia/downloads");
    e.cache_dir = Some(p("  "));
    assert_eq!(text(&cache_root(&e)), "/xdg/tortia");
    e.cache_dir = Some(p(" /c "));
    assert_eq!(text(&cache_root(&e)), "/c");
    assert_eq!(text(&downloads_cache_dir(&e)), "/c/downloads");
    e.cache_dir = None;
    e.windows = true;
    assert_eq!(text(&cache_root(&e)), "/tmp/tortia-cache");
    e.local_app_data = Some(p("/lad"));
    assert_eq!(text(&cache_root(&e)), "/lad/tortia/cache");
}

#[test]
fn names_of_files_and_temporary_directories() {
    assert_eq!(CONFIG_FILE, "RecipeFile");
    assert_eq!(MANIFEST_FILE, ".tortia-manifest.toml");
    assert_eq!(temp_dir_name(BUILD_TEMP_PREFIX, 42, 1_700), "tortia-build-42-1700");
    assert_eq!(temp_dir_name(RUN_TEMP_PREFIX, 0, 0), "tortia-run-0-0");
}

#[test]
fn lists_hold_paths_byte_for_byte() {
    let list = vec![p("/a/b"), p("c")];
    assert!(holds_path(&list, &p("/a/b")));
    assert!(!holds_path(&list, &p("/a//b")));
}

#[test]
fn tools_stay_below_the_payload() {
    for raw in ["", "..", "/etc", "x", "./x/", "../../x"] {
        let tools = tools_dir_name(Some(&p(raw)));
        let path = p("/payload").join(tools.as_str());
        assert!(text(&path).starts_with("/payload/"));
    }
}
