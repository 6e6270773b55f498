use elba::package::{
    DirectRes, Identifier, Manifest, ManifestTargets, Name, PackageId, Version,
};
use elba::path::FilePath;
use elba::resolve::{build_bytes, find_hash, find_source, hash_bytes, SourceSolve};
use elba::retrieve::cache::{Cache, Source};
use elba::retrieve::load::{Check, LoadAction};
use elba::util::lock::DirLock;

fn path(text: &str) -> FilePath {
    FilePath::parse(text.as_bytes())
}

fn text(path: &FilePath) -> String {
    String::from_utf8(path.to_bytes()).unwrap()
}

fn name() -> Name {
    Name { text: "group/name".to_string(), group: "group".to_string(), name: "name".to_string() }
}

fn git(reference: &str) -> DirectRes {
    DirectRes::Git { text: format!("git+https://example.com/repo.git#{}", reference) }
}

fn tar() -> DirectRes {
    DirectRes::Tar { text: "tar+https://example.com/a.tar".to_string() }
}

fn dir() -> DirectRes {
    DirectRes::Dir { url: path("/home/me/package"), text: "dir+/home/me/package".to_string() }
}

fn release(major: u64, minor: u64, patch: u64) -> Version {
    Version { major, minor, patch, pre: vec![], build: vec![] }
}

fn prerelease() -> Version {
    Version {
        major: 1,
        minor: 2,
        patch: 3,
        pre: vec![Identifier::AlphaNumeric("alpha".to_string()), Identifier::Numeric(1)],
        build: vec![Identifier::AlphaNumeric("build5".to_string())],
    }
}

fn manifest() -> Manifest {
    Manifest { name: name(), targets: ManifestTargets { lib: None, bin: vec![], test: vec![] } }
}

fn source(contents: &[u8]) -> Source {
    let lock = DirLock::acquire(path("/cache/src/package"), true).unwrap();
    Source::from_folder(manifest(), git("master"), lock, contents)
}

fn cache() -> Cache {
    Cache::from_disk(path("/cache"))
}

const A: &str = "ca978112ca1bbdcafac231b39a23dc4da786eff8147c4e72b9807785afee48bb";
const B: &str = "3e23e8160039594a33894f6564e1b1348bbd7a0088d42c4acb73eeaed59c009d";
const C: &str = "2e7d2c03a9507ae265ecf5b5356885a53393a2029d241394997265a1a25aefc6";

#[test]
fn cache_has_three_directories() {
    let directories: Vec<String> = cache().directories().iter().map(text).collect();
    assert_eq!(directories, vec!["/cache/src", "/cache/build", "/cache/indices"]);
    assert_eq!(text(cache().clone().location()), "/cache");
}

#[test]
fn directory_of_a_repository() {
    assert_eq!(
        Cache::get_source_dir(&name(), &git("master"), None),
        "group_name-0f58c0ed95515c742c81c4249ac63b75e031ecff67e6f008b27c08e573421900"
    );
}

#[test]
fn directory_of_a_tarball() {
    assert_eq!(
        Cache::get_source_dir(&name(), &tar(), None),
        "group_name-e967cd8e09587e1d48f79cfb8ddfb61a87980e87ac5fb7e22063fb6da5b4e190"
    );
    assert_eq!(
        Cache::get_source_dir(&name(), &tar(), Some(&release(1, 2, 3))),
        "group_name-a81daee56d9a88279e126cefc92e4c6f5cfe4f23c8754afc09183ebd83b02ad5"
    );
}

#[test]
fn version_is_written_with_its_identifiers() {
    assert_eq!(
        Cache::get_source_dir(&name(), &tar(), Some(&prerelease())),
        "group_name-29c0a4e0df5ff918f734d023bd34cbffa42fe87078e593fec1e37c808e9b5806"
    );
    assert_eq!(
        Cache::source_message(&name(), &tar(), Some(&prerelease())),
        b"group/nametar+https://example.com/a.tar1.2.3-alpha.1+build5"
    );
}

#[test]
fn version_matters_for_tarballs_alone() {
    let left = release(1, 2, 3);
    let right = release(12, 0, 30);
    for loc in [git("master"), dir()] {
        assert_eq!(
            Cache::get_source_dir(&name(), &loc, Some(&left)),
            Cache::get_source_dir(&name(), &loc, Some(&right))
        );
        assert_eq!(
            Cache::get_source_dir(&name(), &loc, Some(&left)),
            Cache::get_source_dir(&name(), &loc, None)
        );
    }
    assert_ne!(
        Cache::get_source_dir(&name(), &tar(), Some(&left)),
        Cache::get_source_dir(&name(), &tar(), Some(&right))
    );
}

#[test]
fn commits_are_different_sources() {
    assert_ne!(
        Cache::get_source_dir(&name(), &git("master"), None),
        Cache::get_source_dir(&name(), &git("v1"), None)
    );
}

#[test]
fn releases_are_told_apart() {
    assert_ne!(
        Cache::source_message(&name(), &tar(), Some(&release(1, 12, 3))),
        Cache::source_message(&name(), &tar(), Some(&release(11, 2, 3)))
    );
    let largest = release(0, u64::MAX, 10);
    let message = Cache::source_message(&name(), &tar(), Some(&largest));
    assert!(String::from_utf8(message).unwrap().ends_with("0.18446744073709551615.10"));
}

#[test]
fn directory_is_named_by_group_name_and_digest() {
    assert_eq!(Cache::source_dir_name(&name(), &[0xbe, 0xef]), "group_name-beef");
}

#[test]
fn local_source_is_found_where_it_is() {
    match cache().check_source(&name(), &dir(), None) {
        Check::Found { path, link } => {
            assert_eq!(text(&path), "/home/me/package");
            let entry = Cache::get_source_dir(&name(), &dir(), None);
            assert_eq!(text(&link), format!("/cache/src/{}", entry));
        }
        other => panic!("{:?}", other),
    }
}

#[test]
fn other_sources_may_be_in_the_cache() {
    match cache().check_source(&name(), &git("master"), None) {
        Check::Probe(path) => assert_eq!(
            text(&path),
            "/cache/src/group_name-0f58c0ed95515c742c81c4249ac63b75e031ecff67e6f008b27c08e573421900"
        ),
        other => panic!("{:?}", other),
    }
}

#[test]
fn load_of_a_source_begins_with_the_check() {
    let pkg = PackageId { name: name() };
    match cache().load_source(&pkg, &dir(), None).action() {
        LoadAction::Lock { path, must_exist } => {
            assert_eq!(text(&path), "/home/me/package");
            assert!(must_exist);
        }
        other => panic!("{:?}", other),
    }
    match cache().load_source(&pkg, &tar(), None).action() {
        LoadAction::Lock { path, must_exist } => {
            assert!(text(&path).starts_with("/cache/src/group_name-e967"));
            assert!(!must_exist);
        }
        other => panic!("{:?}", other),
    }
}

#[test]
fn hash_of_a_source_is_the_digest_of_its_contents() {
    assert_eq!(source(b"a").hash, A);
    assert_eq!(source(b"b").hash, B);
    assert_eq!(source(b"c").hash, C);
    assert_eq!(text(source(b"a").path()), "/cache/src/package");
    assert_eq!(source(b"a").meta().name.text, "group/name");
}

#[test]
fn contents_are_packed_beside_the_package() {
    let lock = DirLock::acquire(path("/cache/src/package"), true).unwrap();
    assert_eq!(text(&Source::tarball(&lock)), "/cache/src/package.tar");
}

#[test]
fn build_depends_on_everything_that_is_reached() {
    let mut graph: SourceSolve = petgraph::Graph::new();
    let a = graph.add_node(source(b"a"));
    let b = graph.add_node(source(b"b"));
    let c = graph.add_node(source(b"c"));
    graph.add_edge(a, b, ());
    graph.add_edge(b, c, ());
    assert_eq!(build_bytes(&source(b"a"), &graph), format!("{}{}{}", A, B, C).into_bytes());
    assert_eq!(
        Cache::get_build_dir(&source(b"a"), &graph),
        "e03079b65db69eeb4a8e9895005422a4f62e5be792f53be13988f5b1a294a2ff"
    );
    assert_eq!(
        Cache::get_build_dir(&source(b"b"), &graph),
        "6ab3ff83fd75c25215d659c9b61e2e8c83913b7c600e7f0a74303e1aeb61d515"
    );
}

#[test]
fn build_follows_the_order_of_the_search() {
    let mut graph: SourceSolve = petgraph::Graph::new();
    let a = graph.add_node(source(b"a"));
    let b = graph.add_node(source(b"b"));
    let c = graph.add_node(source(b"c"));
    graph.add_edge(a, b, ());
    graph.add_edge(a, c, ());
    graph.add_edge(c, a, ());
    assert_eq!(
        Cache::get_build_dir(&source(b"a"), &graph),
        "a91fc0b39adb4acf463f9cc6a1e555bb56c0d34d5b638cfa444a6d4fb5ae91ff"
    );
}

#[test]
fn build_does_not_depend_on_anything_else() {
    let mut graph: SourceSolve = petgraph::Graph::new();
    let a = graph.add_node(source(b"a"));
    let b = graph.add_node(source(b"b"));
    graph.add_edge(a, b, ());
    assert_eq!(build_bytes(&source(b"b"), &graph), B.as_bytes());
    assert_eq!(
        Cache::get_build_dir(&source(b"b"), &graph),
        "dba1de6de88c058e5e0922171e0bd97e79e20e9fc6c1d2737a91146765527305"
    );
}

#[test]
fn build_does_not_depend_on_unrelated_packages() {
    let mut graph: SourceSolve = petgraph::Graph::new();
    let a = graph.add_node(source(b"a"));
    let b = graph.add_node(source(b"b"));
    graph.add_edge(a, b, ());
    let before = Cache::get_build_dir(&source(b"a"), &graph);
    let c = graph.add_node(source(b"c"));
    graph.add_edge(c, a, ());
    graph.add_edge(c, b, ());
    assert_eq!(Cache::get_build_dir(&source(b"a"), &graph), before);
    let mut other: SourceSolve = petgraph::Graph::new();
    other.add_node(source(b"c"));
    let b = other.add_node(source(b"b"));
    let a = other.add_node(source(b"a"));
    other.add_edge(a, b, ());
    assert_eq!(Cache::get_build_dir(&source(b"a"), &other), before);
}

#[test]
fn search_goes_level_by_level() {
    let mut graph: SourceSolve = petgraph::Graph::new();
    let a = graph.add_node(source(b"a"));
    let b = graph.add_node(source(b"b"));
    let c = graph.add_node(source(b"c"));
    let d = graph.add_node(source(b"d"));
    graph.add_edge(b, d, ());
    graph.add_edge(a, c, ());
    graph.add_edge(a, b, ());
    graph.add_edge(d, a, ());
    let hashes = [source(b"a").hash, source(b"b").hash, source(b"c").hash, source(b"d").hash];
    assert_eq!(build_bytes(&source(b"a"), &graph), hashes.concat().into_bytes());
}

#[test]
fn build_changes_with_the_contents_of_a_dependency() {
    let mut left: SourceSolve = petgraph::Graph::new();
    let a = left.add_node(source(b"a"));
    let b = left.add_node(source(b"b"));
    left.add_edge(a, b, ());
    let mut right: SourceSolve = petgraph::Graph::new();
    let a = right.add_node(source(b"a"));
    let b = right.add_node(source(b"b, changed"));
    right.add_edge(a, b, ());
    assert_ne!(
        Cache::get_build_dir(&source(b"a"), &left),
        Cache::get_build_dir(&source(b"a"), &right)
    );
}

#[test]
fn source_is_found_in_a_graph_by_its_hash() {
    let mut graph: SourceSolve = petgraph::Graph::new();
    graph.add_node(source(b"a"));
    graph.add_node(source(b"b"));
    graph.add_node(source(b"b"));
    assert_eq!(find_source(&source(b"b"), &graph), Some(1));
    assert_eq!(find_source(&source(b"c"), &graph), None);
}

#[test]
fn build_is_checked_out_if_the_source_is_in_the_graph() {
    let mut graph: SourceSolve = petgraph::Graph::new();
    graph.add_node(source(b"b"));
    assert!(cache().try_checkout_build(&source(b"a"), &graph).is_none());
    let checkout = cache().try_checkout_build(&source(b"b"), &graph).unwrap();
    match checkout.action() {
        LoadAction::Lock { path, must_exist: false } => assert_eq!(
            text(&path),
            "/cache/build/dba1de6de88c058e5e0922171e0bd97e79e20e9fc6c1d2737a91146765527305"
        ),
        other => panic!("{:?}", other),
    }
}

#[test]
fn hashes_are_taken_by_position() {
    let hashes = vec!["x".to_string(), "yz".to_string(), "x".to_string()];
    assert_eq!(hash_bytes(&hashes, &vec![1, 0, 1]), b"yzxyz");
    assert_eq!(find_hash(&hashes, &"x".to_string()), Some(0));
    assert_eq!(find_hash(&hashes, &"z".to_string()), None);
}

#[test]
fn directory_of_an_index() {
    let index = DirectRes::Git { text: "git+https://example.com/index.git#master".to_string() };
    assert_eq!(
        Cache::get_index_dir(&index),
        "2322844df2206464ab0d59c32b6c2d59eff996948d83b8ebcf0661403517a2c4"
    );
    assert_eq!(
        text(&cache().index_path(&index)),
        "/cache/indices/2322844df2206464ab0d59c32b6c2d59eff996948d83b8ebcf0661403517a2c4"
    );
    assert_eq!(text(&cache().index_path(&dir())), "/home/me/package");
}

#[test]
fn different_indices_have_different_directories() {
    assert_ne!(Cache::get_index_dir(&git("master")), Cache::get_index_dir(&git("v1")));
    assert_eq!(Cache::get_index_dir(&git("v1")), Cache::get_index_dir(&git("v1")));
}

#[test]
fn directories_are_entries_of_their_parts() {
    let mut graph: SourceSolve = petgraph::Graph::new();
    graph.add_node(source(b"a"));
    let probed = |check: Check| match check {
        Check::Probe(path) => path,
        other => panic!("{:?}", other),
    };
    let paths = vec![
        probed(cache().check_source(&name(), &tar(), None)),
        probed(cache().check_build(&source(b"a"), &graph)),
        cache().index_path(&tar()),
    ];
    let parents: Vec<String> = paths.iter().map(|path| text(&path.parent().unwrap())).collect();
    assert_eq!(parents, vec!["/cache/src", "/cache/build", "/cache/indices"]);
}

#[test]
fn directories_of_the_cache_have_lock_files_of_their_own() {
    let left = cache().index_path(&git("master"));
    let right = cache().index_path(&git("v1"));
    assert_ne!(text(&DirLock::lock_file(&left)), text(&DirLock::lock_file(&right)));
    assert_eq!(text(&DirLock::lock_file(&left)), format!("{}.lock", text(&left)));
}

#[test]
fn tarball_is_not_the_lock_file() {
    let lock = DirLock::acquire(path("/cache/src/package"), true).unwrap();
    assert_ne!(text(&Source::tarball(&lock)), text(lock.lock_path()));
    assert_eq!(text(&Source::tarball(&lock).parent().unwrap()), "/cache/src");
}

#[test]
fn the_first_source_with_a_hash_is_the_root() {
    let mut graph: SourceSolve = petgraph::Graph::new();
    let first = graph.add_node(source(b"a"));
    let second = graph.add_node(source(b"a"));
    let b = graph.add_node(source(b"b"));
    graph.add_edge(second, b, ());
    assert_eq!(build_bytes(&source(b"a"), &graph), A.as_bytes());
    graph.add_edge(first, b, ());
    assert_eq!(build_bytes(&source(b"a"), &graph), format!("{}{}", A, B).into_bytes());
}

#[test]
fn ibc_files_are_not_packed() {
    let packed = |files: &[&str]| -> Vec<String> {
        let files: Vec<FilePath> = files.iter().map(|file| path(file)).collect();
        Source::packed(&files).iter().map(text).collect()
    };
    let clean = packed(&["elba.toml", "src/A.idr", "src/ibc", "src/.ibc"]);
    assert_eq!(clean, vec!["elba.toml", "src/A.idr", "src/ibc", "src/.ibc"]);
    let stray = ["A.ibc", "elba.toml", "src/A.ibc", "src/A.idr", "src/ibc", "src/.ibc", "x.y.ibc"];
    assert_eq!(packed(&stray), clean);
    assert_eq!(packed(&["a.ibc/b", "a.ibc.bak"]), vec!["a.ibc/b", "a.ibc.bak"]);
    assert!(packed(&[]).is_empty());
}
