use elba::package::{DirectRes, Manifest, ManifestTargets, Name, PackageId};
use elba::path::FilePath;
use elba::resolve::SourceSolve;
use elba::retrieve::cache::{Cache, Source};
use elba::retrieve::checkout::{
    mismatch_message, CheckoutError, ManifestRead, SourceAction, SourceCheckout, SourceEvent,
};
use elba::retrieve::load::{Check, Fill, Load, LoadAction, LoadError, LoadEvent};
use elba::util::lock::DirLock;

fn path(text: &str) -> FilePath {
    FilePath::parse(text.as_bytes())
}

fn text(path: &FilePath) -> String {
    String::from_utf8(path.to_bytes()).unwrap()
}

fn lock(text: &str) -> DirLock {
    DirLock::acquire(path(text), true).unwrap()
}

fn named(name: &str) -> Name {
    Name { text: format!("group/{}", name), group: "group".to_string(), name: name.to_string() }
}

fn manifest(name: &str) -> Manifest {
    Manifest { name: named(name), targets: ManifestTargets { lib: None, bin: vec![], test: vec![] } }
}

fn git() -> DirectRes {
    DirectRes::Git { text: "git+https://example.com/repo.git#master".to_string() }
}

fn local() -> DirectRes {
    DirectRes::Dir { url: path("/home/me/p"), text: "dir+/home/me/p".to_string() }
}

fn probe() -> Load {
    Load::start(Check::Probe(path("/cache/src/p")), Fill::Retrieve(git()))
}

fn start(loc: &DirectRes) -> SourceCheckout {
    Cache::from_disk(path("/cache")).checkout_source(&PackageId { name: named("p") }, loc, None)
}

fn error(checkout: SourceCheckout) -> CheckoutError {
    checkout.outcome().unwrap().unwrap_err()
}

#[test]
fn directory_in_the_cache_is_locked_and_not_filled() {
    let load = probe();
    match load.action() {
        LoadAction::Lock { path, must_exist } => {
            assert_eq!(text(&path), "/cache/src/p");
            assert!(!must_exist);
        }
        other => panic!("{:?}", other),
    }
    let load = load.step(LoadEvent::Locked(Some(lock("/cache/src/p"))));
    match load.action() {
        LoadAction::Exists { dir } => assert_eq!(text(&dir), "/cache/src/p"),
        other => panic!("{:?}", other),
    }
    let load = load.step(LoadEvent::Exists(true));
    assert!(matches!(load.action(), LoadAction::Loaded));
    assert_eq!(text(load.outcome().unwrap().unwrap().path()), "/cache/src/p");
}

#[test]
fn missing_directory_is_locked_and_filled() {
    let load = probe().step(LoadEvent::Locked(Some(lock("/cache/src/p"))));
    assert!(matches!(load.action(), LoadAction::Exists { .. }));
    let load = load.step(LoadEvent::Exists(false));
    let load = load.outcome().unwrap_err();
    match load.action() {
        LoadAction::Fill { fill: Fill::Retrieve(res), dir } => {
            assert_eq!(res.text(), git().text());
            assert_eq!(text(&dir), "/cache/src/p");
        }
        other => panic!("{:?}", other),
    }
    let load = load.step(LoadEvent::Filled(true));
    assert_eq!(text(load.outcome().unwrap().unwrap().path()), "/cache/src/p");
}

#[test]
fn directory_that_cannot_be_locked_is_not_loaded() {
    let load = probe().step(LoadEvent::Locked(None));
    assert_eq!(load.outcome().unwrap().unwrap_err(), LoadError::Lock);
}

#[test]
fn directory_that_cannot_be_filled_is_not_loaded() {
    let load = probe()
        .step(LoadEvent::Locked(Some(lock("/cache/src/p"))))
        .step(LoadEvent::Exists(false))
        .step(LoadEvent::Filled(false));
    match load.action() {
        LoadAction::Discard { dir } => assert_eq!(text(&dir), "/cache/src/p"),
        other => panic!("{:?}", other),
    }
    let load = load.step(LoadEvent::Discarded);
    assert!(matches!(load.action(), LoadAction::Failed { error: LoadError::Fill }));
    assert_eq!(load.outcome().unwrap().unwrap_err(), LoadError::Fill);
}

#[test]
fn load_is_not_changed_by_what_it_did_not_ask_for() {
    let load = probe().step(LoadEvent::Filled(true)).step(LoadEvent::Exists(true));
    assert!(matches!(load.action(), LoadAction::Lock { .. }));
    let ended = load.step(LoadEvent::Locked(None));
    let ended = ended.step(LoadEvent::Exists(true)).step(LoadEvent::Filled(true));
    assert_eq!(ended.outcome().unwrap().unwrap_err(), LoadError::Lock);
}

#[test]
fn local_source_is_checked_out_where_it_is() {
    let checkout = start(&local());
    match checkout.action() {
        SourceAction::Load(LoadAction::Lock { path, must_exist }) => {
            assert_eq!(text(&path), "/home/me/p");
            assert!(must_exist);
        }
        other => panic!("{:?}", other),
    }
    let checkout = checkout.step(SourceEvent::Load(LoadEvent::Locked(Some(lock("/home/me/p")))));
    match checkout.action() {
        SourceAction::Load(LoadAction::Link { dir, link }) => {
            assert_eq!(text(&dir), "/home/me/p");
            let entry = Cache::get_source_dir(&named("p"), &local(), None);
            assert_eq!(text(&link), format!("/cache/src/{}", entry));
        }
        other => panic!("{:?}", other),
    }
    let checkout = checkout.step(SourceEvent::Load(LoadEvent::Linked(true)));
    match checkout.action() {
        SourceAction::ReadManifest { path } => assert_eq!(text(&path), "/home/me/p/elba.toml"),
        other => panic!("{:?}", other),
    }
    let checkout = checkout.step(SourceEvent::Manifest(ManifestRead::Parsed(manifest("p"))));
    match checkout.action() {
        SourceAction::List { dir } => assert_eq!(text(&dir), "/home/me/p"),
        other => panic!("{:?}", other),
    }
    let files = vec![path("elba.toml"), path("src/A.ibc"), path("src/A.idr")];
    let checkout = checkout.step(SourceEvent::Listed(Some(files)));
    match checkout.action() {
        SourceAction::Pack { dir, files, tarball } => {
            assert_eq!(text(&dir), "/home/me/p");
            let files: Vec<String> = files.iter().map(text).collect();
            assert_eq!(files, vec!["elba.toml", "src/A.idr"]);
            assert_eq!(text(&tarball), "/home/me/p.tar");
        }
        other => panic!("{:?}", other),
    }
    let checkout = checkout.step(SourceEvent::Packed(Some(b"contents".to_vec())));
    assert!(matches!(checkout.action(), SourceAction::Done));
    let source: Source = checkout.outcome().unwrap().unwrap();
    assert_eq!(source.meta.name.text, "group/p");
    assert_eq!(source.location.text(), local().text());
    assert_eq!(text(source.path()), "/home/me/p");
    assert_eq!(
        source.hash,
        "d1b2a59fbea7e20077af9f91b27e95e865061b270be03ff539ab3b73587882e8"
    );
}

#[test]
fn source_that_is_not_in_the_cache_is_retrieved() {
    let checkout = start(&git())
        .step(SourceEvent::Load(LoadEvent::Locked(Some(lock("/cache/src/p")))))
        .step(SourceEvent::Load(LoadEvent::Exists(false)));
    assert!(matches!(
        checkout.action(),
        SourceAction::Load(LoadAction::Fill { fill: Fill::Retrieve(_), .. })
    ));
    let checkout = checkout.step(SourceEvent::Load(LoadEvent::Filled(true)));
    assert!(matches!(checkout.action(), SourceAction::ReadManifest { .. }));
}

#[test]
fn source_that_cannot_be_loaded_is_not_checked_out() {
    let checkout = start(&local()).step(SourceEvent::Load(LoadEvent::Locked(None)));
    assert!(matches!(checkout.action(), SourceAction::Failed(CheckoutError::Load(LoadError::Lock))));
    assert!(matches!(error(checkout), CheckoutError::Load(LoadError::Lock)));
}

#[test]
fn local_source_that_cannot_be_linked_is_not_checked_out() {
    let checkout = start(&local())
        .step(SourceEvent::Load(LoadEvent::Locked(Some(lock("/home/me/p")))))
        .step(SourceEvent::Load(LoadEvent::Linked(false)));
    assert!(matches!(error(checkout), CheckoutError::Load(LoadError::Link)));
}

#[test]
fn source_that_cannot_be_retrieved_is_discarded() {
    let checkout = start(&git())
        .step(SourceEvent::Load(LoadEvent::Locked(Some(lock("/cache/src/p")))))
        .step(SourceEvent::Load(LoadEvent::Exists(false)))
        .step(SourceEvent::Load(LoadEvent::Filled(false)));
    assert!(matches!(checkout.action(), SourceAction::Load(LoadAction::Discard { .. })));
    let checkout = checkout.step(SourceEvent::Load(LoadEvent::Discarded));
    assert!(matches!(error(checkout), CheckoutError::Load(LoadError::Fill)));
}

#[test]
fn source_needs_a_manifest() {
    let read = |read: ManifestRead| {
        error(
            start(&local())
                .step(SourceEvent::Load(LoadEvent::Locked(Some(lock("/home/me/p")))))
                .step(SourceEvent::Load(LoadEvent::Linked(true)))
                .step(SourceEvent::Manifest(read)),
        )
    };
    assert!(matches!(read(ManifestRead::Missing), CheckoutError::MissingManifest));
    assert!(matches!(read(ManifestRead::Unreadable), CheckoutError::InvalidIndex));
    assert!(matches!(read(ManifestRead::Invalid), CheckoutError::InvalidIndex));
}

#[test]
fn source_needs_the_name_that_was_asked_for() {
    let failed = error(
        start(&local())
            .step(SourceEvent::Load(LoadEvent::Locked(Some(lock("/home/me/p")))))
            .step(SourceEvent::Load(LoadEvent::Linked(true)))
            .step(SourceEvent::Manifest(ManifestRead::Parsed(manifest("q")))),
    );
    match failed {
        CheckoutError::NamesDontMatch { declared, found } => assert_eq!(
            mismatch_message(&declared, &found),
            "names don't match: group/p was declared, but group/q was found in elba.toml"
        ),
        other => panic!("{:?}", other),
    }
}

#[test]
fn source_needs_to_be_packed() {
    let listing = || {
        start(&local())
            .step(SourceEvent::Load(LoadEvent::Locked(Some(lock("/home/me/p")))))
            .step(SourceEvent::Load(LoadEvent::Linked(true)))
            .step(SourceEvent::Manifest(ManifestRead::Parsed(manifest("p"))))
    };
    assert!(matches!(error(listing().step(SourceEvent::Listed(None))), CheckoutError::Pack));
    let packing = listing().step(SourceEvent::Listed(Some(vec![path("elba.toml")])));
    assert!(matches!(error(packing.step(SourceEvent::Packed(None))), CheckoutError::Pack));
}

#[test]
fn checkout_that_has_not_ended_has_no_outcome() {
    let checkout = start(&git()).outcome().unwrap_err();
    assert!(matches!(checkout.action(), SourceAction::Load(LoadAction::Lock { .. })));
}

#[test]
fn build_is_copied_from_its_source() {
    let source = Source::from_folder(manifest("p"), git(), lock("/cache/src/p"), b"contents");
    let mut graph: SourceSolve = petgraph::Graph::new();
    graph.add_node(Source::from_folder(manifest("p"), git(), lock("/cache/src/p"), b"contents"));
    let checkout = Cache::from_disk(path("/cache")).checkout_build(&source, &graph);
    let checkout = checkout
        .step(LoadEvent::Locked(Some(lock("/cache/build/b"))))
        .step(LoadEvent::Exists(false));
    let checkout = checkout.outcome().unwrap_err();
    match checkout.action() {
        LoadAction::Fill { fill: Fill::Copy(from), dir } => {
            assert_eq!(text(&from), "/cache/src/p");
            assert_eq!(text(&dir), "/cache/build/b");
        }
        other => panic!("{:?}", other),
    }
    let checkout = checkout.step(LoadEvent::Filled(true));
    assert_eq!(text(checkout.outcome().unwrap().unwrap().path()), "/cache/build/b");
}
