use elba::package::DirectRes;
use elba::path::FilePath;
use elba::retrieve::cache::Cache;
use elba::retrieve::indices::{IndexRes, IndexWalk, WalkAction, WalkEvent};
use elba::util::lock::DirLock;

fn path(text: &str) -> FilePath {
    FilePath::parse(text.as_bytes())
}

fn text(path: &FilePath) -> String {
    String::from_utf8(path.to_bytes()).unwrap()
}

fn lock(text: &str) -> DirLock {
    DirLock::acquire(path(text), true).unwrap()
}

fn local(name: &str) -> DirectRes {
    DirectRes::Dir { url: path(name), text: format!("dir+{}", name) }
}

fn remote() -> DirectRes {
    DirectRes::Git { text: "git+https://example.com/index.git#master".to_string() }
}

fn start(reses: &[DirectRes]) -> IndexWalk {
    Cache::from_disk(path("/cache")).get_indices(reses)
}

/// Locks and loads the index that a walk is at, with what it depends on.
fn load(walk: IndexWalk, depends: &[DirectRes]) -> IndexWalk {
    let place = match walk.action() {
        WalkAction::Lock { path, .. } => text(&path),
        other => panic!("{:?}", other),
    };
    let walk = walk.step(WalkEvent::Locked(Some(lock(&place))));
    assert!(matches!(walk.action(), WalkAction::Load { .. }));
    let depends = depends.iter().map(|res| IndexRes { res: res.clone() }).collect();
    walk.step(WalkEvent::Loaded(Some(depends)))
}

fn at(walk: &IndexWalk) -> String {
    match walk.action() {
        WalkAction::Lock { path, .. } => text(&path),
        other => panic!("{:?}", other),
    }
}

fn found(walk: IndexWalk) -> Vec<String> {
    let indices = walk.outcome().unwrap().indices;
    indices.iter().map(|index| index.res.text().clone()).collect()
}

#[test]
fn walk_over_nothing_has_ended() {
    let walk = start(&[]);
    assert!(matches!(walk.action(), WalkAction::Finished));
    assert!(found(walk).is_empty());
}

#[test]
fn indices_are_visited_level_by_level() {
    let walk = start(&[local("/a"), local("/b")]);
    assert_eq!(at(&walk), "/a");
    let walk = load(walk, &[local("/c"), local("/d")]);
    assert_eq!(at(&walk), "/b");
    let walk = load(walk, &[local("/e")]);
    assert_eq!(at(&walk), "/c");
    let walk = load(walk, &[local("/f")]);
    assert_eq!(at(&walk), "/d");
    let walk = load(walk, &[]);
    assert_eq!(at(&walk), "/e");
    let walk = load(walk, &[]);
    assert_eq!(at(&walk), "/f");
    let walk = load(walk, &[]);
    assert_eq!(found(walk), vec!["dir+/a", "dir+/b", "dir+/c", "dir+/d", "dir+/e", "dir+/f"]);
}

#[test]
fn index_in_the_cache_is_loaded() {
    let walk = start(&[remote()]);
    let place = "/cache/indices/2322844df2206464ab0d59c32b6c2d59eff996948d83b8ebcf0661403517a2c4";
    assert_eq!(at(&walk), place);
    let walk = walk.step(WalkEvent::Locked(Some(lock(place))));
    match walk.action() {
        WalkAction::Exists { path } => assert_eq!(text(&path), place),
        other => panic!("{:?}", other),
    }
    let walk = walk.step(WalkEvent::Exists(true));
    match walk.action() {
        WalkAction::Load { res, dir } => {
            assert_eq!(res.text(), remote().text());
            assert_eq!(text(&dir), place);
        }
        other => panic!("{:?}", other),
    }
    let walk = walk.step(WalkEvent::Loaded(Some(vec![])));
    assert_eq!(found(walk), vec![remote().text().clone()]);
}

#[test]
fn index_that_is_not_there_is_retrieved() {
    let walk = start(&[remote()])
        .step(WalkEvent::Locked(Some(lock("/cache/indices/i"))))
        .step(WalkEvent::Exists(false));
    match walk.action() {
        WalkAction::Retrieve { res, dir } => {
            assert_eq!(res.text(), remote().text());
            assert_eq!(text(&dir), "/cache/indices/i");
        }
        other => panic!("{:?}", other),
    }
    let walk = walk.step(WalkEvent::Retrieved(true));
    assert!(matches!(walk.action(), WalkAction::Load { .. }));
    let walk = walk.step(WalkEvent::Loaded(Some(vec![])));
    assert_eq!(found(walk).len(), 1);
}

#[test]
fn whatever_goes_wrong_the_walk_goes_on() {
    let walk = start(&[local("/a"), remote(), remote(), local("/b"), local("/c")]);
    let walk = walk.step(WalkEvent::Locked(None));
    let walk = walk
        .step(WalkEvent::Locked(Some(lock("/cache/indices/i"))))
        .step(WalkEvent::Exists(false))
        .step(WalkEvent::Retrieved(false));
    match walk.action() {
        WalkAction::Discard { dir } => assert_eq!(text(&dir), "/cache/indices/i"),
        other => panic!("{:?}", other),
    }
    let walk = walk.step(WalkEvent::Discarded);
    let walk = walk
        .step(WalkEvent::Locked(Some(lock("/cache/indices/i"))))
        .step(WalkEvent::Exists(true))
        .step(WalkEvent::Loaded(None));
    assert_eq!(at(&walk), "/b");
    let walk = walk.step(WalkEvent::Locked(Some(lock("/b")))).step(WalkEvent::Loaded(None));
    assert_eq!(at(&walk), "/c");
    let walk = load(walk, &[]);
    assert_eq!(found(walk), vec!["dir+/c"]);
}

#[test]
fn indices_that_depend_on_each_other_are_loaded_once() {
    let walk = start(&[local("/a")]);
    let walk = load(walk, &[local("/b")]);
    let walk = load(walk, &[local("/a")]);
    assert_eq!(at(&walk), "/a");
    let walk = walk.step(WalkEvent::Locked(None));
    assert_eq!(found(walk), vec!["dir+/a", "dir+/b"]);
}

#[test]
fn walk_is_not_changed_by_what_it_did_not_ask_for() {
    let walk = start(&[local("/a")])
        .step(WalkEvent::Exists(true))
        .step(WalkEvent::Retrieved(true))
        .step(WalkEvent::Discarded)
        .step(WalkEvent::Loaded(Some(vec![])));
    assert_eq!(at(&walk), "/a");
    let walk = walk.outcome().unwrap_err();
    let ended = walk.step(WalkEvent::Locked(None)).step(WalkEvent::Locked(Some(lock("/a"))));
    assert!(found(ended).is_empty());
}

#[test]
fn what_an_index_depends_on_is_kept() {
    let walk = load(start(&[local("/a")]), &[local("/b")]).step(WalkEvent::Locked(None));
    let indices = walk.outcome().unwrap().indices;
    assert_eq!(indices.len(), 1);
    assert_eq!(text(indices[0].path.path()), "/a");
    assert_eq!(indices[0].depends.len(), 1);
    assert_eq!(indices[0].depends[0].res.text(), "dir+/b");
}

#[test]
fn only_local_indices_must_exist() {
    let must = |walk: IndexWalk| match walk.action() {
        WalkAction::Lock { must_exist, .. } => must_exist,
        other => panic!("{:?}", other),
    };
    assert!(must(start(&[local("/a")])));
    assert!(!must(start(&[remote()])));
}
