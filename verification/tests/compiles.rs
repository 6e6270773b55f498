use elba::build::compile::{check_main, check_modules, BuildError};
use elba::build::run::{BinAction, BinBuild, LibAction, LibBuild};
use elba::build::{compile_bin, compile_lib, Target};
use elba::package::{BinTarget, DirectRes, LibTarget, Manifest, ManifestTargets, Name};
use elba::path::FilePath;
use elba::retrieve::cache::{Binary, OutputLayout, Source};
use elba::util::lock::DirLock;

fn path(text: &str) -> FilePath {
    FilePath::parse(text.as_bytes())
}

fn text(path: &FilePath) -> String {
    String::from_utf8(path.to_bytes()).unwrap()
}

fn lock(text: &str) -> DirLock {
    DirLock::acquire(path(text), true).unwrap()
}

fn source(lib: Option<LibTarget>, bin: Vec<BinTarget>, test: Vec<BinTarget>) -> Source {
    let name = Name {
        text: "group/name".to_string(),
        group: "group".to_string(),
        name: "name".to_string(),
    };
    let meta = Manifest { name, targets: ManifestTargets { lib, bin, test } };
    let location = DirectRes::Git { text: "git+repo".to_string() };
    Source::from_folder(meta, location, lock("/p"), b"contents")
}

fn lib(dir: &str, mods: &[&str]) -> Option<LibTarget> {
    let mods = mods.iter().map(|module| module.to_string()).collect();
    Some(LibTarget { path: path(dir), mods })
}

fn bin(name: &str, main: &str) -> BinTarget {
    BinTarget { name: name.to_string(), main: path(main) }
}

fn layout() -> OutputLayout {
    OutputLayout { build: path("/p/target/build"), lib: path("/p/target/lib") }
}

#[test]
fn library_is_compiled_and_moved() {
    let source = source(lib("src", &["Test", "Data.List"]), vec![], vec![]);
    assert!(check_modules(&source, &layout()));
    let left = Binary::new(lock("/cache/build/left"));
    let right = Binary::new(lock("/cache/build/right"));
    let plan = compile_lib(&source, &[&left, &right], &layout()).unwrap();
    assert_eq!(text(&plan.clear), "/p/target/lib");
    assert_eq!(plan.compile.pkg, "group/name");
    assert_eq!(text(&plan.compile.src), "/p/src");
    let deps: Vec<String> = plan.compile.deps.iter().map(text).collect();
    assert_eq!(deps, vec!["/cache/build/left", "/cache/build/right"]);
    let targets: Vec<String> = plan.compile.targets.iter().map(text).collect();
    assert_eq!(targets, vec!["src/Test.idr", "src/Data/List.idr"]);
    assert_eq!(text(&plan.compile.build), "/p/target/build/lib");
    assert_eq!(plan.moves.len(), 2);
    assert_eq!(text(&plan.moves[0].from), "/p/target/build/src/Test.ibc");
    assert_eq!(text(&plan.moves[0].dir), "/p/target/lib");
    assert_eq!(text(&plan.moves[0].to), "/p/target/lib/Test.ibc");
    assert_eq!(text(&plan.moves[1].from), "/p/target/build/src/Data/List.ibc");
    assert_eq!(text(&plan.moves[1].dir), "/p/target/lib/Data");
    assert_eq!(text(&plan.moves[1].to), "/p/target/lib/Data/List.ibc");
}

#[test]
fn library_can_be_in_the_package_root() {
    let source = source(lib("", &["Test"]), vec![], vec![]);
    let plan = compile_lib(&source, &[], &layout()).unwrap();
    assert_eq!(text(&plan.compile.src), "/p");
    assert_eq!(text(&plan.compile.targets[0]), "Test.idr");
    assert_eq!(text(&plan.moves[0].from), "/p/target/build/Test.ibc");
    assert_eq!(text(&plan.moves[0].to), "/p/target/lib/Test.ibc");
}

#[test]
fn package_without_a_library_is_not_compiled() {
    let source = source(None, vec![], vec![]);
    assert!(check_modules(&source, &layout()));
    let error = compile_lib(&source, &[], &layout()).unwrap_err();
    assert!(matches!(error, BuildError::NoLibTarget { .. }));
    assert_eq!(error.message(), "package group/name doesn't contain a lib target");
}

#[test]
fn modules_need_a_place_in_the_library() {
    for module in ["", ".", ".Test", "/Test"] {
        assert!(!check_modules(&source(lib("src", &[module]), vec![], vec![]), &layout()));
    }
    for module in ["Test", "Test.", "Data..List", "Data/List"] {
        assert!(check_modules(&source(lib("src", &[module]), vec![], vec![]), &layout()));
    }
}

#[test]
fn executable_is_compiled_and_generated() {
    let source = source(None, vec![bin("one", "a/One"), bin("two", "b/Two.x")], vec![]);
    assert!(check_main(&source, Target::Bin(1)));
    let dep = Binary::new(lock("/cache/build/dep"));
    let plan = compile_bin(&source, Target::Bin(1), &[&dep], &layout()).unwrap();
    assert_eq!(plan.compile.pkg, "group/name");
    assert_eq!(text(&plan.compile.src), "/p/b");
    assert_eq!(plan.compile.deps.len(), 1);
    assert_eq!(text(&plan.compile.deps[0]), "/cache/build/dep");
    assert_eq!(plan.compile.targets.len(), 1);
    assert_eq!(text(&plan.compile.targets[0]), "Two.idr");
    assert_eq!(text(&plan.compile.build), "/p/target/build/bin");
    assert_eq!(plan.codegen.pkg, "group/name");
    assert_eq!(text(&plan.codegen.binary), "/p/target/build/bin/Two.ibc");
    assert_eq!(plan.codegen.output, "two");
    assert_eq!(plan.codegen.backend, "c");
    assert_eq!(text(&plan.codegen.layout.build), "/p/target/build");
    assert_eq!(text(&plan.codegen.layout.lib), "/p/target/lib");
    assert!(!plan.codegen.is_artifact);
}

#[test]
fn main_module_is_found_in_its_directory() {
    let source = source(None, vec![bin("one", "a/One")], vec![]);
    let plan = compile_bin(&source, Target::Bin(0), &[], &layout()).unwrap();
    assert_eq!(text(&plan.compile.src.join(&plan.compile.targets[0])), "/p/a/One.idr");
}

#[test]
fn test_is_compiled_like_an_executable() {
    let source = source(None, vec![bin("one", "One")], vec![bin("check", "t/Check.idr")]);
    let plan = compile_bin(&source, Target::Test(0), &[], &layout()).unwrap();
    assert_eq!(plan.codegen.output, "check");
    assert_eq!(text(&plan.compile.src), "/p/t");
    assert_eq!(text(&plan.compile.targets[0]), "Check.idr");
}

#[test]
fn other_targets_are_not_executables() {
    let source = source(None, vec![], vec![]);
    for target in [Target::Lib, Target::Doc] {
        assert!(check_main(&source, target));
        let error = compile_bin(&source, target, &[], &layout()).unwrap_err();
        assert!(matches!(error, BuildError::NotBinary));
        assert_eq!(error.message(), "compile_bin called with non-binary target");
    }
}

#[test]
fn executables_need_to_be_declared_and_to_have_a_file() {
    let source = source(None, vec![bin("up", "a/../..")], vec![]);
    assert!(!check_main(&source, Target::Bin(0)));
    assert!(!check_main(&source, Target::Bin(1)));
    assert!(!check_main(&source, Target::Test(0)));
}

/// What the build of a library asks for, as long as `fail` steps have not been taken.
fn lib_steps(fail: usize) -> Vec<String> {
    let source = source(lib("src", &["Test", "Data.List"]), vec![], vec![]);
    let mut build = LibBuild::start(compile_lib(&source, &[], &layout()).unwrap());
    let mut steps = vec![];
    loop {
        let step = match build.action() {
            LibAction::Clear { dir } => format!("clear {}", text(dir)),
            LibAction::Compile(invocation) => format!("compile {}", text(&invocation.src)),
            LibAction::MakeDir { dir } => format!("make {}", text(dir)),
            LibAction::Move { from, to } => format!("move {} {}", text(from), text(to)),
            LibAction::Built => "built".to_string(),
            LibAction::Failed => "failed".to_string(),
        };
        let ended = step == "built" || step == "failed";
        steps.push(step);
        if ended {
            return steps;
        }
        build = build.step(steps.len() <= fail);
    }
}

#[test]
fn library_is_built_step_by_step() {
    let all = vec![
        "clear /p/target/lib",
        "compile /p/src",
        "make /p/target/lib",
        "move /p/target/build/src/Test.ibc /p/target/lib/Test.ibc",
        "make /p/target/lib/Data",
        "move /p/target/build/src/Data/List.ibc /p/target/lib/Data/List.ibc",
        "built",
    ];
    assert_eq!(lib_steps(6), all);
}

#[test]
fn first_failure_ends_the_build_of_a_library() {
    let all = lib_steps(6);
    for fail in 0..6 {
        let steps = lib_steps(fail);
        assert_eq!(steps[..fail + 1], all[..fail + 1]);
        assert_eq!(steps[fail + 1..], ["failed"]);
    }
}

#[test]
fn executable_is_built_step_by_step() {
    let source = source(None, vec![bin("one", "a/One")], vec![]);
    let start = || {
        let plan = compile_bin(&source, Target::Bin(0), &[], &layout()).unwrap();
        BinBuild::start(plan)
    };
    assert!(matches!(start().action(), BinAction::Compile(_)));
    assert!(matches!(start().step(false).action(), BinAction::Failed));
    assert!(matches!(start().step(false).step(true).action(), BinAction::Failed));
    assert!(matches!(start().step(true).action(), BinAction::Codegen(_)));
    assert!(matches!(start().step(true).step(false).action(), BinAction::Failed));
    assert!(matches!(start().step(true).step(true).action(), BinAction::Built));
    assert!(matches!(start().step(true).step(true).step(false).action(), BinAction::Built));
}
