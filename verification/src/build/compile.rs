//! What has to be done to compile libraries and executables.
use crate::build::target::Target;
use crate::package::{BinTarget, LibTarget};
use crate::path::FilePath;
use crate::retrieve::cache::{Binary, OutputLayout, Source};
use vstd::prelude::*;

verus! {

/// Why nothing can be compiled.
#[derive(Debug)]
pub enum BuildError {
    /// The package with this name has no library.
    NoLibTarget { package: String },
    /// The target is not an executable.
    NotBinary,
}

/// What is said of a package without a library.
pub open spec fn no_lib_text(package: Seq<char>) -> Seq<char> {
    "package "@ + package + " doesn't contain a lib target"@
}

impl BuildError {
    /// What is said of the error.
    pub fn message(&self) -> (message: String)
        ensures
            message@ == match *self {
                BuildError::NoLibTarget { package } => no_lib_text(package@),
                BuildError::NotBinary => "compile_bin called with non-binary target"@,
            },
            *self matches BuildError::NoLibTarget { package } ==> message@ == "package "@
                + package@ + " doesn't contain a lib target"@,
    {
        match self {
            BuildError::NoLibTarget { package } => {
                let mut message = "package ".to_owned();
                message.append(package.as_str());
                message.append(" doesn't contain a lib target");
                message
            },
            BuildError::NotBinary => "compile_bin called with non-binary target".to_owned(),
        }
    }
}

/// A call of the compiler.
#[derive(Debug)]
pub struct CompileInvocation {
    /// The name of the package.
    pub pkg: String,
    /// The directory of the sources.
    pub src: FilePath,
    /// The builds that the package depends on.
    pub deps: Vec<FilePath>,
    /// The files to compile.
    pub targets: Vec<FilePath>,
    /// The directory of the results.
    pub build: FilePath,
}

/// A call of the code generator.
#[derive(Debug)]
pub struct CodegenInvocation {
    /// The name of the package.
    pub pkg: String,
    /// What the compiler made of the main module.
    pub binary: FilePath,
    /// The name of the executable.
    pub output: String,
    /// The name of the code generator.
    pub backend: String,
    /// Where the executable goes.
    pub layout: OutputLayout,
    /// Whether the executable serves another build.
    pub is_artifact: bool,
}

/// A file that has to be moved.
#[derive(Debug)]
pub struct Move {
    /// Where it is.
    pub from: FilePath,
    /// The directory that it goes to, which may have to be created.
    pub dir: FilePath,
    /// Where it goes.
    pub to: FilePath,
}

/// What has to be done to compile a library: the directory is cleared, the compiler is called, and
/// the files are moved.
#[derive(Debug)]
pub struct LibPlan {
    pub clear: FilePath,
    pub compile: CompileInvocation,
    pub moves: Vec<Move>,
}

/// What has to be done to compile an executable: the compiler is called, then the code generator.
#[derive(Debug)]
pub struct BinPlan {
    pub compile: CompileInvocation,
    pub codegen: CodegenInvocation,
}

/// The extension of Idris files.
pub open spec fn idr() -> Seq<u8> {
    vstd::utf8::encode_utf8("idr"@)
}

/// A text with separators in place of its dots.
pub open spec fn undotted(text: Seq<u8>) -> Seq<u8> {
    text.map_values(
        |byte: u8|
            if byte == crate::path::DOT {
                crate::path::SEPARATOR
            } else {
                byte
            },
    )
}

/// The path of a module within a library, without an extension.
pub open spec fn path_of_module(module: Seq<char>) -> crate::path::PathModel {
    crate::path::path_of(undotted(vstd::utf8::encode_utf8(module)))
}

/// The file of a module of a library, relative to the package root.
pub open spec fn module_file(
    lib: crate::path::PathModel,
    module: Seq<char>,
) -> crate::path::PathModel {
    lib.join(path_of_module(module)).with_extension(idr())
}

/// What the compiler makes of a module, relative to the directory of the results.
pub open spec fn module_binary(
    lib: crate::path::PathModel,
    module: Seq<char>,
) -> crate::path::PathModel {
    module_file(lib, module).with_extension(crate::retrieve::cache::ibc())
}

/// Where what the compiler makes of a module goes: the library prefix is stripped.
pub open spec fn module_place(
    out: crate::path::PathModel,
    lib: crate::path::PathModel,
    module: Seq<char>,
) -> Option<crate::path::PathModel> {
    match module_binary(lib, module).strip_prefix(lib) {
        None => None,
        Some(rest) => Some(out.join(rest)),
    }
}

/// Whether there is a place for what the compiler makes of a module.
pub open spec fn has_place(
    out: crate::path::PathModel,
    lib: crate::path::PathModel,
    module: Seq<char>,
) -> bool {
    module_place(out, lib, module) matches Some(place) && !place.is_bare()
}

/// Whether there is a place for what the compiler makes of each module of a library.
pub open spec fn lib_has_places(lib: LibTarget, out: crate::path::PathModel) -> bool {
    forall|i: int|
        #![trigger lib.mods@[i]]
        0 <= i < lib.mods@.len() ==> has_place(out, lib.path@, lib.mods@[i]@)
}

/// Whether there is a place for what the compiler makes of each module of a source's library, if
/// it has one.
pub open spec fn modules_have_places(source: Source, layout: OutputLayout) -> bool {
    match source.meta.targets.lib {
        None => true,
        Some(lib) => lib_has_places(lib, layout.lib@),
    }
}

/// The extensions are not empty and hold neither a dot nor a separator.
proof fn lemma_extensions()
    ensures
        "idr"@.len() > 0,
        "ibc"@.len() > 0,
        idr() == seq![105u8, 100, 114],
        crate::retrieve::cache::ibc() == seq![105u8, 98, 99],
{
    reveal_strlit("idr");
    reveal_strlit("ibc");
    vstd::utf8::is_ascii_chars_encode_utf8("idr"@);
    vstd::utf8::is_ascii_chars_encode_utf8("ibc"@);
    assert(idr() =~= seq![105u8, 100, 114]);
    assert(crate::retrieve::cache::ibc() =~= seq![105u8, 98, 99]);
}

/// The file of a module, relative to the package root.
fn file_of_module(lib: &FilePath, module: &String) -> (file: FilePath)
    ensures
        file@ == module_file(lib@, module@),
        file@.well_formed(),
{
    let bytes = module.as_str().as_bytes();
    let mut text: Vec<u8> = Vec::new();
    let mut i: usize = 0;
    while i < bytes.len()
        invariant
            i <= bytes@.len(),
            text@ == undotted(bytes@).take(i as int),
        decreases bytes@.len() - i,
    {
        let byte = bytes[i];
        text.push(
            if byte == crate::path::DOT {
                crate::path::SEPARATOR
            } else {
                byte
            },
        );
        i = i + 1;
        assert(text@ =~= undotted(bytes@).take(i as int));
    }
    proof {
        assert(undotted(bytes@).take(i as int) =~= undotted(bytes@));
        lemma_extensions();
    }
    lib.join(&FilePath::parse(&text)).with_extension("idr")
}

/// The paths of builds.
pub open spec fn binary_views(deps: Seq<&Binary>) -> Seq<crate::path::PathModel> {
    deps.map_values(|binary: &Binary| binary@)
}

/// The paths of builds.
fn paths_of(deps: &[&Binary]) -> (paths: Vec<FilePath>)
    ensures
        crate::path::path_views(paths@) == binary_views(deps@),
        paths@.len() == deps@.len(),
        forall|i: int| 0 <= i < deps@.len() ==> (#[trigger] paths@[i])@ == deps@[i]@,
{
    let mut paths: Vec<FilePath> = Vec::new();
    let mut i: usize = 0;
    assert(crate::path::path_views(paths@) =~= binary_views(deps@).take(0));
    while i < deps.len()
        invariant
            i <= deps@.len(),
            crate::path::path_views(paths@) == binary_views(deps@).take(i as int),
            paths@.len() == i,
            forall|k: int| 0 <= k < i ==> (#[trigger] paths@[k])@ == deps@[k]@,
        decreases deps@.len() - i,
    {
        let ghost before = paths@;
        let path = deps[i].path().clone();
        paths.push(path);
        i = i + 1;
        assert(crate::path::path_views(paths@) =~= crate::path::path_views(before).push(path@));
        assert(crate::path::path_views(paths@) =~= binary_views(deps@).take(i as int));
    }
    assert(binary_views(deps@).take(i as int) =~= binary_views(deps@));
    paths
}

/// Whether a move is that of what the compiler makes of a module.
pub open spec fn is_move(
    moved: Move,
    layout: OutputLayout,
    lib: crate::path::PathModel,
    module: Seq<char>,
) -> bool {
    &&& moved.from@ == layout.build@.join(module_binary(lib, module))
    &&& module_place(layout.lib@, lib, module) == Some(moved.to@)
    &&& moved.to@.parent() == Some(moved.dir@)
}

/// Whether there is a place for what the compiler makes of each module of a source's library.
pub fn check_modules(source: &Source, layout: &OutputLayout) -> (fit: bool)
    ensures
        fit == modules_have_places(*source, *layout),
{
    match &source.meta.targets.lib {
        None => true,
        Some(lib) => {
            let mut i: usize = 0;
            while i < lib.mods.len()
                invariant
                    i <= lib.mods@.len(),
                    source.meta.targets.lib == Some(*lib),
                    forall|j: int|
                        #![trigger lib.mods@[j]]
                        0 <= j < i ==> has_place(layout.lib@, lib.path@, lib.mods@[j]@),
                decreases lib.mods@.len() - i,
            {
                let file = file_of_module(&lib.path, &lib.mods[i]);
                proof {
                    lemma_extensions();
                }
                let fits = match file.with_extension("ibc").strip_prefix(&lib.path) {
                    None => false,
                    Some(rest) => layout.lib.join(&rest).parent().is_some(),
                };
                if !fits {
                    assert(!has_place(layout.lib@, lib.path@, lib.mods@[i as int]@));
                    assert(!lib_has_places(*lib, layout.lib@));
                    return false;
                }
                i = i + 1;
            }
            true
        },
    }
}

/// What has to be done to compile the library of a package.
pub fn compile_lib(source: &Source, deps: &[&Binary], layout: &OutputLayout) -> (plan: Result<
    LibPlan,
    BuildError,
>)
    requires
        modules_have_places(*source, *layout),
    ensures
        match source.meta.targets.lib {
            None => plan matches Err(BuildError::NoLibTarget { package }) && package@
                == source.meta.name.text@,
            Some(lib) => {
                &&& plan matches Ok(plan)
                &&& plan.clear@ == layout.lib@
                &&& plan.compile.pkg@ == source.meta.name.text@
                &&& plan.compile.src@ == source.path@.join(lib.path@)
                &&& crate::path::path_views(plan.compile.deps@) == binary_views(deps@)
                &&& plan.compile.targets@.len() == lib.mods@.len()
                &&& forall|i: int|
                    0 <= i < lib.mods@.len() ==> (#[trigger] plan.compile.targets@[i])@
                        == module_file(lib.path@, lib.mods@[i]@)
                &&& plan.compile.build@ == crate::retrieve::cache::entry_of(
                    layout.build@,
                    "lib"@,
                )
                &&& plan.moves@.len() == lib.mods@.len()
                &&& forall|i: int|
                    0 <= i < lib.mods@.len() ==> is_move(
                        #[trigger] plan.moves@[i],
                        *layout,
                        lib.path@,
                        lib.mods@[i]@,
                    )
            },
        },
        plan matches Ok(plan) ==> plan.compile.deps@.len() == deps@.len() && forall|i: int|
            0 <= i < deps@.len() ==> (#[trigger] plan.compile.deps@[i])@ == deps@[i]@,
{
    match &source.meta.targets.lib {
        None => Err(BuildError::NoLibTarget { package: source.meta.name.text.clone() }),
        Some(lib) => {
            // We know that lib.path will be relative to the package root
            let src = source.path().join(&lib.path);
            let mut targets: Vec<FilePath> = Vec::new();
            let mut moves: Vec<Move> = Vec::new();
            let mut i: usize = 0;
            while i < lib.mods.len()
                invariant
                    i <= lib.mods@.len(),
                    lib_has_places(*lib, layout.lib@),
                    targets@.len() == i,
                    moves@.len() == i,
                    forall|j: int|
                        0 <= j < i ==> (#[trigger] targets@[j])@ == module_file(
                            lib.path@,
                            lib.mods@[j]@,
                        ),
                    forall|j: int|
                        0 <= j < i ==> is_move(
                            #[trigger] moves@[j],
                            *layout,
                            lib.path@,
                            lib.mods@[j]@,
                        ),
                decreases lib.mods@.len() - i,
            {
                let target = file_of_module(&lib.path, &lib.mods[i]);
                proof {
                    lemma_extensions();
                    assert(has_place(layout.lib@, lib.path@, lib.mods@[i as int]@));
                }
                // We strip the library prefix before copying: a binary is something like
                // src/Test.ibc, and build/src/Test.ibc goes to lib/Test.ibc
                let binary = target.with_extension("ibc");
                let from = layout.build.join(&binary);
                let to = layout.lib.join(&binary.strip_prefix(&lib.path).unwrap());
                let dir = to.parent().unwrap();
                targets.push(target);
                moves.push(Move { from, dir, to });
                i = i + 1;
            }
            let compile = CompileInvocation {
                pkg: source.meta.name.text.clone(),
                src,
                deps: paths_of(deps),
                targets,
                build: layout.build.child("lib"),
            };
            Ok(LibPlan { clear: layout.lib.clone(), compile, moves })
        },
    }
}

/// The executable that a target stands for.
pub open spec fn bin_target_of(source: Source, target: Target) -> Option<BinTarget> {
    match target {
        Target::Bin(ix) => Some(source.meta.targets.bin@[ix as int]),
        Target::Test(ix) => Some(source.meta.targets.test@[ix as int]),
        _ => None,
    }
}

/// Whether a source has the executable that a target stands for.
pub open spec fn has_target(source: Source, target: Target) -> bool {
    match target {
        Target::Bin(ix) => ix < source.meta.targets.bin@.len(),
        Target::Test(ix) => ix < source.meta.targets.test@.len(),
        _ => true,
    }
}

/// The file of the main module of an executable.
pub open spec fn main_file(source: Source, bin: BinTarget) -> crate::path::PathModel {
    source.path@.join(bin.main@).with_extension(idr())
}

/// The file of the main module, relative to its directory.
pub open spec fn main_name(source: Source, bin: BinTarget) -> crate::path::PathModel {
    crate::path::path_of(main_file(source, bin).file_name().unwrap())
}

/// Whether a source has the executable that a target stands for, and a file for its main module.
pub open spec fn has_main(source: Source, target: Target) -> bool {
    &&& has_target(source, target)
    &&& bin_target_of(source, target) matches Some(bin) ==> main_file(
        source,
        bin,
    ).file_name() is Some
}

/// The executable that a target stands for, if the target is one.
fn find_target<'a>(source: &'a Source, target: Target) -> (bin: Option<&'a BinTarget>)
    requires
        has_target(*source, target),
    ensures
        match bin {
            None => bin_target_of(*source, target) is None,
            Some(bin) => bin_target_of(*source, target) == Some(*bin),
        },
{
    match target {
        Target::Bin(ix) => Some(&source.meta.targets.bin[ix]),
        Target::Test(ix) => Some(&source.meta.targets.test[ix]),
        _ => None,
    }
}

/// Whether a source has the executable that a target stands for, and a file for its main module.
pub fn check_main(source: &Source, target: Target) -> (fit: bool)
    ensures
        fit == has_main(*source, target),
{
    let known = match target {
        Target::Bin(ix) => ix < source.meta.targets.bin.len(),
        Target::Test(ix) => ix < source.meta.targets.test.len(),
        _ => true,
    };
    if !known {
        return false;
    }
    match find_target(source, target) {
        None => true,
        Some(bin) => {
            proof {
                lemma_extensions();
            }
            source.path().join(&bin.main).with_extension("idr").file_name().is_some()
        },
    }
}

/// What has to be done to compile an executable of a package.
pub fn compile_bin(
    source: &Source,
    target: Target,
    deps: &[&Binary],
    layout: &OutputLayout,
) -> (plan: Result<BinPlan, BuildError>)
    requires
        has_main(*source, target),
    ensures
        match bin_target_of(*source, target) {
            None => plan matches Err(BuildError::NotBinary),
            Some(bin) => {
                let results = crate::retrieve::cache::entry_of(layout.build@, "bin"@);
                &&& plan matches Ok(plan)
                &&& plan.compile.pkg@ == source.meta.name.text@
                &&& main_file(*source, bin).parent() == Some(plan.compile.src@)
                &&& crate::path::path_views(plan.compile.deps@) == binary_views(deps@)
                &&& plan.compile.targets@.len() == 1
                &&& plan.compile.targets@[0]@ == main_name(*source, bin)
                &&& plan.compile.build@ == results
                &&& plan.codegen.pkg@ == source.meta.name.text@
                &&& plan.codegen.binary@ == results.join(
                    main_name(*source, bin).with_extension(crate::retrieve::cache::ibc()),
                )
                &&& plan.codegen.output@ == bin.name@
                &&& plan.codegen.backend@ == "c"@
                &&& plan.codegen.layout@ == layout@
                &&& !plan.codegen.is_artifact
            },
        },
        plan is Err <==> target is Lib || target is Doc,
        target is Bin || target is Test ==> {
            let bin = match target {
                Target::Test(ix) => source.meta.targets.test@[ix as int],
                Target::Bin(ix) => source.meta.targets.bin@[ix as int],
                _ => source.meta.targets.bin@[0],
            };
            let main = source.path@.join(bin.main@).with_extension(seq![105u8, 100, 114]);
            &&& plan matches Ok(plan)
            &&& plan.codegen.output@ == bin.name@
            &&& plan.compile.targets@.len() == 1
            &&& plan.compile.targets@[0]@.components.len() == 1
            &&& !plan.compile.targets@[0]@.absolute
            &&& plan.compile.src@.join(plan.compile.targets@[0]@) == main
            &&& plan.compile.build@ == layout.build@.join(
                crate::path::path_of(seq![98u8, 105, 110]),
            )
            &&& plan.codegen.binary@ == plan.compile.build@.join(
                plan.compile.targets@[0]@.with_extension(seq![105u8, 98, 99]),
            )
        },
        plan matches Ok(plan) ==> plan.compile.deps@.len() == deps@.len() && forall|i: int|
            0 <= i < deps@.len() ==> (#[trigger] plan.compile.deps@[i])@ == deps@[i]@,
{
    match find_target(source, target) {
        None => Err(BuildError::NotBinary),
        Some(bin) => {
            proof {
                lemma_extensions();
            }
            // This is the full target path
            let file = source.path().join(&bin.main).with_extension("idr");
            let src = file.parent().unwrap();
            // This is the relative target path
            let name = FilePath::parse(&file.file_name().unwrap());
            let results = layout.build.child("bin");
            let binary = results.join(&name.with_extension("ibc"));
            let mut targets: Vec<FilePath> = Vec::new();
            targets.push(name);
            let compile = CompileInvocation {
                pkg: source.meta.name.text.clone(),
                src,
                deps: paths_of(deps),
                targets,
                build: results,
            };
            proof {
                lemma_file_is_found(file@);
                lemma_bin_bytes();
            }
            // The output executable will always go in target/bin
            let codegen = CodegenInvocation {
                pkg: source.meta.name.text.clone(),
                binary,
                output: bin.name.clone(),
                backend: "c".to_owned(),
                layout: layout.clone(),
                is_artifact: false,
            };
            Ok(BinPlan { compile, codegen })
        },
    }
}

/// A name without dots is its own stem, with any extension.
proof fn lemma_stem_of_dotless(name: Seq<u8>, extension: Seq<u8>)
    requires
        !name.contains(crate::path::DOT),
        !extension.contains(crate::path::DOT),
        name.len() > 0,
    ensures
        crate::path::file_stem(name) == name,
        crate::path::file_stem(name.push(crate::path::DOT) + extension) == name,
    decreases extension.len(),
{
    crate::path::lemma_dotless(name);
    let whole = name.push(crate::path::DOT) + extension;
    if extension.len() == 0 {
        assert(whole =~= name.push(crate::path::DOT));
        assert(whole.take(name.len() as int) =~= name);
    } else {
        let shorter = extension.drop_last();
        assert(extension.contains(extension[extension.len() - 1]));
        assert(!shorter.contains(crate::path::DOT)) by {
            if shorter.contains(crate::path::DOT) {
                let k = choose|k: int| 0 <= k < shorter.len() && shorter[k] == crate::path::DOT;
                assert(extension[k] == crate::path::DOT);
            }
        }
        lemma_stem_of_dotless(name, shorter);
        crate::path::lemma_last_dot(name, extension);
        assert(whole.take(name.len() as int) =~= name);
    }
}

/// What follows the library prefix in what the compiler makes of a module: the parts of its name,
/// the last one with the extension.
pub open spec fn module_rest(module: Seq<char>) -> crate::path::PathModel {
    let parts = path_of_module(module).components;
    crate::path::PathModel {
        absolute: false,
        components: parts.drop_last().push(
            parts.last().push(crate::path::DOT) + crate::retrieve::cache::ibc(),
        ),
    }
}

/// What the compiler makes of a module goes into the library: the parts of the name of the module
/// become directories below it, whatever the directory of the sources is called. So there is a
/// place for every module whose name has a part and does not begin with a dot or a separator.
pub proof fn law_modules_go_into_the_library(
    out: crate::path::PathModel,
    lib: crate::path::PathModel,
    module: Seq<char>,
)
    requires
        !path_of_module(module).absolute,
        !path_of_module(module).is_bare(),
    ensures
        module_place(out, lib, module) == Some(out.join(module_rest(module))),
        has_place(out, lib, module),
        out.components.is_prefix_of(module_place(out, lib, module).unwrap().components),
{
    let text = undotted(vstd::utf8::encode_utf8(module));
    let path = path_of_module(module);
    let parts = path.components;
    let last = parts.last();
    lemma_extensions();
    crate::path::lemma_path_of_well_formed(text);
    assert(!text.contains(crate::path::DOT));
    assert forall|i: int| #![trigger parts[i]] 0 <= i < parts.len() implies !parts[i].contains(
        crate::path::DOT,
    ) by {
        crate::path::lemma_components_hold_no_other_byte(text, crate::path::DOT);
        assert(path.components[i] == parts[i]);
    }
    assert(last == parts[parts.len() - 1]);
    assert(last.len() > 0) by {
        assert(path.components[parts.len() - 1].len() > 0);
    }
    assert(crate::path::is_normal(last)) by {
        assert(crate::path::current_dir()[0] == crate::path::DOT);
        assert(crate::path::parent_dir()[0] == crate::path::DOT);
        assert(last.contains(last[0]));
    }
    assert(parts[0] != crate::path::current_dir()) by {
        assert(crate::path::current_dir()[0] == crate::path::DOT);
        assert(path.components[0].len() > 0);
        assert(parts[0].contains(parts[0][0]));
    }
    assert(!idr().contains(crate::path::DOT));
    assert(!crate::retrieve::cache::ibc().contains(crate::path::DOT));
    lemma_stem_of_dotless(last, idr());
    let joined = lib.join(path);
    assert(joined.components =~= lib.components + parts);
    let file = module_file(lib, module);
    let name = last.push(crate::path::DOT) + idr();
    assert(joined.components.last() == last);
    assert(file.components =~= joined.components.drop_last().push(name));
    assert(crate::path::is_normal(name)) by {
        assert(name.len() > 2);
    }
    let binary = module_binary(lib, module);
    let rest = module_rest(module);
    assert(binary.components =~= lib.components + rest.components);
    assert(binary.components.skip(lib.components.len() as int) =~= rest.components);
    assert(lib.components.is_prefix_of(binary.components)) by {
        assert(binary.components.take(lib.components.len() as int) =~= lib.components);
    }
    if lib.is_bare() && !lib.absolute {
        assert(binary.components =~= rest.components);
        assert(binary == rest);
    }
    let place = out.join(rest);
    assert(crate::path::without_current_dir(rest.components) == rest.components) by {
        if rest.components.len() == 1 {
            assert(rest.components[0].len() > 1);
        } else {
            assert(rest.components[0] == parts[0]);
        }
    }
    assert(place.components =~= out.components + rest.components);
    assert(place.components.take(out.components.len() as int) =~= out.components);
}

/// The directory of the sources and the name of the main module that the compiler is called with
/// make up the file of the main module.
pub proof fn law_main_is_found(source: Source, bin: BinTarget)
    requires
        source.path@.well_formed(),
        bin.main@.well_formed(),
        main_file(source, bin).file_name() is Some,
    ensures
        main_file(source, bin).parent().unwrap().join(main_name(source, bin)) == main_file(
            source,
            bin,
        ),
{
    let file = main_file(source, bin);
    let name = file.components.last();
    lemma_extensions();
    crate::path::lemma_join_well_formed(source.path@, bin.main@);
    crate::path::lemma_with_extension_well_formed(source.path@.join(bin.main@), idr());
    assert(file.components[file.components.len() - 1] == name);
    crate::path::lemma_path_of_name(name);
    assert(file.parent().unwrap().join(main_name(source, bin)).components =~= file.components);
}

/// The bytes of `bin`.
proof fn lemma_bin_bytes()
    ensures
        vstd::utf8::encode_utf8("bin"@) == seq![98u8, 105, 110],
{
    reveal_strlit("bin");
    vstd::utf8::is_ascii_chars_encode_utf8("bin"@);
    assert(vstd::utf8::encode_utf8("bin"@) =~= seq![98u8, 105, 110]);
}

/// A file is found again in its directory by its name.
proof fn lemma_file_is_found(file: crate::path::PathModel)
    requires
        file.well_formed(),
        file.file_name() is Some,
    ensures
        ({
            let name = crate::path::path_of(file.file_name().unwrap());
            &&& file.parent().unwrap().join(name) == file
            &&& name.components.len() == 1
            &&& !name.absolute
        }),
{
    let name = file.components.last();
    assert(file.components[file.components.len() - 1] == name);
    crate::path::lemma_path_of_name(name);
    assert(file.parent().unwrap().join(crate::path::path_of(name)).components
        =~= file.components);
}

/// The executable that a target stands for is the one at its index in the manifest's list, and
/// there is one if the index is below the length of that list.
pub proof fn law_targets_are_those_of_the_manifest(source: Source, ix: usize)
    ensures
        bin_target_of(source, Target::Bin(ix)) == Some(source.meta.targets.bin@[ix as int]),
        bin_target_of(source, Target::Test(ix)) == Some(source.meta.targets.test@[ix as int]),
        bin_target_of(source, Target::Lib) is None,
        bin_target_of(source, Target::Doc) is None,
        has_target(source, Target::Bin(ix)) <==> ix < source.meta.targets.bin@.len(),
        has_target(source, Target::Test(ix)) <==> ix < source.meta.targets.test@.len(),
        has_target(source, Target::Lib),
        has_target(source, Target::Doc),
{
}

/// An executable can be compiled if it is declared and the path of its main module, from the
/// package root and with the extension of Idris files, has a file name.
pub proof fn law_declared_executables_can_be_compiled(source: Source, ix: usize)
    ensures
        ({
            let named = |bin: BinTarget|
                source.path@.join(bin.main@).with_extension(
                    seq![105u8, 100, 114],
                ).file_name() is Some;
            let bins = source.meta.targets.bin@;
            let tests = source.meta.targets.test@;
            &&& has_main(source, Target::Bin(ix)) <==> ix < bins.len() && named(bins[ix as int])
            &&& has_main(source, Target::Test(ix)) <==> ix < tests.len() && named(tests[ix as int])
            &&& has_main(source, Target::Lib)
            &&& has_main(source, Target::Doc)
        }),
{
    lemma_extensions();
}

/// The file of a main module is that of its path from the package root, with the extension of
/// Idris files, and its name is the last component of that.
pub proof fn law_main_module_is_that_of_the_manifest(source: Source, bin: BinTarget)
    ensures
        main_file(source, bin) == source.path@.join(bin.main@).with_extension(
            seq![105u8, 100, 114],
        ),
        main_file(source, bin).file_name() is Some ==> main_name(source, bin)
            == crate::path::path_of(main_file(source, bin).components.last()),
{
    lemma_extensions();
}

/// Texts without dots stay as they are, and a dot becomes a separator, wherever it stands.
proof fn lemma_undotted(left: Seq<u8>, right: Seq<u8>)
    requires
        !right.contains(crate::path::DOT),
    ensures
        undotted(left.push(crate::path::DOT) + right) == undotted(left).push(
            crate::path::SEPARATOR,
        ) + right,
        undotted(right) == right,
{
    assert forall|i: int| 0 <= i < right.len() implies #[trigger] right[i] != crate::path::DOT by {
        assert(right.contains(right[i]));
    }
    assert(undotted(right) =~= right);
    assert(undotted(left.push(crate::path::DOT) + right) =~= undotted(left).push(
        crate::path::SEPARATOR,
    ) + right);
}

/// The name of a module is read part by part: what follows its last dot is one more component of
/// its path, and a name without dots is its own component. Every dot counts.
pub proof fn law_module_is_read_part_by_part(name: Seq<char>, part: Seq<char>)
    requires
        vstd::utf8::encode_utf8(part).len() > 0,
        !vstd::utf8::encode_utf8(part).contains(crate::path::DOT),
        !vstd::utf8::encode_utf8(part).contains(crate::path::SEPARATOR),
    ensures
        path_of_module(part) == (crate::path::PathModel {
            absolute: false,
            components: seq![vstd::utf8::encode_utf8(part)],
        }),
        path_of_module(name + seq!['.'] + part).components == path_of_module(
            name,
        ).components.push(vstd::utf8::encode_utf8(part)),
        vstd::utf8::encode_utf8(name).len() > 0 ==> path_of_module(
            name + seq!['.'] + part,
        ).absolute == path_of_module(name).absolute,
{
    let bytes = vstd::utf8::encode_utf8(name);
    let last = vstd::utf8::encode_utf8(part);
    let dot = seq!['.'];
    vstd::utf8::is_ascii_chars_encode_utf8(dot);
    assert(vstd::utf8::encode_utf8(dot) =~= seq![crate::path::DOT]);
    crate::retrieve::cache::lemma_encode_sum(name, dot);
    crate::retrieve::cache::lemma_encode_sum(name + dot, part);
    assert(vstd::utf8::encode_utf8(name + dot + part) =~= bytes.push(crate::path::DOT) + last);
    lemma_undotted(bytes, last);
    assert(last != seq![crate::path::DOT]) by {
        assert(last.contains(last[0]));
    }
    crate::path::law_text_is_read_piece_by_piece(undotted(bytes), last);
}

/// Parts of a name, with a dot between any two.
pub open spec fn dotted_name(parts: Seq<Seq<char>>) -> Seq<char>
    decreases parts.len(),
{
    if parts.len() == 0 {
        Seq::empty()
    } else if parts.len() == 1 {
        parts[0]
    } else {
        dotted_name(parts.drop_last()) + seq!['.'] + parts.last()
    }
}

/// The path of a module whose name has some parts, each not empty and without dots and separators,
/// is relative and has exactly the parts as its components, however many there are.
pub proof fn law_module_path_has_its_parts(parts: Seq<Seq<char>>)
    requires
        parts.len() > 0,
        forall|i: int| #![trigger parts[i]]
            0 <= i < parts.len() ==> {
                &&& vstd::utf8::encode_utf8(parts[i]).len() > 0
                &&& !vstd::utf8::encode_utf8(parts[i]).contains(crate::path::DOT)
                &&& !vstd::utf8::encode_utf8(parts[i]).contains(crate::path::SEPARATOR)
            },
    ensures
        path_of_module(dotted_name(parts)) == (crate::path::PathModel {
            absolute: false,
            components: parts.map_values(|part: Seq<char>| vstd::utf8::encode_utf8(part)),
        }),
        vstd::utf8::encode_utf8(dotted_name(parts)).len() > 0,
    decreases parts.len(),
{
    let last = parts.last();
    let components = parts.map_values(|part: Seq<char>| vstd::utf8::encode_utf8(part));
    assert(last == parts[parts.len() - 1]);
    if parts.len() == 1 {
        law_module_is_read_part_by_part(last, last);
        assert(components =~= seq![vstd::utf8::encode_utf8(last)]);
    } else {
        let before = parts.drop_last();
        let name = dotted_name(before);
        assert forall|i: int| #![trigger before[i]] 0 <= i < before.len() implies {
            &&& vstd::utf8::encode_utf8(before[i]).len() > 0
            &&& !vstd::utf8::encode_utf8(before[i]).contains(crate::path::DOT)
            &&& !vstd::utf8::encode_utf8(before[i]).contains(crate::path::SEPARATOR)
        } by {
            assert(before[i] == parts[i]);
        }
        law_module_path_has_its_parts(before);
        law_module_is_read_part_by_part(name, last);
        crate::retrieve::cache::lemma_encode_sum(name + seq!['.'], last);
        assert(components =~= before.map_values(
            |part: Seq<char>| vstd::utf8::encode_utf8(part),
        ).push(vstd::utf8::encode_utf8(last)));
    }
}

/// Where the files of a module are: its source below the directory of the library's sources, what
/// the compiler makes of it at the same place below the directory of the results, and from there it
/// goes to the same place below the library, without the directory of the sources.
pub proof fn law_module_is_compiled_and_moved(
    out: crate::path::PathModel,
    lib: crate::path::PathModel,
    module: Seq<char>,
    parents: Seq<Seq<u8>>,
    last: Seq<u8>,
)
    requires
        path_of_module(module) == (crate::path::PathModel {
            absolute: false,
            components: parents.push(last),
        }),
    ensures
        ({
            let source = last + seq![46u8, 105, 100, 114];
            let binary = last + seq![46u8, 105, 98, 99];
            &&& module_file(lib, module) == crate::path::PathModel {
                absolute: lib.absolute,
                components: lib.components + parents.push(source),
            }
            &&& module_binary(lib, module) == crate::path::PathModel {
                absolute: lib.absolute,
                components: lib.components + parents.push(binary),
            }
            &&& module_place(out, lib, module) == Some(
                crate::path::PathModel {
                    absolute: out.absolute,
                    components: out.components + parents.push(binary),
                },
            )
            &&& has_place(out, lib, module)
        }),
{
    let text = undotted(vstd::utf8::encode_utf8(module));
    let path = path_of_module(module);
    let parts = path.components;
    let none = Seq::<u8>::empty();
    lemma_extensions();
    law_modules_go_into_the_library(out, lib, module);
    crate::path::lemma_path_of_well_formed(text);
    assert(!text.contains(crate::path::DOT));
    crate::path::lemma_components_hold_no_other_byte(text, crate::path::DOT);
    assert(parts[parts.len() - 1] == last);
    assert(parts[0] != crate::path::current_dir()) by {
        assert(path.components[0].len() > 0);
        assert(parts[0].contains(parts[0][0]));
        assert(crate::path::current_dir()[0] == crate::path::DOT);
    }
    assert(last.len() > 0 && !last.contains(crate::path::DOT)) by {
        assert(path.components[parts.len() - 1].len() > 0);
    }
    let joined = lib.join(path);
    let before = lib.components + parents;
    assert(joined.components =~= before.push(last));
    assert(joined.absolute == lib.absolute);
    crate::path::law_extension_is_added(lib.absolute, before, false, last, idr());
    let source = last + seq![46u8, 105, 100, 114];
    let binary = last + seq![46u8, 105, 98, 99];
    assert(last.push(crate::path::DOT) + idr() =~= source);
    assert(module_file(lib, module).components =~= lib.components + parents.push(source));
    assert(!idr().contains(crate::path::DOT));
    assert(source.len() > 2);
    crate::path::law_extension_is_replaced(
        lib.absolute,
        before,
        last,
        idr(),
        crate::retrieve::cache::ibc(),
    );
    assert(last.push(crate::path::DOT) + crate::retrieve::cache::ibc() =~= binary);
    assert(lib.components + parents.push(source) =~= before.push(source));
    assert(module_binary(lib, module).components =~= lib.components + parents.push(binary));
    let rest = module_rest(module);
    assert(parts.drop_last() =~= parents);
    assert(rest.components =~= parents.push(binary));
    crate::path::law_join_appends(out, rest);
    assert(rest.components[0] != seq![crate::path::DOT]) by {
        if parents.len() > 0 {
            assert(rest.components[0] == parts[0]);
        } else {
            assert(rest.components[0].len() > 1);
        }
    }
    assert(out.join(rest).components =~= out.components + parents.push(binary));
}

/// A move takes what the compiler makes of a module from its place below the directory of the
/// results to its place below the library, whose directory is made for it.
pub proof fn law_moves_are_those_of_the_modules(
    moved: Move,
    layout: OutputLayout,
    lib: crate::path::PathModel,
    module: Seq<char>,
    parents: Seq<Seq<u8>>,
    last: Seq<u8>,
)
    requires
        is_move(moved, layout, lib, module),
        path_of_module(module) == (crate::path::PathModel {
            absolute: false,
            components: parents.push(last),
        }),
    ensures
        moved.from@ == layout.build@.join(
            crate::path::PathModel {
                absolute: lib.absolute,
                components: lib.components + parents.push(last + seq![46u8, 105, 98, 99]),
            },
        ),
        moved.to@ == (crate::path::PathModel {
            absolute: layout.lib@.absolute,
            components: layout.lib@.components + parents.push(last + seq![46u8, 105, 98, 99]),
        }),
        moved.dir@ == (crate::path::PathModel {
            absolute: layout.lib@.absolute,
            components: layout.lib@.components + parents,
        }),
{
    let binary = last + seq![46u8, 105, 98, 99];
    law_module_is_compiled_and_moved(layout.lib@, lib, module, parents, last);
    assert(layout.lib@.components + parents.push(binary) =~= (layout.lib@.components
        + parents).push(binary));
    crate::path::law_parent_and_name(moved.to@, layout.lib@.components + parents, binary);
}

/// A library can be compiled if every module has a relative path with a component.
pub proof fn law_modules_with_names_have_places(source: Source, layout: OutputLayout)
    requires
        source.meta.targets.lib matches Some(lib) ==> forall|i: int|
            #![trigger lib.mods@[i]]
            0 <= i < lib.mods@.len() ==> !path_of_module(lib.mods@[i]@).absolute
                && path_of_module(lib.mods@[i]@).components.len() > 0,
    ensures
        modules_have_places(source, layout),
{
    if let Some(lib) = source.meta.targets.lib {
        assert forall|i: int|
            #![trigger lib.mods@[i]]
            0 <= i < lib.mods@.len() implies has_place(
            layout.lib@,
            lib.path@,
            lib.mods@[i]@,
        ) by {
            law_modules_go_into_the_library(layout.lib@, lib.path@, lib.mods@[i]@);
        }
    }
}

/// The paths of builds are those of the builds, one for one.
pub proof fn law_binary_views_are_one_for_one(deps: Seq<&Binary>, i: int)
    ensures
        binary_views(deps).len() == deps.len(),
        0 <= i < deps.len() ==> binary_views(deps)[i] == deps[i]@,
{
}

/// The path of any module is what its name is read as with a separator in place of every dot, and
/// every other byte as it is.
pub proof fn law_every_dot_separates(module: Seq<char>, text: Seq<u8>)
    requires
        text.len() == vstd::utf8::encode_utf8(module).len(),
        forall|i: int|
            0 <= i < text.len() ==> #[trigger] text[i] == if vstd::utf8::encode_utf8(module)[i]
                == 46 {
                47u8
            } else {
                vstd::utf8::encode_utf8(module)[i]
            },
    ensures
        path_of_module(module) == crate::path::path_of(text),
{
    assert(undotted(vstd::utf8::encode_utf8(module)) =~= text);
}

/// The files of any module: its source is at its path from the directory of the library's sources,
/// and what the compiler makes of it is moved from the same place, with another extension, to where
/// it is without that directory.
pub proof fn law_files_follow_the_module(
    moved: Move,
    layout: OutputLayout,
    lib: crate::path::PathModel,
    module: Seq<char>,
)
    ensures
        ({
            let source = lib.join(path_of_module(module)).with_extension(seq![105u8, 100, 114]);
            let binary = source.with_extension(seq![105u8, 98, 99]);
            let rest = binary.strip_prefix(lib);
            &&& module_file(lib, module) == source
            &&& module_binary(lib, module) == binary
            &&& rest is None ==> module_place(layout.lib@, lib, module) is None
            &&& rest is Some ==> module_place(layout.lib@, lib, module) == Some(
                layout.lib@.join(rest.unwrap()),
            )
            &&& is_move(moved, layout, lib, module) <==> rest is Some && moved.from@
                == layout.build@.join(binary) && moved.to@ == layout.lib@.join(rest.unwrap())
                && moved.to@.parent() == Some(moved.dir@)
            &&& has_place(layout.lib@, lib, module) <==> rest is Some && layout.lib@.join(
                rest.unwrap(),
            ).components.len() > 0
        }),
{
    lemma_extensions();
}

/// A library can be compiled exactly if each of its modules has a place.
pub proof fn law_every_module_needs_a_place(source: Source, lib: LibTarget, layout: OutputLayout)
    requires
        source.meta.targets.lib == Some(lib),
    ensures
        modules_have_places(source, layout) <==> forall|i: int|
            #![trigger lib.mods@[i]]
            0 <= i < lib.mods@.len() ==> has_place(layout.lib@, lib.path@, lib.mods@[i]@),
{
}

} // verus!
