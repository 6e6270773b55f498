//! Caching packages which have been downloaded before.
//!
//! There is a clear separation between storing package metadata from remote sources (handled
//! strictly by indices) and caching the packages themselves locally (which is handled by the
//! `Cache` struct). The cache determines if a package has already been retrieved, and coordinates
//! cached package downloads: whenever a package is about to be downloaded, the cache is there to
//! see if it really needs to be downloaded.
//!
//! Every package gets a directory according to its name and where it comes from, which is how the
//! cache knows what packages are available. Git repos are cloned into the cache, and local dir
//! dependencies are linked into it.
//!
//! What is in the cache is taken as it is: its contents are not checked against checksums, and a
//! repository that is there is not brought up to date.
use crate::package::{DirectRes, Manifest, Name, PackageId, Version};
use crate::path::FilePath;
use crate::resolve::SourceSolve;
use crate::retrieve::checkout::{BuildCheckout, SourceCheckout};
use crate::retrieve::indices::IndexWalk;
use crate::retrieve::load::{Check, Fill, Load};
use crate::util::hash::{hex_digest, hexify_hash};
use crate::util::lock::DirLock;
use vstd::prelude::*;

verus! {

/// The entry `name` of a directory.
pub open spec fn entry_of(dir: crate::path::PathModel, name: Seq<char>) -> crate::path::PathModel {
    dir.join(crate::path::path_of(vstd::utf8::encode_utf8(name)))
}

/// The bytes that the directory of a source is told by: its name and where it comes from, and, for
/// a tarball, its version.
pub open spec fn source_message(
    name: crate::package::NameModel,
    loc: crate::package::ResModel,
    version: Option<crate::package::VersionModel>,
) -> Seq<u8> {
    vstd::utf8::encode_utf8(name.text) + vstd::utf8::encode_utf8(loc.text()) + match version {
        Some(version) if loc is Tar => vstd::utf8::encode_utf8(
            crate::package::version_text(version),
        ),
        _ => Seq::empty(),
    }
}

/// The name of a directory with the digest `digest`: `group_name-digest`.
pub open spec fn source_dir_name_of(
    name: crate::package::NameModel,
    digest: Seq<u8>,
) -> Seq<char> {
    name.group.push('_') + name.name.push('-') + crate::util::hash::hex_of(digest)
}

/// The name of the directory of a source.
pub open spec fn source_dir_of(
    name: crate::package::NameModel,
    loc: crate::package::ResModel,
    version: Option<crate::package::VersionModel>,
) -> Seq<char> {
    source_dir_name_of(name, crate::util::hash::sha256(source_message(name, loc, version)))
}

/// The directory of a source in a cache.
pub open spec fn source_path_of(
    cache: crate::path::PathModel,
    name: crate::package::NameModel,
    loc: crate::package::ResModel,
    version: Option<crate::package::VersionModel>,
) -> crate::path::PathModel {
    entry_of(entry_of(cache, "src"@), source_dir_of(name, loc, version))
}

/// What is known of a source: a local directory is where it is, with a link to it in the cache,
/// and everything else may be in the cache.
pub open spec fn source_check_of(
    cache: crate::path::PathModel,
    name: crate::package::NameModel,
    loc: crate::package::ResModel,
    version: Option<crate::package::VersionModel>,
) -> crate::retrieve::load::CheckModel {
    match loc {
        crate::package::ResModel::Dir { url, text } => crate::retrieve::load::CheckModel::Found {
            path: url,
            link: source_path_of(cache, name, loc, version),
        },
        _ => crate::retrieve::load::CheckModel::Probe(source_path_of(cache, name, loc, version)),
    }
}

/// The name of the directory of a build.
pub open spec fn build_dir_of(graph: SourceSolve, root: Seq<char>) -> Seq<char> {
    crate::util::hash::hex_digest_of(
        crate::resolve::bytes_of_all(crate::resolve::build_hashes(graph, root)),
    )
}

/// The directory of a build in a cache.
pub open spec fn build_path_of(
    cache: crate::path::PathModel,
    graph: SourceSolve,
    root: Seq<char>,
) -> crate::path::PathModel {
    entry_of(entry_of(cache, "build"@), build_dir_of(graph, root))
}

/// The name of the directory of an index.
pub open spec fn index_dir_of(loc: crate::package::ResModel) -> Seq<char> {
    crate::util::hash::hex_digest_of(vstd::utf8::encode_utf8(loc.text()))
}

/// The directory of an index: its own where it is a local one, and one of the cache otherwise.
pub open spec fn index_path_of(
    cache: crate::path::PathModel,
    loc: crate::package::ResModel,
) -> crate::path::PathModel {
    match loc {
        crate::package::ResModel::Dir { url, text } => url,
        _ => entry_of(entry_of(cache, "indices"@), index_dir_of(loc)),
    }
}

/// What an optional version is.
pub open spec fn version_of(version: Option<&Version>) -> Option<crate::package::VersionModel> {
    match version {
        None => None,
        Some(version) => Some(version@),
    }
}

/// A Cache of downloaded packages and packages with no other Index.
///
/// A Cache is located in a directory, and it has directories of its own:
/// - `src/`: the cache of downloaded packages, in full source form.
/// - `build/`: the cache of built packages.
/// - `indices/`: the cache of indices.
///
/// The src and build folders contain one folder for every package on disk.
#[derive(Debug)]
pub struct Cache {
    location: FilePath,
}

impl View for Cache {
    type V = crate::path::PathModel;

    /// Where the cache is.
    closed spec fn view(&self) -> crate::path::PathModel {
        self.location@
    }
}

impl Clone for Cache {
    fn clone(&self) -> (copy: Self)
        ensures
            copy@ == self@,
    {
        Cache { location: self.location.clone() }
    }
}

impl Cache {
    /// The cache at a place. Its `directories` have to be there.
    pub fn from_disk(location: FilePath) -> (cache: Cache)
        ensures
            cache@ == location@,
    {
        Cache { location }
    }

    /// Where the cache is.
    pub fn location(&self) -> (location: &FilePath)
        ensures
            location@ == self@,
    {
        &self.location
    }

    /// The directories that a cache has.
    pub fn directories(&self) -> (directories: Vec<FilePath>)
        ensures
            directories@.len() == 3,
            directories@[0]@ == entry_of(self@, "src"@),
            directories@[1]@ == entry_of(self@, "build"@),
            directories@[2]@ == entry_of(self@, "indices"@),
    {
        let mut directories: Vec<FilePath> = Vec::new();
        directories.push(self.location.child("src"));
        directories.push(self.location.child("build"));
        directories.push(self.location.child("indices"));
        directories
    }

    /// Retrieves the metadata of a package, loading it into the cache if necessary.
    pub fn checkout_source(
        &self,
        pkg: &PackageId,
        loc: &DirectRes,
        v: Option<&Version>,
    ) -> (checkout: SourceCheckout)
        ensures
            checkout@ == crate::retrieve::checkout::source_start(
                pkg.name@,
                loc@,
                crate::retrieve::load::load_start(
                    source_check_of(self@, pkg.name@, loc@, version_of(v)),
                    crate::retrieve::load::FillModel::Retrieve(loc@),
                ),
            ),
    {
        let load = self.load_source(pkg, loc, v);
        SourceCheckout::start(pkg.name.clone(), loc.clone(), load)
    }

    /// Loads a package that is downloaded (and potentially extracted, if it's a tarball).
    ///
    /// If the package has been cached, nothing is retrieved. If it hasn't, it is retrieved from
    /// wherever it comes from. A local directory is linked into the cache.
    pub fn load_source(&self, pkg: &PackageId, loc: &DirectRes, v: Option<&Version>) -> (load: Load)
        ensures
            load@ == crate::retrieve::load::load_start(
                source_check_of(self@, pkg.name@, loc@, version_of(v)),
                crate::retrieve::load::FillModel::Retrieve(loc@),
            ),
    {
        let check = self.check_source(&pkg.name, loc, v);
        Load::start(check, Fill::Retrieve(loc.clone()))
    }

    /// Checks if a package is downloaded and in the cache.
    pub fn check_source(&self, name: &Name, loc: &DirectRes, v: Option<&Version>) -> (check: Check)
        ensures
            check@ == source_check_of(self@, name@, loc@, version_of(v)),
    {
        let dir = Cache::get_source_dir(name, loc, v);
        let path = self.location.child("src").child(dir.as_str());
        if let DirectRes::Dir { url, text: _ } = loc {
            return Check::Found { path: url.clone(), link: path };
        }
        Check::Probe(path)
    }

    /// Gets the corresponding directory of a package. We need this because for packages which have
    /// no associated version (i.e. git and local dependencies, where the constraints are inherent
    /// in the resolution itself), we ignore a version specifier.
    ///
    /// Note: with regard to git repos, we treat the same repo with different checked out commits/
    /// tags as completely different repos.
    pub fn get_source_dir(name: &Name, loc: &DirectRes, v: Option<&Version>) -> (dir: String)
        ensures
            dir@ == source_dir_of(name@, loc@, version_of(v)),
    {
        let message = Cache::source_message(name, loc, v);
        let digest = crate::util::hash::sha256_digest(&message);
        Cache::source_dir_name(name, &digest)
    }

    /// The bytes that the directory of a source is told by.
    pub fn source_message(name: &Name, loc: &DirectRes, v: Option<&Version>) -> (message: Vec<u8>)
        ensures
            message@ == source_message(name@, loc@, version_of(v)),
    {
        let mut message: Vec<u8> = Vec::new();
        crate::path::append_bytes(&mut message, name.as_bytes());
        crate::path::append_bytes(&mut message, loc.text().as_str().as_bytes());
        if let Some(v) = v {
            // We only care about the version of the package at this source directory if it came
            // from a tarball
            if let DirectRes::Tar { text: _ } = loc {
                let version = v.text();
                crate::path::append_bytes(&mut message, version.as_str().as_bytes());
            }
        }
        assert(message@ =~= source_message(name@, loc@, version_of(v)));
        message
    }

    /// The name of the directory of a source with a digest.
    pub fn source_dir_name(name: &Name, digest: &[u8]) -> (dir: String)
        ensures
            dir@ == source_dir_name_of(name@, digest@),
    {
        let hash = hexify_hash(digest);
        let mut dir = name.group.clone();
        dir.append("_");
        dir.append(name.name.as_str());
        dir.append("-");
        dir.append(hash.as_str());
        proof {
            reveal_strlit("_");
            reveal_strlit("-");
            assert(dir@ =~= source_dir_name_of(name@, digest@));
        }
        dir
    }

    /// Loads the build of a package with everything that it depends on, if its source is in the
    /// graph.
    pub fn try_checkout_build(&self, root: &Source, graph: &SourceSolve) -> (checkout: Option<
        BuildCheckout,
    >)
        ensures
            checkout is Some <==> crate::resolve::graph_hashes(*graph).contains(root.hash@),
            checkout matches Some(checkout) ==> checkout@ == crate::retrieve::load::load_start(
                crate::retrieve::load::CheckModel::Probe(
                    build_path_of(self@, *graph, root.hash@),
                ),
                crate::retrieve::load::FillModel::Copy(root.path@),
            ),
    {
        match crate::resolve::find_source(root, graph) {
            None => None,
            Some(_) => Some(self.checkout_build(root, graph)),
        }
    }

    /// Loads the build of a package with everything that it depends on.
    pub fn checkout_build(&self, root: &Source, graph: &SourceSolve) -> (checkout: BuildCheckout)
        requires
            crate::resolve::graph_hashes(*graph).contains(root.hash@),
        ensures
            checkout@ == crate::retrieve::load::load_start(
                crate::retrieve::load::CheckModel::Probe(
                    build_path_of(self@, *graph, root.hash@),
                ),
                crate::retrieve::load::FillModel::Copy(root.path@),
            ),
    {
        BuildCheckout::start(self.load_build(root, graph))
    }

    /// Acquires a lock on a build directory, copying the files from the source if needed.
    pub fn load_build(&self, root: &Source, graph: &SourceSolve) -> (load: Load)
        requires
            crate::resolve::graph_hashes(*graph).contains(root.hash@),
        ensures
            load@ == crate::retrieve::load::load_start(
                crate::retrieve::load::CheckModel::Probe(
                    build_path_of(self@, *graph, root.hash@),
                ),
                crate::retrieve::load::FillModel::Copy(root.path@),
            ),
    {
        let check = self.check_build(root, graph);
        Load::start(check, Fill::Copy(root.path.path().clone()))
    }

    /// Checks if a build is in the cache.
    pub fn check_build(&self, root: &Source, graph: &SourceSolve) -> (check: Check)
        requires
            crate::resolve::graph_hashes(*graph).contains(root.hash@),
        ensures
            check@ == crate::retrieve::load::CheckModel::Probe(
                build_path_of(self@, *graph, root.hash@),
            ),
    {
        let dir = Cache::get_build_dir(root, graph);
        Check::Probe(self.location.child("build").child(dir.as_str()))
    }

    /// Gets the directory of a build, which the hashes of the package and of everything that it
    /// depends on determine.
    pub fn get_build_dir(root: &Source, graph: &SourceSolve) -> (dir: String)
        requires
            crate::resolve::graph_hashes(*graph).contains(root.hash@),
        ensures
            dir@ == build_dir_of(*graph, root.hash@),
            crate::util::hash::is_digest(dir@),
            crate::resolve::is_graph(*graph),
            crate::resolve::is_built_from_graph(*graph, root.hash@),
    {
        let bytes = crate::resolve::build_bytes(root, graph);
        hex_digest(&bytes)
    }

    /// Gets the directory of an index that is not a local one.
    pub fn get_index_dir(loc: &DirectRes) -> (dir: String)
        ensures
            dir@ == index_dir_of(loc@),
            crate::util::hash::is_digest(dir@),
    {
        hex_digest(loc.text().as_str().as_bytes())
    }

    /// The directory of an index.
    pub fn index_path(&self, loc: &DirectRes) -> (path: FilePath)
        ensures
            path@ == index_path_of(self@, loc@),
    {
        // We special-case a local dir index because the cache holds no directory for it.
        if let DirectRes::Dir { url, text: _ } = loc {
            return url.clone();
        }
        let dir = Cache::get_index_dir(loc);
        self.location.child("indices").child(dir.as_str())
    }

    /// Gets indices, and the indices that they depend on.
    pub fn get_indices(&self, index_reses: &[DirectRes]) -> (walk: IndexWalk)
        ensures
            walk@ == crate::retrieve::indices::walk_start(
                self@,
                crate::retrieve::indices::res_views(index_reses@),
            ),
    {
        IndexWalk::start(self.clone(), index_reses)
    }
}

/// Information about the source of package that is available somewhere in the file system.
/// Packages are stored as directories on disk (not archives because it would just be a bunch of
/// pointless unpacking-repacking).
#[derive(Debug)]
pub struct Source {
    /// The package's manifest
    pub meta: Manifest,
    pub location: DirectRes,
    /// The path to the package.
    pub path: DirLock,
    pub hash: String,
}

/// What a source is.
pub struct SourceModel {
    pub meta: Manifest,
    pub location: crate::package::ResModel,
    pub path: crate::path::PathModel,
    pub hash: Seq<char>,
}

impl View for Source {
    type V = SourceModel;

    open spec fn view(&self) -> SourceModel {
        SourceModel {
            meta: self.meta,
            location: self.location@,
            path: self.path@,
            hash: self.hash@,
        }
    }
}

/// The file that the contents of a package are packed into to hash them.
pub open spec fn tarball_of(path: crate::path::PathModel) -> crate::path::PathModel {
    path.with_extension(vstd::utf8::encode_utf8("tar"@))
}

/// The extension of what the compiler makes of a module.
pub open spec fn ibc() -> Seq<u8> {
    vstd::utf8::encode_utf8("ibc"@)
}

/// The files of a package that are packed to hash them: all but stray ibc files, which the compiler
/// can make again.
pub open spec fn packed_of(files: Seq<crate::path::PathModel>) -> Seq<crate::path::PathModel>
    decreases files.len(),
{
    if files.len() == 0 {
        Seq::empty()
    } else {
        let before = packed_of(files.drop_last());
        if files.last().has_extension(ibc()) {
            before
        } else {
            before.push(files.last())
        }
    }
}

/// What is known of a package whose contents were packed into a tarball.
pub open spec fn source_of(
    meta: Manifest,
    location: crate::package::ResModel,
    path: crate::path::PathModel,
    tarball: Seq<u8>,
) -> SourceModel {
    SourceModel { meta, location, path, hash: crate::util::hash::hex_digest_of(tarball) }
}

impl Source {
    /// The file that the contents of a package are packed into to hash them.
    pub fn tarball(path: &DirLock) -> (file: FilePath)
        ensures
            file@ == tarball_of(path@),
    {
        proof {
            reveal_strlit("tar");
            vstd::utf8::is_ascii_chars_encode_utf8("tar"@);
        }
        path.path().with_extension("tar")
    }

    /// The files of a package that are packed to hash them.
    pub fn packed(files: &Vec<FilePath>) -> (packed: Vec<FilePath>)
        ensures
            crate::path::path_views(packed@) == packed_of(crate::path::path_views(files@)),
    {
        let ghost all = crate::path::path_views(files@);
        let mut packed: Vec<FilePath> = Vec::new();
        let mut i: usize = 0;
        assert(crate::path::path_views(packed@) =~= packed_of(all.take(0)));
        while i < files.len()
            invariant
                i <= files@.len(),
                all == crate::path::path_views(files@),
                crate::path::path_views(packed@) == packed_of(all.take(i as int)),
            decreases files@.len() - i,
        {
            let ghost before = packed@;
            assert(all.take(i + 1).drop_last() =~= all.take(i as int));
            assert(all[i as int] == files@[i as int]@);
            if !files[i].has_extension("ibc") {
                let file = files[i].clone();
                packed.push(file);
                assert(crate::path::path_views(packed@) =~= crate::path::path_views(before).push(
                    file@,
                ));
            }
            i = i + 1;
        }
        assert(all.take(i as int) =~= all);
        packed
    }

    /// The purpose of having a hash is for builds. The resolution graph only stores Summaries. If
    /// we were to rely solely on hashing the Summaries of a package's dependencies to determine if
    /// we need to rebuild a package, a package would only get rebuilt iff its own version changed
    /// or a version of one of its dependents changed. This is a problem for DirectRes deps, since
    /// they can change often without changing their version.
    ///
    /// Not only that, but stray ibc files could get into the source directory, which would force
    /// us to rebuild yet again.
    ///
    /// To remedy this, we'd like to have a hash that indicates that the file contents of a Source
    /// have changed: that of a tarball of the contents, without ibc files.
    ///
    /// Note that the hash stored differs from the hash used to determine if a package needs to be
    /// redownloaded completely; for git repos, if the resolution is to use master, then the same
    /// folder will be used, with what was the latest master when it was retrieved.
    pub fn from_folder(
        meta: Manifest,
        location: DirectRes,
        path: DirLock,
        tarball: &[u8],
    ) -> (source: Source)
        ensures
            source@ == source_of(meta, location@, path@, tarball@),
            crate::util::hash::is_digest(source.hash@),
    {
        let hash = hex_digest(tarball);
        Source { meta, location, path, hash }
    }

    /// The package's manifest.
    pub fn meta(&self) -> (meta: &Manifest)
        ensures
            *meta == self.meta,
    {
        &self.meta
    }

    /// The path to the package.
    pub fn path(&self) -> (path: &FilePath)
        ensures
            path@ == self.path@,
    {
        self.path.path()
    }
}

/// What the layout of results is.
#[verifier::ext_equal]
pub struct LayoutModel {
    pub build: crate::path::PathModel,
    pub lib: crate::path::PathModel,
}

/// Where the results of a build go.
#[derive(Debug)]
pub struct OutputLayout {
    /// The directory that the compiler writes to.
    pub build: FilePath,
    /// The directory of the compiled library.
    pub lib: FilePath,
}

impl View for OutputLayout {
    type V = LayoutModel;

    open spec fn view(&self) -> LayoutModel {
        LayoutModel { build: self.build@, lib: self.lib@ }
    }
}

impl Clone for OutputLayout {
    fn clone(&self) -> (copy: Self)
        ensures
            copy@ == self@,
    {
        OutputLayout { build: self.build.clone(), lib: self.lib.clone() }
    }
}

/// Information about the build of library that is available somewhere in the file system.
#[derive(Debug)]
pub struct Binary {
    /// The path to ibc binary
    binary_path: DirLock,
}

impl View for Binary {
    type V = crate::path::PathModel;

    /// The path to the build.
    closed spec fn view(&self) -> crate::path::PathModel {
        self.binary_path@
    }
}

impl Binary {
    /// The build in a directory.
    pub fn new(binary_path: DirLock) -> (binary: Binary)
        ensures
            binary@ == binary_path@,
    {
        Binary { binary_path }
    }

    /// The path to the build.
    pub fn path(&self) -> (path: &FilePath)
        ensures
            path@ == self@,
    {
        self.binary_path.path()
    }
}

/// For packages which have no associated version, i.e. whatever is not a tarball, the directory
/// does not depend on a version specifier.
pub proof fn law_version_matters_for_tarballs_alone(
    name: crate::package::NameModel,
    loc: crate::package::ResModel,
    left: Option<crate::package::VersionModel>,
    right: Option<crate::package::VersionModel>,
)
    requires
        !(loc is Tar),
    ensures
        source_dir_of(name, loc, left) == source_dir_of(name, loc, right),
{
    assert(source_message(name, loc, left) =~= source_message(name, loc, right));
}

/// Sources of one name share a directory only if they are told by the same bytes, or SHA-256 does
/// not tell these apart.
pub proof fn law_directories_tell_sources_apart(
    name: crate::package::NameModel,
    left_loc: crate::package::ResModel,
    left: Option<crate::package::VersionModel>,
    right_loc: crate::package::ResModel,
    right: Option<crate::package::VersionModel>,
)
    requires
        source_dir_of(name, left_loc, left) == source_dir_of(name, right_loc, right),
    ensures
        ({
            let left_message = source_message(name, left_loc, left);
            let right_message = source_message(name, right_loc, right);
            left_message == right_message || crate::util::hash::is_collision(
                left_message,
                right_message,
            )
        }),
{
    let left_digest = crate::util::hash::sha256(source_message(name, left_loc, left));
    let right_digest = crate::util::hash::sha256(source_message(name, right_loc, right));
    let start = name.group.push('_') + name.name.push('-');
    let left_hex = crate::util::hash::hex_of(left_digest);
    let right_hex = crate::util::hash::hex_of(right_digest);
    assert(left_hex =~= (start + left_hex).skip(start.len() as int));
    assert(right_hex =~= (start + right_hex).skip(start.len() as int));
    crate::util::hash::law_hex_is_injective(left_digest, right_digest);
}

/// The same repository with different commits or tags checked out counts as different
/// repositories: of one name, two resolutions that are written differently have different
/// directories, unless SHA-256 does not tell them apart.
pub proof fn law_commits_are_different_sources(
    name: crate::package::NameModel,
    left: crate::package::ResModel,
    right: crate::package::ResModel,
    left_version: Option<crate::package::VersionModel>,
    right_version: Option<crate::package::VersionModel>,
)
    requires
        !(left is Tar),
        !(right is Tar),
        left.text() != right.text(),
    ensures
        source_dir_of(name, left, left_version) != source_dir_of(name, right, right_version)
            || crate::util::hash::is_collision(
            source_message(name, left, left_version),
            source_message(name, right, right_version),
        ),
{
    if source_dir_of(name, left, left_version) == source_dir_of(name, right, right_version) {
        law_directories_tell_sources_apart(name, left, left_version, right, right_version);
        let start = vstd::utf8::encode_utf8(name.text);
        let left_bytes = vstd::utf8::encode_utf8(left.text());
        let right_bytes = vstd::utf8::encode_utf8(right.text());
        let left_message = source_message(name, left, left_version);
        let right_message = source_message(name, right, right_version);
        if left_message == right_message {
            assert(left_message =~= start + left_bytes);
            assert(right_message =~= start + right_bytes);
            assert(left_bytes =~= left_message.skip(start.len() as int));
            assert(right_bytes =~= right_message.skip(start.len() as int));
            vstd::utf8::encode_utf8_decode_utf8(left.text());
            vstd::utf8::encode_utf8_decode_utf8(right.text());
        }
    }
}

/// Versions of one tarball that are written differently have different directories, unless SHA-256
/// does not tell them apart.
pub proof fn law_tarball_versions_are_different_sources(
    name: crate::package::NameModel,
    loc: crate::package::ResModel,
    left: crate::package::VersionModel,
    right: crate::package::VersionModel,
)
    requires
        loc is Tar,
        crate::package::version_text(left) != crate::package::version_text(right),
    ensures
        source_dir_of(name, loc, Some(left)) != source_dir_of(name, loc, Some(right))
            || crate::util::hash::is_collision(
            source_message(name, loc, Some(left)),
            source_message(name, loc, Some(right)),
        ),
{
    if source_dir_of(name, loc, Some(left)) == source_dir_of(name, loc, Some(right)) {
        law_directories_tell_sources_apart(name, loc, Some(left), loc, Some(right));
        let start = vstd::utf8::encode_utf8(name.text) + vstd::utf8::encode_utf8(loc.text());
        let left_text = crate::package::version_text(left);
        let right_text = crate::package::version_text(right);
        let left_message = source_message(name, loc, Some(left));
        let right_message = source_message(name, loc, Some(right));
        if left_message == right_message {
            assert(vstd::utf8::encode_utf8(left_text) =~= left_message.skip(start.len() as int));
            assert(vstd::utf8::encode_utf8(right_text) =~= right_message.skip(start.len() as int));
            vstd::utf8::encode_utf8_decode_utf8(left_text);
            vstd::utf8::encode_utf8_decode_utf8(right_text);
        }
    }
}

/// Where the hashes in a graph are digests, so are those of what a root is built from.
proof fn lemma_built_from_digests(graph: SourceSolve, root: Seq<char>)
    requires
        crate::resolve::is_built_from_graph(graph, root),
        forall|i: int|
            0 <= i < crate::resolve::graph_hashes(graph).len() ==> crate::util::hash::is_digest(
                #[trigger] crate::resolve::graph_hashes(graph)[i],
            ),
    ensures
        forall|i: int|
            0 <= i < crate::resolve::build_hashes(graph, root).len()
                ==> crate::util::hash::is_digest(
                #[trigger] crate::resolve::build_hashes(graph, root)[i],
            ),
{
    let hashes = crate::resolve::build_hashes(graph, root);
    let all = crate::resolve::graph_hashes(graph);
    assert forall|i: int| 0 <= i < hashes.len() implies crate::util::hash::is_digest(
        #[trigger] hashes[i],
    ) by {
        assert(all.contains(hashes[i]));
        let k = choose|k: int| 0 <= k < all.len() && all[k] == hashes[i];
        assert(crate::util::hash::is_digest(all[k]));
    }
}

/// Builds share a directory only if the hashes of the packages and of everything that they depend
/// on are the same, in the same order, or SHA-256 does not tell these apart: when the contents of
/// a dependency change, so does the directory of the build.
pub proof fn law_builds_follow_contents(
    left_graph: SourceSolve,
    left: Seq<char>,
    right_graph: SourceSolve,
    right: Seq<char>,
)
    requires
        crate::resolve::are_aligned(
            crate::resolve::build_hashes(left_graph, left),
            crate::resolve::build_hashes(right_graph, right),
        ),
        build_dir_of(left_graph, left) == build_dir_of(right_graph, right),
    ensures
        crate::resolve::build_hashes(left_graph, left) == crate::resolve::build_hashes(
            right_graph,
            right,
        ) || crate::util::hash::is_collision(
            crate::resolve::bytes_of_all(crate::resolve::build_hashes(left_graph, left)),
            crate::resolve::bytes_of_all(crate::resolve::build_hashes(right_graph, right)),
        ),
{
    let left_hashes = crate::resolve::build_hashes(left_graph, left);
    let right_hashes = crate::resolve::build_hashes(right_graph, right);
    let left_bytes = crate::resolve::bytes_of_all(left_hashes);
    let right_bytes = crate::resolve::bytes_of_all(right_hashes);
    crate::util::hash::law_digests_tell_apart(left_bytes, right_bytes);
    if left_bytes == right_bytes {
        crate::resolve::law_bytes_tell_texts_apart(left_hashes, right_hashes);
    }
}

/// Builds in graphs whose hashes are digests, as those of sources are, follow their contents.
pub proof fn law_builds_of_digests_follow_contents(
    left_graph: SourceSolve,
    left: Seq<char>,
    right_graph: SourceSolve,
    right: Seq<char>,
)
    requires
        crate::resolve::is_built_from_graph(left_graph, left),
        crate::resolve::is_built_from_graph(right_graph, right),
        forall|i: int|
            0 <= i < crate::resolve::graph_hashes(left_graph).len()
                ==> crate::util::hash::is_digest(
                #[trigger] crate::resolve::graph_hashes(left_graph)[i],
            ),
        forall|i: int|
            0 <= i < crate::resolve::graph_hashes(right_graph).len()
                ==> crate::util::hash::is_digest(
                #[trigger] crate::resolve::graph_hashes(right_graph)[i],
            ),
        build_dir_of(left_graph, left) == build_dir_of(right_graph, right),
    ensures
        crate::resolve::build_hashes(left_graph, left) == crate::resolve::build_hashes(
            right_graph,
            right,
        ) || crate::util::hash::is_collision(
            crate::resolve::bytes_of_all(crate::resolve::build_hashes(left_graph, left)),
            crate::resolve::bytes_of_all(crate::resolve::build_hashes(right_graph, right)),
        ),
{
    lemma_built_from_digests(left_graph, left);
    lemma_built_from_digests(right_graph, right);
    crate::resolve::law_digests_are_aligned(
        crate::resolve::build_hashes(left_graph, left),
        crate::resolve::build_hashes(right_graph, right),
    );
    law_builds_follow_contents(left_graph, left, right_graph, right);
}

/// The directory of a build does not depend on packages that the root does not reach: a graph with
/// more of them, behind those that there are, gives the same directory.
pub proof fn law_unreached_packages_do_not_matter(
    graph: SourceSolve,
    more: SourceSolve,
    root: Seq<char>,
)
    requires
        crate::resolve::is_graph(graph),
        crate::resolve::is_graph(more),
        crate::resolve::graph_hashes(graph).contains(root),
        crate::resolve::graph_hashes(graph).is_prefix_of(crate::resolve::graph_hashes(more)),
        forall|node: usize| #[trigger]
            crate::resolve::reaches(
                crate::resolve::graph_successors(graph),
                crate::resolve::position_of(graph, root),
                node,
            ) ==> crate::resolve::graph_successors(more)[node as int]
                == crate::resolve::graph_successors(graph)[node as int],
    ensures
        build_dir_of(more, root) == build_dir_of(graph, root),
{
    crate::resolve::law_unreached_packages_do_not_count(graph, more, root);
}

/// Indices share a directory of the cache only if they are written alike, or SHA-256 does not tell
/// them apart.
pub proof fn law_directories_tell_indices_apart(
    left: crate::package::ResModel,
    right: crate::package::ResModel,
)
    requires
        index_dir_of(left) == index_dir_of(right),
    ensures
        left.text() == right.text() || crate::util::hash::is_collision(
            vstd::utf8::encode_utf8(left.text()),
            vstd::utf8::encode_utf8(right.text()),
        ),
{
    crate::util::hash::law_digests_tell_apart(
        vstd::utf8::encode_utf8(left.text()),
        vstd::utf8::encode_utf8(right.text()),
    );
    vstd::utf8::encode_utf8_decode_utf8(left.text());
    vstd::utf8::encode_utf8_decode_utf8(right.text());
}

/// One more ibc file, wherever it is listed, changes nothing of what is packed.
pub proof fn law_stray_ibc_files_do_not_matter(
    files: Seq<crate::path::PathModel>,
    at: int,
    stray: crate::path::PathModel,
)
    requires
        0 <= at <= files.len(),
        stray.has_extension(ibc()),
    ensures
        packed_of(files.insert(at, stray)) == packed_of(files),
    decreases files.len(),
{
    let more = files.insert(at, stray);
    if at == files.len() {
        assert(more.drop_last() =~= files);
    } else {
        assert(more.drop_last() =~= files.drop_last().insert(at, stray));
        assert(more.last() == files.last());
        law_stray_ibc_files_do_not_matter(files.drop_last(), at, stray);
    }
}

/// Everything is packed that is not an ibc file, in the order in which it is listed: of files
/// without any, all are.
pub proof fn law_everything_else_is_packed(files: Seq<crate::path::PathModel>)
    ensures
        forall|file: crate::path::PathModel| #[trigger]
            packed_of(files).contains(file) <==> files.contains(file) && !file.has_extension(
                ibc(),
            ),
        (forall|i: int| 0 <= i < files.len() ==> !(#[trigger] files[i]).has_extension(ibc()))
            ==> packed_of(files) == files,
    decreases files.len(),
{
    let packed = packed_of(files);
    if files.len() > 0 {
        let before = files.drop_last();
        let packed_before = packed_of(before);
        law_everything_else_is_packed(before);
        assert(files[files.len() - 1] == files.last());
        assert forall|file: crate::path::PathModel| #[trigger] packed.contains(file) <==> (
        files.contains(file) && !file.has_extension(ibc())) by {
            if packed.contains(file) {
                let k = choose|k: int| 0 <= k < packed.len() && packed[k] == file;
                if k < packed_before.len() {
                    assert(packed_before[k] == file);
                    assert(packed_before.contains(file));
                    let j = choose|j: int| 0 <= j < before.len() && before[j] == file;
                    assert(files[j] == file);
                }
            }
            if files.contains(file) && !file.has_extension(ibc()) {
                let k = choose|k: int| 0 <= k < files.len() && files[k] == file;
                if k < before.len() {
                    assert(before[k] == file);
                    assert(packed_before.contains(file));
                    let j = choose|j: int| 0 <= j < packed_before.len() && packed_before[j] == file;
                    assert(packed[j] == file);
                } else {
                    assert(packed[packed.len() - 1] == file);
                }
            }
        }
        if forall|i: int| 0 <= i < files.len() ==> !(#[trigger] files[i]).has_extension(ibc()) {
            assert forall|i: int| 0 <= i < before.len() implies !(
            #[trigger] before[i]).has_extension(ibc()) by {
                assert(before[i] == files[i]);
            }
            assert(before.push(files.last()) =~= files);
        }
    } else {
        assert(packed =~= files);
    }
}

/// The tarball of a package is a sibling of its directory, so it is not packed itself, and is not
/// the lock file of the directory.
pub proof fn law_tarball_is_a_sibling(path: crate::path::PathModel)
    requires
        path.file_name() is Some,
    ensures
        tarball_of(path).parent() == path.parent(),
        tarball_of(path) != crate::util::lock::lock_file_of(path),
{
    let tarball = tarball_of(path);
    let lock = crate::util::lock::lock_file_of(path);
    assert(tarball.components.drop_last() =~= path.components.drop_last());
    reveal_strlit("tar");
    reveal_strlit("lock");
    vstd::utf8::is_ascii_chars_encode_utf8("tar"@);
    vstd::utf8::is_ascii_chars_encode_utf8("lock"@);
    assert(tarball.components.last().len() != lock.components.last().len());
}

/// Whether a text is a plain name of a directory: not empty, without separators, and not `.`.
pub open spec fn is_plain(text: Seq<char>) -> bool {
    let bytes = vstd::utf8::encode_utf8(text);
    bytes.len() > 0 && !bytes.contains(crate::path::SEPARATOR) && bytes
        != crate::path::current_dir()
}

/// A plain name adds one component.
proof fn lemma_plain_entry(dir: crate::path::PathModel, name: Seq<char>)
    requires
        is_plain(name),
    ensures
        entry_of(dir, name) == (crate::path::PathModel {
            absolute: dir.absolute,
            components: dir.components.push(vstd::utf8::encode_utf8(name)),
        }),
{
    let bytes = vstd::utf8::encode_utf8(name);
    crate::path::lemma_path_of_name(bytes);
    assert(crate::path::without_current_dir(seq![bytes]) =~= seq![bytes]);
    assert(entry_of(dir, name).components =~= dir.components.push(bytes));
}

/// The names of the directories of a cache are plain, and different.
proof fn lemma_parts()
    ensures
        is_plain("src"@),
        is_plain("build"@),
        is_plain("indices"@),
        vstd::utf8::encode_utf8("src"@)[0] == 115,
        vstd::utf8::encode_utf8("build"@)[0] == 98,
        vstd::utf8::encode_utf8("indices"@)[0] == 105,
{
    lemma_part_bytes();
}

/// A digest is a plain name without dots.
proof fn lemma_digest_is_plain(digest: Seq<char>)
    requires
        crate::util::hash::is_digest(digest),
    ensures
        is_plain(digest),
        !vstd::utf8::encode_utf8(digest).contains(crate::path::DOT),
{
    let bytes = vstd::utf8::encode_utf8(digest);
    crate::util::hash::lemma_digest_bytes(digest);
    assert forall|i: int| 0 <= i < 64 implies #[trigger] bytes[i] != crate::path::DOT && bytes[i]
        != crate::path::SEPARATOR by {
        assert(crate::util::hash::is_hex_digit(digest[i]));
    }
    assert(crate::path::current_dir().len() == 1);
}

/// The bytes of a text are those of its parts.
pub(crate) proof fn lemma_encode_sum(left: Seq<char>, right: Seq<char>)
    ensures
        vstd::utf8::encode_utf8(left + right) == vstd::utf8::encode_utf8(left)
            + vstd::utf8::encode_utf8(right),
    decreases left.len(),
{
    if left.len() == 0 {
        assert(left + right =~= right);
        assert(vstd::utf8::encode_utf8(left) =~= Seq::<u8>::empty());
        assert(Seq::<u8>::empty() + vstd::utf8::encode_utf8(right) =~= vstd::utf8::encode_utf8(
            right,
        ));
    } else {
        let rest = left.drop_first();
        assert((left + right).drop_first() =~= rest + right);
        lemma_encode_sum(rest, right);
        let first = vstd::utf8::encode_scalar(left[0] as u32);
        assert(first + (vstd::utf8::encode_utf8(rest) + vstd::utf8::encode_utf8(right)) =~= (first
            + vstd::utf8::encode_utf8(rest)) + vstd::utf8::encode_utf8(right));
    }
}

/// Whether neither part of a name holds a byte.
pub open spec fn holds_no(name: crate::package::NameModel, byte: u8) -> bool {
    !vstd::utf8::encode_utf8(name.group).contains(byte) && !vstd::utf8::encode_utf8(
        name.name,
    ).contains(byte)
}

/// The name of the directory of a source holds a byte only if the name of the package does, or if
/// the byte is a digit, a letter of a digest, `_` or `-`.
proof fn lemma_source_dir_holds_no(
    name: crate::package::NameModel,
    digest: Seq<u8>,
    byte: u8,
)
    requires
        holds_no(name, byte),
        byte < 48,
        byte != 45,
    ensures
        !vstd::utf8::encode_utf8(source_dir_name_of(name, digest)).contains(byte),
        vstd::utf8::encode_utf8(source_dir_name_of(name, digest)).len() > 1,
{
    let hex = crate::util::hash::hex_of(digest);
    let group = vstd::utf8::encode_utf8(name.group);
    let rest = vstd::utf8::encode_utf8(name.name);
    let underscore = seq!['_'];
    let hyphen = seq!['-'];
    crate::util::hash::law_hex_is_plain(digest);
    assert forall|i: int| 0 <= i < hex.len() implies '\0' <= #[trigger] hex[i] <= '\u{7f}' by {
        assert(crate::util::hash::is_hex_digit(hex[i]));
    }
    vstd::utf8::is_ascii_chars_encode_utf8(hex);
    vstd::utf8::is_ascii_chars_encode_utf8(underscore);
    vstd::utf8::is_ascii_chars_encode_utf8(hyphen);
    let hex_bytes = vstd::utf8::encode_utf8(hex);
    assert(vstd::utf8::encode_utf8(underscore) =~= seq![95u8]);
    assert(vstd::utf8::encode_utf8(hyphen) =~= seq![45u8]);
    assert(source_dir_name_of(name, digest) =~= name.group + (underscore + (name.name + (hyphen
        + hex))));
    lemma_encode_sum(hyphen, hex);
    lemma_encode_sum(name.name, hyphen + hex);
    lemma_encode_sum(underscore, name.name + (hyphen + hex));
    lemma_encode_sum(name.group, underscore + (name.name + (hyphen + hex)));
    let whole = vstd::utf8::encode_utf8(source_dir_name_of(name, digest));
    assert(whole =~= group + (seq![95u8] + (rest + (seq![45u8] + hex_bytes))));
    if whole.contains(byte) {
        let k = choose|k: int| 0 <= k < whole.len() && whole[k] == byte;
        if k < group.len() {
            assert(group[k] == byte);
        } else if k > group.len() && k - group.len() - 1 < rest.len() {
            assert(rest[k - group.len() - 1] == byte);
        } else if k > group.len() + 1 + rest.len() {
            let j = k - group.len() - rest.len() - 2;
            assert(hex_bytes[j] == byte);
            assert(crate::util::hash::is_hex_digit(hex[j]));
        }
    }
}

/// The directory of a build or of an index is an entry of its part of the cache, whatever is
/// built or indexed.
pub proof fn law_digests_are_entries(
    cache: crate::path::PathModel,
    part: Seq<char>,
    digest: Seq<char>,
)
    requires
        part == "build"@ || part == "indices"@,
        crate::util::hash::is_digest(digest),
    ensures
        entry_of(entry_of(cache, part), digest) == (crate::path::PathModel {
            absolute: cache.absolute,
            components: cache.components.push(vstd::utf8::encode_utf8(part)).push(
                vstd::utf8::encode_utf8(digest),
            ),
        }),
{
    lemma_parts();
    lemma_plain_entry(cache, part);
    lemma_digest_is_plain(digest);
    lemma_plain_entry(entry_of(cache, part), digest);
}

/// The directory of a source is an entry of `src`, if the name of the package has no separators.
pub proof fn law_sources_are_entries(
    cache: crate::path::PathModel,
    name: crate::package::NameModel,
    loc: crate::package::ResModel,
    version: Option<crate::package::VersionModel>,
)
    requires
        holds_no(name, crate::path::SEPARATOR),
    ensures
        source_path_of(cache, name, loc, version) == (crate::path::PathModel {
            absolute: cache.absolute,
            components: cache.components.push(vstd::utf8::encode_utf8("src"@)).push(
                vstd::utf8::encode_utf8(source_dir_of(name, loc, version)),
            ),
        }),
{
    let digest = crate::util::hash::sha256(source_message(name, loc, version));
    lemma_parts();
    lemma_plain_entry(cache, "src"@);
    lemma_source_dir_holds_no(name, digest, crate::path::SEPARATOR);
    lemma_plain_entry(entry_of(cache, "src"@), source_dir_of(name, loc, version));
}

/// The directories of sources, builds and indices are never the same.
pub proof fn law_parts_are_disjoint(
    cache: crate::path::PathModel,
    name: crate::package::NameModel,
    loc: crate::package::ResModel,
    version: Option<crate::package::VersionModel>,
    build: Seq<char>,
    index: Seq<char>,
)
    requires
        holds_no(name, crate::path::SEPARATOR),
        crate::util::hash::is_digest(build),
        crate::util::hash::is_digest(index),
    ensures
        source_path_of(cache, name, loc, version) != entry_of(entry_of(cache, "build"@), build),
        source_path_of(cache, name, loc, version) != entry_of(entry_of(cache, "indices"@), index),
        entry_of(entry_of(cache, "build"@), build) != entry_of(entry_of(cache, "indices"@), index),
{
    lemma_parts();
    law_sources_are_entries(cache, name, loc, version);
    law_digests_are_entries(cache, "build"@, build);
    law_digests_are_entries(cache, "indices"@, index);
    let at = cache.components.len() as int;
    assert(source_path_of(cache, name, loc, version).components[at] == vstd::utf8::encode_utf8(
        "src"@,
    ));
    assert(entry_of(entry_of(cache, "build"@), build).components[at] == vstd::utf8::encode_utf8(
        "build"@,
    ));
    assert(entry_of(entry_of(cache, "indices"@), index).components[at] == vstd::utf8::encode_utf8(
        "indices"@,
    ));
}

/// Builds, or indices, that share a lock file share the directory: a lock on one never keeps
/// another from being used.
pub proof fn law_digest_locks_are_exclusive(
    cache: crate::path::PathModel,
    part: Seq<char>,
    left: Seq<char>,
    right: Seq<char>,
)
    requires
        part == "build"@ || part == "indices"@,
        crate::util::hash::is_digest(left),
        crate::util::hash::is_digest(right),
        crate::util::lock::lock_file_of(entry_of(entry_of(cache, part), left))
            == crate::util::lock::lock_file_of(entry_of(entry_of(cache, part), right)),
    ensures
        left == right,
{
    let left_path = entry_of(entry_of(cache, part), left);
    let right_path = entry_of(entry_of(cache, part), right);
    law_digests_are_entries(cache, part, left);
    law_digests_are_entries(cache, part, right);
    lemma_digest_is_plain(left);
    lemma_digest_is_plain(right);
    crate::util::hash::lemma_digest_bytes(left);
    crate::util::hash::lemma_digest_bytes(right);
    crate::path::lemma_dotless(left_path.components.last());
    crate::path::lemma_dotless(right_path.components.last());
    crate::util::lock::law_locks_are_exclusive(left_path, right_path);
    vstd::utf8::encode_utf8_decode_utf8(left);
    vstd::utf8::encode_utf8_decode_utf8(right);
}

/// Sources that share a lock file share the directory, if the names of the packages have neither
/// separators nor dots.
pub proof fn law_source_locks_are_exclusive(
    cache: crate::path::PathModel,
    left_name: crate::package::NameModel,
    left_loc: crate::package::ResModel,
    left: Option<crate::package::VersionModel>,
    right_name: crate::package::NameModel,
    right_loc: crate::package::ResModel,
    right: Option<crate::package::VersionModel>,
)
    requires
        holds_no(left_name, crate::path::SEPARATOR),
        holds_no(left_name, crate::path::DOT),
        holds_no(right_name, crate::path::SEPARATOR),
        holds_no(right_name, crate::path::DOT),
        crate::util::lock::lock_file_of(source_path_of(cache, left_name, left_loc, left))
            == crate::util::lock::lock_file_of(
            source_path_of(cache, right_name, right_loc, right),
        ),
    ensures
        source_path_of(cache, left_name, left_loc, left) == source_path_of(
            cache,
            right_name,
            right_loc,
            right,
        ),
{
    let left_path = source_path_of(cache, left_name, left_loc, left);
    let right_path = source_path_of(cache, right_name, right_loc, right);
    let left_digest = crate::util::hash::sha256(source_message(left_name, left_loc, left));
    let right_digest = crate::util::hash::sha256(source_message(right_name, right_loc, right));
    law_sources_are_entries(cache, left_name, left_loc, left);
    law_sources_are_entries(cache, right_name, right_loc, right);
    lemma_source_dir_holds_no(left_name, left_digest, crate::path::DOT);
    lemma_source_dir_holds_no(right_name, right_digest, crate::path::DOT);
    crate::path::lemma_dotless(left_path.components.last());
    crate::path::lemma_dotless(right_path.components.last());
    assert(crate::path::current_dir()[0] == crate::path::DOT);
    assert(crate::path::parent_dir()[0] == crate::path::DOT);
    assert(left_path.components.last().contains(left_path.components.last()[0]));
    assert(right_path.components.last().contains(right_path.components.last()[0]));
    crate::util::lock::law_locks_are_exclusive(left_path, right_path);
}

/// The directory of a source is named by the group and the name of the package, and by the digest
/// of its full name, of where it comes from, and of the version of a tarball: of all their bytes.
pub proof fn law_source_directory_is_told_by_everything(
    name: crate::package::NameModel,
    text: Seq<char>,
    url: crate::path::PathModel,
    version: crate::package::VersionModel,
)
    ensures
        ({
            let named = vstd::utf8::encode_utf8(name.text) + vstd::utf8::encode_utf8(text);
            let versioned = named + vstd::utf8::encode_utf8(
                crate::package::version_text(version),
            );
            let start = name.group + seq!['_'] + name.name + seq!['-'];
            let dir = start + crate::util::hash::hex_of(crate::util::hash::sha256(named));
            let git = crate::package::ResModel::Git { text };
            let tar = crate::package::ResModel::Tar { text };
            let local = crate::package::ResModel::Dir { url, text };
            &&& source_dir_of(name, git, None) == dir
            &&& source_dir_of(name, git, Some(version)) == dir
            &&& source_dir_of(name, local, None) == dir
            &&& source_dir_of(name, local, Some(version)) == dir
            &&& source_dir_of(name, tar, None) == dir
            &&& source_dir_of(name, tar, Some(version)) == start + crate::util::hash::hex_of(
                crate::util::hash::sha256(versioned),
            )
        }),
{
    let named = vstd::utf8::encode_utf8(name.text) + vstd::utf8::encode_utf8(text);
    let git = crate::package::ResModel::Git { text };
    let tar = crate::package::ResModel::Tar { text };
    let local = crate::package::ResModel::Dir { url, text };
    assert(source_message(name, git, None) =~= named);
    assert(source_message(name, git, Some(version)) =~= named);
    assert(source_message(name, local, None) =~= named);
    assert(source_message(name, local, Some(version)) =~= named);
    assert(source_message(name, tar, None) =~= named);
    assert(source_message(name, tar, Some(version)) =~= named + vstd::utf8::encode_utf8(
        crate::package::version_text(version),
    ));
    assert(name.group.push('_') + name.name.push('-') =~= name.group + seq!['_'] + name.name
        + seq!['-']);
}

/// The name of the directory of a source with a digest.
pub proof fn law_source_directory_shows_the_name(name: crate::package::NameModel, digest: Seq<u8>)
    ensures
        source_dir_name_of(name, digest) == name.group + seq!['_'] + name.name + seq!['-']
            + crate::util::hash::hex_of(digest),
{
    assert(name.group.push('_') + name.name.push('-') =~= name.group + seq!['_'] + name.name
        + seq!['-']);
}

/// The message of a source is its full name, where it comes from, and the version of a tarball.
pub proof fn law_source_message_holds_everything(
    name: crate::package::NameModel,
    loc: crate::package::ResModel,
    version: crate::package::VersionModel,
)
    ensures
        ({
            let text = match loc {
                crate::package::ResModel::Git { text } => text,
                crate::package::ResModel::Tar { text } => text,
                crate::package::ResModel::Dir { url, text } => text,
            };
            let named = vstd::utf8::encode_utf8(name.text) + vstd::utf8::encode_utf8(text);
            &&& source_message(name, loc, None) == named
            &&& loc is Tar ==> source_message(name, loc, Some(version)) == named
                + vstd::utf8::encode_utf8(crate::package::version_text(version))
            &&& !(loc is Tar) ==> source_message(name, loc, Some(version)) == named
        }),
{
    let text = match loc {
        crate::package::ResModel::Git { text } => text,
        crate::package::ResModel::Tar { text } => text,
        crate::package::ResModel::Dir { url, text } => text,
    };
    let named = vstd::utf8::encode_utf8(name.text) + vstd::utf8::encode_utf8(text);
    assert(source_message(name, loc, None) =~= named);
    if !(loc is Tar) {
        assert(source_message(name, loc, Some(version)) =~= named);
    }
}

/// A version is taken as it is.
pub proof fn law_version_is_taken_as_it_is(version: Version)
    ensures
        version_of(Some(&version)) == Some(version@),
        version_of(None) is None,
{
}

/// Sources are below `src`, builds below `build` and indices below `indices`, each in the directory
/// that is named for it. A local source is where it is, with a link in its place in the cache, and
/// a local index is where it is.
pub proof fn law_everything_has_its_place(
    cache: crate::path::PathModel,
    name: crate::package::NameModel,
    loc: crate::package::ResModel,
    version: Option<crate::package::VersionModel>,
    graph: SourceSolve,
    root: Seq<char>,
)
    ensures
        ({
            let below = |part: Seq<u8>, dir: Seq<char>|
                cache.join(crate::path::path_of(part)).join(
                    crate::path::path_of(vstd::utf8::encode_utf8(dir)),
                );
            let source = below(seq![115u8, 114, 99], source_dir_of(name, loc, version));
            let build = below(seq![98u8, 117, 105, 108, 100], build_dir_of(graph, root));
            let index = below(seq![105u8, 110, 100, 105, 99, 101, 115], index_dir_of(loc));
            &&& source_path_of(cache, name, loc, version) == source
            &&& build_path_of(cache, graph, root) == build
            &&& match loc {
                crate::package::ResModel::Dir { url, text } => {
                    &&& source_check_of(cache, name, loc, version)
                        == crate::retrieve::load::CheckModel::Found { path: url, link: source }
                    &&& index_path_of(cache, loc) == url
                },
                _ => {
                    &&& source_check_of(cache, name, loc, version)
                        == crate::retrieve::load::CheckModel::Probe(source)
                    &&& index_path_of(cache, loc) == index
                },
            }
        }),
{
    lemma_part_bytes();
}

/// The bytes of the names of the directories of a cache.
proof fn lemma_part_bytes()
    ensures
        vstd::utf8::encode_utf8("src"@) == seq![115u8, 114, 99],
        vstd::utf8::encode_utf8("build"@) == seq![98u8, 117, 105, 108, 100],
        vstd::utf8::encode_utf8("indices"@) == seq![105u8, 110, 100, 105, 99, 101, 115],
{
    reveal_strlit("src");
    reveal_strlit("build");
    reveal_strlit("indices");
    vstd::utf8::is_ascii_chars_encode_utf8("src"@);
    vstd::utf8::is_ascii_chars_encode_utf8("build"@);
    vstd::utf8::is_ascii_chars_encode_utf8("indices"@);
    assert(vstd::utf8::encode_utf8("src"@) =~= seq![115u8, 114, 99]);
    assert(vstd::utf8::encode_utf8("build"@) =~= seq![98u8, 117, 105, 108, 100]);
    assert(vstd::utf8::encode_utf8("indices"@) =~= seq![105u8, 110, 100, 105, 99, 101, 115]);
}

/// An entry of a directory is what its name leads to from there.
pub proof fn law_entry_is_below_its_directory(dir: crate::path::PathModel, name: Seq<char>)
    ensures
        entry_of(dir, name) == dir.join(crate::path::path_of(vstd::utf8::encode_utf8(name))),
{
}

/// The directory of a build is the digest of the hashes of everything that it is built from, and
/// that of an index the digest of how the index is written.
pub proof fn law_directories_are_digests(
    graph: SourceSolve,
    root: Seq<char>,
    loc: crate::package::ResModel,
)
    ensures
        build_dir_of(graph, root) == crate::util::hash::hex_of(
            crate::util::hash::sha256(
                crate::resolve::bytes_of_all(crate::resolve::build_hashes(graph, root)),
            ),
        ),
        index_dir_of(loc) == crate::util::hash::hex_of(
            crate::util::hash::sha256(
                vstd::utf8::encode_utf8(
                    match loc {
                        crate::package::ResModel::Git { text } => text,
                        crate::package::ResModel::Tar { text } => text,
                        crate::package::ResModel::Dir { url, text } => text,
                    },
                ),
            ),
        ),
{
}

/// A change in any package that a root reaches changes the directory of its build: of two graphs
/// with the same edges whose hashes are digests, the directories are the same only if all the
/// hashes that are reached are, or if SHA-256 does not tell these apart.
pub proof fn law_any_change_rebuilds(
    left: SourceSolve,
    left_root: Seq<char>,
    right: SourceSolve,
    right_root: Seq<char>,
    node: usize,
)
    requires
        crate::resolve::is_graph(left),
        crate::resolve::is_graph(right),
        crate::resolve::graph_hashes(left).contains(left_root),
        crate::resolve::graph_hashes(right).contains(right_root),
        crate::resolve::first_position(crate::resolve::graph_hashes(left), left_root)
            == crate::resolve::first_position(crate::resolve::graph_hashes(right), right_root),
        crate::resolve::graph_successors(left) == crate::resolve::graph_successors(right),
        forall|i: int|
            0 <= i < crate::resolve::graph_hashes(left).len() ==> crate::util::hash::is_digest(
                #[trigger] crate::resolve::graph_hashes(left)[i],
            ),
        forall|i: int|
            0 <= i < crate::resolve::graph_hashes(right).len() ==> crate::util::hash::is_digest(
                #[trigger] crate::resolve::graph_hashes(right)[i],
            ),
        crate::resolve::reaches(
            crate::resolve::graph_successors(left),
            crate::resolve::position_of(left, left_root),
            node,
        ),
        crate::resolve::graph_hashes(left)[node as int] != crate::resolve::graph_hashes(
            right,
        )[node as int],
    ensures
        ({
            let left_bytes = crate::resolve::bytes_of_all(
                crate::resolve::build_hashes(left, left_root),
            );
            let right_bytes = crate::resolve::bytes_of_all(
                crate::resolve::build_hashes(right, right_root),
            );
            build_dir_of(left, left_root) != build_dir_of(right, right_root) || (left_bytes
                != right_bytes && crate::util::hash::sha256(left_bytes)
                == crate::util::hash::sha256(right_bytes))
        }),
{
    crate::resolve::law_every_reached_package_counts(left, left_root);
    crate::resolve::law_every_reached_package_counts(right, right_root);
    let order = crate::resolve::build_order(left, left_root);
    let left_hashes = crate::resolve::build_hashes(left, left_root);
    let right_hashes = crate::resolve::build_hashes(right, right_root);
    assert(order == crate::resolve::build_order(right, right_root));
    let k = choose|k: int| 0 <= k < order.len() && order[k] == node;
    assert(left_hashes[k] == crate::resolve::graph_hashes(left)[order[k] as int]);
    assert(right_hashes[k] == crate::resolve::graph_hashes(right)[order[k] as int]);
    if build_dir_of(left, left_root) == build_dir_of(right, right_root) {
        crate::resolve::law_root_is_built_from_graph(left, left_root);
        crate::resolve::law_root_is_built_from_graph(right, right_root);
        law_builds_of_digests_follow_contents(left, left_root, right, right_root);
    }
}

/// The files of a package are packed one for one and in order, each unless it is an ibc file.
pub proof fn law_files_are_packed_one_by_one(
    left: Seq<crate::path::PathModel>,
    right: Seq<crate::path::PathModel>,
    file: crate::path::PathModel,
)
    ensures
        packed_of(left + right) == packed_of(left) + packed_of(right),
        packed_of(seq![file]) == if file.has_extension(seq![105u8, 98, 99]) {
            Seq::empty()
        } else {
            seq![file]
        },
        packed_of(Seq::empty()) == Seq::<crate::path::PathModel>::empty(),
    decreases right.len(),
{
    let none = Seq::<crate::path::PathModel>::empty();
    lemma_ibc();
    assert(packed_of(none) =~= none);
    assert(seq![file].drop_last() =~= none);
    assert(packed_of(seq![file]) =~= if file.has_extension(seq![105u8, 98, 99]) {
        none
    } else {
        seq![file]
    });
    if right.len() == 0 {
        assert(left + right =~= left);
        assert(right =~= none);
        assert(packed_of(left) + none =~= packed_of(left));
    } else {
        let shorter = right.drop_last();
        law_files_are_packed_one_by_one(left, shorter, file);
        assert((left + right).drop_last() =~= left + shorter);
        assert((left + right).last() == right.last());
        assert(packed_of(left + right) =~= packed_of(left) + packed_of(right));
    }
}

/// The bytes of the extension of ibc files.
pub(crate) proof fn lemma_ibc()
    ensures
        ibc() == seq![105u8, 98, 99],
{
    reveal_strlit("ibc");
    vstd::utf8::is_ascii_chars_encode_utf8("ibc"@);
    assert(ibc() =~= seq![105u8, 98, 99]);
}

/// A source holds what it was made from, and the digest of all the bytes of its tarball.
pub proof fn law_source_holds_what_it_is_made_from(
    meta: Manifest,
    location: crate::package::ResModel,
    path: crate::path::PathModel,
    tarball: Seq<u8>,
)
    ensures
        source_of(meta, location, path, tarball).meta == meta,
        source_of(meta, location, path, tarball).location == location,
        source_of(meta, location, path, tarball).path == path,
        source_of(meta, location, path, tarball).hash == crate::util::hash::hex_of(
            crate::util::hash::sha256(tarball),
        ),
{
}

/// Sources with different tarballs have different hashes, unless SHA-256 does not tell them apart.
pub proof fn law_hashes_follow_contents(
    meta: Manifest,
    location: crate::package::ResModel,
    path: crate::path::PathModel,
    left: Seq<u8>,
    right: Seq<u8>,
)
    requires
        left != right,
    ensures
        source_of(meta, location, path, left).hash != source_of(meta, location, path, right).hash
            || crate::util::hash::sha256(left) == crate::util::hash::sha256(right),
{
    if source_of(meta, location, path, left).hash == source_of(meta, location, path, right).hash {
        crate::util::hash::law_digests_tell_apart(left, right);
    }
}

/// The tarball of a package is its directory with the extension `tar`.
pub proof fn law_tarball_has_its_extension(path: crate::path::PathModel)
    ensures
        tarball_of(path) == path.with_extension(seq![116u8, 97, 114]),
{
    reveal_strlit("tar");
    vstd::utf8::is_ascii_chars_encode_utf8("tar"@);
    assert(vstd::utf8::encode_utf8("tar"@) =~= seq![116u8, 97, 114]);
}

/// Sources and layouts are what their fields say.
pub proof fn law_views_show_every_field(source: Source, layout: OutputLayout)
    ensures
        source@.meta == source.meta,
        source@.location == source.location@,
        source@.path == source.path@,
        source@.hash == source.hash@,
        layout@.build == layout.build@,
        layout@.lib == layout.lib@,
{
}

} // verus!
