//! Checking out sources and builds.
//!
//! A checkout says what has to be done next, and is told how that went.
use crate::package::{DirectRes, Manifest, Name};
use crate::path::FilePath;
use crate::retrieve::cache::{Binary, Source};
use crate::retrieve::load::{Load, LoadAction, LoadError, LoadEvent};
use crate::util::lock::DirLock;
use vstd::prelude::*;

verus! {

/// Why a package could not be checked out.
#[derive(Debug)]
pub enum CheckoutError {
    /// Its directory could not be loaded.
    Load(LoadError),
    /// It has no manifest.
    MissingManifest,
    /// Its manifest cannot be read.
    InvalidIndex,
    /// Its manifest has another name.
    NamesDontMatch { declared: Name, found: Name },
    /// Its contents could not be packed.
    Pack,
}

/// What an error is.
#[verifier::ext_equal]
pub enum CheckoutErrorModel {
    Load(LoadError),
    MissingManifest,
    InvalidIndex,
    NamesDontMatch { declared: crate::package::NameModel, found: crate::package::NameModel },
    Pack,
}

impl View for CheckoutError {
    type V = CheckoutErrorModel;

    open spec fn view(&self) -> CheckoutErrorModel {
        match *self {
            CheckoutError::Load(error) => CheckoutErrorModel::Load(error),
            CheckoutError::MissingManifest => CheckoutErrorModel::MissingManifest,
            CheckoutError::InvalidIndex => CheckoutErrorModel::InvalidIndex,
            CheckoutError::NamesDontMatch { declared, found } =>
                CheckoutErrorModel::NamesDontMatch { declared: declared@, found: found@ },
            CheckoutError::Pack => CheckoutErrorModel::Pack,
        }
    }
}

impl Clone for CheckoutError {
    fn clone(&self) -> (copy: Self)
        ensures
            copy@ == self@,
    {
        match self {
            CheckoutError::Load(error) => CheckoutError::Load(*error),
            CheckoutError::MissingManifest => CheckoutError::MissingManifest,
            CheckoutError::InvalidIndex => CheckoutError::InvalidIndex,
            CheckoutError::NamesDontMatch { declared, found } => CheckoutError::NamesDontMatch {
                declared: declared.clone(),
                found: found.clone(),
            },
            CheckoutError::Pack => CheckoutError::Pack,
        }
    }
}

/// What is said of a manifest with another name.
pub open spec fn mismatch_text(declared: Seq<char>, found: Seq<char>) -> Seq<char> {
    "names don't match: "@ + declared + " was declared, but "@ + found
        + " was found in elba.toml"@
}

/// What is said of a manifest with another name.
pub fn mismatch_message(declared: &Name, found: &Name) -> (message: String)
    ensures
        message@ == mismatch_text(declared@.text, found@.text),
        message@ == "names don't match: "@ + declared.text@ + " was declared, but "@ + found.text@
            + " was found in elba.toml"@,
{
    let mut message = "names don't match: ".to_owned();
    message.append(declared.text.as_str());
    message.append(" was declared, but ");
    message.append(found.text.as_str());
    message.append(" was found in elba.toml");
    message
}

/// What came of a manifest.
#[derive(Debug)]
pub enum ManifestRead {
    /// It could not be opened.
    Missing,
    /// It could not be read.
    Unreadable,
    /// It is not a manifest.
    Invalid,
    /// This is what it says.
    Parsed(Manifest),
}

/// How something went that the checkout of a source asked for.
#[derive(Debug)]
pub enum SourceEvent {
    /// Something that the load of the source asked for.
    Load(LoadEvent),
    /// The manifest.
    Manifest(ManifestRead),
    /// The files of the package, if they could be listed.
    Listed(Option<Vec<FilePath>>),
    /// The tarball of the contents, if they could be packed.
    Packed(Option<Vec<u8>>),
}

/// How something went that the checkout of a source asked for.
pub enum SourceEventModel {
    Load(crate::retrieve::load::LoadEventModel),
    Manifest(ManifestRead),
    Listed(Option<Seq<crate::path::PathModel>>),
    Packed(Option<Seq<u8>>),
}

impl View for SourceEvent {
    type V = SourceEventModel;

    open spec fn view(&self) -> SourceEventModel {
        match *self {
            SourceEvent::Load(event) => SourceEventModel::Load(event@),
            SourceEvent::Manifest(read) => SourceEventModel::Manifest(read),
            SourceEvent::Listed(files) => SourceEventModel::Listed(
                match files {
                    None => None,
                    Some(files) => Some(crate::path::path_views(files@)),
                },
            ),
            SourceEvent::Packed(tarball) => SourceEventModel::Packed(
                match tarball {
                    None => None,
                    Some(bytes) => Some(bytes@),
                },
            ),
        }
    }
}

/// How far the checkout of a source is.
pub enum SourceStateModel {
    Loading(crate::retrieve::load::LoadModel),
    Reading { dir: crate::path::PathModel },
    Listing { meta: Manifest, dir: crate::path::PathModel },
    Packing {
        meta: Manifest,
        dir: crate::path::PathModel,
        files: Seq<crate::path::PathModel>,
    },
    Done(crate::retrieve::cache::SourceModel),
    Failed(CheckoutErrorModel),
}

/// What the checkout of a source is: the name that was asked for, where the source comes from, and
/// how far it is.
pub struct SourceCheckoutModel {
    pub name: crate::package::NameModel,
    pub loc: crate::package::ResModel,
    pub state: SourceStateModel,
}

/// The state of a checkout whose source is being loaded: it goes on once the load has ended.
pub open spec fn loading(load: crate::retrieve::load::LoadModel) -> SourceStateModel {
    match load.state {
        crate::retrieve::load::LoadStateModel::Loaded { dir } => SourceStateModel::Reading { dir },
        crate::retrieve::load::LoadStateModel::Failed { error } => SourceStateModel::Failed(
            CheckoutErrorModel::Load(error),
        ),
        _ => SourceStateModel::Loading(load),
    }
}

/// The checkout of a source at its beginning.
pub open spec fn source_start(
    name: crate::package::NameModel,
    loc: crate::package::ResModel,
    load: crate::retrieve::load::LoadModel,
) -> SourceCheckoutModel {
    SourceCheckoutModel { name, loc, state: loading(load) }
}

/// The checkout of a source after it was told how something went. What it did not ask for does not
/// change it.
pub open spec fn source_step(
    checkout: SourceCheckoutModel,
    event: SourceEventModel,
) -> SourceCheckoutModel {
    let state = match (checkout.state, event) {
        (SourceStateModel::Loading(load), SourceEventModel::Load(event)) => loading(
            crate::retrieve::load::load_step(load, event),
        ),
        (SourceStateModel::Reading { dir }, SourceEventModel::Manifest(read)) => match read {
            ManifestRead::Missing => SourceStateModel::Failed(CheckoutErrorModel::MissingManifest),
            ManifestRead::Unreadable => SourceStateModel::Failed(CheckoutErrorModel::InvalidIndex),
            ManifestRead::Invalid => SourceStateModel::Failed(CheckoutErrorModel::InvalidIndex),
            ManifestRead::Parsed(meta) => if meta.name@ == checkout.name {
                SourceStateModel::Listing { meta, dir }
            } else {
                SourceStateModel::Failed(
                    CheckoutErrorModel::NamesDontMatch {
                        declared: checkout.name,
                        found: meta.name@,
                    },
                )
            },
        },
        (SourceStateModel::Listing { meta, dir }, SourceEventModel::Listed(files)) => match files {
            None => SourceStateModel::Failed(CheckoutErrorModel::Pack),
            Some(files) => SourceStateModel::Packing {
                meta,
                dir,
                files: crate::retrieve::cache::packed_of(files),
            },
        },
        (SourceStateModel::Packing { meta, dir, files }, SourceEventModel::Packed(tarball)) =>
            match tarball {
                None => SourceStateModel::Failed(CheckoutErrorModel::Pack),
                Some(bytes) => SourceStateModel::Done(
                    crate::retrieve::cache::source_of(meta, checkout.loc, dir, bytes),
                ),
            },
        _ => checkout.state,
    };
    SourceCheckoutModel { name: checkout.name, loc: checkout.loc, state }
}

/// The checkout of a source after a number of events.
pub open spec fn source_run(
    checkout: SourceCheckoutModel,
    events: Seq<SourceEventModel>,
) -> SourceCheckoutModel
    decreases events.len(),
{
    if events.len() == 0 {
        checkout
    } else {
        source_step(source_run(checkout, events.drop_last()), events.last())
    }
}

/// How far the checkout of a source is.
#[derive(Debug)]
enum SourceState {
    Loading(Load),
    Reading { lock: DirLock },
    Listing { meta: Manifest, lock: DirLock },
    Packing { meta: Manifest, lock: DirLock, files: Vec<FilePath> },
    Done(Source),
    Failed(CheckoutError),
}

impl View for SourceState {
    type V = SourceStateModel;

    closed spec fn view(&self) -> SourceStateModel {
        match *self {
            SourceState::Loading(load) => SourceStateModel::Loading(load@),
            SourceState::Reading { lock } => SourceStateModel::Reading { dir: lock@ },
            SourceState::Listing { meta, lock } => SourceStateModel::Listing { meta, dir: lock@ },
            SourceState::Packing { meta, lock, files } => SourceStateModel::Packing {
                meta,
                dir: lock@,
                files: crate::path::path_views(files@),
            },
            SourceState::Done(source) => SourceStateModel::Done(source@),
            SourceState::Failed(error) => SourceStateModel::Failed(error@),
        }
    }
}

/// The checkout of a source.
#[derive(Debug)]
pub struct SourceCheckout {
    name: Name,
    loc: DirectRes,
    state: SourceState,
}

impl View for SourceCheckout {
    type V = SourceCheckoutModel;

    closed spec fn view(&self) -> SourceCheckoutModel {
        SourceCheckoutModel {
            name: self.name@,
            loc: self.loc@,
            state: self.state@,
        }
    }
}

/// What has to be done for the checkout of a source.
#[derive(Debug)]
pub enum SourceAction {
    /// Something for the load of the source.
    Load(LoadAction),
    /// Read and parse the manifest at the path.
    ReadManifest { path: FilePath },
    /// List the files in the directory and below, by their paths from the directory.
    List { dir: FilePath },
    /// Pack files of the directory into a tarball at the path, and remove it again.
    Pack { dir: FilePath, files: Vec<FilePath>, tarball: FilePath },
    /// Nothing: take the source.
    Done,
    /// Nothing: the checkout failed.
    Failed(CheckoutError),
}

/// The manifest of a package.
pub open spec fn manifest_of(dir: crate::path::PathModel) -> crate::path::PathModel {
    crate::retrieve::cache::entry_of(dir, "elba.toml"@)
}

/// Whether an action is what the checkout of a source needs next.
pub open spec fn is_source_action(checkout: SourceCheckoutModel, action: SourceAction) -> bool {
    match checkout.state {
        SourceStateModel::Loading(load) => action matches SourceAction::Load(asked)
            && crate::retrieve::load::is_load_action(load, asked),
        SourceStateModel::Reading { dir } => action matches SourceAction::ReadManifest { path }
            && path@ == manifest_of(dir),
        SourceStateModel::Listing { meta, dir } => action matches SourceAction::List { dir: asked }
            && asked@ == dir,
        SourceStateModel::Packing { meta, dir, files } => action matches SourceAction::Pack {
            dir: asked,
            files: wanted,
            tarball,
        } && asked@ == dir && crate::path::path_views(wanted@) == files && tarball@
            == crate::retrieve::cache::tarball_of(dir),
        SourceStateModel::Done(source) => action is Done,
        SourceStateModel::Failed(error) => action matches SourceAction::Failed(told) && told@
            == error,
    }
}

/// The state of a checkout whose source is being loaded.
fn after_load(load: Load) -> (state: SourceState)
    ensures
        state@ == loading(load@),
{
    match load.outcome() {
        Err(load) => SourceState::Loading(load),
        Ok(Ok(lock)) => SourceState::Reading { lock },
        Ok(Err(error)) => SourceState::Failed(CheckoutError::Load(error)),
    }
}

impl SourceCheckout {
    /// Starts the checkout of a source with the load of its directory.
    pub fn start(name: Name, loc: DirectRes, load: Load) -> (checkout: SourceCheckout)
        ensures
            checkout@ == source_start(name@, loc@, load@),
    {
        let state = after_load(load);
        SourceCheckout { name, loc, state }
    }

    /// What has to be done next.
    pub fn action(&self) -> (action: SourceAction)
        ensures
            is_source_action(self@, action),
    {
        match &self.state {
            SourceState::Loading(load) => SourceAction::Load(load.action()),
            SourceState::Reading { lock } => SourceAction::ReadManifest {
                path: lock.path().child("elba.toml"),
            },
            SourceState::Listing { meta: _, lock } => SourceAction::List {
                dir: lock.path().clone(),
            },
            SourceState::Packing { meta: _, lock, files } => SourceAction::Pack {
                dir: lock.path().clone(),
                files: crate::path::copy_paths(files),
                tarball: Source::tarball(lock),
            },
            SourceState::Done(_) => SourceAction::Done,
            SourceState::Failed(error) => SourceAction::Failed(error.clone()),
        }
    }

    /// Goes on, once what had to be done is done.
    pub fn step(self, event: SourceEvent) -> (checkout: SourceCheckout)
        ensures
            checkout@ == source_step(self@, event@),
    {
        let SourceCheckout { name, loc, state } = self;
        let state = match (state, event) {
            (SourceState::Loading(load), SourceEvent::Load(event)) => after_load(load.step(event)),
            (SourceState::Reading { lock }, SourceEvent::Manifest(read)) => match read {
                ManifestRead::Missing => SourceState::Failed(CheckoutError::MissingManifest),
                ManifestRead::Unreadable => SourceState::Failed(CheckoutError::InvalidIndex),
                ManifestRead::Invalid => SourceState::Failed(CheckoutError::InvalidIndex),
                ManifestRead::Parsed(meta) => if meta.name.same(&name) {
                    SourceState::Listing { meta, lock }
                } else {
                    SourceState::Failed(
                        CheckoutError::NamesDontMatch {
                            declared: name.clone(),
                            found: meta.name.clone(),
                        },
                    )
                },
            },
            (SourceState::Listing { meta, lock }, SourceEvent::Listed(files)) => match files {
                None => SourceState::Failed(CheckoutError::Pack),
                Some(files) => SourceState::Packing { meta, lock, files: Source::packed(&files) },
            },
            (
                SourceState::Packing { meta, lock, files: _ },
                SourceEvent::Packed(tarball),
            ) => match tarball {
                None => SourceState::Failed(CheckoutError::Pack),
                Some(bytes) => SourceState::Done(
                    Source::from_folder(meta, loc.clone(), lock, &bytes),
                ),
            },
            (state, _) => state,
        };
        SourceCheckout { name, loc, state }
    }

    /// The source, or why there is none, once the checkout has ended; the checkout itself before.
    pub fn outcome(self) -> (outcome: Result<Result<Source, CheckoutError>, SourceCheckout>)
        ensures
            match self@.state {
                SourceStateModel::Done(source) => outcome matches Ok(Ok(found)) && found@ == source,
                SourceStateModel::Failed(error) => outcome matches Ok(Err(told)) && told@ == error,
                _ => outcome matches Err(checkout) && checkout@ == self@,
            },
    {
        match self.state {
            SourceState::Done(source) => Ok(Ok(source)),
            SourceState::Failed(error) => Ok(Err(error)),
            state => Err(SourceCheckout { name: self.name, loc: self.loc, state }),
        }
    }
}

/// The checkout of a build: a load of its directory.
#[derive(Debug)]
pub struct BuildCheckout {
    load: Load,
}

impl View for BuildCheckout {
    type V = crate::retrieve::load::LoadModel;

    closed spec fn view(&self) -> crate::retrieve::load::LoadModel {
        self.load@
    }
}

impl BuildCheckout {
    /// Starts the checkout of a build with the load of its directory.
    pub fn start(load: Load) -> (checkout: BuildCheckout)
        ensures
            checkout@ == load@,
    {
        BuildCheckout { load }
    }

    /// What has to be done next.
    pub fn action(&self) -> (action: LoadAction)
        ensures
            crate::retrieve::load::is_load_action(self@, action),
    {
        self.load.action()
    }

    /// Goes on, once what had to be done is done.
    pub fn step(self, event: LoadEvent) -> (checkout: BuildCheckout)
        ensures
            checkout@ == crate::retrieve::load::load_step(self@, event@),
    {
        BuildCheckout { load: self.load.step(event) }
    }

    /// The build, or why there is none, once the checkout has ended; the checkout itself before.
    pub fn outcome(self) -> (outcome: Result<Result<Binary, LoadError>, BuildCheckout>)
        ensures
            match self@.state {
                crate::retrieve::load::LoadStateModel::Loaded { dir } => outcome matches Ok(
                    Ok(binary),
                ) && binary@ == dir,
                crate::retrieve::load::LoadStateModel::Failed { error } => outcome matches Ok(
                    Err(told),
                ) && told == error,
                _ => outcome matches Err(checkout) && checkout@ == self@,
            },
    {
        match self.load.outcome() {
            Err(load) => Err(BuildCheckout { load }),
            Ok(Ok(lock)) => Ok(Ok(Binary::new(lock))),
            Ok(Err(error)) => Ok(Err(error)),
        }
    }
}

/// A source that is checked out has the name that was asked for, comes from where it was asked
/// for, and has the digest of its contents as its hash.
pub proof fn law_source_is_what_was_asked_for(
    name: crate::package::NameModel,
    loc: crate::package::ResModel,
    load: crate::retrieve::load::LoadModel,
    events: Seq<SourceEventModel>,
)
    ensures
        ({
            let checkout = source_run(source_start(name, loc, load), events);
            &&& checkout.name == name
            &&& checkout.loc == loc
            &&& checkout.state matches SourceStateModel::Listing { meta, dir } ==> meta.name@
                == name
            &&& checkout.state matches SourceStateModel::Packing { meta, dir, files }
                ==> meta.name@ == name
            &&& checkout.state matches SourceStateModel::Done(source) ==> {
                &&& source.meta.name@ == name
                &&& source.location == loc
                &&& exists|tarball: Seq<u8>|
                    source.hash == #[trigger] crate::util::hash::hex_digest_of(tarball)
                        && events.contains(SourceEventModel::Packed(Some(tarball)))
            }
        }),
    decreases events.len(),
{
    if events.len() > 0 {
        let before = events.drop_last();
        law_source_is_what_was_asked_for(name, loc, load, before);
        let checkout = source_run(source_start(name, loc, load), before);
        assert(events.contains(events[events.len() - 1]));
        if let SourceStateModel::Done(source) = checkout.state {
            let tarball = choose|tarball: Seq<u8>|
                source.hash == #[trigger] crate::util::hash::hex_digest_of(tarball)
                    && before.contains(SourceEventModel::Packed(Some(tarball)));
            let event = SourceEventModel::Packed(Some(tarball));
            let k = choose|k: int| 0 <= k < before.len() && before[k] == event;
            assert(events[k] == event);
        }
    }
}

/// A source that is in the cache, or in a local directory, is never retrieved, whatever happens:
/// only one that was not there when its directory was locked is.
pub proof fn law_cached_source_is_not_retrieved(
    name: crate::package::NameModel,
    loc: crate::package::ResModel,
    check: crate::retrieve::load::CheckModel,
    fill: crate::retrieve::load::FillModel,
    events: Seq<SourceEventModel>,
)
    requires
        check is Found || !events.contains(
            SourceEventModel::Load(crate::retrieve::load::LoadEventModel::Exists(false)),
        ),
    ensures
        ({
            let start = source_start(name, loc, crate::retrieve::load::load_start(check, fill));
            let reached = source_run(start, events).state;
            &&& reached matches SourceStateModel::Loading(load)
                ==> !crate::retrieve::load::has_filled(load) && match load.state {
                crate::retrieve::load::LoadStateModel::Locking { path, next } => next is Link
                    <==> check is Found,
                crate::retrieve::load::LoadStateModel::Probing { dir } => check is Probe,
                _ => true,
            }
            &&& !(reached matches SourceStateModel::Failed(CheckoutErrorModel::Load(error))
                && error == LoadError::Fill)
        }),
    decreases events.len(),
{
    if events.len() > 0 {
        lemma_events_stay(events);
        law_cached_source_is_not_retrieved(name, loc, check, fill, events.drop_last());
    }
}

/// A source that is not in the cache is checked out only after it was retrieved.
pub proof fn law_missing_source_is_retrieved(
    name: crate::package::NameModel,
    loc: crate::package::ResModel,
    path: crate::path::PathModel,
    fill: crate::retrieve::load::FillModel,
    place: crate::path::PathModel,
    events: Seq<SourceEventModel>,
)
    ensures
        ({
            let filled = crate::retrieve::load::LoadEventModel::Filled(true);
            let start = source_start(name, loc, crate::retrieve::load::missing(path, fill, place));
            let reached = source_run(start, events).state;
            &&& reached matches SourceStateModel::Loading(load) ==> load.state is Filling
                || load.state is Discarding
            &&& reached is Reading || reached is Listing || reached is Packing || reached is Done
                ==> events.contains(
                SourceEventModel::Load(filled),
            )
        }),
    decreases events.len(),
{
    if events.len() > 0 {
        let before = events.drop_last();
        law_missing_source_is_retrieved(name, loc, path, fill, place, before);
        lemma_events_stay(events);
    }
}

/// What holds of some events still holds of more.
proof fn lemma_events_stay(events: Seq<SourceEventModel>)
    requires
        events.len() > 0,
    ensures
        events.contains(events.last()),
        forall|event: SourceEventModel| #[trigger]
            events.drop_last().contains(event) ==> events.contains(event),
{
    let before = events.drop_last();
    assert(events[events.len() - 1] == events.last());
    assert forall|event: SourceEventModel| #[trigger]
        before.contains(event) implies events.contains(event) by {
        let k = choose|k: int| 0 <= k < before.len() && before[k] == event;
        assert(events[k] == event);
    }
}

/// A source in a local directory is checked out only after the directory was linked into the cache.
pub proof fn law_local_source_is_linked(
    name: crate::package::NameModel,
    loc: crate::package::ResModel,
    path: crate::path::PathModel,
    link: crate::path::PathModel,
    fill: crate::retrieve::load::FillModel,
    events: Seq<SourceEventModel>,
)
    ensures
        ({
            let check = crate::retrieve::load::CheckModel::Found { path, link };
            let linked = crate::retrieve::load::LoadEventModel::Linked(true);
            let start = source_start(name, loc, crate::retrieve::load::load_start(check, fill));
            let reached = source_run(start, events).state;
            &&& reached matches SourceStateModel::Loading(load) ==> match load.state {
                crate::retrieve::load::LoadStateModel::Locking { path: asked, next } => asked
                    == path && next == crate::retrieve::load::NextModel::Link(link),
                crate::retrieve::load::LoadStateModel::Linking { dir, link: place } => place
                    == link,
                _ => false,
            }
            &&& reached is Reading || reached is Listing || reached is Packing || reached is Done
                ==> events.contains(
                SourceEventModel::Load(linked),
            )
        }),
    decreases events.len(),
{
    if events.len() > 0 {
        law_local_source_is_linked(name, loc, path, link, fill, events.drop_last());
        lemma_events_stay(events);
    }
}

/// A source is checked out if everything goes well that the checkout asks for, and its manifest
/// has the name that was asked for.
pub proof fn law_checkout_succeeds(
    name: crate::package::NameModel,
    loc: crate::package::ResModel,
    load: crate::retrieve::load::LoadModel,
    dir: crate::path::PathModel,
    events: Seq<crate::retrieve::load::LoadEventModel>,
    meta: Manifest,
    files: Seq<crate::path::PathModel>,
    tarball: Seq<u8>,
)
    requires
        crate::retrieve::load::load_run(load, events).state
            == (crate::retrieve::load::LoadStateModel::Loaded { dir }),
        meta.name@ == name,
    ensures
        ({
            let manifest = SourceEventModel::Manifest(ManifestRead::Parsed(meta));
            let listed = SourceEventModel::Listed(Some(files));
            let packed = SourceEventModel::Packed(Some(tarball));
            source_run(
                source_start(name, loc, load),
                load_events(events).push(manifest).push(listed).push(packed),
            ) == (SourceCheckoutModel {
                name,
                loc,
                state: SourceStateModel::Done(
                    crate::retrieve::cache::source_of(meta, loc, dir, tarball),
                ),
            })
        }),
{
    let manifest = SourceEventModel::Manifest(ManifestRead::Parsed(meta));
    let listed = SourceEventModel::Listed(Some(files));
    let packed = SourceEventModel::Packed(Some(tarball));
    let loads = load_events(events);
    lemma_load_events(name, loc, load, events);
    reveal_with_fuel(source_run, 4);
    assert(loads.push(manifest).push(listed).push(packed).drop_last() =~= loads.push(
        manifest,
    ).push(listed));
    assert(loads.push(manifest).push(listed).drop_last() =~= loads.push(manifest));
    assert(loads.push(manifest).drop_last() =~= loads);
}

/// Events of a load, as events of the checkout that it belongs to.
pub open spec fn load_events(events: Seq<crate::retrieve::load::LoadEventModel>) -> Seq<
    SourceEventModel,
> {
    events.map_values(
        |event: crate::retrieve::load::LoadEventModel| SourceEventModel::Load(event),
    )
}

/// Events of a load take a checkout to where they take the load.
proof fn lemma_load_events(
    name: crate::package::NameModel,
    loc: crate::package::ResModel,
    load: crate::retrieve::load::LoadModel,
    events: Seq<crate::retrieve::load::LoadEventModel>,
)
    ensures
        source_run(source_start(name, loc, load), load_events(events)) == source_start(
            name,
            loc,
            crate::retrieve::load::load_run(load, events),
        ),
    decreases events.len(),
{
    if events.len() > 0 {
        let before = events.drop_last();
        lemma_load_events(name, loc, load, before);
        assert(load_events(events).drop_last() =~= load_events(before));
    }
}

/// Whether an event is one that the checkout of a source asked for.
pub open spec fn answers(checkout: SourceCheckoutModel, event: SourceEventModel) -> bool {
    match checkout.state {
        SourceStateModel::Loading(load) => event matches SourceEventModel::Load(event)
            && crate::retrieve::load::answers(load, event),
        SourceStateModel::Reading { dir } => event is Manifest,
        SourceStateModel::Listing { meta, dir } => event is Listed,
        SourceStateModel::Packing { meta, dir, files } => event is Packed,
        _ => false,
    }
}

/// How many more answers the checkout of a source may need.
pub open spec fn answers_left(checkout: SourceCheckoutModel) -> nat {
    match checkout.state {
        SourceStateModel::Loading(load) => match load.state {
            crate::retrieve::load::LoadStateModel::Locking { path, next } => 6,
            crate::retrieve::load::LoadStateModel::Probing { dir } => 5,
            crate::retrieve::load::LoadStateModel::Discarding { dir } => 1,
            _ => 4,
        },
        SourceStateModel::Reading { dir } => 3,
        SourceStateModel::Listing { meta, dir } => 2,
        SourceStateModel::Packing { meta, dir, files } => 1,
        _ => 0,
    }
}

/// The checkout of a source needs at most six answers: each of them brings it nearer to its end.
pub proof fn law_answers_end_a_checkout(checkout: SourceCheckoutModel, event: SourceEventModel)
    ensures
        answers_left(checkout) <= 6,
        answers_left(checkout) == 0 <==> checkout.state is Done || checkout.state is Failed,
        answers(checkout, event) ==> answers_left(source_step(checkout, event)) < answers_left(
            checkout,
        ),
{
}

/// One more ibc file in a package, wherever it is listed, changes nothing of its checkout.
pub proof fn law_stray_ibc_file_changes_nothing(
    checkout: SourceCheckoutModel,
    files: Seq<crate::path::PathModel>,
    at: int,
    stray: crate::path::PathModel,
)
    requires
        0 <= at <= files.len(),
        stray.has_extension(crate::retrieve::cache::ibc()),
    ensures
        source_step(checkout, SourceEventModel::Listed(Some(files.insert(at, stray))))
            == source_step(checkout, SourceEventModel::Listed(Some(files))),
{
    crate::retrieve::cache::law_stray_ibc_files_do_not_matter(files, at, stray);
}

/// Once a checkout has ended, nothing changes it.
pub proof fn law_checkout_ends(checkout: SourceCheckoutModel, events: Seq<SourceEventModel>)
    requires
        checkout.state is Done || checkout.state is Failed,
    ensures
        source_run(checkout, events) == checkout,
    decreases events.len(),
{
    if events.len() > 0 {
        law_checkout_ends(checkout, events.drop_last());
    }
}

/// How a checkout begins: with the load of the source, for the name and the place that it was
/// asked for.
pub proof fn law_checkout_begins_with_the_load(
    name: crate::package::NameModel,
    loc: crate::package::ResModel,
    load: crate::retrieve::load::LoadModel,
)
    ensures
        source_start(name, loc, load).name == name,
        source_start(name, loc, load).loc == loc,
        source_start(name, loc, load).state == match load.state {
            crate::retrieve::load::LoadStateModel::Loaded { dir } => SourceStateModel::Reading {
                dir,
            },
            crate::retrieve::load::LoadStateModel::Failed { error } => SourceStateModel::Failed(
                CheckoutErrorModel::Load(error),
            ),
            _ => SourceStateModel::Loading(load),
        },
{
}

/// A checkout goes on as its load does, and reads the manifest once the source is loaded.
pub proof fn law_checkout_follows_its_load(
    checkout: SourceCheckoutModel,
    load: crate::retrieve::load::LoadModel,
    event: crate::retrieve::load::LoadEventModel,
)
    requires
        checkout.state == SourceStateModel::Loading(load),
    ensures
        source_step(checkout, SourceEventModel::Load(event)) == (SourceCheckoutModel {
            name: checkout.name,
            loc: checkout.loc,
            state: match crate::retrieve::load::load_step(load, event).state {
                crate::retrieve::load::LoadStateModel::Loaded { dir } =>
                    SourceStateModel::Reading { dir },
                crate::retrieve::load::LoadStateModel::Failed { error } =>
                    SourceStateModel::Failed(CheckoutErrorModel::Load(error)),
                _ => SourceStateModel::Loading(crate::retrieve::load::load_step(load, event)),
            },
        }),
{
}

/// What comes of a manifest: one that has the name that was asked for is taken, and nothing else
/// is, wherever the source comes from.
pub proof fn law_manifest_decides(
    checkout: SourceCheckoutModel,
    dir: crate::path::PathModel,
    meta: Manifest,
)
    requires
        checkout.state == (SourceStateModel::Reading { dir }),
    ensures
        ({
            let after = |read: ManifestRead|
                source_step(checkout, SourceEventModel::Manifest(read));
            let reached = |state: SourceStateModel|
                SourceCheckoutModel { name: checkout.name, loc: checkout.loc, state };
            &&& after(ManifestRead::Missing) == reached(
                SourceStateModel::Failed(CheckoutErrorModel::MissingManifest),
            )
            &&& after(ManifestRead::Unreadable) == reached(
                SourceStateModel::Failed(CheckoutErrorModel::InvalidIndex),
            )
            &&& after(ManifestRead::Invalid) == reached(
                SourceStateModel::Failed(CheckoutErrorModel::InvalidIndex),
            )
            &&& meta.name@ == checkout.name ==> after(ManifestRead::Parsed(meta)) == reached(
                SourceStateModel::Listing { meta, dir },
            )
            &&& meta.name@ != checkout.name ==> after(ManifestRead::Parsed(meta)) == reached(
                SourceStateModel::Failed(
                    CheckoutErrorModel::NamesDontMatch {
                        declared: checkout.name,
                        found: meta.name@,
                    },
                ),
            )
        }),
{
}

/// Every listed file that is not an ibc file is packed, and no other, as often as it is listed and
/// in that order, wherever the source comes from.
pub proof fn law_listed_files_are_packed(
    checkout: SourceCheckoutModel,
    meta: Manifest,
    dir: crate::path::PathModel,
    files: Seq<crate::path::PathModel>,
)
    requires
        checkout.state == (SourceStateModel::Listing { meta, dir }),
    ensures
        ({
            let after = source_step(checkout, SourceEventModel::Listed(Some(files)));
            &&& after.name == checkout.name
            &&& after.loc == checkout.loc
            &&& after.state matches SourceStateModel::Packing {
                meta: kept,
                dir: place,
                files: packed,
            }
            &&& kept == meta
            &&& place == dir
            &&& packed == crate::retrieve::cache::packed_of(files)
            &&& forall|file: crate::path::PathModel| #[trigger]
                packed.contains(file) <==> files.contains(file) && !file.has_extension(
                    seq![105u8, 98, 99],
                )
        }),
        source_step(checkout, SourceEventModel::Listed(None)) == (SourceCheckoutModel {
            name: checkout.name,
            loc: checkout.loc,
            state: SourceStateModel::Failed(CheckoutErrorModel::Pack),
        }),
{
    crate::retrieve::cache::lemma_ibc();
    crate::retrieve::cache::law_everything_else_is_packed(files);
}

/// A source that is packed is done: it has its manifest, the place that it was asked for from, its
/// directory, and the digest of the whole tarball.
pub proof fn law_packed_source_is_done(
    checkout: SourceCheckoutModel,
    meta: Manifest,
    dir: crate::path::PathModel,
    files: Seq<crate::path::PathModel>,
    tarball: Seq<u8>,
)
    requires
        checkout.state == (SourceStateModel::Packing { meta, dir, files }),
    ensures
        source_step(checkout, SourceEventModel::Packed(Some(tarball))) == (SourceCheckoutModel {
            name: checkout.name,
            loc: checkout.loc,
            state: SourceStateModel::Done(
                crate::retrieve::cache::SourceModel {
                    meta,
                    location: checkout.loc,
                    path: dir,
                    hash: crate::util::hash::hex_of(crate::util::hash::sha256(tarball)),
                },
            ),
        }),
        source_step(checkout, SourceEventModel::Packed(None)) == (SourceCheckoutModel {
            name: checkout.name,
            loc: checkout.loc,
            state: SourceStateModel::Failed(CheckoutErrorModel::Pack),
        }),
{
}

/// What the checkout of a source asks for in each state: the manifest in the directory that is
/// loaded, a list of its files, and a tarball beside it of the files to pack.
pub proof fn law_checkout_asks_for_what_it_needs(
    checkout: SourceCheckoutModel,
    action: SourceAction,
)
    requires
        is_source_action(checkout, action),
    ensures
        match checkout.state {
            SourceStateModel::Loading(load) => action matches SourceAction::Load(asked)
                && crate::retrieve::load::is_load_action(load, asked),
            SourceStateModel::Reading { dir } => action matches SourceAction::ReadManifest { path }
                && path@ == dir.join(
                crate::path::path_of(seq![101u8, 108, 98, 97, 46, 116, 111, 109, 108]),
            ),
            SourceStateModel::Listing { meta, dir } => action matches SourceAction::List {
                dir: asked,
            } && asked@ == dir,
            SourceStateModel::Packing { meta, dir, files } => action matches SourceAction::Pack {
                dir: asked,
                files: wanted,
                tarball,
            } && asked@ == dir && crate::path::path_views(wanted@) == files && tarball@
                == dir.with_extension(seq![116u8, 97, 114]),
            SourceStateModel::Done(source) => action is Done,
            SourceStateModel::Failed(error) => action matches SourceAction::Failed(told) && told@
                == error,
        },
{
    reveal_strlit("elba.toml");
    vstd::utf8::is_ascii_chars_encode_utf8("elba.toml"@);
    assert(vstd::utf8::encode_utf8("elba.toml"@) =~= seq![
        101u8,
        108,
        98,
        97,
        46,
        116,
        111,
        109,
        108,
    ]);
    if let SourceStateModel::Packing { meta, dir, files } = checkout.state {
        crate::retrieve::cache::law_tarball_has_its_extension(dir);
    }
}

/// What a checkout did not ask for does not change it, and nothing changes one that has ended.
pub proof fn law_nothing_else_changes_a_checkout(
    checkout: SourceCheckoutModel,
    event: SourceEventModel,
)
    requires
        match checkout.state {
            SourceStateModel::Loading(load) => !(event is Load),
            SourceStateModel::Reading { dir } => !(event is Manifest),
            SourceStateModel::Listing { meta, dir } => !(event is Listed),
            SourceStateModel::Packing { meta, dir, files } => !(event is Packed),
            SourceStateModel::Done(source) => true,
            SourceStateModel::Failed(error) => true,
        },
    ensures
        source_step(checkout, event) == checkout,
{
}

/// Answers and errors are what they hold.
pub proof fn law_views_show_everything(
    event: LoadEvent,
    read: ManifestRead,
    files: Vec<FilePath>,
    tarball: Vec<u8>,
    error: LoadError,
    declared: Name,
    found: Name,
)
    ensures
        SourceEvent::Load(event)@ == SourceEventModel::Load(event@),
        SourceEvent::Manifest(read)@ == SourceEventModel::Manifest(read),
        SourceEvent::Listed(None)@ == SourceEventModel::Listed(None),
        SourceEvent::Listed(Some(files))@ == SourceEventModel::Listed(
            Some(crate::path::path_views(files@)),
        ),
        SourceEvent::Packed(None)@ == SourceEventModel::Packed(None),
        SourceEvent::Packed(Some(tarball))@ == SourceEventModel::Packed(Some(tarball@)),
        CheckoutError::Load(error)@ == CheckoutErrorModel::Load(error),
        CheckoutError::MissingManifest@ == CheckoutErrorModel::MissingManifest,
        CheckoutError::InvalidIndex@ == CheckoutErrorModel::InvalidIndex,
        CheckoutError::Pack@ == CheckoutErrorModel::Pack,
        (CheckoutError::NamesDontMatch { declared, found })@ == (
        CheckoutErrorModel::NamesDontMatch { declared: declared@, found: found@ }),
{
}

} // verus!
