//! Loading a directory of the cache: it is locked, and filled unless it is there. A local directory
//! is locked where it is, and linked into the cache.
//!
//! A `Load` says what has to be done next, and is told how that went.
use crate::package::DirectRes;
use crate::path::FilePath;
use crate::util::lock::DirLock;
use vstd::prelude::*;

verus! {

/// What a check is.
#[verifier::ext_equal]
pub enum CheckModel {
    Found { path: crate::path::PathModel, link: crate::path::PathModel },
    Probe(crate::path::PathModel),
}

/// Whether something is in the cache.
#[derive(Debug)]
pub enum Check {
    /// It is a local directory, at this path, with a link to it in the cache.
    Found { path: FilePath, link: FilePath },
    /// It is at this path if there is anything there.
    Probe(FilePath),
}

impl View for Check {
    type V = CheckModel;

    open spec fn view(&self) -> CheckModel {
        match *self {
            Check::Found { path, link } => CheckModel::Found { path: path@, link: link@ },
            Check::Probe(path) => CheckModel::Probe(path@),
        }
    }
}

/// What the contents of a directory are.
#[verifier::ext_equal]
pub enum FillModel {
    Retrieve(crate::package::ResModel),
    Copy(crate::path::PathModel),
}

/// Where the contents of a directory come from that is not in the cache.
#[derive(Debug)]
pub enum Fill {
    /// They are retrieved.
    Retrieve(DirectRes),
    /// They are copied from a directory.
    Copy(FilePath),
}

impl View for Fill {
    type V = FillModel;

    open spec fn view(&self) -> FillModel {
        match *self {
            Fill::Retrieve(res) => FillModel::Retrieve(res@),
            Fill::Copy(path) => FillModel::Copy(path@),
        }
    }
}

impl Clone for Fill {
    fn clone(&self) -> (copy: Self)
        ensures
            copy@ == self@,
    {
        match self {
            Fill::Retrieve(res) => Fill::Retrieve(res.clone()),
            Fill::Copy(path) => Fill::Copy(path.clone()),
        }
    }
}

/// Why a directory could not be loaded.
#[derive(Clone, Copy, PartialEq, Eq, Debug, Structural)]
pub enum LoadError {
    /// It could not be locked.
    Lock,
    /// It could not be filled.
    Fill,
    /// It could not be linked into the cache.
    Link,
}

/// What is done with a directory once it is locked.
#[verifier::ext_equal]
pub enum NextModel {
    /// It is filled, unless it is there.
    Probe,
    /// It is linked into the cache.
    Link(crate::path::PathModel),
}

/// How far a load is.
#[verifier::ext_equal]
pub enum LoadStateModel {
    Locking { path: crate::path::PathModel, next: NextModel },
    Probing { dir: crate::path::PathModel },
    Linking { dir: crate::path::PathModel, link: crate::path::PathModel },
    Filling { dir: crate::path::PathModel },
    Discarding { dir: crate::path::PathModel },
    Loaded { dir: crate::path::PathModel },
    Failed { error: LoadError },
}

/// What a load is: where the contents come from, and how far it is.
#[verifier::ext_equal]
pub struct LoadModel {
    pub fill: FillModel,
    pub state: LoadStateModel,
}

/// How something went that a load asked for.
#[verifier::ext_equal]
pub enum LoadEventModel {
    Locked(Option<crate::path::PathModel>),
    Exists(bool),
    Linked(bool),
    Filled(bool),
    Discarded,
}

/// A load at its beginning.
pub open spec fn load_start(check: CheckModel, fill: FillModel) -> LoadModel {
    LoadModel {
        fill,
        state: match check {
            CheckModel::Found { path, link } => LoadStateModel::Locking {
                path,
                next: NextModel::Link(link),
            },
            CheckModel::Probe(path) => LoadStateModel::Locking { path, next: NextModel::Probe },
        },
    }
}

/// A load after it was told how something went. What it did not ask for does not change it.
pub open spec fn load_step(load: LoadModel, event: LoadEventModel) -> LoadModel {
    let state = match (load.state, event) {
        (LoadStateModel::Locking { path, next }, LoadEventModel::Locked(lock)) => match lock {
            None => LoadStateModel::Failed { error: LoadError::Lock },
            Some(dir) => match next {
                NextModel::Probe => LoadStateModel::Probing { dir },
                NextModel::Link(link) => LoadStateModel::Linking { dir, link },
            },
        },
        (LoadStateModel::Probing { dir }, LoadEventModel::Exists(exists)) => if exists {
            LoadStateModel::Loaded { dir }
        } else {
            LoadStateModel::Filling { dir }
        },
        (LoadStateModel::Linking { dir, link }, LoadEventModel::Linked(linked)) => if linked {
            LoadStateModel::Loaded { dir }
        } else {
            LoadStateModel::Failed { error: LoadError::Link }
        },
        (LoadStateModel::Filling { dir }, LoadEventModel::Filled(filled)) => if filled {
            LoadStateModel::Loaded { dir }
        } else {
            LoadStateModel::Discarding { dir }
        },
        (LoadStateModel::Discarding { dir }, LoadEventModel::Discarded) => LoadStateModel::Failed {
            error: LoadError::Fill,
        },
        _ => load.state,
    };
    LoadModel { fill: load.fill, state }
}

/// A load after a number of events.
pub open spec fn load_run(load: LoadModel, events: Seq<LoadEventModel>) -> LoadModel
    decreases events.len(),
{
    if events.len() == 0 {
        load
    } else {
        load_step(load_run(load, events.drop_last()), events.last())
    }
}

/// What is done with a directory once it is locked.
#[derive(Debug)]
enum Next {
    Probe,
    Link(FilePath),
}

impl View for Next {
    type V = NextModel;

    closed spec fn view(&self) -> NextModel {
        match *self {
            Next::Probe => NextModel::Probe,
            Next::Link(link) => NextModel::Link(link@),
        }
    }
}

/// How far a load is.
#[derive(Debug)]
enum LoadState {
    Locking { path: FilePath, next: Next },
    Probing { lock: DirLock },
    Linking { lock: DirLock, link: FilePath },
    Filling { lock: DirLock },
    Discarding { lock: DirLock },
    Loaded { lock: DirLock },
    Failed { error: LoadError },
}

/// The load of a directory.
#[derive(Debug)]
pub struct Load {
    fill: Fill,
    state: LoadState,
}

impl View for Load {
    type V = LoadModel;

    closed spec fn view(&self) -> LoadModel {
        LoadModel {
            fill: self.fill@,
            state: match self.state {
                LoadState::Locking { path, next } => LoadStateModel::Locking {
                    path: path@,
                    next: next@,
                },
                LoadState::Probing { lock } => LoadStateModel::Probing { dir: lock@ },
                LoadState::Linking { lock, link } => LoadStateModel::Linking {
                    dir: lock@,
                    link: link@,
                },
                LoadState::Filling { lock } => LoadStateModel::Filling { dir: lock@ },
                LoadState::Discarding { lock } => LoadStateModel::Discarding { dir: lock@ },
                LoadState::Loaded { lock } => LoadStateModel::Loaded { dir: lock@ },
                LoadState::Failed { error } => LoadStateModel::Failed { error },
            },
        }
    }
}

/// How something went that a load asked for.
#[derive(Debug)]
pub enum LoadEvent {
    /// The lock, if the directory could be locked.
    Locked(Option<DirLock>),
    /// Whether there is anything in the place of the directory.
    Exists(bool),
    /// Whether the directory was linked into the cache.
    Linked(bool),
    /// Whether the directory was filled.
    Filled(bool),
    /// What was in the directory is gone, as far as it can be removed.
    Discarded,
}

impl View for LoadEvent {
    type V = LoadEventModel;

    open spec fn view(&self) -> LoadEventModel {
        match *self {
            LoadEvent::Locked(lock) => LoadEventModel::Locked(
                match lock {
                    None => None,
                    Some(lock) => Some(lock@),
                },
            ),
            LoadEvent::Exists(exists) => LoadEventModel::Exists(exists),
            LoadEvent::Linked(linked) => LoadEventModel::Linked(linked),
            LoadEvent::Filled(filled) => LoadEventModel::Filled(filled),
            LoadEvent::Discarded => LoadEventModel::Discarded,
        }
    }
}

/// What has to be done for a load.
#[derive(Debug)]
pub enum LoadAction {
    /// Lock the directory. One that must exist cannot be locked where it is not there; another one
    /// can be.
    Lock { path: FilePath, must_exist: bool },
    /// See whether there is anything in the place of the directory.
    Exists { dir: FilePath },
    /// Have a symbolic link to the directory at `link`.
    Link { dir: FilePath, link: FilePath },
    /// Make the directory and fill it.
    Fill { fill: Fill, dir: FilePath },
    /// Remove the directory, which could not be filled and would count as cached.
    Discard { dir: FilePath },
    /// Nothing: take the lock.
    Loaded,
    /// Nothing: the load failed.
    Failed { error: LoadError },
}

/// Whether an action is what a load needs next.
pub open spec fn is_load_action(load: LoadModel, action: LoadAction) -> bool {
    match load.state {
        LoadStateModel::Locking { path, next } => action matches LoadAction::Lock {
            path: asked,
            must_exist,
        } && asked@ == path && must_exist == (next is Link),
        LoadStateModel::Probing { dir } => action matches LoadAction::Exists { dir: asked }
            && asked@ == dir,
        LoadStateModel::Linking { dir, link } => action matches LoadAction::Link {
            dir: asked,
            link: place,
        } && asked@ == dir && place@ == link,
        LoadStateModel::Filling { dir } => action matches LoadAction::Fill { fill, dir: asked }
            && fill@ == load.fill && asked@ == dir,
        LoadStateModel::Discarding { dir } => action matches LoadAction::Discard { dir: asked }
            && asked@ == dir,
        LoadStateModel::Loaded { dir } => action is Loaded,
        LoadStateModel::Failed { error } => action matches LoadAction::Failed { error: told }
            && told == error,
    }
}

impl Load {
    /// Starts a load, with what is known of the directory and where its contents come from.
    pub fn start(check: Check, fill: Fill) -> (load: Load)
        ensures
            load@ == load_start(check@, fill@),
    {
        let state = match check {
            Check::Found { path, link } => LoadState::Locking { path, next: Next::Link(link) },
            Check::Probe(path) => LoadState::Locking { path, next: Next::Probe },
        };
        Load { fill, state }
    }

    /// What has to be done next.
    pub fn action(&self) -> (action: LoadAction)
        ensures
            is_load_action(self@, action),
    {
        match &self.state {
            LoadState::Locking { path, next } => LoadAction::Lock {
                path: path.clone(),
                must_exist: match next {
                    Next::Probe => false,
                    Next::Link(_) => true,
                },
            },
            LoadState::Probing { lock } => LoadAction::Exists { dir: lock.path().clone() },
            LoadState::Linking { lock, link } => LoadAction::Link {
                dir: lock.path().clone(),
                link: link.clone(),
            },
            LoadState::Filling { lock } => LoadAction::Fill {
                fill: self.fill.clone(),
                dir: lock.path().clone(),
            },
            LoadState::Discarding { lock } => LoadAction::Discard { dir: lock.path().clone() },
            LoadState::Loaded { lock: _ } => LoadAction::Loaded,
            LoadState::Failed { error } => LoadAction::Failed { error: *error },
        }
    }

    /// Goes on, once what had to be done is done.
    pub fn step(self, event: LoadEvent) -> (load: Load)
        ensures
            load@ == load_step(self@, event@),
    {
        let state = match (self.state, event) {
            (LoadState::Locking { path: _, next }, LoadEvent::Locked(lock)) => match lock {
                None => LoadState::Failed { error: LoadError::Lock },
                Some(lock) => match next {
                    Next::Probe => LoadState::Probing { lock },
                    Next::Link(link) => LoadState::Linking { lock, link },
                },
            },
            (LoadState::Probing { lock }, LoadEvent::Exists(exists)) => if exists {
                LoadState::Loaded { lock }
            } else {
                LoadState::Filling { lock }
            },
            (LoadState::Linking { lock, link: _ }, LoadEvent::Linked(linked)) => if linked {
                LoadState::Loaded { lock }
            } else {
                LoadState::Failed { error: LoadError::Link }
            },
            (LoadState::Filling { lock }, LoadEvent::Filled(filled)) => if filled {
                LoadState::Loaded { lock }
            } else {
                LoadState::Discarding { lock }
            },
            (LoadState::Discarding { lock: _ }, LoadEvent::Discarded) => LoadState::Failed {
                error: LoadError::Fill,
            },
            (state, _) => state,
        };
        Load { fill: self.fill, state }
    }

    /// The lock of the directory, or why there is none, once the load has ended; the load itself
    /// before.
    pub fn outcome(self) -> (outcome: Result<Result<DirLock, LoadError>, Load>)
        ensures
            match self@.state {
                LoadStateModel::Loaded { dir } => outcome matches Ok(Ok(lock)) && lock@ == dir,
                LoadStateModel::Failed { error } => outcome matches Ok(Err(told)) && told == error,
                _ => outcome matches Err(load) && load@ == self@,
            },
    {
        match self.state {
            LoadState::Loaded { lock } => Ok(Ok(lock)),
            LoadState::Failed { error } => Ok(Err(error)),
            state => Err(Load { fill: self.fill, state }),
        }
    }
}

/// A load whose directory was locked and is not in the cache.
pub open spec fn missing(
    path: crate::path::PathModel,
    fill: FillModel,
    dir: crate::path::PathModel,
) -> LoadModel {
    load_step(
        load_step(
            load_start(CheckModel::Probe(path), fill),
            LoadEventModel::Locked(Some(dir)),
        ),
        LoadEventModel::Exists(false),
    )
}

/// Whether a load has gone on to fill its directory.
pub open spec fn has_filled(load: LoadModel) -> bool {
    match load.state {
        LoadStateModel::Failed { error } => error == LoadError::Fill,
        state => state is Filling || state is Discarding,
    }
}

/// What holds of some events still holds of more.
proof fn lemma_events_stay(events: Seq<LoadEventModel>)
    requires
        events.len() > 0,
    ensures
        events.contains(events.last()),
        forall|event: LoadEventModel| #[trigger]
            events.drop_last().contains(event) ==> events.contains(event),
{
    let before = events.drop_last();
    assert(events[events.len() - 1] == events.last());
    assert forall|event: LoadEventModel| #[trigger] before.contains(event) implies events.contains(
        event,
    ) by {
        let k = choose|k: int| 0 <= k < before.len() && before[k] == event;
        assert(events[k] == event);
    }
}

/// A directory that is there is never filled, and so never discarded, whatever happens: only one
/// that was not there when it was locked is.
pub proof fn law_cached_is_not_filled(
    check: CheckModel,
    fill: FillModel,
    events: Seq<LoadEventModel>,
)
    ensures
        has_filled(load_run(load_start(check, fill), events)) ==> check is Probe
            && events.contains(LoadEventModel::Exists(false)),
        load_run(load_start(check, fill), events).state is Probing ==> check is Probe,
        load_run(load_start(check, fill), events).state matches LoadStateModel::Locking {
            path,
            next,
        } ==> (next is Probe <==> check is Probe),
    decreases events.len(),
{
    if events.len() > 0 {
        law_cached_is_not_filled(check, fill, events.drop_last());
        lemma_events_stay(events);
    }
}

/// A directory that is not in the cache is loaded only after it was filled.
pub proof fn law_missing_is_filled(
    path: crate::path::PathModel,
    fill: FillModel,
    dir: crate::path::PathModel,
    events: Seq<LoadEventModel>,
)
    ensures
        ({
            let reached = load_run(missing(path, fill, dir), events).state;
            ||| reached == (LoadStateModel::Filling { dir })
            ||| reached == (LoadStateModel::Discarding { dir })
            ||| reached == (LoadStateModel::Loaded { dir }) && events.contains(
                LoadEventModel::Filled(true),
            )
            ||| reached == (LoadStateModel::Failed { error: LoadError::Fill }) && events.contains(
                LoadEventModel::Discarded,
            )
        }),
    decreases events.len(),
{
    if events.len() > 0 {
        law_missing_is_filled(path, fill, dir, events.drop_last());
        lemma_events_stay(events);
    }
}

/// A directory is loaded only after it was locked: a local one also after it was linked into the
/// cache, and another one after it was found to be there, or filled.
pub proof fn law_loaded_is_locked(check: CheckModel, fill: FillModel, events: Seq<LoadEventModel>)
    ensures
        ({
            let reached = load_run(load_start(check, fill), events).state;
            let locked = |dir: crate::path::PathModel|
                events.contains(LoadEventModel::Locked(Some(dir)));
            match reached {
                LoadStateModel::Locking { path, next } => match check {
                    CheckModel::Found { path: known, link } => path == known && next
                        == NextModel::Link(link),
                    CheckModel::Probe(known) => path == known && next == NextModel::Probe,
                },
                LoadStateModel::Probing { dir } => check is Probe && locked(dir),
                LoadStateModel::Linking { dir, link } => locked(dir) && (check matches
                    CheckModel::Found { path, link: place } && link == place),
                LoadStateModel::Filling { dir } => check is Probe && locked(dir),
                LoadStateModel::Discarding { dir } => check is Probe && locked(dir),
                LoadStateModel::Loaded { dir } => locked(dir) && match check {
                    CheckModel::Found { path, link } => events.contains(
                        LoadEventModel::Linked(true),
                    ),
                    CheckModel::Probe(path) => events.contains(LoadEventModel::Exists(true))
                        || events.contains(LoadEventModel::Filled(true)),
                },
                LoadStateModel::Failed { error } => true,
            }
        }),
    decreases events.len(),
{
    if events.len() > 0 {
        law_loaded_is_locked(check, fill, events.drop_last());
        lemma_events_stay(events);
    }
}

/// A directory is loaded if everything goes well that the load asks for.
pub proof fn law_load_succeeds(
    path: crate::path::PathModel,
    link: crate::path::PathModel,
    fill: FillModel,
    dir: crate::path::PathModel,
)
    ensures
        ({
            let locked = LoadEventModel::Locked(Some(dir));
            let exists = LoadEventModel::Exists(true);
            let missing = LoadEventModel::Exists(false);
            let linked = LoadEventModel::Linked(true);
            let filled = LoadEventModel::Filled(true);
            let found = load_start(CheckModel::Found { path, link }, fill);
            let probed = load_start(CheckModel::Probe(path), fill);
            let loaded = LoadModel { fill, state: LoadStateModel::Loaded { dir } };
            &&& load_run(found, seq![locked, linked]) == loaded
            &&& load_run(probed, seq![locked, exists]) == loaded
            &&& load_run(probed, seq![locked, missing, filled]) == loaded
        }),
{
    let locked = LoadEventModel::Locked(Some(dir));
    let exists = LoadEventModel::Exists(true);
    let missing = LoadEventModel::Exists(false);
    let linked = LoadEventModel::Linked(true);
    let filled = LoadEventModel::Filled(true);
    reveal_with_fuel(load_run, 4);
    assert(seq![locked, linked].drop_last() =~= seq![locked]);
    assert(seq![locked, exists].drop_last() =~= seq![locked]);
    assert(seq![locked, missing, filled].drop_last() =~= seq![locked, missing]);
    assert(seq![locked, missing].drop_last() =~= seq![locked]);
}

/// Whether an event is one that a load asked for.
pub open spec fn answers(load: LoadModel, event: LoadEventModel) -> bool {
    match load.state {
        LoadStateModel::Locking { path, next } => event is Locked,
        LoadStateModel::Probing { dir } => event is Exists,
        LoadStateModel::Linking { dir, link } => event is Linked,
        LoadStateModel::Filling { dir } => event is Filled,
        LoadStateModel::Discarding { dir } => event is Discarded,
        _ => false,
    }
}

/// How many more answers a load may need.
pub open spec fn answers_left(load: LoadModel) -> nat {
    match load.state {
        LoadStateModel::Locking { path, next } => 4,
        LoadStateModel::Probing { dir } => 3,
        LoadStateModel::Filling { dir } => 2,
        LoadStateModel::Linking { dir, link } => 1,
        LoadStateModel::Discarding { dir } => 1,
        _ => 0,
    }
}

/// A load needs at most four answers: each of them brings it nearer to its end, and nothing else
/// changes it.
pub proof fn law_answers_end_a_load(load: LoadModel, event: LoadEventModel)
    ensures
        answers_left(load) <= 4,
        answers_left(load) == 0 <==> load.state is Loaded || load.state is Failed,
        answers(load, event) ==> answers_left(load_step(load, event)) < answers_left(load),
        !answers(load, event) ==> load_step(load, event) == load,
{
}

/// Once a load has ended, nothing changes it.
pub proof fn law_load_ends(load: LoadModel, events: Seq<LoadEventModel>)
    requires
        load.state is Loaded || load.state is Failed,
    ensures
        load_run(load, events) == load,
    decreases events.len(),
{
    if events.len() > 0 {
        law_load_ends(load, events.drop_last());
    }
}

/// How a load begins: with the lock on a directory, which is then linked into the cache if it is a
/// local one, and looked for otherwise.
pub proof fn law_load_begins_with_the_lock(
    path: crate::path::PathModel,
    link: crate::path::PathModel,
    fill: FillModel,
)
    ensures
        load_start(CheckModel::Found { path, link }, fill) == (LoadModel {
            fill,
            state: LoadStateModel::Locking { path, next: NextModel::Link(link) },
        }),
        load_start(CheckModel::Probe(path), fill) == (LoadModel {
            fill,
            state: LoadStateModel::Locking { path, next: NextModel::Probe },
        }),
{
}

/// What comes of each answer, whatever is loaded and from wherever it is filled.
pub proof fn law_answers_decide_a_load(
    fill: FillModel,
    path: crate::path::PathModel,
    dir: crate::path::PathModel,
    link: crate::path::PathModel,
    next: NextModel,
)
    ensures
        ({
            let after = |state: LoadStateModel, event: LoadEventModel|
                load_step(LoadModel { fill, state }, event);
            let reached = |state: LoadStateModel| LoadModel { fill, state };
            let loaded = reached(LoadStateModel::Loaded { dir });
            let failed = |error: LoadError| reached(LoadStateModel::Failed { error });
            let probe = LoadStateModel::Locking { path, next: NextModel::Probe };
            let local = LoadStateModel::Locking { path, next: NextModel::Link(link) };
            let probing = LoadStateModel::Probing { dir };
            let linking = LoadStateModel::Linking { dir, link };
            let filling = LoadStateModel::Filling { dir };
            let discarding = LoadStateModel::Discarding { dir };
            let locked = LoadEventModel::Locked(Some(dir));
            &&& after(LoadStateModel::Locking { path, next }, LoadEventModel::Locked(None))
                == failed(LoadError::Lock)
            &&& after(probe, locked) == reached(probing)
            &&& after(local, locked) == reached(linking)
            &&& after(probing, LoadEventModel::Exists(true)) == loaded
            &&& after(probing, LoadEventModel::Exists(false)) == reached(filling)
            &&& after(linking, LoadEventModel::Linked(true)) == loaded
            &&& after(linking, LoadEventModel::Linked(false)) == failed(LoadError::Link)
            &&& after(filling, LoadEventModel::Filled(true)) == loaded
            &&& after(filling, LoadEventModel::Filled(false)) == reached(discarding)
            &&& after(discarding, LoadEventModel::Discarded) == failed(LoadError::Fill)
        }),
{
}

/// What a load asks for in each state, whatever is loaded.
pub proof fn law_load_asks_for_what_it_needs(
    fill: FillModel,
    path: crate::path::PathModel,
    dir: crate::path::PathModel,
    link: crate::path::PathModel,
    error: LoadError,
    action: LoadAction,
)
    ensures
        ({
            let asks = |state: LoadStateModel| is_load_action(LoadModel { fill, state }, action);
            &&& asks(LoadStateModel::Locking { path, next: NextModel::Probe }) ==> (
            action matches LoadAction::Lock { path: asked, must_exist } && asked@ == path
                && !must_exist)
            &&& asks(LoadStateModel::Locking { path, next: NextModel::Link(link) }) ==> (
            action matches LoadAction::Lock { path: asked, must_exist } && asked@ == path
                && must_exist)
            &&& asks(LoadStateModel::Probing { dir }) ==> (action matches LoadAction::Exists {
                dir: asked,
            } && asked@ == dir)
            &&& asks(LoadStateModel::Linking { dir, link }) ==> (action matches LoadAction::Link {
                dir: asked,
                link: place,
            } && asked@ == dir && place@ == link)
            &&& asks(LoadStateModel::Filling { dir }) ==> (action matches LoadAction::Fill {
                fill: from,
                dir: asked,
            } && from@ == fill && asked@ == dir)
            &&& asks(LoadStateModel::Discarding { dir }) ==> (
            action matches LoadAction::Discard { dir: asked } && asked@ == dir)
            &&& asks(LoadStateModel::Loaded { dir }) ==> action is Loaded
            &&& asks(LoadStateModel::Failed { error }) ==> (
            action matches LoadAction::Failed { error: told } && told == error)
        }),
{
}

/// What a load did not ask for does not change it, and nothing changes one that has ended.
pub proof fn law_nothing_else_changes_a_load(load: LoadModel, event: LoadEventModel)
    requires
        match load.state {
            LoadStateModel::Locking { path, next } => !(event is Locked),
            LoadStateModel::Probing { dir } => !(event is Exists),
            LoadStateModel::Linking { dir, link } => !(event is Linked),
            LoadStateModel::Filling { dir } => !(event is Filled),
            LoadStateModel::Discarding { dir } => !(event is Discarded),
            LoadStateModel::Loaded { dir } => true,
            LoadStateModel::Failed { error } => true,
        },
    ensures
        load_step(load, event) == load,
{
}

/// Checks, fills and answers are what they hold.
pub proof fn law_views_show_everything(
    path: FilePath,
    link: FilePath,
    res: DirectRes,
    lock: DirLock,
    told: bool,
)
    ensures
        (Check::Found { path, link })@ == (CheckModel::Found { path: path@, link: link@ }),
        Check::Probe(path)@ == CheckModel::Probe(path@),
        Fill::Retrieve(res)@ == FillModel::Retrieve(res@),
        Fill::Copy(path)@ == FillModel::Copy(path@),
        LoadEvent::Locked(Some(lock))@ == LoadEventModel::Locked(Some(lock@)),
        LoadEvent::Locked(None)@ == LoadEventModel::Locked(None),
        LoadEvent::Exists(told)@ == LoadEventModel::Exists(told),
        LoadEvent::Linked(told)@ == LoadEventModel::Linked(told),
        LoadEvent::Filled(told)@ == LoadEventModel::Filled(told),
        LoadEvent::Discarded@ == LoadEventModel::Discarded,
{
}

} // verus!
