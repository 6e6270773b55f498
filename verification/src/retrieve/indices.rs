//! Getting indices, and the indices that they depend on.
//!
//! A walk says what has to be done next, and is told how that went.
use crate::package::DirectRes;
use crate::path::FilePath;
use crate::retrieve::cache::Cache;
use crate::util::lock::DirLock;
use std::collections::VecDeque;
use vstd::prelude::*;

verus! {

/// Where an index that another one depends on is.
#[derive(Debug)]
pub struct IndexRes {
    pub res: DirectRes,
}

/// What an index is.
#[verifier::ext_equal]
pub struct IndexModel {
    pub res: crate::package::ResModel,
    pub dir: crate::path::PathModel,
    pub depends: Seq<crate::package::ResModel>,
}

/// An index that was loaded.
#[derive(Debug)]
pub struct Index {
    /// Where it comes from.
    pub res: DirectRes,
    /// Where it is.
    pub path: DirLock,
    /// The indices that it depends on.
    pub depends: Vec<IndexRes>,
}

impl View for Index {
    type V = IndexModel;

    open spec fn view(&self) -> IndexModel {
        IndexModel { res: self.res@, dir: self.path@, depends: depends_views(self.depends@) }
    }
}

/// The views of resolutions.
pub open spec fn res_views(list: Seq<DirectRes>) -> Seq<crate::package::ResModel> {
    list.map_values(|res: DirectRes| res@)
}

/// The resolutions of the indices that an index depends on.
pub open spec fn depends_views(list: Seq<IndexRes>) -> Seq<crate::package::ResModel> {
    list.map_values(|index: IndexRes| index.res@)
}

/// The views of indices.
pub open spec fn index_views(list: Seq<Index>) -> Seq<IndexModel> {
    list.map_values(|index: Index| index@)
}

/// The indices that were got, in the order in which they were.
#[derive(Debug)]
pub struct Indices {
    pub indices: Vec<Index>,
}

/// How something went that a walk asked for.
#[derive(Debug)]
pub enum WalkEvent {
    /// The lock, if the directory could be locked.
    Locked(Option<DirLock>),
    /// Whether there is anything in the place of the directory.
    Exists(bool),
    /// Whether the index was retrieved.
    Retrieved(bool),
    /// What the index depends on, if it could be loaded.
    Loaded(Option<Vec<IndexRes>>),
    /// What was in the directory is gone, as far as it can be removed.
    Discarded,
}

/// How something went that a walk asked for.
#[verifier::ext_equal]
pub enum WalkEventModel {
    Locked(Option<crate::path::PathModel>),
    Exists(bool),
    Retrieved(bool),
    Loaded(Option<Seq<crate::package::ResModel>>),
    Discarded,
}

impl View for WalkEvent {
    type V = WalkEventModel;

    open spec fn view(&self) -> WalkEventModel {
        match *self {
            WalkEvent::Locked(lock) => WalkEventModel::Locked(
                match lock {
                    None => None,
                    Some(lock) => Some(lock@),
                },
            ),
            WalkEvent::Exists(exists) => WalkEventModel::Exists(exists),
            WalkEvent::Retrieved(retrieved) => WalkEventModel::Retrieved(retrieved),
            WalkEvent::Loaded(depends) => WalkEventModel::Loaded(
                match depends {
                    None => None,
                    Some(depends) => Some(depends_views(depends@)),
                },
            ),
            WalkEvent::Discarded => WalkEventModel::Discarded,
        }
    }
}

/// How far a walk is with the index that it is at.
#[verifier::ext_equal]
pub enum WalkStateModel {
    Locking { res: crate::package::ResModel },
    Probing { res: crate::package::ResModel, dir: crate::path::PathModel },
    Retrieving { res: crate::package::ResModel, dir: crate::path::PathModel },
    Discarding { res: crate::package::ResModel, dir: crate::path::PathModel },
    Loading { res: crate::package::ResModel, dir: crate::path::PathModel },
    Finished,
}

/// What a walk is: where the cache is, which indices are still to be visited, which were loaded,
/// and how far it is.
#[verifier::ext_equal]
pub struct WalkModel {
    pub cache: crate::path::PathModel,
    pub queue: Seq<crate::package::ResModel>,
    pub indices: Seq<IndexModel>,
    pub state: WalkStateModel,
}

/// A walk that goes on to the next index in the queue.
pub open spec fn next_index(
    cache: crate::path::PathModel,
    queue: Seq<crate::package::ResModel>,
    indices: Seq<IndexModel>,
) -> WalkModel {
    if queue.len() == 0 {
        WalkModel { cache, queue, indices, state: WalkStateModel::Finished }
    } else {
        WalkModel {
            cache,
            queue: queue.drop_first(),
            indices,
            state: WalkStateModel::Locking { res: queue[0] },
        }
    }
}

/// A walk at its beginning.
pub open spec fn walk_start(
    cache: crate::path::PathModel,
    reses: Seq<crate::package::ResModel>,
) -> WalkModel {
    next_index(cache, reses, Seq::empty())
}

/// A walk with another state.
pub open spec fn in_state(walk: WalkModel, state: WalkStateModel) -> WalkModel {
    WalkModel { cache: walk.cache, queue: walk.queue, indices: walk.indices, state }
}

/// A walk that goes on without the index that it is at.
pub open spec fn skipped(walk: WalkModel) -> WalkModel {
    next_index(walk.cache, walk.queue, walk.indices)
}

/// A walk after it was told how something went. Whatever goes wrong with an index, the walk goes
/// on without it. What the walk did not ask for does not change it.
pub open spec fn walk_step(walk: WalkModel, event: WalkEventModel) -> WalkModel {
    match (walk.state, event) {
        (WalkStateModel::Locking { res }, WalkEventModel::Locked(lock)) => match lock {
            None => skipped(walk),
            Some(dir) => if res is Dir {
                in_state(walk, WalkStateModel::Loading { res, dir })
            } else {
                in_state(walk, WalkStateModel::Probing { res, dir })
            },
        },
        (WalkStateModel::Probing { res, dir }, WalkEventModel::Exists(exists)) => if exists {
            in_state(walk, WalkStateModel::Loading { res, dir })
        } else {
            in_state(walk, WalkStateModel::Retrieving { res, dir })
        },
        (WalkStateModel::Retrieving { res, dir }, WalkEventModel::Retrieved(retrieved)) =>
            if retrieved {
                in_state(walk, WalkStateModel::Loading { res, dir })
            } else {
                in_state(walk, WalkStateModel::Discarding { res, dir })
            },
        (WalkStateModel::Discarding { res, dir }, WalkEventModel::Discarded) => skipped(walk),
        (WalkStateModel::Loading { res, dir }, WalkEventModel::Loaded(depends)) => match depends {
            None => skipped(walk),
            Some(depends) => next_index(
                walk.cache,
                walk.queue + depends,
                walk.indices.push(IndexModel { res, dir, depends }),
            ),
        },
        _ => walk,
    }
}

/// A walk after a number of events.
pub open spec fn walk_run(walk: WalkModel, events: Seq<WalkEventModel>) -> WalkModel
    decreases events.len(),
{
    if events.len() == 0 {
        walk
    } else {
        walk_step(walk_run(walk, events.drop_last()), events.last())
    }
}

/// How far a walk is with the index that it is at.
#[derive(Debug)]
enum WalkState {
    Locking { res: DirectRes },
    Probing { res: DirectRes, lock: DirLock },
    Retrieving { res: DirectRes, lock: DirLock },
    Discarding { res: DirectRes, lock: DirLock },
    Loading { res: DirectRes, lock: DirLock },
    Finished,
}

impl View for WalkState {
    type V = WalkStateModel;

    closed spec fn view(&self) -> WalkStateModel {
        match *self {
            WalkState::Locking { res } => WalkStateModel::Locking { res: res@ },
            WalkState::Probing { res, lock } => WalkStateModel::Probing { res: res@, dir: lock@ },
            WalkState::Retrieving { res, lock } => WalkStateModel::Retrieving {
                res: res@,
                dir: lock@,
            },
            WalkState::Discarding { res, lock } => WalkStateModel::Discarding {
                res: res@,
                dir: lock@,
            },
            WalkState::Loading { res, lock } => WalkStateModel::Loading { res: res@, dir: lock@ },
            WalkState::Finished => WalkStateModel::Finished,
        }
    }
}

/// A walk over indices and the indices that they depend on.
#[derive(Debug)]
pub struct IndexWalk {
    cache: Cache,
    queue: VecDeque<DirectRes>,
    indices: Vec<Index>,
    state: WalkState,
}

impl View for IndexWalk {
    type V = WalkModel;

    closed spec fn view(&self) -> WalkModel {
        WalkModel {
            cache: self.cache@,
            queue: res_views(self.queue@),
            indices: index_views(self.indices@),
            state: self.state@,
        }
    }
}

/// What has to be done for a walk.
#[derive(Debug)]
pub enum WalkAction {
    /// Lock the directory. One that must exist cannot be locked where it is not there; another one
    /// can be.
    Lock { path: FilePath, must_exist: bool },
    /// See whether there is anything at the path.
    Exists { path: FilePath },
    /// Make the directory and retrieve the index into it.
    Retrieve { res: DirectRes, dir: FilePath },
    /// Remove the directory, which the index could not be retrieved into.
    Discard { dir: FilePath },
    /// Load the index in the directory.
    Load { res: DirectRes, dir: FilePath },
    /// Nothing: take the indices.
    Finished,
}

/// Whether an action is what a walk needs next.
pub open spec fn is_walk_action(walk: WalkModel, action: WalkAction) -> bool {
    match walk.state {
        WalkStateModel::Locking { res } => action matches WalkAction::Lock { path, must_exist }
            && path@ == crate::retrieve::cache::index_path_of(walk.cache, res) && must_exist == (
        res is Dir),
        WalkStateModel::Probing { res, dir } => action matches WalkAction::Exists { path } && path@
            == dir,
        WalkStateModel::Retrieving { res, dir } => action matches WalkAction::Retrieve {
            res: asked,
            dir: place,
        } && asked@ == res && place@ == dir,
        WalkStateModel::Discarding { res, dir } => action matches WalkAction::Discard { dir: place }
            && place@ == dir,
        WalkStateModel::Loading { res, dir } => action matches WalkAction::Load {
            res: asked,
            dir: place,
        } && asked@ == res && place@ == dir,
        WalkStateModel::Finished => action is Finished,
    }
}

impl IndexWalk {
    /// Starts a walk at some indices.
    pub fn start(cache: Cache, reses: &[DirectRes]) -> (walk: IndexWalk)
        ensures
            walk@ == walk_start(cache@, res_views(reses@)),
    {
        let mut queue: VecDeque<DirectRes> = VecDeque::new();
        let mut i: usize = 0;
        while i < reses.len()
            invariant
                i <= reses@.len(),
                res_views(queue@) == res_views(reses@).take(i as int),
            decreases reses@.len() - i,
        {
            let ghost old_queue = queue@;
            let res = reses[i].clone();
            queue.push_back(res);
            i = i + 1;
            assert(res_views(queue@) =~= res_views(old_queue).push(res@));
            assert(res_views(queue@) =~= res_views(reses@).take(i as int));
        }
        assert(res_views(reses@).take(i as int) =~= res_views(reses@));
        let indices: Vec<Index> = Vec::new();
        assert(index_views(indices@) =~= Seq::<IndexModel>::empty());
        IndexWalk::advance(cache, queue, indices)
    }

    /// Goes on to the next index in the queue.
    fn advance(cache: Cache, queue: VecDeque<DirectRes>, indices: Vec<Index>) -> (walk: IndexWalk)
        ensures
            walk@ == next_index(cache@, res_views(queue@), index_views(indices@)),
    {
        let mut queue = queue;
        let ghost before = queue@;
        let state = match queue.pop_front() {
            None => WalkState::Finished,
            Some(res) => WalkState::Locking { res },
        };
        proof {
            if before.len() > 0 {
                assert(res_views(queue@) =~= res_views(before).drop_first());
            }
        }
        IndexWalk { cache, queue, indices, state }
    }

    /// What has to be done next.
    pub fn action(&self) -> (action: WalkAction)
        ensures
            is_walk_action(self@, action),
    {
        match &self.state {
            WalkState::Locking { res } => WalkAction::Lock {
                path: self.cache.index_path(res),
                must_exist: match res {
                    DirectRes::Dir { url: _, text: _ } => true,
                    _ => false,
                },
            },
            WalkState::Probing { res: _, lock } => WalkAction::Exists {
                path: lock.path().clone(),
            },
            WalkState::Retrieving { res, lock } => WalkAction::Retrieve {
                res: res.clone(),
                dir: lock.path().clone(),
            },
            WalkState::Discarding { res: _, lock } => WalkAction::Discard {
                dir: lock.path().clone(),
            },
            WalkState::Loading { res, lock } => WalkAction::Load {
                res: res.clone(),
                dir: lock.path().clone(),
            },
            WalkState::Finished => WalkAction::Finished,
        }
    }

    /// Goes on, once what had to be done is done.
    pub fn step(self, event: WalkEvent) -> (walk: IndexWalk)
        ensures
            walk@ == walk_step(self@, event@),
    {
        let IndexWalk { cache, queue, indices, state } = self;
        match (state, event) {
            (WalkState::Locking { res }, WalkEvent::Locked(lock)) => match lock {
                None => IndexWalk::advance(cache, queue, indices),
                Some(lock) => {
                    let local = match &res {
                        DirectRes::Dir { url: _, text: _ } => true,
                        _ => false,
                    };
                    let state = if local {
                        WalkState::Loading { res, lock }
                    } else {
                        WalkState::Probing { res, lock }
                    };
                    IndexWalk { cache, queue, indices, state }
                },
            },
            (WalkState::Probing { res, lock }, WalkEvent::Exists(exists)) => {
                let state = if exists {
                    WalkState::Loading { res, lock }
                } else {
                    WalkState::Retrieving { res, lock }
                };
                IndexWalk { cache, queue, indices, state }
            },
            (WalkState::Retrieving { res, lock }, WalkEvent::Retrieved(retrieved)) => {
                let state = if retrieved {
                    WalkState::Loading { res, lock }
                } else {
                    WalkState::Discarding { res, lock }
                };
                IndexWalk { cache, queue, indices, state }
            },
            (
                WalkState::Discarding { res: _, lock: _ },
                WalkEvent::Discarded,
            ) => IndexWalk::advance(cache, queue, indices),
            (WalkState::Loading { res, lock }, WalkEvent::Loaded(depends)) => match depends {
                None => IndexWalk::advance(cache, queue, indices),
                Some(depends) => IndexWalk::loaded(cache, queue, indices, res, lock, depends),
            },
            (state, _) => IndexWalk { cache, queue, indices, state },
        }
    }

    /// Goes on with an index that was loaded: what it depends on is visited after everything that
    /// was to be visited before.
    fn loaded(
        cache: Cache,
        queue: VecDeque<DirectRes>,
        indices: Vec<Index>,
        res: DirectRes,
        lock: DirLock,
        depends: Vec<IndexRes>,
    ) -> (walk: IndexWalk)
        ensures
            walk@ == next_index(
                cache@,
                res_views(queue@) + depends_views(depends@),
                index_views(indices@).push(
                    IndexModel { res: res@, dir: lock@, depends: depends_views(depends@) },
                ),
            ),
    {
        let mut queue = queue;
        let mut indices = indices;
        let ghost before = res_views(queue@);
        let mut i: usize = 0;
        assert(res_views(queue@) =~= before + depends_views(depends@).take(0));
        while i < depends.len()
            invariant
                i <= depends@.len(),
                res_views(queue@) == before + depends_views(depends@).take(i as int),
            decreases depends@.len() - i,
        {
            let ghost old_queue = queue@;
            let dependent = depends[i].res.clone();
            queue.push_back(dependent);
            i = i + 1;
            assert(res_views(queue@) =~= res_views(old_queue).push(dependent@));
            assert(res_views(queue@) =~= before + depends_views(depends@).take(i as int));
        }
        assert(depends_views(depends@).take(i as int) =~= depends_views(depends@));
        let ghost old_indices = indices@;
        let index = Index { res, path: lock, depends };
        indices.push(index);
        assert(index_views(indices@) =~= index_views(old_indices).push(index@));
        IndexWalk::advance(cache, queue, indices)
    }

    /// The indices that were got, once the walk has ended; the walk itself before.
    pub fn outcome(self) -> (outcome: Result<Indices, IndexWalk>)
        ensures
            match self@.state {
                WalkStateModel::Finished => outcome matches Ok(found) && index_views(
                    found.indices@,
                ) == self@.indices,
                _ => outcome matches Err(walk) && walk@ == self@,
            },
    {
        match self.state {
            WalkState::Finished => Ok(Indices { indices: self.indices }),
            state => Err(
                IndexWalk { cache: self.cache, queue: self.queue, indices: self.indices, state },
            ),
        }
    }
}

/// The resolutions of the indices that some indices depend on, one after the other.
pub open spec fn all_depends(indices: Seq<IndexModel>) -> Seq<crate::package::ResModel>
    decreases indices.len(),
{
    if indices.len() == 0 {
        Seq::empty()
    } else {
        all_depends(indices.drop_last()) + indices.last().depends
    }
}

/// Everything that is to be visited in a walk: what was asked for, and what the loaded indices
/// depend on.
pub open spec fn to_visit(
    reses: Seq<crate::package::ResModel>,
    indices: Seq<IndexModel>,
) -> Seq<crate::package::ResModel> {
    reses + all_depends(indices)
}

/// The index that a walk is at.
pub open spec fn current(walk: WalkModel) -> Option<crate::package::ResModel> {
    match walk.state {
        WalkStateModel::Locking { res } => Some(res),
        WalkStateModel::Probing { res, dir } => Some(res),
        WalkStateModel::Retrieving { res, dir } => Some(res),
        WalkStateModel::Discarding { res, dir } => Some(res),
        WalkStateModel::Loading { res, dir } => Some(res),
        WalkStateModel::Finished => None,
    }
}

/// How much of everything that is to be visited was visited before the index that a walk is at.
pub open spec fn visited(reses: Seq<crate::package::ResModel>, walk: WalkModel) -> int {
    to_visit(reses, walk.indices).len() - walk.queue.len() - if current(walk) is Some {
        1int
    } else {
        0int
    }
}

/// Whether a walk is at the first thing to visit that was not visited before, and has what
/// follows it in its queue.
pub open spec fn is_in_order(reses: Seq<crate::package::ResModel>, walk: WalkModel) -> bool {
    let all = to_visit(reses, walk.indices);
    let at = visited(reses, walk);
    &&& 0 <= at <= all.len()
    &&& match current(walk) {
        Some(res) => at < all.len() && all[at] == res && walk.queue == all.skip(at + 1),
        None => at == all.len() && walk.queue.len() == 0,
    }
}

/// Going on to the next index keeps the order.
proof fn lemma_next_is_in_order(
    reses: Seq<crate::package::ResModel>,
    cache: crate::path::PathModel,
    queue: Seq<crate::package::ResModel>,
    indices: Seq<IndexModel>,
)
    requires
        queue.len() <= to_visit(reses, indices).len(),
        queue == to_visit(reses, indices).skip(to_visit(reses, indices).len() - queue.len()),
    ensures
        is_in_order(reses, next_index(cache, queue, indices)),
        queue.len() > 0 ==> visited(reses, next_index(cache, queue, indices)) == to_visit(
            reses,
            indices,
        ).len() - queue.len(),
{
    let all = to_visit(reses, indices);
    let at = all.len() - queue.len();
    if queue.len() > 0 {
        assert(queue[0] == all[at]);
        assert(queue.drop_first() =~= all.skip(at + 1));
    }
}

/// One event keeps the order, and the walk never goes back.
proof fn lemma_step_is_in_order(
    reses: Seq<crate::package::ResModel>,
    walk: WalkModel,
    event: WalkEventModel,
)
    requires
        is_in_order(reses, walk),
    ensures
        is_in_order(reses, walk_step(walk, event)),
        visited(reses, walk) <= visited(reses, walk_step(walk, event)) <= visited(reses, walk) + 1,
{
    let all = to_visit(reses, walk.indices);
    let at = visited(reses, walk);
    match (walk.state, event) {
        (WalkStateModel::Loading { res, dir }, WalkEventModel::Loaded(Some(depends))) => {
            let indices = walk.indices.push(IndexModel { res, dir, depends });
            assert(indices.drop_last() =~= walk.indices);
            assert(to_visit(reses, indices) =~= all + depends);
            assert(walk.queue + depends =~= (all + depends).skip(at + 1));
            lemma_next_is_in_order(reses, walk.cache, walk.queue + depends, indices);
        },
        _ => {
            if current(walk) is Some {
                lemma_next_is_in_order(reses, walk.cache, walk.queue, walk.indices);
            }
        },
    }
}

/// A walk visits what was asked for, in order, and then what the loaded indices depend on, in the
/// order in which they were loaded: level by level. When it ends it has visited everything,
/// whatever happened on the way.
pub proof fn law_walk_is_breadth_first(
    cache: crate::path::PathModel,
    reses: Seq<crate::package::ResModel>,
    events: Seq<WalkEventModel>,
)
    ensures
        is_in_order(reses, walk_run(walk_start(cache, reses), events)),
        walk_run(walk_start(cache, reses), events).cache == cache,
    decreases events.len(),
{
    if events.len() == 0 {
        let none = Seq::<IndexModel>::empty();
        assert(to_visit(reses, none) =~= reses);
        assert(reses =~= reses.skip(0));
        lemma_next_is_in_order(reses, cache, reses, none);
    } else {
        law_walk_is_breadth_first(cache, reses, events.drop_last());
        lemma_step_is_in_order(
            reses,
            walk_run(walk_start(cache, reses), events.drop_last()),
            events.last(),
        );
    }
}

/// A walk never goes back: it visits at most one more index with each event.
pub proof fn law_walk_goes_forward(
    cache: crate::path::PathModel,
    reses: Seq<crate::package::ResModel>,
    events: Seq<WalkEventModel>,
    event: WalkEventModel,
)
    ensures
        ({
            let before = walk_run(walk_start(cache, reses), events);
            let after = walk_step(before, event);
            visited(reses, before) <= visited(reses, after) <= visited(reses, before) + 1
        }),
{
    law_walk_is_breadth_first(cache, reses, events);
    lemma_step_is_in_order(reses, walk_run(walk_start(cache, reses), events), event);
}

/// Whether an event is one that a walk asked for.
pub open spec fn answers(walk: WalkModel, event: WalkEventModel) -> bool {
    match walk.state {
        WalkStateModel::Locking { res } => event is Locked,
        WalkStateModel::Probing { res, dir } => event is Exists,
        WalkStateModel::Retrieving { res, dir } => event is Retrieved,
        WalkStateModel::Discarding { res, dir } => event is Discarded,
        WalkStateModel::Loading { res, dir } => event is Loaded,
        WalkStateModel::Finished => false,
    }
}

/// How many more answers a walk may need for the index that it is at.
pub open spec fn answers_left(walk: WalkModel) -> nat {
    match walk.state {
        WalkStateModel::Locking { res } => 4,
        WalkStateModel::Probing { res, dir } => 3,
        WalkStateModel::Retrieving { res, dir } => 2,
        WalkStateModel::Discarding { res, dir } => 1,
        WalkStateModel::Loading { res, dir } => 1,
        WalkStateModel::Finished => 0,
    }
}

/// A walk needs at most four answers for each index: each of them brings it nearer to the end of
/// its visit, or ends the visit. Nothing else changes the walk.
pub proof fn law_answers_bring_a_walk_forward(
    cache: crate::path::PathModel,
    reses: Seq<crate::package::ResModel>,
    events: Seq<WalkEventModel>,
    event: WalkEventModel,
)
    ensures
        ({
            let before = walk_run(walk_start(cache, reses), events);
            let after = walk_step(before, event);
            &&& answers_left(before) <= 4
            &&& answers(before, event) ==> visited(reses, after) == visited(reses, before) + 1 || (
            visited(reses, after) == visited(reses, before) && answers_left(after)
                < answers_left(before))
            &&& !answers(before, event) ==> after == before
        }),
{
    let before = walk_run(walk_start(cache, reses), events);
    law_walk_goes_forward(cache, reses, events, event);
    if let (WalkStateModel::Loading { res, dir }, WalkEventModel::Loaded(Some(depends))) = (
        before.state,
        event,
    ) {
        let indices = before.indices.push(IndexModel { res, dir, depends });
        assert(indices.drop_last() =~= before.indices);
    }
}

/// Whether the indices that a walk loaded are among what it has visited, each at a later place
/// than the one before.
pub open spec fn is_selection(
    reses: Seq<crate::package::ResModel>,
    walk: WalkModel,
    places: Seq<int>,
) -> bool {
    &&& places.len() == walk.indices.len()
    &&& forall|i: int| #![trigger places[i]]
        0 <= i < places.len() ==> {
            &&& 0 <= places[i] < visited(reses, walk)
            &&& to_visit(reses, walk.indices)[places[i]] == walk.indices[i].res
        }
    &&& forall|i: int, j: int| 0 <= i < j < places.len() ==> places[i] < places[j]
}

/// The indices that a walk has loaded are some of those that it has visited, in the order in which
/// it visited them, and none of them twice for one visit.
pub proof fn law_loaded_were_visited(
    cache: crate::path::PathModel,
    reses: Seq<crate::package::ResModel>,
    events: Seq<WalkEventModel>,
)
    ensures
        exists|places: Seq<int>| #[trigger]
            is_selection(reses, walk_run(walk_start(cache, reses), events), places),
    decreases events.len(),
{
    let walk = walk_run(walk_start(cache, reses), events);
    law_walk_is_breadth_first(cache, reses, events);
    if events.len() == 0 {
        assert(is_selection(reses, walk, Seq::empty()));
    } else {
        let before = walk_run(walk_start(cache, reses), events.drop_last());
        law_loaded_were_visited(cache, reses, events.drop_last());
        law_walk_goes_forward(cache, reses, events.drop_last(), events.last());
        law_walk_is_breadth_first(cache, reses, events.drop_last());
        let places = choose|places: Seq<int>| #[trigger] is_selection(reses, before, places);
        let all = to_visit(reses, before.indices);
        match (before.state, events.last()) {
            (WalkStateModel::Loading { res, dir }, WalkEventModel::Loaded(Some(depends))) => {
                let indices = before.indices.push(IndexModel { res, dir, depends });
                assert(indices.drop_last() =~= before.indices);
                assert(walk.indices == indices);
                assert(to_visit(reses, indices) =~= all + depends);
                let more = places.push(visited(reses, before));
                assert(visited(reses, walk) == visited(reses, before) + 1);
                assert forall|i: int| #![trigger more[i]] 0 <= i < more.len() implies {
                    &&& 0 <= more[i] < visited(reses, walk)
                    &&& to_visit(reses, walk.indices)[more[i]] == walk.indices[i].res
                } by {
                    if i < places.len() {
                        assert(more[i] == places[i]);
                    }
                }
                assert(is_selection(reses, walk, more));
            },
            _ => {
                assert(walk.indices == before.indices);
                assert(is_selection(reses, walk, places));
            },
        }
    }
}

/// A local index is never retrieved.
pub proof fn law_local_is_not_retrieved(
    cache: crate::path::PathModel,
    reses: Seq<crate::package::ResModel>,
    events: Seq<WalkEventModel>,
)
    ensures
        walk_run(walk_start(cache, reses), events).state matches WalkStateModel::Probing {
            res,
            dir,
        } ==> !(res is Dir),
        walk_run(walk_start(cache, reses), events).state matches WalkStateModel::Retrieving {
            res,
            dir,
        } ==> !(res is Dir),
    decreases events.len(),
{
    if events.len() > 0 {
        law_local_is_not_retrieved(cache, reses, events.drop_last());
    }
}

/// The directory that a walk has locked for the index that it is at.
pub open spec fn held(walk: WalkModel) -> Option<crate::path::PathModel> {
    match walk.state {
        WalkStateModel::Probing { res, dir } => Some(dir),
        WalkStateModel::Retrieving { res, dir } => Some(dir),
        WalkStateModel::Discarding { res, dir } => Some(dir),
        WalkStateModel::Loading { res, dir } => Some(dir),
        _ => None,
    }
}

/// Whether a lock on a directory can be had while a walk keeps the locks of what it has loaded:
/// the lock file of the directory is not that of one of them.
pub open spec fn can_lock(walk: WalkModel, dir: crate::path::PathModel) -> bool {
    forall|i: int|
        0 <= i < walk.indices.len() ==> crate::util::lock::lock_file_of(
            #[trigger] walk.indices[i].dir,
        ) != crate::util::lock::lock_file_of(dir)
}

/// Whether no directory was locked that could not be, in any of the events.
pub open spec fn respects_locks(walk: WalkModel, events: Seq<WalkEventModel>) -> bool
    decreases events.len(),
{
    events.len() > 0 ==> {
        &&& respects_locks(walk, events.drop_last())
        &&& events.last() matches WalkEventModel::Locked(Some(dir)) ==> can_lock(
            walk_run(walk, events.drop_last()),
            dir,
        )
    }
}

/// No directory is loaded twice, though nothing keeps an index from being asked for twice or
/// indices from depending on each other: the lock that was taken first is in the way.
pub proof fn law_no_directory_is_loaded_twice(
    cache: crate::path::PathModel,
    reses: Seq<crate::package::ResModel>,
    events: Seq<WalkEventModel>,
)
    requires
        respects_locks(walk_start(cache, reses), events),
    ensures
        ({
            let walk = walk_run(walk_start(cache, reses), events);
            &&& forall|i: int, j: int|
                0 <= i < j < walk.indices.len() ==> #[trigger] walk.indices[i].dir
                    != #[trigger] walk.indices[j].dir
            &&& held(walk) matches Some(dir) ==> can_lock(walk, dir)
        }),
    decreases events.len(),
{
    if events.len() > 0 {
        law_no_directory_is_loaded_twice(cache, reses, events.drop_last());
    }
}

/// Whether a walk asked for each of the events.
pub open spec fn all_answer(walk: WalkModel, events: Seq<WalkEventModel>) -> bool
    decreases events.len(),
{
    events.len() > 0 ==> {
        &&& all_answer(walk, events.drop_last())
        &&& answers(walk_run(walk, events.drop_last()), events.last())
    }
}

/// Whether every directory that is locked in the events is one of `dirs`.
pub open spec fn locks_within(
    events: Seq<WalkEventModel>,
    dirs: Set<crate::path::PathModel>,
) -> bool {
    forall|i: int, dir: crate::path::PathModel|
        #![trigger events[i], dirs.contains(dir)]
        0 <= i < events.len() && events[i] == WalkEventModel::Locked(Some(dir)) ==> dirs.contains(
            dir,
        )
}

/// Whether every index that is loaded in the events depends on at most `most` others.
pub open spec fn depends_within(events: Seq<WalkEventModel>, most: nat) -> bool {
    forall|i: int|
        #![trigger events[i]]
        0 <= i < events.len() ==> (events[i] matches WalkEventModel::Loaded(Some(depends))
            ==> depends.len() <= most)
}

/// How many answers a walk has had at most.
proof fn lemma_answers_are_counted(
    cache: crate::path::PathModel,
    reses: Seq<crate::package::ResModel>,
    events: Seq<WalkEventModel>,
)
    requires
        all_answer(walk_start(cache, reses), events),
    ensures
        ({
            let walk = walk_run(walk_start(cache, reses), events);
            events.len() <= 4 * visited(reses, walk) + 4 - answers_left(walk)
        }),
    decreases events.len(),
{
    if events.len() == 0 {
        law_walk_is_breadth_first(cache, reses, events);
    } else {
        lemma_answers_are_counted(cache, reses, events.drop_last());
        law_answers_bring_a_walk_forward(cache, reses, events.drop_last(), events.last());
        let walk = walk_run(walk_start(cache, reses), events);
        assert(answers_left(walk) <= 4);
    }
}

/// The indices that a walk has loaded are in directories that were locked, and depend on no more
/// than they may.
proof fn lemma_loaded_within(
    cache: crate::path::PathModel,
    reses: Seq<crate::package::ResModel>,
    events: Seq<WalkEventModel>,
    dirs: Set<crate::path::PathModel>,
    most: nat,
)
    requires
        locks_within(events, dirs),
        depends_within(events, most),
    ensures
        ({
            let walk = walk_run(walk_start(cache, reses), events);
            &&& forall|i: int|
                0 <= i < walk.indices.len() ==> dirs.contains(#[trigger] walk.indices[i].dir)
            &&& held(walk) matches Some(dir) ==> dirs.contains(dir)
            &&& all_depends(walk.indices).len() <= walk.indices.len() * most
        }),
    decreases events.len(),
{
    if events.len() == 0 {
        assert(0 * most == 0) by (nonlinear_arith);
    } else {
        let before = walk_run(walk_start(cache, reses), events.drop_last());
        let last = events[events.len() - 1];
        assert(locks_within(events.drop_last(), dirs)) by {
            assert forall|i: int, dir: crate::path::PathModel|
                #![trigger events.drop_last()[i], dirs.contains(dir)]
                0 <= i < events.drop_last().len() && events.drop_last()[i]
                    == WalkEventModel::Locked(Some(dir)) implies dirs.contains(dir) by {
                assert(events[i] == events.drop_last()[i]);
            }
        }
        assert(depends_within(events.drop_last(), most)) by {
            assert forall|i: int|
                #![trigger events.drop_last()[i]]
                0 <= i < events.drop_last().len() implies (
            events.drop_last()[i] matches WalkEventModel::Loaded(Some(depends)) ==> depends.len()
                <= most) by {
                assert(events[i] == events.drop_last()[i]);
            }
        }
        lemma_loaded_within(cache, reses, events.drop_last(), dirs, most);
        if let WalkEventModel::Locked(Some(dir)) = last {
            assert(dirs.contains(dir));
        }
        if let (WalkStateModel::Loading { res, dir }, WalkEventModel::Loaded(Some(depends))) = (
            before.state,
            last,
        ) {
            let indices = before.indices.push(IndexModel { res, dir, depends });
            assert(indices.drop_last() =~= before.indices);
            assert((before.indices.len() + 1) * most == before.indices.len() * most + most)
                by (nonlinear_arith);
        }
    }
}

/// A walk ends: where there are finitely many directories to lock, and no index depends on more
/// than `most` others, it has only so many answers to ask for. Indices may depend on each other
/// all the same.
pub proof fn law_walk_is_bounded(
    cache: crate::path::PathModel,
    reses: Seq<crate::package::ResModel>,
    events: Seq<WalkEventModel>,
    dirs: Set<crate::path::PathModel>,
    most: nat,
)
    requires
        all_answer(walk_start(cache, reses), events),
        respects_locks(walk_start(cache, reses), events),
        dirs.finite(),
        locks_within(events, dirs),
        depends_within(events, most),
    ensures
        events.len() <= 4 * (reses.len() + dirs.len() * most) + 4,
{
    let walk = walk_run(walk_start(cache, reses), events);
    let found = walk.indices.map_values(|index: IndexModel| index.dir);
    lemma_answers_are_counted(cache, reses, events);
    lemma_loaded_within(cache, reses, events, dirs, most);
    law_no_directory_is_loaded_twice(cache, reses, events);
    law_walk_is_breadth_first(cache, reses, events);
    assert(found.no_duplicates()) by {
        assert forall|i: int, j: int|
            0 <= i < found.len() && 0 <= j < found.len() && i != j implies found[i]
            != found[j] by {
            assert(found[i] == walk.indices[i].dir);
            assert(found[j] == walk.indices[j].dir);
        }
    }
    found.unique_seq_to_set();
    assert(found.to_set().subset_of(dirs)) by {
        assert forall|dir: crate::path::PathModel| found.to_set().contains(
            dir,
        ) implies dirs.contains(dir) by {
            let k = choose|k: int| 0 <= k < found.len() && found[k] == dir;
            assert(walk.indices[k].dir == dir);
        }
    }
    vstd::set_lib::lemma_len_subset(found.to_set(), dirs);
    assert(walk.indices.len() * most <= dirs.len() * most) by (nonlinear_arith)
        requires
            walk.indices.len() <= dirs.len(),
    ;
}

/// Once a walk has ended, nothing changes it.
pub proof fn law_walk_ends(walk: WalkModel, events: Seq<WalkEventModel>)
    requires
        walk.state is Finished,
    ensures
        walk_run(walk, events) == walk,
    decreases events.len(),
{
    if events.len() > 0 {
        law_walk_ends(walk, events.drop_last());
    }
}

/// The views of lists are the views of what stands in them, one for one.
pub proof fn law_views_are_one_for_one(
    reses: Seq<DirectRes>,
    depends: Seq<IndexRes>,
    indices: Seq<Index>,
    i: int,
)
    ensures
        res_views(reses).len() == reses.len(),
        0 <= i < reses.len() ==> res_views(reses)[i] == reses[i]@,
        depends_views(depends).len() == depends.len(),
        0 <= i < depends.len() ==> depends_views(depends)[i] == depends[i].res@,
        index_views(indices).len() == indices.len(),
        0 <= i < indices.len() ==> index_views(indices)[i] == (IndexModel {
            res: indices[i].res@,
            dir: indices[i].path@,
            depends: depends_views(indices[i].depends@),
        }),
{
}

/// A walk begins with the first of what was asked for, with the rest behind it and nothing loaded.
pub proof fn law_walk_begins_with_what_was_asked_for(
    cache: crate::path::PathModel,
    reses: Seq<crate::package::ResModel>,
)
    ensures
        ({
            let walk = walk_start(cache, reses);
            &&& walk.cache == cache
            &&& walk.indices.len() == 0
            &&& reses.len() == 0 ==> walk.state is Finished && walk.queue.len() == 0
            &&& reses.len() > 0 ==> walk.state == (WalkStateModel::Locking { res: reses[0] })
                && walk.queue == reses.skip(1)
        }),
{
    if reses.len() > 0 {
        assert(walk_start(cache, reses).queue =~= reses.skip(1));
    }
}

/// An index that is loaded is kept with exactly what it was found to depend on, wherever it comes
/// from, and all of that is visited behind what was to be visited before.
pub proof fn law_loaded_index_is_kept(
    walk: WalkModel,
    res: crate::package::ResModel,
    dir: crate::path::PathModel,
    listed: Seq<crate::package::ResModel>,
)
    requires
        walk.state == (WalkStateModel::Loading { res, dir }),
    ensures
        ({
            let after = walk_step(walk, WalkEventModel::Loaded(Some(listed)));
            let visits = walk.queue + listed;
            &&& after.cache == walk.cache
            &&& after.indices == walk.indices.push(IndexModel { res, dir, depends: listed })
            &&& visits.len() == 0 ==> after.state is Finished && after.queue.len() == 0
            &&& visits.len() > 0 ==> after.state == (WalkStateModel::Locking { res: visits[0] })
                && after.queue == visits.skip(1)
        }),
{
    let visits = walk.queue + listed;
    if visits.len() > 0 {
        assert(walk_step(walk, WalkEventModel::Loaded(Some(listed))).queue =~= visits.skip(1));
    }
}

/// Whatever goes wrong with an index, the walk goes on with the next one, and keeps what it has
/// loaded and what is still to be visited.
pub proof fn law_failed_index_is_skipped(walk: WalkModel, event: WalkEventModel)
    requires
        match walk.state {
            WalkStateModel::Locking { res } => event == WalkEventModel::Locked(None),
            WalkStateModel::Discarding { res, dir } => event == WalkEventModel::Discarded,
            WalkStateModel::Loading { res, dir } => event == WalkEventModel::Loaded(None),
            _ => false,
        },
    ensures
        ({
            let after = walk_step(walk, event);
            &&& after.cache == walk.cache
            &&& after.indices == walk.indices
            &&& walk.queue.len() == 0 ==> after.state is Finished && after.queue.len() == 0
            &&& walk.queue.len() > 0 ==> after.state == (WalkStateModel::Locking {
                res: walk.queue[0],
            }) && after.queue == walk.queue.skip(1)
        }),
{
    if walk.queue.len() > 0 {
        assert(walk_step(walk, event).queue =~= walk.queue.skip(1));
    }
}

/// What comes of the other answers: a local index is loaded once it is locked, another one is
/// looked for, loaded if it is there, and retrieved if it is not. One that cannot be retrieved is
/// discarded. Nothing else of the walk changes.
pub proof fn law_index_is_loaded_or_retrieved(
    walk: WalkModel,
    res: crate::package::ResModel,
    dir: crate::path::PathModel,
)
    ensures
        ({
            let at = |state: WalkStateModel|
                WalkModel { cache: walk.cache, queue: walk.queue, indices: walk.indices, state };
            let locking = at(WalkStateModel::Locking { res });
            let probing = at(WalkStateModel::Probing { res, dir });
            let retrieving = at(WalkStateModel::Retrieving { res, dir });
            let loading = at(WalkStateModel::Loading { res, dir });
            &&& res is Dir ==> walk_step(locking, WalkEventModel::Locked(Some(dir))) == loading
            &&& !(res is Dir) ==> walk_step(locking, WalkEventModel::Locked(Some(dir))) == probing
            &&& walk_step(probing, WalkEventModel::Exists(true)) == loading
            &&& walk_step(probing, WalkEventModel::Exists(false)) == retrieving
            &&& walk_step(retrieving, WalkEventModel::Retrieved(true)) == loading
            &&& walk_step(retrieving, WalkEventModel::Retrieved(false)) == at(
                WalkStateModel::Discarding { res, dir },
            )
        }),
{
}

/// What a walk asks for in each state.
pub proof fn law_walk_asks_for_what_it_needs(walk: WalkModel, action: WalkAction)
    requires
        is_walk_action(walk, action),
    ensures
        match walk.state {
            WalkStateModel::Locking { res } => action matches WalkAction::Lock { path, must_exist }
                && path@ == crate::retrieve::cache::index_path_of(walk.cache, res) && must_exist
                == (res is Dir),
            WalkStateModel::Probing { res, dir } => action matches WalkAction::Exists { path }
                && path@ == dir,
            WalkStateModel::Retrieving { res, dir } => action matches WalkAction::Retrieve {
                res: asked,
                dir: place,
            } && asked@ == res && place@ == dir,
            WalkStateModel::Discarding { res, dir } => action matches WalkAction::Discard {
                dir: place,
            } && place@ == dir,
            WalkStateModel::Loading { res, dir } => action matches WalkAction::Load {
                res: asked,
                dir: place,
            } && asked@ == res && place@ == dir,
            WalkStateModel::Finished => action is Finished,
        },
{
}

/// What a walk did not ask for does not change it, and nothing changes one that has ended.
pub proof fn law_nothing_else_changes_a_walk(walk: WalkModel, event: WalkEventModel)
    requires
        match walk.state {
            WalkStateModel::Locking { res } => !(event is Locked),
            WalkStateModel::Probing { res, dir } => !(event is Exists),
            WalkStateModel::Retrieving { res, dir } => !(event is Retrieved),
            WalkStateModel::Discarding { res, dir } => !(event is Discarded),
            WalkStateModel::Loading { res, dir } => !(event is Loaded),
            WalkStateModel::Finished => true,
        },
    ensures
        walk_step(walk, event) == walk,
{
}

/// Answers are what they hold.
pub proof fn law_answers_show_everything(lock: DirLock, told: bool, depends: Vec<IndexRes>)
    ensures
        WalkEvent::Locked(Some(lock))@ == WalkEventModel::Locked(Some(lock@)),
        WalkEvent::Locked(None)@ == WalkEventModel::Locked(None),
        WalkEvent::Exists(told)@ == WalkEventModel::Exists(told),
        WalkEvent::Retrieved(told)@ == WalkEventModel::Retrieved(told),
        WalkEvent::Loaded(Some(depends))@ == WalkEventModel::Loaded(Some(depends_views(depends@))),
        WalkEvent::Loaded(None)@ == WalkEventModel::Loaded(None),
        WalkEvent::Discarded@ == WalkEventModel::Discarded,
{
}

} // verus!
