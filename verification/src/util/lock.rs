//! Locking to make sure that multiple copies of `elba` don't clobber each other.
//!
//! There is no need to lock individual files. Directories have to be locked, so that no other
//! process uses them meanwhile.
use crate::path::FilePath;
use vstd::prelude::*;

verus! {

/// The extension of lock files.
pub open spec fn lock_extension() -> Seq<u8> {
    vstd::utf8::encode_utf8("lock"@)
}

/// The file that shows that a directory is locked.
pub open spec fn lock_file_of(path: crate::path::PathModel) -> crate::path::PathModel {
    path.with_extension(lock_extension())
}

/// A lock on a directory. This just generates a sibling file to the directory which indicates that
/// the directory is locked.
#[derive(Debug)]
pub struct DirLock {
    path: FilePath,
    lock_path: FilePath,
}

impl View for DirLock {
    type V = crate::path::PathModel;

    /// The directory that is locked.
    closed spec fn view(&self) -> crate::path::PathModel {
        self.path@
    }
}

impl DirLock {
    #[verifier::type_invariant]
    spec fn is_valid(self) -> bool {
        self.lock_path@ == lock_file_of(self.path@)
    }

    /// The file whose creation locks the directory at `path`, a path without links and `..`.
    pub fn lock_file(path: &FilePath) -> (file: FilePath)
        ensures
            file@ == lock_file_of(path@),
            file@.well_formed(),
    {
        proof {
            lemma_lock_extension();
        }
        path.with_extension("lock")
    }

    /// A lock on the directory at `path`, if its lock file could be created. The file must not
    /// have been there before.
    pub fn acquire(path: FilePath, created: bool) -> (lock: Option<DirLock>)
        ensures
            lock is Some <==> created,
            lock matches Some(lock) ==> lock@ == path@,
    {
        if !created {
            return None;
        }
        let lock_path = DirLock::lock_file(&path);
        Some(DirLock { path, lock_path })
    }

    /// The directory that is locked.
    pub fn path(&self) -> (path: &FilePath)
        ensures
            path@ == self@,
    {
        &self.path
    }

    /// The file that is removed when the lock is given up.
    pub fn lock_path(&self) -> (file: &FilePath)
        ensures
            file@ == lock_file_of(self@),
    {
        proof {
            use_type_invariant(self);
        }
        &self.lock_path
    }
}

/// The extension of lock files is not empty and holds no separator.
proof fn lemma_lock_extension()
    ensures
        "lock"@.len() > 0,
        lock_extension() == seq![108u8, 111, 99, 107],
        !lock_extension().contains(crate::path::SEPARATOR),
{
    reveal_strlit("lock");
    vstd::utf8::is_ascii_chars_encode_utf8("lock"@);
    assert(lock_extension() =~= seq![108u8, 111, 99, 107]);
}

/// The lock file of a directory is a sibling of the directory, and another path than the
/// directory unless the directory itself is named as a lock file is.
pub proof fn law_lock_file_is_a_sibling(path: crate::path::PathModel)
    requires
        path.file_name() is Some,
    ensures
        lock_file_of(path).parent() == path.parent(),
        lock_file_of(path) == path <==> path.components.last() == crate::path::file_stem(
            path.components.last(),
        ).push(crate::path::DOT) + lock_extension(),
{
    let lock = lock_file_of(path);
    assert(lock.components.drop_last() =~= path.components.drop_last());
    if lock.components.last() == path.components.last() {
        assert(lock.components =~= path.components);
    }
}

/// The locks of all processes: the files that there are, and the directories that are locked.
#[verifier::ext_equal]
pub struct LocksModel {
    pub files: Set<crate::path::PathModel>,
    pub held: Seq<crate::path::PathModel>,
}

/// What a process does with a lock.
pub enum LocksEvent {
    /// It tries to lock a directory.
    Acquire(crate::path::PathModel),
    /// It gives up one of the locks that are held.
    Release(int),
}

/// The locks after one event: a directory is locked if its lock file could be created, which was
/// not there before, and the file is removed when the lock is given up.
pub open spec fn locks_step(locks: LocksModel, event: LocksEvent) -> LocksModel {
    match event {
        LocksEvent::Acquire(path) => if locks.files.contains(lock_file_of(path)) {
            locks
        } else {
            LocksModel {
                files: locks.files.insert(lock_file_of(path)),
                held: locks.held.push(path),
            }
        },
        LocksEvent::Release(at) => if 0 <= at < locks.held.len() {
            LocksModel {
                files: locks.files.remove(lock_file_of(locks.held[at])),
                held: locks.held.remove(at),
            }
        } else {
            locks
        },
    }
}

/// The locks after a number of events.
pub open spec fn locks_run(locks: LocksModel, events: Seq<LocksEvent>) -> LocksModel
    decreases events.len(),
{
    if events.len() == 0 {
        locks
    } else {
        locks_step(locks_run(locks, events.drop_last()), events.last())
    }
}

/// Whether every lock that is held has a lock file of its own.
pub open spec fn are_exclusive(locks: LocksModel) -> bool {
    &&& forall|i: int|
        #![trigger locks.held[i]]
        0 <= i < locks.held.len() ==> locks.files.contains(lock_file_of(locks.held[i]))
    &&& forall|i: int, j: int|
        #![trigger locks.held[i], locks.held[j]]
        0 <= i < j < locks.held.len() ==> lock_file_of(locks.held[i]) != lock_file_of(
            locks.held[j],
        )
}

/// One event keeps the locks exclusive.
proof fn lemma_step_is_exclusive(locks: LocksModel, event: LocksEvent)
    requires
        are_exclusive(locks),
    ensures
        are_exclusive(locks_step(locks, event)),
{
    if let LocksEvent::Release(at) = event {
        if 0 <= at < locks.held.len() {
            let after = locks_step(locks, event);
            assert forall|i: int| #![trigger after.held[i]] 0 <= i < after.held.len() implies
                after.files.contains(lock_file_of(after.held[i])) by {
                let k = if i < at {
                    i
                } else {
                    i + 1
                };
                assert(after.held[i] == locks.held[k]);
                assert(locks.files.contains(lock_file_of(locks.held[k])));
                assert(lock_file_of(locks.held[k]) != lock_file_of(locks.held[at]));
            }
        }
    }
}

/// Whatever processes do, no directory is locked twice at a time, as long as they alone create and
/// remove lock files.
pub proof fn law_no_directory_is_locked_twice(
    files: Set<crate::path::PathModel>,
    events: Seq<LocksEvent>,
)
    ensures
        ({
            let locks = locks_run(LocksModel { files, held: Seq::empty() }, events);
            &&& are_exclusive(locks)
            &&& locks.held.no_duplicates()
        }),
    decreases events.len(),
{
    let start = LocksModel { files, held: Seq::empty() };
    if events.len() > 0 {
        law_no_directory_is_locked_twice(files, events.drop_last());
        lemma_step_is_exclusive(locks_run(start, events.drop_last()), events.last());
    }
}

/// A directory that is locked cannot be locked until the lock is given up, and can be then.
pub proof fn law_lock_lasts_until_it_is_given_up(locks: LocksModel, at: int)
    requires
        are_exclusive(locks),
        0 <= at < locks.held.len(),
    ensures
        ({
            let path = locks.held[at];
            let released = locks_step(locks, LocksEvent::Release(at));
            &&& locks_step(locks, LocksEvent::Acquire(path)) == locks
            &&& locks_step(released, LocksEvent::Acquire(path)).held == released.held.push(path)
        }),
{
}

/// Locking a directory and giving up the lock leaves the files and the other locks as they were.
pub proof fn law_lock_leaves_nothing_behind(locks: LocksModel, path: crate::path::PathModel)
    requires
        !locks.files.contains(lock_file_of(path)),
    ensures
        locks_step(
            locks_step(locks, LocksEvent::Acquire(path)),
            LocksEvent::Release(locks.held.len() as int),
        ) == locks,
{
    let locked = locks_step(locks, LocksEvent::Acquire(path));
    let released = locks_step(locked, LocksEvent::Release(locks.held.len() as int));
    assert(released.held =~= locks.held);
    assert(released.files =~= locks.files);
}

/// Two directories whose names have no extension share a lock file only if they are the same
/// directory.
pub proof fn law_locks_are_exclusive(left: crate::path::PathModel, right: crate::path::PathModel)
    requires
        left.file_name() is Some,
        right.file_name() is Some,
        crate::path::last_dot(left.components.last()) <= 0,
        crate::path::last_dot(right.components.last()) <= 0,
        lock_file_of(left) == lock_file_of(right),
    ensures
        left == right,
{
    let left_lock = lock_file_of(left).components;
    let right_lock = lock_file_of(right).components;
    let left_name = left.components.last();
    let right_name = right.components.last();
    assert(left_lock.last() == left_name.push(crate::path::DOT) + lock_extension());
    assert(right_lock.last() == right_name.push(crate::path::DOT) + lock_extension());
    assert(left_lock.last().len() == right_lock.last().len());
    assert(left_name =~= right_name) by {
        assert forall|i: int| 0 <= i < left_name.len() implies left_name[i] == right_name[i] by {
            assert(left_lock.last()[i] == left_name[i]);
            assert(right_lock.last()[i] == right_name[i]);
        }
    }
    assert(left.components =~= left_lock.drop_last().push(left_name));
    assert(right.components =~= right_lock.drop_last().push(right_name));
}

/// The name of a lock file: that of the directory with `lock` behind a dot, in place of what
/// follows its last dot, if it has one with anything before it.
pub proof fn law_lock_file_is_named_by_its_directory(
    absolute: bool,
    parents: Seq<Seq<u8>>,
    stem: Seq<u8>,
    old: Seq<u8>,
)
    requires
        stem.len() > 0,
        !old.contains(crate::path::DOT),
        !stem.contains(crate::path::DOT),
    ensures
        ({
            let name = stem.push(crate::path::DOT) + seq![108u8, 111, 99, 107];
            let lock = crate::path::PathModel { absolute, components: parents.push(name) };
            &&& lock_file_of(
                crate::path::PathModel { absolute, components: parents.push(stem) },
            ) == lock
            &&& lock_file_of(
                crate::path::PathModel {
                    absolute,
                    components: parents.push(stem.push(crate::path::DOT) + old),
                },
            ) == lock
        }),
{
    lemma_lock_extension();
    assert(stem.contains(stem[0]));
    assert((stem.push(crate::path::DOT) + old)[0] == stem[0]);
    crate::path::law_extension_is_added(absolute, parents, false, stem, lock_extension());
    crate::path::law_extension_is_replaced(absolute, parents, stem, old, lock_extension());
}

/// The lock file of any directory is its path with the extension `lock`.
pub proof fn law_lock_file_has_its_extension(path: crate::path::PathModel)
    ensures
        lock_file_of(path) == path.with_extension(seq![108u8, 111, 99, 107]),
{
    lemma_lock_extension();
}

} // verus!
