//! What can be built of a package, and in which order.
use vstd::prelude::*;

verus! {

/// A type of Target that should be built
#[derive(Clone, Copy, PartialOrd, Ord, PartialEq, Debug, Eq, Hash, Structural)]
pub enum Target {
    /// Typecheck a library without codegen
    Lib,
    /// Compile a standalone executable which doesn't require the package's lib to be
    /// built
    ///
    /// The usize field is the index of the BinTarget in the manifest's list of BinTargets which
    /// should be built
    Bin(usize),
    /// Like Bin, except that it requires the lib to be built already.
    Test(usize),
    /// Create documentation, which requires the lib to be built too
    Doc,
}

impl Target {
    /// The place of a kind of target in the order of targets.
    pub open spec fn rank(self) -> int {
        match self {
            Target::Lib => 0,
            Target::Bin(_) => 1,
            Target::Test(_) => 2,
            Target::Doc => 3,
        }
    }

    /// The index in the manifest, for the kinds that have one.
    pub open spec fn index(self) -> int {
        match self {
            Target::Lib => 0,
            Target::Bin(ix) => ix as int,
            Target::Test(ix) => ix as int,
            Target::Doc => 0,
        }
    }

    /// The order of targets: libraries, executables, tests, documentation; by index within a kind.
    pub open spec fn precedes(self, other: Target) -> bool {
        self.rank() < other.rank() || (self.rank() == other.rank() && self.index()
            <= other.index())
    }

    /// Whether the target is an executable.
    pub open spec fn is_bin(self) -> bool {
        self is Bin
    }

    /// Whether the target can be built only once the library is.
    pub open spec fn needs_lib(self) -> bool {
        self is Test || self is Doc
    }

    /// Whether the target comes before the other, or is the same.
    fn is_before(&self, other: &Target) -> (before: bool)
        ensures
            before == self.precedes(*other),
    {
        match (*self, *other) {
            (Target::Lib, _) => true,
            (Target::Bin(_), Target::Lib) => false,
            (Target::Bin(left), Target::Bin(right)) => left <= right,
            (Target::Bin(_), _) => true,
            (Target::Test(left), Target::Test(right)) => left <= right,
            (Target::Test(_), Target::Doc) => true,
            (Target::Test(_), _) => false,
            (Target::Doc, Target::Doc) => true,
            (Target::Doc, _) => false,
        }
    }
}

/// The order of targets, as a relation.
pub open spec fn target_order() -> spec_fn(Target, Target) -> bool {
    |left: Target, right: Target| left.precedes(right)
}

/// The executables among targets.
pub open spec fn bins(targets: Seq<Target>) -> Seq<Target> {
    targets.filter(|target: Target| target.is_bin())
}

/// The targets that can be built only once the library is.
pub open spec fn needing(targets: Seq<Target>) -> Seq<Target> {
    targets.filter(|target: Target| target.needs_lib())
}

/// Whether some of the targets can be built only once the library is.
pub open spec fn has_needing(targets: Seq<Target>) -> bool {
    needing(targets).len() > 0
}

/// What is built of targets that stand in order: the executables; before them the library, where
/// it is asked for or needed; and, where the library is not itself asked for, the first of the
/// targets that need it.
pub open spec fn arranged(sorted: Seq<Target>) -> Seq<Target> {
    if sorted.contains(Target::Lib) {
        seq![Target::Lib] + bins(sorted)
    } else if has_needing(sorted) {
        seq![Target::Lib] + bins(sorted).push(needing(sorted)[0])
    } else {
        bins(sorted)
    }
}

/// What is built of a list of targets.
pub open spec fn targets_of(targets: Seq<Target>) -> Seq<Target> {
    arranged(targets.sort_by(target_order()))
}

/// The targets to build, in the order in which to build them.
#[derive(PartialEq, Debug, Eq, Hash)]
pub struct Targets(pub Vec<Target>);

impl Clone for Targets {
    fn clone(&self) -> (copy: Self)
        ensures
            copy.0@ == self.0@,
    {
        let list = self.0.clone();
        assert(list@ =~= self.0@);
        Targets(list)
    }
}

/// The order of targets is total.
proof fn lemma_target_order()
    ensures
        vstd::relations::total_ordering(target_order()),
{
}

/// Puts targets in order.
fn sort(targets: Vec<Target>) -> (sorted: Vec<Target>)
    ensures
        sorted@ == targets@.sort_by(target_order()),
{
    let mut sorted: Vec<Target> = Vec::new();
    let mut i: usize = 0;
    proof {
        assert(targets@.take(0) =~= sorted@);
    }
    while i < targets.len()
        invariant
            i <= targets@.len(),
            sorted@.len() == i,
            sorted@.to_multiset() == targets@.take(i as int).to_multiset(),
            vstd::relations::sorted_by(sorted@, target_order()),
        decreases targets@.len() - i,
    {
        let target = targets[i];
        let mut at: usize = sorted.len();
        while at > 0 && !sorted[at - 1].is_before(&target)
            invariant
                at <= sorted@.len(),
                vstd::relations::sorted_by(sorted@, target_order()),
                forall|k: int| at <= k < sorted@.len() ==> target.precedes(#[trigger] sorted@[k]),
            decreases at,
        {
            at = at - 1;
        }
        let ghost before = sorted@;
        sorted.insert(at, target);
        proof {
            vstd::seq_lib::to_multiset_insert(before, at as int, target);
            assert(targets@.take(i + 1) =~= targets@.take(i as int).push(target));
            vstd::seq_lib::to_multiset_build(targets@.take(i as int), target);
            let order = target_order();
            assert forall|j: int, k: int| 0 <= j < k < sorted@.len() implies #[trigger] order(
                sorted@[j],
                sorted@[k],
            ) by {
                if at > 0 {
                    assert(before[at - 1].precedes(target));
                    if j < at - 1 {
                        assert(order(before[j], before[at - 1]));
                    }
                }
                if j < at && k < at {
                    assert(order(before[j], before[k]));
                } else if j < at && k > at {
                    assert(order(before[j], before[k - 1]));
                } else if j > at {
                    assert(order(before[j - 1], before[k - 1]));
                }
            }
        }
        i = i + 1;
    }
    proof {
        assert(targets@.take(i as int) =~= targets@);
        lemma_target_order();
        targets@.lemma_sort_by_ensures(target_order());
        vstd::seq_lib::lemma_sorted_unique(
            sorted@,
            targets@.sort_by(target_order()),
            target_order(),
        );
    }
    sorted
}

/// How what is built grows with one more target in order.
proof fn lemma_arranged_push(seen: Seq<Target>, target: Target)
    requires
        vstd::relations::sorted_by(seen.push(target), target_order()),
    ensures
        seen.push(target).contains(Target::Lib) == (seen.contains(Target::Lib) || target is Lib),
        has_needing(seen.push(target)) == (has_needing(seen) || target.needs_lib()),
        target is Lib ==> !has_needing(seen),
        arranged(seen.push(target)) == match target {
            Target::Lib => if seen.contains(Target::Lib) {
                arranged(seen)
            } else {
                arranged(seen).push(target)
            },
            Target::Bin(_) => arranged(seen).push(target),
            _ => if seen.contains(Target::Lib) || has_needing(seen) {
                arranged(seen)
            } else {
                seq![Target::Lib] + arranged(seen).push(target)
            },
        },
{
    let next = seen.push(target);
    let order = target_order();
    let needs = |target: Target| target.needs_lib();
    seen.lemma_filter_push(target, |target: Target| target.is_bin());
    seen.lemma_filter_push(target, needs);
    assert forall|i: int| 0 <= i < seen.len() implies #[trigger] seen[i].precedes(target) by {
        assert(order(next[i], next[seen.len() as int]));
    }
    assert(next[seen.len() as int] == target);
    assert(next.contains(target));
    if seen.contains(Target::Lib) {
        let k = choose|k: int| 0 <= k < seen.len() && seen[k] == Target::Lib;
        assert(next[k] == Target::Lib);
    }
    if next.contains(Target::Lib) && !(target is Lib) {
        let k = choose|k: int| 0 <= k < next.len() && next[k] == Target::Lib;
        assert(seen[k] == Target::Lib);
    }
    if has_needing(seen) {
        let first = needing(seen)[0];
        seen.lemma_filter_pred(needs, 0);
        assert(needing(seen).contains(first));
        seen.lemma_filter_contains_rev(needs, first);
        let k = choose|k: int| 0 <= k < seen.len() && seen[k] == first;
        assert(seen[k].precedes(target));
    }
    if target is Lib {
        if seen.len() > 0 {
            assert(seen[0].precedes(target));
            assert(seen[0] == Target::Lib);
        } else {
            reveal(Seq::filter);
            assert(arranged(seen) =~= Seq::<Target>::empty());
            assert(arranged(next) =~= seq![Target::Lib]);
        }
    }
    assert(arranged(next) =~= match target {
        Target::Lib => if seen.contains(Target::Lib) {
            arranged(seen)
        } else {
            arranged(seen).push(target)
        },
        Target::Bin(_) => arranged(seen).push(target),
        _ => if seen.contains(Target::Lib) || has_needing(seen) {
            arranged(seen)
        } else {
            seq![Target::Lib] + arranged(seen).push(target)
        },
    });
}

impl Targets {
    /// The targets to build for a list of targets that were asked for.
    pub fn new(ts: Vec<Target>) -> (targets: Targets)
        ensures
            targets.0@ == targets_of(ts@),
    {
        let ghost asked = ts@;
        let sorted = sort(ts);
        let mut res: Vec<Target> = Vec::new();
        let mut seen_lib = false;
        let mut i: usize = 0;
        proof {
            lemma_target_order();
            asked.lemma_sort_by_ensures(target_order());
            reveal(Seq::filter);
            assert(sorted@.take(0) =~= Seq::<Target>::empty());
        }
        while i < sorted.len()
            invariant
                i <= sorted@.len(),
                res@ == arranged(sorted@.take(i as int)),
                res@.len() <= i + 1,
                seen_lib == (sorted@.take(i as int).contains(Target::Lib) || has_needing(
                    sorted@.take(i as int),
                )),
                vstd::relations::sorted_by(sorted@, target_order()),
            decreases sorted@.len() - i,
        {
            let target = sorted[i];
            let ghost before = res@;
            proof {
                let seen = sorted@.take(i as int);
                let order = target_order();
                assert(sorted@.take(i + 1) =~= seen.push(target));
                assert forall|j: int, k: int| 0 <= j < k < seen.push(target).len() implies
                    #[trigger] order(seen.push(target)[j], seen.push(target)[k]) by {
                    assert(order(sorted@[j], sorted@[k]));
                }
                lemma_arranged_push(seen, target);
            }
            match target {
                Target::Lib => {
                    if !seen_lib {
                        res.push(target);
                        seen_lib = true;
                    }
                },
                Target::Bin(_) => {
                    res.push(target);
                },
                Target::Test(_) => {
                    if !seen_lib {
                        seen_lib = true;
                        res.insert(0, Target::Lib);
                        res.push(target);
                    }
                },
                Target::Doc => {
                    if !seen_lib {
                        seen_lib = true;
                        res.insert(0, Target::Lib);
                        res.push(target);
                    }
                },
            }
            proof {
                assert(seq![Target::Lib] + before.push(target) =~= before.insert(
                    0,
                    Target::Lib,
                ).push(target));
            }
            i = i + 1;
        }
        proof {
            assert(sorted@.take(i as int) =~= sorted@);
        }
        Targets(res)
    }
}

/// Sorting keeps what there is, however often.
proof fn lemma_sorted(targets: Seq<Target>)
    ensures
        vstd::relations::sorted_by(targets.sort_by(target_order()), target_order()),
        targets.sort_by(target_order()).to_multiset() == targets.to_multiset(),
        forall|target: Target|
            targets.contains(target) == #[trigger] targets.sort_by(target_order()).contains(target),
{
    lemma_target_order();
    targets.lemma_sort_by_ensures(target_order());
    let sorted = targets.sort_by(target_order());
    assert forall|target: Target|
        targets.contains(target) == #[trigger] sorted.contains(target) by {
        vstd::seq_lib::to_multiset_contains(targets, target);
        vstd::seq_lib::to_multiset_contains(sorted, target);
    }
}

/// What is built does not depend on the order in which the targets were asked for.
pub proof fn law_order_does_not_matter(left: Seq<Target>, right: Seq<Target>)
    requires
        left.to_multiset() == right.to_multiset(),
    ensures
        targets_of(left) == targets_of(right),
{
    lemma_target_order();
    lemma_sorted(left);
    lemma_sorted(right);
    vstd::seq_lib::lemma_sorted_unique(
        left.sort_by(target_order()),
        right.sort_by(target_order()),
        target_order(),
    );
}

/// Targets that stand in order already are built in that order.
pub proof fn law_order_is_kept(targets: Seq<Target>)
    requires
        vstd::relations::sorted_by(targets, target_order()),
    ensures
        targets_of(targets) == arranged(targets),
{
    lemma_target_order();
    lemma_sorted(targets);
    vstd::seq_lib::lemma_sorted_unique(
        targets,
        targets.sort_by(target_order()),
        target_order(),
    );
}

/// The filtered parts of sorted targets.
proof fn lemma_parts(sorted: Seq<Target>)
    ensures
        forall|i: int| #![trigger bins(sorted)[i]]
            0 <= i < bins(sorted).len() ==> {
                &&& bins(sorted)[i] is Bin
                &&& sorted.contains(bins(sorted)[i])
            },
        has_needing(sorted) ==> {
            &&& needing(sorted)[0].needs_lib()
            &&& sorted.contains(needing(sorted)[0])
        },
        has_needing(sorted) == exists|target: Target|
            #[trigger] sorted.contains(target) && target.needs_lib(),
{
    let is_bin = |target: Target| target.is_bin();
    let needs = |target: Target| target.needs_lib();
    assert forall|i: int| #![trigger bins(sorted)[i]] 0 <= i < bins(sorted).len() implies bins(
        sorted,
    )[i] is Bin && sorted.contains(bins(sorted)[i]) by {
        sorted.lemma_filter_pred(is_bin, i);
        assert(bins(sorted).contains(bins(sorted)[i]));
        sorted.lemma_filter_contains_rev(is_bin, bins(sorted)[i]);
    }
    if has_needing(sorted) {
        sorted.lemma_filter_pred(needs, 0);
        assert(needing(sorted).contains(needing(sorted)[0]));
        sorted.lemma_filter_contains_rev(needs, needing(sorted)[0]);
    }
    if exists|target: Target| #[trigger] sorted.contains(target) && target.needs_lib() {
        let target = choose|target: Target| #[trigger]
            sorted.contains(target) && target.needs_lib();
        let k = choose|k: int| 0 <= k < sorted.len() && sorted[k] == target;
        sorted.lemma_filter_contains(needs, k);
    }
}

/// The library is built exactly where it is asked for, or where a target is that needs it. It is
/// built once, and before everything else.
pub proof fn law_lib_comes_first(targets: Seq<Target>)
    ensures
        targets_of(targets).contains(Target::Lib) <==> exists|target: Target| #[trigger]
            targets.contains(target) && (target is Lib || target.needs_lib()),
        targets_of(targets).contains(Target::Lib) ==> targets_of(targets)[0] == Target::Lib,
        forall|i: int| 0 < i < targets_of(targets).len() ==> targets_of(targets)[i] != Target::Lib,
{
    let sorted = targets.sort_by(target_order());
    let result = targets_of(targets);
    lemma_sorted(targets);
    lemma_parts(sorted);
    if sorted.contains(Target::Lib) || has_needing(sorted) {
        assert(result[0] == Target::Lib);
    }
    if exists|target: Target| #[trigger]
        targets.contains(target) && (target is Lib || target.needs_lib()) {
        let target = choose|target: Target| #[trigger]
            targets.contains(target) && (target is Lib || target.needs_lib());
        assert(sorted.contains(target));
    }
    if has_needing(sorted) {
        let first = needing(sorted)[0];
        assert(targets.contains(first));
    }
    if sorted.contains(Target::Lib) {
        assert(targets.contains(Target::Lib));
    }
}

/// Whatever needs the library is built after it, and nothing is built that was not asked for,
/// except the library.
pub proof fn law_nothing_else_is_built(targets: Seq<Target>)
    ensures
        forall|i: int| #![trigger targets_of(targets)[i]]
            0 <= i < targets_of(targets).len() ==> {
                &&& targets_of(targets)[i] is Lib || targets.contains(targets_of(targets)[i])
                &&& targets_of(targets)[i].needs_lib() ==> i > 0 && targets_of(targets)[0]
                    == Target::Lib
            },
{
    let sorted = targets.sort_by(target_order());
    lemma_sorted(targets);
    lemma_parts(sorted);
}

/// Every executable is built as often as it was asked for.
pub proof fn law_bins_are_kept(targets: Seq<Target>, index: usize)
    ensures
        targets_of(targets).to_multiset().count(Target::Bin(index))
            == targets.to_multiset().count(Target::Bin(index)),
{
    let sorted = targets.sort_by(target_order());
    let target = Target::Bin(index);
    lemma_sorted(targets);
    lemma_parts(sorted);
    lemma_filter_count(sorted, |target: Target| target.is_bin(), target);
    let lib = seq![Target::Lib];
    lemma_count_one(Target::Lib, target);
    if sorted.contains(Target::Lib) {
        vstd::seq_lib::lemma_multiset_commutative(lib, bins(sorted));
    } else if has_needing(sorted) {
        let first = needing(sorted)[0];
        vstd::seq_lib::lemma_multiset_commutative(lib, bins(sorted).push(first));
        vstd::seq_lib::to_multiset_build(bins(sorted), first);
    }
}

/// A sequence of one target holds no other.
proof fn lemma_count_one(target: Target, other: Target)
    requires
        target != other,
    ensures
        seq![target].to_multiset().count(other) == 0,
{
    let one = seq![target];
    if one.to_multiset().count(other) > 0 {
        vstd::seq_lib::to_multiset_contains(one, other);
        assert(one.contains(other));
    }
}

/// Filtering keeps what satisfies the predicate, however often.
proof fn lemma_filter_count(targets: Seq<Target>, keep: spec_fn(Target) -> bool, target: Target)
    requires
        keep(target),
    ensures
        targets.filter(keep).to_multiset().count(target) == targets.to_multiset().count(target),
    decreases targets.len(),
{
    reveal(Seq::filter);
    if targets.len() > 0 {
        let before = targets.drop_last();
        lemma_filter_count(before, keep, target);
        assert(targets =~= before.push(targets.last()));
        vstd::seq_lib::to_multiset_build(before, targets.last());
        vstd::seq_lib::to_multiset_build(before.filter(keep), targets.last());
    } else {
        assert(targets.filter(keep) =~= targets);
    }
}

/// What is built stands in the order of targets.
pub proof fn law_result_is_sorted(targets: Seq<Target>)
    ensures
        vstd::relations::sorted_by(targets_of(targets), target_order()),
{
    let sorted = targets.sort_by(target_order());
    let order = target_order();
    let result = targets_of(targets);
    lemma_sorted(targets);
    lemma_parts(sorted);
    lemma_filter_sorted(sorted, |target: Target| target.is_bin());
    assert forall|i: int, j: int| 0 <= i < j < result.len() implies #[trigger] order(
        result[i],
        result[j],
    ) by {
        if sorted.contains(Target::Lib) || has_needing(sorted) {
            if i > 0 {
                assert(result[i] == bins(sorted)[i - 1]);
                if j - 1 < bins(sorted).len() {
                    assert(order(bins(sorted)[i - 1], bins(sorted)[j - 1]));
                }
            }
        } else {
            assert(order(bins(sorted)[i], bins(sorted)[j]));
        }
    }
}

/// Filtering keeps targets in order.
proof fn lemma_filter_sorted(targets: Seq<Target>, keep: spec_fn(Target) -> bool)
    requires
        vstd::relations::sorted_by(targets, target_order()),
    ensures
        vstd::relations::sorted_by(targets.filter(keep), target_order()),
    decreases targets.len(),
{
    reveal(Seq::filter);
    let order = target_order();
    if targets.len() > 0 {
        let before = targets.drop_last();
        assert forall|i: int, j: int| 0 <= i < j < before.len() implies #[trigger] order(
            before[i],
            before[j],
        ) by {
            assert(order(targets[i], targets[j]));
        }
        lemma_filter_sorted(before, keep);
        let kept = before.filter(keep);
        if keep(targets.last()) {
            let whole = kept.push(targets.last());
            assert forall|i: int, j: int| 0 <= i < j < whole.len() implies #[trigger] order(
                whole[i],
                whole[j],
            ) by {
                if j < kept.len() {
                    assert(order(kept[i], kept[j]));
                } else {
                    assert(kept.contains(kept[i]));
                    before.lemma_filter_contains_rev(keep, kept[i]);
                    let k = choose|k: int| 0 <= k < before.len() && before[k] == kept[i];
                    assert(order(targets[k], targets[targets.len() - 1]));
                }
            }
        }
    }
}

/// The order of targets: the library, then executables, then tests, each by their index, and then
/// the documentation.
pub proof fn law_targets_have_an_order(left: Target, right: Target)
    ensures
        left.precedes(right) == match (left, right) {
            (Target::Lib, _) => true,
            (Target::Bin(i), Target::Bin(j)) => i <= j,
            (Target::Bin(_), Target::Lib) => false,
            (Target::Bin(_), _) => true,
            (Target::Test(i), Target::Test(j)) => i <= j,
            (Target::Test(_), Target::Doc) => true,
            (Target::Doc, Target::Doc) => true,
            _ => false,
        },
        target_order()(left, right) == left.precedes(right),
{
}

/// How often each target is built, however many are asked for: the library once if it, a test or
/// documentation is asked for; an executable as often as it is asked for; and a test or
/// documentation once if the library is not asked for and no such target comes before it.
pub proof fn law_what_is_built(targets: Seq<Target>, target: Target)
    ensures
        targets_of(targets).to_multiset().count(target) == match target {
            Target::Lib => if exists|other: Target| #[trigger]
                targets.contains(other) && !(other is Bin) {
                1nat
            } else {
                0nat
            },
            Target::Bin(_) => targets.to_multiset().count(target),
            _ => if targets.contains(target) && !targets.contains(Target::Lib) && forall|other:
                Target| #[trigger]
                targets.contains(other) && (other is Test || other is Doc) ==> target.precedes(
                    other,
                ) {
                1nat
            } else {
                0nat
            },
        },
{
    let sorted = targets.sort_by(target_order());
    let result = targets_of(targets);
    let lib = seq![Target::Lib];
    lemma_sorted(targets);
    lemma_parts(sorted);
    match target {
        Target::Bin(index) => {
            law_bins_are_kept(targets, index);
        },
        Target::Lib => {
            law_lib_comes_first(targets);
            lemma_count_at_most_once(result, target);
            vstd::seq_lib::to_multiset_contains(result, target);
            assert((exists|other: Target| #[trigger]
                targets.contains(other) && !(other is Bin)) == (exists|other: Target| #[trigger]
                targets.contains(other) && (other is Lib || other.needs_lib())));
        },
        _ => {
            let needs = |target: Target| target.needs_lib();
            lemma_count_needing(sorted, target);
            if has_needing(sorted) {
                let first = needing(sorted)[0];
                lemma_filter_sorted(sorted, needs);
                let order = target_order();
                assert forall|other: Target| #[trigger]
                    targets.contains(other) && other.needs_lib() implies first.precedes(other) by {
                    assert(sorted.contains(other));
                    let k = choose|k: int| 0 <= k < sorted.len() && sorted[k] == other;
                    sorted.lemma_filter_contains(needs, k);
                    let j = choose|j: int|
                        0 <= j < needing(sorted).len() && needing(sorted)[j] == other;
                    if j > 0 {
                        assert(order(needing(sorted)[0], needing(sorted)[j]));
                    }
                }
                assert(targets.contains(first));
            } else {
                assert(!targets.contains(target)) by {
                    if targets.contains(target) {
                        assert(sorted.contains(target));
                    }
                }
            }
        },
    }
}

/// How often a target that needs the library is built.
proof fn lemma_count_needing(sorted: Seq<Target>, target: Target)
    requires
        target is Test || target is Doc,
    ensures
        arranged(sorted).to_multiset().count(target) == if !sorted.contains(Target::Lib)
            && has_needing(sorted) && needing(sorted)[0] == target {
            1nat
        } else {
            0nat
        },
{
    let lib = seq![Target::Lib];
    lemma_parts(sorted);
    lemma_count_one(Target::Lib, target);
    assert(bins(sorted).to_multiset().count(target) == 0) by {
        if bins(sorted).to_multiset().count(target) > 0 {
            vstd::seq_lib::to_multiset_contains(bins(sorted), target);
            let k = choose|k: int| 0 <= k < bins(sorted).len() && bins(sorted)[k] == target;
            assert(bins(sorted)[k] is Bin);
        }
    }
    if sorted.contains(Target::Lib) {
        vstd::seq_lib::lemma_multiset_commutative(lib, bins(sorted));
    } else if has_needing(sorted) {
        let first = needing(sorted)[0];
        vstd::seq_lib::lemma_multiset_commutative(lib, bins(sorted).push(first));
        vstd::seq_lib::to_multiset_build(bins(sorted), first);
    }
}

/// The library is built at most once.
proof fn lemma_count_at_most_once(targets: Seq<Target>, target: Target)
    requires
        forall|i: int| 0 < i < targets.len() ==> targets[i] != target,
    ensures
        targets.to_multiset().count(target) <= 1,
    decreases targets.len(),
{
    if targets.len() > 0 {
        let before = targets.drop_last();
        assert(targets =~= before.push(targets.last()));
        vstd::seq_lib::to_multiset_build(before, targets.last());
        assert forall|i: int| 0 < i < before.len() implies before[i] != target by {
            assert(targets[i] != target);
        }
        lemma_count_at_most_once(before, target);
        if before.len() == 0 {
            assert(before =~= Seq::<Target>::empty());
            lemma_none(target);
        }
    } else {
        assert(targets =~= Seq::<Target>::empty());
        lemma_none(target);
    }
}

/// Nothing holds no target.
proof fn lemma_none(target: Target)
    ensures
        Seq::<Target>::empty().to_multiset().count(target) == 0,
{
    let none = Seq::<Target>::empty();
    if none.to_multiset().count(target) > 0 {
        vstd::seq_lib::to_multiset_contains(none, target);
        assert(none.contains(target));
    }
}

/// What is built stands in order: each target before those that come after it.
pub proof fn law_each_is_built_in_its_turn(targets: Seq<Target>, i: int, j: int)
    requires
        0 <= i < j < targets_of(targets).len(),
    ensures
        match (targets_of(targets)[i], targets_of(targets)[j]) {
            (Target::Lib, _) => true,
            (Target::Bin(left), Target::Bin(right)) => left <= right,
            (Target::Bin(_), Target::Lib) => false,
            (Target::Bin(_), _) => true,
            (Target::Test(left), Target::Test(right)) => left <= right,
            (Target::Test(_), Target::Doc) => true,
            (Target::Doc, Target::Doc) => true,
            _ => false,
        },
{
    let order = target_order();
    law_result_is_sorted(targets);
    assert(order(targets_of(targets)[i], targets_of(targets)[j]));
}

} // verus!
