//! The graph of the packages that a package is built from.
use crate::retrieve::cache::Source;
use petgraph::visit::{Bfs, IntoNodeReferences, Walker};
use vstd::prelude::*;

verus! {

/// The graphs of `petgraph`.
#[verifier::external_type_specification]
#[verifier::external_body]
#[verifier::reject_recursive_types(N)]
#[verifier::reject_recursive_types(E)]
#[verifier::reject_recursive_types(Ty)]
#[verifier::reject_recursive_types(Ix)]
pub struct ExGraph<N, E, Ty, Ix>(petgraph::graph::Graph<N, E, Ty, Ix>);

/// The marker of the directed graphs of `petgraph`.
#[verifier::external_type_specification]
#[verifier::external_body]
pub struct ExDirected(petgraph::Directed);

/// A graph of sources: an edge leads from a package to one that it depends on.
pub type SourceSolve = petgraph::graph::Graph<Source, (), petgraph::Directed, u32>;

/// The hashes of the sources in a graph, by their indices.
pub uninterp spec fn graph_hashes(
    graph: petgraph::graph::Graph<Source, (), petgraph::Directed, u32>,
) -> Seq<Seq<char>>;

/// For each node of a graph, by its index, the nodes that its edges lead to, in the order in which
/// the graph lists them.
pub uninterp spec fn graph_successors(
    graph: petgraph::graph::Graph<Source, (), petgraph::Directed, u32>,
) -> Seq<Seq<usize>>;

/// Whether the lists of successors are those of a graph with a number of nodes: there is one for
/// each node, and edges lead to nodes.
pub open spec fn is_adjacency(successors: Seq<Seq<usize>>, nodes: nat) -> bool {
    &&& successors.len() == nodes
    &&& forall|i: int, j: int|
        0 <= i < successors.len() && 0 <= j < successors[i].len() ==> #[trigger] successors[i][j]
            < nodes
}

/// What of a list of nodes is not among those found, once each.
pub open spec fn fresh(found: Seq<usize>, list: Seq<usize>) -> Seq<usize>
    decreases list.len(),
{
    if list.len() == 0 {
        Seq::empty()
    } else {
        let before = fresh(found, list.drop_last());
        if found.contains(list.last()) || before.contains(list.last()) {
            before
        } else {
            before.push(list.last())
        }
    }
}

/// The nodes that a breadth-first search has found after a number of visits. It visits them in the
/// order in which it finds them, and finds the successors of each.
pub open spec fn found_after(successors: Seq<Seq<usize>>, start: usize, visits: nat) -> Seq<usize>
    decreases visits,
{
    if visits == 0 {
        seq![start]
    } else {
        let found = found_after(successors, start, (visits - 1) as nat);
        if visits - 1 < found.len() {
            found + fresh(found, successors[found[visits - 1] as int])
        } else {
            found
        }
    }
}

/// The order in which a breadth-first search visits the nodes.
pub open spec fn search_order(successors: Seq<Seq<usize>>, start: usize) -> Seq<usize> {
    found_after(successors, start, successors.len())
}

/// Whether a list of nodes is a way along edges.
pub open spec fn is_way(successors: Seq<Seq<usize>>, way: Seq<usize>) -> bool {
    forall|i: int|
        #![trigger way[i]]
        0 <= i < way.len() - 1 ==> successors[way[i] as int].contains(way[i + 1])
}

/// Whether there is a way from one node to another.
pub open spec fn reaches(successors: Seq<Seq<usize>>, from: usize, to: usize) -> bool {
    exists|way: Seq<usize>| #[trigger]
        is_way(successors, way) && way.len() > 0 && way[0] == from && way.last() == to
}

/// Whether a list of nodes begins with a node and holds, once each, the nodes that it reaches.
pub open spec fn is_search(successors: Seq<Seq<usize>>, start: usize, order: Seq<usize>) -> bool {
    &&& order.len() > 0
    &&& order[0] == start
    &&& order.no_duplicates()
    &&& forall|node: usize| #[trigger] order.contains(node) <==> reaches(successors, start, node)
}

/// Calls `node_references` of `petgraph`'s `Graph` and takes the hash of each source. Trusted: it
/// hands out every node, in the order of the indices, which begin at zero, and the edges of the
/// graph lead to these nodes.
#[verifier::external_body]
fn node_hashes(graph: &SourceSolve) -> (hashes: Vec<String>)
    ensures
        hash_views(hashes@) == graph_hashes(*graph),
        is_adjacency(graph_successors(*graph), hashes@.len()),
{
    graph.node_references().map(|(_, source)| source.hash.clone()).collect()
}

/// Calls `Bfs::new` of `petgraph` and walks the search to its end. Trusted: it begins with the
/// start, visits the nodes in the order in which it finds them, and finds with each visit those
/// successors of the node that it has not found before, in the order in which the graph lists
/// them.
#[verifier::external_body]
fn breadth_first(graph: &SourceSolve, start: usize) -> (order: Vec<usize>)
    requires
        start < graph_hashes(*graph).len(),
    ensures
        order@ == search_order(graph_successors(*graph), start),
{
    let start = petgraph::graph::NodeIndex::new(start);
    Bfs::new(graph, start).iter(graph).map(|node| node.index()).collect()
}

/// The views of a list of hashes.
pub open spec fn hash_views(hashes: Seq<String>) -> Seq<Seq<char>> {
    hashes.map_values(|hash: String| hash@)
}

/// The first position of a hash in a list that holds it.
pub open spec fn first_position(hashes: Seq<Seq<char>>, hash: Seq<char>) -> int
    decreases hashes.len(),
{
    if hashes.len() == 0 || hashes[0] == hash {
        0
    } else {
        1 + first_position(hashes.drop_first(), hash)
    }
}

/// The hashes of the sources that a root is built from: its own and those of everything that it
/// depends on, in the order of a breadth-first search.
pub open spec fn hashes_in_order(hashes: Seq<Seq<char>>, order: Seq<usize>) -> Seq<Seq<char>> {
    order.map_values(|node: usize| hashes[node as int])
}

/// The bytes of texts, one after the other.
pub open spec fn bytes_of_all(texts: Seq<Seq<char>>) -> Seq<u8>
    decreases texts.len(),
{
    if texts.len() == 0 {
        Seq::empty()
    } else {
        bytes_of_all(texts.drop_last()) + vstd::utf8::encode_utf8(texts.last())
    }
}

/// Where a root is in a graph that holds it.
pub open spec fn position_of(graph: SourceSolve, root: Seq<char>) -> usize {
    first_position(graph_hashes(graph), root) as usize
}

/// The nodes that a root in a graph is built from.
pub open spec fn build_order(graph: SourceSolve, root: Seq<char>) -> Seq<usize> {
    search_order(graph_successors(graph), position_of(graph, root))
}

/// The hashes of what a root in a graph is built from.
pub open spec fn build_hashes(graph: SourceSolve, root: Seq<char>) -> Seq<Seq<char>> {
    hashes_in_order(graph_hashes(graph), build_order(graph, root))
}

/// Whether edges lead to nodes of the graph, of which there are not too many to count.
pub open spec fn is_graph(graph: SourceSolve) -> bool {
    is_adjacency(graph_successors(graph), graph_hashes(graph).len()) && graph_hashes(graph).len()
        <= usize::MAX
}

/// What holds of a root in a graph: it is built from every source that can be reached from it,
/// once each, from itself first, and from nothing else.
pub open spec fn is_built_from_graph(graph: SourceSolve, root: Seq<char>) -> bool {
    let hashes = build_hashes(graph, root);
    &&& is_search(
        graph_successors(graph),
        position_of(graph, root),
        build_order(graph, root),
    )
    &&& hashes.len() > 0
    &&& hashes[0] == root
    &&& forall|i: int|
        0 <= i < hashes.len() ==> graph_hashes(graph).contains(#[trigger] hashes[i])
}

/// Finds a hash in a list.
pub fn find_hash(hashes: &Vec<String>, hash: &String) -> (position: Option<usize>)
    ensures
        match position {
            None => {
                &&& !hash_views(hashes@).contains(hash@)
                &&& forall|j: int| 0 <= j < hashes@.len() ==> (#[trigger] hashes@[j])@ != hash@
            },
            Some(ix) => {
                &&& hash_views(hashes@).contains(hash@)
                &&& ix == first_position(hash_views(hashes@), hash@)
                &&& ix < hashes@.len()
                &&& hash_views(hashes@)[ix as int] == hash@
                &&& hashes@[ix as int]@ == hash@
                &&& forall|j: int| 0 <= j < ix ==> (#[trigger] hashes@[j])@ != hash@
            },
        },
{
    let ghost views = hash_views(hashes@);
    let mut i: usize = 0;
    proof {
        assert(views.skip(0) =~= views);
    }
    while i < hashes.len()
        invariant
            i <= hashes@.len(),
            views == hash_views(hashes@),
            forall|j: int| 0 <= j < i ==> views[j] != hash@,
            forall|j: int| 0 <= j < i ==> (#[trigger] hashes@[j])@ != hash@,
            first_position(views, hash@) == i + first_position(views.skip(i as int), hash@),
        decreases hashes@.len() - i,
    {
        proof {
            assert(views[i as int] == hashes@[i as int]@);
            assert(views.skip(i as int)[0] == views[i as int]);
            assert(views.skip(i as int).drop_first() =~= views.skip(i + 1));
        }
        if hashes[i] == *hash {
            return Some(i);
        }
        i = i + 1;
    }
    None
}

/// The bytes of the hashes at some positions, one after the other.
pub fn hash_bytes(hashes: &Vec<String>, order: &Vec<usize>) -> (bytes: Vec<u8>)
    requires
        forall|i: int| 0 <= i < order@.len() ==> #[trigger] order@[i] < hashes@.len(),
    ensures
        bytes@ == bytes_of_all(hashes_in_order(hash_views(hashes@), order@)),
{
    let mut bytes: Vec<u8> = Vec::new();
    let ghost all = hashes_in_order(hash_views(hashes@), order@);
    let mut i: usize = 0;
    while i < order.len()
        invariant
            i <= order@.len(),
            all == hashes_in_order(hash_views(hashes@), order@),
            bytes@ == bytes_of_all(all.take(i as int)),
            forall|k: int| 0 <= k < order@.len() ==> #[trigger] order@[k] < hashes@.len(),
        decreases order@.len() - i,
    {
        let hash = &hashes[order[i]];
        crate::path::append_bytes(&mut bytes, hash.as_str().as_bytes());
        proof {
            assert(all.take(i + 1).drop_last() =~= all.take(i as int));
            assert(all[i as int] == hash@);
        }
        i = i + 1;
    }
    proof {
        assert(all.take(i as int) =~= all);
    }
    bytes
}

/// Where a source is in a graph, by its hash.
pub fn find_source(root: &Source, graph: &SourceSolve) -> (position: Option<usize>)
    ensures
        match position {
            None => !graph_hashes(*graph).contains(root.hash@),
            Some(ix) => {
                &&& graph_hashes(*graph).contains(root.hash@)
                &&& ix == first_position(graph_hashes(*graph), root.hash@)
                &&& ix < graph_hashes(*graph).len()
            },
        },
{
    let hashes = node_hashes(graph);
    find_hash(&hashes, &root.hash)
}

/// The bytes of the hashes of everything that a root is built from.
pub fn build_bytes(root: &Source, graph: &SourceSolve) -> (bytes: Vec<u8>)
    requires
        graph_hashes(*graph).contains(root.hash@),
    ensures
        bytes@ == bytes_of_all(build_hashes(*graph, root.hash@)),
        is_graph(*graph),
        is_built_from_graph(*graph, root.hash@),
{
    let hashes = node_hashes(graph);
    let start = find_hash(&hashes, &root.hash).unwrap();
    let order = breadth_first(graph, start);
    proof {
        assert(is_graph(*graph)) by {
            assert(graph_hashes(*graph).len() == hashes.len());
        }
        law_root_is_built_from_graph(*graph, root.hash@);
        lemma_found(graph_successors(*graph), start, hashes@.len());
    }
    hash_bytes(&hashes, &order)
}

/// The first position of a text in a list that holds it is one where it stands.
proof fn lemma_first_position(hashes: Seq<Seq<char>>, hash: Seq<char>)
    requires
        hashes.contains(hash),
    ensures
        0 <= first_position(hashes, hash) < hashes.len(),
        hashes[first_position(hashes, hash)] == hash,
    decreases hashes.len(),
{
    if hashes[0] != hash {
        let rest = hashes.drop_first();
        let k = choose|k: int| 0 <= k < hashes.len() && hashes[k] == hash;
        assert(rest[k - 1] == hash);
        lemma_first_position(rest, hash);
    }
}

/// What stands behind a list does not change the first position of what it holds.
proof fn lemma_first_position_in_prefix(
    hashes: Seq<Seq<char>>,
    more: Seq<Seq<char>>,
    hash: Seq<char>,
)
    requires
        hashes.contains(hash),
        hashes.is_prefix_of(more),
    ensures
        first_position(more, hash) == first_position(hashes, hash),
    decreases hashes.len(),
{
    assert(hashes[0] == more[0]);
    if hashes[0] != hash {
        let rest = hashes.drop_first();
        let k = choose|k: int| 0 <= k < hashes.len() && hashes[k] == hash;
        assert(rest[k - 1] == hash);
        assert(rest =~= more.drop_first().take(rest.len() as int)) by {
            assert forall|i: int| 0 <= i < rest.len() implies rest[i] == more.drop_first()[i] by {
                assert(hashes[i + 1] == more[i + 1]);
            }
        }
        lemma_first_position_in_prefix(rest, more.drop_first(), hash);
    }
}

/// What is fresh of a list: everything in it that was not found, and nothing else, once each.
proof fn lemma_fresh(found: Seq<usize>, list: Seq<usize>)
    requires
        found.no_duplicates(),
    ensures
        (found + fresh(found, list)).no_duplicates(),
        forall|node: usize| #[trigger]
            fresh(found, list).contains(node) ==> list.contains(node) && !found.contains(node),
        forall|node: usize| #[trigger]
            list.contains(node) ==> (found + fresh(found, list)).contains(node),
    decreases list.len(),
{
    let new = fresh(found, list);
    if list.len() > 0 {
        let before = list.drop_last();
        let old_new = fresh(found, before);
        let last = list.last();
        lemma_fresh(found, before);
        assert forall|node: usize| #[trigger] new.contains(node) implies list.contains(node)
            && !found.contains(node) by {
            let k = choose|k: int| 0 <= k < new.len() && new[k] == node;
            if k < old_new.len() {
                assert(old_new[k] == node);
                assert(old_new.contains(node));
                let j = choose|j: int| 0 <= j < before.len() && before[j] == node;
                assert(list[j] == node);
            } else {
                assert(list[list.len() - 1] == node);
            }
        }
        assert forall|node: usize| #[trigger] list.contains(node) implies (found
            + new).contains(node) by {
            let j = choose|j: int| 0 <= j < list.len() && list[j] == node;
            if j < before.len() {
                assert(before[j] == node);
                assert(before.contains(node));
                let k = choose|k: int|
                    0 <= k < (found + old_new).len() && (found + old_new)[k] == node;
                assert((found + new)[k] == node);
            } else if found.contains(node) {
                let k = choose|k: int| 0 <= k < found.len() && found[k] == node;
                assert((found + new)[k] == node);
            } else if old_new.contains(node) {
                let k = choose|k: int| 0 <= k < old_new.len() && old_new[k] == node;
                assert((found + new)[found.len() + k] == node);
            } else {
                assert((found + new)[found.len() as int + old_new.len()] == node);
            }
        }
        assert((found + new).no_duplicates()) by {
            if !(found.contains(last) || old_new.contains(last)) {
                let all = found + old_new;
                assert(found + new =~= all.push(last));
                assert(!all.contains(last)) by {
                    if all.contains(last) {
                        let k = choose|k: int| 0 <= k < all.len() && all[k] == last;
                        if k < found.len() {
                            assert(found[k] == last);
                        } else {
                            assert(old_new[k - found.len()] == last);
                        }
                    }
                }
            }
        }
    } else {
        assert(found + new =~= found);
    }
}

/// A way can be gone on along an edge.
proof fn lemma_reaches_next(successors: Seq<Seq<usize>>, start: usize, node: usize, next: usize)
    requires
        reaches(successors, start, node),
        successors[node as int].contains(next),
    ensures
        reaches(successors, start, next),
{
    let way = choose|way: Seq<usize>| #[trigger]
        is_way(successors, way) && way.len() > 0 && way[0] == start && way.last() == node;
    let longer = way.push(next);
    assert(is_way(successors, longer)) by {
        assert forall|i: int| #![trigger longer[i]] 0 <= i < longer.len() - 1 implies
            successors[longer[i] as int].contains(longer[i + 1]) by {
            if i < way.len() - 1 {
                assert(successors[way[i] as int].contains(way[i + 1]));
                assert(longer[i] == way[i]);
                assert(longer[i + 1] == way[i + 1]);
            }
        }
    }
}

/// What a search has found: nodes that can be reached, once each, the start first, with the
/// successors of those that it has visited.
proof fn lemma_found(successors: Seq<Seq<usize>>, start: usize, visits: nat)
    requires
        is_adjacency(successors, successors.len()),
        start < successors.len(),
    ensures
        ({
            let found = found_after(successors, start, visits);
            &&& found.len() > 0
            &&& found[0] == start
            &&& found.no_duplicates()
            &&& found.len() <= successors.len()
            &&& forall|i: int|
                #![trigger found[i]]
                0 <= i < found.len() ==> found[i] < successors.len() && reaches(
                    successors,
                    start,
                    found[i],
                )
            &&& forall|i: int, node: usize|
                #![trigger successors[found[i] as int].contains(node)]
                0 <= i < found.len() && i < visits && successors[found[i] as int].contains(node)
                    ==> found.contains(node)
        }),
    decreases visits,
{
    let found = found_after(successors, start, visits);
    if visits == 0 {
        assert(is_way(successors, seq![start]));
        assert(reaches(successors, start, start)) by {
            assert(seq![start].last() == start);
        }
    } else {
        let before = found_after(successors, start, (visits - 1) as nat);
        lemma_found(successors, start, (visits - 1) as nat);
        if visits - 1 < before.len() {
            let at = before[visits - 1];
            let list = successors[at as int];
            let new = fresh(before, list);
            lemma_fresh(before, list);
            assert forall|i: int| #![trigger found[i]] 0 <= i < found.len() implies found[i]
                < successors.len() && reaches(successors, start, found[i]) by {
                if i < before.len() {
                    assert(found[i] == before[i]);
                } else {
                    assert(new[i - before.len()] == found[i]);
                    assert(new.contains(found[i]));
                    assert(list.contains(found[i]));
                    let j = choose|j: int| 0 <= j < list.len() && list[j] == found[i];
                    assert(successors[at as int][j] < successors.len());
                    lemma_reaches_next(successors, start, at, found[i]);
                }
            }
            assert forall|i: int, node: usize|
                #![trigger successors[found[i] as int].contains(node)]
                0 <= i < found.len() && i < visits && successors[found[i] as int].contains(
                    node,
                ) implies found.contains(node) by {
                if i < visits - 1 {
                    assert(found[i] == before[i]);
                    assert(successors[before[i] as int].contains(node));
                    let k = choose|k: int| 0 <= k < before.len() && before[k] == node;
                    assert(found[k] == node);
                } else {
                    assert(found[i] == at);
                    assert(list.contains(node));
                }
            }
        }
    }
    lemma_not_more_than_nodes(found, successors.len());
}

/// There are no more different nodes than nodes.
proof fn lemma_not_more_than_nodes(found: Seq<usize>, nodes: nat)
    requires
        found.no_duplicates(),
        forall|i: int| #![trigger found[i]] 0 <= i < found.len() ==> found[i] < nodes,
    ensures
        found.len() <= nodes,
{
    let numbers = found.map_values(|node: usize| node as int);
    let all = vstd::set_lib::set_int_range(0, nodes as int);
    vstd::set_lib::lemma_int_range(0, nodes as int);
    assert(numbers.no_duplicates()) by {
        assert forall|i: int, j: int|
            0 <= i < numbers.len() && 0 <= j < numbers.len() && i != j implies numbers[i]
            != numbers[j] by {
            assert(found[i] != found[j]);
        }
    }
    numbers.unique_seq_to_set();
    assert(numbers.to_set().subset_of(all)) by {
        assert forall|number: int| numbers.to_set().contains(number) implies all.contains(
            number,
        ) by {
            let k = choose|k: int| 0 <= k < numbers.len() && numbers[k] == number;
            assert(found[k] < nodes);
        }
    }
    vstd::set_lib::lemma_len_subset(numbers.to_set(), all);
}

/// A breadth-first search visits what can be reached from the start, once each, and the start
/// first.
pub proof fn law_search_finds_what_is_reached(successors: Seq<Seq<usize>>, start: usize)
    requires
        is_adjacency(successors, successors.len()),
        start < successors.len(),
    ensures
        is_search(successors, start, search_order(successors, start)),
{
    let order = search_order(successors, start);
    lemma_found(successors, start, successors.len());
    assert forall|node: usize| reaches(successors, start, node) implies #[trigger] order.contains(
        node,
    ) by {
        let way = choose|way: Seq<usize>| #[trigger]
            is_way(successors, way) && way.len() > 0 && way[0] == start && way.last() == node;
        lemma_way_is_found(successors, start, way, way.len() - 1);
    }
    assert forall|node: usize| #[trigger] order.contains(node) implies reaches(
        successors,
        start,
        node,
    ) by {
        let k = choose|k: int| 0 <= k < order.len() && order[k] == node;
        assert(reaches(successors, start, order[k]));
    }
}

/// A search finds every node on a way from the start.
proof fn lemma_way_is_found(successors: Seq<Seq<usize>>, start: usize, way: Seq<usize>, at: int)
    requires
        is_adjacency(successors, successors.len()),
        start < successors.len(),
        is_way(successors, way),
        0 <= at < way.len(),
        way[0] == start,
    ensures
        search_order(successors, start).contains(way[at]),
    decreases at,
{
    let order = search_order(successors, start);
    lemma_found(successors, start, successors.len());
    if at == 0 {
        assert(order[0] == start);
    } else {
        lemma_way_is_found(successors, start, way, at - 1);
        assert(successors[way[at - 1] as int].contains(way[at - 1 + 1]));
        let k = choose|k: int| 0 <= k < order.len() && order[k] == way[at - 1];
        assert(successors[order[k] as int].contains(way[at]));
    }
}

/// A search that has visited everything that it has found finds nothing more.
proof fn lemma_search_ends(successors: Seq<Seq<usize>>, start: usize, visits: nat, more: nat)
    requires
        found_after(successors, start, visits).len() <= visits <= more,
    ensures
        found_after(successors, start, more) == found_after(successors, start, visits),
    decreases more,
{
    if more > visits {
        lemma_search_ends(successors, start, visits, (more - 1) as nat);
    }
}

/// Other names for nodes.
pub open spec fn renamed(list: Seq<usize>, names: spec_fn(usize) -> usize) -> Seq<usize> {
    list.map_values(names)
}

/// Whether a graph has another one in it, under other names, as far as that can be reached from a
/// start: the names are different, and the successors of a node have the names of its successors.
pub open spec fn is_renaming(
    left: Seq<Seq<usize>>,
    right: Seq<Seq<usize>>,
    start: usize,
    names: spec_fn(usize) -> usize,
) -> bool {
    &&& forall|node: usize| #[trigger]
        reaches(left, start, node) ==> right[names(node) as int] == renamed(
            left[node as int],
            names,
        )
    &&& forall|node: usize, other: usize|
        #![trigger reaches(left, start, node), reaches(left, start, other)]
        reaches(left, start, node) && reaches(left, start, other) && names(node) == names(other)
            ==> node == other
}

/// A list holds a node if it holds the name of the node under other names.
proof fn lemma_renamed_contains(
    left: Seq<Seq<usize>>,
    right: Seq<Seq<usize>>,
    start: usize,
    names: spec_fn(usize) -> usize,
    list: Seq<usize>,
    node: usize,
)
    requires
        is_renaming(left, right, start, names),
        forall|i: int| 0 <= i < list.len() ==> reaches(left, start, #[trigger] list[i]),
        reaches(left, start, node),
    ensures
        renamed(list, names).contains(names(node)) == list.contains(node),
{
    if renamed(list, names).contains(names(node)) {
        let k = choose|k: int|
            0 <= k < renamed(list, names).len() && renamed(list, names)[k] == names(node);
        assert(reaches(left, start, list[k]));
        assert(list[k] == node);
    }
    if list.contains(node) {
        let k = choose|k: int| 0 <= k < list.len() && list[k] == node;
        assert(renamed(list, names)[k] == names(node));
    }
}

/// What is fresh is the same under other names.
proof fn lemma_renamed_fresh(
    left: Seq<Seq<usize>>,
    right: Seq<Seq<usize>>,
    start: usize,
    names: spec_fn(usize) -> usize,
    found: Seq<usize>,
    list: Seq<usize>,
)
    requires
        is_renaming(left, right, start, names),
        forall|i: int| 0 <= i < found.len() ==> reaches(left, start, #[trigger] found[i]),
        forall|i: int| 0 <= i < list.len() ==> reaches(left, start, #[trigger] list[i]),
    ensures
        fresh(renamed(found, names), renamed(list, names)) == renamed(fresh(found, list), names),
        forall|i: int|
            0 <= i < fresh(found, list).len() ==> reaches(
                left,
                start,
                #[trigger] fresh(found, list)[i],
            ),
    decreases list.len(),
{
    if list.len() == 0 {
        assert(renamed(fresh(found, list), names) =~= Seq::<usize>::empty());
    } else {
        let before = list.drop_last();
        let last = list.last();
        let new = fresh(found, before);
        assert forall|i: int| 0 <= i < before.len() implies reaches(
            left,
            start,
            #[trigger] before[i],
        ) by {
            assert(before[i] == list[i]);
        }
        assert(reaches(left, start, list[list.len() - 1]));
        lemma_renamed_fresh(left, right, start, names, found, before);
        assert(renamed(list, names).drop_last() =~= renamed(before, names));
        assert(renamed(list, names).last() == names(last));
        lemma_renamed_contains(left, right, start, names, found, last);
        lemma_renamed_contains(left, right, start, names, new, last);
        assert(renamed(new.push(last), names) =~= renamed(new, names).push(names(last)));
    }
}

/// A search finds the same under other names.
proof fn lemma_renamed_found(
    left: Seq<Seq<usize>>,
    right: Seq<Seq<usize>>,
    start: usize,
    names: spec_fn(usize) -> usize,
    visits: nat,
)
    requires
        is_adjacency(left, left.len()),
        start < left.len(),
        is_renaming(left, right, start, names),
    ensures
        found_after(right, names(start), visits) == renamed(
            found_after(left, start, visits),
            names,
        ),
    decreases visits,
{
    if visits == 0 {
        assert(renamed(seq![start], names) =~= seq![names(start)]);
    } else {
        let before = found_after(left, start, (visits - 1) as nat);
        lemma_renamed_found(left, right, start, names, (visits - 1) as nat);
        lemma_found(left, start, (visits - 1) as nat);
        if visits - 1 < before.len() {
            let at = before[visits - 1];
            let list = left[at as int];
            assert(reaches(left, start, at));
            assert forall|i: int| 0 <= i < list.len() implies reaches(
                left,
                start,
                #[trigger] list[i],
            ) by {
                assert(list.contains(list[i]));
                lemma_reaches_next(left, start, at, list[i]);
            }
            lemma_renamed_fresh(left, right, start, names, before, list);
            assert(renamed(before, names)[visits - 1] == names(at));
            assert(renamed(before + fresh(before, list), names) =~= renamed(before, names)
                + renamed(fresh(before, list), names));
        }
    }
}

/// A search in a graph that has another one in it under other names visits what a search in the
/// other one does, in the same order, whatever else there is.
pub proof fn law_search_follows_what_is_reached(
    left: Seq<Seq<usize>>,
    right: Seq<Seq<usize>>,
    start: usize,
    names: spec_fn(usize) -> usize,
)
    requires
        is_adjacency(left, left.len()),
        is_adjacency(right, right.len()),
        start < left.len(),
        names(start) < right.len(),
        is_renaming(left, right, start, names),
    ensures
        search_order(right, names(start)) == renamed(search_order(left, start), names),
{
    let most = left.len() + right.len();
    lemma_found(left, start, left.len());
    lemma_found(right, names(start), right.len());
    lemma_search_ends(left, start, left.len(), most);
    lemma_search_ends(right, names(start), right.len(), most);
    lemma_renamed_found(left, right, start, names, most);
}

/// A root in a graph is built from every source that can be reached from it, once each, from
/// itself first, and from nothing else.
pub proof fn law_root_is_built_from_graph(graph: SourceSolve, root: Seq<char>)
    requires
        is_graph(graph),
        graph_hashes(graph).contains(root),
    ensures
        is_built_from_graph(graph, root),
{
    let hashes = graph_hashes(graph);
    let order = build_order(graph, root);
    lemma_first_position(hashes, root);
    law_search_finds_what_is_reached(graph_successors(graph), position_of(graph, root));
    lemma_found(
        graph_successors(graph),
        position_of(graph, root),
        graph_successors(graph).len(),
    );
    assert forall|i: int| 0 <= i < build_hashes(graph, root).len() implies hashes.contains(
        #[trigger] build_hashes(graph, root)[i],
    ) by {
        assert(order[i] < hashes.len());
        assert(hashes[order[i] as int] == build_hashes(graph, root)[i]);
    }
}

/// Roots of two graphs are built from the same hashes, in the same order, if one graph has the
/// other one in it under other names, as far as that can be reached from the root: neither the
/// indices of nodes nor unrelated packages count.
pub proof fn law_only_what_is_reached_counts(
    left: SourceSolve,
    left_root: Seq<char>,
    right: SourceSolve,
    right_root: Seq<char>,
    names: spec_fn(usize) -> usize,
)
    requires
        is_graph(left),
        is_graph(right),
        graph_hashes(left).contains(left_root),
        graph_hashes(right).contains(right_root),
        names(position_of(left, left_root)) == position_of(right, right_root),
        is_renaming(
            graph_successors(left),
            graph_successors(right),
            position_of(left, left_root),
            names,
        ),
        forall|node: usize| #[trigger]
            reaches(graph_successors(left), position_of(left, left_root), node) ==> graph_hashes(
                right,
            )[names(node) as int] == graph_hashes(left)[node as int],
    ensures
        build_hashes(right, right_root) == build_hashes(left, left_root),
{
    let start = position_of(left, left_root);
    lemma_first_position(graph_hashes(left), left_root);
    lemma_first_position(graph_hashes(right), right_root);
    law_search_follows_what_is_reached(
        graph_successors(left),
        graph_successors(right),
        start,
        names,
    );
    lemma_found(graph_successors(left), start, graph_successors(left).len());
    assert forall|i: int| 0 <= i < build_order(left, left_root).len() implies build_hashes(
        right,
        right_root,
    )[i] == build_hashes(left, left_root)[i] by {
        assert(reaches(graph_successors(left), start, build_order(left, left_root)[i]));
    }
    assert(build_hashes(right, right_root) =~= build_hashes(left, left_root));
}

/// Packages that a root does not reach do not matter: a graph with more of them, behind those that
/// there are, gives the same build.
pub proof fn law_unreached_packages_do_not_count(
    graph: SourceSolve,
    more: SourceSolve,
    root: Seq<char>,
)
    requires
        is_graph(graph),
        is_graph(more),
        graph_hashes(graph).contains(root),
        graph_hashes(graph).is_prefix_of(graph_hashes(more)),
        forall|node: usize| #[trigger]
            reaches(graph_successors(graph), position_of(graph, root), node) ==> graph_successors(
                more,
            )[node as int] == graph_successors(graph)[node as int],
    ensures
        build_hashes(more, root) == build_hashes(graph, root),
{
    let names = |node: usize| node;
    let successors = graph_successors(graph);
    let start = position_of(graph, root);
    lemma_first_position(graph_hashes(graph), root);
    lemma_first_position_in_prefix(graph_hashes(graph), graph_hashes(more), root);
    assert(graph_hashes(more)[start as int] == root);
    law_search_finds_what_is_reached(successors, start);
    lemma_found(successors, start, successors.len());
    assert forall|node: usize| #[trigger] reaches(successors, start, node) implies graph_hashes(
        more,
    )[names(node) as int] == graph_hashes(graph)[node as int] && graph_successors(
        more,
    )[names(node) as int] == renamed(successors[node as int], names) by {
        let order = search_order(successors, start);
        assert(order.contains(node));
        let k = choose|k: int| 0 <= k < order.len() && order[k] == node;
        assert(order[k] < successors.len());
        assert(renamed(successors[node as int], names) =~= successors[node as int]);
    }
    law_only_what_is_reached_counts(graph, root, more, root, names);
}

/// Whether texts at equal positions of two lists have as many bytes, and no text has none that the
/// other list has no text for.
pub open spec fn are_aligned(left: Seq<Seq<char>>, right: Seq<Seq<char>>) -> bool {
    &&& forall|i: int|
        #![trigger left[i]]
        0 <= i < left.len() ==> if i < right.len() {
            vstd::utf8::encode_utf8(left[i]).len() == vstd::utf8::encode_utf8(right[i]).len()
        } else {
            vstd::utf8::encode_utf8(left[i]).len() > 0
        }
    &&& forall|i: int|
        #![trigger right[i]]
        left.len() <= i < right.len() ==> vstd::utf8::encode_utf8(right[i]).len() > 0
}

/// More texts have no fewer bytes, and more of them if the first of the others has any.
proof fn lemma_more_bytes(texts: Seq<Seq<char>>, count: int)
    requires
        0 <= count <= texts.len(),
    ensures
        bytes_of_all(texts.take(count)).len() <= bytes_of_all(texts).len(),
        count < texts.len() && vstd::utf8::encode_utf8(texts[count]).len() > 0 ==> bytes_of_all(
            texts.take(count),
        ).len() < bytes_of_all(texts).len(),
    decreases texts.len(),
{
    if count == texts.len() {
        assert(texts.take(count) =~= texts);
    } else {
        let shorter = texts.drop_last();
        assert(shorter.take(count) =~= texts.take(count));
        lemma_more_bytes(shorter, count);
        if count == shorter.len() {
            assert(texts.take(count) =~= shorter);
        }
    }
}

/// As many texts with as many bytes each have as many bytes, and are the same if their bytes are.
proof fn lemma_bytes_of_equals(left: Seq<Seq<char>>, right: Seq<Seq<char>>)
    requires
        left.len() == right.len(),
        are_aligned(left, right),
    ensures
        bytes_of_all(left).len() == bytes_of_all(right).len(),
        bytes_of_all(left) == bytes_of_all(right) ==> left == right,
    decreases left.len(),
{
    if left.len() == 0 {
        assert(left =~= right);
    } else {
        let left_bytes = bytes_of_all(left.drop_last());
        let right_bytes = bytes_of_all(right.drop_last());
        let left_last = vstd::utf8::encode_utf8(left.last());
        let right_last = vstd::utf8::encode_utf8(right.last());
        assert(left_last.len() == right_last.len()) by {
            assert(left[left.len() - 1] == left.last());
        }
        assert(are_aligned(left.drop_last(), right.drop_last())) by {
            assert forall|i: int| #![trigger left.drop_last()[i]] 0 <= i
                < left.drop_last().len() implies vstd::utf8::encode_utf8(
                left.drop_last()[i],
            ).len() == vstd::utf8::encode_utf8(right.drop_last()[i]).len() by {
                assert(left[i] == left.drop_last()[i]);
            }
        }
        lemma_bytes_of_equals(left.drop_last(), right.drop_last());
        if bytes_of_all(left) == bytes_of_all(right) {
            assert(left_bytes =~= (left_bytes + left_last).take(left_bytes.len() as int));
            assert(right_bytes =~= (right_bytes + right_last).take(left_bytes.len() as int));
            assert(left_last =~= (left_bytes + left_last).skip(left_bytes.len() as int));
            assert(right_last =~= (right_bytes + right_last).skip(left_bytes.len() as int));
            vstd::utf8::encode_utf8_decode_utf8(left.last());
            vstd::utf8::encode_utf8_decode_utf8(right.last());
            assert(left =~= left.drop_last().push(left.last()));
            assert(right =~= right.drop_last().push(right.last()));
        }
    }
}

/// Lists of texts that are aligned are the same if their bytes are.
pub proof fn law_bytes_tell_texts_apart(left: Seq<Seq<char>>, right: Seq<Seq<char>>)
    requires
        are_aligned(left, right),
        bytes_of_all(left) == bytes_of_all(right),
    ensures
        left == right,
{
    let count = if left.len() < right.len() {
        left.len() as int
    } else {
        right.len() as int
    };
    let left_start = left.take(count);
    let right_start = right.take(count);
    assert(are_aligned(left_start, right_start)) by {
        assert forall|i: int| #![trigger left_start[i]] 0 <= i
            < left_start.len() implies vstd::utf8::encode_utf8(left_start[i]).len()
            == vstd::utf8::encode_utf8(right_start[i]).len() by {
            assert(left[i] == left_start[i]);
        }
    }
    lemma_bytes_of_equals(left_start, right_start);
    lemma_more_bytes(left, count);
    lemma_more_bytes(right, count);
    if left.len() > count {
        assert(vstd::utf8::encode_utf8(left[count]).len() > 0);
        assert(right_start =~= right);
    } else if right.len() > count {
        assert(vstd::utf8::encode_utf8(right[count]).len() > 0);
        assert(left_start =~= left);
    } else {
        assert(left_start =~= left);
        assert(right_start =~= right);
    }
}

/// Lists of digests are aligned.
pub proof fn law_digests_are_aligned(left: Seq<Seq<char>>, right: Seq<Seq<char>>)
    requires
        forall|i: int| 0 <= i < left.len() ==> crate::util::hash::is_digest(#[trigger] left[i]),
        forall|i: int| 0 <= i < right.len() ==> crate::util::hash::is_digest(#[trigger] right[i]),
    ensures
        are_aligned(left, right),
{
    assert forall|i: int| #![trigger left[i]] 0 <= i < left.len() implies if i < right.len() {
        vstd::utf8::encode_utf8(left[i]).len() == vstd::utf8::encode_utf8(right[i]).len()
    } else {
        vstd::utf8::encode_utf8(left[i]).len() > 0
    } by {
        crate::util::hash::lemma_digest_bytes(left[i]);
        if i < right.len() {
            crate::util::hash::lemma_digest_bytes(right[i]);
        }
    }
    assert forall|i: int| #![trigger right[i]] left.len() <= i
        < right.len() implies vstd::utf8::encode_utf8(right[i]).len() > 0 by {
        crate::util::hash::lemma_digest_bytes(right[i]);
    }
}

/// The first position of a hash is one where it stands, and it stands nowhere before.
pub proof fn law_first_position_is_the_first(hashes: Seq<Seq<char>>, hash: Seq<char>)
    requires
        hashes.contains(hash),
    ensures
        0 <= first_position(hashes, hash) < hashes.len(),
        hashes[first_position(hashes, hash)] == hash,
        forall|i: int| 0 <= i < first_position(hashes, hash) ==> #[trigger] hashes[i] != hash,
    decreases hashes.len(),
{
    lemma_first_position(hashes, hash);
    if hashes[0] != hash {
        let rest = hashes.drop_first();
        let k = choose|k: int| 0 <= k < hashes.len() && hashes[k] == hash;
        assert(rest[k - 1] == hash);
        law_first_position_is_the_first(rest, hash);
        assert forall|i: int| 0 <= i < first_position(hashes, hash) implies #[trigger] hashes[i]
            != hash by {
            if i > 0 {
                assert(rest[i - 1] == hashes[i]);
            }
        }
    }
}

/// The views of hashes are those of the hashes, one for one.
pub proof fn law_hash_views_are_one_for_one(hashes: Seq<String>, i: int)
    ensures
        hash_views(hashes).len() == hashes.len(),
        0 <= i < hashes.len() ==> hash_views(hashes)[i] == hashes[i]@,
{
}

/// Every node reaches itself, and what it reaches it reaches along one more edge.
pub proof fn law_reaching_goes_along_edges(
    successors: Seq<Seq<usize>>,
    start: usize,
    node: usize,
    edge: int,
)
    requires
        0 <= edge < successors[node as int].len(),
    ensures
        reaches(successors, start, start),
        reaches(successors, start, node) ==> reaches(
            successors,
            start,
            successors[node as int][edge],
        ),
{
    assert(is_way(successors, seq![start]));
    assert(seq![start].last() == start);
    if reaches(successors, start, node) {
        assert(successors[node as int].contains(successors[node as int][edge]));
        lemma_reaches_next(successors, start, node, successors[node as int][edge]);
    }
}

/// What is reached is the start, or is reached along an edge from something else that is.
pub proof fn law_nothing_else_is_reached(
    successors: Seq<Seq<usize>>,
    start: usize,
    closed: Set<usize>,
    node: usize,
)
    requires
        closed.contains(start),
        forall|from: usize, to: usize|
            closed.contains(from) && #[trigger] successors[from as int].contains(to)
                ==> closed.contains(to),
        reaches(successors, start, node),
    ensures
        closed.contains(node),
{
    let way = choose|way: Seq<usize>| #[trigger]
        is_way(successors, way) && way.len() > 0 && way[0] == start && way.last() == node;
    lemma_way_is_within(successors, closed, way, way.len() - 1);
}

/// A way from within a set that no edge leads out of stays within it.
proof fn lemma_way_is_within(
    successors: Seq<Seq<usize>>,
    closed: Set<usize>,
    way: Seq<usize>,
    at: int,
)
    requires
        is_way(successors, way),
        0 <= at < way.len(),
        closed.contains(way[0]),
        forall|from: usize, to: usize|
            closed.contains(from) && #[trigger] successors[from as int].contains(to)
                ==> closed.contains(to),
    ensures
        closed.contains(way[at]),
    decreases at,
{
    if at > 0 {
        lemma_way_is_within(successors, closed, way, at - 1);
        assert(successors[way[at - 1] as int].contains(way[at - 1 + 1]));
    }
}

/// The hashes that a build is told by are those of the root and of every package that it reaches,
/// one for each package, and no other: none is left out, however many there are.
pub proof fn law_every_reached_package_counts(graph: SourceSolve, root: Seq<char>)
    requires
        is_graph(graph),
        graph_hashes(graph).contains(root),
    ensures
        ({
            let hashes = build_hashes(graph, root);
            let order = build_order(graph, root);
            let successors = graph_successors(graph);
            let start = position_of(graph, root);
            &&& start == first_position(graph_hashes(graph), root)
            &&& hashes.len() == order.len()
            &&& forall|i: int|
                0 <= i < order.len() ==> order[i] < graph_hashes(graph).len() && hashes[i]
                    == graph_hashes(graph)[#[trigger] order[i] as int]
            &&& forall|i: int, j: int|
                0 <= i < j < order.len() ==> #[trigger] order[i] != #[trigger] order[j]
            &&& order.len() > 0 && order[0] == start
            &&& forall|node: usize| #[trigger]
                reaches(successors, start, node) <==> order.contains(node)
            &&& forall|node: usize| #[trigger]
                reaches(successors, start, node) ==> hashes.contains(
                    graph_hashes(graph)[node as int],
                )
        }),
{
    let hashes = build_hashes(graph, root);
    let order = build_order(graph, root);
    let successors = graph_successors(graph);
    let start = position_of(graph, root);
    lemma_first_position(graph_hashes(graph), root);
    law_search_finds_what_is_reached(successors, start);
    lemma_found(successors, start, successors.len());
    assert forall|node: usize| #[trigger] reaches(successors, start, node) implies hashes.contains(
        graph_hashes(graph)[node as int],
    ) && order.contains(node) by {
        assert(order.contains(node));
        let k = choose|k: int| 0 <= k < order.len() && order[k] == node;
        assert(hashes[k] == graph_hashes(graph)[node as int]);
    }
    assert forall|node: usize| order.contains(node) implies #[trigger] reaches(
        successors,
        start,
        node,
    ) by {
        assert(order.contains(node));
    }
}

/// The bytes of texts are those of each text, one behind the other, and nothing else.
pub proof fn law_bytes_are_those_of_each_text(
    left: Seq<Seq<char>>,
    right: Seq<Seq<char>>,
    text: Seq<char>,
)
    ensures
        bytes_of_all(left + right) == bytes_of_all(left) + bytes_of_all(right),
        bytes_of_all(seq![text]) == vstd::utf8::encode_utf8(text),
        bytes_of_all(Seq::empty()) == Seq::<u8>::empty(),
    decreases right.len(),
{
    let none = Seq::<Seq<char>>::empty();
    assert(bytes_of_all(none) =~= Seq::<u8>::empty());
    assert(seq![text].drop_last() =~= none);
    assert(bytes_of_all(seq![text]) =~= vstd::utf8::encode_utf8(text));
    if right.len() == 0 {
        assert(left + right =~= left);
        assert(right =~= none);
        assert(bytes_of_all(left) + bytes_of_all(none) =~= bytes_of_all(left));
    } else {
        let shorter = right.drop_last();
        law_bytes_are_those_of_each_text(left, shorter, text);
        assert((left + right).drop_last() =~= left + shorter);
        assert((left + right).last() == right.last());
        assert(bytes_of_all(left + right) =~= bytes_of_all(left) + bytes_of_all(right));
    }
}

/// The hashes at some positions are those that stand there, one for each position.
pub proof fn law_hashes_are_taken_by_position(hashes: Seq<Seq<char>>, order: Seq<usize>, i: int)
    ensures
        hashes_in_order(hashes, order).len() == order.len(),
        0 <= i < order.len() ==> hashes_in_order(hashes, order)[i] == hashes[order[i] as int],
{
}

} // verus!
