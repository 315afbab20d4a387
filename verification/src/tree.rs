//! A directory tree as a mathematical value, and what a search of it yields.

use vstd::prelude::*;
use crate::scanner::{
    count_for, is_hit, lemma_count_for_concat, lemma_one_record_per_matching_line, matches_in,
    MatchView,
};
use crate::traversal::{after_listing, after_reading, tasks_of, EntryView, TaskView, TraversalView};

verus! {

/// A file with the lines read from it, or a directory with its entries in
/// the order in which the listing gave them.
pub enum Node {
    File { path: Seq<char>, lines: Seq<Option<Seq<char>>> },
    Dir { path: Seq<char>, entries: Seq<Node> },
}

/// The records of a search from `node` on: those of a file are the records
/// of its lines; those of a directory are the records of its entries, one
/// entry after the other, each searched to its end before the next begins.
pub open spec fn search(node: Node, pat: Seq<char>) -> Seq<MatchView>
    decreases node,
{
    match node {
        Node::File { path, lines } => matches_in(path, lines, pat),
        Node::Dir { path, entries } => search_all(entries, pat),
    }
}

/// The records of the nodes of a sequence, one node after the other.
pub open spec fn search_all(nodes: Seq<Node>, pat: Seq<char>) -> Seq<MatchView>
    decreases nodes,
{
    if nodes.len() == 0 {
        Seq::<MatchView>::empty()
    } else {
        search(nodes[0], pat) + search_all(nodes.drop_first(), pat)
    }
}

/// Searching two sequences of nodes one after the other is searching the
/// one sequence that they make together.
pub proof fn lemma_search_all_concat(front: Seq<Node>, back: Seq<Node>, pat: Seq<char>)
    ensures
        search_all(front + back, pat) == search_all(front, pat) + search_all(back, pat),
    decreases front.len(),
{
    if front.len() == 0 {
        assert(front + back =~= back);
        assert(search_all(front, pat) + search_all(back, pat) =~= search_all(back, pat));
    } else {
        let both = front + back;
        assert(both[0] == front[0]);
        assert(both.drop_first() =~= front.drop_first() + back);
        lemma_search_all_concat(front.drop_first(), back, pat);
        assert(search(front[0], pat) + (search_all(front.drop_first(), pat) + search_all(
            back,
            pat,
        )) =~= search_all(front, pat) + search_all(back, pat));
    }
}

/// The path of a node.
pub open spec fn path_of(node: Node) -> Seq<char> {
    match node {
        Node::File { path, lines } => path,
        Node::Dir { path, entries } => path,
    }
}

/// The entry that a listing shows for a node.
pub open spec fn entry_of(node: Node) -> EntryView {
    EntryView { path: path_of(node), is_dir: node is Dir }
}

/// The listing of a directory with these entries.
pub open spec fn listing_of(entries: Seq<Node>) -> Seq<EntryView> {
    entries.map_values(|node: Node| entry_of(node))
}

/// The queue holds one task for each node of `forest`, in order: the node's
/// path, its kind, and the pattern `pat`.
pub open spec fn agrees(queue: Seq<TaskView>, forest: Seq<Node>, pat: Seq<char>) -> bool {
    queue == tasks_of(listing_of(forest), pat)
}

/// The number of files and directories in a sequence of nodes, those below
/// them included.
pub open spec fn weight_all(nodes: Seq<Node>) -> nat
    decreases nodes,
{
    if nodes.len() == 0 {
        0
    } else {
        weight(nodes[0]) + weight_all(nodes.drop_first())
    }
}

/// The number of files and directories in a tree.
pub open spec fn weight(node: Node) -> nat
    decreases node,
{
    match node {
        Node::File { path, lines } => 1,
        Node::Dir { path, entries } => 1 + weight_all(entries),
    }
}

/// Visiting the first node of a forest leaves less to visit: a file leaves
/// the rest of the forest, a directory its entries and the rest.
proof fn lemma_weight_all_step(forest: Seq<Node>)
    requires
        forest.len() > 0,
    ensures
        weight_all(forest) == weight(forest[0]) + weight_all(forest.drop_first()),
        forest[0] is File ==> weight(forest[0]) == 1,
        forest[0] is Dir ==> weight(forest[0]) == 1 + weight_all(forest[0]->entries),
{
}

/// The weight of two sequences of nodes together is the sum of their
/// weights.
proof fn lemma_weight_all_concat(front: Seq<Node>, back: Seq<Node>)
    ensures
        weight_all(front + back) == weight_all(front) + weight_all(back),
    decreases front.len(),
{
    if front.len() == 0 {
        assert(front + back =~= back);
    } else {
        let both = front + back;
        assert(both[0] == front[0]);
        assert(both.drop_first() =~= front.drop_first() + back);
        lemma_weight_all_concat(front.drop_first(), back);
    }
}

/// The traversal at its end, when the outside world is `forest`: each time
/// the front of the queue is visited, the listing or the lines of the first
/// node of the forest are handed in, until no node is left.
pub open spec fn run(state: TraversalView, forest: Seq<Node>) -> TraversalView
    decreases weight_all(forest),
    via run_decreases
{
    if forest.len() == 0 {
        state
    } else {
        match forest[0] {
            Node::File { path, lines } => run(after_reading(state, lines), forest.drop_first()),
            Node::Dir { path, entries } => run(
                after_listing(state, listing_of(entries)),
                entries + forest.drop_first(),
            ),
        }
    }
}

/// Each step of `run` leaves a forest of smaller weight.
#[via_fn]
proof fn run_decreases(state: TraversalView, forest: Seq<Node>) {
    if forest.len() > 0 {
        lemma_weight_all_step(forest);
        match forest[0] {
            Node::File { path, lines } => {},
            Node::Dir { path, entries } => {
                lemma_weight_all_concat(entries, forest.drop_first());
            },
        }
    }
}

/// A traversal whose queue stands for `forest` ends with an empty queue and
/// with the records it had, followed by those of a search of each node of
/// the forest in turn.
pub proof fn lemma_run_finds_search(state: TraversalView, forest: Seq<Node>, pat: Seq<char>)
    requires
        agrees(state.queue, forest, pat),
    ensures
        run(state, forest).queue.len() == 0,
        run(state, forest).records == state.records + search_all(forest, pat),
    decreases weight_all(forest),
{
    if forest.len() == 0 {
        assert(state.records + search_all(forest, pat) =~= state.records);
    } else {
        let rest = forest.drop_first();
        lemma_weight_all_step(forest);
        assert(search_all(forest, pat) == search(forest[0], pat) + search_all(rest, pat));
        assert(state.queue[0] == tasks_of(listing_of(forest), pat)[0]);
        assert(state.queue.drop_first() =~= tasks_of(listing_of(rest), pat));
        match forest[0] {
            Node::File { path, lines } => {
                let next = after_reading(state, lines);
                lemma_run_finds_search(next, rest, pat);
                assert(search(forest[0], pat) == matches_in(path, lines, pat));
                assert((state.records + matches_in(path, lines, pat)) + search_all(rest, pat)
                    =~= state.records + search_all(forest, pat));
            },
            Node::Dir { path, entries } => {
                let next = after_listing(state, listing_of(entries));
                lemma_weight_all_concat(entries, rest);
                assert(next.queue =~= tasks_of(listing_of(entries + rest), pat));
                lemma_run_finds_search(next, entries + rest, pat);
                lemma_search_all_concat(entries, rest, pat);
                assert(search(forest[0], pat) == search_all(entries, pat));
                assert(state.records + (search_all(entries, pat) + search_all(rest, pat))
                    =~= state.records + search_all(forest, pat));
            },
        }
    }
}

/// A traversal that starts at the root of a tree with nothing found ends
/// with the records of a search of that tree.
pub proof fn lemma_traversal_of_tree(state: TraversalView, root: Node, pat: Seq<char>)
    requires
        state.queue == seq![
            TaskView { pattern: pat, path: path_of(root), is_dir: root is Dir },
        ],
        state.records == Seq::<MatchView>::empty(),
    ensures
        run(state, seq![root]).queue.len() == 0,
        run(state, seq![root]).records == search(root, pat),
{
    let forest = seq![root];
    assert(state.queue =~= tasks_of(listing_of(forest), pat));
    lemma_run_finds_search(state, forest, pat);
    assert(forest.drop_first() =~= Seq::<Node>::empty());
    assert(search_all(forest.drop_first(), pat) =~= Seq::<MatchView>::empty());
    assert(search_all(forest, pat) == search(forest[0], pat) + search_all(
        forest.drop_first(),
        pat,
    ));
    assert(search_all(forest, pat) =~= search(root, pat));
    assert(state.records + search(root, pat) =~= search(root, pat));
}

/// Two traversals of the same tree for the same pattern, each started with
/// nothing found, end with the same records in the same order.
pub proof fn lemma_search_is_repeatable(
    first: TraversalView,
    second: TraversalView,
    root: Node,
    pat: Seq<char>,
)
    requires
        first.queue == seq![TaskView { pattern: pat, path: path_of(root), is_dir: root is Dir }],
        second.queue == first.queue,
        first.records == Seq::<MatchView>::empty(),
        second.records == Seq::<MatchView>::empty(),
    ensures
        run(first, seq![root]).records == run(second, seq![root]).records,
{
    lemma_traversal_of_tree(first, root, pat);
    lemma_traversal_of_tree(second, root, pat);
}

/// How many files of the tree have the path `path` and hold the pattern in
/// their line `number`. In a tree where no two files share a path this is 1
/// or 0.
pub open spec fn hits(node: Node, path: Seq<char>, number: nat, pat: Seq<char>) -> nat
    decreases node,
{
    match node {
        Node::File { path: own, lines } => if own == path && number < lines.len() && is_hit(
            lines[number as int],
            pat,
        ) {
            1
        } else {
            0
        },
        Node::Dir { path: own, entries } => hits_all(entries, path, number, pat),
    }
}

/// The sum of `hits` over a sequence of nodes.
pub open spec fn hits_all(nodes: Seq<Node>, path: Seq<char>, number: nat, pat: Seq<char>) -> nat
    decreases nodes,
{
    if nodes.len() == 0 {
        0
    } else {
        hits(nodes[0], path, number, pat) + hits_all(nodes.drop_first(), path, number, pat)
    }
}

/// A search of a tree yields, for each file of the tree, exactly one record
/// for each line that was read and holds the pattern, and no other record.
pub proof fn lemma_search_counts_hits(node: Node, path: Seq<char>, number: nat, pat: Seq<char>)
    ensures
        count_for(search(node, pat), path, number) == hits(node, path, number, pat),
    decreases node,
{
    match node {
        Node::File { path: own, lines } => {
            lemma_one_record_per_matching_line(own, lines, pat, path, number);
        },
        Node::Dir { path: own, entries } => {
            lemma_search_all_counts_hits(entries, path, number, pat);
        },
    }
}

/// The same for a sequence of trees.
pub proof fn lemma_search_all_counts_hits(
    nodes: Seq<Node>,
    path: Seq<char>,
    number: nat,
    pat: Seq<char>,
)
    ensures
        count_for(search_all(nodes, pat), path, number) == hits_all(nodes, path, number, pat),
    decreases nodes,
{
    if nodes.len() > 0 {
        lemma_search_counts_hits(nodes[0], path, number, pat);
        lemma_search_all_counts_hits(nodes.drop_first(), path, number, pat);
        lemma_count_for_concat(
            search(nodes[0], pat),
            search_all(nodes.drop_first(), pat),
            path,
            number,
        );
    }
}

} // verus!
