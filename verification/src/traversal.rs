//! The walk over a directory tree as a worklist.
//!
//! The traversal keeps the paths that are still to be visited, the next one
//! first, and the records found so far. Its caller does the outside work:
//! it asks which path is next, lists that directory or reads that file, and
//! hands the listing or the lines back. A directory's entries take the
//! directory's place at the front, so each entry is searched to its end
//! before the next one begins.

use vstd::prelude::*;
use crate::scanner::{matches_in, lines_view, records, GrepArgs, MatchInfo, MatchView};

verus! {

/// One entry of a directory listing: its path, and whether it is a
/// directory.
#[derive(Clone, Debug, PartialEq, Eq)]
pub struct Entry {
    pub path: String,
    pub is_dir: bool,
}

/// An `Entry` as a mathematical value.
pub struct EntryView {
    pub path: Seq<char>,
    pub is_dir: bool,
}

impl View for Entry {
    type V = EntryView;

    open spec fn view(&self) -> EntryView {
        EntryView { path: self.path@, is_dir: self.is_dir }
    }
}

/// The entries of a listing, in order.
pub open spec fn entry_views(entries: Seq<Entry>) -> Seq<EntryView> {
    entries.map_values(|entry: Entry| entry@)
}

/// A path that is still to be visited, with the pattern to search it for.
#[derive(Clone, Debug, PartialEq, Eq)]
pub struct Task {
    pub args: GrepArgs,
    pub is_dir: bool,
}

/// A `Task` as a mathematical value.
pub struct TaskView {
    pub pattern: Seq<char>,
    pub path: Seq<char>,
    pub is_dir: bool,
}

impl View for Task {
    type V = TaskView;

    open spec fn view(&self) -> TaskView {
        TaskView { pattern: self.args.pattern@, path: self.args.path@, is_dir: self.is_dir }
    }
}

/// The outside work that the traversal waits for.
#[derive(Clone, Debug, PartialEq, Eq)]
pub enum Action {
    /// List the directory at this path and hand the entries to `process_dir`.
    ListDir(String),
    /// Read the file at this path and hand the lines to `process_file`.
    ReadFile(String),
    /// Nothing is left to visit.
    Finished,
}

/// A traversal as a mathematical value.
pub struct TraversalView {
    /// The tasks still to be done, the next one first.
    pub queue: Seq<TaskView>,
    /// The records found so far.
    pub records: Seq<MatchView>,
}

/// The tasks for the entries of a listing: each entry's path with the
/// pattern of the directory's own task.
pub open spec fn tasks_of(entries: Seq<EntryView>, pattern: Seq<char>) -> Seq<TaskView> {
    entries.map_values(
        |entry: EntryView| TaskView { pattern: pattern, path: entry.path, is_dir: entry.is_dir },
    )
}

/// The traversal after the directory at the front of its queue was listed:
/// the entries stand in its place, in the order of the listing.
pub open spec fn after_listing(state: TraversalView, entries: Seq<EntryView>) -> TraversalView {
    TraversalView {
        queue: tasks_of(entries, state.queue[0].pattern) + state.queue.drop_first(),
        records: state.records,
    }
}

/// The traversal after the file at the front of its queue was read: its
/// records are appended, and the file has left the queue.
pub open spec fn after_reading(state: TraversalView, lines: Seq<Option<Seq<char>>>) -> TraversalView {
    TraversalView {
        queue: state.queue.drop_first(),
        records: state.records + matches_in(state.queue[0].path, lines, state.queue[0].pattern),
    }
}

/// The front of the queue is a directory.
pub open spec fn awaits_listing(state: TraversalView) -> bool {
    state.queue.len() > 0 && state.queue[0].is_dir
}

/// The front of the queue is a file.
pub open spec fn awaits_lines(state: TraversalView) -> bool {
    state.queue.len() > 0 && !state.queue[0].is_dir
}

/// The queue that a stack of tasks stands for: the last task pushed is the
/// first in the queue.
pub open spec fn queue_of(stack: Seq<Task>) -> Seq<TaskView> {
    Seq::new(stack.len(), |i: int| stack[stack.len() - 1 - i]@)
}

/// The state of a search: what is left to visit, and what was found.
#[derive(Clone, Debug)]
pub struct Traversal {
    pending: Vec<Task>,
    results: Vec<MatchInfo>,
}

impl View for Traversal {
    type V = TraversalView;

    closed spec fn view(&self) -> TraversalView {
        TraversalView { queue: queue_of(self.pending@), records: records(self.results@) }
    }
}

impl Traversal {
    /// A traversal that starts at `args.path`, which is a directory where
    /// `is_dir` says so and a file otherwise. Nothing is found yet.
    pub fn new(args: GrepArgs, is_dir: bool) -> (traversal: Traversal)
        ensures
            traversal@.queue == seq![
                TaskView { pattern: args.pattern@, path: args.path@, is_dir: is_dir },
            ],
            traversal@.records == Seq::<MatchView>::empty(),
    {
        let mut pending: Vec<Task> = Vec::new();
        pending.push(Task { args: args, is_dir: is_dir });
        let traversal = Traversal { pending: pending, results: Vec::new() };
        assert(traversal@.queue =~= seq![
            TaskView { pattern: args.pattern@, path: args.path@, is_dir: is_dir },
        ]);
        assert(traversal@.records =~= Seq::<MatchView>::empty());
        traversal
    }

    /// What the caller is to do next: list the directory or read the file at
    /// the front of the queue, or stop when the queue is empty.
    pub fn next_action(&self) -> (action: Action)
        ensures
            match action {
                Action::ListDir(path) => awaits_listing(self@) && path@ == self@.queue[0].path,
                Action::ReadFile(path) => awaits_lines(self@) && path@ == self@.queue[0].path,
                Action::Finished => self@.queue.len() == 0,
            },
    {
        let n = self.pending.len();
        if n == 0 {
            return Action::Finished;
        }
        let task = &self.pending[n - 1];
        if task.is_dir {
            Action::ListDir(task.args.path.clone())
        } else {
            Action::ReadFile(task.args.path.clone())
        }
    }

    /// Takes the listing of the directory at the front of the queue: the
    /// entries take the directory's place, each with the directory's
    /// pattern. Where the front of the queue is no directory the listing is
    /// refused and nothing changes.
    pub fn process_dir(&mut self, entries: Vec<Entry>) -> (accepted: bool)
        ensures
            accepted == awaits_listing(old(self)@),
            accepted ==> final(self)@ == after_listing(old(self)@, entry_views(entries@)),
            !accepted ==> final(self)@ == old(self)@,
    {
        let n = self.pending.len();
        if n == 0 || !self.pending[n - 1].is_dir {
            return false;
        }
        let ghost listing = entry_views(entries@);
        let ghost before = queue_of(self.pending@);
        let dir = self.pending.pop().unwrap();
        let ghost rest = queue_of(self.pending@);
        assert(rest =~= before.drop_first());
        assert(dir@ == before[0]);
        let mut entries = entries;
        assert(listing.skip(entries@.len() as int) =~= Seq::<EntryView>::empty());
        assert(queue_of(self.pending@) =~= tasks_of(
            listing.skip(entries@.len() as int),
            dir.args.pattern@,
        ) + rest);
        while entries.len() > 0
            invariant
                entry_views(entries@) == listing.take(entries@.len() as int),
                entries@.len() <= listing.len(),
                self.results == old(self).results,
                queue_of(self.pending@) == tasks_of(
                    listing.skip(entries@.len() as int),
                    dir.args.pattern@,
                ) + rest,
            decreases entries.len(),
        {
            let ghost k = entries@.len() - 1;
            let ghost stack = self.pending@;
            let ghost shown = entry_views(entries@);
            let entry = entries.pop().unwrap();
            assert(entry@ == shown[k]);
            let task = Task {
                args: GrepArgs { pattern: dir.args.pattern.clone(), path: entry.path },
                is_dir: entry.is_dir,
            };
            self.pending.push(task);
            proof {
                assert(entry_views(entries@) =~= listing.take(k));
                assert(queue_of(self.pending@) =~= seq![task@] + queue_of(stack));
                assert(listing.skip(k) =~= seq![listing[k]] + listing.skip(k + 1));
                assert(tasks_of(listing.skip(k), dir.args.pattern@) =~= seq![task@] + tasks_of(
                    listing.skip(k + 1),
                    dir.args.pattern@,
                ));
                assert(queue_of(self.pending@) =~= tasks_of(listing.skip(k), dir.args.pattern@)
                    + rest);
            }
        }
        assert(listing.skip(0) =~= listing);
        true
    }

    /// Takes the lines of the file at the front of the queue: one record is
    /// appended for each line that holds the pattern, and the file leaves the
    /// queue. Where the front of the queue is no file the lines are refused
    /// and nothing changes.
    pub fn process_file(&mut self, lines: &Vec<Option<String>>) -> (accepted: bool)
        ensures
            accepted == awaits_lines(old(self)@),
            accepted ==> final(self)@ == after_reading(old(self)@, lines_view(lines@)),
            !accepted ==> final(self)@ == old(self)@,
    {
        let n = self.pending.len();
        if n == 0 || self.pending[n - 1].is_dir {
            return false;
        }
        let ghost before = queue_of(self.pending@);
        let file = self.pending.pop().unwrap();
        assert(queue_of(self.pending@) =~= before.drop_first());
        assert(file@ == before[0]);
        crate::scanner::process_file(&file.args, lines, &mut self.results);
        true
    }

    /// Nothing is left to visit.
    pub fn is_finished(&self) -> (finished: bool)
        ensures
            finished == (self@.queue.len() == 0),
    {
        self.pending.len() == 0
    }

    /// The records found so far, in the order in which they were found.
    pub fn results(&self) -> (found: &Vec<MatchInfo>)
        ensures
            records(found@) == self@.records,
    {
        &self.results
    }

    /// Ends the traversal and hands out its records.
    pub fn into_results(self) -> (found: Vec<MatchInfo>)
        ensures
            records(found@) == self@.records,
    {
        self.results
    }
}

} // verus!
