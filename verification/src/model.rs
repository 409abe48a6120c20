//! The mathematical model of the stored state: the rows of the task table, the dependency
//! edges and the learnings, with what they mean for the hierarchy and for readiness.
use vstd::prelude::*;

use crate::id::TaskId;
use crate::order;
use crate::order::Rank;
use crate::time::Timestamp;
use crate::types::{
    BlockerRelation, CreateView, FilterView, LearningView, RowView, TaskView, UpdateView,
};

verus! {

/// The deepest level of the hierarchy: milestones are at depth 0, subtasks at depth 2.
pub const MAX_DEPTH: i32 = 2;

/// What is stored.
#[verifier::ext_equal]
pub struct Db {
    pub tasks: Seq<RowView>,
    pub blockers: Seq<BlockerRelation>,
    pub learnings: Seq<LearningView>,
}

impl Db {
    /// Nothing stored.
    pub open spec fn empty() -> Db {
        Db { tasks: Seq::empty(), blockers: Seq::empty(), learnings: Seq::empty() }
    }

    /// Whether there is a task with this identifier.
    pub open spec fn has(self, id: TaskId) -> bool {
        exists|i: int| 0 <= i < self.tasks.len() && (#[trigger] self.tasks[i]).id == id
    }

    /// The position of a task in the table.
    pub open spec fn pos(self, id: TaskId) -> int {
        choose|i: int| 0 <= i < self.tasks.len() && (#[trigger] self.tasks[i]).id == id
    }

    /// The row of a task.
    pub open spec fn row(self, id: TaskId) -> RowView {
        self.tasks[self.pos(id)]
    }

    /// The parent of a task.
    pub open spec fn parent(self, id: TaskId) -> Option<TaskId> {
        if self.has(id) {
            self.row(id).parent_id
        } else {
            None
        }
    }

    /// The task that is reached by going up `k` levels from a task.
    pub open spec fn up(self, id: TaskId, k: nat) -> Option<TaskId>
        decreases k,
    {
        if k == 0 {
            Some(id)
        } else {
            match self.up(id, (k - 1) as nat) {
                Some(p) => self.parent(p),
                None => None,
            }
        }
    }

    /// Whether `a` stands above `t` in the hierarchy.
    pub open spec fn ancestor(self, a: TaskId, t: TaskId) -> bool {
        exists|k: nat| k >= 1 && #[trigger] self.up(t, k) == Some(a)
    }

    /// Whether `t` is `root` or stands below it.
    pub open spec fn in_subtree(self, root: TaskId, t: TaskId) -> bool {
        t == root || self.ancestor(root, t)
    }

    /// How many levels a task stands below its milestone.
    pub open spec fn depth(self, id: TaskId) -> int {
        if self.up(id, 1) is None {
            0
        } else if self.up(id, 2) is None {
            1
        } else {
            2
        }
    }

    /// No two tasks share an identifier.
    pub open spec fn unique_ids(self) -> bool {
        forall|i: int, j: int|
            0 <= i < j < self.tasks.len() ==> (#[trigger] self.tasks[i]).id != (
            #[trigger] self.tasks[j]).id
    }

    /// Every parent is a stored task.
    pub open spec fn parents_exist(self) -> bool {
        forall|i: int|
            0 <= i < self.tasks.len() ==> match (#[trigger] self.tasks[i]).parent_id {
                Some(p) => self.has(p),
                None => true,
            }
    }

    /// No task is more than two levels below a milestone, so no task is its own ancestor.
    pub open spec fn shallow(self) -> bool {
        forall|i: int| 0 <= i < self.tasks.len() ==> self.up((#[trigger] self.tasks[i]).id, 3) is None
    }

    /// The edges join stored tasks, and none is stored twice.
    pub open spec fn edges_ok(self) -> bool {
        &&& self.blockers.no_duplicates()
        &&& forall|i: int|
            0 <= i < self.blockers.len() ==> self.has((#[trigger] self.blockers[i]).task_id)
                && self.has(self.blockers[i].blocker_id)
    }

    /// The learnings belong to stored tasks, and none is recorded twice.
    pub open spec fn learnings_ok(self) -> bool {
        &&& forall|i: int| 0 <= i < self.learnings.len() ==> self.has((#[trigger] self.learnings[i]).task_id)
        &&& forall|i: int, j: int|
            0 <= i < j < self.learnings.len() ==> !same_learning(
                #[trigger] self.learnings[i],
                #[trigger] self.learnings[j],
            )
    }

    /// The invariant of the stored state.
    pub open spec fn wf(self) -> bool {
        &&& self.unique_ids()
        &&& self.parents_exist()
        &&& self.shallow()
        &&& self.edges_ok()
        &&& self.learnings_ok()
    }

    /// The children of a task, in the order in which they were stored.
    pub open spec fn children(self, id: TaskId) -> Seq<TaskId> {
        row_ids(self.tasks.filter(|r: RowView| r.parent_id == Some(id)))
    }

    /// The rank of a task among its siblings: by priority, then by age.
    pub open spec fn rank(self, id: TaskId) -> Rank {
        row_rank(self.row(id), 0)
    }

    /// The children of a task, in the order in which they are taken up.
    pub open spec fn children_ordered(self, id: TaskId) -> Seq<TaskId> {
        order::ranked(self.children(id).map_values(|c: TaskId| self.rank(c)))
    }

    /// The milestones, in the order in which they were stored.
    pub open spec fn roots(self) -> Seq<TaskId> {
        row_ids(self.tasks.filter(|r: RowView| r.parent_id is None))
    }

    /// The milestones, in the order in which they are taken up.
    pub open spec fn roots_ordered(self) -> Seq<TaskId> {
        order::ranked(self.roots().map_values(|c: TaskId| self.rank(c)))
    }

    /// The tasks below a task, down to `levels` levels: its children, and then what is below each
    /// of them, the last child first.
    pub open spec fn below(self, id: TaskId, levels: nat) -> Seq<TaskId>
        decreases levels, 1nat, 0nat,
    {
        if levels == 0 {
            Seq::empty()
        } else {
            self.children(id) + self.below_all(self.children(id), (levels - 1) as nat)
        }
    }

    /// The tasks below each of these tasks, the last one first.
    pub open spec fn below_all(self, ids: Seq<TaskId>, levels: nat) -> Seq<TaskId>
        decreases levels, 2nat, ids.len(),
    {
        if ids.len() == 0 {
            Seq::empty()
        } else {
            self.below(ids.last(), levels) + self.below_all(ids.drop_last(), levels)
        }
    }

    /// All tasks below a task.
    pub open spec fn descendants(self, id: TaskId) -> Seq<TaskId> {
        self.below(id, 3)
    }

    /// The blockers of a task, in the order in which they were added.
    pub open spec fn blockers_of(self, id: TaskId) -> Seq<TaskId> {
        self.blockers.filter(|e: BlockerRelation| e.task_id == id).map_values(
            |e: BlockerRelation| e.blocker_id,
        )
    }

    /// The tasks that a task blocks, in the order in which the edges were added.
    pub open spec fn blocked_by(self, id: TaskId) -> Seq<TaskId> {
        self.blockers.filter(|e: BlockerRelation| e.blocker_id == id).map_values(
            |e: BlockerRelation| e.task_id,
        )
    }

    /// Whether a task, as a blocker, lets its dependents go. A task that is not stored does not.
    pub open spec fn satisfied(self, id: TaskId) -> bool {
        self.has(id) && self.row(id).satisfies()
    }

    /// Whether each of these blockers lets its dependents go.
    pub open spec fn all_satisfied(self, ids: Seq<TaskId>) -> bool {
        forall|i: int| 0 <= i < ids.len() ==> self.satisfied(#[trigger] ids[i])
    }

    /// Whether a task waits for a blocker of its own.
    pub open spec fn directly_blocked(self, id: TaskId) -> bool {
        !self.all_satisfied(self.blockers_of(id))
    }

    /// Whether a task or any task above it waits for a blocker.
    pub open spec fn effectively_blocked(self, id: TaskId) -> bool {
        self.chain_blocked(Some(id))
    }

    /// Whether a task, where there is one, or any task above it waits for a blocker.
    pub open spec fn chain_blocked(self, from: Option<TaskId>) -> bool {
        match from {
            Some(id) => exists|k: nat|
                (#[trigger] self.up(id, k)) is Some && self.directly_blocked(self.up(id, k)->0),
            None => false,
        }
    }

    /// Whether a task has a child that is neither completed nor cancelled.
    pub open spec fn has_pending_children(self, id: TaskId) -> bool {
        exists|i: int|
            0 <= i < self.tasks.len() && (#[trigger] self.tasks[i]).parent_id == Some(id)
                && !self.tasks[i].finished()
    }

    /// The learnings of a task, oldest first.
    pub open spec fn learnings_of(self, id: TaskId) -> Seq<LearningView> {
        self.learnings.filter(|l: LearningView| l.task_id == id)
    }

    /// A task with its edges and nothing else computed for it.
    pub open spec fn bare_task(self, id: TaskId) -> TaskView {
        TaskView {
            row: self.row(id),
            context_chain: None,
            learnings: None,
            depth: None,
            blocked_by: self.blockers_of(id),
            blocks: self.blocked_by(id),
            effectively_blocked: false,
        }
    }

    /// A task with its edges, its depth and whether it is effectively blocked.
    pub open spec fn task(self, id: TaskId) -> TaskView {
        TaskView {
            depth: Some(self.depth(id) as i32),
            effectively_blocked: self.effectively_blocked(id),
            ..self.bare_task(id)
        }
    }

    /// Whether a listing with this filter shows a task.
    pub open spec fn shown(self, f: FilterView, id: TaskId) -> bool {
        let r = self.row(id);
        &&& f.parent_id is Some ==> r.parent_id == f.parent_id
        &&& f.completed is Some ==> Some(r.completed) == f.completed
        &&& f.depth is Some ==> self.depth(id) == f.depth->0
        &&& f.archived is Some ==> Some(r.archived) == f.archived
        &&& f.repo_path is Some ==> r.repo_path == f.repo_path
        &&& f.ready ==> r.active() && !self.directly_blocked(id)
    }

    /// Every stored task with its rank, ties broken by age in the table.
    pub open spec fn all_ranks(self) -> Seq<Rank> {
        Seq::new(self.tasks.len(), |i: int| row_rank(self.tasks[i], i as u64))
    }

    /// The tasks that a listing shows, by priority and then by creation time.
    pub open spec fn listed(self, f: FilterView) -> Seq<TaskId> {
        order::ranked(self.all_ranks().filter(|r: Rank| self.shown(f, r.id)))
    }

    /// The state with the row of one task replaced.
    pub open spec fn with_row(self, id: TaskId, r: RowView) -> Db {
        Db { tasks: self.tasks.update(self.pos(id), r), ..self }
    }

    /// The state with the row of a task replaced where the task is stored.
    pub open spec fn set_row(self, id: TaskId, r: RowView) -> Db {
        if self.has(id) {
            self.with_row(id, r)
        } else {
            self
        }
    }

    /// A task is started.
    pub open spec fn starting(self, id: TaskId, now: Timestamp) -> Db {
        self.set_row(id, RowView { started_at: Some(now), updated_at: now, ..self.row(id) })
    }

    /// A task is completed, with a result and a commit.
    pub open spec fn completing(
        self,
        id: TaskId,
        result: Option<Seq<char>>,
        sha: Option<Seq<char>>,
        now: Timestamp,
    ) -> Db {
        self.set_row(
            id,
            RowView {
                completed: true,
                completed_at: Some(now),
                result,
                commit_sha: sha,
                updated_at: now,
                ..self.row(id)
            },
        )
    }

    /// A completed task is taken up again. Its result stays.
    pub open spec fn reopening(self, id: TaskId, now: Timestamp) -> Db {
        self.set_row(
            id,
            RowView { completed: false, completed_at: None, updated_at: now, ..self.row(id) },
        )
    }

    /// A task is cancelled.
    pub open spec fn cancelling(self, id: TaskId, now: Timestamp) -> Db {
        self.set_row(
            id,
            RowView { cancelled: true, cancelled_at: Some(now), updated_at: now, ..self.row(id) },
        )
    }

    /// A task is archived.
    pub open spec fn archiving(self, id: TaskId, now: Timestamp) -> Db {
        self.set_row(id, archived_row(self.row(id), now))
    }

    /// The bookmark of a task is recorded.
    pub open spec fn with_bookmark(self, id: TaskId, bookmark: Option<Seq<char>>, now: Timestamp) -> Db {
        self.set_row(id, RowView { bookmark, updated_at: now, ..self.row(id) })
    }

    /// The commit at which a task was started is recorded.
    pub open spec fn with_start_commit(self, id: TaskId, sha: Seq<char>, now: Timestamp) -> Db {
        self.set_row(id, RowView { start_commit: Some(sha), updated_at: now, ..self.row(id) })
    }

    /// The branch that a task was started from is recorded.
    pub open spec fn with_base_ref(self, id: TaskId, base: Seq<char>, now: Timestamp) -> Db {
        self.set_row(id, RowView { base_ref: Some(base), updated_at: now, ..self.row(id) })
    }

    /// The fields that an update names are set; the rest stays.
    pub open spec fn updating(self, id: TaskId, u: UpdateView, now: Timestamp) -> Db {
        self.set_row(id, updated_row(self.row(id), u, now))
    }

    /// The row of a new task.
    pub open spec fn new_row(c: CreateView, id: TaskId, now: Timestamp) -> RowView {
        RowView {
            id,
            parent_id: c.parent_id,
            description: c.description,
            context: match c.context {
                Some(t) => t,
                None => Seq::empty(),
            },
            result: None,
            priority: match c.priority {
                Some(p) => p,
                None => 1,
            },
            completed: false,
            completed_at: None,
            created_at: now,
            updated_at: now,
            started_at: None,
            commit_sha: None,
            bookmark: None,
            start_commit: None,
            base_ref: None,
            repo_path: c.repo_path,
            cancelled: false,
            cancelled_at: None,
            archived: false,
            archived_at: None,
        }
    }

    /// A new task is stored, blocked by the first `n` of its blockers.
    pub open spec fn creating(self, c: CreateView, id: TaskId, now: Timestamp, n: int) -> Db {
        Db {
            tasks: self.tasks.push(Db::new_row(c, id, now)),
            blockers: self.blockers + edges_to(id, c.blocked_by.take(n)),
            learnings: self.learnings,
        }
    }

    /// An edge is added where it is not stored yet.
    pub open spec fn with_blocker(self, e: BlockerRelation) -> Db {
        if self.blockers.contains(e) {
            self
        } else {
            Db { blockers: self.blockers.push(e), ..self }
        }
    }

    /// An edge is removed.
    pub open spec fn without_blocker(self, e: BlockerRelation) -> Db {
        Db { blockers: self.blockers.filter(other_than(e)), ..self }
    }

    /// A task and everything below it is removed, with the learnings and the edges of these tasks.
    pub open spec fn deleting(self, id: TaskId) -> Db {
        Db {
            tasks: self.tasks.filter(|r: RowView| !self.in_subtree(id, r.id)),
            blockers: self.blockers.filter(
                |e: BlockerRelation|
                    !self.in_subtree(id, e.task_id) && !self.in_subtree(id, e.blocker_id),
            ),
            learnings: self.learnings.filter(|l: LearningView| !self.in_subtree(id, l.task_id)),
        }
    }
}

/// Whether two learnings record the same thing: the same text, for the same task, from the same
/// source.
pub open spec fn same_learning(a: LearningView, b: LearningView) -> bool {
    a.task_id == b.task_id && a.source_task_id == b.source_task_id && a.content == b.content
}

/// The edges from a task to these blockers.
pub open spec fn edges_to(id: TaskId, blockers: Seq<TaskId>) -> Seq<BlockerRelation> {
    blockers.map_values(|b: TaskId| BlockerRelation { task_id: id, blocker_id: b })
}

/// Whether the element at a position has occurred before.
pub open spec fn repeats(s: Seq<TaskId>, j: int) -> bool {
    exists|i: int| 0 <= i < j && s[i] == s[j]
}

/// The position of the first element that has occurred before, or the length where there is none.
pub open spec fn first_repeat(s: Seq<TaskId>, from: int) -> int
    decreases s.len() - from,
{
    if from >= s.len() {
        s.len() as int
    } else if repeats(s, from) {
        from
    } else {
        first_repeat(s, from + 1)
    }
}

/// Whether a new task cannot get the blocker at a position: it has occurred before, or it is neither
/// stored nor the task itself.
pub open spec fn refused(d: Db, id: TaskId, s: Seq<TaskId>, j: int) -> bool {
    repeats(s, j) || !(d.has(s[j]) || s[j] == id)
}

/// The position of the first blocker that a new task cannot get, or the length where it gets all.
pub open spec fn first_refused(d: Db, id: TaskId, s: Seq<TaskId>, from: int) -> int
    decreases s.len() - from,
{
    if from >= s.len() {
        s.len() as int
    } else if refused(d, id, s, from) {
        from
    } else {
        first_refused(d, id, s, from + 1)
    }
}

/// Among stored tasks only a repeated blocker is refused.
pub proof fn lemma_first_refused(d: Db, id: TaskId, s: Seq<TaskId>, from: int)
    requires
        0 <= from <= s.len(),
        forall|i: int| 0 <= i < s.len() ==> d.has(#[trigger] s[i]),
    ensures
        first_refused(d, id, s, from) == first_repeat(s, from),
        first_repeat(s, from) < s.len() ==> repeats(s, first_repeat(s, from)),
    decreases s.len() - from,
{
    if from < s.len() {
        lemma_first_refused(d, id, s, from + 1);
    }
}

/// The edges that are not this one.
pub open spec fn other_than(e: BlockerRelation) -> spec_fn(BlockerRelation) -> bool {
    |x: BlockerRelation| x != e
}

/// A row marked as archived.
pub open spec fn archived_row(r: RowView, now: Timestamp) -> RowView {
    RowView { archived: true, archived_at: Some(now), updated_at: now, ..r }
}

/// A row with the fields of an update set.
pub open spec fn updated_row(r: RowView, u: UpdateView, now: Timestamp) -> RowView {
    RowView {
        description: match u.description {
            Some(t) => t,
            None => r.description,
        },
        context: match u.context {
            Some(t) => t,
            None => r.context,
        },
        priority: match u.priority {
            Some(p) => p,
            None => r.priority,
        },
        parent_id: if u.parent_id is Some {
            u.parent_id
        } else {
            r.parent_id
        },
        repo_path: if u.repo_path is Some {
            u.repo_path
        } else if u.clear_repo_path {
            None
        } else {
            r.repo_path
        },
        updated_at: now,
        ..r
    }
}

/// The rank of a row with the given tie breaker.
pub open spec fn row_rank(r: RowView, tie: u64) -> Rank {
    Rank {
        completed: false,
        depth: 0,
        priority: r.priority,
        created_at: r.created_at,
        tie,
        id: r.id,
    }
}

/// The identifiers of a sequence of rows.
pub open spec fn row_ids(s: Seq<RowView>) -> Seq<TaskId> {
    s.map_values(|r: RowView| r.id)
}

/// Filtering one element more.
pub proof fn lemma_filter_take<A>(s: Seq<A>, f: spec_fn(A) -> bool, i: int)
    requires
        0 <= i < s.len(),
    ensures
        s.take(i + 1).filter(f) == (if f(s[i]) {
            s.take(i).filter(f).push(s[i])
        } else {
            s.take(i).filter(f)
        }),
{
    reveal(Seq::filter);
    assert(s.take(i + 1).drop_last() =~= s.take(i));
    assert(s.take(i + 1).last() == s[i]);
}

/// Filtering nothing.
pub proof fn lemma_filter_empty<A>(s: Seq<A>, f: spec_fn(A) -> bool)
    ensures
        s.take(0).filter(f) == Seq::<A>::empty(),
        s.take(s.len() as int) == s,
{
    reveal(Seq::filter);
    assert(s.take(0) =~= Seq::<A>::empty());
    assert(s.take(s.len() as int) =~= s);
}

// ---- lookups ----

/// A row is found at its own position.
pub proof fn lemma_pos(d: Db, i: int)
    requires
        d.unique_ids(),
        0 <= i < d.tasks.len(),
    ensures
        d.has(d.tasks[i].id),
        d.pos(d.tasks[i].id) == i,
        d.row(d.tasks[i].id) == d.tasks[i],
{
    let p = d.pos(d.tasks[i].id);
    assert(0 <= p < d.tasks.len() && d.tasks[p].id == d.tasks[i].id);
}

/// A stored task has a position, and the row there is its own.
pub proof fn lemma_row(d: Db, id: TaskId)
    requires
        d.has(id),
    ensures
        0 <= d.pos(id) < d.tasks.len(),
        d.row(id) == d.tasks[d.pos(id)],
        d.row(id).id == id,
{
}

/// Going up one level and then `k` more is going up `k + 1` levels.
pub proof fn lemma_up_from_parent(d: Db, id: TaskId, k: nat)
    ensures
        d.up(id, k + 1) == (match d.parent(id) {
            Some(p) => d.up(p, k),
            None => None,
        }),
    decreases k,
{
    if k == 0 {
        assert(d.up(id, 0) == Some(id));
        assert(d.up(id, 1) == d.parent(id));
        if d.parent(id) is Some {
            assert(d.up(d.parent(id)->0, 0) == d.parent(id));
        }
    } else {
        lemma_up_from_parent(d, id, (k - 1) as nat);
    }
}

/// Above the end of a chain there is nothing.
pub proof fn lemma_up_none(d: Db, id: TaskId, j: nat, k: nat)
    requires
        j <= k,
        d.up(id, j) is None,
    ensures
        d.up(id, k) is None,
    decreases k,
{
    if j < k {
        lemma_up_none(d, id, j, (k - 1) as nat);
    }
}

/// Whatever is reached by going up from a stored task is stored.
pub proof fn lemma_up_has(d: Db, id: TaskId, k: nat)
    requires
        d.parents_exist(),
        d.has(id),
    ensures
        d.up(id, k) is Some ==> d.has(d.up(id, k)->0),
    decreases k,
{
    if k > 0 {
        lemma_up_has(d, id, (k - 1) as nat);
        if d.up(id, (k - 1) as nat) is Some {
            let p = d.up(id, (k - 1) as nat)->0;
            assert(d.tasks[d.pos(p)].parent_id == d.parent(p));
        }
    }
}

/// A stored task is at most two levels below a milestone.
pub proof fn lemma_shallow(d: Db, id: TaskId)
    requires
        d.wf(),
        d.has(id),
    ensures
        d.up(id, 3) is None,
        d.up(id, 0) == Some(id),
        d.up(id, 1) == d.parent(id),
        d.up(id, 2) is Some ==> d.up(id, 1) is Some,
{
    assert(d.tasks[d.pos(id)].id == id);
    if d.up(id, 1) is None {
        lemma_up_none(d, id, 1, 2);
    }
    assert(d.up(id, 0) == Some(id));
}

/// The depth of a child is one more than that of its parent.
pub proof fn lemma_depth_child(d: Db, id: TaskId)
    requires
        d.wf(),
        d.has(id),
        d.parent(id) is Some,
    ensures
        d.has(d.parent(id)->0),
        d.depth(id) == d.depth(d.parent(id)->0) + 1,
        d.parent(id)->0 != id,
{
    let p = d.parent(id)->0;
    lemma_up_has(d, id, 1);
    lemma_shallow(d, id);
    lemma_shallow(d, p);
    lemma_up_from_parent(d, id, 0);
    lemma_up_from_parent(d, id, 1);
    lemma_up_from_parent(d, id, 2);
}

/// With two levels above at most, the ancestors are the parent and the grandparent.
pub proof fn lemma_ancestor(d: Db, a: TaskId, t: TaskId)
    requires
        d.wf(),
        d.has(t),
    ensures
        d.ancestor(a, t) <==> d.up(t, 1) == Some(a) || d.up(t, 2) == Some(a),
{
    lemma_shallow(d, t);
    if d.ancestor(a, t) {
        let k = choose|k: nat| k >= 1 && #[trigger] d.up(t, k) == Some(a);
        if k >= 3 {
            lemma_up_none(d, t, 3, k);
        }
    }
}

/// An ancestor of a child is its parent or an ancestor of its parent.
pub proof fn lemma_ancestor_step(d: Db, a: TaskId, t: TaskId)
    ensures
        d.ancestor(a, t) <==> (match d.parent(t) {
            Some(p) => a == p || d.ancestor(a, p),
            None => false,
        }),
{
    assert(d.up(t, 0) == Some(t));
    if d.ancestor(a, t) {
        let k = choose|k: nat| k >= 1 && #[trigger] d.up(t, k) == Some(a);
        lemma_up_from_parent(d, t, (k - 1) as nat);
        if d.parent(t) is Some && k >= 2 {
            assert(d.up(d.parent(t)->0, (k - 1) as nat) == Some(a));
        }
    }
    if d.parent(t) is Some {
        let p = d.parent(t)->0;
        if a == p {
            assert(d.up(t, 1) == Some(a));
        }
        if d.ancestor(a, p) {
            let k = choose|k: nat| k >= 1 && #[trigger] d.up(p, k) == Some(a);
            lemma_up_from_parent(d, t, k);
            assert(d.up(t, k + 1) == Some(a));
        }
    }
}

/// A chain is blocked where its lowest task is, or the rest of it above.
pub proof fn lemma_chain_step(d: Db, id: TaskId)
    ensures
        d.chain_blocked(Some(id)) <==> d.directly_blocked(id) || d.chain_blocked(d.parent(id)),
{
    assert(d.up(id, 0) == Some(id));
    if d.chain_blocked(Some(id)) {
        let k = choose|k: nat|
            (#[trigger] d.up(id, k)) is Some && d.directly_blocked(d.up(id, k)->0);
        if k >= 1 {
            lemma_up_from_parent(d, id, (k - 1) as nat);
            assert(d.up(d.parent(id)->0, (k - 1) as nat) is Some);
        }
    }
    if d.chain_blocked(d.parent(id)) {
        let p = d.parent(id)->0;
        let k = choose|k: nat| (#[trigger] d.up(p, k)) is Some && d.directly_blocked(d.up(p, k)->0);
        lemma_up_from_parent(d, id, k);
        assert(d.up(id, k + 1) is Some);
    }
}

// ---- replacing one row ----

/// What a state knows of a task after the row of one task was replaced.
pub proof fn lemma_with_row(d: Db, id: TaskId, r: RowView)
    requires
        d.unique_ids(),
        d.has(id),
        r.id == id,
    ensures
        d.with_row(id, r).unique_ids(),
        d.with_row(id, r).tasks.len() == d.tasks.len(),
        d.with_row(id, r).row(id) == r,
        forall|x: TaskId| #[trigger] d.with_row(id, r).has(x) <==> d.has(x),
        forall|x: TaskId|
            d.has(x) ==> #[trigger] d.with_row(id, r).row(x) == if x == id {
                r
            } else {
                d.row(x)
            },
        forall|x: TaskId| d.has(x) ==> #[trigger] d.with_row(id, r).pos(x) == d.pos(x),
{
    let e = d.with_row(id, r);
    let p = d.pos(id);
    assert forall|i: int, j: int| 0 <= i < j < e.tasks.len() implies (#[trigger] e.tasks[i]).id != (
    #[trigger] e.tasks[j]).id by {
        assert(d.tasks[i].id != d.tasks[j].id);
    }
    assert forall|x: TaskId| #[trigger] e.has(x) <==> d.has(x) by {
        if d.has(x) {
            assert(e.tasks[d.pos(x)].id == x);
        }
        if e.has(x) {
            assert(d.tasks[e.pos(x)].id == x);
        }
    }
    assert forall|x: TaskId| d.has(x) implies #[trigger] e.row(x) == (if x == id {
        r
    } else {
        d.row(x)
    }) && e.pos(x) == d.pos(x) by {
        let i = d.pos(x);
        assert(e.tasks[i].id == x);
        lemma_pos(e, i);
        lemma_pos(d, i);
    }
    assert forall|x: TaskId| d.has(x) implies #[trigger] e.pos(x) == d.pos(x) by {
        let i = d.pos(x);
        assert(e.tasks[i].id == x);
        lemma_pos(e, i);
        lemma_pos(d, i);
    }
}

/// Replacing a row by one with the same parent leaves the hierarchy as it is.
pub proof fn lemma_with_row_same_parent(d: Db, id: TaskId, r: RowView)
    requires
        d.wf(),
        d.has(id),
        r.id == id,
        r.parent_id == d.row(id).parent_id,
    ensures
        d.with_row(id, r).wf(),
        forall|x: TaskId| #[trigger] d.with_row(id, r).parent(x) == d.parent(x),
        forall|x: TaskId, k: nat| #[trigger] d.with_row(id, r).up(x, k) == d.up(x, k),
        forall|x: TaskId| #[trigger] d.with_row(id, r).depth(x) == d.depth(x),
        forall|x: TaskId, y: TaskId|
            #[trigger] d.with_row(id, r).ancestor(x, y) == d.ancestor(x, y),
        forall|x: TaskId| #[trigger] d.with_row(id, r).children(x) == d.children(x),
        forall|x: TaskId| #[trigger] d.with_row(id, r).blockers_of(x) == d.blockers_of(x),
        forall|x: TaskId| #[trigger] d.with_row(id, r).blocked_by(x) == d.blocked_by(x),
{
    let e = d.with_row(id, r);
    lemma_with_row(d, id, r);
    assert forall|x: TaskId| #[trigger] e.parent(x) == d.parent(x) by {
        assert(e.has(x) == d.has(x));
        if d.has(x) {
            assert(e.row(x).parent_id == d.row(x).parent_id);
        }
    }
    assert forall|x: TaskId, k: nat| #[trigger] e.up(x, k) == d.up(x, k) by {
        lemma_up_same(d, e, x, k);
    }
    assert forall|x: TaskId| #[trigger] e.depth(x) == d.depth(x) by {
        assert(e.up(x, 1) == d.up(x, 1));
        assert(e.up(x, 2) == d.up(x, 2));
    }
    assert forall|x: TaskId, y: TaskId| #[trigger] e.ancestor(x, y) == d.ancestor(x, y) by {
        if e.ancestor(x, y) {
            let k = choose|k: nat| k >= 1 && #[trigger] e.up(y, k) == Some(x);
            assert(d.up(y, k) == Some(x));
        }
        if d.ancestor(x, y) {
            let k = choose|k: nat| k >= 1 && #[trigger] d.up(y, k) == Some(x);
            assert(e.up(y, k) == Some(x));
        }
    }
    assert forall|x: TaskId| #[trigger] e.children(x) == d.children(x) by {
        lemma_children_update(d.tasks, d.pos(id), r, x);
    }
    assert(e.parents_exist()) by {
        assert forall|i: int| 0 <= i < e.tasks.len() implies match (#[trigger] e.tasks[i]).parent_id {
            Some(p) => e.has(p),
            None => true,
        } by {
            assert(e.tasks[i].parent_id == d.tasks[i].parent_id);
        }
    }
    assert(e.shallow()) by {
        assert forall|i: int| 0 <= i < e.tasks.len() implies e.up((#[trigger] e.tasks[i]).id, 3) is None by {
            assert(e.tasks[i].id == d.tasks[i].id);
            assert(e.up(e.tasks[i].id, 3) == d.up(d.tasks[i].id, 3));
        }
    }
    assert(e.blockers == d.blockers);
    assert(e.learnings == d.learnings);
    assert forall|i: int| 0 <= i < e.blockers.len() implies e.has((#[trigger] e.blockers[i]).task_id)
        && e.has(e.blockers[i].blocker_id) by {
        assert(d.has(d.blockers[i].task_id) && d.has(d.blockers[i].blocker_id));
    }
    assert forall|i: int| 0 <= i < e.learnings.len() implies e.has(
        (#[trigger] e.learnings[i]).task_id,
    ) by {
        assert(d.has(d.learnings[i].task_id));
    }
}

/// Chains depend on the parents only.
pub proof fn lemma_up_same(d: Db, e: Db, x: TaskId, k: nat)
    requires
        forall|y: TaskId| #[trigger] e.parent(y) == d.parent(y),
    ensures
        e.up(x, k) == d.up(x, k),
    decreases k,
{
    if k > 0 {
        lemma_up_same(d, e, x, (k - 1) as nat);
    }
}

/// The identifiers of the children do not change when a row keeps its parent.
proof fn lemma_children_update(s: Seq<RowView>, p: int, r: RowView, x: TaskId)
    requires
        0 <= p < s.len(),
        r.id == s[p].id,
        r.parent_id == s[p].parent_id,
    ensures
        row_ids(s.update(p, r).filter(|q: RowView| q.parent_id == Some(x))) == row_ids(
            s.filter(|q: RowView| q.parent_id == Some(x)),
        ),
    decreases s.len(),
{
    reveal(Seq::filter);
    let f = |q: RowView| q.parent_id == Some(x);
    let t = s.update(p, r);
    if p < s.len() - 1 {
        assert(t.drop_last() =~= s.drop_last().update(p, r));
        lemma_children_update(s.drop_last(), p, r, x);
        assert(t.last() == s.last());
    } else {
        assert(t.drop_last() =~= s.drop_last());
    }
    let a = s.drop_last().filter(f);
    let b = t.drop_last().filter(f);
    assert(row_ids(a) == row_ids(b));
    assert(row_ids(a.push(s.last())) =~= row_ids(a).push(s.last().id));
    assert(row_ids(b.push(t.last())) =~= row_ids(b).push(t.last().id));
}

// ---- children ----

/// The children of a task are the stored tasks that name it as their parent.
pub proof fn lemma_children(d: Db, id: TaskId, x: TaskId)
    requires
        d.unique_ids(),
    ensures
        d.children(id).contains(x) <==> d.parent(x) == Some(id),
{
    let f = |r: RowView| r.parent_id == Some(id);
    let s = d.tasks.filter(f);
    if d.children(id).contains(x) {
        let i = choose|i: int| 0 <= i < d.children(id).len() && d.children(id)[i] == x;
        assert(s[i].id == x);
        d.tasks.lemma_filter_pred(f, i);
        assert(s.contains(s[i]));
        d.tasks.lemma_filter_contains_rev(f, s[i]);
        let j = choose|j: int| 0 <= j < d.tasks.len() && d.tasks[j] == s[i];
        lemma_pos(d, j);
    }
    if d.parent(x) == Some(id) {
        let p = d.pos(x);
        assert(f(d.tasks[p]));
        d.tasks.lemma_filter_contains(f, p);
        let i = choose|i: int| 0 <= i < s.len() && s[i] == d.tasks[p];
        assert(d.children(id)[i] == x);
    }
}

/// No task occurs twice among the children of a task.
pub proof fn lemma_children_distinct(d: Db, id: TaskId)
    requires
        d.unique_ids(),
    ensures
        d.children(id).no_duplicates(),
{
    lemma_filter_distinct_ids(d.tasks, |r: RowView| r.parent_id == Some(id));
}

/// Distinct identifiers stay distinct under a filter.
pub proof fn lemma_filter_distinct_ids(s: Seq<RowView>, f: spec_fn(RowView) -> bool)
    requires
        forall|i: int, j: int| 0 <= i < j < s.len() ==> (#[trigger] s[i]).id != (#[trigger] s[j]).id,
    ensures
        row_ids(s.filter(f)).no_duplicates(),
        forall|i: int|
            0 <= i < s.filter(f).len() ==> exists|j: int|
                0 <= j < s.len() && s[j] == #[trigger] s.filter(f)[i],
    decreases s.len(),
{
    reveal(Seq::filter);
    if s.len() > 0 {
        let t = s.drop_last();
        assert forall|i: int, j: int| 0 <= i < j < t.len() implies (#[trigger] t[i]).id != (
        #[trigger] t[j]).id by {
            assert(s[i].id != s[j].id);
        }
        lemma_filter_distinct_ids(t, f);
        let g = t.filter(f);
        assert forall|i: int| 0 <= i < s.filter(f).len() implies exists|j: int|
            0 <= j < s.len() && s[j] == #[trigger] s.filter(f)[i] by {
            if i < g.len() {
                let j = choose|j: int| 0 <= j < t.len() && t[j] == g[i];
                assert(s[j] == s.filter(f)[i]);
            } else {
                assert(s[s.len() - 1] == s.filter(f)[i]);
            }
        }
        let a = row_ids(s.filter(f));
        assert forall|i: int, j: int| 0 <= i < a.len() && 0 <= j < a.len() && i != j implies a[i]
            != a[j] by {
            let b = row_ids(g);
            if i < g.len() && j < g.len() {
                assert(a[i] == b[i] && a[j] == b[j]);
            } else if i < g.len() {
                let k = choose|k: int| 0 <= k < t.len() && t[k] == g[i];
                assert(s[k].id != s[s.len() - 1].id);
                assert(a[i] == s[k].id);
            } else {
                let k = choose|k: int| 0 <= k < t.len() && t[k] == g[j];
                assert(s[k].id != s[s.len() - 1].id);
                assert(a[j] == s[k].id);
            }
        }
    }
}

/// The tasks that a listing shows are stored tasks that its filter lets through, each once.
pub proof fn lemma_listed(d: Db, f: FilterView)
    requires
        d.unique_ids(),
    ensures
        forall|i: int| 0 <= i < d.listed(f).len() ==> d.has(#[trigger] d.listed(f)[i]),
        forall|x: TaskId| #[trigger] d.listed(f).contains(x) <==> d.has(x) && d.shown(f, x),
        d.listed(f).no_duplicates(),
{
    let g = |r: Rank| d.shown(f, r.id);
    let all = d.all_ranks();
    let s = all.filter(g);
    order::lemma_ranked(s);
    assert forall|x: TaskId| #[trigger] d.listed(f).contains(x) <==> d.has(x) && d.shown(f, x) by {
        if d.listed(f).contains(x) {
            let i = choose|i: int| 0 <= i < s.len() && (#[trigger] s[i]).id == x;
            all.lemma_filter_pred(g, i);
            assert(s.contains(s[i]));
            all.lemma_filter_contains_rev(g, s[i]);
            let j = choose|j: int| 0 <= j < all.len() && all[j] == s[i];
            assert(d.tasks[j].id == x);
        }
        if d.has(x) && d.shown(f, x) {
            let p = d.pos(x);
            assert(all[p].id == x);
            assert(g(all[p]));
            all.lemma_filter_contains(g, p);
            let i = choose|i: int| 0 <= i < s.len() && s[i] == all[p];
            assert(s[i].id == x);
        }
    }
    assert forall|i: int| 0 <= i < d.listed(f).len() implies d.has(#[trigger] d.listed(f)[i]) by {
        assert(d.listed(f).contains(d.listed(f)[i]));
    }
    assert forall|i: int, j: int| 0 <= i < j < all.len() implies (#[trigger] all[i]).id != (
    #[trigger] all[j]).id by {
        assert(d.tasks[i].id != d.tasks[j].id);
    }
    lemma_filter_distinct_ranks(all, g);
}

/// Distinct identifiers stay distinct under a filter of ranks.
proof fn lemma_filter_distinct_ranks(s: Seq<Rank>, f: spec_fn(Rank) -> bool)
    requires
        forall|i: int, j: int| 0 <= i < j < s.len() ==> (#[trigger] s[i]).id != (#[trigger] s[j]).id,
    ensures
        s.filter(f).map_values(|r: Rank| r.id).no_duplicates(),
    decreases s.len(),
{
    reveal(Seq::filter);
    if s.len() > 0 {
        let t = s.drop_last();
        assert forall|i: int, j: int| 0 <= i < j < t.len() implies (#[trigger] t[i]).id != (
        #[trigger] t[j]).id by {
            assert(s[i].id != s[j].id);
        }
        lemma_filter_distinct_ranks(t, f);
        let g = t.filter(f);
        let a = s.filter(f).map_values(|r: Rank| r.id);
        let b = g.map_values(|r: Rank| r.id);
        assert forall|i: int, j: int| 0 <= i < a.len() && 0 <= j < a.len() && i != j implies a[i]
            != a[j] by {
            if i < g.len() && j < g.len() {
                assert(a[i] == b[i] && a[j] == b[j]);
            } else {
                let m = if i < g.len() {
                    i
                } else {
                    j
                };
                assert(g.contains(g[m]));
                t.lemma_filter_contains_rev(f, g[m]);
                let k = choose|k: int| 0 <= k < t.len() && t[k] == g[m];
                assert(s[k].id != s[s.len() - 1].id);
            }
        }
    }
}

/// The children of a task are stored, and ordering them neither adds nor drops one.
pub proof fn lemma_children_stored(d: Db, id: TaskId)
    requires
        d.unique_ids(),
    ensures
        forall|i: int| 0 <= i < d.children(id).len() ==> d.has(#[trigger] d.children(id)[i])
            && d.parent(d.children(id)[i]) == Some(id),
        forall|i: int|
            0 <= i < d.children_ordered(id).len() ==> d.has(#[trigger] d.children_ordered(id)[i])
                && d.parent(d.children_ordered(id)[i]) == Some(id),
        d.children_ordered(id).len() == d.children(id).len(),
        forall|x: TaskId|
            #[trigger] d.children_ordered(id).contains(x) <==> d.parent(x) == Some(id),
        d.children_ordered(id).no_duplicates(),
{
    let kids = d.children(id);
    let f = |c: TaskId| d.rank(c);
    let s = kids.map_values(f);
    order::lemma_ranked(s);
    assert forall|i: int| 0 <= i < kids.len() implies d.has(#[trigger] kids[i]) && d.parent(kids[i])
        == Some(id) by {
        assert(kids.contains(kids[i]));
        lemma_children(d, id, kids[i]);
    }
    assert forall|x: TaskId| #[trigger] d.children_ordered(id).contains(x) <==> d.parent(x) == Some(
        id,
    ) by {
        lemma_children(d, id, x);
        if d.children_ordered(id).contains(x) {
            let i = choose|i: int| 0 <= i < s.len() && (#[trigger] s[i]).id == x;
            lemma_row(d, kids[i]);
            assert(kids.contains(x));
        }
        if d.parent(x) == Some(id) {
            let i = choose|i: int| 0 <= i < kids.len() && kids[i] == x;
            lemma_row(d, x);
            assert(s[i].id == x);
        }
    }
    assert forall|i: int| 0 <= i < d.children_ordered(id).len() implies d.has(
        #[trigger] d.children_ordered(id)[i],
    ) && d.parent(d.children_ordered(id)[i]) == Some(id) by {
        assert(d.children_ordered(id).contains(d.children_ordered(id)[i]));
    }
    lemma_children_distinct(d, id);
    assert(s.map_values(|r: Rank| r.id) =~= kids) by {
        assert forall|i: int| 0 <= i < kids.len() implies s.map_values(|r: Rank| r.id)[i] == kids[i] by {
            lemma_row(d, kids[i]);
        }
    }
}

/// The milestones are stored tasks without a parent, and ordering them neither adds nor drops one.
pub proof fn lemma_roots_stored(d: Db)
    requires
        d.unique_ids(),
    ensures
        forall|i: int| 0 <= i < d.roots_ordered().len() ==> d.has(#[trigger] d.roots_ordered()[i]),
        forall|x: TaskId|
            #[trigger] d.roots_ordered().contains(x) <==> d.has(x) && d.parent(x) is None,
        d.roots_ordered().no_duplicates(),
{
    let g = |r: RowView| r.parent_id is None;
    let rows = d.tasks.filter(g);
    let ids = d.roots();
    let s = ids.map_values(|c: TaskId| d.rank(c));
    order::lemma_ranked(s);
    lemma_filter_distinct_ids(d.tasks, g);
    assert forall|x: TaskId| #[trigger] ids.contains(x) <==> d.has(x) && d.parent(x) is None by {
        if ids.contains(x) {
            let i = choose|i: int| 0 <= i < ids.len() && ids[i] == x;
            d.tasks.lemma_filter_pred(g, i);
            let j = choose|j: int| 0 <= j < d.tasks.len() && d.tasks[j] == rows[i];
            lemma_pos(d, j);
        }
        if d.has(x) && d.parent(x) is None {
            let p = d.pos(x);
            assert(g(d.tasks[p]));
            d.tasks.lemma_filter_contains(g, p);
            let i = choose|i: int| 0 <= i < rows.len() && rows[i] == d.tasks[p];
            assert(ids[i] == x);
        }
    }
    assert forall|i: int| 0 <= i < ids.len() implies (#[trigger] s[i]).id == ids[i] && d.has(ids[i]) by {
        assert(ids.contains(ids[i]));
        lemma_row(d, ids[i]);
    }
    assert forall|x: TaskId| #[trigger] d.roots_ordered().contains(x) <==> d.has(x) && d.parent(
        x,
    ) is None by {
        if d.roots_ordered().contains(x) {
            let i = choose|i: int| 0 <= i < s.len() && (#[trigger] s[i]).id == x;
            assert(ids.contains(x));
        }
        if ids.contains(x) {
            let i = choose|i: int| 0 <= i < ids.len() && ids[i] == x;
            assert(s[i].id == x);
        }
    }
    assert forall|i: int| 0 <= i < d.roots_ordered().len() implies d.has(
        #[trigger] d.roots_ordered()[i],
    ) by {
        assert(d.roots_ordered().contains(d.roots_ordered()[i]));
    }
    assert(s.map_values(|r: Rank| r.id) =~= ids);
}

// ---- descendants ----

/// What lies below a task down to some levels is what reaches it in that many steps up.
pub proof fn lemma_below(d: Db, id: TaskId, levels: nat, x: TaskId)
    requires
        d.unique_ids(),
    ensures
        d.below(id, levels).contains(x) <==> exists|k: nat|
            1 <= k <= levels && #[trigger] d.up(x, k) == Some(id),
    decreases levels, 1nat, 0nat,
{
    let kids = d.children(id);
    assert(d.up(x, 0) == Some(x));
    assert(d.up(x, 1) == d.parent(x));
    if levels == 0 {
    } else {
        let rest = (levels - 1) as nat;
        let a = d.below_all(kids, rest);
        lemma_below_all(d, kids, rest, x);
        lemma_children(d, id, x);
        assert(d.below(id, levels) == kids + a);
        if d.below(id, levels).contains(x) {
            let i = choose|i: int| 0 <= i < (kids + a).len() && (kids + a)[i] == x;
            if i < kids.len() {
                assert(kids.contains(x));
                assert(d.up(x, 1) == Some(id));
            } else {
                assert(a[i - kids.len()] == x);
                assert(a.contains(x));
                let k = choose|k: nat|
                    1 <= k <= rest && (#[trigger] d.up(x, k)) is Some && kids.contains(d.up(x, k)->0);
                let c = d.up(x, k)->0;
                lemma_children(d, id, c);
                assert(d.up(x, k + 1) == Some(id));
            }
        }
        if exists|k: nat| 1 <= k <= levels && #[trigger] d.up(x, k) == Some(id) {
            let k = choose|k: nat| 1 <= k <= levels && #[trigger] d.up(x, k) == Some(id);
            if k == 1 {
                assert(kids.contains(x));
                let i = choose|i: int| 0 <= i < kids.len() && kids[i] == x;
                assert((kids + a)[i] == x);
            } else {
                let c = d.up(x, (k - 1) as nat)->0;
                lemma_children(d, id, c);
                assert(kids.contains(d.up(x, (k - 1) as nat)->0));
                assert(a.contains(x));
                let i = choose|i: int| 0 <= i < a.len() && a[i] == x;
                assert((kids + a)[kids.len() + i] == x);
            }
        }
    }
}

pub proof fn lemma_below_all(d: Db, ids: Seq<TaskId>, levels: nat, x: TaskId)
    requires
        d.unique_ids(),
    ensures
        d.below_all(ids, levels).contains(x) <==> exists|k: nat|
            1 <= k <= levels && (#[trigger] d.up(x, k)) is Some && ids.contains(d.up(x, k)->0),
    decreases levels, 2nat, ids.len(),
{
    if ids.len() > 0 {
        let c0 = ids.last();
        let t = ids.drop_last();
        let a = d.below(c0, levels);
        let b = d.below_all(t, levels);
        lemma_below(d, c0, levels, x);
        lemma_below_all(d, t, levels, x);
        assert(d.below_all(ids, levels) == a + b);
        if (a + b).contains(x) {
            let i = choose|i: int| 0 <= i < (a + b).len() && (a + b)[i] == x;
            if i < a.len() {
                assert(a.contains(x));
                let k = choose|k: nat| 1 <= k <= levels && #[trigger] d.up(x, k) == Some(c0);
                assert(ids.contains(c0));
                assert(ids.contains(d.up(x, k)->0));
            } else {
                assert(b[i - a.len()] == x);
                assert(b.contains(x));
                let k = choose|k: nat|
                    1 <= k <= levels && (#[trigger] d.up(x, k)) is Some && t.contains(d.up(x, k)->0);
                let c = d.up(x, k)->0;
                let j = choose|j: int| 0 <= j < t.len() && t[j] == c;
                assert(ids[j] == c);
                assert(ids.contains(d.up(x, k)->0));
            }
        }
        if exists|k: nat|
            1 <= k <= levels && (#[trigger] d.up(x, k)) is Some && ids.contains(d.up(x, k)->0) {
            let k = choose|k: nat|
                1 <= k <= levels && (#[trigger] d.up(x, k)) is Some && ids.contains(d.up(x, k)->0);
            let c = d.up(x, k)->0;
            if c == c0 {
                assert(a.contains(x));
                let i = choose|i: int| 0 <= i < a.len() && a[i] == x;
                assert((a + b)[i] == x);
            } else {
                let j = choose|j: int| 0 <= j < ids.len() && ids[j] == c;
                assert(t[j] == c);
                assert(t.contains(d.up(x, k)->0));
                assert(b.contains(x));
                let i = choose|i: int| 0 <= i < b.len() && b[i] == x;
                assert((a + b)[a.len() + i] == x);
            }
        }
    } else {
        assert(d.below_all(ids, levels) =~= Seq::<TaskId>::empty());
    }
}

/// The descendants of a task are the stored tasks that it stands above.
pub proof fn lemma_descendants(d: Db, id: TaskId, x: TaskId)
    requires
        d.wf(),
    ensures
        d.descendants(id).contains(x) <==> d.ancestor(id, x),
        d.descendants(id).contains(x) ==> d.has(x),
{
    lemma_below(d, id, 3, x);
    if d.ancestor(id, x) {
        lemma_ancestor_stored(d, id, x);
        lemma_ancestor(d, id, x);
    }
    if d.descendants(id).contains(x) {
        let k = choose|k: nat| 1 <= k <= 3 && #[trigger] d.up(x, k) == Some(id);
        assert(d.ancestor(id, x));
        lemma_ancestor_stored(d, id, x);
    }
}

/// Only stored tasks have ancestors.
pub proof fn lemma_ancestor_stored(d: Db, a: TaskId, x: TaskId)
    requires
        d.ancestor(a, x),
    ensures
        d.has(x),
{
    let k = choose|k: nat| k >= 1 && #[trigger] d.up(x, k) == Some(a);
    lemma_up_from_parent(d, x, (k - 1) as nat);
}

} // verus!
