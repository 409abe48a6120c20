//! The order in which tasks are shown and taken up.
use vstd::prelude::*;

use crate::id::TaskId;
use crate::time::Timestamp;

verus! {

/// What decides the place of a task in an order: finished tasks last, then by depth, priority
/// (0 first), creation time, a tie breaker and the identifier. Orders that do not look at one of
/// these leave it at zero.
#[derive(Clone, Copy)]
pub struct Rank {
    pub completed: bool,
    pub depth: i64,
    pub priority: i32,
    pub created_at: Timestamp,
    pub tie: u64,
    pub id: TaskId,
}

/// Whether `a` comes no later than `b`.
pub open spec fn rank_le(a: Rank, b: Rank) -> bool {
    if a.completed != b.completed {
        b.completed
    } else if a.depth != b.depth {
        a.depth < b.depth
    } else if a.priority != b.priority {
        a.priority < b.priority
    } else if a.created_at.secs != b.created_at.secs {
        a.created_at.secs < b.created_at.secs
    } else if a.created_at.nanos != b.created_at.nanos {
        a.created_at.nanos < b.created_at.nanos
    } else if a.tie != b.tie {
        a.tie < b.tie
    } else {
        a.id.ulid <= b.id.ulid
    }
}

/// The order on ranks, as a relation.
pub open spec fn rank_order() -> spec_fn(Rank, Rank) -> bool {
    |a: Rank, b: Rank| rank_le(a, b)
}

/// The identifiers of ranked tasks, in order.
pub open spec fn ranked(s: Seq<Rank>) -> Seq<TaskId> {
    s.sort_by(rank_order()).map_values(|r: Rank| r.id)
}

/// Any two ranks can be put in order, and only equal ones tie.
pub proof fn lemma_rank_order()
    ensures
        vstd::relations::total_ordering(rank_order()),
{
    let r = rank_order();
    assert forall|x: Rank, y: Rank| #[trigger] r(x, y) && #[trigger] r(y, x) implies x == y by {
        assert(x.id == y.id);
        assert(x.created_at == y.created_at);
    }
    assert forall|x: Rank, y: Rank, z: Rank| #[trigger] r(x, y) && #[trigger] r(y, z) implies r(
        x,
        z,
    ) by {}
    assert forall|x: Rank, y: Rank| #[trigger] r(x, y) || #[trigger] r(y, x) by {}
    assert forall|x: Rank| #[trigger] r(x, x) by {}
}

/// Whether `a` comes no later than `b`.
fn comes_first(a: &Rank, b: &Rank) -> (r: bool)
    ensures
        r == rank_le(*a, *b),
{
    if a.completed != b.completed {
        b.completed
    } else if a.depth != b.depth {
        a.depth < b.depth
    } else if a.priority != b.priority {
        a.priority < b.priority
    } else if a.created_at.secs != b.created_at.secs {
        a.created_at.secs < b.created_at.secs
    } else if a.created_at.nanos != b.created_at.nanos {
        a.created_at.nanos < b.created_at.nanos
    } else if a.tie != b.tie {
        a.tie < b.tie
    } else {
        a.id.ulid <= b.id.ulid
    }
}

/// Puts a rank into a sorted list.
fn insert_sorted(sorted: &mut Vec<Rank>, x: Rank)
    requires
        vstd::relations::sorted_by(old(sorted)@, rank_order()),
    ensures
        vstd::relations::sorted_by(final(sorted)@, rank_order()),
        final(sorted)@.to_multiset() == old(sorted)@.push(x).to_multiset(),
{
    let ghost s = sorted@;
    let mut at: usize = 0;
    while at < sorted.len() && comes_first(&sorted[at], &x)
        invariant
            at <= sorted.len(),
            sorted@ == s,
            forall|i: int| 0 <= i < at ==> rank_le(#[trigger] s[i], x),
        decreases sorted.len() - at,
    {
        at += 1;
    }
    sorted.insert(at, x);
    proof {
        lemma_rank_order();
        let r = rank_order();
        let t = sorted@;
        assert forall|i: int, j: int| 0 <= i < j < t.len() implies #[trigger] r(t[i], t[j]) by {
            if j < at {
                assert(r(s[i], s[j]));
            } else if j == at {
                assert(rank_le(s[i], x));
            } else if i < at {
                assert(r(s[i], s[j - 1]));
            } else if i == at {
                assert(rank_le(x, s[at as int]));
                if j - 1 > at {
                    assert(r(s[at as int], s[j - 1]));
                    assert(r(x, s[at as int]));
                }
            } else {
                assert(r(s[i - 1], s[j - 1]));
            }
        }
        s.insert_ensures(at as int, x);
        vstd::seq_lib::to_multiset_insert(s, at as int, x);
        vstd::seq_lib::to_multiset_build(s, x);
    }
}

/// Sorts ranked tasks and gives their identifiers.
pub fn sort_ranked(ranks: &Vec<Rank>) -> (out: Vec<TaskId>)
    ensures
        out@ == ranked(ranks@),
{
    let mut sorted: Vec<Rank> = Vec::new();
    let mut i: usize = 0;
    assert(ranks@.take(0) =~= sorted@);
    while i < ranks.len()
        invariant
            i <= ranks.len(),
            vstd::relations::sorted_by(sorted@, rank_order()),
            sorted@.to_multiset() == ranks@.take(i as int).to_multiset(),
        decreases ranks.len() - i,
    {
        let ghost before = sorted@;
        insert_sorted(&mut sorted, ranks[i]);
        proof {
            vstd::seq_lib::to_multiset_build(before, ranks@[i as int]);
            vstd::seq_lib::to_multiset_build(ranks@.take(i as int), ranks@[i as int]);
            assert(ranks@.take(i + 1) =~= ranks@.take(i as int).push(ranks@[i as int]));
        }
        i += 1;
    }
    proof {
        assert(ranks@.take(ranks@.len() as int) =~= ranks@);
        lemma_rank_order();
        ranks@.lemma_sort_by_ensures(rank_order());
        vstd::seq_lib::lemma_sorted_unique(sorted@, ranks@.sort_by(rank_order()), rank_order());
    }
    let mut out: Vec<TaskId> = Vec::new();
    let mut j: usize = 0;
    while j < sorted.len()
        invariant
            j <= sorted.len(),
            out@ == sorted@.take(j as int).map_values(|r: Rank| r.id),
        decreases sorted.len() - j,
    {
        out.push(sorted[j].id);
        assert(sorted@.take(j + 1) =~= sorted@.take(j as int).push(sorted@[j as int]));
        j += 1;
        assert(out@ =~= sorted@.take(j as int).map_values(|r: Rank| r.id));
    }
    assert(sorted@.take(sorted@.len() as int) =~= sorted@);
    out
}

/// Ordering neither adds nor drops a task.
pub proof fn lemma_ranked(s: Seq<Rank>)
    ensures
        ranked(s).len() == s.len(),
        forall|x: TaskId|
            #[trigger] ranked(s).contains(x) <==> exists|i: int|
                0 <= i < s.len() && (#[trigger] s[i]).id == x,
        s.map_values(|r: Rank| r.id).no_duplicates() ==> ranked(s).no_duplicates(),
{
    let f = |r: Rank| r.id;
    let t = s.sort_by(rank_order());
    lemma_rank_order();
    s.lemma_sort_by_ensures(rank_order());
    vstd::seq_lib::to_multiset_len(s);
    vstd::seq_lib::to_multiset_len(t);
    assert forall|x: TaskId| #[trigger] ranked(s).contains(x) <==> exists|i: int|
        0 <= i < s.len() && (#[trigger] s[i]).id == x by {
        if ranked(s).contains(x) {
            let j = choose|j: int| 0 <= j < ranked(s).len() && ranked(s)[j] == x;
            vstd::seq_lib::to_multiset_contains(t, t[j]);
            vstd::seq_lib::to_multiset_contains(s, t[j]);
            assert(s.contains(t[j]));
            let i = choose|i: int| 0 <= i < s.len() && s[i] == t[j];
            assert(s[i].id == x);
        }
        if exists|i: int| 0 <= i < s.len() && (#[trigger] s[i]).id == x {
            let i = choose|i: int| 0 <= i < s.len() && (#[trigger] s[i]).id == x;
            vstd::seq_lib::to_multiset_contains(s, s[i]);
            vstd::seq_lib::to_multiset_contains(t, s[i]);
            let j = choose|j: int| 0 <= j < t.len() && t[j] == s[i];
            assert(ranked(s)[j] == x);
        }
    }
    if s.map_values(f).no_duplicates() {
        let ids = s.map_values(f);
        assert(s.no_duplicates()) by {
            assert forall|i: int, j: int| 0 <= i < s.len() && 0 <= j < s.len() && i != j implies s[i]
                != s[j] by {
                assert(ids[i] != ids[j]);
            }
        }
        s.lemma_multiset_has_no_duplicates();
        t.lemma_multiset_has_no_duplicates_conv();
        assert forall|i: int, j: int|
            0 <= i < t.len() && 0 <= j < t.len() && i != j implies ranked(s)[i] != ranked(s)[j] by {
            assert(t[i] != t[j]);
            vstd::seq_lib::to_multiset_contains(t, t[i]);
            vstd::seq_lib::to_multiset_contains(s, t[i]);
            vstd::seq_lib::to_multiset_contains(t, t[j]);
            vstd::seq_lib::to_multiset_contains(s, t[j]);
            let a = choose|a: int| 0 <= a < s.len() && s[a] == t[i];
            let b = choose|b: int| 0 <= b < s.len() && s[b] == t[j];
            assert(ids[a] != ids[b]);
        }
    }
}

} // verus!
