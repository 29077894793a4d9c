use vstd::prelude::*;
use crate::task::Task;

verus! {

/// How many tasks of a sequence satisfy a predicate.
pub open spec fn count_where(s: Seq<Task>, p: spec_fn(Task) -> bool) -> nat
    decreases s.len(),
{
    if s.len() == 0 {
        0
    } else {
        count_where(s.drop_last(), p) + if p(s.last()) { 1nat } else { 0nat }
    }
}

/// The tasks of a group that hold one of its slots.
pub open spec fn occupies(group: Seq<char>) -> spec_fn(Task) -> bool {
    |t: Task| t.status.is_active() && t.group@ == group
}

/// The tasks of a group that are running.
pub open spec fn runs_in(group: Seq<char>) -> spec_fn(Task) -> bool {
    |t: Task| t.status is Running && t.group@ == group
}

/// The tasks that wait in a queue.
pub open spec fn queued() -> spec_fn(Task) -> bool {
    |t: Task| t.status is Queued
}

/// The ids of the tasks that satisfy a predicate, in the order of the tasks.
pub open spec fn ids_where(s: Seq<Task>, p: spec_fn(Task) -> bool) -> Seq<u64>
    decreases s.len(),
{
    if s.len() == 0 {
        Seq::empty()
    } else if p(s.last()) {
        ids_where(s.drop_last(), p).push(s.last().id)
    } else {
        ids_where(s.drop_last(), p)
    }
}

/// The tasks that do not satisfy a predicate, in their order.
pub open spec fn without(s: Seq<Task>, p: spec_fn(Task) -> bool) -> Seq<Task>
    decreases s.len(),
{
    if s.len() == 0 {
        Seq::empty()
    } else if p(s[0]) {
        without(s.skip(1), p)
    } else {
        seq![s[0]] + without(s.skip(1), p)
    }
}

pub proof fn lemma_count_bound(s: Seq<Task>, p: spec_fn(Task) -> bool)
    ensures
        count_where(s, p) <= s.len(),
    decreases s.len(),
{
    if s.len() > 0 {
        lemma_count_bound(s.drop_last(), p);
    }
}

/// Where no task satisfies the predicate, the count is zero.
pub proof fn lemma_count_none(s: Seq<Task>, p: spec_fn(Task) -> bool)
    requires
        forall|i: int| 0 <= i < s.len() ==> !p(#[trigger] s[i]),
    ensures
        count_where(s, p) == 0,
    decreases s.len(),
{
    if s.len() > 0 {
        assert(!p(s[s.len() - 1]));
        assert forall|i: int| 0 <= i < s.drop_last().len() implies !p(#[trigger] s.drop_last()[i]) by {
            assert(s.drop_last()[i] == s[i]);
        }
        lemma_count_none(s.drop_last(), p);
    }
}

/// Replacing one task changes the count by what the two tasks contribute.
pub proof fn lemma_count_update(s: Seq<Task>, i: int, t: Task, p: spec_fn(Task) -> bool)
    requires
        0 <= i < s.len(),
    ensures
        count_where(s.update(i, t), p) + (if p(s[i]) { 1nat } else { 0nat })
            == count_where(s, p) + (if p(t) { 1nat } else { 0nat }),
    decreases s.len(),
{
    let s2 = s.update(i, t);
    if i == s.len() - 1 {
        assert(s2.drop_last() =~= s.drop_last());
    } else {
        assert(s2.drop_last() =~= s.drop_last().update(i, t));
        lemma_count_update(s.drop_last(), i, t, p);
    }
}

/// Removing one task lowers the count by what it contributed.
pub proof fn lemma_count_remove(s: Seq<Task>, i: int, p: spec_fn(Task) -> bool)
    requires
        0 <= i < s.len(),
    ensures
        count_where(s.remove(i), p) + (if p(s[i]) { 1nat } else { 0nat }) == count_where(s, p),
    decreases s.len(),
{
    if i == s.len() - 1 {
        assert(s.remove(i) =~= s.drop_last());
    } else {
        assert(s.remove(i).drop_last() =~= s.drop_last().remove(i));
        assert(s.remove(i).last() == s.last());
        lemma_count_remove(s.drop_last(), i, p);
    }
}

/// Where every task counted in the second sequence stands at the place of one
/// counted in the first, the second count is no larger.
pub proof fn lemma_count_mono(
    s1: Seq<Task>,
    wide: spec_fn(Task) -> bool,
    s2: Seq<Task>,
    narrow: spec_fn(Task) -> bool,
)
    requires
        s1.len() == s2.len(),
        forall|i: int| 0 <= i < s1.len() ==> (narrow(#[trigger] s2[i]) ==> wide(s1[i])),
    ensures
        count_where(s2, narrow) <= count_where(s1, wide),
    decreases s1.len(),
{
    if s1.len() > 0 {
        lemma_count_mono(s1.drop_last(), wide, s2.drop_last(), narrow);
    }
}

/// A group has no more running tasks than tasks that hold a slot.
pub proof fn lemma_running_le_occupied(s: Seq<Task>, group: Seq<char>)
    ensures
        count_where(s, runs_in(group)) <= count_where(s, occupies(group)),
{
    lemma_count_mono(s, occupies(group), s, runs_in(group));
}

} // verus!
