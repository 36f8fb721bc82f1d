//! Stable sorting of tasks by one of two keys: the priority rank, or the
//! due date with an absent date ordered before every present one. The
//! result is pinned exactly: it is insertion sort, which keeps the
//! insertion order of tasks whose keys are equal.
use vstd::prelude::*;
use vstd::seq_lib::*;
use vstd::multiset::Multiset;
use crate::date::DueDate;
use crate::date::date_key;
use crate::date::date_key_exec;
use crate::date::lemma_date_key_bound;
use crate::task::Task;
use crate::task::TaskView;

verus! {

/// Which key the tasks are ordered by.
#[derive(Clone, Copy, PartialEq, Eq, Structural, Debug)]
pub enum SortCriterion {
    ByPriority,
    ByDueDate,
}

/// The due-date key: an absent date ranks below every present date.
pub open spec fn spec_due_key(due: Option<DueDate>) -> int {
    match due {
        None => 0,
        Some(d) => 1 + date_key(d),
    }
}

/// The sort key of a task under a criterion.
pub open spec fn spec_task_key(c: SortCriterion, t: TaskView) -> int {
    match c {
        SortCriterion::ByPriority => t.priority.spec_rank() as int,
        SortCriterion::ByDueDate => spec_due_key(t.due),
    }
}

/// Nondecreasing by key.
pub open spec fn spec_sorted(c: SortCriterion, s: Seq<TaskView>) -> bool {
    forall|i: int, j: int|
        0 <= i < j < s.len() ==> spec_task_key(c, #[trigger] s[i]) <= spec_task_key(
            c,
            #[trigger] s[j],
        )
}

/// Inserts a task into a run: after every task whose key is not larger,
/// before the first whose key is larger. On a sorted run this keeps it
/// sorted and keeps earlier tasks of the same key in front.
pub open spec fn spec_insert(c: SortCriterion, s: Seq<TaskView>, t: TaskView) -> Seq<TaskView>
    decreases s.len(),
{
    if s.len() == 0 {
        seq![t]
    } else if spec_task_key(c, s[0]) <= spec_task_key(c, t) {
        seq![s[0]] + spec_insert(c, s.drop_first(), t)
    } else {
        seq![t] + s
    }
}

/// Insertion sort of a task run: the stable ascending reordering.
pub open spec fn spec_sort(c: SortCriterion, s: Seq<TaskView>) -> Seq<TaskView>
    decreases s.len(),
{
    if s.len() == 0 {
        Seq::empty()
    } else {
        spec_insert(c, spec_sort(c, s.drop_last()), s.last())
    }
}

/// When every task before position `j` has a key at most `t`'s and every
/// task from `j` on has a larger key, inserting lands exactly at `j`.
proof fn lemma_insert_at(c: SortCriterion, s: Seq<TaskView>, t: TaskView, j: int)
    requires
        0 <= j <= s.len(),
        forall|i: int| 0 <= i < j ==> spec_task_key(c, #[trigger] s[i]) <= spec_task_key(c, t),
        forall|i: int| j <= i < s.len() ==> spec_task_key(c, #[trigger] s[i]) > spec_task_key(c, t),
    ensures
        spec_insert(c, s, t) == s.insert(j, t),
    decreases s.len(),
{
    if s.len() == 0 {
        assert(spec_insert(c, s, t) =~= s.insert(j, t));
    } else if j == 0 {
        assert(spec_insert(c, s, t) =~= s.insert(0, t));
    } else {
        lemma_insert_at(c, s.drop_first(), t, j - 1);
        assert(seq![s[0]] + s.drop_first().insert(j - 1, t) =~= s.insert(j, t));
    }
}

/// Inserting into a sorted run gives a sorted run.
proof fn lemma_insert_sorted(c: SortCriterion, s: Seq<TaskView>, t: TaskView)
    requires
        spec_sorted(c, s),
    ensures
        spec_sorted(c, spec_insert(c, s, t)),
    decreases s.len(),
{
    if s.len() == 0 {
    } else if spec_task_key(c, s[0]) <= spec_task_key(c, t) {
        assert(spec_sorted(c, s.drop_first()));
        lemma_insert_sorted(c, s.drop_first(), t);
        let r = seq![s[0]] + spec_insert(c, s.drop_first(), t);
        assert forall|i: int, j: int|
            0 <= i < j < r.len() implies spec_task_key(c, #[trigger] r[i]) <= spec_task_key(
            c,
            #[trigger] r[j],
        ) by {
            lemma_insert_contains(c, s.drop_first(), t, j - 1);
            if i > 0 {
                lemma_insert_contains(c, s.drop_first(), t, i - 1);
            }
        }
    } else {
    }
}

/// Every task of an inserted run is the inserted task or one of the run.
proof fn lemma_insert_contains(c: SortCriterion, s: Seq<TaskView>, t: TaskView, i: int)
    requires
        0 <= i < spec_insert(c, s, t).len(),
    ensures
        spec_insert(c, s, t)[i] == t || (exists|k: int|
            0 <= k < s.len() && #[trigger] s[k] == spec_insert(c, s, t)[i]),
    decreases s.len(),
{
    if s.len() == 0 {
    } else if spec_task_key(c, s[0]) <= spec_task_key(c, t) {
        if i > 0 {
            lemma_insert_contains(c, s.drop_first(), t, i - 1);
            if spec_insert(c, s, t)[i] != t {
                let k = choose|k: int|
                    0 <= k < s.drop_first().len() && #[trigger] s.drop_first()[k] == spec_insert(
                        c,
                        s.drop_first(),
                        t,
                    )[i - 1];
                assert(s[k + 1] == spec_insert(c, s, t)[i]);
            }
        } else {
            assert(s[0] == spec_insert(c, s, t)[0]);
        }
    } else {
        if i > 0 {
            assert(s[i - 1] == spec_insert(c, s, t)[i]);
        }
    }
}

/// Inserting adds exactly the inserted task to the run's contents.
proof fn lemma_insert_multiset(c: SortCriterion, s: Seq<TaskView>, t: TaskView)
    ensures
        spec_insert(c, s, t).to_multiset() =~= s.to_multiset().insert(t),
        spec_insert(c, s, t).len() == s.len() + 1,
    decreases s.len(),
{
    broadcast use group_to_multiset_ensures;

    if s.len() == 0 {
        assert(spec_insert(c, s, t) =~= Seq::<TaskView>::empty().push(t));
        assert(s.to_multiset() =~= Multiset::<TaskView>::empty());
    } else if spec_task_key(c, s[0]) <= spec_task_key(c, t) {
        lemma_insert_multiset(c, s.drop_first(), t);
        let inner = spec_insert(c, s.drop_first(), t);
        assert(seq![s[0]] + inner =~= inner.insert(0, s[0]));
        broadcast use to_multiset_insert;

        assert((seq![s[0]] + inner).to_multiset() =~= inner.to_multiset().insert(s[0]));
        assert(s =~= s.drop_first().insert(0, s[0]));
        assert(s.to_multiset() =~= s.drop_first().to_multiset().insert(s[0]));
    } else {
        assert(seq![t] + s =~= s.insert(0, t));
        broadcast use to_multiset_insert;

        assert((seq![t] + s).to_multiset() =~= s.to_multiset().insert(t));
    }
}

/// The sorted run is ascending in the chosen key.
pub proof fn lemma_sort_sorted(c: SortCriterion, s: Seq<TaskView>)
    ensures
        spec_sorted(c, spec_sort(c, s)),
    decreases s.len(),
{
    if s.len() > 0 {
        lemma_sort_sorted(c, s.drop_last());
        lemma_insert_sorted(c, spec_sort(c, s.drop_last()), s.last());
    }
}

/// Sorting is a permutation: the same tasks, with multiplicity, and the
/// same length.
pub proof fn lemma_sort_permutes(c: SortCriterion, s: Seq<TaskView>)
    ensures
        spec_sort(c, s).to_multiset() =~= s.to_multiset(),
        spec_sort(c, s).len() == s.len(),
    decreases s.len(),
{
    broadcast use group_to_multiset_ensures;

    if s.len() == 0 {
    } else {
        lemma_sort_permutes(c, s.drop_last());
        lemma_insert_multiset(c, spec_sort(c, s.drop_last()), s.last());
        assert(s =~= s.drop_last().push(s.last()));
        assert(s.to_multiset() =~= s.drop_last().to_multiset().insert(s.last()));
    }
}

/// The tasks of one key, in their order of appearance.
pub open spec fn key_group(c: SortCriterion, s: Seq<TaskView>, k: int) -> Seq<TaskView> {
    s.filter(|t: TaskView| spec_task_key(c, t) == k)
}

/// A one-task run filters to that task or to nothing.
proof fn lemma_filter_singleton(t: TaskView, pred: spec_fn(TaskView) -> bool)
    ensures
        seq![t].filter(pred) == if pred(t) {
            seq![t]
        } else {
            Seq::<TaskView>::empty()
        },
{
    reveal(Seq::filter);
    assert(seq![t].drop_last() =~= Seq::<TaskView>::empty());
    assert(seq![t].drop_last().filter(pred) == seq![t].drop_last());
    assert(seq![t].last() == t);
    if pred(t) {
        assert(seq![t].drop_last().push(t) =~= seq![t]);
    } else {
        assert(seq![t].filter(pred) =~= Seq::<TaskView>::empty());
    }
}

/// A run none of whose tasks satisfies the test filters to nothing.
proof fn lemma_filter_none(s: Seq<TaskView>, pred: spec_fn(TaskView) -> bool)
    requires
        forall|i: int| 0 <= i < s.len() ==> !pred(#[trigger] s[i]),
    ensures
        s.filter(pred) == Seq::<TaskView>::empty(),
    decreases s.len(),
{
    reveal(Seq::filter);
    if s.len() > 0 {
        lemma_filter_none(s.drop_last(), pred);
    }
}

/// Inserting a task appends it to its own key group and leaves every
/// other key group as it was.
proof fn lemma_insert_stable(c: SortCriterion, s: Seq<TaskView>, t: TaskView, k: int)
    requires
        spec_sorted(c, s),
    ensures
        key_group(c, spec_insert(c, s, t), k) == if spec_task_key(c, t) == k {
            key_group(c, s, k).push(t)
        } else {
            key_group(c, s, k)
        },
    decreases s.len(),
{
    broadcast use vstd::seq_lib::group_filter_ensures;

    let pred = |x: TaskView| spec_task_key(c, x) == k;
    lemma_filter_singleton(t, pred);
    if s.len() == 0 {
        reveal(Seq::filter);
        assert(Seq::<TaskView>::empty().filter(pred) =~= Seq::<TaskView>::empty());
        assert(key_group(c, spec_insert(c, s, t), k) =~= seq![t].filter(pred));
        assert(s.filter(pred) =~= Seq::<TaskView>::empty().filter(pred));
    } else if spec_task_key(c, s[0]) <= spec_task_key(c, t) {
        assert(spec_sorted(c, s.drop_first()));
        lemma_insert_stable(c, s.drop_first(), t, k);
        lemma_filter_singleton(s[0], pred);
        let inner = spec_insert(c, s.drop_first(), t);
        Seq::filter_distributes_over_add(seq![s[0]], inner, pred);
        assert(s =~= seq![s[0]] + s.drop_first());
        Seq::filter_distributes_over_add(seq![s[0]], s.drop_first(), pred);
        if spec_task_key(c, t) == k {
            assert(seq![s[0]].filter(pred) + s.drop_first().filter(pred).push(t) =~= (seq![
                s[0],
            ].filter(pred) + s.drop_first().filter(pred)).push(t));
        }
    } else {
        let pred = |x: TaskView| spec_task_key(c, x) == k;
        Seq::filter_distributes_over_add(seq![t], s, pred);
        if spec_task_key(c, t) == k {
            assert forall|i: int| 0 <= i < s.len() implies !pred(#[trigger] s[i]) by {
                assert(spec_task_key(c, s[0]) <= spec_task_key(c, s[i]));
            }
            lemma_filter_none(s, pred);
            assert(seq![t] + Seq::<TaskView>::empty() =~= Seq::<TaskView>::empty().push(t));
            assert(s.filter(pred) =~= Seq::<TaskView>::empty());
        } else {
            assert(seq![t].filter(pred) + s.filter(pred) =~= s.filter(pred));
        }
    }
}

/// Sorting is stable: for every key, the tasks of that key stand in the
/// sorted run exactly in their stored order.
pub proof fn lemma_sort_stable(c: SortCriterion, s: Seq<TaskView>, k: int)
    ensures
        key_group(c, spec_sort(c, s), k) == key_group(c, s, k),
    decreases s.len(),
{
    let pred = |x: TaskView| spec_task_key(c, x) == k;
    if s.len() == 0 {
        reveal(Seq::filter);
        assert(spec_sort(c, s) =~= s);
    } else {
        lemma_sort_stable(c, s.drop_last(), k);
        lemma_sort_sorted(c, s.drop_last());
        lemma_insert_stable(c, spec_sort(c, s.drop_last()), s.last(), k);
        lemma_filter_singleton(s.last(), pred);
        assert(s =~= s.drop_last() + seq![s.last()]);
        Seq::filter_distributes_over_add(s.drop_last(), seq![s.last()], pred);
        if pred(s.last()) {
            assert(s.drop_last().filter(pred) + seq![s.last()] =~= s.drop_last().filter(
                pred,
            ).push(s.last()));
        } else {
            assert(s.drop_last().filter(pred) + Seq::<TaskView>::empty() =~= s.drop_last().filter(
                pred,
            ));
        }
    }
}

/// Computes a task's sort key.
fn task_key_exec(c: SortCriterion, t: &Task) -> (r: u64)
    requires
        t@.wf(),
    ensures
        r == spec_task_key(c, t@),
{
    match c {
        SortCriterion::ByPriority => t.priority.get_numerical() as u64,
        SortCriterion::ByDueDate => {
            match &t.due_date {
                None => 0,
                Some(d) => {
                    proof {
                        lemma_date_key_bound(*d);
                    }
                    1 + date_key_exec(d)
                },
            }
        },
    }
}

/// Sorts a snapshot of the tasks by the chosen key, stably and
/// ascending; the result is exactly the insertion sort of the input.
pub fn sort_tasks(tasks: &Vec<Task>, c: SortCriterion) -> (r: Vec<Task>)
    requires
        forall|i: int| 0 <= i < tasks@.len() ==> (#[trigger] tasks@[i])@.wf(),
    ensures
        r.deep_view() == spec_sort(c, tasks.deep_view()),
        r@.len() == tasks@.len(),
        forall|i: int| 0 <= i < r@.len() ==> (#[trigger] r@[i])@.wf(),
{
    let ghost all = tasks.deep_view();
    let mut out: Vec<Task> = Vec::new();
    let mut idx: usize = 0;
    proof {
        assert(out.deep_view() =~= spec_sort(c, all.subrange(0, 0)));
    }
    while idx < tasks.len()
        invariant
            forall|i: int| 0 <= i < tasks@.len() ==> (#[trigger] tasks@[i])@.wf(),
            all == tasks.deep_view(),
            idx <= tasks@.len(),
            out@.len() == idx,
            out.deep_view() == spec_sort(c, all.subrange(0, idx as int)),
            forall|i: int| 0 <= i < out@.len() ==> (#[trigger] out@[i])@.wf(),
        decreases tasks@.len() - idx,
    {
        let t = tasks[idx].clone();
        let key_t = task_key_exec(c, &t);
        proof {
            lemma_sort_sorted(c, all.subrange(0, idx as int));
        }
        let mut j: usize = out.len();
        while j > 0 && task_key_exec(c, &out[j - 1]) > key_t
            invariant
                j <= out@.len(),
                forall|i: int| 0 <= i < out@.len() ==> (#[trigger] out@[i])@.wf(),
                t@.wf(),
                key_t == spec_task_key(c, t@),
                spec_sorted(c, out.deep_view()),
                forall|i: int|
                    j <= i < out@.len() ==> spec_task_key(c, (#[trigger] out@[i])@) > key_t,
            decreases j,
        {
            j = j - 1;
        }
        proof {
            assert forall|i: int| 0 <= i < j implies spec_task_key(
                c,
                (#[trigger] out@[i])@,
            ) <= key_t by {
                assert(spec_task_key(c, out.deep_view()[j - 1]) <= key_t);
                assert(spec_task_key(c, out.deep_view()[i]) <= spec_task_key(
                    c,
                    out.deep_view()[j - 1],
                ));
            }
            lemma_insert_at(c, out.deep_view(), t@, j as int);
        }
        let ghost before = out.deep_view();
        out.insert(j, t);
        proof {
            assert(out.deep_view() =~= before.insert(j as int, t@));
            assert(out.deep_view() =~= spec_insert(c, before, t@));
            assert(all.subrange(0, idx + 1 as int).drop_last() =~= all.subrange(0, idx as int));
            assert(out.deep_view() =~= spec_sort(c, all.subrange(0, idx + 1 as int)));
        }
        idx = idx + 1;
    }
    proof {
        assert(all.subrange(0, all.len() as int) =~= all);
    }
    out
}

} // verus!
