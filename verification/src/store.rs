use vstd::prelude::*;

use crate::date::{Date, DateView, due_le, due_lt, due_lt_x};
use crate::task::{Task, TaskView};
use crate::text::{chars_of, contains_chars, has_substring, lower_of, lowercase};
use crate::TodoError;

verus! {

// ---------------------------------------------------------------------------
// Ordering tasks by due date
// ---------------------------------------------------------------------------

/// Stable insertion of a task into a sequence: it goes in front of the first
/// task that is not strictly earlier, so it lands before any task of equal key.
pub open spec fn insert_by_due(x: TaskView, s: Seq<TaskView>) -> Seq<TaskView>
    decreases s.len(),
{
    if s.len() == 0 {
        seq![x]
    } else if due_lt(s[0].due, x.due) {
        seq![s[0]] + insert_by_due(x, s.drop_first())
    } else {
        seq![x] + s
    }
}

/// Stable sort of the whole sequence by due date.
pub open spec fn sort_by_due(s: Seq<TaskView>) -> Seq<TaskView>
    decreases s.len(),
{
    if s.len() == 0 {
        Seq::empty()
    } else {
        insert_by_due(s[0], sort_by_due(s.drop_first()))
    }
}

pub open spec fn sorted_by_due(s: Seq<TaskView>) -> bool {
    forall|i: int, j: int|
        0 <= i < j < s.len() ==> due_le(#[trigger] s[i].due, #[trigger] s[j].due)
}

/// Selects the tasks whose due date is exactly `k`.
pub open spec fn with_due(k: Option<DateView>) -> spec_fn(TaskView) -> bool {
    |t: TaskView| t.due == k
}

proof fn lemma_insert_len(x: TaskView, s: Seq<TaskView>)
    ensures
        insert_by_due(x, s).len() == s.len() + 1,
    decreases s.len(),
{
    if s.len() > 0 && due_lt(s[0].due, x.due) {
        lemma_insert_len(x, s.drop_first());
    }
}

/// Every element of `insert_by_due(x, s)` is bounded below by `b` when `x`
/// and every element of `s` are.
proof fn lemma_insert_lower(x: TaskView, s: Seq<TaskView>, b: Option<DateView>)
    requires
        due_le(b, x.due),
        forall|i: int| 0 <= i < s.len() ==> due_le(b, #[trigger] s[i].due),
    ensures
        forall|i: int|
            0 <= i < insert_by_due(x, s).len() ==> due_le(b, #[trigger] insert_by_due(x, s)[i].due),
    decreases s.len(),
{
    if s.len() > 0 && due_lt(s[0].due, x.due) {
        assert(forall|i: int|
            0 <= i < s.drop_first().len() ==> due_le(b, #[trigger] s.drop_first()[i].due));
        lemma_insert_lower(x, s.drop_first(), b);
    }
}

proof fn lemma_insert_sorted(x: TaskView, s: Seq<TaskView>)
    requires
        sorted_by_due(s),
    ensures
        sorted_by_due(insert_by_due(x, s)),
    decreases s.len(),
{
    if s.len() == 0 {
    } else if due_lt(s[0].due, x.due) {
        let rest = s.drop_first();
        assert(sorted_by_due(rest));
        lemma_insert_sorted(x, rest);
        assert(forall|i: int| 0 <= i < rest.len() ==> due_le(s[0].due, #[trigger] rest[i].due));
        lemma_insert_lower(x, rest, s[0].due);
        let r = insert_by_due(x, s);
        assert(forall|i: int, j: int|
            0 <= i < j < r.len() ==> due_le(#[trigger] r[i].due, #[trigger] r[j].due)) by {
            assert(forall|j: int|
                1 <= j < r.len() ==> r[j] == #[trigger] insert_by_due(x, rest)[j - 1]);
        }
    } else {
        let r = seq![x] + s;
        assert(forall|j: int| 1 <= j < r.len() ==> due_le(x.due, #[trigger] r[j].due)) by {
            assert(forall|j: int| 1 <= j < r.len() ==> #[trigger] r[j] == s[j - 1]);
        }
    }
}

proof fn lemma_insert_multiset(x: TaskView, s: Seq<TaskView>)
    ensures
        insert_by_due(x, s).to_multiset() == s.to_multiset().insert(x),
    decreases s.len(),
{
    broadcast use vstd::seq_lib::group_to_multiset_ensures;
    broadcast use vstd::seq_lib::lemma_multiset_commutative;

    if s.len() == 0 {
        assert(seq![x] =~= Seq::<TaskView>::empty().push(x));
        assert(insert_by_due(x, s).to_multiset() =~= s.to_multiset().insert(x));
    } else if due_lt(s[0].due, x.due) {
        let rest = s.drop_first();
        lemma_insert_multiset(x, rest);
        assert(seq![s[0]] =~= Seq::<TaskView>::empty().push(s[0]));
        assert(s =~= seq![s[0]] + rest);
        assert((seq![s[0]] + insert_by_due(x, rest)).to_multiset() =~= s.to_multiset().insert(x));
    } else {
        assert(seq![x] =~= Seq::<TaskView>::empty().push(x));
        assert((seq![x] + s).to_multiset() =~= s.to_multiset().insert(x));
    }
}

/// Inserting at the first position whose element is not strictly earlier is
/// exactly what `insert_by_due` does.
proof fn lemma_insert_at(x: TaskView, s: Seq<TaskView>, p: int)
    requires
        0 <= p <= s.len(),
        forall|j: int| 0 <= j < p ==> due_lt(#[trigger] s[j].due, x.due),
        p < s.len() ==> !due_lt(s[p].due, x.due),
    ensures
        insert_by_due(x, s) == s.subrange(0, p) + seq![x] + s.subrange(p, s.len() as int),
    decreases s.len(),
{
    if p == 0 {
        if s.len() == 0 {
            assert(insert_by_due(x, s) =~= s.subrange(0, 0) + seq![x] + s.subrange(0, 0));
        } else {
            assert(insert_by_due(x, s) =~= s.subrange(0, 0) + seq![x] + s.subrange(0, s.len() as int));
        }
    } else {
        let rest = s.drop_first();
        assert(due_lt(s[0].due, x.due));
        assert(forall|j: int| 0 <= j < p - 1 ==> due_lt(#[trigger] rest[j].due, x.due));
        lemma_insert_at(x, rest, p - 1);
        assert(seq![s[0]] + (rest.subrange(0, p - 1) + seq![x] + rest.subrange(p - 1, rest.len() as int))
            =~= s.subrange(0, p) + seq![x] + s.subrange(p, s.len() as int));
    }
}

proof fn lemma_insert_filter(x: TaskView, s: Seq<TaskView>, k: Option<DateView>)
    ensures
        insert_by_due(x, s).filter(with_due(k)) == if x.due == k {
            seq![x] + s.filter(with_due(k))
        } else {
            s.filter(with_due(k))
        },
    decreases s.len(),
{
    broadcast use Seq::filter_distributes_over_add;

    let p = with_due(k);
    reveal_with_fuel(Seq::filter, 2);
    assert(seq![x].filter(p) =~= if x.due == k { seq![x] } else { Seq::<TaskView>::empty() }) by {
        assert(seq![x].drop_last() =~= Seq::<TaskView>::empty());
    }
    if s.len() == 0 {
        assert(insert_by_due(x, s).filter(p) =~= seq![x].filter(p));
    } else if due_lt(s[0].due, x.due) {
        let rest = s.drop_first();
        lemma_insert_filter(x, rest, k);
        assert(seq![s[0]].filter(p) =~= if s[0].due == k { seq![s[0]] } else { Seq::<TaskView>::empty() }) by {
            assert(seq![s[0]].drop_last() =~= Seq::<TaskView>::empty());
        }
        assert(s =~= seq![s[0]] + rest);
        if x.due == k {
            assert(s[0].due != k);
            assert((seq![s[0]] + insert_by_due(x, rest)).filter(p) =~= seq![x] + s.filter(p));
        } else {
            assert((seq![s[0]] + insert_by_due(x, rest)).filter(p) =~= s.filter(p));
        }
    } else {
        assert((seq![x] + s).filter(p) =~= seq![x].filter(p) + s.filter(p));
    }
}

/// The sorted order is ascending by due date; in particular every task with
/// no due date stands before every dated task.
pub proof fn lemma_sort_orders(s: Seq<TaskView>)
    ensures
        sorted_by_due(sort_by_due(s)),
        forall|i: int, j: int|
            0 <= i < j < sort_by_due(s).len() && (#[trigger] sort_by_due(s)[i]).due is Some
                ==> (#[trigger] sort_by_due(s)[j]).due is Some,
    decreases s.len(),
{
    if s.len() > 0 {
        lemma_sort_orders(s.drop_first());
        lemma_insert_sorted(s[0], sort_by_due(s.drop_first()));
    }
}

/// Sorting keeps exactly the same tasks, as a multiset.
pub proof fn lemma_sort_multiset(s: Seq<TaskView>)
    ensures
        sort_by_due(s).to_multiset() == s.to_multiset(),
        sort_by_due(s).len() == s.len(),
    decreases s.len(),
{
    broadcast use vstd::seq_lib::group_to_multiset_ensures;

    if s.len() == 0 {
        assert(sort_by_due(s).to_multiset() =~= s.to_multiset());
    } else {
        let rest = s.drop_first();
        lemma_sort_multiset(rest);
        lemma_insert_multiset(s[0], sort_by_due(rest));
        lemma_insert_len(s[0], sort_by_due(rest));
        assert(s =~= seq![s[0]] + rest);
        assert(seq![s[0]] =~= Seq::<TaskView>::empty().push(s[0]));
        vstd::seq_lib::lemma_multiset_commutative(seq![s[0]], rest);
        assert(sort_by_due(s).to_multiset() =~= s.to_multiset());
    }
}

/// Sorting is stable: the tasks that share any one due date keep their
/// relative order from before the sort.
pub proof fn lemma_sort_stable(s: Seq<TaskView>, k: Option<DateView>)
    ensures
        sort_by_due(s).filter(with_due(k)) == s.filter(with_due(k)),
    decreases s.len(),
{
    broadcast use Seq::filter_distributes_over_add;

    let p = with_due(k);
    if s.len() == 0 {
    } else {
        let rest = s.drop_first();
        lemma_sort_stable(rest, k);
        lemma_insert_filter(s[0], sort_by_due(rest), k);
        reveal_with_fuel(Seq::filter, 2);
        assert(seq![s[0]].filter(p) =~= if s[0].due == k { seq![s[0]] } else { Seq::<TaskView>::empty() }) by {
            assert(seq![s[0]].drop_last() =~= Seq::<TaskView>::empty());
        }
        assert(s =~= seq![s[0]] + rest);
        assert(s.filter(p) =~= seq![s[0]].filter(p) + rest.filter(p));
        if s[0].due == k {
            assert(sort_by_due(s).filter(p) =~= seq![s[0]] + rest.filter(p));
            assert(s.filter(p) =~= seq![s[0]] + rest.filter(p));
        }
    }
}

proof fn lemma_sort_of_sorted(s: Seq<TaskView>)
    requires
        sorted_by_due(s),
    ensures
        sort_by_due(s) == s,
    decreases s.len(),
{
    if s.len() > 0 {
        let rest = s.drop_first();
        assert(sorted_by_due(rest));
        lemma_sort_of_sorted(rest);
        if rest.len() == 0 {
            assert(insert_by_due(s[0], rest) =~= s);
        } else {
            assert(due_le(s[0].due, rest[0].due));
            assert(insert_by_due(s[0], rest) =~= seq![s[0]] + rest);
            assert(seq![s[0]] + rest =~= s);
        }
    }
}

/// Sorting twice gives the same order as sorting once.
pub proof fn lemma_sort_idempotent(s: Seq<TaskView>)
    ensures
        sort_by_due(sort_by_due(s)) == sort_by_due(s),
{
    lemma_sort_orders(s);
    lemma_sort_of_sorted(sort_by_due(s));
}

// ---------------------------------------------------------------------------
// Keyword search
// ---------------------------------------------------------------------------

/// Case-insensitive substring match of the keyword in the description.
pub open spec fn task_matches(t: TaskView, kw: Seq<char>) -> bool {
    has_substring(lower_of(t.description), lower_of(kw))
}

// ---------------------------------------------------------------------------
// Adding in sequence
// ---------------------------------------------------------------------------

/// What `add` appends for a given description and due date.
pub open spec fn fresh_task(d: Seq<char>, due: Option<DateView>) -> TaskView {
    TaskView { description: d, completed: false, due }
}

/// The store after a whole sequence of `add` calls.
pub open spec fn after_adds(
    s: Seq<TaskView>,
    items: Seq<(Seq<char>, Option<DateView>)>,
) -> Seq<TaskView>
    decreases items.len(),
{
    if items.len() == 0 {
        s
    } else {
        after_adds(s.push(fresh_task(items[0].0, items[0].1)), items.drop_first())
    }
}

/// Any sequence of `add` calls lands in the store in exactly the order added,
/// each task uncompleted and carrying the due date it was given.
pub proof fn lemma_adds_in_order(s: Seq<TaskView>, items: Seq<(Seq<char>, Option<DateView>)>)
    ensures
        after_adds(s, items).len() == s.len() + items.len(),
        forall|i: int| 0 <= i < s.len() ==> after_adds(s, items)[i] == s[i],
        forall|i: int|
            0 <= i < items.len() ==> after_adds(s, items)[s.len() + i] == fresh_task(
                (#[trigger] items[i]).0,
                items[i].1,
            ),
    decreases items.len(),
{
    if items.len() > 0 {
        let s2 = s.push(fresh_task(items[0].0, items[0].1));
        let rest = items.drop_first();
        lemma_adds_in_order(s2, rest);
        assert(after_adds(s, items) == after_adds(s2, rest));
        assert(forall|i: int| 0 <= i < rest.len() ==> #[trigger] rest[i] == items[i + 1]);
        assert forall|i: int| 0 <= i < s.len() implies after_adds(s, items)[i] == s[i] by {
            assert(after_adds(s2, rest)[i] == s2[i]);
            assert(s2[i] == s[i]);
        }
        assert forall|i: int| 0 <= i < items.len() implies after_adds(s, items)[s.len() + i]
            == fresh_task((#[trigger] items[i]).0, items[i].1) by {
            if i == 0 {
                assert(after_adds(s2, rest)[s.len() as int] == s2[s.len() as int]);
            } else {
                assert(after_adds(s2, rest)[s2.len() + (i - 1)] == fresh_task(rest[i - 1].0, rest[i - 1].1));
            }
        }
    }
}

// ---------------------------------------------------------------------------
// The store
// ---------------------------------------------------------------------------

/// The ordered in-memory sequence of tasks for one run of the program.
pub struct TaskStore {
    tasks: Vec<Task>,
}

impl View for TaskStore {
    type V = Seq<TaskView>;

    closed spec fn view(&self) -> Seq<TaskView> {
        self.tasks.deep_view()
    }
}

impl TaskStore {
    pub fn new() -> (r: TaskStore)
        ensures
            r@ == Seq::<TaskView>::empty(),
    {
        let r = TaskStore { tasks: Vec::new() };
        assert(r@ =~= Seq::<TaskView>::empty());
        r
    }

    /// Adopts a loaded task list as the store's contents.
    pub fn from_tasks(tasks: Vec<Task>) -> (r: TaskStore)
        ensures
            r@ == tasks.deep_view(),
    {
        TaskStore { tasks }
    }

    pub fn len(&self) -> (r: usize)
        ensures
            r == self@.len(),
    {
        self.tasks.len()
    }

    /// The tasks in store order, for saving.
    pub fn tasks(&self) -> (r: &Vec<Task>)
        ensures
            r.deep_view() == self@,
    {
        &self.tasks
    }

    /// Appends a new task; it starts uncompleted. Always succeeds.
    pub fn add(&mut self, description: String, due_date: Option<Date>)
        ensures
            final(self)@ == old(self)@.push(fresh_task(description@, due_date.deep_view())),
    {
        self.tasks.push(Task::new(description, due_date));
        assert(self@ =~= old(self)@.push(fresh_task(description@, due_date.deep_view())));
    }

    /// The (1-based display index, task) pairs in current store order.
    pub fn view_all(&self) -> (r: Vec<(usize, Task)>)
        ensures
            r@.len() == self@.len(),
            forall|j: int|
                0 <= j < r@.len() ==> (#[trigger] r@[j]).0 == j + 1 && r@[j].1@ == self@[j],
    {
        let mut r: Vec<(usize, Task)> = Vec::new();
        let n: usize = self.tasks.len();
        let mut i: usize = 0;
        while i < n
            invariant
                i <= n,
                n == self@.len(),
                n == self.tasks@.len(),
                r@.len() == i,
                forall|j: int|
                    0 <= j < i ==> (#[trigger] r@[j]).0 == j + 1 && r@[j].1@ == self@[j],
            decreases n - i,
        {
            let t = (&self.tasks[i]).clone();
            r.push((i + 1, t));
            i = i + 1;
        }
        r
    }

    /// Sets the completed flag of the task at the given 1-based index; every
    /// other task and the order are untouched. Fails with `NotFound` exactly
    /// when the index is outside `[1, len]`, and then changes nothing.
    pub fn mark_completed(&mut self, index: usize) -> (r: Result<(), TodoError>)
        ensures
            r is Ok <==> 1 <= index <= old(self)@.len(),
            r is Ok ==> final(self)@ == old(self)@.update(
                index - 1,
                (TaskView { completed: true, ..old(self)@[index - 1] }),
            ),
            r is Err ==> final(self)@ == old(self)@ && r == Err::<(), TodoError>(TodoError::NotFound),
    {
        if 1 <= index && index <= self.tasks.len() {
            let i: usize = index - 1;
            let mut t = self.tasks.remove(i);
            t.mark_completed();
            self.tasks.insert(i, t);
            assert(self@ =~= old(self)@.update(
                index - 1,
                (TaskView { completed: true, ..old(self)@[index - 1] }),
            ));
            Ok(())
        } else {
            Err(TodoError::NotFound)
        }
    }

    /// Removes the task at the given 1-based index; the tasks after it shift
    /// up by one and nothing else changes. Fails with `NotFound` exactly when
    /// the index is outside `[1, len]`, and then changes nothing.
    pub fn remove(&mut self, index: usize) -> (r: Result<(), TodoError>)
        ensures
            r is Ok <==> 1 <= index <= old(self)@.len(),
            r is Ok ==> final(self)@ == old(self)@.remove(index - 1),
            r is Err ==> final(self)@ == old(self)@ && r == Err::<(), TodoError>(TodoError::NotFound),
    {
        if 1 <= index && index <= self.tasks.len() {
            let i: usize = index - 1;
            self.tasks.remove(i);
            assert(self@ =~= old(self)@.remove(index - 1));
            Ok(())
        } else {
            Err(TodoError::NotFound)
        }
    }

    /// Reorders the whole store ascending by due date, permanently. Tasks
    /// with no due date come first; tasks with equal dates keep their
    /// relative order.
    pub fn sort_by_due_date(&mut self)
        ensures
            final(self)@ == sort_by_due(old(self)@),
    {
        let n: usize = self.tasks.len();
        let mut out: Vec<Task> = Vec::new();
        let mut i: usize = n;
        while i > 0
            invariant
                i <= n,
                n == self.tasks@.len(),
                self.tasks == old(self).tasks,
                out.deep_view() == sort_by_due(self.tasks.deep_view().subrange(i as int, n as int)),
            decreases i,
        {
            i = i - 1;
            let t = (&self.tasks[i]).clone();
            let ghost pre = self.tasks.deep_view().subrange(i as int, n as int);
            proof {
                assert(pre.drop_first() =~= self.tasks.deep_view().subrange(i + 1, n as int));
                assert(pre[0] == t@);
            }
            out = insert_sorted_vec(t, out);
        }
        proof {
            assert(self.tasks.deep_view().subrange(0, n as int) =~= self.tasks.deep_view());
        }
        self.tasks = out;
    }

    /// The (1-based index, task) pairs, in store order, whose description
    /// contains the keyword case-insensitively. An empty keyword matches
    /// every task.
    pub fn search(&self, keyword: &str) -> (r: Vec<(usize, Task)>)
        ensures
            forall|j: int|
                0 <= j < r@.len() ==> {
                    &&& 1 <= (#[trigger] r@[j]).0 <= self@.len()
                    &&& r@[j].1@ == self@[r@[j].0 - 1]
                    &&& task_matches(self@[r@[j].0 - 1], keyword@)
                },
            forall|i: int|
                0 <= i < self@.len() && task_matches(#[trigger] self@[i], keyword@)
                    ==> exists|j: int| 0 <= j < r@.len() && (#[trigger] r@[j]).0 == i + 1,
            forall|j1: int, j2: int|
                0 <= j1 < j2 < r@.len() ==> (#[trigger] r@[j1]).0 < (#[trigger] r@[j2]).0,
            keyword@.len() == 0 ==> r@.len() == self@.len() && (forall|j: int|
                0 <= j < r@.len() ==> (#[trigger] r@[j]).0 == j + 1 && r@[j].1@ == self@[j]),
    {
        let kw_low = lowercase(keyword);
        let kw_chars = chars_of(kw_low.as_str());
        let mut r: Vec<(usize, Task)> = Vec::new();
        let n: usize = self.tasks.len();
        let mut i: usize = 0;
        while i < n
            invariant
                i <= n,
                n == self@.len(),
                n == self.tasks@.len(),
                kw_chars@ == lower_of(keyword@),
                keyword@.len() == 0 ==> kw_chars@.len() == 0,
                forall|j: int|
                    0 <= j < r@.len() ==> {
                        &&& 1 <= (#[trigger] r@[j]).0 <= i
                        &&& r@[j].1@ == self@[r@[j].0 - 1]
                        &&& task_matches(self@[r@[j].0 - 1], keyword@)
                    },
                forall|i2: int|
                    0 <= i2 < i && task_matches(#[trigger] self@[i2], keyword@)
                        ==> exists|j: int| 0 <= j < r@.len() && (#[trigger] r@[j]).0 == i2 + 1,
                forall|j1: int, j2: int|
                    0 <= j1 < j2 < r@.len() ==> (#[trigger] r@[j1]).0 < (#[trigger] r@[j2]).0,
                keyword@.len() == 0 ==> r@.len() == i && (forall|j: int|
                    0 <= j < r@.len() ==> (#[trigger] r@[j]).0 == j + 1 && r@[j].1@ == self@[j]),
            decreases n - i,
        {
            let desc_low = lowercase((&self.tasks[i]).description.as_str());
            let desc_chars = chars_of(desc_low.as_str());
            proof {
                assert(desc_chars@ == lower_of(self@[i as int].description));
            }
            let ghost old_r = r@;
            if contains_chars(&desc_chars, &kw_chars) {
                let t = (&self.tasks[i]).clone();
                r.push((i + 1, t));
                proof {
                    assert(task_matches(self@[i as int], keyword@));
                    assert forall|i2: int|
                        0 <= i2 < i + 1 && task_matches(#[trigger] self@[i2], keyword@)
                            implies exists|j: int|
                            0 <= j < r@.len() && (#[trigger] r@[j]).0 == i2 + 1 by {
                        if i2 == i {
                            assert(r@[r@.len() - 1].0 == i2 + 1);
                        } else {
                            let j = choose|j: int|
                                0 <= j < old_r.len() && (#[trigger] old_r[j]).0 == i2 + 1;
                            assert(r@[j].0 == i2 + 1);
                        }
                    }
                }
            } else {
                proof {
                    if keyword@.len() == 0 {
                        assert(lower_of(keyword@).len() == 0);
                        assert(lower_of(self@[i as int].description).subrange(0, 0) =~= lower_of(keyword@));
                        assert(crate::text::substring_at(
                            lower_of(self@[i as int].description),
                            lower_of(keyword@),
                            0,
                        ));
                        assert(task_matches(self@[i as int], keyword@));
                        assert(has_substring(desc_chars@, kw_chars@));
                        assert(false);
                    }
                    assert(!task_matches(self@[i as int], keyword@));
                }
            }
            i = i + 1;
        }
        r
    }
}

/// Inserts a task into an already built prefix, in front of the first task
/// that is not strictly earlier by due date.
fn insert_sorted_vec(x: Task, v: Vec<Task>) -> (r: Vec<Task>)
    ensures
        r.deep_view() == insert_by_due(x@, v.deep_view()),
{
    let mut p: usize = 0;
    let mut go: bool = true;
    while go
        invariant
            p <= v@.len(),
            forall|j: int| 0 <= j < p ==> due_lt((#[trigger] v.deep_view()[j]).due, x@.due),
            !go ==> (p == v@.len() || !due_lt(v.deep_view()[p as int].due, x@.due)),
        decreases v@.len() - p + (if go { 1int } else { 0int }),
    {
        if p == v.len() {
            go = false;
        } else {
            let vp = &v[p];
            if due_lt_x(&vp.due_date, &x.due_date) {
                p = p + 1;
            } else {
                go = false;
            }
        }
    }
    proof {
        lemma_insert_at(x@, v.deep_view(), p as int);
    }
    let ghost old_v = v.deep_view();
    let mut r = v;
    r.insert(p, x);
    assert(r.deep_view() =~= old_v.subrange(0, p as int) + seq![x@] + old_v.subrange(
        p as int,
        old_v.len() as int,
    ));
    r
}

} // verus!
