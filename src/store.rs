//! The task store: the open and the completed records, merged into one
//! sequence with 1-based identifiers, its filtered and ordered views, and the
//! operations that change one record and split the records again by state.
use crate::date::{date_le, Date};
use crate::de::{contains_text, distinct, distinct_vec_hold_order, from_str, parse_line};
use crate::error::Error;
use crate::model::{texts, DescriptionView, Task, TaskDescription, TaskPriority, TaskState, TaskView};
use crate::ser::{task_text, to_string};
use crate::text::push_char;
use vstd::prelude::*;

verus! {

/// A record with its identifier, as a view.
pub type Entry = (int, TaskView);

pub open spec fn entries_view(v: Seq<(usize, Task)>) -> Seq<Entry> {
    v.map_values(|e: (usize, Task)| (e.0 as int, e.1@))
}

/// Conditions on the records to list; an absent one holds of every record.
#[derive(Debug, Clone)]
pub struct Filter {
    /// The record is in this state.
    pub state: Option<TaskState>,
    /// The record has a priority, and it is one of these.
    pub priority: Option<Vec<TaskPriority>>,
    /// The record has every one of these projects.
    pub project: Option<Vec<String>>,
    /// The record has every one of these contexts.
    pub context: Option<Vec<String>>,
}

pub struct FilterView {
    pub state: Option<TaskState>,
    pub priority: Option<Seq<TaskPriority>>,
    pub project: Option<Seq<Seq<char>>>,
    pub context: Option<Seq<Seq<char>>>,
}

impl View for Filter {
    type V = FilterView;

    open spec fn view(&self) -> FilterView {
        FilterView {
            state: self.state,
            priority: match self.priority {
                Some(v) => Some(v@),
                None => None,
            },
            project: match self.project {
                Some(v) => Some(texts(v@)),
                None => None,
            },
            context: match self.context {
                Some(v) => Some(texts(v@)),
                None => None,
            },
        }
    }
}

impl Default for Filter {
    fn default() -> (r: Filter)
        ensures
            r.state is None,
            r.priority is None,
            r.project is None,
            r.context is None,
    {
        Filter { state: None, priority: None, project: None, context: None }
    }
}

/// Every label of `wanted` is among `labels`.
pub open spec fn has_all(labels: Seq<Seq<char>>, wanted: Seq<Seq<char>>) -> bool {
    forall|i: int| 0 <= i < wanted.len() ==> labels.contains(#[trigger] wanted[i])
}

/// Whether a record passes all the conditions of a filter.
pub open spec fn matches(f: FilterView, t: TaskView) -> bool {
    &&& (f.state is None || t.state == f.state->0)
    &&& (f.priority is None || (t.priority is Some && f.priority->0.contains(t.priority->0)))
    &&& (f.project is None || has_all(t.description.project, f.project->0))
    &&& (f.context is None || has_all(t.description.context, f.context->0))
}

/// The entries that pass the filter, in order.
pub open spec fn select(s: Seq<Entry>, f: FilterView) -> Seq<Entry>
    decreases s.len(),
{
    if s.len() == 0 {
        s
    } else if matches(f, s.last().1) {
        select(s.drop_last(), f).push(s.last())
    } else {
        select(s.drop_last(), f)
    }
}

/// A key by which to order records.
#[derive(Debug, Clone, Copy, PartialEq, Eq, Structural)]
pub enum OrderOption {
    /// Open records first.
    State,
    /// No priority first, then `A` to `Z`.
    Priority,
    /// Latest completion date first, records without one last.
    CompletedDate,
    /// Latest creation date first, records without one last.
    CreatedDate,
}

/// How to order the listed records: by the keys, the first one the most
/// significant, then reversed if asked.
#[derive(Debug, Clone)]
pub struct Order {
    pub by: Option<Vec<OrderOption>>,
    pub reverse: bool,
}

pub struct OrderView {
    pub by: Option<Seq<OrderOption>>,
    pub reverse: bool,
}

impl View for Order {
    type V = OrderView;

    open spec fn view(&self) -> OrderView {
        OrderView {
            by: match self.by {
                Some(v) => Some(v@),
                None => None,
            },
            reverse: self.reverse,
        }
    }
}

impl Default for Order {
    fn default() -> (r: Order)
        ensures
            r.by is None,
            !r.reverse,
    {
        Order { by: None, reverse: false }
    }
}

/// The rank of a priority in ascending order, no priority lowest.
pub open spec fn priority_key(p: Option<TaskPriority>) -> int {
    match p {
        Some(p) => p.rank() + 1,
        None => 0,
    }
}

/// Order of optional dates, an absent date lowest.
pub open spec fn opt_date_le(a: Option<(int, int, int)>, b: Option<(int, int, int)>) -> bool {
    match (a, b) {
        (None, _) => true,
        (Some(_), None) => false,
        (Some(x), Some(y)) => date_le(x, y),
    }
}

/// Whether `a` may stand before `b` when ordering by `key`.
pub open spec fn ordered_by(a: TaskView, b: TaskView, key: OrderOption) -> bool {
    match key {
        OrderOption::State => !(a.state == TaskState::Done && b.state == TaskState::Todo),
        OrderOption::Priority => priority_key(a.priority) <= priority_key(b.priority),
        OrderOption::CompletedDate => opt_date_le(b.completed_date, a.completed_date),
        OrderOption::CreatedDate => opt_date_le(b.created_date, a.created_date),
    }
}

/// `x` put into the ordered `s` after every entry that may stand before it.
pub open spec fn insert_ordered(s: Seq<Entry>, x: Entry, key: OrderOption) -> Seq<Entry>
    decreases s.len(),
{
    if s.len() == 0 {
        seq![x]
    } else if ordered_by(s.last().1, x.1, key) {
        s.push(x)
    } else {
        insert_ordered(s.drop_last(), x, key).push(s.last())
    }
}

/// The stable sort of `s` by one key: entries that the key does not tell
/// apart keep their relative order.
pub open spec fn sort_by_key(s: Seq<Entry>, key: OrderOption) -> Seq<Entry>
    decreases s.len(),
{
    if s.len() == 0 {
        s
    } else {
        insert_ordered(sort_by_key(s.drop_last(), key), s.last(), key)
    }
}

/// Stable sorts by each key, the last key first, so that the first key is
/// the most significant.
pub open spec fn sort_by_keys(s: Seq<Entry>, keys: Seq<OrderOption>) -> Seq<Entry>
    decreases keys.len(),
{
    if keys.len() == 0 {
        s
    } else {
        sort_by_key(sort_by_keys(s, keys.drop_first()), keys[0])
    }
}

pub open spec fn reversed<A>(s: Seq<A>) -> Seq<A> {
    Seq::new(s.len(), |i: int| s[s.len() - 1 - i])
}

/// The entries in the order that `order` asks for.
pub open spec fn ordered(s: Seq<Entry>, order: OrderView) -> Seq<Entry> {
    match order.by {
        Some(keys) => if order.reverse {
            reversed(sort_by_keys(s, keys))
        } else {
            sort_by_keys(s, keys)
        },
        None => s,
    }
}

/// Whether `p` is among `v`.
fn contains_priority(v: &Vec<TaskPriority>, p: TaskPriority) -> (r: bool)
    ensures
        r == v@.contains(p),
{
    let mut j: usize = 0;
    while j < v.len()
        invariant
            j <= v@.len(),
            forall|k: int| 0 <= k < j ==> v@[k] != p,
        decreases v@.len() - j,
    {
        if v[j] == p {
            return true;
        }
        j = j + 1;
    }
    false
}

/// Whether every label of `wanted` is among `labels`.
fn contains_all(labels: &Vec<String>, wanted: &Vec<String>) -> (r: bool)
    ensures
        r == has_all(texts(labels@), texts(wanted@)),
{
    let mut j: usize = 0;
    while j < wanted.len()
        invariant
            j <= wanted@.len(),
            forall|k: int| 0 <= k < j ==> texts(labels@).contains(#[trigger] texts(wanted@)[k]),
        decreases wanted@.len() - j,
    {
        if !contains_text(labels, &wanted[j]) {
            assert(!texts(labels@).contains(texts(wanted@)[j as int]));
            return false;
        }
        j = j + 1;
    }
    true
}

/// Whether a record passes all the conditions of a filter.
pub fn task_matches(t: &Task, filter: &Filter) -> (r: bool)
    ensures
        r == matches(filter@, t@),
{
    let state_ok = match filter.state {
        Some(s) => t.state == s,
        None => true,
    };
    let priority_ok = match &filter.priority {
        Some(wanted) => match t.priority {
            Some(p) => contains_priority(wanted, p),
            None => false,
        },
        None => true,
    };
    let project_ok = match &filter.project {
        Some(wanted) => contains_all(&t.description.project, wanted),
        None => true,
    };
    let context_ok = match &filter.context {
        Some(wanted) => contains_all(&t.description.context, wanted),
        None => true,
    };
    state_ok && priority_ok && project_ok && context_ok
}

/// Whether `a` may stand before `b` when ordering by `key`.
pub fn is_ordered_by(a: &Task, b: &Task, key: OrderOption) -> (r: bool)
    ensures
        r == ordered_by(a@, b@, key),
{
    match key {
        OrderOption::State => !(a.state == TaskState::Done && b.state == TaskState::Todo),
        OrderOption::Priority => {
            let ka: u8 = match a.priority {
                Some(p) => p.rank_of() + 1,
                None => 0,
            };
            let kb: u8 = match b.priority {
                Some(p) => p.rank_of() + 1,
                None => 0,
            };
            ka <= kb
        },
        OrderOption::CompletedDate => opt_date_on_or_before(&b.completed_date, &a.completed_date),
        OrderOption::CreatedDate => opt_date_on_or_before(&b.created_date, &a.created_date),
    }
}

fn opt_date_on_or_before(a: &Option<Date>, b: &Option<Date>) -> (r: bool)
    ensures
        r == opt_date_le(crate::model::date_view(*a), crate::model::date_view(*b)),
{
    match (a, b) {
        (None, _) => true,
        (Some(_), None) => false,
        (Some(x), Some(y)) => x.is_on_or_before(y),
    }
}

/// The entries that pass the filter, in order.
pub fn filter_tasks(tasks: Vec<(usize, Task)>, filter: &Filter) -> (r: Vec<(usize, Task)>)
    ensures
        entries_view(r@) == select(entries_view(tasks@), filter@),
{
    let ghost s = entries_view(tasks@);
    let mut tasks = tasks;
    let mut kept: Vec<(usize, Task)> = Vec::new();
    let ghost mut i: int = 0;
    assert(s.take(0) =~= Seq::<Entry>::empty());
    assert(s.skip(0) =~= s);
    while tasks.len() > 0
        invariant
            0 <= i <= s.len(),
            entries_view(tasks@) == s.skip(i),
            entries_view(kept@) == select(s.take(i), filter@),
        decreases tasks@.len(),
    {
        let ghost before = tasks@;
        let e = tasks.remove(0);
        proof {
            assert(entries_view(before).len() == before.len());
            assert(s.skip(i)[0] == s[i]);
            assert(entries_view(before)[0] == (before[0].0 as int, before[0].1@));
            assert(s.take(i + 1).drop_last() =~= s.take(i));
            assert(s[i] == (e.0 as int, e.1@));
            assert forall|k: int| 0 <= k < tasks@.len() implies entries_view(tasks@)[k] == s.skip(
                i + 1,
            )[k] by {
                assert(tasks@[k] == before[k + 1]);
                assert(entries_view(before)[k + 1] == s.skip(i)[k + 1]);
            }
            assert(entries_view(tasks@) =~= s.skip(i + 1));
        }
        if task_matches(&e.1, filter) {
            let ghost before = kept@;
            kept.push(e);
            assert(entries_view(kept@) =~= entries_view(before).push(s[i]));
        }
        proof {
            i = i + 1;
        }
    }
    assert(s.take(i) =~= s);
    kept
}

/// Puts `x` into the ordered `sorted` after every entry that may stand before it.
fn insert_ordered_vec(sorted: &mut Vec<(usize, Task)>, x: (usize, Task), key: OrderOption)
    ensures
        entries_view(final(sorted)@) == insert_ordered(
            entries_view(old(sorted)@),
            (x.0 as int, x.1@),
            key,
        ),
{
    let ghost v = entries_view(sorted@);
    let ghost xv = (x.0 as int, x.1@);
    let mut j: usize = sorted.len();
    assert(v.take(j as int) =~= v);
    assert(v.skip(j as int) =~= Seq::<Entry>::empty());
    while j > 0 && !is_ordered_by(&sorted[j - 1].1, &x.1, key)
        invariant
            j <= sorted@.len(),
            v == entries_view(sorted@),
            xv == (x.0 as int, x.1@),
            insert_ordered(v, xv, key) == insert_ordered(v.take(j as int), xv, key) + v.skip(
                j as int,
            ),
        decreases j,
    {
        proof {
            let t = v.take(j as int);
            assert(t.drop_last() =~= v.take(j - 1));
            assert(t.last() == v[j - 1]);
            assert(v.skip(j - 1) =~= seq![v[j - 1]] + v.skip(j as int));
            assert(insert_ordered(t, xv, key) == insert_ordered(v.take(j - 1), xv, key).push(
                v[j - 1],
            ));
            assert(insert_ordered(v.take(j - 1), xv, key).push(v[j - 1]) + v.skip(j as int)
                =~= insert_ordered(v.take(j - 1), xv, key) + v.skip(j - 1));
        }
        j = j - 1;
    }
    proof {
        if j > 0 {
            assert(v.take(j as int).drop_last() =~= v.take(j - 1));
        }
        assert(insert_ordered(v.take(j as int), xv, key) =~= v.take(j as int).push(xv));
    }
    sorted.insert(j, x);
    assert(entries_view(sorted@) =~= v.take(j as int).push(xv) + v.skip(j as int));
}

/// The stable sort of the entries by one key.
fn sort_by_option(tasks: Vec<(usize, Task)>, key: OrderOption) -> (r: Vec<(usize, Task)>)
    ensures
        entries_view(r@) == sort_by_key(entries_view(tasks@), key),
{
    let ghost s = entries_view(tasks@);
    let mut tasks = tasks;
    let mut sorted: Vec<(usize, Task)> = Vec::new();
    let ghost mut i: int = 0;
    assert(s.take(0) =~= Seq::<Entry>::empty());
    assert(s.skip(0) =~= s);
    while tasks.len() > 0
        invariant
            0 <= i <= s.len(),
            entries_view(tasks@) == s.skip(i),
            entries_view(sorted@) == sort_by_key(s.take(i), key),
        decreases tasks@.len(),
    {
        let ghost before = tasks@;
        let e = tasks.remove(0);
        proof {
            assert(entries_view(before).len() == before.len());
            assert(s.skip(i)[0] == s[i]);
            assert(entries_view(before)[0] == (before[0].0 as int, before[0].1@));
            assert(s.take(i + 1).drop_last() =~= s.take(i));
            assert(s[i] == (e.0 as int, e.1@));
            assert forall|k: int| 0 <= k < tasks@.len() implies entries_view(tasks@)[k] == s.skip(
                i + 1,
            )[k] by {
                assert(tasks@[k] == before[k + 1]);
                assert(entries_view(before)[k + 1] == s.skip(i)[k + 1]);
            }
            assert(entries_view(tasks@) =~= s.skip(i + 1));
        }
        insert_ordered_vec(&mut sorted, e, key);
        proof {
            i = i + 1;
        }
    }
    assert(s.take(i) =~= s);
    sorted
}

/// The entries in reverse order.
fn reverse_entries(tasks: Vec<(usize, Task)>) -> (r: Vec<(usize, Task)>)
    ensures
        entries_view(r@) == reversed(entries_view(tasks@)),
{
    let ghost s = entries_view(tasks@);
    let mut tasks = tasks;
    let mut r: Vec<(usize, Task)> = Vec::new();
    while tasks.len() > 0
        invariant
            tasks@.len() <= s.len(),
            entries_view(tasks@) == s.take(tasks@.len() as int),
            entries_view(r@) == reversed(s).take(s.len() - tasks@.len()),
        decreases tasks@.len(),
    {
        let ghost n = tasks@.len();
        let ghost before = r@;
        let ghost before_tasks = tasks@;
        match tasks.pop() {
            Some(e) => {
                assert(entries_view(before_tasks)[n - 1] == (
                    before_tasks[n - 1].0 as int,
                    before_tasks[n - 1].1@,
                ));
                assert(s.take(n as int)[n - 1] == s[n - 1]);
                assert(s[n - 1] == (e.0 as int, e.1@));
                assert(reversed(s)[s.len() - n] == s[n - 1]);
                r.push(e);
                assert(entries_view(r@) =~= entries_view(before).push(s[n - 1]));
                assert(entries_view(r@) =~= reversed(s).take(s.len() - n + 1));
                assert(entries_view(tasks@) =~= s.take(n - 1));
            },
            None => {},
        }
    }
    assert(reversed(s).take(s.len() as int) =~= reversed(s));
    r
}

/// The entries in the order that `order` asks for: a stable sort by each
/// key, the last key first, then the reversal if asked.
pub fn sort_tasks(tasks: Vec<(usize, Task)>, order: &Order) -> (r: Vec<(usize, Task)>)
    ensures
        entries_view(r@) == ordered(entries_view(tasks@), order@),
{
    match &order.by {
        Some(keys) => {
            let ghost s = entries_view(tasks@);
            let mut tasks = tasks;
            let mut j: usize = keys.len();
            assert(keys@.skip(j as int) =~= Seq::<OrderOption>::empty());
            while j > 0
                invariant
                    j <= keys@.len(),
                    entries_view(tasks@) == sort_by_keys(s, keys@.skip(j as int)),
                decreases j,
            {
                assert(keys@.skip(j - 1).drop_first() =~= keys@.skip(j as int));
                assert(keys@.skip(j - 1)[0] == keys@[j - 1]);
                tasks = sort_by_option(tasks, keys[j - 1]);
                j = j - 1;
            }
            assert(keys@.skip(0) =~= keys@);
            if order.reverse {
                reverse_entries(tasks)
            } else {
                tasks
            }
        },
        None => tasks,
    }
}

pub open spec fn task_views(v: Seq<Task>) -> Seq<TaskView> {
    v.map_values(|t: Task| t@)
}

/// The records with 1-based identifiers by position.
pub open spec fn enumerated(s: Seq<TaskView>) -> Seq<Entry> {
    Seq::new(s.len(), |i: int| (i + 1, s[i]))
}

/// The open records of a sequence of entries, in order.
pub open spec fn open_part(s: Seq<Entry>) -> Seq<TaskView>
    decreases s.len(),
{
    if s.len() == 0 {
        Seq::empty()
    } else if s.last().1.state == TaskState::Todo {
        open_part(s.drop_last()).push(s.last().1)
    } else {
        open_part(s.drop_last())
    }
}

/// The completed records of a sequence of entries, in order.
pub open spec fn done_part(s: Seq<Entry>) -> Seq<TaskView>
    decreases s.len(),
{
    if s.len() == 0 {
        Seq::empty()
    } else if s.last().1.state == TaskState::Done {
        done_part(s.drop_last()).push(s.last().1)
    } else {
        done_part(s.drop_last())
    }
}

pub proof fn lemma_parts_len(s: Seq<Entry>)
    ensures
        open_part(s).len() + done_part(s).len() == s.len(),
    decreases s.len(),
{
    if s.len() > 0 {
        lemma_parts_len(s.drop_last());
    }
}

/// The contents of the two backing collections.
pub struct StoreView {
    pub todos: Seq<TaskView>,
    pub dones: Seq<TaskView>,
}

/// The records as stored: the open collection, then the completed one.
pub open spec fn all_tasks(m: StoreView) -> Seq<TaskView> {
    m.todos + m.dones
}

pub open spec fn count(m: StoreView) -> int {
    (m.todos.len() + m.dones.len()) as int
}

/// Whether `id` names a record: 1-based, at most the number of records.
pub open spec fn valid_id(m: StoreView, id: int) -> bool {
    1 <= id <= count(m)
}

/// The record that `id` names.
pub open spec fn record(m: StoreView, id: int) -> TaskView {
    all_tasks(m)[id - 1]
}

/// The collections split again by state from a sequence of entries.
pub open spec fn split_view(s: Seq<Entry>) -> StoreView {
    StoreView { todos: open_part(s), dones: done_part(s) }
}

/// The store after the record `id` is replaced by `t`.
pub open spec fn rewritten(m: StoreView, id: int, t: TaskView) -> StoreView {
    split_view(enumerated(all_tasks(m)).update(id - 1, (id, t)))
}

/// The store after the record `id` is removed.
pub open spec fn deleted(m: StoreView, id: int) -> StoreView {
    split_view(enumerated(all_tasks(m)).remove(id - 1))
}

/// The store after `t` is added to the collection of its state.
pub open spec fn added(m: StoreView, t: TaskView) -> StoreView {
    if t.state == TaskState::Todo {
        StoreView { todos: m.todos.push(t), dones: m.dones }
    } else {
        StoreView { todos: m.todos, dones: m.dones.push(t) }
    }
}

/// A new record with today as its creation date when it has none, and, when
/// completed, as its completion date when it has none.
pub open spec fn with_defaults(t: TaskView, today: (int, int, int)) -> TaskView {
    TaskView {
        state: t.state,
        priority: t.priority,
        completed_date: if t.state == TaskState::Done && t.completed_date is None {
            Some(today)
        } else {
            t.completed_date
        },
        created_date: if t.created_date is None {
            Some(today)
        } else {
            t.created_date
        },
        description: t.description,
    }
}

/// A record with more description text and tags: the text after a space,
/// when there is any, and the tags that it does not have yet.
pub open spec fn appended(t: TaskView, d: DescriptionView) -> TaskView {
    TaskView {
        state: t.state,
        priority: t.priority,
        completed_date: t.completed_date,
        created_date: t.created_date,
        description: DescriptionView {
            value: if d.value.len() == 0 {
                t.description.value
            } else {
                t.description.value + seq![' '] + d.value
            },
            project: distinct(t.description.project + d.project),
            context: distinct(t.description.context + d.context),
        },
    }
}

/// A record marked completed on `today`, or marked open again: then its
/// completion date is dropped and, if it had no creation date, becomes it.
pub open spec fn toggled(t: TaskView, done: bool, today: (int, int, int)) -> TaskView {
    if done {
        TaskView {
            state: TaskState::Done,
            priority: t.priority,
            completed_date: Some(today),
            created_date: t.created_date,
            description: t.description,
        }
    } else {
        TaskView {
            state: TaskState::Todo,
            priority: t.priority,
            completed_date: None,
            created_date: if t.created_date is None {
                t.completed_date
            } else {
                t.created_date
            },
            description: t.description,
        }
    }
}

pub open spec fn reprioritized(t: TaskView, priority: Option<TaskPriority>) -> TaskView {
    TaskView {
        state: t.state,
        priority,
        completed_date: t.completed_date,
        created_date: t.created_date,
        description: t.description,
    }
}

/// The two collections of records: open ones and completed ones.
pub struct TodoManager {
    pub todos: Vec<Task>,
    pub dones: Vec<Task>,
}

impl View for TodoManager {
    type V = StoreView;

    open spec fn view(&self) -> StoreView {
        StoreView { todos: task_views(self.todos@), dones: task_views(self.dones@) }
    }
}

impl TodoManager {
    pub fn new(todos: Vec<Task>, dones: Vec<Task>) -> (r: TodoManager)
        ensures
            r.todos == todos,
            r.dones == dones,
    {
        TodoManager { todos, dones }
    }

    /// The number of records fits in an identifier.
    pub open spec fn fits(&self) -> bool {
        self.todos@.len() + self.dones@.len() <= usize::MAX
    }

    /// Copies of all records, the open ones first, with their identifiers.
    fn enumerate_all(&self) -> (r: Vec<(usize, Task)>)
        requires
            self.fits(),
        ensures
            entries_view(r@) == enumerated(all_tasks(self@)),
    {
        let ghost all = all_tasks(self@);
        let mut r: Vec<(usize, Task)> = Vec::new();
        let mut i: usize = 0;
        let n1 = self.todos.len();
        while i < n1
            invariant
                i <= n1,
                n1 == self.todos@.len(),
                all == all_tasks(self@),
                entries_view(r@) == enumerated(all).take(i as int),
            decreases n1 - i,
        {
            let ghost before = r@;
            r.push((i + 1, self.todos[i].duplicate()));
            assert(entries_view(r@) =~= enumerated(all).take(i + 1)) by {
                assert(entries_view(r@) =~= entries_view(before).push((i + 1, self@.todos[i as int])));
            }
            i = i + 1;
        }
        let mut j: usize = 0;
        while j < self.dones.len()
            invariant
                j <= self.dones@.len(),
                n1 == self.todos@.len(),
                self.fits(),
                all == all_tasks(self@),
                entries_view(r@) == enumerated(all).take(n1 + j),
            decreases self.dones@.len() - j,
        {
            let ghost before = r@;
            r.push((n1 + j + 1, self.dones[j].duplicate()));
            assert(entries_view(r@) =~= enumerated(all).take(n1 + j + 1)) by {
                assert(all[n1 + j] == self@.dones[j as int]);
                assert(entries_view(r@) =~= entries_view(before).push(
                    (n1 + j + 1, self@.dones[j as int]),
                ));
            }
            j = j + 1;
        }
        assert(enumerated(all).take(n1 + j) =~= enumerated(all));
        r
    }

    /// The records that pass the filter, in the order asked for, each with
    /// the identifier given by its position among all records.
    pub fn list(&self, filter: Filter, order: Order) -> (r: Vec<(usize, Task)>)
        requires
            self.fits(),
        ensures
            entries_view(r@) == ordered(
                select(enumerated(all_tasks(self@)), filter@),
                order@,
            ),
    {
        let tasks = self.enumerate_all();
        sort_tasks(filter_tasks(tasks, &filter), &order)
    }

    /// Removes the entry at identifier `task_id` from an unfiltered,
    /// unordered sequence of entries.
    fn take_task_by_id(&self, task_id: usize, tasks: Vec<(usize, Task)>) -> (r: Result<
        ((usize, Task), Vec<(usize, Task)>),
        Error,
    >)
        ensures
            match r {
                Ok((taken, rest)) => 1 <= task_id <= tasks@.len() && taken == tasks@[task_id - 1]
                    && rest@ == tasks@.remove(task_id - 1),
                Err(e) => !(1 <= task_id <= tasks@.len()) && e is InvalidIndex,
            },
    {
        if task_id == 0 || task_id > tasks.len() {
            return Err(Error::InvalidIndex);
        }
        let mut tasks = tasks;
        let taken = tasks.remove(task_id - 1);
        Ok((taken, tasks))
    }

    /// Puts `task` back at identifier `task_id`.
    fn set_task_at(&self, task_id: usize, task: Task, tasks: Vec<(usize, Task)>) -> (r: Result<
        Vec<(usize, Task)>,
        Error,
    >)
        ensures
            match r {
                Ok(v) => 1 <= task_id <= tasks@.len() + 1 && v@ == tasks@.insert(
                    task_id - 1,
                    (task_id, task),
                ),
                Err(e) => !(1 <= task_id <= tasks@.len() + 1) && e is InvalidIndex,
            },
    {
        if task_id == 0 || task_id - 1 > tasks.len() {
            return Err(Error::InvalidIndex);
        }
        let mut tasks = tasks;
        tasks.insert(task_id - 1, (task_id, task));
        Ok(tasks)
    }

    /// Splits entries into the open and the completed records, each in order.
    fn split_tasks_todo_and_done(&self, tasks: Vec<(usize, Task)>) -> (r: Result<
        (Vec<Task>, Vec<Task>),
        Error,
    >)
        ensures
            r is Ok,
            task_views(r->Ok_0.0@) == open_part(entries_view(tasks@)),
            task_views(r->Ok_0.1@) == done_part(entries_view(tasks@)),
    {
        let ghost s = entries_view(tasks@);
        let mut tasks = tasks;
        let mut todos: Vec<Task> = Vec::new();
        let mut dones: Vec<Task> = Vec::new();
        let ghost mut i: int = 0;
        assert(s.take(0) =~= Seq::<Entry>::empty());
        assert(s.skip(0) =~= s);
        while tasks.len() > 0
            invariant
                0 <= i <= s.len(),
                entries_view(tasks@) == s.skip(i),
                task_views(todos@) == open_part(s.take(i)),
                task_views(dones@) == done_part(s.take(i)),
            decreases tasks@.len(),
        {
            let ghost before = tasks@;
            let (_, t) = tasks.remove(0);
            proof {
                assert(entries_view(before).len() == before.len());
                assert(s.skip(i)[0] == s[i]);
                assert(entries_view(before)[0] == (before[0].0 as int, before[0].1@));
                assert(s.take(i + 1).drop_last() =~= s.take(i));
                assert(s[i].1 == t@);
                assert forall|k: int| 0 <= k < tasks@.len() implies entries_view(tasks@)[k]
                    == s.skip(i + 1)[k] by {
                    assert(tasks@[k] == before[k + 1]);
                    assert(entries_view(before)[k + 1] == s.skip(i)[k + 1]);
                }
                assert(entries_view(tasks@) =~= s.skip(i + 1));
            }
            if t.state == TaskState::Todo {
                let ghost b = todos@;
                todos.push(t);
                assert(task_views(todos@) =~= task_views(b).push(s[i].1));
            } else {
                let ghost b = dones@;
                dones.push(t);
                assert(task_views(dones@) =~= task_views(b).push(s[i].1));
            }
            proof {
                i = i + 1;
            }
        }
        assert(s.take(i) =~= s);
        Ok((todos, dones))
    }

    /// Replaces the record `task_id`, given as the entries without it, by
    /// `task`, and stores the records split again by state.
    fn store_at(&mut self, task_id: usize, task: Task, rest: Vec<(usize, Task)>)
        requires
            1 <= task_id <= rest@.len() + 1,
        ensures
            final(self)@ == split_view(entries_view(rest@).insert(task_id - 1, (task_id as int, task@))),
            final(self).fits(),
    {
        let ghost t = task@;
        let tasks = match self.set_task_at(task_id, task, rest) {
            Ok(v) => v,
            Err(_) => {
                return;
            },
        };
        assert(entries_view(tasks@) =~= entries_view(rest@).insert(task_id - 1, (task_id as int, t)));
        let ghost tv = entries_view(tasks@);
        let n_all = tasks.len();
        assert(tv.len() == n_all);
        proof {
            lemma_parts_len(tv);
        }
        match self.split_tasks_todo_and_done(tasks) {
            Ok((todos, dones)) => {
                assert(task_views(todos@).len() == todos@.len());
                assert(task_views(dones@).len() == dones@.len());
                self.todos = todos;
                self.dones = dones;
            },
            Err(_) => {},
        }
    }
    /// Removes the record `task_id` from a copy of all entries: the record,
    /// and the entries without it.
    fn take_record(&self, task_id: usize) -> (r: Result<(usize, Task, Vec<(usize, Task)>), Error>)
        requires
            self.fits(),
        ensures
            match r {
                Ok((id, t, rest)) => valid_id(self@, task_id as int) && id == task_id && t@
                    == record(self@, task_id as int) && entries_view(rest@) == enumerated(
                    all_tasks(self@),
                ).remove(task_id - 1),
                Err(e) => !valid_id(self@, task_id as int) && e is InvalidIndex,
            },
    {
        let tasks = self.enumerate_all();
        let ghost v = entries_view(tasks@);
        let ghost all = all_tasks(self@);
        assert(v.len() == tasks@.len());
        assert(v.len() == all.len());
        match self.take_task_by_id(task_id, tasks) {
            Ok(((id, t), rest)) => {
                proof {
                    assert(v[task_id - 1] == (task_id as int, all[task_id - 1]));
                    assert(v[task_id - 1] == (id as int, t@));
                    assert(entries_view(rest@) =~= v.remove(task_id - 1));
                }
                Ok((id, t, rest))
            },
            Err(e) => Err(e),
        }
    }

    /// Puts `task` where the record `task_id` was and stores the records
    /// split again by state.
    fn put_back(&mut self, task_id: usize, task: Task, rest: Vec<(usize, Task)>)
        requires
            old(self).fits(),
            valid_id(old(self)@, task_id as int),
            entries_view(rest@) == enumerated(all_tasks(old(self)@)).remove(task_id - 1),
        ensures
            final(self)@ == rewritten(old(self)@, task_id as int, task@),
            final(self).fits(),
    {
        let ghost v = enumerated(all_tasks(self@));
        let ghost t = task@;
        self.store_at(task_id, task, rest);
        assert(v.remove(task_id - 1).insert(task_id - 1, (task_id as int, t)) =~= v.update(
            task_id - 1,
            (task_id as int, t),
        ));
    }

    /// Adds description text and tags to the record `task_id`: the text after
    /// a space, when there is any, and each tag that the record lacks.
    pub fn append(&mut self, task_id: usize, description: TaskDescription) -> (r: Result<
        (usize, Task),
        Error,
    >)
        requires
            old(self).fits(),
        ensures
            match r {
                Ok((id, t)) => valid_id(old(self)@, task_id as int) && id == task_id && t@
                    == appended(record(old(self)@, task_id as int), description@) && final(self)@
                    == rewritten(old(self)@, task_id as int, t@),
                Err(e) => !valid_id(old(self)@, task_id as int) && e is InvalidIndex && final(self)@ == old(self)@,
            },
            final(self).fits(),
    {
        let (id, task, rest) = match self.take_record(task_id) {
            Ok(x) => x,
            Err(e) => {
                return Err(e);
            },
        };
        let ghost old_view = task@;
        let Task { state, priority, completed_date, created_date, description: current } = task;
        let TaskDescription { value, project, context } = current;
        let TaskDescription { value: extra, project: extra_project, context: extra_context } =
            description;
        let mut value = value;
        if !extra.as_str().is_empty() {
            push_char(&mut value, ' ');
            value.append(extra.as_str());
        }
        let mut project = project;
        let mut extra_project = extra_project;
        let ghost p0 = project@;
        let ghost p1 = extra_project@;
        project.append(&mut extra_project);
        assert(texts(project@) =~= texts(p0) + texts(p1));
        let mut context = context;
        let mut extra_context = extra_context;
        let ghost c0 = context@;
        let ghost c1 = extra_context@;
        context.append(&mut extra_context);
        assert(texts(context@) =~= texts(c0) + texts(c1));
        let task = Task {
            state,
            priority,
            completed_date,
            created_date,
            description: TaskDescription {
                value,
                project: distinct_vec_hold_order(project),
                context: distinct_vec_hold_order(context),
            },
        };
        assert(task@.description.value =~= appended(old_view, description@).description.value);
        let result = task.duplicate();
        self.put_back(id, task, rest);
        Ok((id, result))
    }

    /// Removes the record `task_id`; the records after it move up by one.
    pub fn delete(&mut self, task_id: usize) -> (r: Result<Task, Error>)
        requires
            old(self).fits(),
        ensures
            match r {
                Ok(t) => valid_id(old(self)@, task_id as int) && t@ == record(
                    old(self)@,
                    task_id as int,
                ) && final(self)@ == deleted(old(self)@, task_id as int),
                Err(e) => !valid_id(old(self)@, task_id as int) && e is InvalidIndex && final(self)@ == old(self)@,
            },
            final(self).fits(),
    {
        let (_, deleted_task, rest) = match self.take_record(task_id) {
            Ok(x) => x,
            Err(e) => {
                return Err(e);
            },
        };
        let ghost rv = entries_view(rest@);
        let n_all = rest.len();
        proof {
            lemma_parts_len(rv);
        }
        match self.split_tasks_todo_and_done(rest) {
            Ok((todos, dones)) => {
                assert(task_views(todos@).len() == todos@.len());
                assert(task_views(dones@).len() == dones@.len());
                self.todos = todos;
                self.dones = dones;
            },
            Err(_) => {},
        }
        Ok(deleted_task)
    }

    /// Marks the record `task_id` completed on `today`, or open again.
    pub fn update_state(&mut self, task_id: usize, done: bool, today: Date) -> (r: Result<
        (usize, Task),
        Error,
    >)
        requires
            old(self).fits(),
        ensures
            match r {
                Ok((id, t)) => valid_id(old(self)@, task_id as int) && id == task_id && t@
                    == toggled(record(old(self)@, task_id as int), done, today@) && final(self)@
                    == rewritten(old(self)@, task_id as int, t@),
                Err(e) => !valid_id(old(self)@, task_id as int) && e is InvalidIndex && final(self)@ == old(self)@,
            },
            final(self).fits(),
    {
        let (id, task, rest) = match self.take_record(task_id) {
            Ok(x) => x,
            Err(e) => {
                return Err(e);
            },
        };
        let mut task = task;
        if done {
            task.state = TaskState::Done;
            task.completed_date = Some(today);
        } else {
            task.state = TaskState::Todo;
            if task.created_date.is_none() {
                task.created_date = task.completed_date;
            }
            task.completed_date = None;
        }
        let result = task.duplicate();
        self.put_back(id, task, rest);
        Ok((id, result))
    }

    /// Sets or clears the priority of the record `task_id`.
    pub fn set_priority(&mut self, task_id: usize, priority: Option<TaskPriority>) -> (r: Result<
        (usize, Task),
        Error,
    >)
        requires
            old(self).fits(),
        ensures
            match r {
                Ok((id, t)) => valid_id(old(self)@, task_id as int) && id == task_id && t@
                    == reprioritized(record(old(self)@, task_id as int), priority) && final(self)@
                    == rewritten(old(self)@, task_id as int, t@),
                Err(e) => !valid_id(old(self)@, task_id as int) && e is InvalidIndex && final(self)@ == old(self)@,
            },
            final(self).fits(),
    {
        let (id, task, rest) = match self.take_record(task_id) {
            Ok(x) => x,
            Err(e) => {
                return Err(e);
            },
        };
        let mut task = task;
        task.priority = priority;
        let result = task.duplicate();
        self.put_back(id, task, rest);
        Ok((id, result))
    }

    /// Replaces the record `task_id` by `new_task`, which gets `today` as its
    /// missing dates as in `add`; returns the old and the new record.
    pub fn replace(&mut self, task_id: usize, new_task: Task, today: Date) -> (r: Result<
        (usize, Task, Task),
        Error,
    >)
        requires
            old(self).fits(),
        ensures
            match r {
                Ok((id, old_task, new)) => valid_id(old(self)@, task_id as int) && id == task_id
                    && old_task@ == record(old(self)@, task_id as int) && new@ == with_defaults(
                    new_task@,
                    today@,
                ) && final(self)@ == rewritten(old(self)@, task_id as int, new@),
                Err(e) => !valid_id(old(self)@, task_id as int) && e is InvalidIndex && final(self)@ == old(self)@,
            },
            final(self).fits(),
    {
        let new_task = fill_dates(new_task, today);
        let (id, old_task, rest) = match self.take_record(task_id) {
            Ok(x) => x,
            Err(e) => {
                return Err(e);
            },
        };
        let result = new_task.duplicate();
        self.put_back(id, new_task, rest);
        Ok((id, old_task, result))
    }

    /// Adds a record to the collection of its state, with `today` as its
    /// creation date when it has none and, when completed, as its completion
    /// date when it has none.
    pub fn add(&mut self, new_task: Task, today: Date) -> (r: Task)
        requires
            old(self).fits(),
            count(old(self)@) < usize::MAX,
        ensures
            r@ == with_defaults(new_task@, today@),
            final(self)@ == added(old(self)@, r@),
            final(self).fits(),
    {
        let new_task = fill_dates(new_task, today);
        let result = new_task.duplicate();
        if new_task.state == TaskState::Todo {
            let ghost b = self.todos@;
            self.todos.push(new_task);
            assert(task_views(self.todos@) =~= task_views(b).push(result@));
        } else {
            let ghost b = self.dones@;
            self.dones.push(new_task);
            assert(task_views(self.dones@) =~= task_views(b).push(result@));
        }
        result
    }

}

/// The record with `today` as its missing dates.
fn fill_dates(new_task: Task, today: Date) -> (r: Task)
    ensures
        r@ == with_defaults(new_task@, today@),
{
    let mut new_task = new_task;
    if new_task.created_date.is_none() {
        new_task.created_date = Some(today);
    }
    if new_task.state == TaskState::Done && new_task.completed_date.is_none() {
        new_task.completed_date = Some(today);
    }
    new_task
}

/// A line with nothing on it but, perhaps, its line ending.
pub open spec fn is_empty_line(l: Seq<char>) -> bool {
    l.len() == 0 || l == seq!['\n'] || l == seq!['\r', '\n']
}

/// Reading stops at line `n`: no line before it is empty, and it is the first
/// empty line or the end.
pub open spec fn stops_at(lines: Seq<String>, n: int) -> bool {
    &&& 0 <= n <= lines.len()
    &&& forall|k: int| 0 <= k < n ==> !is_empty_line(#[trigger] lines[k]@)
    &&& (n == lines.len() || is_empty_line(lines[n]@))
}

fn empty_line(l: &String) -> (r: bool)
    ensures
        r == is_empty_line(l@),
{
    let s = l.as_str();
    let n = s.unicode_len();
    if n == 0 {
        true
    } else if n == 1 {
        let r = s.get_char(0) == '\n';
        assert(r ==> s@ =~= seq!['\n']);
        r
    } else if n == 2 {
        let r = s.get_char(0) == '\r' && s.get_char(1) == '\n';
        assert(r ==> s@ =~= seq!['\r', '\n']);
        r
    } else {
        false
    }
}

/// Reads the records of a backing file from its lines, as read, each with
/// its line ending. Reading stops at the first empty line; any line before it
/// that breaks the grammar fails the whole read.
pub fn read_tasks(lines: &Vec<String>) -> (r: Result<Vec<Task>, Error>)
    ensures
        match r {
            Ok(v) => stops_at(lines@, v@.len() as int) && forall|i: int|
                0 <= i < v@.len() ==> parse_line(#[trigger] lines@[i]@) == Some(v@[i]@),
            Err(e) => e is Syntax && exists|n: int, i: int|
                #![trigger stops_at(lines@, n), parse_line(lines@[i]@)]
                stops_at(lines@, n) && 0 <= i < n && parse_line(lines@[i]@) is None,
        },
{
    let mut out: Vec<Task> = Vec::new();
    let mut i: usize = 0;
    while i < lines.len() && !empty_line(&lines[i])
        invariant
            i <= lines@.len(),
            out@.len() == i,
            forall|k: int| 0 <= k < i ==> !is_empty_line(#[trigger] lines@[k]@),
            forall|k: int| 0 <= k < i ==> parse_line(#[trigger] lines@[k]@) == Some(out@[k]@),
        decreases lines@.len() - i,
    {
        match from_str(lines[i].as_str()) {
            Ok(t) => {
                out.push(t);
            },
            Err(e) => {
                let ghost n = first_stop(lines@, i as int);
                proof {
                    lemma_first_stop(lines@, i as int);
                }
                assert(stops_at(lines@, n) && 0 <= i < n && parse_line(lines@[i as int]@) is None);
                return Err(e);
            },
        }
        i = i + 1;
    }
    Ok(out)
}

/// The first empty line at or after `i`, or the end.
pub open spec fn first_stop(lines: Seq<String>, i: int) -> int
    decreases lines.len() - i,
{
    if i >= lines.len() || is_empty_line(lines[i]@) {
        i
    } else {
        first_stop(lines, i + 1)
    }
}

proof fn lemma_first_stop(lines: Seq<String>, i: int)
    requires
        0 <= i < lines.len(),
        forall|k: int| 0 <= k < i ==> !is_empty_line(#[trigger] lines[k]@),
        !is_empty_line(lines[i]@),
    ensures
        stops_at(lines, first_stop(lines, i)),
        i < first_stop(lines, i),
    decreases lines.len() - i,
{
    assert(first_stop(lines, i) == first_stop(lines, i + 1));
    if i + 1 < lines.len() && !is_empty_line(lines[i + 1]@) {
        lemma_first_stop(lines, i + 1);
    } else {
        assert(first_stop(lines, i + 1) == i + 1);
    }
    assert forall|k: int| 0 <= k < first_stop(lines, i) implies !is_empty_line(
        #[trigger] lines[k]@,
    ) by {
        if k == i {
            assert(!is_empty_line(lines[i]@));
        }
    }
}

/// The lines of a backing file for the records, in order, without line
/// endings.
pub fn write_tasks(tasks: &[Task]) -> (r: Vec<String>)
    ensures
        r@.len() == tasks@.len(),
        forall|i: int| 0 <= i < tasks@.len() ==> (#[trigger] r@[i])@ == task_text(tasks@[i]@),
{
    let mut out: Vec<String> = Vec::new();
    let mut i: usize = 0;
    while i < tasks.len()
        invariant
            i <= tasks@.len(),
            out@.len() == i,
            forall|k: int| 0 <= k < i ==> (#[trigger] out@[k])@ == task_text(tasks@[k]@),
        decreases tasks@.len() - i,
    {
        out.push(to_string(&tasks[i]));
        i = i + 1;
    }
    out
}

} // verus!
