//! Properties that relate the parser, the serializer and the store.
use crate::de::{
    body_of, contexts_of, description_of, distinct, first_date_of, parse_line, parse_tokens_spec,
    projects_of, second_date_of, tokens_of, TokenView,
};
use crate::model::{DescriptionView, TaskState, TaskView};
use crate::store::{
    all_tasks, count, deleted, done_part, enumerated, insert_ordered, open_part, ordered,
    ordered_by, record, reversed, rewritten, select, sort_by_key, sort_by_keys, valid_id, appended,
    Entry, FilterView,
    OrderOption, OrderView, StoreView,
};
use crate::text::trimmed;
use vstd::prelude::*;

verus! {

/// No token of `toks` is a description token.
pub open spec fn no_description_token(toks: Seq<TokenView>) -> bool {
    forall|i: int| 0 <= i < toks.len() ==> !(#[trigger] toks[i] is Description)
}

proof fn lemma_description_needs_token(toks: Seq<TokenView>)
    requires
        no_description_token(toks),
    ensures
        description_of(toks).len() == 0,
    decreases toks.len(),
{
    if toks.len() > 0 {
        assert(no_description_token(toks.drop_last())) by {
            assert forall|i: int| 0 <= i < toks.drop_last().len() implies !(
            #[trigger] toks.drop_last()[i] is Description) by {
                assert(toks.drop_last()[i] == toks[i]);
            }
        }
        lemma_description_needs_token(toks.drop_last());
        assert(!(toks[toks.len() - 1] is Description));
    }
}

/// A line whose body holds no description token is rejected: a record never
/// has an empty description.
pub proof fn law_description_required(s: Seq<char>)
    requires
        no_description_token(body_of(tokens_of(trimmed(s)))),
    ensures
        parse_line(s) is None,
{
    lemma_description_needs_token(body_of(tokens_of(trimmed(s))));
}

/// `distinct` keeps no label twice.
pub proof fn lemma_distinct_unique(s: Seq<Seq<char>>)
    ensures
        distinct(s).no_duplicates(),
        forall|x: Seq<char>| distinct(s).contains(x) <==> s.contains(x),
    decreases s.len(),
{
    if s.len() > 0 {
        lemma_distinct_unique(s.drop_last());
        let r = distinct(s.drop_last());
        assert forall|x: Seq<char>| s.contains(x) <==> (s.drop_last().contains(x) || x == s.last()) by {
            if s.contains(x) {
                let i = choose|i: int| 0 <= i < s.len() && s[i] == x;
                if i < s.len() - 1 {
                    assert(s.drop_last()[i] == x);
                }
            }
            if s.drop_last().contains(x) {
                let i = choose|i: int| 0 <= i < s.drop_last().len() && s.drop_last()[i] == x;
                assert(s[i] == x);
            }
            if x == s.last() {
                assert(s[s.len() - 1] == x);
            }
        }
        if !r.contains(s.last()) {
            let rp = r.push(s.last());
            assert forall|x: Seq<char>| rp.contains(x) <==> (r.contains(x) || x == s.last()) by {
                if rp.contains(x) {
                    let i = choose|i: int| 0 <= i < rp.len() && rp[i] == x;
                    if i < r.len() {
                        assert(r[i] == x);
                    }
                }
                if r.contains(x) {
                    let i = choose|i: int| 0 <= i < r.len() && r[i] == x;
                    assert(rp[i] == x);
                }
                if x == s.last() {
                    assert(rp[r.len() as int] == x);
                }
            }
            assert(rp.no_duplicates()) by {
                assert forall|i: int, j: int| 0 <= i < rp.len() && 0 <= j < rp.len() && i != j implies rp[i]
                    != rp[j] by {
                    if i < r.len() && j < r.len() {
                        assert(rp[i] == r[i] && rp[j] == r[j]);
                    } else if i < r.len() {
                        assert(rp[i] == r[i]);
                        assert(r.contains(rp[i]));
                    } else if j < r.len() {
                        assert(rp[j] == r[j]);
                        assert(r.contains(rp[j]));
                    }
                }
            }
        }
    }
}

/// The projects and the contexts of a parsed record hold no label twice, and
/// hold every label that the line tags, in the order of first occurrence.
pub proof fn law_parsed_tags_distinct(s: Seq<char>)
    requires
        parse_line(s) is Some,
    ensures
        parse_line(s)->0.description.project.no_duplicates(),
        parse_line(s)->0.description.context.no_duplicates(),
        parse_line(s)->0.description.project == distinct(
            projects_of(body_of(tokens_of(trimmed(s)))),
        ),
        parse_line(s)->0.description.context == distinct(
            contexts_of(body_of(tokens_of(trimmed(s)))),
        ),
{
    let body = body_of(tokens_of(trimmed(s)));
    lemma_distinct_unique(projects_of(body));
    lemma_distinct_unique(contexts_of(body));
}

/// The dates of a parsed record, by its state and the number of leading
/// dates: a completed record with one date has it as its completion date, an
/// open one as its creation date; with two dates the first is the completion
/// and the second the creation date; with none, neither is set.
pub proof fn law_date_assignment(toks: Seq<TokenView>)
    requires
        parse_tokens_spec(toks) is Some,
    ensures
        ({
            let t = parse_tokens_spec(toks)->0;
            let d1 = first_date_of(toks);
            let d2 = second_date_of(toks);
            &&& (t.state == TaskState::Done && d1 is Some && d2 is None) ==> (t.completed_date
                == d1 && t.created_date is None)
            &&& (t.state == TaskState::Todo && d1 is Some && d2 is None) ==> (t.completed_date
                is None && t.created_date == d1)
            &&& (d1 is Some && d2 is Some) ==> (t.completed_date == d1 && t.created_date == d2)
            &&& d1 is None ==> (d2 is None && t.completed_date is None && t.created_date is None)
        }),
{
}

/// Every open collection record is open and every completed one completed.
pub open spec fn consistent(m: StoreView) -> bool {
    &&& forall|i: int| 0 <= i < m.todos.len() ==> (#[trigger] m.todos[i]).state == TaskState::Todo
    &&& forall|i: int| 0 <= i < m.dones.len() ==> (#[trigger] m.dones[i]).state == TaskState::Done
}

pub open spec fn tasks_of(s: Seq<Entry>) -> Seq<TaskView> {
    s.map_values(|e: Entry| e.1)
}

proof fn lemma_parts_of_sorted(s: Seq<Entry>, k: int)
    requires
        0 <= k <= s.len(),
        forall|i: int| 0 <= i < k ==> (#[trigger] s[i]).1.state == TaskState::Todo,
        forall|i: int| k <= i < s.len() ==> (#[trigger] s[i]).1.state == TaskState::Done,
    ensures
        open_part(s) == tasks_of(s.take(k)),
        done_part(s) == tasks_of(s.skip(k)),
    decreases s.len(),
{
    if s.len() == 0 {
        assert(tasks_of(s.take(k)) =~= Seq::<TaskView>::empty());
        assert(tasks_of(s.skip(k)) =~= Seq::<TaskView>::empty());
    } else if k == s.len() {
        let t = s.drop_last();
        lemma_parts_of_sorted(t, k - 1);
        assert(t.take(k - 1) =~= s.take(k - 1));
        assert(tasks_of(s.take(k)) =~= tasks_of(s.take(k - 1)).push(s.last().1));
        assert(t.skip(k - 1) =~= Seq::<Entry>::empty());
        assert(tasks_of(s.skip(k)) =~= Seq::<TaskView>::empty());
    } else {
        let t = s.drop_last();
        lemma_parts_of_sorted(t, k);
        assert(t.take(k) =~= s.take(k));
        assert(tasks_of(s.skip(k)) =~= tasks_of(t.skip(k)).push(s.last().1));
    }
}

/// After the record `id` of a store whose collections agree with the states
/// of their records is deleted, the records are the old ones without it in
/// the same order: the records before it keep their identifiers, and each one
/// after it takes the identifier of the one before, so `id` now names the
/// record that followed the deleted one.
pub proof fn law_delete_shifts_identifiers(m: StoreView, id: int)
    requires
        consistent(m),
        valid_id(m, id),
    ensures
        all_tasks(deleted(m, id)) == all_tasks(m).remove(id - 1),
        count(deleted(m, id)) == count(m) - 1,
        forall|i: int| 1 <= i < id ==> #[trigger] enumerated(all_tasks(deleted(m, id)))[i - 1] == (i, all_tasks(m)[i - 1]),
        forall|i: int| id <= i < count(m) ==> #[trigger] enumerated(all_tasks(deleted(m, id)))[i - 1] == (i, all_tasks(m)[i]),
{
    let all = all_tasks(m);
    let v = enumerated(all).remove(id - 1);
    let k = if id - 1 < m.todos.len() { m.todos.len() - 1 } else { m.todos.len() as int };
    assert forall|i: int| 0 <= i < k implies (#[trigger] v[i]).1.state == TaskState::Todo by {
        if i < id - 1 {
            assert(v[i] == enumerated(all)[i]);
            assert(all[i] == m.todos[i]);
        } else {
            assert(v[i] == enumerated(all)[i + 1]);
            assert(all[i + 1] == m.todos[i + 1]);
        }
    }
    assert forall|i: int| k <= i < v.len() implies (#[trigger] v[i]).1.state == TaskState::Done by {
        if i < id - 1 {
            assert(v[i] == enumerated(all)[i]);
            assert(all[i] == m.dones[i - m.todos.len()]);
        } else {
            assert(v[i] == enumerated(all)[i + 1]);
            assert(all[i + 1] == m.dones[i + 1 - m.todos.len()]);
        }
    }
    lemma_parts_of_sorted(v, k);
    assert(all_tasks(deleted(m, id)) =~= tasks_of(v.take(k)) + tasks_of(v.skip(k)));
    assert(all_tasks(deleted(m, id)) =~= all.remove(id - 1));
}

/// Each entry may stand before the next one when ordering by `key`.
pub open spec fn sorted_by(s: Seq<Entry>, key: OrderOption) -> bool {
    forall|i: int| 0 <= i < s.len() - 1 ==> ordered_by(#[trigger] s[i].1, s[i + 1].1, key)
}

proof fn lemma_ordered_total(a: TaskView, b: TaskView, key: OrderOption)
    ensures
        ordered_by(a, b, key) || ordered_by(b, a, key),
{
}

proof fn lemma_insert_sorted(s: Seq<Entry>, x: Entry, key: OrderOption)
    requires
        sorted_by(s, key),
    ensures
        sorted_by(insert_ordered(s, x, key), key),
        insert_ordered(s, x, key).len() == s.len() + 1,
    decreases s.len(),
{
    if s.len() > 0 && !ordered_by(s.last().1, x.1, key) {
        let a = s.drop_last();
        assert(sorted_by(a, key)) by {
            assert forall|i: int| 0 <= i < a.len() - 1 implies ordered_by(#[trigger] a[i].1, a[i + 1].1, key) by {
                assert(a[i] == s[i] && a[i + 1] == s[i + 1]);
            }
        }
        lemma_insert_sorted(a, x, key);
        let r = insert_ordered(a, x, key);
        lemma_ordered_total(s.last().1, x.1, key);
        if a.len() > 0 && !ordered_by(a.last().1, x.1, key) {
            assert(r.last() == a.last());
            assert(ordered_by(s[a.len() - 1].1, s[a.len() as int].1, key));
        } else {
            assert(r.last() == x);
        }
        let rp = r.push(s.last());
        assert forall|i: int| 0 <= i < rp.len() - 1 implies ordered_by(#[trigger] rp[i].1, rp[i + 1].1, key) by {
            if i < r.len() - 1 {
                assert(rp[i] == r[i] && rp[i + 1] == r[i + 1]);
            } else {
                assert(rp[i] == r.last());
            }
        }
    } else if s.len() > 0 {
        let rp = s.push(x);
        assert forall|i: int| 0 <= i < rp.len() - 1 implies ordered_by(#[trigger] rp[i].1, rp[i + 1].1, key) by {
            if i < s.len() - 1 {
                assert(rp[i] == s[i] && rp[i + 1] == s[i + 1]);
            }
        }
    }
}

proof fn lemma_sort_sorted(s: Seq<Entry>, key: OrderOption)
    ensures
        sorted_by(sort_by_key(s, key), key),
        sort_by_key(s, key).len() == s.len(),
    decreases s.len(),
{
    if s.len() > 0 {
        lemma_sort_sorted(s.drop_last(), key);
        lemma_insert_sorted(sort_by_key(s.drop_last(), key), s.last(), key);
    }
}

/// The listed view is ordered by the first-listed key, the most significant
/// one; when reversed, by that key from the end.
pub proof fn law_first_key_most_significant(s: Seq<Entry>, order: OrderView)
    requires
        order.by is Some,
        order.by->0.len() > 0,
    ensures
        !order.reverse ==> sorted_by(ordered(s, order), order.by->0[0]),
        order.reverse ==> forall|i: int|
            0 <= i < ordered(s, order).len() - 1 ==> ordered_by(
                #[trigger] ordered(s, order)[i + 1].1,
                ordered(s, order)[i].1,
                order.by->0[0],
            ),
{
    let keys = order.by->0;
    let inner = sort_by_keys(s, keys.drop_first());
    lemma_sort_sorted(inner, keys[0]);
    let sorted = sort_by_key(inner, keys[0]);
    if order.reverse {
        let r = reversed(sorted);
        assert forall|i: int| 0 <= i < r.len() - 1 implies ordered_by(#[trigger] r[i + 1].1, r[i].1, keys[0]) by {
            let j = sorted.len() - 2 - i;
            assert(r[i + 1] == sorted[j] && r[i] == sorted[j + 1]);
        }
    }
}

proof fn lemma_select_within(s: Seq<Entry>, f: FilterView, p: spec_fn(Entry) -> bool)
    requires
        forall|i: int| 0 <= i < s.len() ==> p(#[trigger] s[i]),
    ensures
        forall|i: int| 0 <= i < select(s, f).len() ==> p(#[trigger] select(s, f)[i]),
    decreases s.len(),
{
    if s.len() > 0 {
        let a = s.drop_last();
        assert forall|i: int| 0 <= i < a.len() implies p(#[trigger] a[i]) by {
            assert(a[i] == s[i]);
        }
        lemma_select_within(a, f, p);
        assert(p(s[s.len() - 1]));
        let r = select(a, f);
        assert forall|i: int| 0 <= i < select(s, f).len() implies p(#[trigger] select(s, f)[i]) by {
            if i < r.len() {
                assert(select(s, f)[i] == r[i]);
            } else {
                assert(select(s, f)[i] == s.last());
            }
        }
    }
}

proof fn lemma_insert_within(s: Seq<Entry>, x: Entry, key: OrderOption, p: spec_fn(Entry) -> bool)
    requires
        forall|i: int| 0 <= i < s.len() ==> p(#[trigger] s[i]),
        p(x),
    ensures
        forall|i: int| 0 <= i < insert_ordered(s, x, key).len() ==> p(
            #[trigger] insert_ordered(s, x, key)[i],
        ),
    decreases s.len(),
{
    if s.len() > 0 && !ordered_by(s.last().1, x.1, key) {
        let a = s.drop_last();
        assert forall|i: int| 0 <= i < a.len() implies p(#[trigger] a[i]) by {
            assert(a[i] == s[i]);
        }
        lemma_insert_within(a, x, key, p);
        assert(p(s[s.len() - 1]));
        let r = insert_ordered(a, x, key);
        assert forall|i: int| 0 <= i < insert_ordered(s, x, key).len() implies p(
            #[trigger] insert_ordered(s, x, key)[i],
        ) by {
            if i < r.len() {
                assert(insert_ordered(s, x, key)[i] == r[i]);
            } else {
                assert(insert_ordered(s, x, key)[i] == s.last());
            }
        }
    } else {
        assert forall|i: int| 0 <= i < insert_ordered(s, x, key).len() implies p(
            #[trigger] insert_ordered(s, x, key)[i],
        ) by {
            if i < s.len() {
                assert(insert_ordered(s, x, key)[i] == s[i]);
            } else {
                assert(insert_ordered(s, x, key)[i] == x);
            }
        }
    }
}

proof fn lemma_sort_within(s: Seq<Entry>, key: OrderOption, p: spec_fn(Entry) -> bool)
    requires
        forall|i: int| 0 <= i < s.len() ==> p(#[trigger] s[i]),
    ensures
        forall|i: int| 0 <= i < sort_by_key(s, key).len() ==> p(#[trigger] sort_by_key(s, key)[i]),
    decreases s.len(),
{
    if s.len() > 0 {
        let a = s.drop_last();
        assert forall|i: int| 0 <= i < a.len() implies p(#[trigger] a[i]) by {
            assert(a[i] == s[i]);
        }
        lemma_sort_within(a, key, p);
        assert(p(s[s.len() - 1]));
        lemma_insert_within(sort_by_key(a, key), s.last(), key, p);
    }
}

proof fn lemma_sorts_within(s: Seq<Entry>, keys: Seq<OrderOption>, p: spec_fn(Entry) -> bool)
    requires
        forall|i: int| 0 <= i < s.len() ==> p(#[trigger] s[i]),
    ensures
        forall|i: int| 0 <= i < sort_by_keys(s, keys).len() ==> p(
            #[trigger] sort_by_keys(s, keys)[i],
        ),
    decreases keys.len(),
{
    if keys.len() > 0 {
        lemma_sorts_within(s, keys.drop_first(), p);
        lemma_sort_within(sort_by_keys(s, keys.drop_first()), keys[0], p);
    }
}

/// Filtering and ordering never renumber: every listed entry carries the
/// identifier of its position among all records.
pub proof fn law_listing_keeps_identifiers(m: StoreView, f: FilterView, order: OrderView)
    ensures
        forall|i: int|
            0 <= i < ordered(select(enumerated(all_tasks(m)), f), order).len() ==> {
                let e = #[trigger] ordered(select(enumerated(all_tasks(m)), f), order)[i];
                1 <= e.0 <= count(m) && e.1 == all_tasks(m)[e.0 - 1]
            },
{
    let all = all_tasks(m);
    let p = |e: Entry| 1 <= e.0 <= all.len() && e.1 == all[e.0 - 1];
    let v = enumerated(all);
    assert forall|i: int| 0 <= i < v.len() implies p(#[trigger] v[i]) by {}
    lemma_select_within(v, f, p);
    let sel = select(v, f);
    if let Some(keys) = order.by {
        lemma_sorts_within(sel, keys, p);
        let sorted = sort_by_keys(sel, keys);
        if order.reverse {
            assert forall|i: int| 0 <= i < reversed(sorted).len() implies p(#[trigger] reversed(sorted)[i]) by {
                assert(reversed(sorted)[i] == sorted[sorted.len() - 1 - i]);
            }
        }
    }
    let out = ordered(sel, order);
    assert forall|i: int| 0 <= i < out.len() implies ({
        let e = #[trigger] out[i];
        1 <= e.0 <= count(m) && e.1 == all[e.0 - 1]
    }) by {
        assert(p(out[i]));
    }
}

/// Replacing a record by one in the same state, in a store whose collections
/// agree with the states of their records, keeps every record in its place.
pub proof fn lemma_rewrite_in_place(m: StoreView, id: int, t: TaskView)
    requires
        consistent(m),
        valid_id(m, id),
        t.state == record(m, id).state,
    ensures
        all_tasks(rewritten(m, id, t)) == all_tasks(m).update(id - 1, t),
{
    let all = all_tasks(m);
    let v = enumerated(all).update(id - 1, (id, t));
    let k = m.todos.len() as int;
    assert forall|i: int| 0 <= i < k implies (#[trigger] v[i]).1.state == TaskState::Todo by {
        assert(all[i] == m.todos[i]);
    }
    assert forall|i: int| k <= i < v.len() implies (#[trigger] v[i]).1.state == TaskState::Done by {
        assert(all[i] == m.dones[i - k]);
    }
    lemma_parts_of_sorted(v, k);
    assert(all_tasks(rewritten(m, id, t)) =~= tasks_of(v.take(k)) + tasks_of(v.skip(k)));
    assert(all_tasks(rewritten(m, id, t)) =~= all.update(id - 1, t));
}

/// Listing after an append, on a store whose collections agree with the
/// states of their records, shows every other record with its identifier as
/// before, and record `id` with the appended text and tags.
pub proof fn law_list_after_append(m: StoreView, id: int, d: DescriptionView)
    requires
        consistent(m),
        valid_id(m, id),
    ensures
        enumerated(all_tasks(rewritten(m, id, appended(record(m, id), d)))) == enumerated(
            all_tasks(m),
        ).update(id - 1, (id, appended(record(m, id), d))),
{
    let t = appended(record(m, id), d);
    lemma_rewrite_in_place(m, id, t);
    assert(enumerated(all_tasks(m).update(id - 1, t)) =~= enumerated(all_tasks(m)).update(
        id - 1,
        (id, t),
    ));
}

} // verus!
