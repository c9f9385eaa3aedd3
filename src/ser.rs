//! Writing a task record as one line of canonical text.
use crate::date::{date_text, Date};
use crate::model::{texts, DescriptionView, Task, TaskDescription, TaskPriority, TaskState, TaskView};
use crate::text::push_char;
use vstd::prelude::*;

verus! {

/// `seg` after `out`, with a space between them when `out` is not empty.
pub open spec fn joined(out: Seq<char>, seg: Seq<char>) -> Seq<char> {
    if out.len() == 0 {
        seg
    } else {
        out + seq![' '] + seg
    }
}

pub open spec fn state_text(out: Seq<char>, state: TaskState) -> Seq<char> {
    if state == TaskState::Done {
        out.push('x')
    } else {
        out
    }
}

pub open spec fn priority_text(out: Seq<char>, priority: Option<TaskPriority>) -> Seq<char> {
    match priority {
        Some(p) => joined(out, seq!['(', p.letter(), ')']),
        None => out,
    }
}

pub open spec fn date_segment(out: Seq<char>, date: Option<(int, int, int)>) -> Seq<char> {
    match date {
        Some(d) => joined(out, date_text(d)),
        None => out,
    }
}

/// Each tag with its sigil, in order.
pub open spec fn tags_text(out: Seq<char>, tags: Seq<Seq<char>>, sigil: char) -> Seq<char>
    decreases tags.len(),
{
    if tags.len() == 0 {
        out
    } else {
        joined(tags_text(out, tags.drop_last(), sigil), seq![sigil] + tags.last())
    }
}

pub open spec fn description_text(out: Seq<char>, d: DescriptionView) -> Seq<char> {
    tags_text(tags_text(joined(out, d.value), d.project, '+'), d.context, '@')
}

/// The canonical text of a record: marker, priority, completion date,
/// creation date, description, projects, contexts.
pub open spec fn task_text(t: TaskView) -> Seq<char> {
    description_text(
        date_segment(
            date_segment(
                priority_text(state_text(Seq::empty(), t.state), t.priority),
                t.completed_date,
            ),
            t.created_date,
        ),
        t.description,
    )
}

/// Writes a space when `out` is not empty.
fn separate(out: &mut String)
    ensures
        old(out)@.len() == 0 ==> final(out)@ == old(out)@,
        old(out)@.len() > 0 ==> final(out)@ == old(out)@.push(' '),
{
    if !out.as_str().is_empty() {
        push_char(out, ' ');
    }
}

/// Writes the completion marker of a completed record.
pub fn write_task_state(out: String, state: TaskState) -> (r: String)
    ensures
        r@ == state_text(out@, state),
{
    let mut out = out;
    if state == TaskState::Done {
        push_char(&mut out, 'x');
    }
    out
}

/// Writes the priority as `(X)`.
pub fn write_task_priority(out: String, priority: Option<TaskPriority>) -> (r: String)
    ensures
        r@ == priority_text(out@, priority),
{
    let mut out = out;
    if let Some(priority) = priority {
        let ghost before = out@;
        separate(&mut out);
        push_char(&mut out, '(');
        push_char(&mut out, char::from(priority));
        push_char(&mut out, ')');
        assert(out@ =~= joined(before, seq!['(', priority.letter(), ')']));
    }
    out
}

/// Writes a date as `YYYY-MM-DD`.
pub fn write_task_date(out: String, date: Option<Date>) -> (r: String)
    ensures
        r@ == date_segment(out@, crate::model::date_view(date)),
{
    let mut out = out;
    if let Some(date) = date {
        let ghost before = out@;
        separate(&mut out);
        let text = date.to_text();
        out.append(text.as_str());
        assert(out@ =~= joined(before, date_text(date@)));
    }
    out
}

/// Writes the project tags, each as `+label`.
pub fn write_task_project(out: String, project: &[String]) -> (r: String)
    ensures
        r@ == tags_text(out@, texts(project@), '+'),
{
    write_tags(out, project, '+')
}

/// Writes the context tags, each as `@label`.
pub fn write_task_context(out: String, context: &[String]) -> (r: String)
    ensures
        r@ == tags_text(out@, texts(context@), '@'),
{
    write_tags(out, context, '@')
}

fn write_tags(out: String, tags: &[String], sigil: char) -> (r: String)
    ensures
        r@ == tags_text(out@, texts(tags@), sigil),
{
    let mut out = out;
    let ghost start = out@;
    let mut i: usize = 0;
    assert(texts(tags@).take(0) =~= Seq::<Seq<char>>::empty());
    while i < tags.len()
        invariant
            i <= tags@.len(),
            out@ == tags_text(start, texts(tags@).take(i as int), sigil),
        decreases tags@.len() - i,
    {
        let ghost before = out@;
        separate(&mut out);
        push_char(&mut out, sigil);
        out.append(tags[i].as_str());
        let ghost t = texts(tags@).take(i + 1);
        assert(t.drop_last() =~= texts(tags@).take(i as int));
        assert(t.last() == tags@[i as int]@);
        assert(out@ =~= joined(before, seq![sigil] + tags@[i as int]@));
        i = i + 1;
    }
    assert(texts(tags@).take(i as int) =~= texts(tags@));
    out
}

/// Writes the description, then its projects and contexts.
pub fn write_task_description(out: String, description: &TaskDescription) -> (r: String)
    ensures
        r@ == description_text(out@, description@),
{
    let mut out = out;
    let ghost before = out@;
    separate(&mut out);
    out.append(description.value.as_str());
    assert(out@ =~= joined(before, description.value@));
    let out = write_task_project(out, description.project.as_slice());
    write_task_context(out, description.context.as_slice())
}

/// The canonical text of a record.
pub fn to_string(value: &Task) -> (r: String)
    ensures
        r@ == task_text(value@),
{
    let result = write_task_state(String::new(), value.state);
    let result = write_task_priority(result, value.priority);
    let result = write_task_date(result, value.completed_date);
    let result = write_task_date(result, value.created_date);
    write_task_description(result, &value.description)
}

} // verus!
