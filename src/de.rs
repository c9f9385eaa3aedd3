//! Reading a task record from one line of text.
use crate::date::{date_of_text, Date};
use crate::error::Error;
use crate::model::{texts, DescriptionView, Task, TaskDescription, TaskPriority, TaskState, TaskView};
use crate::text::{slice_texts, split_on_space, split_spaces, trim, trimmed};
use vstd::prelude::*;

verus! {

/// A classified piece of a line.
#[derive(Debug)]
pub enum Token<'a> {
    /// The completion marker `x`.
    Done,
    /// A priority `(L)`, holding its letter.
    Priority(char),
    Date(Date),
    Description(&'a str),
    /// A project tag, without its `+` sign.
    Project(&'a str),
    /// A context tag, without its `@` sign.
    Context(&'a str),
}

pub enum TokenView {
    Done,
    Priority(char),
    Date((int, int, int)),
    Description(Seq<char>),
    Project(Seq<char>),
    Context(Seq<char>),
}

impl<'a> View for Token<'a> {
    type V = TokenView;

    open spec fn view(&self) -> TokenView {
        match self {
            Token::Done => TokenView::Done,
            Token::Priority(c) => TokenView::Priority(*c),
            Token::Date(d) => TokenView::Date(d@),
            Token::Description(d) => TokenView::Description(d@),
            Token::Project(p) => TokenView::Project(p@),
            Token::Context(c) => TokenView::Context(c@),
        }
    }
}

pub open spec fn is_ascii_letter(c: char) -> bool {
    ('A' <= c <= 'Z') || ('a' <= c <= 'z')
}

/// Three characters `(L)` where `L` is a letter.
pub open spec fn is_priority_text(t: Seq<char>) -> bool {
    t.len() == 3 && t[0] == '(' && t[2] == ')' && is_ascii_letter(t[1])
}

/// How a piece of a line is classified, in order of precedence.
pub open spec fn classify(t: Seq<char>) -> TokenView {
    if t == seq!['x'] {
        TokenView::Done
    } else if is_priority_text(t) {
        TokenView::Priority(t[1])
    } else if date_of_text(t) is Some {
        TokenView::Date(date_of_text(t)->0)
    } else if t.len() > 0 && t[0] == '+' {
        TokenView::Project(t.drop_first())
    } else if t.len() > 0 && t[0] == '@' {
        TokenView::Context(t.drop_first())
    } else {
        TokenView::Description(t)
    }
}

pub open spec fn token_views<'a>(v: Seq<Token<'a>>) -> Seq<TokenView> {
    v.map_values(|t: Token<'a>| t@)
}

/// The tokens of a line that has been trimmed.
pub open spec fn tokens_of(line: Seq<char>) -> Seq<TokenView> {
    split_spaces(line).map_values(|t: Seq<char>| classify(t))
}

impl<'a> Token<'a> {
    /// Classifies one piece of a line.
    pub fn classify(t: &'a str) -> (r: Token<'a>)
        ensures
            r@ == classify(t@),
    {
        let n = t.unicode_len();
        proof {
            reveal_strlit("x");
        }
        if n == 1 && t.get_char(0) == 'x' {
            assert(t@ =~= seq!['x']);
            return Token::Done;
        }
        if n == 3 && t.get_char(0) == '(' && t.get_char(2) == ')' {
            let c = t.get_char(1);
            if ('A' <= c && c <= 'Z') || ('a' <= c && c <= 'z') {
                assert(t@ != seq!['x']);
                return Token::Priority(c);
            }
        }
        assert(t@ != seq!['x']);
        match Date::parse(t) {
            Some(d) => {
                return Token::Date(d);
            },
            None => {},
        }
        if n > 0 && t.get_char(0) == '+' {
            let label = t.substring_char(1, n);
            assert(label@ =~= t@.drop_first());
            Token::Project(label)
        } else if n > 0 && t.get_char(0) == '@' {
            let label = t.substring_char(1, n);
            assert(label@ =~= t@.drop_first());
            Token::Context(label)
        } else {
            Token::Description(t)
        }
    }
}

/// Splits a trimmed line on single spaces and classifies each piece.
pub fn tokenize<'a>(line: &'a str) -> (r: Vec<Token<'a>>)
    ensures
        token_views(r@) == tokens_of(line@),
{
    let pieces = split_on_space(line);
    let mut r: Vec<Token<'a>> = Vec::new();
    let mut i: usize = 0;
    while i < pieces.len()
        invariant
            i <= pieces@.len(),
            slice_texts(pieces@) == split_spaces(line@),
            token_views(r@) == slice_texts(pieces@).take(i as int).map_values(
                |t: Seq<char>| classify(t),
            ),
        decreases pieces@.len() - i,
    {
        let tok = Token::classify(pieces[i]);
        let ghost before = r@;
        r.push(tok);
        assert(token_views(r@) =~= token_views(before).push(tok@));
        assert(slice_texts(pieces@).take(i + 1) =~= slice_texts(pieces@).take(i as int).push(
            pieces@[i as int]@,
        ));
        assert(token_views(r@) =~= slice_texts(pieces@).take(i + 1).map_values(
            |t: Seq<char>| classify(t),
        ));
        i = i + 1;
    }
    assert(slice_texts(pieces@).take(i as int) =~= slice_texts(pieces@));
    r
}

pub open spec fn is_body(t: TokenView) -> bool {
    t is Project || t is Context || t is Description
}

pub open spec fn all_body(toks: Seq<TokenView>) -> bool {
    forall|i: int| 0 <= i < toks.len() ==> is_body(#[trigger] toks[i])
}

/// The description: the description tokens joined by single spaces, where a
/// separator is written only once the text so far is not empty.
pub open spec fn description_of(toks: Seq<TokenView>) -> Seq<char>
    decreases toks.len(),
{
    if toks.len() == 0 {
        Seq::empty()
    } else {
        let acc = description_of(toks.drop_last());
        match toks.last() {
            TokenView::Description(d) => if acc.len() == 0 {
                d
            } else {
                acc + seq![' '] + d
            },
            _ => acc,
        }
    }
}

/// The project labels, in order and with repeats.
pub open spec fn projects_of(toks: Seq<TokenView>) -> Seq<Seq<char>>
    decreases toks.len(),
{
    if toks.len() == 0 {
        Seq::empty()
    } else {
        match toks.last() {
            TokenView::Project(p) => projects_of(toks.drop_last()).push(p),
            _ => projects_of(toks.drop_last()),
        }
    }
}

/// The context labels, in order and with repeats.
pub open spec fn contexts_of(toks: Seq<TokenView>) -> Seq<Seq<char>>
    decreases toks.len(),
{
    if toks.len() == 0 {
        Seq::empty()
    } else {
        match toks.last() {
            TokenView::Context(c) => contexts_of(toks.drop_last()).push(c),
            _ => contexts_of(toks.drop_last()),
        }
    }
}

/// The first occurrence of each label, in the order of first occurrence.
pub open spec fn distinct(s: Seq<Seq<char>>) -> Seq<Seq<char>>
    decreases s.len(),
{
    if s.len() == 0 {
        s
    } else {
        let r = distinct(s.drop_last());
        if r.contains(s.last()) {
            r
        } else {
            r.push(s.last())
        }
    }
}

/// The completion date, from the state and the one or two leading dates.
pub open spec fn completed_of(
    state: TaskState,
    d1: Option<(int, int, int)>,
    d2: Option<(int, int, int)>,
) -> Option<(int, int, int)> {
    match (d1, d2) {
        (Some(a), Some(_)) => Some(a),
        (Some(a), None) => if state == TaskState::Done {
            Some(a)
        } else {
            None
        },
        _ => None,
    }
}

/// The creation date, from the state and the one or two leading dates.
pub open spec fn created_of(
    state: TaskState,
    d1: Option<(int, int, int)>,
    d2: Option<(int, int, int)>,
) -> Option<(int, int, int)> {
    match (d1, d2) {
        (Some(_), Some(b)) => Some(b),
        (Some(a), None) => if state == TaskState::Todo {
            Some(a)
        } else {
            None
        },
        _ => None,
    }
}

/// Where the completion marker ends: 1 if the first token is one, else 0.
pub open spec fn state_end(toks: Seq<TokenView>) -> int {
    if 0 < toks.len() && toks[0] is Done {
        1
    } else {
        0
    }
}

pub open spec fn has_priority(toks: Seq<TokenView>) -> bool {
    state_end(toks) < toks.len() && toks[state_end(toks)] is Priority
}

pub open spec fn priority_end(toks: Seq<TokenView>) -> int {
    if has_priority(toks) {
        state_end(toks) + 1
    } else {
        state_end(toks)
    }
}

pub open spec fn has_first_date(toks: Seq<TokenView>) -> bool {
    priority_end(toks) < toks.len() && toks[priority_end(toks)] is Date
}

pub open spec fn first_date_end(toks: Seq<TokenView>) -> int {
    if has_first_date(toks) {
        priority_end(toks) + 1
    } else {
        priority_end(toks)
    }
}

/// A second date is read only after a first one.
pub open spec fn has_second_date(toks: Seq<TokenView>) -> bool {
    has_first_date(toks) && first_date_end(toks) < toks.len() && toks[first_date_end(
        toks,
    )] is Date
}

/// Where the leading fields end and the body begins.
pub open spec fn body_start(toks: Seq<TokenView>) -> int {
    if has_second_date(toks) {
        first_date_end(toks) + 1
    } else {
        first_date_end(toks)
    }
}

pub open spec fn body_of(toks: Seq<TokenView>) -> Seq<TokenView> {
    toks.skip(body_start(toks))
}

pub open spec fn state_of(toks: Seq<TokenView>) -> TaskState {
    if state_end(toks) == 1 {
        TaskState::Done
    } else {
        TaskState::Todo
    }
}

pub open spec fn priority_of(toks: Seq<TokenView>) -> Option<TaskPriority> {
    if has_priority(toks) {
        Some(TaskPriority::from_char_spec(toks[state_end(toks)]->Priority_0))
    } else {
        None
    }
}

pub open spec fn first_date_of(toks: Seq<TokenView>) -> Option<(int, int, int)> {
    if has_first_date(toks) {
        Some(toks[priority_end(toks)]->Date_0)
    } else {
        None
    }
}

pub open spec fn second_date_of(toks: Seq<TokenView>) -> Option<(int, int, int)> {
    if has_second_date(toks) {
        Some(toks[first_date_end(toks)]->Date_0)
    } else {
        None
    }
}

/// The record that a token sequence denotes, or `None` where it breaks the
/// grammar: a marker, priority or date token in the body, or an empty
/// description.
pub open spec fn parse_tokens_spec(toks: Seq<TokenView>) -> Option<TaskView> {
    let body = body_of(toks);
    if !all_body(body) || description_of(body).len() == 0 {
        None
    } else {
        let state = state_of(toks);
        Some(
            TaskView {
                state,
                priority: priority_of(toks),
                completed_date: completed_of(state, first_date_of(toks), second_date_of(toks)),
                created_date: created_of(state, first_date_of(toks), second_date_of(toks)),
                description: DescriptionView {
                    value: description_of(body),
                    project: distinct(projects_of(body)),
                    context: distinct(contexts_of(body)),
                },
            },
        )
    }
}

/// The record that a line denotes, or `None` where it breaks the grammar.
pub open spec fn parse_line(s: Seq<char>) -> Option<TaskView> {
    if trimmed(s).len() == 0 {
        None
    } else {
        parse_tokens_spec(tokens_of(trimmed(s)))
    }
}

/// Whether `label` occurs in `v`.
pub(crate) fn contains_text(v: &Vec<String>, label: &String) -> (r: bool)
    ensures
        r == texts(v@).contains(label@),
{
    let mut j: usize = 0;
    while j < v.len()
        invariant
            j <= v@.len(),
            forall|k: int| 0 <= k < j ==> v@[k]@ != label@,
        decreases v@.len() - j,
    {
        if v[j] == *label {
            assert(texts(v@)[j as int] == label@);
            return true;
        }
        j = j + 1;
    }
    assert(!texts(v@).contains(label@)) by {
        if texts(v@).contains(label@) {
            let k = choose|k: int| 0 <= k < texts(v@).len() && texts(v@)[k] == label@;
            assert(v@[k]@ == label@);
        }
    }
    false
}

/// Keeps the first occurrence of each label, in the order of first occurrence.
pub fn distinct_vec_hold_order(vec: Vec<String>) -> (r: Vec<String>)
    ensures
        texts(r@) == distinct(texts(vec@)),
{
    let mut result: Vec<String> = Vec::new();
    let mut i: usize = 0;
    while i < vec.len()
        invariant
            i <= vec@.len(),
            texts(result@) == distinct(texts(vec@).take(i as int)),
        decreases vec@.len() - i,
    {
        let ghost prefix = texts(vec@).take(i + 1);
        assert(prefix.drop_last() =~= texts(vec@).take(i as int));
        assert(prefix.last() == vec@[i as int]@);
        if !contains_text(&result, &vec[i]) {
            let ghost before = result@;
            result.push(vec[i].clone());
            assert(texts(result@) =~= texts(before).push(vec@[i as int]@));
        }
        i = i + 1;
    }
    assert(texts(vec@).take(i as int) =~= texts(vec@));
    result
}

/// Reads the completion marker at `pos`.
fn get_task_state<'a>(tokens: &Vec<Token<'a>>, pos: usize) -> (r: Result<(TaskState, usize), Error>)
    requires
        pos <= tokens@.len(),
    ensures
        match r {
            Ok((state, next)) => pos < tokens@.len() && if tokens@[pos as int] is Done {
                state == TaskState::Done && next == pos + 1
            } else {
                state == TaskState::Todo && next == pos
            },
            Err(e) => pos == tokens@.len() && e is Syntax,
        },
{
    if pos >= tokens.len() {
        return Err(Error::Syntax);
    }
    match &tokens[pos] {
        Token::Done => Ok((TaskState::Done, pos + 1)),
        _ => Ok((TaskState::Todo, pos)),
    }
}

/// Reads a priority token at `pos`.
fn get_task_priority<'a>(tokens: &Vec<Token<'a>>, pos: usize) -> (r: Result<
    (Option<TaskPriority>, usize),
    Error,
>)
    requires
        pos <= tokens@.len(),
    ensures
        match r {
            Ok((priority, next)) => pos < tokens@.len() && match tokens@[pos as int]@ {
                TokenView::Priority(c) => priority == Some(TaskPriority::from_char_spec(c)) && next
                    == pos + 1,
                _ => priority is None && next == pos,
            },
            Err(e) => e is Syntax && pos == tokens@.len(),
        },
{
    if pos >= tokens.len() {
        return Err(Error::Syntax);
    }
    match &tokens[pos] {
        Token::Priority(c) => Ok((Some(TaskPriority::from(*c)), pos + 1)),
        _ => Ok((None, pos)),
    }
}

/// Reads a date token at `pos`.
fn get_date<'a>(tokens: &Vec<Token<'a>>, pos: usize) -> (r: Result<(Option<Date>, usize), Error>)
    requires
        pos <= tokens@.len(),
    ensures
        match r {
            Ok((date, next)) => pos < tokens@.len() && match tokens@[pos as int]@ {
                TokenView::Date(d) => date is Some && date->0@ == d && next == pos + 1,
                _ => date is None && next == pos,
            },
            Err(e) => pos == tokens@.len() && e is Syntax,
        },
{
    if pos >= tokens.len() {
        return Err(Error::Syntax);
    }
    match &tokens[pos] {
        Token::Date(d) => Ok((Some(*d), pos + 1)),
        _ => Ok((None, pos)),
    }
}

/// Reads a record from classified tokens: the completion marker, a priority,
/// one date and, after it, a second one, then the body of description words
/// and tags.
pub fn parse_tokens<'a>(tokens: &Vec<Token<'a>>) -> (r: Result<Task, Error>)
    ensures
        match r {
            Ok(t) => parse_tokens_spec(token_views(tokens@)) == Some(t@),
            Err(e) => parse_tokens_spec(token_views(tokens@)) is None && e is Syntax,
        },
{
    let ghost toks = token_views(tokens@);
    let (state, pos) = match get_task_state(tokens, 0) {
        Ok(x) => x,
        Err(e) => {
            assert(toks.len() == 0);
            assert(body_start(toks) == 0);
            assert(body_of(toks).len() == 0);
            return Err(e);
        },
    };
    assert(pos == state_end(toks));
    let (priority, pos) = match get_task_priority(tokens, pos) {
        Ok(x) => x,
        Err(e) => {
            assert(body_of(toks) =~= Seq::<TokenView>::empty());
            return Err(e);
        },
    };
    assert(pos == priority_end(toks));
    let (date_1, pos) = match get_date(tokens, pos) {
        Ok(x) => x,
        Err(e) => {
            assert(body_of(toks) =~= Seq::<TokenView>::empty());
            return Err(e);
        },
    };
    assert(pos == first_date_end(toks));
    let (date_2, pos) = if date_1.is_some() {
        match get_date(tokens, pos) {
            Ok(x) => x,
            Err(e) => {
                assert(body_of(toks) =~= Seq::<TokenView>::empty());
                return Err(e);
            },
        }
    } else {
        (None, pos)
    };
    assert(pos == body_start(toks));
    let ghost body = body_of(toks);
    let start = pos;
    let sep: &str = " ";
    proof {
        reveal_strlit(" ");
    }
    assert(sep@ =~= seq![' ']);
    let mut description = String::new();
    let mut projects: Vec<String> = Vec::new();
    let mut contexts: Vec<String> = Vec::new();
    let mut k: usize = pos;
    assert(body.take(0) =~= Seq::<TokenView>::empty());
    while k < tokens.len()
        invariant
            start <= k <= tokens@.len(),
            toks == token_views(tokens@),
            sep@ == seq![' '],
            body == toks.skip(start as int),
            body == body_of(toks),
            description@ == description_of(body.take(k - start)),
            texts(projects@) == projects_of(body.take(k - start)),
            texts(contexts@) == contexts_of(body.take(k - start)),
            all_body(body.take(k - start)),
        decreases tokens@.len() - k,
    {
        let ghost b = body.take(k - start + 1);
        assert(b.drop_last() =~= body.take(k - start));
        assert(b.last() == tokens@[k as int]@);
        match &tokens[k] {
            Token::Project(p) => {
                let ghost before = projects@;
                projects.push(String::from_str(p));
                assert(texts(projects@) =~= texts(before).push(p@));
            },
            Token::Context(c) => {
                let ghost before = contexts@;
                contexts.push(String::from_str(c));
                assert(texts(contexts@) =~= texts(before).push(c@));
            },
            Token::Description(d) => {
                let ghost acc = description@;
                if !description.as_str().is_empty() {
                    description.append(sep);
                    assert(description@ =~= acc + seq![' ']);
                }
                description.append(d);
                assert(description@ =~= description_of(b));
            },
            _ => {
                assert(!is_body(body[k - start]));
                assert(!all_body(body));
                return Err(Error::Syntax);
            },
        }
        assert(all_body(b)) by {
            assert forall|i: int| 0 <= i < b.len() implies is_body(#[trigger] b[i]) by {
                if i < b.len() - 1 {
                    assert(b[i] == body.take(k - start)[i]);
                }
            }
        }
        k = k + 1;
    }
    assert(body.take(k - start) =~= body);
    let projects = distinct_vec_hold_order(projects);
    let contexts = distinct_vec_hold_order(contexts);
    if description.as_str().is_empty() {
        return Err(Error::Syntax);
    }
    let completed_date = match (state, date_1, date_2) {
        (TaskState::Done, Some(d), None) => Some(d),
        (_, Some(d1), Some(_d2)) => Some(d1),
        _ => None,
    };
    let created_date = match (state, date_1, date_2) {
        (TaskState::Todo, Some(d), None) => Some(d),
        (_, Some(_d1), Some(d2)) => Some(d2),
        _ => None,
    };
    Ok(
        Task {
            state,
            priority,
            completed_date,
            created_date,
            description: TaskDescription { value: description, project: projects, context: contexts },
        },
    )
}

/// Reads a task record from one line of text. The line is trimmed first; an
/// empty line, like any text that breaks the grammar, is a syntax error.
pub fn from_str(value: &str) -> (r: Result<Task, Error>)
    ensures
        match r {
            Ok(t) => parse_line(value@) == Some(t@) && t@.description.value.len() > 0,
            Err(e) => parse_line(value@) is None && e is Syntax,
        },
{
    let value = trim(value);
    if value.is_empty() {
        return Err(Error::Syntax);
    }
    let tokens = tokenize(value);
    parse_tokens(&tokens)
}

} // verus!
