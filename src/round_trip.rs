//! Reading back the canonical text of a parsed record gives the record.
use crate::date::{
    all_digits, date_of_text, date_text, decimal, digit, digit_value, digits_value, four_digits,
    is_digit, is_plain_date_shape, is_signed_date_shape, plain_date_fields, signed_date_fields,
    valid_date, year_text,
};
use crate::de::{
    body_of, classify, completed_of, contexts_of, created_of, description_of, distinct,
    first_date_of, is_body, is_ascii_letter, parse_line, parse_tokens_spec, priority_of,
    projects_of, second_date_of, state_of, tokens_of, TokenView, all_body, has_priority,
};
use crate::model::{TaskPriority, TaskState, TaskView};
use crate::ser::{date_segment, joined, priority_text, state_text, tags_text, task_text};
use crate::text::{split_spaces, trimmed};
use vstd::prelude::*;

verus! {

/// `s` holds no space.
pub open spec fn no_space(s: Seq<char>) -> bool {
    forall|i: int| 0 <= i < s.len() ==> s[i] != ' '
}

proof fn lemma_split_no_space(s: Seq<char>)
    requires
        no_space(s),
    ensures
        split_spaces(s) == seq![s],
    decreases s.len(),
{
    if s.len() > 0 {
        lemma_split_no_space(s.drop_last());
        assert(s.drop_last().push(s.last()) =~= s);
    } else {
        assert(s =~= Seq::<char>::empty());
    }
}

proof fn lemma_split_append(a: Seq<char>, b: Seq<char>)
    ensures
        split_spaces(a + seq![' '] + b) == split_spaces(a) + split_spaces(b),
    decreases b.len(),
{
    crate::text::lemma_split_spaces_nonempty(a);
    crate::text::lemma_split_spaces_nonempty(b);
    let ab = a + seq![' '] + b;
    if b.len() == 0 {
        assert(ab.drop_last() =~= a);
        assert(split_spaces(b) =~= seq![Seq::<char>::empty()]);
        assert(split_spaces(ab) =~= split_spaces(a) + split_spaces(b));
    } else {
        lemma_split_append(a, b.drop_last());
        crate::text::lemma_split_spaces_nonempty(b.drop_last());
        assert(ab.drop_last() =~= a + seq![' '] + b.drop_last());
        assert(ab.last() == b.last());
        let x = split_spaces(a);
        let y = split_spaces(b.drop_last());
        if b.last() == ' ' {
            assert(split_spaces(ab) =~= x + y.push(Seq::<char>::empty()));
        } else {
            assert((x + y).update((x + y).len() - 1, (x + y).last().push(b.last())) =~= x + y.update(
                y.len() - 1,
                y.last().push(b.last()),
            ));
        }
    }
}

/// The pieces of a split hold no space.
pub proof fn lemma_split_pieces_no_space(s: Seq<char>)
    ensures
        forall|i: int| 0 <= i < split_spaces(s).len() ==> no_space(#[trigger] split_spaces(s)[i]),
    decreases s.len(),
{
    if s.len() > 0 {
        lemma_split_pieces_no_space(s.drop_last());
        crate::text::lemma_split_spaces_nonempty(s.drop_last());
        let t = split_spaces(s.drop_last());
        if s.last() != ' ' {
            assert forall|i: int| 0 <= i < split_spaces(s).len() implies no_space(
                #[trigger] split_spaces(s)[i],
            ) by {
                if i == t.len() - 1 {
                    let p = t.last().push(s.last());
                    assert forall|j: int| 0 <= j < p.len() implies p[j] != ' ' by {
                        if j < p.len() - 1 {
                            assert(p[j] == t.last()[j]);
                        }
                    }
                } else {
                    assert(split_spaces(s)[i] == t[i]);
                }
            }
        } else {
            assert forall|i: int| 0 <= i < split_spaces(s).len() implies no_space(
                #[trigger] split_spaces(s)[i],
            ) by {
                if i < t.len() {
                    assert(split_spaces(s)[i] == t[i]);
                }
            }
        }
    }
}

proof fn lemma_digit(k: int)
    requires
        0 <= k <= 9,
    ensures
        is_digit(digit(k)),
        digit_value(digit(k)) == k,
{
}

proof fn lemma_signed_date_text(d: (int, int, int))
    requires
        valid_date(d),
        !(0 <= d.0 <= 9999),
    ensures
        date_of_text(date_text(d)) == Some(d),
        no_space(date_text(d)),
        date_text(d).len() >= 10,
{
    let y = d.0;
    let a: nat = if y < 0 { (-y) as nat } else { y as nat };
    let sign = if y < 0 { '-' } else { '+' };
    let ys = four_digits(a);
    lemma_four_digits(a);
    lemma_digit(d.1 / 10);
    lemma_digit(d.1 % 10);
    lemma_digit(d.2 / 10);
    lemma_digit(d.2 % 10);
    let t = date_text(d);
    let tail = seq!['-', digit(d.1 / 10), digit(d.1 % 10), '-', digit(d.2 / 10), digit(d.2 % 10)];
    assert(year_text(y) == seq![sign] + ys);
    assert(t =~= seq![sign] + ys + tail);
    assert(t.subrange(1, t.len() - 6) =~= ys);
    assert(t[t.len() - 6] == '-');
    assert(t[t.len() - 5] == digit(d.1 / 10));
    assert(t[t.len() - 4] == digit(d.1 % 10));
    assert(t[t.len() - 3] == '-');
    assert(t[t.len() - 2] == digit(d.2 / 10));
    assert(t[t.len() - 1] == digit(d.2 % 10));
    assert(is_signed_date_shape(t));
    assert(!is_digit(t[0]));
    assert(10 * (d.1 / 10) + d.1 % 10 == d.1);
    assert(10 * (d.2 / 10) + d.2 % 10 == d.2);
    assert(signed_date_fields(t) == d);
    assert forall|i: int| 0 <= i < t.len() implies t[i] != ' ' by {
        if 1 <= i < t.len() - 6 {
            assert(t[i] == ys[i - 1]);
            assert(is_digit(ys[i - 1]));
        }
    }
}

proof fn lemma_decimal(n: nat)
    ensures
        all_digits(decimal(n)),
        digits_value(decimal(n)) == n,
        decimal(n).len() >= 1,
    decreases n,
{
    if n < 10 {
        lemma_digit(n as int);
        assert(decimal(n).drop_last() =~= Seq::<char>::empty());
        assert(digits_value(decimal(n).drop_last()) == 0);
        assert(decimal(n).last() == digit(n as int));
    } else {
        lemma_decimal(n / 10);
        lemma_digit((n % 10) as int);
        let s = decimal(n);
        assert(s.drop_last() == decimal(n / 10));
        assert(s.last() == digit((n % 10) as int));
        assert(digits_value(s) == 10 * (n / 10) as int + (n % 10) as int);
        assert forall|i: int| 0 <= i < s.len() implies is_digit(#[trigger] s[i]) by {
            if i < s.len() - 1 {
                assert(s[i] == decimal(n / 10)[i]);
            }
        }
    }
}

proof fn lemma_four_digits(n: nat)
    ensures
        all_digits(four_digits(n)),
        digits_value(four_digits(n)) == n,
        four_digits(n).len() >= 4,
{
    if n < 10000 {
        let s = four_digits(n);
        lemma_digit((n / 1000) as int);
        lemma_digit(((n / 100) % 10) as int);
        lemma_digit(((n / 10) % 10) as int);
        lemma_digit((n % 10) as int);
        assert(s.drop_last().drop_last().drop_last().drop_last() =~= Seq::<char>::empty());
        reveal_with_fuel(digits_value, 5);
        assert(1000 * (n / 1000) + 100 * ((n / 100) % 10) + 10 * ((n / 10) % 10) + n % 10 == n) by (nonlinear_arith)
            requires
                0 <= n < 10000,
        {
        }
        assert(digits_value(s) == 1000 * (n / 1000) + 100 * ((n / 100) % 10) + 10 * ((n / 10) % 10) + n % 10);
    } else {
        lemma_decimal(n);
        assert(decimal(n).len() >= 4) by {
            lemma_decimal_len(n);
        }
    }
}

proof fn lemma_decimal_len(n: nat)
    requires
        n >= 1000,
    ensures
        decimal(n).len() >= 4,
    decreases n,
{
    lemma_decimal(n / 10);
    if n / 10 >= 1000 {
        lemma_decimal_len(n / 10);
    } else {
        assert(n / 10 >= 100);
        assert(decimal(n / 10).len() >= 3) by {
            assert(decimal(n / 100).len() >= 1) by {
                lemma_decimal(n / 100);
            }
            assert(n / 10 / 10 == n / 100);
            assert(decimal(n / 10 / 10).len() >= 2) by {
                lemma_decimal(n / 1000);
                assert(n / 100 >= 10);
                assert(n / 100 / 10 == n / 1000);
            }
        }
    }
}

/// The text of a date reads back as the date.
pub proof fn lemma_date_text_reads_back(d: (int, int, int))
    requires
        valid_date(d),
    ensures
        date_of_text(date_text(d)) == Some(d),
        no_space(date_text(d)),
        date_text(d).len() >= 10,
{
    if !(0 <= d.0 <= 9999) {
        lemma_signed_date_text(d);
        return;
    }
    let y = d.0;
    let t = date_text(d);
    lemma_digit(y / 1000);
    lemma_digit((y / 100) % 10);
    lemma_digit((y / 10) % 10);
    lemma_digit(y % 10);
    lemma_digit(d.1 / 10);
    lemma_digit(d.1 % 10);
    lemma_digit(d.2 / 10);
    lemma_digit(d.2 % 10);
    assert(t =~= seq![
        digit(y / 1000),
        digit((y / 100) % 10),
        digit((y / 10) % 10),
        digit(y % 10),
        '-',
        digit(d.1 / 10),
        digit(d.1 % 10),
        '-',
        digit(d.2 / 10),
        digit(d.2 % 10),
    ]);
    assert(is_plain_date_shape(t));
    assert(1000 * (y / 1000) + 100 * ((y / 100) % 10) + 10 * ((y / 10) % 10) + y % 10 == y) by (nonlinear_arith)
        requires
            0 <= y <= 9999,
    {
    }
    assert(10 * (d.1 / 10) + d.1 % 10 == d.1);
    assert(10 * (d.2 / 10) + d.2 % 10 == d.2);
    assert(plain_date_fields(t) == d);
}

/// `out` is empty and there are no pieces, or `out` splits into the pieces.
pub open spec fn splits_to(out: Seq<char>, hs: Seq<Seq<char>>) -> bool {
    if out.len() == 0 {
        hs.len() == 0
    } else {
        hs.len() > 0 && split_spaces(out) == hs
    }
}

proof fn lemma_joined_piece(out: Seq<char>, hs: Seq<Seq<char>>, seg: Seq<char>)
    requires
        splits_to(out, hs),
        seg.len() > 0,
        no_space(seg),
    ensures
        splits_to(joined(out, seg), hs.push(seg)),
{
    lemma_split_no_space(seg);
    if out.len() == 0 {
        assert(hs.push(seg) =~= seq![seg]);
    } else {
        lemma_split_append(out, seg);
        assert(hs + seq![seg] =~= hs.push(seg));
    }
}

proof fn lemma_joined_text(out: Seq<char>, hs: Seq<Seq<char>>, d: Seq<char>)
    requires
        splits_to(out, hs),
        d.len() > 0,
    ensures
        split_spaces(joined(out, d)) == hs + split_spaces(d),
        joined(out, d).len() > 0,
{
    if out.len() == 0 {
        assert(hs + split_spaces(d) =~= split_spaces(d));
    } else {
        lemma_split_append(out, d);
    }
}

pub open spec fn tag_pieces(tags: Seq<Seq<char>>, sigil: char) -> Seq<Seq<char>> {
    tags.map_values(|p: Seq<char>| seq![sigil] + p)
}

proof fn lemma_tags_split(out: Seq<char>, tags: Seq<Seq<char>>, sigil: char)
    requires
        out.len() > 0,
        sigil != ' ',
        forall|i: int| 0 <= i < tags.len() ==> no_space(#[trigger] tags[i]),
    ensures
        split_spaces(tags_text(out, tags, sigil)) == split_spaces(out) + tag_pieces(tags, sigil),
        tags_text(out, tags, sigil).len() > 0,
    decreases tags.len(),
{
    if tags.len() == 0 {
        assert(split_spaces(out) + tag_pieces(tags, sigil) =~= split_spaces(out));
    } else {
        let rest = tags.drop_last();
        assert forall|i: int| 0 <= i < rest.len() implies no_space(#[trigger] rest[i]) by {
            assert(rest[i] == tags[i]);
        }
        lemma_tags_split(out, rest, sigil);
        let prev = tags_text(out, rest, sigil);
        let seg = seq![sigil] + tags.last();
        assert(no_space(tags[tags.len() - 1]));
        assert(no_space(seg)) by {
            assert forall|j: int| 0 <= j < seg.len() implies seg[j] != ' ' by {
                if j > 0 {
                    assert(seg[j] == tags.last()[j - 1]);
                }
            }
        }
        lemma_split_no_space(seg);
        lemma_split_append(prev, seg);
        assert(tag_pieces(tags, sigil) =~= tag_pieces(rest, sigil).push(seg));
        assert(split_spaces(out) + tag_pieces(rest, sigil) + seq![seg] =~= split_spaces(out)
            + tag_pieces(tags, sigil));
    }
}

/// Each description token of `b` holds a text without spaces that is
/// classified as a description again.
pub open spec fn plain_descriptions(b: Seq<TokenView>) -> bool {
    forall|i: int|
        0 <= i < b.len() && (#[trigger] b[i]) is Description ==> no_space(b[i]->Description_0)
            && classify(b[i]->Description_0) == b[i]
}

pub open spec fn classified(pieces: Seq<Seq<char>>) -> Seq<TokenView> {
    pieces.map_values(|p: Seq<char>| classify(p))
}

proof fn lemma_description_reads_back(b: Seq<TokenView>)
    requires
        plain_descriptions(b),
    ensures
        description_of(b).len() > 0 ==> (forall|i: int|
            0 <= i < split_spaces(description_of(b)).len() ==> #[trigger] classified(
                split_spaces(description_of(b)),
            )[i] == TokenView::Description(split_spaces(description_of(b))[i])),
        description_of(b).len() > 0 ==> description_of(classified(split_spaces(description_of(b))))
            == description_of(b),
    decreases b.len(),
{
    if b.len() > 0 {
        let a = b.drop_last();
        assert(plain_descriptions(a)) by {
            assert forall|i: int| 0 <= i < a.len() && (#[trigger] a[i]) is Description implies no_space(
                a[i]->Description_0,
            ) && classify(a[i]->Description_0) == a[i] by {
                assert(a[i] == b[i]);
            }
        }
        lemma_description_reads_back(a);
        let prev = description_of(a);
        match b.last() {
            TokenView::Description(d) => {
                assert(b[b.len() - 1] is Description);
                assert(no_space(d) && classify(d) == TokenView::Description(d));
                lemma_split_no_space(d);
                if prev.len() == 0 {
                    assert(description_of(b) == d);
                    if d.len() > 0 {
                        let c = classified(seq![d]);
                        assert(c =~= seq![TokenView::Description(d)]);
                        assert(c.drop_last() =~= Seq::<TokenView>::empty());
                        assert(description_of(c.drop_last()).len() == 0);
                        assert(c.last() == TokenView::Description(d));
                        assert(description_of(c) == d);
                    }
                } else {
                    assert(description_of(b) == prev + seq![' '] + d);
                    lemma_split_append(prev, d);
                    let sp = split_spaces(prev);
                    assert(split_spaces(description_of(b)) == sp + seq![d]);
                    let c = classified(sp + seq![d]);
                    assert(c.drop_last() =~= classified(sp));
                    assert(c.last() == TokenView::Description(d));
                    assert(description_of(c) == prev + seq![' '] + d);
                    assert forall|i: int| 0 <= i < (sp + seq![d]).len() implies #[trigger] c[i]
                        == TokenView::Description((sp + seq![d])[i]) by {
                        if i < sp.len() {
                            assert(classified(sp)[i] == TokenView::Description(sp[i]));
                        }
                    }
                }
            },
            _ => {},
        }
    }
}

proof fn lemma_projects_concat(a: Seq<TokenView>, b: Seq<TokenView>)
    ensures
        projects_of(a + b) == projects_of(a) + projects_of(b),
        contexts_of(a + b) == contexts_of(a) + contexts_of(b),
    decreases b.len(),
{
    if b.len() == 0 {
        assert(a + b =~= a);
        assert(projects_of(a) + projects_of(b) =~= projects_of(a));
        assert(contexts_of(a) + contexts_of(b) =~= contexts_of(a));
    } else {
        lemma_projects_concat(a, b.drop_last());
        assert((a + b).drop_last() =~= a + b.drop_last());
        assert((a + b).last() == b.last());
        assert(projects_of(a) + projects_of(b.drop_last()).push(b.last()->Project_0)
            =~= (projects_of(a) + projects_of(b.drop_last())).push(b.last()->Project_0));
        assert(contexts_of(a) + contexts_of(b.drop_last()).push(b.last()->Context_0)
            =~= (contexts_of(a) + contexts_of(b.drop_last())).push(b.last()->Context_0));
    }
}

proof fn lemma_description_concat(a: Seq<TokenView>, b: Seq<TokenView>)
    requires
        forall|i: int| 0 <= i < b.len() ==> !(#[trigger] b[i] is Description),
    ensures
        description_of(a + b) == description_of(a),
    decreases b.len(),
{
    if b.len() == 0 {
        assert(a + b =~= a);
    } else {
        let c = b.drop_last();
        assert forall|i: int| 0 <= i < c.len() implies !(#[trigger] c[i] is Description) by {
            assert(c[i] == b[i]);
        }
        lemma_description_concat(a, c);
        assert((a + b).drop_last() =~= a + c);
        assert(!(b[b.len() - 1] is Description));
    }
}

proof fn lemma_only_descriptions(b: Seq<TokenView>)
    requires
        forall|i: int| 0 <= i < b.len() ==> #[trigger] b[i] is Description,
    ensures
        projects_of(b) == Seq::<Seq<char>>::empty(),
        contexts_of(b) == Seq::<Seq<char>>::empty(),
    decreases b.len(),
{
    if b.len() > 0 {
        let c = b.drop_last();
        assert forall|i: int| 0 <= i < c.len() implies #[trigger] c[i] is Description by {
            assert(c[i] == b[i]);
        }
        lemma_only_descriptions(c);
        assert(b[b.len() - 1] is Description);
    }
}

pub open spec fn project_tokens(labels: Seq<Seq<char>>) -> Seq<TokenView> {
    labels.map_values(|p: Seq<char>| TokenView::Project(p))
}

pub open spec fn context_tokens(labels: Seq<Seq<char>>) -> Seq<TokenView> {
    labels.map_values(|c: Seq<char>| TokenView::Context(c))
}

proof fn lemma_tag_tokens(labels: Seq<Seq<char>>)
    ensures
        projects_of(project_tokens(labels)) == labels,
        contexts_of(project_tokens(labels)) == Seq::<Seq<char>>::empty(),
        projects_of(context_tokens(labels)) == Seq::<Seq<char>>::empty(),
        contexts_of(context_tokens(labels)) == labels,
    decreases labels.len(),
{
    if labels.len() > 0 {
        lemma_tag_tokens(labels.drop_last());
        assert(project_tokens(labels).drop_last() =~= project_tokens(labels.drop_last()));
        assert(context_tokens(labels).drop_last() =~= context_tokens(labels.drop_last()));
        assert(labels.drop_last().push(labels.last()) =~= labels);
    } else {
        assert(labels =~= Seq::<Seq<char>>::empty());
    }
}

/// `s` holds no label twice: `distinct` leaves it as it is.
proof fn lemma_distinct_of_distinct(s: Seq<Seq<char>>)
    requires
        s.no_duplicates(),
    ensures
        distinct(s) == s,
    decreases s.len(),
{
    if s.len() > 0 {
        let a = s.drop_last();
        assert(a.no_duplicates()) by {
            assert forall|i: int, j: int| 0 <= i < a.len() && 0 <= j < a.len() && i != j implies a[i]
                != a[j] by {
                assert(a[i] == s[i] && a[j] == s[j]);
            }
        }
        lemma_distinct_of_distinct(a);
        assert(!a.contains(s.last())) by {
            if a.contains(s.last()) {
                let i = choose|i: int| 0 <= i < a.len() && a[i] == s.last();
                assert(s[i] == s[s.len() - 1]);
            }
        }
        assert(a.push(s.last()) =~= s);
    } else {
        assert(s =~= Seq::<Seq<char>>::empty());
    }
}

/// The text before the description: marker, priority and dates.
pub open spec fn prefix_text(t: TaskView) -> Seq<char> {
    date_segment(
        date_segment(priority_text(state_text(Seq::empty(), t.state), t.priority), t.completed_date),
        t.created_date,
    )
}

pub open spec fn header_pieces(t: TaskView) -> Seq<Seq<char>> {
    let a = if t.state == TaskState::Done {
        seq![seq!['x']]
    } else {
        Seq::empty()
    };
    let b = match t.priority {
        Some(p) => a.push(seq!['(', p.letter(), ')']),
        None => a,
    };
    let c = match t.completed_date {
        Some(d) => b.push(date_text(d)),
        None => b,
    };
    match t.created_date {
        Some(d) => c.push(date_text(d)),
        None => c,
    }
}

pub open spec fn header_tokens(t: TaskView) -> Seq<TokenView> {
    let a = if t.state == TaskState::Done {
        seq![TokenView::Done]
    } else {
        Seq::empty()
    };
    let b = match t.priority {
        Some(p) => a.push(TokenView::Priority(p.letter())),
        None => a,
    };
    let c = match t.completed_date {
        Some(d) => b.push(TokenView::Date(d)),
        None => b,
    };
    match t.created_date {
        Some(d) => c.push(TokenView::Date(d)),
        None => c,
    }
}

/// The dates of a record exist.
pub open spec fn valid_dates(t: TaskView) -> bool {
    &&& (t.completed_date matches Some(d) ==> valid_date(d))
    &&& (t.created_date matches Some(d) ==> valid_date(d))
}

/// The dates of a record are as a parse assigns them: one date alone is a
/// completion date exactly when the record is completed.
pub open spec fn date_shape(t: TaskView) -> bool {
    &&& (t.completed_date is Some && t.created_date is None) ==> t.state == TaskState::Done
    &&& (t.completed_date is None && t.created_date is Some) ==> t.state == TaskState::Todo
}

proof fn lemma_priority_letter(p: TaskPriority)
    ensures
        TaskPriority::from_char_spec(p.letter()) == p,
        is_ascii_letter(p.letter()),
        p.letter() != '(',
        p.letter() != ')',
        p.letter() != ' ',
{
}

proof fn lemma_header_split(t: TaskView)
    requires
        valid_dates(t),
    ensures
        splits_to(prefix_text(t), header_pieces(t)),
{
    let e = Seq::<char>::empty();
    let a = state_text(e, t.state);
    let ha = if t.state == TaskState::Done {
        seq![seq!['x']]
    } else {
        Seq::<Seq<char>>::empty()
    };
    if t.state == TaskState::Done {
        assert(a =~= seq!['x']);
        lemma_split_no_space(seq!['x']);
    }
    assert(splits_to(a, ha));
    let b = priority_text(a, t.priority);
    let hb = match t.priority {
        Some(p) => ha.push(seq!['(', p.letter(), ')']),
        None => ha,
    };
    if let Some(p) = t.priority {
        lemma_priority_letter(p);
        lemma_joined_piece(a, ha, seq!['(', p.letter(), ')']);
    }
    let c = date_segment(b, t.completed_date);
    let hc = match t.completed_date {
        Some(d) => hb.push(date_text(d)),
        None => hb,
    };
    if let Some(d) = t.completed_date {
        lemma_date_text_reads_back(d);
        lemma_joined_piece(b, hb, date_text(d));
    }
    if let Some(d) = t.created_date {
        lemma_date_text_reads_back(d);
        lemma_joined_piece(c, hc, date_text(d));
    }
}

proof fn lemma_header_classified(t: TaskView)
    requires
        valid_dates(t),
    ensures
        classified(header_pieces(t)) == header_tokens(t),
{
    if let Some(p) = t.priority {
        lemma_priority_letter(p);
        let q = seq!['(', p.letter(), ')'];
        assert(q != seq!['x']) by {
            assert(q.len() != seq!['x'].len());
        }
        assert(q.drop_first() =~= seq![p.letter(), ')']);
        assert(seq![p.letter(), ')'].drop_last() =~= seq![p.letter()]);
        assert(classify(q) == TokenView::Priority(p.letter()));
    }
    if let Some(d) = t.completed_date {
        lemma_date_text_reads_back(d);
        assert(date_text(d) != seq!['x']) by {
            assert(date_text(d).len() != seq!['x'].len());
        }
    }
    if let Some(d) = t.created_date {
        lemma_date_text_reads_back(d);
        assert(date_text(d) != seq!['x']) by {
            assert(date_text(d).len() != seq!['x'].len());
        }
    }
    if t.state == TaskState::Done {
        assert(classify(seq!['x']) == TokenView::Done);
    }
    assert(classified(header_pieces(t)) =~= header_tokens(t));
}

proof fn lemma_header_parse(t: TaskView, rest: Seq<TokenView>)
    requires
        rest.len() > 0,
        rest[0] is Description,
        date_shape(t),
    ensures
        body_of(header_tokens(t) + rest) == rest,
        state_of(header_tokens(t) + rest) == t.state,
        priority_of(header_tokens(t) + rest) == t.priority,
        completed_of(
            t.state,
            first_date_of(header_tokens(t) + rest),
            second_date_of(header_tokens(t) + rest),
        ) == t.completed_date,
        created_of(
            t.state,
            first_date_of(header_tokens(t) + rest),
            second_date_of(header_tokens(t) + rest),
        ) == t.created_date,
{
    let h = header_tokens(t);
    let toks = h + rest;
    if let Some(p) = t.priority {
        lemma_priority_letter(p);
    }
    assert(forall|i: int| 0 <= i < h.len() ==> toks[i] == h[i]);
    assert(forall|i: int| h.len() <= i < toks.len() ==> toks[i] == rest[i - h.len()]);
    assert(toks[h.len() as int] is Description);
    assert(toks.skip(h.len() as int) =~= rest);
}

/// A tag label without spaces that does not start with its sigil.
pub open spec fn tag_token(p: Seq<char>, sigil: char) -> TokenView {
    if sigil == '+' {
        TokenView::Project(p)
    } else {
        TokenView::Context(p)
    }
}

/// A tag label without spaces whose text, sigil included, reads back as it.
pub open spec fn good_label(p: Seq<char>, sigil: char) -> bool {
    no_space(p) && classify(seq![sigil] + p) == tag_token(p, sigil)
}

pub open spec fn good_labels(s: Seq<Seq<char>>, sigil: char) -> bool {
    forall|i: int| 0 <= i < s.len() ==> good_label(#[trigger] s[i], sigil)
}

/// The tokens of a body read from a piece without spaces.
pub open spec fn plain_token(tok: TokenView) -> bool {
    &&& (tok matches TokenView::Project(p) ==> good_label(p, '+'))
    &&& (tok matches TokenView::Context(c) ==> good_label(c, '@'))
    &&& (tok matches TokenView::Description(d) ==> no_space(d) && classify(d) == tok)
}

proof fn lemma_classify_plain(p: Seq<char>)
    requires
        no_space(p),
    ensures
        plain_token(classify(p)),
{
    if p.len() > 0 {
        let q = p.drop_first();
        assert(seq![p[0]] + q =~= p);
        assert(no_space(q)) by {
            assert forall|i: int| 0 <= i < q.len() implies q[i] != ' ' by {
                assert(q[i] == p[i + 1]);
            }
        }
    }
}

proof fn lemma_labels_of_plain(b: Seq<TokenView>)
    requires
        forall|i: int| 0 <= i < b.len() ==> plain_token(#[trigger] b[i]),
    ensures
        good_labels(projects_of(b), '+'),
        good_labels(contexts_of(b), '@'),
    decreases b.len(),
{
    if b.len() > 0 {
        let c = b.drop_last();
        assert forall|i: int| 0 <= i < c.len() implies plain_token(#[trigger] c[i]) by {
            assert(c[i] == b[i]);
        }
        lemma_labels_of_plain(c);
        assert(plain_token(b[b.len() - 1]));
    }
}

proof fn lemma_distinct_labels(s: Seq<Seq<char>>, sigil: char)
    requires
        good_labels(s, sigil),
    ensures
        good_labels(distinct(s), sigil),
        distinct(s).no_duplicates(),
{
    crate::laws::lemma_distinct_unique(s);
    assert forall|i: int| 0 <= i < distinct(s).len() implies good_label(#[trigger] distinct(s)[i], sigil) by {
        assert(distinct(s).contains(distinct(s)[i]));
        assert(s.contains(distinct(s)[i]));
        let j = choose|j: int| 0 <= j < s.len() && s[j] == distinct(s)[i];
        assert(good_label(s[j], sigil));
    }
}

/// What a successful parse guarantees of its record and of the body it was
/// read from.
proof fn lemma_parse_facts(s: Seq<char>)
    requires
        parse_line(s) is Some,
    ensures
        ({
            let t = parse_line(s)->0;
            let body = body_of(tokens_of(trimmed(s)));
            &&& date_shape(t)
            &&& plain_descriptions(body)
            &&& t.description.value == description_of(body)
            &&& t.description.value.len() > 0
            &&& good_labels(t.description.project, '+')
            &&& good_labels(t.description.context, '@')
            &&& t.description.project.no_duplicates()
            &&& t.description.context.no_duplicates()
            &&& (t.completed_date matches Some(d) ==> valid_date(d))
            &&& (t.created_date matches Some(d) ==> valid_date(d))
        }),
{
    let line = trimmed(s);
    let pieces = split_spaces(line);
    let toks = tokens_of(line);
    lemma_split_pieces_no_space(line);
    assert forall|i: int| 0 <= i < toks.len() implies plain_token(#[trigger] toks[i]) by {
        assert(toks[i] == classify(pieces[i]));
        lemma_classify_plain(pieces[i]);
    }
    let body = body_of(toks);
    let k = crate::de::body_start(toks);
    assert forall|i: int| 0 <= i < body.len() implies plain_token(#[trigger] body[i]) by {
        assert(body[i] == toks[i + k]);
    }
    assert(plain_descriptions(body));
    lemma_labels_of_plain(body);
    lemma_distinct_labels(projects_of(body), '+');
    lemma_distinct_labels(contexts_of(body), '@');
    assert forall|i: int| 0 <= i < toks.len() && (#[trigger] toks[i]) is Date implies valid_date(
        toks[i]->Date_0,
    ) by {
        assert(toks[i] == classify(pieces[i]));
    }
}

/// The canonical text of a parsed record reads back as the same record.
///
/// Left out: records whose text would start or end with white space (a
/// description that starts or ends with a tab), since reading trims it.
#[verifier::rlimit(60)]
#[verifier::spinoff_prover]
pub proof fn law_round_trip(s: Seq<char>)
    requires
        parse_line(s) is Some,
        trimmed(task_text(parse_line(s)->0)) == task_text(parse_line(s)->0),
    ensures
        parse_line(task_text(parse_line(s)->0)) == parse_line(s),
{
    let t = parse_line(s)->0;
    let body = body_of(tokens_of(trimmed(s)));
    lemma_parse_facts(s);
    let d = t.description.value;
    let projects = t.description.project;
    let contexts = t.description.context;
    let pre = prefix_text(t);
    let hs = header_pieces(t);
    lemma_header_split(t);
    lemma_header_classified(t);
    let j1 = joined(pre, d);
    lemma_joined_text(pre, hs, d);
    assert forall|i: int| 0 <= i < projects.len() implies no_space(#[trigger] projects[i]) by {
        assert(good_label(projects[i], '+'));
    }
    assert forall|i: int| 0 <= i < contexts.len() implies no_space(#[trigger] contexts[i]) by {
        assert(good_label(contexts[i], '@'));
    }
    lemma_tags_split(j1, projects, '+');
    let j2 = tags_text(j1, projects, '+');
    lemma_tags_split(j2, contexts, '@');
    let text = task_text(t);
    assert(text == tags_text(j2, contexts, '@'));
    let ds = split_spaces(d);
    let tp = tag_pieces(projects, '+');
    let tc = tag_pieces(contexts, '@');
    assert(split_spaces(text) == hs + ds + tp + tc);
    lemma_description_reads_back(body);
    let dt = classified(ds);
    let pt = project_tokens(projects);
    let ct = context_tokens(contexts);
    assert(classified(tp) =~= pt) by {
        assert forall|i: int| 0 <= i < tp.len() implies classified(tp)[i] == pt[i] by {
            let q = projects[i];
            let w = seq!['+'] + q;
            assert(tp[i] == w);
            assert(good_label(q, '+'));
        }
    }
    assert(classified(tc) =~= ct) by {
        assert forall|i: int| 0 <= i < tc.len() implies classified(tc)[i] == ct[i] by {
            let q = contexts[i];
            let w = seq!['@'] + q;
            assert(tc[i] == w);
            assert(good_label(q, '@'));
        }
    }
    let rest = dt + pt + ct;
    assert(classified(split_spaces(text)) =~= header_tokens(t) + rest);
    crate::text::lemma_split_spaces_nonempty(d);
    assert(rest[0] == dt[0]);
    lemma_header_parse(t, rest);
    let toks2 = header_tokens(t) + rest;
    assert(all_body(rest)) by {
        assert forall|i: int| 0 <= i < rest.len() implies is_body(#[trigger] rest[i]) by {
            if i < dt.len() {
                assert(rest[i] == dt[i]);
            } else if i < dt.len() + pt.len() {
                assert(rest[i] == pt[i - dt.len()]);
            } else {
                assert(rest[i] == ct[i - dt.len() - pt.len()]);
            }
        }
    }
    assert(description_of(rest) == d) by {
        let tags = pt + ct;
        assert(rest =~= dt + tags);
        assert forall|i: int| 0 <= i < tags.len() implies !(#[trigger] tags[i] is Description) by {
            if i < pt.len() {
                assert(tags[i] == pt[i]);
            } else {
                assert(tags[i] == ct[i - pt.len()]);
            }
        }
        lemma_description_concat(dt, tags);
    }
    assert forall|i: int| 0 <= i < dt.len() implies #[trigger] dt[i] is Description by {
        assert(dt[i] == TokenView::Description(ds[i]));
    }
    lemma_only_descriptions(dt);
    lemma_tag_tokens(projects);
    lemma_tag_tokens(contexts);
    lemma_projects_concat(dt, pt);
    lemma_projects_concat(dt + pt, ct);
    assert(projects_of(rest) =~= projects);
    assert(contexts_of(rest) =~= contexts);
    lemma_distinct_of_distinct(projects);
    lemma_distinct_of_distinct(contexts);
    assert(tokens_of(text) == toks2);
    assert(parse_tokens_spec(toks2) == Some(t));
}

/// Writing, reading and writing again gives the first text: the canonical
/// text of a parsed record is a fixed point. Left out are the same records as
/// for the round trip.
pub proof fn law_canonical_idempotent(s: Seq<char>)
    requires
        parse_line(s) is Some,
        trimmed(task_text(parse_line(s)->0)) == task_text(parse_line(s)->0),
    ensures
        parse_line(task_text(parse_line(s)->0)) is Some,
        task_text(parse_line(task_text(parse_line(s)->0))->0) == task_text(parse_line(s)->0),
{
    law_round_trip(s);
}

} // verus!
