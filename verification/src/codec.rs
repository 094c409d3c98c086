//! The persisted text format: rendering a collection to one structured text
//! document and parsing it back.
//!
//! The document is a bracketed list of records, one per task, each naming the
//! fields `description`, `completed`, `due_date`, `priority` and `tags`:
//! dates in ISO `YYYY-MM-DD` form, the priority as one of the literal tokens
//! `High`, `Medium`, `Low`, and tags as an ordered list of quoted strings.
//! Inside a quoted string the quote and the backslash are backslash-escaped.
//! The parser accepts exactly the rendered form; any other text fails to
//! parse, and a caller then starts from an empty collection.

use vstd::prelude::*;
use vstd::string::*;

use crate::date::{date_wf, Date};
use crate::task::{tag_views, task_views, Priority, Task, TaskList, TaskView};

verus! {

// ---------------------------------------------------------------------------
// Rendering, as spec functions over character sequences.
// ---------------------------------------------------------------------------

/// How one character stands inside a quoted string: quote and backslash get a
/// backslash before them, every other character stands as itself.
pub open spec fn esc_char(c: char) -> Seq<char> {
    if c == '"' || c == '\\' {
        seq!['\\', c]
    } else {
        seq![c]
    }
}

/// A string's characters, each escaped.
pub open spec fn esc(s: Seq<char>) -> Seq<char>
    decreases s.len(),
{
    if s.len() == 0 {
        Seq::empty()
    } else {
        esc_char(s[0]) + esc(s.skip(1))
    }
}

/// The decimal digit character for `n` in `0..=9`.
pub open spec fn digit_char(n: int) -> char {
    if n == 0 { '0' }
    else if n == 1 { '1' }
    else if n == 2 { '2' }
    else if n == 3 { '3' }
    else if n == 4 { '4' }
    else if n == 5 { '5' }
    else if n == 6 { '6' }
    else if n == 7 { '7' }
    else if n == 8 { '8' }
    else { '9' }
}

/// A date as the ten characters `YYYY-MM-DD`.
pub open spec fn render_date(d: Date) -> Seq<char> {
    let y = d.year as int;
    let m = d.month as int;
    let dy = d.day as int;
    seq![
        digit_char(y / 1000),
        digit_char((y % 1000) / 100),
        digit_char(((y % 1000) % 100) / 10),
        digit_char(((y % 1000) % 100) % 10),
        '-',
        digit_char(m / 10),
        digit_char(m % 10),
        '-',
        digit_char(dy / 10),
        digit_char(dy % 10),
    ]
}

/// `null`, or a quoted date.
pub open spec fn render_due(dd: Option<Date>) -> Seq<char> {
    match dd {
        None => "null"@,
        Some(d) => seq!['"'] + render_date(d) + seq!['"'],
    }
}

/// The priority's literal token.
pub open spec fn render_priority(p: Priority) -> Seq<char> {
    match p {
        Priority::High => "High"@,
        Priority::Medium => "Medium"@,
        Priority::Low => "Low"@,
    }
}

/// The boolean's literal token.
pub open spec fn render_bool(b: bool) -> Seq<char> {
    if b {
        "true"@
    } else {
        "false"@
    }
}

/// The quoted tags after the first, each behind a comma.
pub open spec fn render_tags_rest(tags: Seq<Seq<char>>) -> Seq<char>
    decreases tags.len(),
{
    if tags.len() == 0 {
        Seq::empty()
    } else {
        seq![','] + seq!['"'] + esc(tags[0]) + seq!['"'] + render_tags_rest(tags.skip(1))
    }
}

/// The quoted tags, comma-separated, without the surrounding brackets.
pub open spec fn render_tags(tags: Seq<Seq<char>>) -> Seq<char> {
    if tags.len() == 0 {
        Seq::empty()
    } else {
        seq!['"'] + esc(tags[0]) + seq!['"'] + render_tags_rest(tags.skip(1))
    }
}

/// One task's record.
#[verifier::opaque]
pub open spec fn render_task(t: TaskView) -> Seq<char> {
    "{\"description\":\""@ + (esc(t.description) + (seq!['"'] + (",\"completed\":"@ + (render_bool(
        t.completed,
    ) + (",\"due_date\":"@ + (render_due(t.due_date) + (",\"priority\":\""@ + (render_priority(
        t.priority,
    ) + ("\",\"tags\":["@ + (render_tags(t.tags) + (seq![']'] + seq!['}'])))))))))))
}

/// The records after the first, each behind a comma.
pub open spec fn render_tasks_rest(ts: Seq<TaskView>) -> Seq<char>
    decreases ts.len(),
{
    if ts.len() == 0 {
        Seq::empty()
    } else {
        seq![','] + render_task(ts[0]) + render_tasks_rest(ts.skip(1))
    }
}

/// The records, comma-separated, without the surrounding brackets.
pub open spec fn render_tasks(ts: Seq<TaskView>) -> Seq<char> {
    if ts.len() == 0 {
        Seq::empty()
    } else {
        render_task(ts[0]) + render_tasks_rest(ts.skip(1))
    }
}

/// The whole document: the bracketed, comma-separated records.
pub open spec fn render_document(ts: Seq<TaskView>) -> Seq<char> {
    seq!['['] + render_tasks(ts) + seq![']']
}

// ---------------------------------------------------------------------------
// Parsing, as spec functions consuming from the front of the text. Each
// returns the parsed value and the remaining suffix, or nothing.
// ---------------------------------------------------------------------------

/// Consumes `lit` from the front of `s`.
pub open spec fn parse_lit(s: Seq<char>, lit: Seq<char>) -> Option<Seq<char>> {
    if s.len() >= lit.len() && s.take(lit.len() as int) == lit {
        Some(s.skip(lit.len() as int))
    } else {
        None
    }
}

/// Consumes a quoted string's body up to and including the closing quote,
/// undoing the backslash escapes.
pub open spec fn parse_strbody(s: Seq<char>) -> Option<(Seq<char>, Seq<char>)>
    decreases s.len(),
{
    if s.len() == 0 {
        None
    } else if s[0] == '"' {
        Some((Seq::empty(), s.skip(1)))
    } else if s[0] == '\\' {
        if s.len() >= 2 && (s[1] == '"' || s[1] == '\\') {
            match parse_strbody(s.skip(2)) {
                Some(p) => Some((seq![s[1]] + p.0, p.1)),
                None => None,
            }
        } else {
            None
        }
    } else {
        match parse_strbody(s.skip(1)) {
            Some(p) => Some((seq![s[0]] + p.0, p.1)),
            None => None,
        }
    }
}

/// The value of a decimal digit character.
pub open spec fn digit_val(c: char) -> Option<int> {
    if c == '0' { Some(0) }
    else if c == '1' { Some(1) }
    else if c == '2' { Some(2) }
    else if c == '3' { Some(3) }
    else if c == '4' { Some(4) }
    else if c == '5' { Some(5) }
    else if c == '6' { Some(6) }
    else if c == '7' { Some(7) }
    else if c == '8' { Some(8) }
    else if c == '9' { Some(9) }
    else { None }
}

/// Whether the ten characters at the front of `s` have the `YYYY-MM-DD`
/// shape: digits and dashes in place.
pub open spec fn date_shape(s: Seq<char>) -> bool {
    s.len() >= 10 && s[4] == '-' && s[7] == '-'
        && digit_val(s[0]) is Some && digit_val(s[1]) is Some
        && digit_val(s[2]) is Some && digit_val(s[3]) is Some
        && digit_val(s[5]) is Some && digit_val(s[6]) is Some
        && digit_val(s[8]) is Some && digit_val(s[9]) is Some
}

/// Consumes a `YYYY-MM-DD` date whose month and day are in calendar range.
pub open spec fn parse_date(s: Seq<char>) -> Option<(Date, Seq<char>)> {
    if date_shape(s) {
        let y = digit_val(s[0]).unwrap() * 1000 + digit_val(s[1]).unwrap() * 100
            + digit_val(s[2]).unwrap() * 10 + digit_val(s[3]).unwrap();
        let m = digit_val(s[5]).unwrap() * 10 + digit_val(s[6]).unwrap();
        let d = digit_val(s[8]).unwrap() * 10 + digit_val(s[9]).unwrap();
        if 1 <= m <= 12 && 1 <= d <= 31 {
            Some(((Date { year: y as u16, month: m as u8, day: d as u8 }), s.skip(10)))
        } else {
            None
        }
    } else {
        None
    }
}

/// Consumes `null` or a quoted date.
pub open spec fn parse_due(s: Seq<char>) -> Option<(Option<Date>, Seq<char>)> {
    if s.len() > 0 && s[0] == '"' {
        match parse_date(s.skip(1)) {
            Some(p) => if p.1.len() > 0 && p.1[0] == '"' {
                Some((Some(p.0), p.1.skip(1)))
            } else {
                None
            },
            None => None,
        }
    } else {
        match parse_lit(s, "null"@) {
            Some(r) => Some((None, r)),
            None => None,
        }
    }
}

/// Consumes `true` or `false`.
pub open spec fn parse_bool(s: Seq<char>) -> Option<(bool, Seq<char>)> {
    match parse_lit(s, "true"@) {
        Some(r) => Some((true, r)),
        None => match parse_lit(s, "false"@) {
            Some(r) => Some((false, r)),
            None => None,
        },
    }
}

/// Consumes a priority token.
pub open spec fn parse_priority_tok(s: Seq<char>) -> Option<(Priority, Seq<char>)> {
    match parse_lit(s, "High"@) {
        Some(r) => Some((Priority::High, r)),
        None => match parse_lit(s, "Medium"@) {
            Some(r) => Some((Priority::Medium, r)),
            None => match parse_lit(s, "Low"@) {
                Some(r) => Some((Priority::Low, r)),
                None => None,
            },
        },
    }
}

/// After the first tag: consumes `,` and a quoted tag as long as a comma
/// stands in front, then the closing `]`.
pub open spec fn parse_tags_rest(s: Seq<char>) -> Option<(Seq<Seq<char>>, Seq<char>)>
    decreases s.len(),
    via parse_tags_rest_dec
{
    if s.len() == 0 {
        None
    } else if s[0] == ']' {
        Some((Seq::empty(), s.skip(1)))
    } else if s[0] == ',' && s.len() >= 2 && s[1] == '"' {
        match parse_strbody(s.skip(2)) {
            Some(p) => match parse_tags_rest(p.1) {
                Some(q) => Some((seq![p.0] + q.0, q.1)),
                None => None,
            },
            None => None,
        }
    } else {
        None
    }
}

#[via_fn]
proof fn parse_tags_rest_dec(s: Seq<char>) {
    if s.len() >= 2 && s[0] == ',' && s[1] == '"' {
        lemma_parse_strbody_len(s.skip(2));
    }
}

/// Consumes the bracketed tag list's inside, from just after `[` through `]`.
pub open spec fn parse_tags(s: Seq<char>) -> Option<(Seq<Seq<char>>, Seq<char>)> {
    if s.len() > 0 && s[0] == ']' {
        Some((Seq::empty(), s.skip(1)))
    } else if s.len() > 0 && s[0] == '"' {
        match parse_strbody(s.skip(1)) {
            Some(p) => match parse_tags_rest(p.1) {
                Some(q) => Some((seq![p.0] + q.0, q.1)),
                None => None,
            },
            None => None,
        }
    } else {
        None
    }
}

/// Consumes one task's record.
#[verifier::opaque]
pub open spec fn parse_task(s: Seq<char>) -> Option<(TaskView, Seq<char>)> {
    match parse_lit(s, "{\"description\":\""@) {
        None => None,
        Some(r1) => match parse_strbody(r1) {
            None => None,
            Some((desc, r2)) => match parse_lit(r2, ",\"completed\":"@) {
                None => None,
                Some(r3) => match parse_bool(r3) {
                    None => None,
                    Some((b, r4)) => match parse_lit(r4, ",\"due_date\":"@) {
                        None => None,
                        Some(r5) => match parse_due(r5) {
                            None => None,
                            Some((dd, r6)) => match parse_lit(r6, ",\"priority\":\""@) {
                                None => None,
                                Some(r7) => match parse_priority_tok(r7) {
                                    None => None,
                                    Some((p, r8)) => match parse_lit(r8, "\",\"tags\":["@) {
                                        None => None,
                                        Some(r9) => match parse_tags(r9) {
                                            None => None,
                                            Some((tags, r10)) => match parse_lit(r10, "}"@) {
                                                None => None,
                                                Some(r11) => Some(
                                                    (
                                                        (TaskView {
                                                            description: desc,
                                                            completed: b,
                                                            due_date: dd,
                                                            priority: p,
                                                            tags,
                                                        }),
                                                        r11,
                                                    ),
                                                ),
                                            },
                                        },
                                    },
                                },
                            },
                        },
                    },
                },
            },
        },
    }
}

/// After the first record: consumes `,` and a record as long as a comma
/// stands in front, then the closing `]`.
pub open spec fn parse_tasks_rest(s: Seq<char>) -> Option<(Seq<TaskView>, Seq<char>)>
    decreases s.len(),
    via parse_tasks_rest_dec
{
    if s.len() == 0 {
        None
    } else if s[0] == ']' {
        Some((Seq::empty(), s.skip(1)))
    } else if s[0] == ',' {
        match parse_task(s.skip(1)) {
            Some(p) => match parse_tasks_rest(p.1) {
                Some(q) => Some((seq![p.0] + q.0, q.1)),
                None => None,
            },
            None => None,
        }
    } else {
        None
    }
}

#[via_fn]
proof fn parse_tasks_rest_dec(s: Seq<char>) {
    if s.len() > 0 && s[0] == ',' {
        lemma_parse_task_len(s.skip(1));
    }
}

/// Consumes the document's inside, from just after `[` through `]`.
pub open spec fn parse_tasks(s: Seq<char>) -> Option<(Seq<TaskView>, Seq<char>)> {
    if s.len() > 0 && s[0] == ']' {
        Some((Seq::empty(), s.skip(1)))
    } else {
        match parse_task(s) {
            Some(p) => match parse_tasks_rest(p.1) {
                Some(q) => Some((seq![p.0] + q.0, q.1)),
                None => None,
            },
            None => None,
        }
    }
}

/// The whole document: the bracketed records and nothing after them.
pub open spec fn parse_document(s: Seq<char>) -> Option<Seq<TaskView>> {
    if s.len() > 0 && s[0] == '[' {
        match parse_tasks(s.skip(1)) {
            Some(p) => if p.1.len() == 0 {
                Some(p.0)
            } else {
                None
            },
            None => None,
        }
    } else {
        None
    }
}

// ---------------------------------------------------------------------------
// Length facts, needed for the parsers' termination.
// ---------------------------------------------------------------------------

/// A parsed string body leaves a strictly shorter suffix.
pub proof fn lemma_parse_strbody_len(s: Seq<char>)
    ensures
        parse_strbody(s) matches Some(p) ==> p.1.len() < s.len(),
    decreases s.len(),
{
    if s.len() == 0 {
    } else if s[0] == '"' {
    } else if s[0] == '\\' {
        if s.len() >= 2 && (s[1] == '"' || s[1] == '\\') {
            lemma_parse_strbody_len(s.skip(2));
        }
    } else {
        lemma_parse_strbody_len(s.skip(1));
    }
}

/// A parsed tag list leaves a strictly shorter suffix.
pub proof fn lemma_parse_tags_rest_len(s: Seq<char>)
    ensures
        parse_tags_rest(s) matches Some(p) ==> p.1.len() < s.len(),
    decreases s.len(),
{
    if s.len() >= 2 && s[0] == ',' && s[1] == '"' {
        lemma_parse_strbody_len(s.skip(2));
        let o = parse_strbody(s.skip(2));
        if o is Some {
            lemma_parse_tags_rest_len(o.unwrap().1);
        }
    }
}

/// A parsed record leaves a strictly shorter suffix.
pub proof fn lemma_parse_task_len(s: Seq<char>)
    ensures
        parse_task(s) matches Some(p) ==> p.1.len() < s.len(),
{
    reveal(parse_task);
    let o1 = parse_lit(s, "{\"description\":\""@);
    if o1 is Some {
        let r1 = o1.unwrap();
        lemma_parse_strbody_len(r1);
        let o2 = parse_strbody(r1);
        if o2 is Some {
            let r2 = o2.unwrap().1;
            let o3 = parse_lit(r2, ",\"completed\":"@);
            if o3 is Some {
                let o4 = parse_bool(o3.unwrap());
                if o4 is Some {
                    let o5 = parse_lit(o4.unwrap().1, ",\"due_date\":"@);
                    if o5 is Some {
                        let o6 = parse_due(o5.unwrap());
                        if o6 is Some {
                            let o7 = parse_lit(o6.unwrap().1, ",\"priority\":\""@);
                            if o7 is Some {
                                let o8 = parse_priority_tok(o7.unwrap());
                                if o8 is Some {
                                    let o9 = parse_lit(o8.unwrap().1, "\",\"tags\":["@);
                                    if o9 is Some {
                                        let r9 = o9.unwrap();
                                        if r9.len() > 0 && r9[0] == ']' {
                                        } else if r9.len() > 0 && r9[0] == '"' {
                                            lemma_parse_strbody_len(r9.skip(1));
                                            let oq = parse_strbody(r9.skip(1));
                                            if oq is Some {
                                                lemma_parse_tags_rest_len(oq.unwrap().1);
                                            }
                                        }
                                    }
                                }
                            }
                        }
                    }
                }
            }
        }
    }
}

// ---------------------------------------------------------------------------
// The round trip: parsing what was rendered gives the rendered value back.
// ---------------------------------------------------------------------------

/// A collection the renderer accepts losslessly: every due date is a
/// well-formed calendar date.
pub open spec fn tasks_wf(ts: Seq<TaskView>) -> bool {
    forall|i: int|
        0 <= i < ts.len() ==> ((#[trigger] ts[i]).due_date matches Some(d) ==> date_wf(d))
}

/// Consuming a literal takes exactly the literal from the front.
proof fn lemma_parse_lit(lit: Seq<char>, rest: Seq<char>)
    ensures
        parse_lit(lit + rest, lit) == Some(rest),
{
    let s = lit + rest;
    assert(s.take(lit.len() as int) =~= lit);
    assert(s.skip(lit.len() as int) =~= rest);
}

/// Parsing an escaped string body up to its closing quote undoes the escape.
proof fn lemma_parse_strbody_esc(t: Seq<char>, rest: Seq<char>)
    ensures
        parse_strbody(esc(t) + seq!['"'] + rest) == Some((t, rest)),
    decreases t.len(),
{
    let s = esc(t) + seq!['"'] + rest;
    if t.len() == 0 {
        assert(s =~= seq!['"'] + rest);
        assert(s[0] == '"');
        assert(s.skip(1) =~= rest);
        assert(parse_strbody(s).unwrap().0 =~= t);
    } else {
        let c = t[0];
        let t1 = t.skip(1);
        lemma_parse_strbody_esc(t1, rest);
        let s1 = esc(t1) + seq!['"'] + rest;
        if c == '"' || c == '\\' {
            assert(s =~= seq!['\\', c] + s1);
            assert(s[0] == '\\' && s[1] == c);
            assert(s.skip(2) =~= s1);
            assert(parse_strbody(s) == Some((seq![c] + t1, rest)));
            assert(seq![c] + t1 =~= t);
        } else {
            assert(s =~= seq![c] + s1);
            assert(s[0] == c);
            assert(s.skip(1) =~= s1);
            assert(parse_strbody(s) == Some((seq![c] + t1, rest)));
            assert(seq![c] + t1 =~= t);
        }
    }
}

/// A digit character carries its digit's value.
proof fn lemma_digit_roundtrip(n: int)
    requires
        0 <= n <= 9,
    ensures
        digit_val(digit_char(n)) == Some(n),
{
}

/// Parsing a rendered date gives the date back.
#[verifier::rlimit(100)]
proof fn lemma_parse_date_render(d: Date, rest: Seq<char>)
    requires
        date_wf(d),
    ensures
        parse_date(render_date(d) + rest) == Some((d, rest)),
{
    let y = d.year as int;
    let m = d.month as int;
    let dy = d.day as int;
    let s = render_date(d) + rest;
    assert(s.len() >= 10);
    assert(s[0] == digit_char(y / 1000));
    assert(s[1] == digit_char((y % 1000) / 100));
    assert(s[2] == digit_char(((y % 1000) % 100) / 10));
    assert(s[3] == digit_char(((y % 1000) % 100) % 10));
    assert(s[4] == '-');
    assert(s[5] == digit_char(m / 10));
    assert(s[6] == digit_char(m % 10));
    assert(s[7] == '-');
    assert(s[8] == digit_char(dy / 10));
    assert(s[9] == digit_char(dy % 10));
    vstd::arithmetic::div_mod::lemma_fundamental_div_mod(y, 1000);
    vstd::arithmetic::div_mod::lemma_fundamental_div_mod(y % 1000, 100);
    vstd::arithmetic::div_mod::lemma_fundamental_div_mod((y % 1000) % 100, 10);
    vstd::arithmetic::div_mod::lemma_fundamental_div_mod(m, 10);
    vstd::arithmetic::div_mod::lemma_fundamental_div_mod(dy, 10);
    lemma_digit_roundtrip(y / 1000);
    lemma_digit_roundtrip((y % 1000) / 100);
    lemma_digit_roundtrip(((y % 1000) % 100) / 10);
    lemma_digit_roundtrip(((y % 1000) % 100) % 10);
    lemma_digit_roundtrip(m / 10);
    lemma_digit_roundtrip(m % 10);
    lemma_digit_roundtrip(dy / 10);
    lemma_digit_roundtrip(dy % 10);
    assert(date_shape(s));
    assert(digit_val(s[0]).unwrap() * 1000 + digit_val(s[1]).unwrap() * 100 + digit_val(
        s[2],
    ).unwrap() * 10 + digit_val(s[3]).unwrap() == y);
    assert(digit_val(s[5]).unwrap() * 10 + digit_val(s[6]).unwrap() == m);
    assert(digit_val(s[8]).unwrap() * 10 + digit_val(s[9]).unwrap() == dy);
    assert(parse_date(s).unwrap().0 == d);
    assert(s.skip(10) =~= rest);
}

/// Parsing a rendered due date gives it back.
proof fn lemma_parse_due_render(dd: Option<Date>, rest: Seq<char>)
    requires
        dd matches Some(d) ==> date_wf(d),
    ensures
        parse_due(render_due(dd) + rest) == Some((dd, rest)),
{
    let s = render_due(dd) + rest;
    match dd {
        None => {
            reveal_strlit("null");
            assert(s[0] == 'n');
            lemma_parse_lit("null"@, rest);
            assert(s =~= "null"@ + rest);
        },
        Some(d) => {
            assert(s[0] == '"');
            assert(s.skip(1) =~= render_date(d) + (seq!['"'] + rest));
            lemma_parse_date_render(d, seq!['"'] + rest);
            let r = (seq!['"'] + rest);
            assert(r[0] == '"');
            assert(r.skip(1) =~= rest);
        },
    }
}

/// Parsing a rendered boolean gives it back.
proof fn lemma_parse_bool_render(b: bool, rest: Seq<char>)
    ensures
        parse_bool(render_bool(b) + rest) == Some((b, rest)),
{
    reveal_strlit("true");
    reveal_strlit("false");
    let s = render_bool(b) + rest;
    if b {
        lemma_parse_lit("true"@, rest);
    } else {
        assert(s.len() >= 4 && s.take(4)[0] == 'f');
        assert(parse_lit(s, "true"@) is None);
        lemma_parse_lit("false"@, rest);
    }
}

/// Parsing a rendered priority token gives it back.
proof fn lemma_parse_priority_render(p: Priority, rest: Seq<char>)
    ensures
        parse_priority_tok(render_priority(p) + rest) == Some((p, rest)),
{
    reveal_strlit("High");
    reveal_strlit("Medium");
    reveal_strlit("Low");
    let s = render_priority(p) + rest;
    match p {
        Priority::High => {
            lemma_parse_lit("High"@, rest);
        },
        Priority::Medium => {
            assert(s.len() >= 4 && s.take(4)[0] == 'M');
            assert(parse_lit(s, "High"@) is None);
            lemma_parse_lit("Medium"@, rest);
        },
        Priority::Low => {
            assert(parse_lit(s, "High"@) is None) by {
                if s.len() >= 4 {
                    assert(s.take(4)[0] == 'L');
                }
            }
            assert(parse_lit(s, "Medium"@) is None) by {
                if s.len() >= 6 {
                    assert(s.take(6)[0] == 'L');
                }
            }
            lemma_parse_lit("Low"@, rest);
        },
    }
}

/// Parsing rendered tags after the first gives them back.
proof fn lemma_parse_tags_rest_render(tags: Seq<Seq<char>>, rest: Seq<char>)
    ensures
        parse_tags_rest(render_tags_rest(tags) + seq![']'] + rest) == Some((tags, rest)),
    decreases tags.len(),
{
    let s = render_tags_rest(tags) + seq![']'] + rest;
    if tags.len() == 0 {
        assert(s =~= seq![']'] + rest);
        assert(s[0] == ']');
        assert(s.skip(1) =~= rest);
        assert(parse_tags_rest(s).unwrap().0 =~= tags);
    } else {
        let t0 = tags[0];
        let t1 = tags.skip(1);
        let s1 = render_tags_rest(t1) + seq![']'] + rest;
        assert(s =~= seq![',', '"'] + (esc(t0) + seq!['"'] + s1));
        assert(s[0] == ',' && s[1] == '"');
        assert(s.skip(2) =~= esc(t0) + seq!['"'] + s1);
        lemma_parse_strbody_esc(t0, s1);
        lemma_parse_tags_rest_render(t1, rest);
        assert(parse_tags_rest(s) == Some((seq![t0] + t1, rest)));
        assert(seq![t0] + t1 =~= tags);
    }
}

/// Parsing a rendered tag list gives it back.
proof fn lemma_parse_tags_render(tags: Seq<Seq<char>>, rest: Seq<char>)
    ensures
        parse_tags(render_tags(tags) + seq![']'] + rest) == Some((tags, rest)),
{
    let s = render_tags(tags) + seq![']'] + rest;
    if tags.len() == 0 {
        assert(s =~= seq![']'] + rest);
        assert(s[0] == ']');
        assert(s.skip(1) =~= rest);
        assert(parse_tags(s).unwrap().0 =~= tags);
    } else {
        let t0 = tags[0];
        let t1 = tags.skip(1);
        let s1 = render_tags_rest(t1) + seq![']'] + rest;
        assert(s =~= seq!['"'] + (esc(t0) + seq!['"'] + s1));
        assert(s[0] == '"');
        assert(s.skip(1) =~= esc(t0) + seq!['"'] + s1);
        lemma_parse_strbody_esc(t0, s1);
        lemma_parse_tags_rest_render(t1, rest);
        assert(parse_tags(s) == Some((seq![t0] + t1, rest)));
        assert(seq![t0] + t1 =~= tags);
    }
}

/// Parsing a rendered record gives the task back.
#[verifier::rlimit(100)]
#[verifier::spinoff_prover]
proof fn lemma_parse_task_render(t: TaskView, rest: Seq<char>)
    requires
        t.due_date matches Some(d) ==> date_wf(d),
    ensures
        parse_task(render_task(t) + rest) == Some((t, rest)),
{
    let s = render_task(t) + rest;
    let x12 = seq![']'] + seq!['}'];
    let x11 = render_tags(t.tags) + x12;
    let x10 = "\",\"tags\":["@ + x11;
    let x9 = render_priority(t.priority) + x10;
    let x8 = ",\"priority\":\""@ + x9;
    let x7 = render_due(t.due_date) + x8;
    let x6 = ",\"due_date\":"@ + x7;
    let x5 = render_bool(t.completed) + x6;
    let x4 = ",\"completed\":"@ + x5;
    let x3 = seq!['"'] + x4;
    let x2 = esc(t.description) + x3;
    assert(render_task(t) == "{\"description\":\""@ + x2) by {
        reveal(render_task);
    }
    let u9 = seq![']'] + (seq!['}'] + rest);
    let u8 = render_tags(t.tags) + u9;
    let u7 = "\",\"tags\":["@ + u8;
    let u6 = render_priority(t.priority) + u7;
    let u5 = ",\"priority\":\""@ + u6;
    let u4 = render_due(t.due_date) + u5;
    let u3 = ",\"due_date\":"@ + u4;
    let u2 = render_bool(t.completed) + u3;
    let u1 = ",\"completed\":"@ + u2;
    let u0 = esc(t.description) + (seq!['"'] + u1);
    assert(x12 + rest =~= u9);
    assert(x11 + rest =~= u8);
    assert(x10 + rest =~= u7);
    assert(x9 + rest =~= u6);
    assert(x8 + rest =~= u5);
    assert(x7 + rest =~= u4);
    assert(x6 + rest =~= u3);
    assert(x5 + rest =~= u2);
    assert(x4 + rest =~= u1);
    assert(x3 + rest =~= seq!['"'] + u1);
    assert(x2 + rest =~= u0);
    assert(s =~= "{\"description\":\""@ + u0);
    lemma_parse_lit("{\"description\":\""@, u0);
    assert(u0 =~= esc(t.description) + seq!['"'] + u1);
    lemma_parse_strbody_esc(t.description, u1);
    lemma_parse_lit(",\"completed\":"@, u2);
    lemma_parse_bool_render(t.completed, u3);
    lemma_parse_lit(",\"due_date\":"@, u4);
    lemma_parse_due_render(t.due_date, u5);
    lemma_parse_lit(",\"priority\":\""@, u6);
    lemma_parse_priority_render(t.priority, u7);
    lemma_parse_lit("\",\"tags\":["@, u8);
    assert(u8 =~= render_tags(t.tags) + seq![']'] + (seq!['}'] + rest));
    lemma_parse_tags_render(t.tags, seq!['}'] + rest);
    assert(seq!['}'] + rest =~= "}"@ + rest) by {
        reveal_strlit("}");
    }
    lemma_parse_lit("}"@, rest);
    let parsed = (TaskView {
        description: t.description,
        completed: t.completed,
        due_date: t.due_date,
        priority: t.priority,
        tags: t.tags,
    });
    assert(parsed =~= t);
    assert(parse_task(s) == Some((parsed, rest))) by {
        reveal(parse_task);
    }
}

/// Parsing rendered records after the first gives them back.
#[verifier::rlimit(100)]
proof fn lemma_parse_tasks_rest_render(ts: Seq<TaskView>, rest: Seq<char>)
    requires
        tasks_wf(ts),
    ensures
        parse_tasks_rest(render_tasks_rest(ts) + seq![']'] + rest) == Some((ts, rest)),
    decreases ts.len(),
{
    let s = render_tasks_rest(ts) + seq![']'] + rest;
    if ts.len() == 0 {
        assert(s =~= seq![']'] + rest);
        assert(s[0] == ']');
        assert(s.skip(1) =~= rest);
        assert(parse_tasks_rest(s).unwrap().0 =~= ts);
    } else {
        let t0 = ts[0];
        let t1 = ts.skip(1);
        let s1 = render_tasks_rest(t1) + seq![']'] + rest;
        assert(s =~= seq![','] + (render_task(t0) + s1));
        assert(s[0] == ',');
        assert(s.skip(1) =~= render_task(t0) + s1);
        assert(t0.due_date matches Some(d) ==> date_wf(d));
        lemma_parse_task_render(t0, s1);
        assert(tasks_wf(t1)) by {
            assert(forall|i: int| 0 <= i < t1.len() ==> t1[i] == ts[i + 1]);
        }
        lemma_parse_tasks_rest_render(t1, rest);
        assert(parse_tasks_rest(s) == Some((seq![t0] + t1, rest)));
        assert(seq![t0] + t1 =~= ts);
    }
}

/// Parsing rendered records gives them back.
proof fn lemma_parse_tasks_render(ts: Seq<TaskView>, rest: Seq<char>)
    requires
        tasks_wf(ts),
    ensures
        parse_tasks(render_tasks(ts) + seq![']'] + rest) == Some((ts, rest)),
{
    let s = render_tasks(ts) + seq![']'] + rest;
    if ts.len() == 0 {
        assert(s =~= seq![']'] + rest);
        assert(s[0] == ']');
        assert(s.skip(1) =~= rest);
        assert(parse_tasks(s).unwrap().0 =~= ts);
    } else {
        let t0 = ts[0];
        let t1 = ts.skip(1);
        let s1 = render_tasks_rest(t1) + seq![']'] + rest;
        assert(s =~= render_task(t0) + s1);
        assert(s[0] == '{') by {
            reveal(render_task);
            reveal_strlit("{\"description\":\"");
            assert(render_task(t0)[0] == '{');
        }
        assert(t0.due_date matches Some(d) ==> date_wf(d));
        lemma_parse_task_render(t0, s1);
        assert(tasks_wf(t1)) by {
            assert(forall|i: int| 0 <= i < t1.len() ==> t1[i] == ts[i + 1]);
        }
        lemma_parse_tasks_rest_render(t1, rest);
        assert(parse_tasks(s) == Some((seq![t0] + t1, rest)));
        assert(seq![t0] + t1 =~= ts);
    }
}

// ---------------------------------------------------------------------------
// Character plumbing.
// ---------------------------------------------------------------------------

/// Relies on `String::push`: appends the given character to the end of the
/// string.
#[verifier::external_body]
fn push_char(s: &mut String, c: char)
    ensures
        final(s)@ == old(s)@.push(c),
{
    s.push(c);
}

/// The characters of a string slice, as a vector.
fn to_chars(s: &str) -> (r: Vec<char>)
    ensures
        r@ == s@,
{
    let mut r: Vec<char> = Vec::new();
    let n = s.unicode_len();
    let mut k: usize = 0;
    while k < n
        invariant
            k <= n,
            n == s@.len(),
            r@ == s@.take(k as int),
        decreases n - k,
    {
        r.push(s.get_char(k));
        proof {
            assert(s@.take(k + 1) =~= s@.take(k as int).push(s@[k as int]));
        }
        k = k + 1;
    }
    proof {
        assert(s@.take(n as int) =~= s@);
    }
    r
}

/// A string holding exactly the given characters.
fn chars_to_string(v: &Vec<char>) -> (r: String)
    ensures
        r@ == v@,
{
    let mut r = String::new();
    let n = v.len();
    let mut k: usize = 0;
    while k < n
        invariant
            k <= n,
            n == v@.len(),
            r@ == v@.take(k as int),
        decreases n - k,
    {
        push_char(&mut r, v[k]);
        proof {
            assert(v@.take(k + 1) =~= v@.take(k as int).push(v@[k as int]));
        }
        k = k + 1;
    }
    proof {
        assert(v@.take(n as int) =~= v@);
    }
    r
}

// ---------------------------------------------------------------------------
// The renderer, appending to a character vector.
// ---------------------------------------------------------------------------

/// Appends a literal.
fn push_lit(out: &mut Vec<char>, lit: &str)
    ensures
        final(out)@ == old(out)@ + lit@,
{
    let ghost base = out@;
    let m = lit.unicode_len();
    let mut k: usize = 0;
    proof {
        assert(base + lit@.take(0) =~= base);
    }
    while k < m
        invariant
            k <= m,
            m == lit@.len(),
            out@ == base + lit@.take(k as int),
        decreases m - k,
    {
        out.push(lit.get_char(k));
        proof {
            assert(base + lit@.take(k + 1) =~= (base + lit@.take(k as int)).push(lit@[k as int]));
        }
        k = k + 1;
    }
    proof {
        assert(lit@.take(m as int) =~= lit@);
    }
}

/// Appends a string's characters from position `k` on, escaped.
fn push_escaped(out: &mut Vec<char>, s: &str, k: usize)
    requires
        k <= s@.len(),
    ensures
        final(out)@ == old(out)@ + esc(s@.skip(k as int)),
    decreases s@.len() - k,
{
    let n = s.unicode_len();
    if k == n {
        proof {
            assert(s@.skip(k as int).len() == 0);
            assert(out@ =~= out@ + esc(s@.skip(k as int)));
        }
    } else {
        let ghost base = out@;
        let c = s.get_char(k);
        if c == '"' || c == '\\' {
            out.push('\\');
            out.push(c);
            proof {
                assert(out@ =~= base + esc_char(c));
            }
        } else {
            out.push(c);
            proof {
                assert(out@ =~= base + esc_char(c));
            }
        }
        push_escaped(out, s, k + 1);
        proof {
            assert(s@.skip(k as int)[0] == c);
            assert(s@.skip(k as int).skip(1) =~= s@.skip(k + 1));
            assert(esc(s@.skip(k as int)) == esc_char(c) + esc(s@.skip(k + 1)));
            assert(base + esc_char(c) + esc(s@.skip(k + 1)) =~= base + esc(s@.skip(k as int)));
        }
    }
}

/// The decimal digit character, as executable code.
fn char_of_digit(n: u16) -> (c: char)
    ensures
        c == digit_char(n as int),
{
    if n == 0 { '0' }
    else if n == 1 { '1' }
    else if n == 2 { '2' }
    else if n == 3 { '3' }
    else if n == 4 { '4' }
    else if n == 5 { '5' }
    else if n == 6 { '6' }
    else if n == 7 { '7' }
    else if n == 8 { '8' }
    else { '9' }
}

/// Appends a date's ten characters.
fn push_date(out: &mut Vec<char>, d: &Date)
    ensures
        final(out)@ == old(out)@ + render_date(*d),
{
    let ghost base = out@;
    let y = d.year;
    out.push(char_of_digit(y / 1000));
    out.push(char_of_digit((y % 1000) / 100));
    out.push(char_of_digit(((y % 1000) % 100) / 10));
    out.push(char_of_digit(((y % 1000) % 100) % 10));
    out.push('-');
    out.push(char_of_digit((d.month / 10) as u16));
    out.push(char_of_digit((d.month % 10) as u16));
    out.push('-');
    out.push(char_of_digit((d.day / 10) as u16));
    out.push(char_of_digit((d.day % 10) as u16));
    proof {
        assert(out@ =~= base + render_date(*d));
    }
}

/// Appends the quoted tags from position `k` on, each behind a comma.
fn push_tags_rest(out: &mut Vec<char>, tags: &Vec<String>, k: usize)
    requires
        k <= tags@.len(),
    ensures
        final(out)@ == old(out)@ + render_tags_rest(tag_views(tags@).skip(k as int)),
    decreases tags@.len() - k,
{
    let ghost tv = tag_views(tags@);
    if k == tags.len() {
        proof {
            assert(tv.skip(k as int).len() == 0);
            assert(out@ =~= out@ + render_tags_rest(tv.skip(k as int)));
        }
    } else {
        let ghost base = out@;
        out.push(',');
        out.push('"');
        push_escaped(out, tags[k].as_str(), 0);
        out.push('"');
        push_tags_rest(out, tags, k + 1);
        proof {
            assert(tv.skip(k as int)[0] == tags@[k as int]@);
            assert(tv.skip(k as int).skip(1) =~= tv.skip(k + 1));
            assert(tags@[k as int]@.skip(0) =~= tags@[k as int]@);
            assert(render_tags_rest(tv.skip(k as int)) == seq![','] + seq!['"'] + esc(
                tv.skip(k as int)[0],
            ) + seq!['"'] + render_tags_rest(tv.skip(k as int).skip(1)));
            assert(out@ =~= base + render_tags_rest(tv.skip(k as int)));
        }
    }
}

/// Appends a boolean's token.
fn push_bool(out: &mut Vec<char>, b: bool)
    ensures
        final(out)@ == old(out)@ + render_bool(b),
{
    if b {
        push_lit(out, "true");
    } else {
        push_lit(out, "false");
    }
}

/// Appends a due date: `null`, or the quoted date.
fn push_due(out: &mut Vec<char>, dd: &Option<Date>)
    ensures
        final(out)@ == old(out)@ + render_due(*dd),
{
    let ghost base = out@;
    match dd {
        None => {
            push_lit(out, "null");
        },
        Some(d) => {
            out.push('"');
            push_date(out, d);
            out.push('"');
            proof {
                assert(out@ =~= base + (seq!['"'] + render_date(*d) + seq!['"']));
            }
        },
    }
}

/// Appends a priority's token.
fn push_priority(out: &mut Vec<char>, p: &Priority)
    ensures
        final(out)@ == old(out)@ + render_priority(*p),
{
    match p {
        Priority::High => push_lit(out, "High"),
        Priority::Medium => push_lit(out, "Medium"),
        Priority::Low => push_lit(out, "Low"),
    }
}

/// Appends the whole comma-separated tag list, without its brackets.
fn push_tags(out: &mut Vec<char>, tags: &Vec<String>)
    ensures
        final(out)@ == old(out)@ + render_tags(tag_views(tags@)),
{
    let ghost base = out@;
    let ghost tv = tag_views(tags@);
    if tags.len() == 0 {
        proof {
            assert(out@ =~= base + render_tags(tv));
        }
    } else {
        out.push('"');
        push_escaped(out, tags[0].as_str(), 0);
        out.push('"');
        push_tags_rest(out, tags, 1);
        proof {
            assert(tv[0] == tags@[0]@);
            assert(tags@[0]@.skip(0) =~= tags@[0]@);
            assert(render_tags(tv) == seq!['"'] + esc(tv[0]) + seq!['"'] + render_tags_rest(
                tv.skip(1),
            ));
            assert(out@ =~= base + render_tags(tv));
        }
    }
}

/// The record's pieces, in rendering order.
#[verifier::rlimit(100)]
proof fn lemma_render_task_flat(t: TaskView)
    ensures
        render_task(t) == "{\"description\":\""@ + esc(t.description) + seq!['"']
            + ",\"completed\":"@ + render_bool(t.completed) + ",\"due_date\":"@ + render_due(
            t.due_date,
        ) + ",\"priority\":\""@ + render_priority(t.priority) + "\",\"tags\":["@ + render_tags(
            t.tags,
        ) + seq![']'] + seq!['}'],
{
    reveal(render_task);
    let a0 = "{\"description\":\""@;
    let a1 = esc(t.description);
    let a2 = seq!['"'];
    let a3 = ",\"completed\":"@;
    let a4 = render_bool(t.completed);
    let a5 = ",\"due_date\":"@;
    let a6 = render_due(t.due_date);
    let a7 = ",\"priority\":\""@;
    let a8 = render_priority(t.priority);
    let a9 = "\",\"tags\":["@;
    let a10 = render_tags(t.tags);
    let a11 = seq![']'];
    let a12 = seq!['}'];
    let r11 = a11 + a12;
    let r10 = a10 + r11;
    let r9 = a9 + r10;
    let r8 = a8 + r9;
    let r7 = a7 + r8;
    let r6 = a6 + r7;
    let r5 = a5 + r6;
    let r4 = a4 + r5;
    let r3 = a3 + r4;
    let r2 = a2 + r3;
    let r1 = a1 + r2;
    assert(render_task(t) == a0 + r1);
    assert(a0 + r1 =~= a0 + a1 + r2);
    assert(a0 + a1 + r2 =~= a0 + a1 + a2 + r3);
    assert(a0 + a1 + a2 + r3 =~= a0 + a1 + a2 + a3 + r4);
    assert(a0 + a1 + a2 + a3 + r4 =~= a0 + a1 + a2 + a3 + a4 + r5);
    assert(a0 + a1 + a2 + a3 + a4 + r5 =~= a0 + a1 + a2 + a3 + a4 + a5 + r6);
    assert(a0 + a1 + a2 + a3 + a4 + a5 + r6 =~= a0 + a1 + a2 + a3 + a4 + a5 + a6 + r7);
    assert(a0 + a1 + a2 + a3 + a4 + a5 + a6 + r7 =~= a0 + a1 + a2 + a3 + a4 + a5 + a6 + a7 + r8);
    assert(a0 + a1 + a2 + a3 + a4 + a5 + a6 + a7 + r8 =~= a0 + a1 + a2 + a3 + a4 + a5 + a6 + a7
        + a8 + r9);
    assert(a0 + a1 + a2 + a3 + a4 + a5 + a6 + a7 + a8 + r9 =~= a0 + a1 + a2 + a3 + a4 + a5 + a6
        + a7 + a8 + a9 + r10);
    assert(a0 + a1 + a2 + a3 + a4 + a5 + a6 + a7 + a8 + a9 + r10 =~= a0 + a1 + a2 + a3 + a4 + a5
        + a6 + a7 + a8 + a9 + a10 + r11);
    assert(a0 + a1 + a2 + a3 + a4 + a5 + a6 + a7 + a8 + a9 + a10 + r11 =~= a0 + a1 + a2 + a3 + a4
        + a5 + a6 + a7 + a8 + a9 + a10 + a11 + a12);
}

/// Appends one task's record.
#[verifier::rlimit(100)]
fn push_task_text(out: &mut Vec<char>, t: &Task)
    ensures
        final(out)@ == old(out)@ + render_task(t@),
{
    let ghost base = out@;
    push_lit(out, "{\"description\":\"");
    push_escaped(out, t.description.as_str(), 0);
    proof {
        assert(t.description@.skip(0) =~= t.description@);
    }
    out.push('"');
    proof {
        assert(out@ =~= base + "{\"description\":\""@ + esc(t@.description) + seq!['"']);
    }
    push_lit(out, ",\"completed\":");
    push_bool(out, t.completed);
    push_lit(out, ",\"due_date\":");
    push_due(out, &t.due_date);
    push_lit(out, ",\"priority\":\"");
    push_priority(out, &t.priority);
    push_lit(out, "\",\"tags\":[");
    push_tags(out, &t.tags);
    out.push(']');
    out.push('}');
    proof {
        lemma_render_task_flat(t@);
        assert(out@ =~= base + render_task(t@));
    }
}

/// Appends the records from position `k` on, each behind a comma.
fn push_tasks_rest(out: &mut Vec<char>, pairs: &Vec<(usize, Task)>, k: usize, Ghost(ts): Ghost<
    Seq<TaskView>,
>)
    requires
        k <= pairs@.len(),
        ts.len() == pairs@.len(),
        forall|x: int| 0 <= x < ts.len() ==> (#[trigger] pairs@[x]).1@ == ts[x],
    ensures
        final(out)@ == old(out)@ + render_tasks_rest(ts.skip(k as int)),
    decreases pairs@.len() - k,
{
    if k == pairs.len() {
        proof {
            assert(ts.skip(k as int).len() == 0);
            assert(out@ =~= out@ + render_tasks_rest(ts.skip(k as int)));
        }
    } else {
        let ghost base = out@;
        out.push(',');
        push_task_text(out, &pairs[k].1);
        push_tasks_rest(out, pairs, k + 1, Ghost(ts));
        proof {
            assert(ts.skip(k as int)[0] == ts[k as int]);
            assert(ts.skip(k as int).skip(1) =~= ts.skip(k + 1));
            assert(render_tasks_rest(ts.skip(k as int)) == seq![','] + render_task(
                ts.skip(k as int)[0],
            ) + render_tasks_rest(ts.skip(k as int).skip(1)));
            assert(out@ =~= base + render_tasks_rest(ts.skip(k as int)));
        }
    }
}

/// Renders the whole collection as the persisted text document.
pub fn serialize_tasks(list: &TaskList) -> (r: String)
    ensures
        r@ == render_document(list@),
{
    let pairs = list.list_tasks();
    let mut out: Vec<char> = Vec::new();
    out.push('[');
    if pairs.len() > 0 {
        proof {
            assert(pairs@[0].1@ == list@[0]);
        }
        push_task_text(&mut out, &pairs[0].1);
        push_tasks_rest(&mut out, &pairs, 1, Ghost(list@));
        proof {
            assert(render_tasks(list@) == render_task(list@[0]) + render_tasks_rest(
                list@.skip(1),
            ));
        }
    }
    out.push(']');
    proof {
        assert(out@ =~= render_document(list@));
    }
    chars_to_string(&out)
}

// ---------------------------------------------------------------------------
// The parser, reading a character vector from position `i` on. Each function
// returns the parsed value and the position after it, mirroring its spec
// counterpart on the suffix `s@.skip(i)`.
// ---------------------------------------------------------------------------

/// Consumes a literal.
fn e_lit(s: &Vec<char>, i: usize, lit: &str) -> (r: Option<usize>)
    requires
        i <= s@.len(),
    ensures
        match r {
            Some(j) => i <= j <= s@.len() && parse_lit(s@.skip(i as int), lit@) == Some(
                s@.skip(j as int),
            ),
            None => parse_lit(s@.skip(i as int), lit@) is None,
        },
{
    let m = lit.unicode_len();
    let n = s.len();
    if n - i < m {
        return None;
    }
    let mut k: usize = 0;
    while k < m
        invariant
            k <= m,
            m == lit@.len(),
            n == s@.len(),
            i + m <= n,
            forall|x: int| 0 <= x < k ==> s@[i + x] == lit@[x],
        decreases m - k,
    {
        if s[i + k] != lit.get_char(k) {
            proof {
                assert(s@.skip(i as int).take(m as int)[k as int] != lit@[k as int]);
            }
            return None;
        }
        k = k + 1;
    }
    proof {
        assert(s@.skip(i as int).take(m as int) =~= lit@);
        assert(s@.skip(i as int).skip(m as int) =~= s@.skip(i + m));
    }
    Some(i + m)
}

/// Consumes a quoted string's body through the closing quote, undoing the
/// escapes.
fn e_strbody(s: &Vec<char>, i: usize) -> (r: Option<(Vec<char>, usize)>)
    requires
        i <= s@.len(),
    ensures
        match r {
            Some(p) => i < p.1 <= s@.len() && parse_strbody(s@.skip(i as int)) == Some(
                (p.0@, s@.skip(p.1 as int)),
            ),
            None => parse_strbody(s@.skip(i as int)) is None,
        },
    decreases s@.len() - i,
{
    if i == s.len() {
        return None;
    }
    let c = s[i];
    proof {
        assert(s@.skip(i as int)[0] == c);
    }
    if c == '"' {
        let v: Vec<char> = Vec::new();
        proof {
            assert(s@.skip(i as int).skip(1) =~= s@.skip(i + 1));
            assert(v@ =~= Seq::<char>::empty());
        }
        return Some((v, i + 1));
    }
    if c == '\\' {
        if i + 1 == s.len() {
            return None;
        }
        let c2 = s[i + 1];
        proof {
            assert(s@.skip(i as int)[1] == c2);
        }
        if c2 == '"' || c2 == '\\' {
            proof {
                assert(s@.skip(i as int).skip(2) =~= s@.skip(i + 2));
            }
            match e_strbody(s, i + 2) {
                None => None,
                Some((mut t, j)) => {
                    let ghost told = t@;
                    t.insert(0, c2);
                    proof {
                        assert(t@ =~= seq![c2] + told);
                    }
                    Some((t, j))
                },
            }
        } else {
            None
        }
    } else {
        proof {
            assert(s@.skip(i as int).skip(1) =~= s@.skip(i + 1));
        }
        match e_strbody(s, i + 1) {
            None => None,
            Some((mut t, j)) => {
                let ghost told = t@;
                t.insert(0, c);
                proof {
                    assert(t@ =~= seq![c] + told);
                }
                Some((t, j))
            },
        }
    }
}

/// The decimal digit's value, as executable code.
fn digit_of(c: char) -> (r: Option<u8>)
    ensures
        match r {
            Some(v) => digit_val(c) == Some(v as int),
            None => digit_val(c) is None,
        },
{
    if c == '0' { Some(0) }
    else if c == '1' { Some(1) }
    else if c == '2' { Some(2) }
    else if c == '3' { Some(3) }
    else if c == '4' { Some(4) }
    else if c == '5' { Some(5) }
    else if c == '6' { Some(6) }
    else if c == '7' { Some(7) }
    else if c == '8' { Some(8) }
    else if c == '9' { Some(9) }
    else { None }
}

/// Consumes a `YYYY-MM-DD` date in calendar range.
fn e_date(s: &Vec<char>, i: usize) -> (r: Option<(Date, usize)>)
    requires
        i <= s@.len(),
    ensures
        match r {
            Some(p) => i < p.1 <= s@.len() && parse_date(s@.skip(i as int)) == Some(
                (p.0, s@.skip(p.1 as int)),
            ) && date_wf(p.0),
            None => parse_date(s@.skip(i as int)) is None,
        },
{
    if s.len() - i < 10 {
        return None;
    }
    let ghost t = s@.skip(i as int);
    proof {
        assert(forall|x: int| 0 <= x < 10 ==> t[x] == s@[i + x]);
    }
    if s[i + 4] != '-' || s[i + 7] != '-' {
        return None;
    }
    let d0 = digit_of(s[i]);
    let d1 = digit_of(s[i + 1]);
    let d2 = digit_of(s[i + 2]);
    let d3 = digit_of(s[i + 3]);
    let m0 = digit_of(s[i + 5]);
    let m1 = digit_of(s[i + 6]);
    let e0 = digit_of(s[i + 8]);
    let e1 = digit_of(s[i + 9]);
    if d0.is_none() || d1.is_none() || d2.is_none() || d3.is_none() || m0.is_none() || m1.is_none()
        || e0.is_none() || e1.is_none() {
        return None;
    }
    let y: u32 = (d0.unwrap() as u32) * 1000 + (d1.unwrap() as u32) * 100 + (d2.unwrap() as u32)
        * 10 + (d3.unwrap() as u32);
    let m: u32 = (m0.unwrap() as u32) * 10 + (m1.unwrap() as u32);
    let dy: u32 = (e0.unwrap() as u32) * 10 + (e1.unwrap() as u32);
    if 1 <= m && m <= 12 && 1 <= dy && dy <= 31 {
        let date = Date { year: y as u16, month: m as u8, day: dy as u8 };
        proof {
            assert(date_shape(t));
            assert(t.skip(10) =~= s@.skip(i + 10));
            assert(parse_date(t) == Some((date, s@.skip(i + 10))));
        }
        Some((date, i + 10))
    } else {
        None
    }
}

/// Consumes `null` or a quoted date.
fn e_due(s: &Vec<char>, i: usize) -> (r: Option<(Option<Date>, usize)>)
    requires
        i <= s@.len(),
    ensures
        match r {
            Some(p) => i < p.1 <= s@.len() && parse_due(s@.skip(i as int)) == Some(
                (p.0, s@.skip(p.1 as int)),
            ) && (p.0 matches Some(d) ==> date_wf(d)),
            None => parse_due(s@.skip(i as int)) is None,
        },
{
    if i < s.len() && s[i] == '"' {
        proof {
            assert(s@.skip(i as int)[0] == '"');
            assert(s@.skip(i as int).skip(1) =~= s@.skip(i + 1));
        }
        match e_date(s, i + 1) {
            None => None,
            Some((d, j)) => {
                if j < s.len() && s[j] == '"' {
                    proof {
                        assert(s@.skip(j as int)[0] == '"');
                        assert(s@.skip(j as int).skip(1) =~= s@.skip(j + 1));
                    }
                    Some((Some(d), j + 1))
                } else {
                    None
                }
            },
        }
    } else {
        proof {
            if i < s@.len() {
                assert(s@.skip(i as int)[0] == s@[i as int]);
            }
        }
        match e_lit(s, i, "null") {
            None => None,
            Some(j) => {
                proof {
                    reveal_strlit("null");
                    assert(i < j);
                }
                Some((None, j))
            },
        }
    }
}

/// Consumes `true` or `false`.
fn e_bool(s: &Vec<char>, i: usize) -> (r: Option<(bool, usize)>)
    requires
        i <= s@.len(),
    ensures
        match r {
            Some(p) => i < p.1 <= s@.len() && parse_bool(s@.skip(i as int)) == Some(
                (p.0, s@.skip(p.1 as int)),
            ),
            None => parse_bool(s@.skip(i as int)) is None,
        },
{
    match e_lit(s, i, "true") {
        Some(j) => {
            proof {
                reveal_strlit("true");
            }
            Some((true, j))
        },
        None => match e_lit(s, i, "false") {
            Some(j) => {
                proof {
                    reveal_strlit("false");
                }
                Some((false, j))
            },
            None => None,
        },
    }
}

/// Consumes a priority token.
fn e_priority(s: &Vec<char>, i: usize) -> (r: Option<(Priority, usize)>)
    requires
        i <= s@.len(),
    ensures
        match r {
            Some(p) => i < p.1 <= s@.len() && parse_priority_tok(s@.skip(i as int)) == Some(
                (p.0, s@.skip(p.1 as int)),
            ),
            None => parse_priority_tok(s@.skip(i as int)) is None,
        },
{
    match e_lit(s, i, "High") {
        Some(j) => {
            proof {
                reveal_strlit("High");
            }
            Some((Priority::High, j))
        },
        None => match e_lit(s, i, "Medium") {
            Some(j) => {
                proof {
                    reveal_strlit("Medium");
                }
                Some((Priority::Medium, j))
            },
            None => match e_lit(s, i, "Low") {
                Some(j) => {
                    proof {
                        reveal_strlit("Low");
                    }
                    Some((Priority::Low, j))
                },
                None => None,
            },
        },
    }
}

/// Consumes the tag list's tags after the first, through the closing `]`.
fn e_tags_rest(s: &Vec<char>, i: usize) -> (r: Option<(Vec<String>, usize)>)
    requires
        i <= s@.len(),
    ensures
        match r {
            Some(p) => i < p.1 <= s@.len() && parse_tags_rest(s@.skip(i as int)) == Some(
                (tag_views(p.0@), s@.skip(p.1 as int)),
            ),
            None => parse_tags_rest(s@.skip(i as int)) is None,
        },
    decreases s@.len() - i,
{
    if i == s.len() {
        return None;
    }
    let c = s[i];
    proof {
        assert(s@.skip(i as int)[0] == c);
    }
    if c == ']' {
        let v: Vec<String> = Vec::new();
        proof {
            assert(s@.skip(i as int).skip(1) =~= s@.skip(i + 1));
            assert(tag_views(v@) =~= Seq::<Seq<char>>::empty());
        }
        return Some((v, i + 1));
    }
    if c != ',' {
        return None;
    }
    if i + 1 == s.len() || s[i + 1] != '"' {
        proof {
            if i + 1 < s@.len() {
                assert(s@.skip(i as int)[1] == s@[i + 1]);
            }
        }
        return None;
    }
    proof {
        assert(s@.skip(i as int)[1] == '"');
        assert(s@.skip(i as int).skip(2) =~= s@.skip(i + 2));
    }
    match e_strbody(s, i + 2) {
        None => None,
        Some((t, j1)) => match e_tags_rest(s, j1) {
            None => None,
            Some((mut v, j2)) => {
                let ghost vold = v@;
                let tag = chars_to_string(&t);
                v.insert(0, tag);
                proof {
                    assert(tag_views(v@) =~= seq![t@] + tag_views(vold));
                }
                Some((v, j2))
            },
        },
    }
}

/// Consumes the tag list's inside, from just after `[` through `]`.
fn e_tags(s: &Vec<char>, i: usize) -> (r: Option<(Vec<String>, usize)>)
    requires
        i <= s@.len(),
    ensures
        match r {
            Some(p) => i < p.1 <= s@.len() && parse_tags(s@.skip(i as int)) == Some(
                (tag_views(p.0@), s@.skip(p.1 as int)),
            ),
            None => parse_tags(s@.skip(i as int)) is None,
        },
{
    if i == s.len() {
        return None;
    }
    let c = s[i];
    proof {
        assert(s@.skip(i as int)[0] == c);
    }
    if c == ']' {
        let v: Vec<String> = Vec::new();
        proof {
            assert(s@.skip(i as int).skip(1) =~= s@.skip(i + 1));
            assert(tag_views(v@) =~= Seq::<Seq<char>>::empty());
        }
        return Some((v, i + 1));
    }
    if c != '"' {
        return None;
    }
    proof {
        assert(s@.skip(i as int).skip(1) =~= s@.skip(i + 1));
    }
    match e_strbody(s, i + 1) {
        None => None,
        Some((t, j1)) => match e_tags_rest(s, j1) {
            None => None,
            Some((mut v, j2)) => {
                let ghost vold = v@;
                let tag = chars_to_string(&t);
                v.insert(0, tag);
                proof {
                    assert(tag_views(v@) =~= seq![t@] + tag_views(vold));
                }
                Some((v, j2))
            },
        },
    }
}

/// Consumes one task's record.
fn e_task(s: &Vec<char>, i: usize) -> (r: Option<(Task, usize)>)
    requires
        i <= s@.len(),
    ensures
        match r {
            Some(p) => i < p.1 <= s@.len() && parse_task(s@.skip(i as int)) == Some(
                (p.0@, s@.skip(p.1 as int)),
            ) && (p.0@.due_date matches Some(d) ==> date_wf(d)),
            None => parse_task(s@.skip(i as int)) is None,
        },
{
    proof {
        reveal(parse_task);
    }
    let r1 = match e_lit(s, i, "{\"description\":\"") {
        None => return None,
        Some(j) => j,
    };
    let (desc, r2) = match e_strbody(s, r1) {
        None => return None,
        Some(p) => p,
    };
    let r3 = match e_lit(s, r2, ",\"completed\":") {
        None => return None,
        Some(j) => j,
    };
    let (b, r4) = match e_bool(s, r3) {
        None => return None,
        Some(p) => p,
    };
    let r5 = match e_lit(s, r4, ",\"due_date\":") {
        None => return None,
        Some(j) => j,
    };
    let (dd, r6) = match e_due(s, r5) {
        None => return None,
        Some(p) => p,
    };
    let r7 = match e_lit(s, r6, ",\"priority\":\"") {
        None => return None,
        Some(j) => j,
    };
    let (p, r8) = match e_priority(s, r7) {
        None => return None,
        Some(q) => q,
    };
    let r9 = match e_lit(s, r8, "\",\"tags\":[") {
        None => return None,
        Some(j) => j,
    };
    let (tags, r10) = match e_tags(s, r9) {
        None => return None,
        Some(q) => q,
    };
    let r11 = match e_lit(s, r10, "}") {
        None => return None,
        Some(j) => j,
    };
    let task = Task {
        description: chars_to_string(&desc),
        completed: b,
        due_date: dd,
        priority: p,
        tags,
    };
    proof {
        assert(task@ =~= (TaskView {
            description: desc@,
            completed: b,
            due_date: dd,
            priority: p,
            tags: parse_tags(s@.skip(r9 as int)).unwrap().0,
        }));
        assert(i < r11) by {
            reveal_strlit("{\"description\":\"");
        }
    }
    Some((task, r11))
}

/// Consumes the records after the first, through the closing `]`.
fn e_tasks_rest(s: &Vec<char>, i: usize) -> (r: Option<(Vec<Task>, usize)>)
    requires
        i <= s@.len(),
    ensures
        match r {
            Some(p) => i < p.1 <= s@.len() && parse_tasks_rest(s@.skip(i as int)) == Some(
                (task_views(p.0@), s@.skip(p.1 as int)),
            ),
            None => parse_tasks_rest(s@.skip(i as int)) is None,
        },
    decreases s@.len() - i,
{
    if i == s.len() {
        return None;
    }
    let c = s[i];
    proof {
        assert(s@.skip(i as int)[0] == c);
    }
    if c == ']' {
        let v: Vec<Task> = Vec::new();
        proof {
            assert(s@.skip(i as int).skip(1) =~= s@.skip(i + 1));
            assert(task_views(v@) =~= Seq::<TaskView>::empty());
        }
        return Some((v, i + 1));
    }
    if c != ',' {
        return None;
    }
    proof {
        assert(s@.skip(i as int).skip(1) =~= s@.skip(i + 1));
    }
    match e_task(s, i + 1) {
        None => None,
        Some((t, j1)) => match e_tasks_rest(s, j1) {
            None => None,
            Some((mut v, j2)) => {
                let ghost vold = v@;
                let ghost tv = t@;
                v.insert(0, t);
                proof {
                    assert(task_views(v@) =~= seq![tv] + task_views(vold));
                }
                Some((v, j2))
            },
        },
    }
}

/// Consumes the document's inside, from just after `[` through `]`.
fn e_tasks(s: &Vec<char>, i: usize) -> (r: Option<(Vec<Task>, usize)>)
    requires
        i <= s@.len(),
    ensures
        match r {
            Some(p) => i < p.1 <= s@.len() && parse_tasks(s@.skip(i as int)) == Some(
                (task_views(p.0@), s@.skip(p.1 as int)),
            ),
            None => parse_tasks(s@.skip(i as int)) is None,
        },
{
    if i < s.len() && s[i] == ']' {
        let v: Vec<Task> = Vec::new();
        proof {
            assert(s@.skip(i as int)[0] == ']');
            assert(s@.skip(i as int).skip(1) =~= s@.skip(i + 1));
            assert(task_views(v@) =~= Seq::<TaskView>::empty());
        }
        return Some((v, i + 1));
    }
    proof {
        if i < s@.len() {
            assert(s@.skip(i as int)[0] == s@[i as int]);
        }
    }
    match e_task(s, i) {
        None => None,
        Some((t, j1)) => match e_tasks_rest(s, j1) {
            None => None,
            Some((mut v, j2)) => {
                let ghost vold = v@;
                let ghost tv = t@;
                v.insert(0, t);
                proof {
                    assert(task_views(v@) =~= seq![tv] + task_views(vold));
                }
                Some((v, j2))
            },
        },
    }
}

/// Parses a persisted document back into a collection. Text that is not
/// exactly a rendered document gives the empty collection: a parse failure is
/// absorbed, not surfaced.
pub fn deserialize_tasks(s: &str) -> (r: TaskList)
    ensures
        match parse_document(s@) {
            Some(ts) => r@ == ts,
            None => r@ == Seq::<TaskView>::empty(),
        },
{
    let chars = to_chars(s);
    let n = chars.len();
    if n == 0 || chars[0] != '[' {
        return TaskList::default();
    }
    proof {
        assert(s@.skip(1) =~= chars@.skip(1));
    }
    match e_tasks(&chars, 1) {
        None => TaskList::default(),
        Some((v, j)) => {
            if j == n {
                proof {
                    assert(chars@.skip(j as int).len() == 0);
                }
                let mut list = TaskList::default();
                let m = v.len();
                let mut k: usize = 0;
                while k < m
                    invariant
                        k <= m,
                        m == v@.len(),
                        list@ == task_views(v@).take(k as int),
                    decreases m - k,
                {
                    list.push_task(v[k].clone());
                    proof {
                        assert(task_views(v@).take(k + 1) =~= task_views(v@).take(k as int).push(
                            v@[k as int]@,
                        ));
                    }
                    k = k + 1;
                }
                proof {
                    assert(task_views(v@).take(m as int) =~= task_views(v@));
                }
                list
            } else {
                proof {
                    assert(chars@.skip(j as int).len() != 0);
                }
                TaskList::default()
            }
        },
    }
}

/// The round trip: rendering a collection whose due dates are well-formed and
/// parsing the text back reproduces the identical ordered sequence of tasks,
/// field for field.
pub proof fn lemma_render_parse_roundtrip(ts: Seq<TaskView>)
    requires
        tasks_wf(ts),
    ensures
        parse_document(render_document(ts)) == Some(ts),
{
    let s = render_document(ts);
    assert(s[0] == '[');
    assert(s.skip(1) =~= render_tasks(ts) + seq![']'] + Seq::<char>::empty());
    lemma_parse_tasks_render(ts, Seq::empty());
}

} // verus!
