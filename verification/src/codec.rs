use vstd::prelude::*;

use crate::date::{
    date_chars, due_wf, parse_date_chars, push_date_chars, read_date_at, DateView,
    lemma_date_round_trip, Date,
};
use crate::task::{Task, TaskView};
use crate::text::{chars_of, chars_to_string};
use crate::TodoError;

verus! {

// ---------------------------------------------------------------------------
// Rendering: the persisted form of a task list
// ---------------------------------------------------------------------------

/// A lowercase hexadecimal digit.
pub open spec fn hex_char(n: int) -> char {
    if n < 10 {
        crate::text::digit_char(n)
    } else if n == 10 { 'a' }
    else if n == 11 { 'b' }
    else if n == 12 { 'c' }
    else if n == 13 { 'd' }
    else if n == 14 { 'e' }
    else { 'f' }
}

/// The value of a lowercase hexadecimal digit; 16 for anything else.
pub open spec fn hex_val(c: char) -> int {
    if crate::text::is_digit(c) { crate::text::digit_val(c) }
    else if c == 'a' { 10 }
    else if c == 'b' { 11 }
    else if c == 'c' { 12 }
    else if c == 'd' { 13 }
    else if c == 'e' { 14 }
    else if c == 'f' { 15 }
    else { 16 }
}

/// How one character appears inside a quoted string: quotes and backslashes
/// are escaped, control characters become a `\u00..` escape, all else stands
/// for itself.
pub open spec fn esc_char(c: char) -> Seq<char> {
    if c == '"' {
        seq!['\\', '"']
    } else if c == '\\' {
        seq!['\\', '\\']
    } else if (c as int) < 32 {
        seq!['\\', 'u', '0', '0', hex_char((c as int) / 16), hex_char((c as int) % 16)]
    } else {
        seq![c]
    }
}

pub open spec fn esc_chars(s: Seq<char>) -> Seq<char>
    decreases s.len(),
{
    if s.len() == 0 {
        Seq::empty()
    } else {
        esc_char(s[0]) + esc_chars(s.drop_first())
    }
}

/// A quoted, escaped string.
pub open spec fn str_chars(s: Seq<char>) -> Seq<char> {
    seq!['"'] + esc_chars(s) + seq!['"']
}

pub open spec fn bool_chars(b: bool) -> Seq<char> {
    if b {
        seq!['t', 'r', 'u', 'e']
    } else {
        seq!['f', 'a', 'l', 's', 'e']
    }
}

/// A due date: `null`, or the quoted `YYYY-MM-DD` form.
pub open spec fn due_chars(o: Option<DateView>) -> Seq<char> {
    match o {
        Option::None => seq!['n', 'u', 'l', 'l'],
        Option::Some(d) => seq!['"'] + date_chars(d) + seq!['"'],
    }
}

pub open spec fn key_task() -> Seq<char> {
    seq!['{', '"', 't', 'a', 's', 'k', '"', ':']
}

pub open spec fn key_completed() -> Seq<char> {
    seq![',', '"', 'c', 'o', 'm', 'p', 'l', 'e', 't', 'e', 'd', '"', ':']
}

pub open spec fn key_due() -> Seq<char> {
    seq![',', '"', 'd', 'u', 'e', '_', 'd', 'a', 't', 'e', '"', ':']
}

/// One task as an object with the fields `task`, `completed`, `due_date`.
pub open spec fn task_chars(t: TaskView) -> Seq<char> {
    key_task() + str_chars(t.description) + key_completed() + bool_chars(t.completed) + key_due()
        + due_chars(t.due) + seq!['}']
}

/// The comma-separated objects.
pub open spec fn items_chars(ts: Seq<TaskView>) -> Seq<char>
    decreases ts.len(),
{
    if ts.len() == 0 {
        Seq::empty()
    } else if ts.len() == 1 {
        task_chars(ts[0])
    } else {
        task_chars(ts[0]) + seq![','] + items_chars(ts.drop_first())
    }
}

/// The whole persisted file: an array of task objects.
pub open spec fn tasks_chars(ts: Seq<TaskView>) -> Seq<char> {
    seq!['['] + items_chars(ts) + seq![']']
}

proof fn lemma_esc_snoc(t: Seq<char>, c: char)
    ensures
        esc_chars(t.push(c)) == esc_chars(t) + esc_char(c),
    decreases t.len(),
{
    if t.len() == 0 {
        assert(t.push(c)[0] == c);
        assert(t.push(c).drop_first() =~= Seq::<char>::empty());
        assert(esc_chars(t.push(c)) == esc_char(c) + esc_chars(t.push(c).drop_first()));
        assert(esc_chars(Seq::<char>::empty()) =~= Seq::<char>::empty());
        assert(esc_chars(t.push(c)) =~= esc_chars(t) + esc_char(c));
    } else {
        assert(t.push(c).drop_first() =~= t.drop_first().push(c));
        lemma_esc_snoc(t.drop_first(), c);
        assert(esc_chars(t.push(c)) =~= esc_chars(t) + esc_char(c));
    }
}

proof fn lemma_items_snoc(ts: Seq<TaskView>, t: TaskView)
    ensures
        items_chars(ts.push(t)) == if ts.len() == 0 {
            task_chars(t)
        } else {
            items_chars(ts) + seq![','] + task_chars(t)
        },
    decreases ts.len(),
{
    if ts.len() == 0 {
        assert(ts.push(t)[0] == t);
        assert(items_chars(ts.push(t)) =~= task_chars(t));
    } else {
        assert(ts.push(t).drop_first() =~= ts.drop_first().push(t));
        lemma_items_snoc(ts.drop_first(), t);
        assert(items_chars(ts.push(t)) =~= items_chars(ts) + seq![','] + task_chars(t));
    }
}

fn hex_char_x(n: u8) -> (c: char)
    requires
        n < 16,
    ensures
        c == hex_char(n as int),
{
    if n < 10 {
        crate::text::digit_char_x(n)
    } else if n == 10 { 'a' }
    else if n == 11 { 'b' }
    else if n == 12 { 'c' }
    else if n == 13 { 'd' }
    else if n == 14 { 'e' }
    else { 'f' }
}

/// Returns the digit's value, or 16 when `c` is not a lowercase hex digit.
fn hex_val_x(c: char) -> (r: u8)
    ensures
        r as int == hex_val(c),
{
    let d: u8 = crate::text::digit_val_x(c);
    if d < 10 { d }
    else if c == 'a' { 10 }
    else if c == 'b' { 11 }
    else if c == 'c' { 12 }
    else if c == 'd' { 13 }
    else if c == 'e' { 14 }
    else if c == 'f' { 15 }
    else { 16 }
}

fn push_esc_char(c: char, out: &mut Vec<char>)
    ensures
        final(out)@ == old(out)@ + esc_char(c),
{
    if c == '"' {
        out.push('\\');
        out.push('"');
        assert(out@ =~= old(out)@ + esc_char(c));
    } else if c == '\\' {
        out.push('\\');
        out.push('\\');
        assert(out@ =~= old(out)@ + esc_char(c));
    } else {
        let v: u32 = c as u32;
        if v < 32 {
            out.push('\\');
            out.push('u');
            out.push('0');
            out.push('0');
            out.push(hex_char_x((v / 16) as u8));
            out.push(hex_char_x((v % 16) as u8));
            assert(out@ =~= old(out)@ + esc_char(c));
        } else {
            out.push(c);
            assert(out@ =~= old(out)@ + esc_char(c));
        }
    }
}

fn push_escaped(v: &Vec<char>, out: &mut Vec<char>)
    ensures
        final(out)@ == old(out)@ + esc_chars(v@),
{
    let n: usize = v.len();
    let mut i: usize = 0;
    while i < n
        invariant
            i <= n,
            n == v@.len(),
            out@ == old(out)@ + esc_chars(v@.subrange(0, i as int)),
        decreases n - i,
    {
        push_esc_char(v[i], out);
        proof {
            assert(v@.subrange(0, i + 1).drop_last() =~= v@.subrange(0, i as int));
            assert(v@.subrange(0, i + 1) =~= v@.subrange(0, i as int).push(v@[i as int]));
            lemma_esc_snoc(v@.subrange(0, i as int), v@[i as int]);
        }
        i = i + 1;
    }
    assert(v@.subrange(0, n as int) =~= v@);
}

fn push_key_task(out: &mut Vec<char>)
    ensures
        final(out)@ == old(out)@ + key_task(),
{
    out.push('{');
    out.push('"');
    out.push('t');
    out.push('a');
    out.push('s');
    out.push('k');
    out.push('"');
    out.push(':');
    assert(out@ =~= old(out)@ + key_task());
}

fn push_key_completed(out: &mut Vec<char>)
    ensures
        final(out)@ == old(out)@ + key_completed(),
{
    out.push(',');
    out.push('"');
    out.push('c');
    out.push('o');
    out.push('m');
    out.push('p');
    out.push('l');
    out.push('e');
    out.push('t');
    out.push('e');
    out.push('d');
    out.push('"');
    out.push(':');
    assert(out@ =~= old(out)@ + key_completed());
}

fn push_key_due(out: &mut Vec<char>)
    ensures
        final(out)@ == old(out)@ + key_due(),
{
    out.push(',');
    out.push('"');
    out.push('d');
    out.push('u');
    out.push('e');
    out.push('_');
    out.push('d');
    out.push('a');
    out.push('t');
    out.push('e');
    out.push('"');
    out.push(':');
    assert(out@ =~= old(out)@ + key_due());
}

fn push_bool_chars(b: bool, out: &mut Vec<char>)
    ensures
        final(out)@ == old(out)@ + bool_chars(b),
{
    if b {
        out.push('t');
        out.push('r');
        out.push('u');
        out.push('e');
    } else {
        out.push('f');
        out.push('a');
        out.push('l');
        out.push('s');
        out.push('e');
    }
    assert(out@ =~= old(out)@ + bool_chars(b));
}

fn push_quoted(s: &str, out: &mut Vec<char>)
    ensures
        final(out)@ == old(out)@ + str_chars(s@),
{
    out.push('"');
    let dchars = chars_of(s);
    push_escaped(&dchars, out);
    out.push('"');
    assert(out@ =~= old(out)@ + str_chars(s@));
}

fn push_due_chars(o: &Option<Date>, out: &mut Vec<char>)
    ensures
        final(out)@ == old(out)@ + due_chars(o.deep_view()),
{
    match o {
        Option::None => {
            out.push('n');
            out.push('u');
            out.push('l');
            out.push('l');
            assert(out@ =~= old(out)@ + due_chars(o.deep_view()));
        },
        Option::Some(d) => {
            out.push('"');
            push_date_chars(d, out);
            out.push('"');
            assert(out@ =~= old(out)@ + due_chars(o.deep_view()));
        },
    }
}

fn push_task_chars(t: &Task, out: &mut Vec<char>)
    ensures
        final(out)@ == old(out)@ + task_chars(t@),
{
    push_key_task(out);
    push_quoted(t.description.as_str(), out);
    push_key_completed(out);
    push_bool_chars(t.completed, out);
    push_key_due(out);
    push_due_chars(&t.due_date, out);
    out.push('}');
    assert(out@ =~= old(out)@ + task_chars(t@));
}

/// Renders the task list in its persisted form. `save` is this rendering
/// followed by writing the file.
pub fn to_json(tasks: &Vec<Task>) -> (r: String)
    ensures
        r@ == tasks_chars(tasks.deep_view()),
{
    let mut out: Vec<char> = Vec::new();
    out.push('[');
    assert(out@ =~= seq!['['] + items_chars(tasks.deep_view().subrange(0, 0)));
    let n: usize = tasks.len();
    let mut i: usize = 0;
    while i < n
        invariant
            i <= n,
            n == tasks@.len(),
            out@ == seq!['['] + items_chars(tasks.deep_view().subrange(0, i as int)),
        decreases n - i,
    {
        if i > 0 {
            out.push(',');
        }
        push_task_chars(&tasks[i], &mut out);
        proof {
            let dv = tasks.deep_view();
            assert(dv.subrange(0, i + 1) =~= dv.subrange(0, i as int).push(dv[i as int]));
            lemma_items_snoc(dv.subrange(0, i as int), dv[i as int]);
            assert(dv[i as int] == tasks@[i as int]@);
            assert(out@ =~= seq!['['] + items_chars(dv.subrange(0, i + 1)));
        }
        i = i + 1;
    }
    out.push(']');
    assert(tasks.deep_view().subrange(0, n as int) =~= tasks.deep_view());
    assert(out@ =~= tasks_chars(tasks.deep_view()));
    chars_to_string(&out)
}

// ---------------------------------------------------------------------------
// Parsing: reading the persisted form back
// ---------------------------------------------------------------------------

/// Recognizes `lit` at position `i`.
pub open spec fn p_lit(s: Seq<char>, i: int, lit: Seq<char>) -> Option<int> {
    if 0 <= i && i + lit.len() <= s.len() && s.subrange(i, i + lit.len() as int) == lit {
        Option::Some(i + lit.len() as int)
    } else {
        Option::None
    }
}

/// Reads the body of a quoted string up to and including the closing quote,
/// undoing the escapes the renderer makes.
pub open spec fn p_string_body(s: Seq<char>, i: int) -> Option<(Seq<char>, int)>
    decreases s.len() - i,
{
    if i < 0 || i >= s.len() {
        Option::None
    } else if s[i] == '"' {
        Option::Some((Seq::empty(), i + 1))
    } else if s[i] == '\\' {
        if i + 1 >= s.len() {
            Option::None
        } else if s[i + 1] == '"' || s[i + 1] == '\\' {
            match p_string_body(s, i + 2) {
                Option::None => Option::None,
                Option::Some((t, j)) => Option::Some((seq![s[i + 1]] + t, j)),
            }
        } else if s[i + 1] == 'u' {
            if i + 6 <= s.len() && s[i + 2] == '0' && s[i + 3] == '0' && hex_val(s[i + 4]) < 16
                && hex_val(s[i + 5]) < 16 && hex_val(s[i + 4]) * 16 + hex_val(s[i + 5]) < 32 {
                match p_string_body(s, i + 6) {
                    Option::None => Option::None,
                    Option::Some((t, j)) => Option::Some((
                        seq![((hex_val(s[i + 4]) * 16 + hex_val(s[i + 5])) as u8) as char] + t,
                        j,
                    )),
                }
            } else {
                Option::None
            }
        } else {
            Option::None
        }
    } else {
        match p_string_body(s, i + 1) {
            Option::None => Option::None,
            Option::Some((t, j)) => Option::Some((seq![s[i]] + t, j)),
        }
    }
}

pub open spec fn p_string(s: Seq<char>, i: int) -> Option<(Seq<char>, int)> {
    if 0 <= i && i < s.len() && s[i] == '"' {
        p_string_body(s, i + 1)
    } else {
        Option::None
    }
}

pub open spec fn p_bool(s: Seq<char>, i: int) -> Option<(bool, int)> {
    if p_lit(s, i, seq!['t', 'r', 'u', 'e']) is Some {
        Option::Some((true, i + 4))
    } else if p_lit(s, i, seq!['f', 'a', 'l', 's', 'e']) is Some {
        Option::Some((false, i + 5))
    } else {
        Option::None
    }
}

/// Reads `null` or a quoted `YYYY-MM-DD` date.
pub open spec fn p_due(s: Seq<char>, i: int) -> Option<(Option<DateView>, int)> {
    if p_lit(s, i, seq!['n', 'u', 'l', 'l']) is Some {
        Option::Some((Option::None, i + 4))
    } else if 0 <= i && i + 12 <= s.len() && s[i] == '"' && s[i + 11] == '"' {
        match parse_date_chars(s.subrange(i + 1, i + 11)) {
            Option::Some(dv) => Option::Some((Option::Some(dv), i + 12)),
            Option::None => Option::None,
        }
    } else {
        Option::None
    }
}

/// Reads one task object.
pub open spec fn p_task(s: Seq<char>, i: int) -> Option<(TaskView, int)> {
    match p_lit(s, i, key_task()) {
        Option::None => Option::None,
        Option::Some(j1) => match p_string(s, j1) {
            Option::None => Option::None,
            Option::Some((d, j2)) => match p_lit(s, j2, key_completed()) {
                Option::None => Option::None,
                Option::Some(j3) => match p_bool(s, j3) {
                    Option::None => Option::None,
                    Option::Some((b, j4)) => match p_lit(s, j4, key_due()) {
                        Option::None => Option::None,
                        Option::Some(j5) => match p_due(s, j5) {
                            Option::None => Option::None,
                            Option::Some((o, j6)) => match p_lit(s, j6, seq!['}']) {
                                Option::None => Option::None,
                                Option::Some(j7) => Option::Some((
                                    TaskView { description: d, completed: b, due: o },
                                    j7,
                                )),
                            },
                        },
                    },
                },
            },
        },
    }
}

/// Reads one or more comma-separated task objects.
pub open spec fn p_items(s: Seq<char>, i: int) -> Option<(Seq<TaskView>, int)>
    decreases s.len() - i,
{
    match p_task(s, i) {
        Option::None => Option::None,
        Option::Some((t, j)) => {
            if j < s.len() && s[j] == ',' {
                if i < j {
                    match p_items(s, j + 1) {
                        Option::None => Option::None,
                        Option::Some((ts, j2)) => Option::Some((seq![t] + ts, j2)),
                    }
                } else {
                    Option::None
                }
            } else {
                Option::Some((seq![t], j))
            }
        },
    }
}

/// What a whole persisted file denotes, when it is well formed.
pub open spec fn p_tasks(s: Seq<char>) -> Option<Seq<TaskView>> {
    if s.len() < 2 || s[0] != '[' {
        Option::None
    } else if s.len() == 2 && s[1] == ']' {
        Option::Some(Seq::empty())
    } else {
        match p_items(s, 1) {
            Option::None => Option::None,
            Option::Some((ts, j)) => {
                if j + 1 == s.len() && s[j] == ']' {
                    Option::Some(ts)
                } else {
                    Option::None
                }
            },
        }
    }
}

fn match_lit(s: &Vec<char>, i: usize, lit: &Vec<char>) -> (r: Option<usize>)
    requires
        i <= s@.len(),
    ensures
        match r {
            Some(j) => p_lit(s@, i as int, lit@) == Option::Some(j as int),
            None => p_lit(s@, i as int, lit@) is None,
        },
{
    if s.len() - i < lit.len() {
        return None;
    }
    let n: usize = lit.len();
    let mut j: usize = 0;
    while j < n
        invariant
            j <= n,
            n == lit@.len(),
            i + n <= s@.len(),
            s@.len() <= usize::MAX,
            forall|k: int| 0 <= k < j ==> s@[i + k] == lit@[k],
        decreases n - j,
    {
        if s[i + j] != lit[j] {
            assert(p_lit(s@, i as int, lit@) is None) by {
                if s@.subrange(i as int, i + lit@.len() as int) == lit@ {
                    assert(s@.subrange(i as int, i + lit@.len() as int)[j as int] == lit@[j as int]);
                }
            }
            return None;
        }
        j = j + 1;
    }
    assert(s@.subrange(i as int, i + lit@.len() as int) =~= lit@);
    Some(i + n)
}

fn p_string_body_x(s: &Vec<char>, i: usize) -> (r: Option<(Vec<char>, usize)>)
    requires
        i <= s@.len(),
    ensures
        match r {
            Some(p) => p_string_body(s@, i as int) == Option::Some((p.0@, p.1 as int))
                && i < p.1 <= s@.len(),
            None => p_string_body(s@, i as int) is None,
        },
    decreases s@.len() - i,
{
    if i >= s.len() {
        return None;
    }
    let c: char = s[i];
    if c == '"' {
        return Some((Vec::new(), i + 1));
    }
    if c == '\\' {
        if i + 1 >= s.len() {
            return None;
        }
        let c2: char = s[i + 1];
        if c2 == '"' || c2 == '\\' {
            match p_string_body_x(s, i + 2) {
                None => None,
                Some(p) => {
                    let ghost pd = p.0@;
                    let (mut d, j) = p;
                    d.insert(0, c2);
                    assert(d@ =~= seq![c2] + pd);
                    Some((d, j))
                },
            }
        } else if c2 == 'u' {
            if s.len() - i < 6 {
                return None;
            }
            if s[i + 2] != '0' || s[i + 3] != '0' {
                return None;
            }
            let h1: u8 = hex_val_x(s[i + 4]);
            let h2: u8 = hex_val_x(s[i + 5]);
            if h1 < 16 && h2 < 16 && h1 * 16 + h2 < 32 {
                let v: u8 = h1 * 16 + h2;
                let c3: char = v as char;
                match p_string_body_x(s, i + 6) {
                    None => None,
                    Some(p) => {
                        let ghost pd = p.0@;
                        let (mut d, j) = p;
                        d.insert(0, c3);
                        assert(d@ =~= seq![c3] + pd);
                        Some((d, j))
                    },
                }
            } else {
                None
            }
        } else {
            None
        }
    } else {
        match p_string_body_x(s, i + 1) {
            None => None,
            Some(p) => {
                let ghost pd = p.0@;
                let (mut d, j) = p;
                d.insert(0, c);
                assert(d@ =~= seq![c] + pd);
                Some((d, j))
            },
        }
    }
}

fn p_due_x(s: &Vec<char>, i: usize) -> (r: Option<(Option<Date>, usize)>)
    requires
        i <= s@.len(),
    ensures
        match r {
            Some(p) => p_due(s@, i as int) == Option::Some((p.0.deep_view(), p.1 as int))
                && i < p.1 <= s@.len(),
            None => p_due(s@, i as int) is None,
        },
{
    let null_lit = vec!['n', 'u', 'l', 'l'];
    assert(null_lit@ =~= seq!['n', 'u', 'l', 'l']);
    match match_lit(s, i, &null_lit) {
        Some(j) => Some((None, j)),
        None => {
            if s.len() - i >= 12 && s[i] == '"' && s[i + 11] == '"' {
                match read_date_at(s, i + 1) {
                    Some(d) => {
                        assert(s@.subrange(i + 1, i + 11) =~= s@.subrange(i + 1, i + 1 + 10));
                        Some((Some(d), i + 12))
                    },
                    None => {
                        assert(s@.subrange(i + 1, i + 11) =~= s@.subrange(i + 1, i + 1 + 10));
                        None
                    },
                }
            } else {
                None
            }
        },
    }
}

fn p_task_x(s: &Vec<char>, i: usize) -> (r: Option<(Task, usize)>)
    requires
        i <= s@.len(),
    ensures
        match r {
            Some(p) => p_task(s@, i as int) == Option::Some((p.0@, p.1 as int))
                && i < p.1 <= s@.len(),
            None => p_task(s@, i as int) is None,
        },
{
    let k1 = vec!['{', '"', 't', 'a', 's', 'k', '"', ':'];
    assert(k1@ =~= key_task());
    let j1 = match match_lit(s, i, &k1) {
        None => { return None; },
        Some(j) => j,
    };
    if j1 >= s.len() || s[j1] != '"' {
        return None;
    }
    let (dvec, j2) = match p_string_body_x(s, j1 + 1) {
        None => { return None; },
        Some(p) => p,
    };
    let k2 = vec![',', '"', 'c', 'o', 'm', 'p', 'l', 'e', 't', 'e', 'd', '"', ':'];
    assert(k2@ =~= key_completed());
    let j3 = match match_lit(s, j2, &k2) {
        None => { return None; },
        Some(j) => j,
    };
    let true_lit = vec!['t', 'r', 'u', 'e'];
    assert(true_lit@ =~= seq!['t', 'r', 'u', 'e']);
    let false_lit = vec!['f', 'a', 'l', 's', 'e'];
    assert(false_lit@ =~= seq!['f', 'a', 'l', 's', 'e']);
    let (b, j4): (bool, usize) = match match_lit(s, j3, &true_lit) {
        Some(j) => (true, j),
        None => match match_lit(s, j3, &false_lit) {
            Some(j) => (false, j),
            None => { return None; },
        },
    };
    let k3 = vec![',', '"', 'd', 'u', 'e', '_', 'd', 'a', 't', 'e', '"', ':'];
    assert(k3@ =~= key_due());
    let j5 = match match_lit(s, j4, &k3) {
        None => { return None; },
        Some(j) => j,
    };
    let (o, j6) = match p_due_x(s, j5) {
        None => { return None; },
        Some(p) => p,
    };
    let brace = vec!['}'];
    assert(brace@ =~= seq!['}']);
    let j7 = match match_lit(s, j6, &brace) {
        None => { return None; },
        Some(j) => j,
    };
    let t = Task { description: chars_to_string(&dvec), completed: b, due_date: o };
    Some((t, j7))
}

fn p_items_x(s: &Vec<char>, i: usize) -> (r: Option<(Vec<Task>, usize)>)
    requires
        i <= s@.len(),
    ensures
        match r {
            Some(p) => p_items(s@, i as int) == Option::Some((p.0.deep_view(), p.1 as int))
                && i < p.1 <= s@.len(),
            None => p_items(s@, i as int) is None,
        },
    decreases s@.len() - i,
{
    let (t, j) = match p_task_x(s, i) {
        None => { return None; },
        Some(p) => p,
    };
    if j < s.len() && s[j] == ',' {
        match p_items_x(s, j + 1) {
            None => None,
            Some(p) => {
                let ghost pv = p.0.deep_view();
                let ghost tv = t@;
                let (mut ts, j2) = p;
                ts.insert(0, t);
                assert(ts.deep_view() =~= seq![tv] + pv);
                Some((ts, j2))
            },
        }
    } else {
        let ghost tv = t@;
        let mut ts: Vec<Task> = Vec::new();
        ts.push(t);
        assert(ts.deep_view() =~= seq![tv]);
        Some((ts, j))
    }
}

/// Reads a persisted task list back. `load` is reading the file followed by
/// this parse; a malformed file is exactly a `ParseError`.
pub fn from_json(s: &str) -> (r: Result<Vec<Task>, TodoError>)
    ensures
        match r {
            Ok(v) => p_tasks(s@) == Option::Some(v.deep_view()),
            Err(e) => p_tasks(s@) is None && e == TodoError::ParseError,
        },
{
    let cs = chars_of(s);
    if cs.len() < 2 || cs[0] != '[' {
        return Err(TodoError::ParseError);
    }
    if cs.len() == 2 && cs[1] == ']' {
        let v: Vec<Task> = Vec::new();
        assert(v.deep_view() =~= Seq::<TaskView>::empty());
        return Ok(v);
    }
    match p_items_x(&cs, 1) {
        None => Err(TodoError::ParseError),
        Some(p) => {
            let (v, j) = p;
            if j < cs.len() && j + 1 == cs.len() && cs[j] == ']' {
                Ok(v)
            } else {
                Err(TodoError::ParseError)
            }
        },
    }
}

// ---------------------------------------------------------------------------
// Round trip: parsing what was rendered gives back the same tasks
// ---------------------------------------------------------------------------

/// Every character's code is a non-negative unicode scalar value.
proof fn lemma_char_bounds(c: char)
    ensures
        0 <= c as int,
{
    assert(c as u32 == c as int);
}

proof fn lemma_hex_rt(n: int)
    requires
        0 <= n < 16,
    ensures
        hex_val(hex_char(n)) == n,
{
}

/// One position of a window of `s` known to hold `w`.
proof fn lemma_index_from_subrange(s: Seq<char>, i: int, w: Seq<char>, k: int)
    requires
        0 <= i,
        0 <= k < w.len(),
        i + w.len() <= s.len(),
        s.subrange(i, i + w.len() as int) == w,
    ensures
        s[i + k] == w[k],
{
    assert(s.subrange(i, i + w.len() as int)[k] == s[i + k]);
}

/// A sub-window of a window of `s` known to hold `w`.
proof fn lemma_sub_from_subrange(s: Seq<char>, i: int, w: Seq<char>, a: int, b: int)
    requires
        0 <= i,
        0 <= a <= b <= w.len(),
        i + w.len() <= s.len(),
        s.subrange(i, i + w.len() as int) == w,
    ensures
        s.subrange(i + a, i + b) == w.subrange(a, b),
{
    assert forall|m: int| 0 <= m < b - a implies s.subrange(i + a, i + b)[m] == w.subrange(a, b)[m] by {
        assert(s.subrange(i, i + w.len() as int)[a + m] == s[i + (a + m)]);
        assert(w.subrange(a, b)[m] == w[a + m]);
        assert(s.subrange(i + a, i + b)[m] == s[i + a + m]);
    }
    assert(s.subrange(i + a, i + b) =~= w.subrange(a, b));
}

proof fn lemma_string_body_rt(s: Seq<char>, i: int, d: Seq<char>)
    requires
        0 <= i,
        i + esc_chars(d).len() + 1 <= s.len(),
        s.subrange(i, i + esc_chars(d).len() + 1) == esc_chars(d) + seq!['"'],
    ensures
        p_string_body(s, i) == Option::Some((d, i + esc_chars(d).len() + 1)),
    decreases d.len(),
{
    let e = esc_chars(d);
    let w = e + seq!['"'];
    if d.len() == 0 {
        lemma_index_from_subrange(s, i, w, 0);
        assert(s[i] == '"');
        assert(d =~= Seq::<char>::empty());
    } else {
        let c = d[0];
        let rest = d.drop_first();
        let ec = esc_char(c);
        let er = esc_chars(rest);
        assert(e == ec + er);
        let li = ec.len() as int;
        lemma_sub_from_subrange(s, i, w, li, w.len() as int);
        assert(w.subrange(li, w.len() as int) =~= er + seq!['"']);
        lemma_string_body_rt(s, i + li, rest);
        assert(seq![c] + rest =~= d);
        if c == '"' {
            lemma_index_from_subrange(s, i, w, 0);
            lemma_index_from_subrange(s, i, w, 1);
            assert(s[i] == '\\' && s[i + 1] == '"');
        } else if c == '\\' {
            lemma_index_from_subrange(s, i, w, 0);
            lemma_index_from_subrange(s, i, w, 1);
            assert(s[i] == '\\' && s[i + 1] == '\\');
        } else if (c as int) < 32 {
            let v = c as int;
            lemma_char_bounds(c);
            assert(0 <= v);
            lemma_index_from_subrange(s, i, w, 0);
            lemma_index_from_subrange(s, i, w, 1);
            lemma_index_from_subrange(s, i, w, 2);
            lemma_index_from_subrange(s, i, w, 3);
            lemma_index_from_subrange(s, i, w, 4);
            lemma_index_from_subrange(s, i, w, 5);
            assert(s[i] == '\\' && s[i + 1] == 'u' && s[i + 2] == '0' && s[i + 3] == '0');
            assert(s[i + 4] == hex_char(v / 16) && s[i + 5] == hex_char(v % 16));
            lemma_hex_rt(v / 16);
            lemma_hex_rt(v % 16);
            assert(hex_val(s[i + 4]) * 16 + hex_val(s[i + 5]) == v);
            assert(((v as u8) as char) == c);
        } else {
            lemma_index_from_subrange(s, i, w, 0);
            assert(s[i] == c);
        }
    }
}

proof fn lemma_bool_rt(s: Seq<char>, i: int, b: bool)
    requires
        0 <= i,
        i + bool_chars(b).len() <= s.len(),
        s.subrange(i, i + bool_chars(b).len()) == bool_chars(b),
    ensures
        p_bool(s, i) == Option::Some((b, i + bool_chars(b).len())),
{
    if b {
        assert(s.subrange(i, i + 4) == seq!['t', 'r', 'u', 'e']);
    } else {
        lemma_index_from_subrange(s, i, bool_chars(b), 0);
        assert(s[i] == 'f');
        assert(p_lit(s, i, seq!['t', 'r', 'u', 'e']) is None) by {
            if i + 4 <= s.len() && s.subrange(i, i + 4) == seq!['t', 'r', 'u', 'e'] {
                assert(s.subrange(i, i + 4)[0] == 't');
            }
        }
        assert(s.subrange(i, i + 5) == seq!['f', 'a', 'l', 's', 'e']);
    }
}

proof fn lemma_due_rt(s: Seq<char>, i: int, o: Option<DateView>)
    requires
        0 <= i,
        i + due_chars(o).len() <= s.len(),
        s.subrange(i, i + due_chars(o).len()) == due_chars(o),
        due_wf(o),
    ensures
        p_due(s, i) == Option::Some((o, i + due_chars(o).len())),
{
    let f = due_chars(o);
    match o {
        Option::None => {
            assert(s.subrange(i, i + 4) == seq!['n', 'u', 'l', 'l']);
        },
        Option::Some(dv) => {
            lemma_index_from_subrange(s, i, f, 0);
            lemma_index_from_subrange(s, i, f, 11);
            assert(s[i] == '"' && s[i + 11] == '"');
            assert(p_lit(s, i, seq!['n', 'u', 'l', 'l']) is None) by {
                if i + 4 <= s.len() && s.subrange(i, i + 4) == seq!['n', 'u', 'l', 'l'] {
                    assert(s.subrange(i, i + 4)[0] == 'n');
                }
            }
            lemma_sub_from_subrange(s, i, f, 1, 11);
            assert(f.subrange(1, 11) =~= date_chars(dv));
            lemma_date_round_trip(dv);
        },
    }
}

#[verifier::rlimit(100)]
proof fn lemma_task_rt(s: Seq<char>, i: int, t: TaskView)
    requires
        0 <= i,
        i + task_chars(t).len() <= s.len(),
        s.subrange(i, i + task_chars(t).len()) == task_chars(t),
        due_wf(t.due),
    ensures
        p_task(s, i) == Option::Some((t, i + task_chars(t).len())),
{
    let tc = task_chars(t);
    let a = key_task();
    let b = str_chars(t.description);
    let c = key_completed();
    let d = bool_chars(t.completed);
    let e = key_due();
    let f = due_chars(t.due);
    let ed = esc_chars(t.description);
    let j1 = i + 8;
    let j2 = j1 + b.len() as int;
    let j3 = j2 + 13;
    let j4 = j3 + d.len() as int;
    let j5 = j4 + 12;
    let j6 = j5 + f.len() as int;
    let j7 = j6 + 1;
    assert(tc.len() == 8 + b.len() + 13 + d.len() + 12 + f.len() + 1);
    lemma_sub_from_subrange(s, i, tc, 0, 8);
    assert(tc.subrange(0, 8) =~= a);
    assert(p_lit(s, i, a) == Option::Some(j1));
    lemma_index_from_subrange(s, i, tc, 8);
    assert(tc[8] == '"');
    assert(s[j1] == '"');
    lemma_sub_from_subrange(s, i, tc, 9, 9 + ed.len() as int + 1);
    assert(tc.subrange(9, 9 + ed.len() as int + 1) =~= ed + seq!['"']);
    lemma_string_body_rt(s, i + 9, t.description);
    assert(p_string(s, j1) == Option::Some((t.description, j2)));
    lemma_sub_from_subrange(s, i, tc, j2 - i, j3 - i);
    assert(tc.subrange(j2 - i, j3 - i) =~= c);
    assert(p_lit(s, j2, c) == Option::Some(j3));
    lemma_sub_from_subrange(s, i, tc, j3 - i, j4 - i);
    assert(tc.subrange(j3 - i, j4 - i) =~= d);
    lemma_bool_rt(s, j3, t.completed);
    lemma_sub_from_subrange(s, i, tc, j4 - i, j5 - i);
    assert(tc.subrange(j4 - i, j5 - i) =~= e);
    assert(p_lit(s, j4, e) == Option::Some(j5));
    lemma_sub_from_subrange(s, i, tc, j5 - i, j6 - i);
    assert(tc.subrange(j5 - i, j6 - i) =~= f);
    lemma_due_rt(s, j5, t.due);
    lemma_sub_from_subrange(s, i, tc, j6 - i, j7 - i);
    assert(tc.subrange(j6 - i, j7 - i) =~= seq!['}']);
    assert(p_lit(s, j6, seq!['}']) == Option::Some(j7));
    assert((TaskView { description: t.description, completed: t.completed, due: t.due }) == t);
}

proof fn lemma_items_rt(s: Seq<char>, i: int, ts: Seq<TaskView>)
    requires
        ts.len() >= 1,
        forall|k: int| 0 <= k < ts.len() ==> due_wf((#[trigger] ts[k]).due),
        0 <= i,
        i + items_chars(ts).len() < s.len(),
        s.subrange(i, i + items_chars(ts).len()) == items_chars(ts),
        s[i + items_chars(ts).len()] == ']',
    ensures
        p_items(s, i) == Option::Some((ts, i + items_chars(ts).len())),
    decreases ts.len(),
{
    let ic = items_chars(ts);
    let t0 = ts[0];
    let tl = task_chars(t0).len() as int;
    if ts.len() == 1 {
        assert(ic == task_chars(t0));
        lemma_task_rt(s, i, t0);
        assert(s[i + tl] == ']');
        assert(seq![t0] =~= ts);
    } else {
        let rest = ts.drop_first();
        let icr = items_chars(rest);
        assert(ic == task_chars(t0) + seq![','] + icr);
        assert(ic.len() == tl + 1 + icr.len());
        lemma_sub_from_subrange(s, i, ic, 0, tl);
        assert(ic.subrange(0, tl) =~= task_chars(t0));
        lemma_task_rt(s, i, t0);
        let j = i + tl;
        lemma_index_from_subrange(s, i, ic, tl);
        assert(ic[tl] == ',');
        assert(s[j] == ',');
        assert(tl > 0);
        lemma_sub_from_subrange(s, i, ic, tl + 1, ic.len() as int);
        assert(ic.subrange(tl + 1, ic.len() as int) =~= icr);
        assert(forall|k: int| 0 <= k < rest.len() ==> #[trigger] rest[k] == ts[k + 1]);
        assert(s[j + 1 + icr.len()] == ']');
        lemma_items_rt(s, j + 1, rest);
        assert(seq![t0] + rest =~= ts);
    }
}

/// Saving then loading reproduces an equivalent task sequence: parsing the
/// rendered form of any task list gives back exactly that list, in order,
/// with the same field values.
pub proof fn lemma_save_load_round_trip(ts: Seq<TaskView>)
    requires
        forall|i: int| 0 <= i < ts.len() ==> due_wf((#[trigger] ts[i]).due),
    ensures
        p_tasks(tasks_chars(ts)) == Option::Some(ts),
{
    let s = tasks_chars(ts);
    let ic = items_chars(ts);
    assert(s.len() == ic.len() + 2);
    assert(s[0] == '[');
    if ts.len() == 0 {
        assert(s[1] == ']');
        assert(ts =~= Seq::<TaskView>::empty());
    } else {
        assert(ic.len() >= 8) by {
            if ts.len() == 1 {
                assert(ic == task_chars(ts[0]));
            } else {
                assert(ic == task_chars(ts[0]) + seq![','] + items_chars(ts.drop_first()));
            }
            assert(task_chars(ts[0]).len() >= 8);
        }
        assert(s.len() > 2);
        assert(s.subrange(1, 1 + ic.len() as int) =~= ic);
        assert(s[1 + ic.len() as int] == ']');
        lemma_items_rt(s, 1, ts);
        let j = 1 + ic.len() as int;
        assert(j + 1 == s.len() && s[j] == ']');
    }
}

} // verus!
