use vstd::prelude::*;

use crate::date::{date_chars, push_date_chars, DateView};
use crate::task::{Task, TaskView};
use crate::text::{
    all_digits, chars_of, chars_to_string, dec_chars, digit_val_x, digits_val, is_digit,
    lemma_digits_val_prefix, push_dec,
};
use crate::TodoError;

verus! {

/// The commands of the numbered menu, in menu order.
#[derive(Debug, Clone, Copy, PartialEq, Eq, Structural)]
pub enum Command {
    AddTask,
    ViewTasks,
    CompleteTask,
    RemoveTask,
    ViewByDate,
    SearchTasks,
    Quit,
}

pub open spec fn choice_command(n: int) -> Option<Command> {
    if n == 1 { Option::Some(Command::AddTask) }
    else if n == 2 { Option::Some(Command::ViewTasks) }
    else if n == 3 { Option::Some(Command::CompleteTask) }
    else if n == 4 { Option::Some(Command::RemoveTask) }
    else if n == 5 { Option::Some(Command::ViewByDate) }
    else if n == 6 { Option::Some(Command::SearchTasks) }
    else if n == 7 { Option::Some(Command::Quit) }
    else { Option::None }
}

/// The command a menu choice selects; numbers outside the menu select none.
pub fn command_of_choice(n: usize) -> (r: Option<Command>)
    ensures
        r == choice_command(n as int),
{
    if n == 1 { Some(Command::AddTask) }
    else if n == 2 { Some(Command::ViewTasks) }
    else if n == 3 { Some(Command::CompleteTask) }
    else if n == 4 { Some(Command::RemoveTask) }
    else if n == 5 { Some(Command::ViewByDate) }
    else if n == 6 { Some(Command::SearchTasks) }
    else if n == 7 { Some(Command::Quit) }
    else { None }
}

/// Reads a line as a decimal number, as the menu and the task-number prompts
/// take it. Succeeds exactly on non-empty all-digit input whose value fits.
pub fn parse_index(s: &str) -> (r: Result<usize, TodoError>)
    ensures
        match r {
            Ok(n) => s@.len() > 0 && all_digits(s@) && n as int == digits_val(s@),
            Err(e) => e == TodoError::ParseError && (s@.len() == 0 || !all_digits(s@)
                || digits_val(s@) > usize::MAX),
        },
{
    let v = chars_of(s);
    let n: usize = v.len();
    if n == 0 {
        return Err(TodoError::ParseError);
    }
    let mut acc: usize = 0;
    let mut i: usize = 0;
    while i < n
        invariant
            i <= n,
            n == s@.len(),
            v@ == s@,
            acc as int == digits_val(s@.subrange(0, i as int)),
            all_digits(s@.subrange(0, i as int)),
        decreases n - i,
    {
        let d: u8 = digit_val_x(v[i]);
        if d >= 10 {
            assert(!all_digits(s@)) by {
                assert(!is_digit(s@[i as int]));
            }
            return Err(TodoError::ParseError);
        }
        proof {
            assert(s@.subrange(0, i + 1).drop_last() =~= s@.subrange(0, i as int));
            assert(s@.subrange(0, i + 1).last() == s@[i as int]);
            assert(all_digits(s@.subrange(0, i + 1)));
        }
        if acc > (usize::MAX - d as usize) / 10 {
            assert(s@.len() == 0 || !all_digits(s@) || digits_val(s@) > usize::MAX) by {
                if all_digits(s@) {
                    assert(digits_val(s@.subrange(0, i + 1)) == acc * 10 + d);
                    assert(acc * 10 + d > usize::MAX);
                    lemma_digits_val_prefix(s@, i + 1);
                }
            }
            return Err(TodoError::ParseError);
        }
        acc = acc * 10 + d as usize;
        i = i + 1;
    }
    assert(s@.subrange(0, n as int) =~= s@);
    Ok(acc)
}

/// What one listed task looks like: display index, completion marker,
/// description, and the due date or its placeholder.
pub open spec fn due_display(o: Option<DateView>) -> Seq<char> {
    match o {
        Option::None => "No due date"@,
        Option::Some(d) => date_chars(d),
    }
}

pub open spec fn line_chars(i: int, t: TaskView) -> Seq<char> {
    dec_chars(i) + ": ["@ + (if t.completed { "\u{2714}"@ } else { " "@ }) + "] "@ + t.description
        + " (Due: "@ + due_display(t.due) + ")"@
}

/// The display line for the task at 1-based index `index`.
pub fn format_task_line(index: usize, t: &Task) -> (r: String)
    ensures
        r@ == line_chars(index as int, t@),
{
    let mut out: Vec<char> = Vec::new();
    push_dec(index, &mut out);
    let mut sep1 = chars_of(": [");
    out.append(&mut sep1);
    let mut mark = if t.completed {
        chars_of("\u{2714}")
    } else {
        chars_of(" ")
    };
    out.append(&mut mark);
    let mut sep2 = chars_of("] ");
    out.append(&mut sep2);
    let mut desc = chars_of(t.description.as_str());
    out.append(&mut desc);
    let mut sep3 = chars_of(" (Due: ");
    out.append(&mut sep3);
    match &t.due_date {
        Option::None => {
            let mut ph = chars_of("No due date");
            out.append(&mut ph);
        },
        Option::Some(d) => {
            push_date_chars(d, &mut out);
        },
    }
    let mut sep4 = chars_of(")");
    out.append(&mut sep4);
    assert(out@ =~= line_chars(index as int, t@));
    chars_to_string(&out)
}

} // verus!
