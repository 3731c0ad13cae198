//! The wire format: a snapshot is one line that holds a JSON array, with one object for
//! each active task.
//!
//! An object always has `name` and `status`; the other members depend on the status:
//! `total` (a number or `null`) for a pending task, `done` and `total` for an iterative
//! task in progress, `message` for a task in error.
use crate::task::{Status, StatusView, Task, TaskView};
use vstd::prelude::*;

verus! {

/// The JSON text of a string as `serde_json` writes it: the quotation marks and, between
/// them, the characters of the string, with those escaped that JSON does not allow bare.
pub uninterp spec fn json_string_text(s: Seq<char>) -> Seq<char>;

/// Calls `serde_json::to_string` on a string slice.
///
/// Trusted: the result is the JSON text of `s`, which depends on `s` alone. Serialising a
/// string slice into memory cannot fail (`serde_json` only reports what the writer or the
/// value's own `Serialize` reports, and neither does here), so no error is handed on.
#[verifier::external_body]
fn json_string(s: &str) -> (text: String)
    ensures
        text@ == json_string_text(s@),
{
    serde_json::to_string(s).unwrap_or_default()
}

/// The character for a decimal digit.
pub open spec fn digit(d: nat) -> char {
    if d == 0 {
        '0'
    } else if d == 1 {
        '1'
    } else if d == 2 {
        '2'
    } else if d == 3 {
        '3'
    } else if d == 4 {
        '4'
    } else if d == 5 {
        '5'
    } else if d == 6 {
        '6'
    } else if d == 7 {
        '7'
    } else if d == 8 {
        '8'
    } else {
        '9'
    }
}

/// A number in decimal notation, without leading zeros.
pub open spec fn decimal_text(n: nat) -> Seq<char>
    decreases n,
{
    if n < 10 {
        seq![digit(n)]
    } else {
        decimal_text(n / 10).push(digit(n % 10))
    }
}

fn digit_str(d: usize) -> (text: &'static str)
    requires
        d < 10,
    ensures
        text@ == seq![digit(d as nat)],
{
    proof {
        reveal_strlit("0");
        reveal_strlit("1");
        reveal_strlit("2");
        reveal_strlit("3");
        reveal_strlit("4");
        reveal_strlit("5");
        reveal_strlit("6");
        reveal_strlit("7");
        reveal_strlit("8");
        reveal_strlit("9");
    }
    let text = if d == 0 {
        "0"
    } else if d == 1 {
        "1"
    } else if d == 2 {
        "2"
    } else if d == 3 {
        "3"
    } else if d == 4 {
        "4"
    } else if d == 5 {
        "5"
    } else if d == 6 {
        "6"
    } else if d == 7 {
        "7"
    } else if d == 8 {
        "8"
    } else {
        "9"
    };
    assert(text@ =~= seq![digit(d as nat)]);
    text
}

/// Writes a number in decimal notation.
pub fn decimal(n: usize) -> (text: String)
    ensures
        text@ == decimal_text(n as nat),
    decreases n,
{
    if n < 10 {
        String::from_str(digit_str(n))
    } else {
        let mut text = decimal(n / 10);
        text.append(digit_str(n % 10));
        assert(text@ =~= decimal_text(n as nat));
        text
    }
}

/// The members that a task in error adds to its object, given the JSON text of the message.
pub open spec fn error_members_text(message_json: Seq<char>) -> Seq<char> {
    "\"status\":\"error\",\"message\":"@ + message_json
}

/// The members that a status adds to a task's object: `status` first, then the fields
/// of the variant.
pub open spec fn status_text(status: StatusView) -> Seq<char> {
    match status {
        StatusView::Pending { total: None } => "\"status\":\"pending\",\"total\":null"@,
        StatusView::Pending { total: Some(t) } => "\"status\":\"pending\",\"total\":"@
            + decimal_text(t),
        StatusView::Error { message } => error_members_text(json_string_text(message)),
        StatusView::Finished => "\"status\":\"finished\""@,
        StatusView::Running => "\"status\":\"running\""@,
        StatusView::InProgress { done, total } => "\"status\":\"in_progress\",\"done\":"@
            + decimal_text(done) + ",\"total\":"@ + decimal_text(total),
    }
}

/// The object for a task, given the JSON text of its name and the members of its status.
pub open spec fn object_text(name_json: Seq<char>, members: Seq<char>) -> Seq<char> {
    "{\"name\":"@ + name_json + ","@ + members + "}"@
}

/// The object for a task.
pub open spec fn task_text(task: TaskView) -> Seq<char> {
    object_text(json_string_text(task.name), status_text(task.progress))
}

/// The items, with a comma between each two.
pub open spec fn joined_text(items: Seq<Seq<char>>) -> Seq<char>
    decreases items.len(),
{
    if items.len() == 0 {
        Seq::empty()
    } else if items.len() == 1 {
        items[0]
    } else {
        joined_text(items.drop_last()) + ","@ + items.last()
    }
}

/// The array that holds the items, in their order.
pub open spec fn array_text(items: Seq<Seq<char>>) -> Seq<char> {
    "["@ + joined_text(items) + "]"@
}

/// The snapshot of a sequence of tasks: the array of their objects, in their order.
pub open spec fn snapshot_text(tasks: Seq<TaskView>) -> Seq<char> {
    array_text(tasks.map_values(|t: TaskView| task_text(t)))
}

/// Writes the members that a task in error adds to its object, given the JSON text of
/// the message.
pub fn error_members(message_json: &str) -> (text: String)
    ensures
        text@ == error_members_text(message_json@),
{
    let mut text = String::from_str("\"status\":\"error\",\"message\":");
    text.append(message_json);
    text
}

/// Writes the object for a task, given the JSON text of its name and the members of its
/// status.
pub fn object(name_json: &str, members: &str) -> (text: String)
    ensures
        text@ == object_text(name_json@, members@),
{
    let mut text = String::from_str("{\"name\":");
    text.append(name_json);
    text.append(",");
    text.append(members);
    text.append("}");
    text
}

/// Writes the array that holds the items, in their order.
pub fn array(items: &Vec<String>) -> (text: String)
    ensures
        text@ == array_text(items.deep_view()),
{
    let mut text = String::from_str("[");
    let mut i: usize = 0;
    while i < items.len()
        invariant
            i <= items.len(),
            text@ == "["@ + joined_text(items.deep_view().take(i as int)),
        decreases items.len() - i,
    {
        if i > 0 {
            text.append(",");
        }
        text.append(items[i].as_str());
        proof {
            let all = items.deep_view();
            assert(all.take(i + 1).drop_last() =~= all.take(i as int));
            assert(all.take(i + 1).last() == items[i as int]@);
        }
        i += 1;
    }
    proof {
        assert(items.deep_view().take(i as int) =~= items.deep_view());
    }
    text.append("]");
    text
}

impl Status {
    /// Writes the members that this status adds to a task's object.
    pub fn to_json_members(&self) -> (text: String)
        ensures
            text@ == status_text(self@),
    {
        match self {
            Status::Pending { total: None } => String::from_str(
                "\"status\":\"pending\",\"total\":null",
            ),
            Status::Pending { total: Some(t) } => {
                let mut text = String::from_str("\"status\":\"pending\",\"total\":");
                text.append(decimal(*t).as_str());
                text
            },
            Status::Error { message } => error_members(json_string(message.as_str()).as_str()),
            Status::Finished => String::from_str("\"status\":\"finished\""),
            Status::Running => String::from_str("\"status\":\"running\""),
            Status::InProgress { done, total } => {
                let mut text = String::from_str("\"status\":\"in_progress\",\"done\":");
                text.append(decimal(*done).as_str());
                text.append(",\"total\":");
                text.append(decimal(*total).as_str());
                text
            },
        }
    }
}

impl Task {
    /// Writes the task as its JSON object.
    pub fn to_json(&self) -> (text: String)
        ensures
            text@ == task_text(self@),
    {
        let name_json = json_string(self.name.as_str());
        let members = self.progress.to_json_members();
        object(name_json.as_str(), members.as_str())
    }
}

} // verus!
