//! One task: title, description, optional due date, priority and a
//! completion flag, together with its bordered text block. Every line of
//! the block is padded to one width, chosen as the widest field line.
use vstd::prelude::*;
use crate::date::DueDate;
use crate::date::valid_date;
use crate::date::spec_format_date;
use crate::date::format_date;

verus! {

/// A task's priority, ordered `Low < Medium < High` when sorting.
#[derive(Clone, Copy, PartialEq, Eq, Structural, Debug)]
pub enum Priority {
    High,
    Medium,
    Low,
}

impl Priority {
    /// The numeric rank used as the ascending sort key.
    pub fn get_numerical(&self) -> (r: i8)
        ensures
            r == self.spec_rank(),
    {
        match self {
            Priority::High => 3,
            Priority::Medium => 2,
            Priority::Low => 1,
        }
    }

    pub open spec fn spec_rank(self) -> i8 {
        match self {
            Priority::High => 3,
            Priority::Medium => 2,
            Priority::Low => 1,
        }
    }
}

/// One to-do item. A freshly built task is never completed.
#[derive(Debug)]
pub struct Task {
    pub title: String,
    pub description: String,
    pub due_date: Option<DueDate>,
    pub priority: Priority,
    pub status: bool,
}

/// The mathematical value of a task: its text fields as character
/// sequences, the rest as plain values.
pub ghost struct TaskView {
    pub title: Seq<char>,
    pub description: Seq<char>,
    pub due: Option<DueDate>,
    pub priority: Priority,
    pub status: bool,
}

impl TaskView {
    /// A task is well formed when its due date, if present, is a real
    /// calendar date.
    pub open spec fn wf(self) -> bool {
        match self.due {
            Some(d) => valid_date(d),
            None => true,
        }
    }
}

impl View for Task {
    type V = TaskView;

    open spec fn view(&self) -> TaskView {
        TaskView {
            title: self.title@,
            description: self.description@,
            due: self.due_date,
            priority: self.priority,
            status: self.status,
        }
    }
}

impl DeepView for Task {
    type V = TaskView;

    open spec fn deep_view(&self) -> TaskView {
        self.view()
    }
}

impl Clone for Task {
    fn clone(&self) -> (r: Self)
        ensures
            r@ == self@,
    {
        Task {
            title: self.title.clone(),
            description: self.description.clone(),
            due_date: self.due_date,
            priority: self.priority,
            status: self.status,
        }
    }
}

impl Task {
    /// Builds a task from its fields; a missing priority falls back to
    /// `Low`, and the completion flag always starts false.
    pub fn new(
        title: String,
        description: String,
        due_date: Option<DueDate>,
        priority: Option<Priority>,
    ) -> (r: Task)
        requires
            due_date matches Some(d) ==> valid_date(d),
        ensures
            r@ == (TaskView {
                title: title@,
                description: description@,
                due: due_date,
                priority: match priority {
                    Some(p) => p,
                    None => Priority::Low,
                },
                status: false,
            }),
            r@.wf(),
    {
        Task {
            title,
            description,
            due_date,
            priority: match priority {
                Some(p) => p,
                None => Priority::Low,
            },
            status: false,
        }
    }

}

/// The due-date field as displayed: the date's text form, or the fixed
/// phrase when no date is set.
pub open spec fn spec_due_text(due: Option<DueDate>) -> Seq<char> {
    match due {
        Some(d) => spec_format_date(d),
        None => "Not specified"@,
    }
}

/// The status field as displayed.
pub open spec fn spec_status_text(status: bool) -> Seq<char> {
    if status {
        "Completed"@
    } else {
        "Not completed"@
    }
}

/// The priority field as displayed.
pub open spec fn spec_priority_text(p: Priority) -> Seq<char> {
    match p {
        Priority::High => "High"@,
        Priority::Medium => "Medium"@,
        Priority::Low => "Low"@,
    }
}

pub open spec fn max2(a: int, b: int) -> int {
    if a >= b {
        a
    } else {
        b
    }
}

/// The width every field line's content is padded to: the widest of the
/// five `label + value` pairings.
pub open spec fn spec_content_width(t: TaskView) -> int {
    max2(
        max2(t.title.len() + 7 as int, t.description.len() + 13 as int),
        max2(
            max2(
                spec_due_text(t.due).len() + 10 as int,
                spec_priority_text(t.priority).len() + 10 as int,
            ),
            spec_status_text(t.status).len() + 8 as int,
        ),
    )
}

/// A run of one repeated character.
pub open spec fn char_run(c: char, n: int) -> Seq<char> {
    Seq::new(n as nat, |i: int| c)
}

/// One field line: `| Label: value<padding> |`, padded to the common
/// content width.
pub open spec fn spec_field_line(label: Seq<char>, value: Seq<char>, w: int) -> Seq<char> {
    "| "@ + label + value + char_run(' ', w - label.len() - value.len()) + " |"@
}

pub open spec fn spec_border(t: TaskView) -> Seq<char> {
    char_run('-', spec_content_width(t) + 4)
}

pub open spec fn spec_line_title(t: TaskView) -> Seq<char> {
    spec_field_line("Title: "@, t.title, spec_content_width(t))
}

pub open spec fn spec_line_description(t: TaskView) -> Seq<char> {
    spec_field_line("Description: "@, t.description, spec_content_width(t))
}

pub open spec fn spec_line_due(t: TaskView) -> Seq<char> {
    spec_field_line("Due date: "@, spec_due_text(t.due), spec_content_width(t))
}

pub open spec fn spec_line_priority(t: TaskView) -> Seq<char> {
    spec_field_line("Priority: "@, spec_priority_text(t.priority), spec_content_width(t))
}

pub open spec fn spec_line_status(t: TaskView) -> Seq<char> {
    spec_field_line("Status: "@, spec_status_text(t.status), spec_content_width(t))
}

/// The whole block: a border, the five field lines, a border, each line
/// ended by a newline but the last.
pub open spec fn spec_render_task(t: TaskView) -> Seq<char> {
    spec_border(t) + "\n"@ + spec_line_title(t) + "\n"@ + spec_line_description(t) + "\n"@
        + spec_line_due(t) + "\n"@ + spec_line_priority(t) + "\n"@ + spec_line_status(t) + "\n"@
        + spec_border(t)
}

proof fn lemma_label_lens()
    ensures
        "Title: "@.len() == 7,
        "Description: "@.len() == 13,
        "Due date: "@.len() == 10,
        "Priority: "@.len() == 10,
        "Status: "@.len() == 8,
        "| "@.len() == 2,
        " |"@.len() == 2,
{
    reveal_strlit("Title: ");
    reveal_strlit("Description: ");
    reveal_strlit("Due date: ");
    reveal_strlit("Priority: ");
    reveal_strlit("Status: ");
    reveal_strlit("| ");
    reveal_strlit(" |");
}

/// Every line of a task's block has the same character width: the common
/// content width plus two border characters each side.
pub proof fn lemma_render_equal_widths(t: TaskView)
    ensures
        spec_border(t).len() == spec_content_width(t) + 4,
        spec_line_title(t).len() == spec_content_width(t) + 4,
        spec_line_description(t).len() == spec_content_width(t) + 4,
        spec_line_due(t).len() == spec_content_width(t) + 4,
        spec_line_priority(t).len() == spec_content_width(t) + 4,
        spec_line_status(t).len() == spec_content_width(t) + 4,
{
    lemma_label_lens();
}

/// Repeats a one-character piece `n` times.
fn repeat_piece(piece: &str, c: Ghost<char>, n: usize) -> (r: String)
    requires
        piece@ == seq![c@],
    ensures
        r@ == char_run(c@, n as int),
{
    let mut out = String::new();
    let mut i: usize = 0;
    while i < n
        invariant
            piece@ == seq![c@],
            i <= n,
            out@.len() == i,
            forall|j: int| 0 <= j < i ==> out@[j] == c@,
        decreases n - i,
    {
        out.append(piece);
        i = i + 1;
    }
    proof {
        assert(out@ =~= char_run(c@, n as int));
    }
    out
}

/// A run of spaces.
fn spaces(n: usize) -> (r: String)
    ensures
        r@ == char_run(' ', n as int),
{
    proof {
        reveal_strlit(" ");
        assert(" "@ =~= seq![' ']);
    }
    repeat_piece(" ", Ghost(' '), n)
}

/// A run of dashes.
fn dashes(n: usize) -> (r: String)
    ensures
        r@ == char_run('-', n as int),
{
    proof {
        reveal_strlit("-");
        assert("-"@ =~= seq!['-']);
    }
    repeat_piece("-", Ghost('-'), n)
}

/// Builds one field line, padding the value to the common width.
fn field_line(label: &str, value: &str, w: usize) -> (r: String)
    requires
        label@.len() + value@.len() <= w,
        w + 4 <= usize::MAX,
    ensures
        r@ == spec_field_line(label@, value@, w as int),
{
    let label_len = label.unicode_len();
    let value_len = value.unicode_len();
    let mut out = String::new();
    out.append("| ");
    out.append(label);
    out.append(value);
    let pad = spaces(w - label_len - value_len);
    out.append(pad.as_str());
    out.append(" |");
    proof {
        assert(out@ =~= spec_field_line(label@, value@, w as int));
    }
    out
}

impl Task {
    /// The task's bordered text block, each line of one width.
    pub fn render(&self) -> (r: String)
        requires
            self@.wf(),
            self@.title.len() + 20 <= usize::MAX,
            self@.description.len() + 20 <= usize::MAX,
        ensures
            r@ == spec_render_task(self@),
    {
        proof {
            lemma_label_lens();
            reveal_strlit("Not specified");
            reveal_strlit("Completed");
            reveal_strlit("Not completed");
            reveal_strlit("High");
            reveal_strlit("Medium");
            reveal_strlit("Low");
            reveal_strlit("\n");
        }
        let title_len = self.title.as_str().unicode_len();
        let desc_len = self.description.as_str().unicode_len();
        let due_text: String = match &self.due_date {
            Some(d) => format_date(d),
            None => "Not specified".to_owned(),
        };
        let due_len = due_text.as_str().unicode_len();
        let prio_text: &str = match self.priority {
            Priority::High => "High",
            Priority::Medium => "Medium",
            Priority::Low => "Low",
        };
        let prio_len = prio_text.unicode_len();
        let status_text: &str = if self.status {
            "Completed"
        } else {
            "Not completed"
        };
        let status_len = status_text.unicode_len();

        let mut w = title_len + 7;
        if desc_len + 13 > w {
            w = desc_len + 13;
        }
        if due_len + 10 > w {
            w = due_len + 10;
        }
        if prio_len + 10 > w {
            w = prio_len + 10;
        }
        if status_len + 8 > w {
            w = status_len + 8;
        }
        proof {
            assert(w == spec_content_width(self@));
        }

        let border = dashes(w + 4);
        let line_title = field_line("Title: ", self.title.as_str(), w);
        let line_desc = field_line("Description: ", self.description.as_str(), w);
        let line_due = field_line("Due date: ", due_text.as_str(), w);
        let line_prio = field_line("Priority: ", prio_text, w);
        let line_status = field_line("Status: ", status_text, w);

        let mut out = String::new();
        out.append(border.as_str());
        out.append("\n");
        out.append(line_title.as_str());
        out.append("\n");
        out.append(line_desc.as_str());
        out.append("\n");
        out.append(line_due.as_str());
        out.append("\n");
        out.append(line_prio.as_str());
        out.append("\n");
        out.append(line_status.as_str());
        out.append("\n");
        out.append(border.as_str());
        proof {
            assert(out@ =~= spec_render_task(self@));
        }
        out
    }
}

} // verus!
