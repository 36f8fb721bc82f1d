//! The persisted form of the whole task list: a line-oriented text
//! record. The first line names the task count; each task follows as
//! five named fields, one per line, with title and description length
//! prefixed so any text round-trips. Parsing accepts exactly what
//! rendering produces and yields the same tasks, field for field.
use vstd::prelude::*;
use crate::date::DueDate;
use crate::date::digit_char;
use crate::date::digit_str;
use crate::date::digit_val;
use crate::date::format_date;
use crate::date::is_digit;
use crate::date::parse_date;
use crate::date::valid_date;
use crate::date::spec_format_date;
use crate::date::spec_parse_date;
use crate::manager::TaskManager;
use crate::manager::mgr_wf;
use crate::task::Task;
use crate::task::Priority;
use crate::task::TaskView;
use crate::task::spec_priority_text;

verus! {

/// The decimal digits of a value, most significant first, no sign and no
/// leading zero (a single zero for zero).
pub open spec fn dec_rep(n: nat) -> Seq<char>
    decreases n,
{
    if n < 10 {
        seq![digit_char(n as int)]
    } else {
        dec_rep(n / 10) + seq![digit_char(n as int % 10)]
    }
}

/// The status word in the persisted form.
pub open spec fn spec_status_word(b: bool) -> Seq<char> {
    if b {
        "true"@
    } else {
        "false"@
    }
}

/// The due-date field in the persisted form: the date's text, or `none`.
pub open spec fn spec_due_word(due: Option<DueDate>) -> Seq<char> {
    match due {
        Some(d) => spec_format_date(d),
        None => "none"@,
    }
}

/// A length-prefixed text field: the length in decimal, a space, then
/// exactly that many characters.
pub open spec fn spec_render_text(s: Seq<char>) -> Seq<char> {
    dec_rep(s.len()) + " "@ + s + "\n"@
}

/// One task as five named lines.
pub open spec fn spec_render_task_rec(t: TaskView) -> Seq<char> {
    "title "@ + spec_render_text(t.title) + "description "@ + spec_render_text(t.description)
        + "due "@ + spec_due_word(t.due) + "\n"@ + "priority "@ + spec_priority_text(t.priority)
        + "\n"@ + "status "@ + spec_status_word(t.status) + "\n"@
}

/// The task records, in storage order.
pub open spec fn spec_render_tasks(s: Seq<TaskView>) -> Seq<char>
    decreases s.len(),
{
    if s.len() == 0 {
        Seq::empty()
    } else {
        spec_render_task_rec(s[0]) + spec_render_tasks(s.drop_first())
    }
}

/// The whole snapshot: the task count, then the records.
pub open spec fn spec_render_snapshot(s: Seq<TaskView>) -> Seq<char> {
    "tasks "@ + dec_rep(s.len()) + "\n"@ + spec_render_tasks(s)
}

/// Renders a value in decimal.
fn dec_str(n: usize) -> (r: String)
    ensures
        r@ == dec_rep(n as nat),
    decreases n,
{
    if n < 10 {
        let mut out = String::new();
        out.append(digit_str((n as u32)));
        proof {
            assert(out@ =~= dec_rep(n as nat));
        }
        out
    } else {
        let mut out = dec_str(n / 10);
        out.append(digit_str((n % 10) as u32));
        proof {
            assert(out@ =~= dec_rep(n as nat));
        }
        out
    }
}

/// Appends one length-prefixed text field.
fn push_text_field(out: &mut String, s: &String)
    ensures
        final(out)@ == old(out)@ + spec_render_text(s@),
{
    let len = s.as_str().unicode_len();
    let lenrep = dec_str(len);
    out.append(lenrep.as_str());
    out.append(" ");
    out.append(s.as_str());
    out.append("\n");
    proof {
        reveal_strlit(" ");
        reveal_strlit("\n");
        assert(final(out)@ =~= old(out)@ + spec_render_text(s@));
    }
}

/// Appends one task record.
fn push_task_rec(out: &mut String, t: &Task)
    requires
        t@.wf(),
    ensures
        final(out)@ == old(out)@ + spec_render_task_rec(t@),
{
    out.append("title ");
    push_text_field(out, &t.title);
    out.append("description ");
    push_text_field(out, &t.description);
    out.append("due ");
    match &t.due_date {
        Some(d) => {
            let text = format_date(d);
            out.append(text.as_str());
        },
        None => {
            out.append("none");
        },
    }
    out.append("\n");
    out.append("priority ");
    match t.priority {
        Priority::High => out.append("High"),
        Priority::Medium => out.append("Medium"),
        Priority::Low => out.append("Low"),
    }
    out.append("\n");
    out.append("status ");
    if t.status {
        out.append("true");
    } else {
        out.append("false");
    }
    out.append("\n");
    proof {
        assert(final(out)@ =~= old(out)@ + spec_render_task_rec(t@));
    }
}

impl TaskManager {
    /// The snapshot text of the whole task list.
    pub fn serialize(&self) -> (r: String)
        requires
            mgr_wf(self@),
        ensures
            r@ == spec_render_snapshot(self@),
    {
        let mut out = String::new();
        out.append("tasks ");
        let count = dec_str(self.tasks.len());
        out.append(count.as_str());
        out.append("\n");
        let ghost header = out@;
        proof {
            assert(header =~= "tasks "@ + dec_rep(self@.len()) + "\n"@);
            assert(spec_render_tasks(self@.subrange(0, 0)) =~= Seq::<char>::empty());
            assert(out@ =~= header + spec_render_tasks(self@.subrange(0, 0)));
        }
        let mut i: usize = 0;
        while i < self.tasks.len()
            invariant
                mgr_wf(self@),
                self@.len() == self.tasks@.len(),
                i <= self@.len(),
                header == "tasks "@ + dec_rep(self@.len()) + "\n"@,
                out@ == header + spec_render_tasks(self@.subrange(0, i as int)),
            decreases self@.len() - i,
        {
            proof {
                assert(self.tasks@[i as int]@ == self@[i as int]);
            }
            push_task_rec(&mut out, &self.tasks[i]);
            proof {
                lemma_render_tasks_snoc(self@.subrange(0, i as int), self@[i as int]);
                assert(self@.subrange(0, i as int).push(self@[i as int]) =~= self@.subrange(
                    0,
                    i + 1 as int,
                ));
            }
            i = i + 1;
        }
        proof {
            assert(self@.subrange(0, self@.len() as int) =~= self@);
        }
        out
    }
}

/// The literal stands in `s` at position `pos`.
pub open spec fn spec_match_lit(s: Seq<char>, pos: int, lit: Seq<char>) -> bool {
    &&& 0 <= pos
    &&& pos + lit.len() <= s.len()
    &&& s.subrange(pos, pos + lit.len()) == lit
}

/// The first position at or after `pos` that does not hold a digit.
pub open spec fn digits_end(s: Seq<char>, pos: int) -> int
    decreases s.len() - pos,
{
    if pos < 0 || pos >= s.len() {
        pos
    } else if is_digit(s[pos]) {
        digits_end(s, pos + 1)
    } else {
        pos
    }
}

/// The value of the digit run `s[from..to]`.
pub open spec fn dec_val(s: Seq<char>, from: int, to: int) -> int
    decreases to - from,
{
    if to <= from {
        0
    } else {
        dec_val(s, from, to - 1) * 10 + digit_val(s[to - 1])
    }
}

/// Reads a decimal number: at least one digit, taken greedily; a value
/// past the machine's address range is refused.
pub open spec fn spec_parse_dec(s: Seq<char>, pos: int) -> Option<(int, int)> {
    let e = digits_end(s, pos);
    if e <= pos {
        None
    } else if dec_val(s, pos, e) > usize::MAX {
        None
    } else {
        Some((dec_val(s, pos, e), e))
    }
}

/// Reads one length-prefixed text field after its label.
pub open spec fn spec_parse_text_field(s: Seq<char>, pos: int, label: Seq<char>) -> Option<
    (Seq<char>, int),
> {
    if !spec_match_lit(s, pos, label) {
        None
    } else {
        match spec_parse_dec(s, pos + label.len()) {
            None => None,
            Some((v, p)) => {
                if !spec_match_lit(s, p, " "@) {
                    None
                } else if p + 1 + v > s.len() {
                    None
                } else if !spec_match_lit(s, p + 1 + v, "\n"@) {
                    None
                } else {
                    Some((s.subrange(p + 1, p + 1 + v), p + 2 + v))
                }
            },
        }
    }
}

/// Reads the due-date line: `none`, or a date text.
pub open spec fn spec_parse_due_field(s: Seq<char>, pos: int) -> Option<(Option<DueDate>, int)> {
    if !spec_match_lit(s, pos, "due "@) {
        None
    } else {
        let p = pos + "due "@.len();
        if spec_match_lit(s, p, "none\n"@) {
            Some((None, p + "none\n"@.len()))
        } else if p + 20 <= s.len() && spec_match_lit(s, p + 19, "\n"@) {
            match spec_parse_date(s.subrange(p, p + 19)) {
                Some(d) => Some((Some(d), p + 20)),
                None => None,
            }
        } else {
            None
        }
    }
}

/// Reads the priority line.
pub open spec fn spec_parse_priority_field(s: Seq<char>, pos: int) -> Option<(Priority, int)> {
    if !spec_match_lit(s, pos, "priority "@) {
        None
    } else {
        let p = pos + "priority "@.len();
        if spec_match_lit(s, p, "High\n"@) {
            Some((Priority::High, p + "High\n"@.len()))
        } else if spec_match_lit(s, p, "Medium\n"@) {
            Some((Priority::Medium, p + "Medium\n"@.len()))
        } else if spec_match_lit(s, p, "Low\n"@) {
            Some((Priority::Low, p + "Low\n"@.len()))
        } else {
            None
        }
    }
}

/// Reads the status line.
pub open spec fn spec_parse_status_field(s: Seq<char>, pos: int) -> Option<(bool, int)> {
    if !spec_match_lit(s, pos, "status "@) {
        None
    } else {
        let p = pos + "status "@.len();
        if spec_match_lit(s, p, "true\n"@) {
            Some((true, p + "true\n"@.len()))
        } else if spec_match_lit(s, p, "false\n"@) {
            Some((false, p + "false\n"@.len()))
        } else {
            None
        }
    }
}

/// Reads one task record: the five named lines in order.
pub open spec fn spec_parse_task_rec(s: Seq<char>, pos: int) -> Option<(TaskView, int)> {
    match spec_parse_text_field(s, pos, "title "@) {
        None => None,
        Some((title, p1)) => match spec_parse_text_field(s, p1, "description "@) {
            None => None,
            Some((description, p2)) => match spec_parse_due_field(s, p2) {
                None => None,
                Some((due, p3)) => match spec_parse_priority_field(s, p3) {
                    None => None,
                    Some((priority, p4)) => match spec_parse_status_field(s, p4) {
                        None => None,
                        Some((status, p5)) => Some(
                            (TaskView { title, description, due, priority, status }, p5),
                        ),
                    },
                },
            },
        },
    }
}

/// Reads `n` task records in a row.
pub open spec fn spec_parse_tasks(s: Seq<char>, pos: int, n: int) -> Option<(Seq<TaskView>, int)>
    decreases n,
{
    if n <= 0 {
        Some((Seq::empty(), pos))
    } else {
        match spec_parse_task_rec(s, pos) {
            None => None,
            Some((t, p)) => match spec_parse_tasks(s, p, n - 1) {
                None => None,
                Some((rest, p2)) => Some((seq![t] + rest, p2)),
            },
        }
    }
}

/// What a snapshot text denotes: the task list, when the text is exactly
/// a count line followed by that many records; nothing otherwise.
pub open spec fn spec_parse_snapshot(s: Seq<char>) -> Option<Seq<TaskView>> {
    if !spec_match_lit(s, 0, "tasks "@) {
        None
    } else {
        match spec_parse_dec(s, "tasks "@.len() as int) {
            None => None,
            Some((n, p)) => {
                if !spec_match_lit(s, p, "\n"@) {
                    None
                } else {
                    match spec_parse_tasks(s, p + "\n"@.len(), n) {
                        None => None,
                        Some((ts, p2)) => {
                            if p2 == s.len() {
                                Some(ts)
                            } else {
                                None
                            }
                        },
                    }
                }
            },
        }
    }
}

/// Whether the literal stands in `s` at the position.
fn match_lit(s: &str, pos: usize, lit: &str) -> (r: bool)
    ensures
        r == spec_match_lit(s@, pos as int, lit@),
{
    let n = s.unicode_len();
    let l = lit.unicode_len();
    if pos > n || l > n - pos {
        return false;
    }
    let mut j: usize = 0;
    while j < l
        invariant
            n == s@.len(),
            l == lit@.len(),
            pos + l <= n,
            j <= l,
            forall|k: int| 0 <= k < j ==> s@[pos + k] == lit@[k],
        decreases l - j,
    {
        if s.get_char(pos + j) != lit.get_char(j) {
            proof {
                assert(s@.subrange(pos as int, pos + l) != lit@) by {
                    assert(s@.subrange(pos as int, pos + l)[j as int] != lit@[j as int]);
                }
            }
            return false;
        }
        j = j + 1;
    }
    proof {
        assert(s@.subrange(pos as int, pos + l) =~= lit@);
    }
    true
}

/// A run of digits all at least reaches the value of any of its
/// prefixes.
proof fn lemma_dec_val_monotone(s: Seq<char>, from: int, k: int, to: int)
    requires
        from <= k <= to,
        forall|i: int| from <= i < to ==> is_digit(#[trigger] s[i]),
    ensures
        dec_val(s, from, to) >= dec_val(s, from, k),
        dec_val(s, from, k) >= 0,
    decreases to - k,
{
    if k == to {
        lemma_dec_val_nonneg(s, from, k);
    } else {
        lemma_dec_val_monotone(s, from, k, to - 1);
        lemma_dec_val_nonneg(s, from, to - 1);
    }
}

proof fn lemma_dec_val_nonneg(s: Seq<char>, from: int, to: int)
    requires
        forall|i: int| from <= i < to ==> is_digit(#[trigger] s[i]),
    ensures
        dec_val(s, from, to) >= 0,
    decreases to - from,
{
    if to > from {
        lemma_dec_val_nonneg(s, from, to - 1);
    }
}

/// Where a run of digits, delimited on the right, ends.
proof fn lemma_digits_end_at(s: Seq<char>, pos: int, e: int)
    requires
        0 <= pos <= e <= s.len(),
        forall|i: int| pos <= i < e ==> is_digit(#[trigger] s[i]),
        e == s.len() || !is_digit(s[e]),
    ensures
        digits_end(s, pos) == e,
    decreases e - pos,
{
    if pos < e {
        lemma_digits_end_at(s, pos + 1, e);
    }
}

/// Reads a decimal number at the position.
fn parse_dec(s: &str, pos: usize) -> (r: Option<(usize, usize)>)
    requires
        pos <= s@.len(),
    ensures
        spec_parse_dec(s@, pos as int) is None ==> r is None,
        spec_parse_dec(s@, pos as int) matches Some(ve) ==> r matches Some(q) && q.0 == ve.0 && q.1
            == ve.1 && pos < q.1 <= s@.len(),
{
    let n = s.unicode_len();
    let mut e: usize = pos;
    let mut v: usize = 0;
    let mut overflow = false;
    loop
        invariant
            n == s@.len(),
            pos <= e <= n,
            forall|i: int| pos <= i < e ==> is_digit(#[trigger] s@[i]),
            !overflow ==> v == dec_val(s@, pos as int, e as int),
            overflow ==> dec_val(s@, pos as int, e as int) > usize::MAX,
        ensures
            pos <= e <= n,
            forall|i: int| pos <= i < e ==> is_digit(#[trigger] s@[i]),
            e == n || !is_digit(s@[e as int]),
            !overflow ==> v == dec_val(s@, pos as int, e as int),
            overflow ==> dec_val(s@, pos as int, e as int) > usize::MAX,
        decreases n - e,
    {
        if e >= n {
            break ;
        }
        let c = s.get_char(e);
        let d = match crate::date::digit_of_char(c) {
            Some(d) => d,
            None => {
                break ;
            },
        };
        proof {
            lemma_dec_val_nonneg(s@, pos as int, e as int);
        }
        if overflow {
        } else if v > (usize::MAX - d as usize) / 10 {
            proof {
                let x = dec_val(s@, pos as int, e as int);
                assert(10 * x + d > usize::MAX) by {
                    assert(x >= (usize::MAX - d) / 10 + 1);
                };
            }
            overflow = true;
        } else {
            v = v * 10 + d as usize;
        }
        e = e + 1;
    }
    proof {
        lemma_digits_end_at(s@, pos as int, e as int);
    }
    if e == pos {
        return None;
    }
    if overflow {
        return None;
    }
    Some((v, e))
}

/// Reads one length-prefixed text field after its label.
fn parse_text_field(s: &str, pos: usize, label: &str) -> (r: Option<(String, usize)>)
    requires
        pos <= s@.len(),
    ensures
        spec_parse_text_field(s@, pos as int, label@) is None ==> r is None,
        spec_parse_text_field(s@, pos as int, label@) matches Some(tp) ==> r matches Some(q)
            && q.0@ == tp.0 && q.1 == tp.1 && pos < q.1 <= s@.len(),
{
    let n = s.unicode_len();
    if !match_lit(s, pos, label) {
        return None;
    }
    let ll = label.unicode_len();
    let (v, p) = match parse_dec(s, pos + ll) {
        Some(q) => q,
        None => {
            return None;
        },
    };
    if !match_lit(s, p, " ") {
        return None;
    }
    proof {
        reveal_strlit(" ");
    }
    if v > n - (p + 1) {
        return None;
    }
    if !match_lit(s, p + 1 + v, "\n") {
        return None;
    }
    proof {
        reveal_strlit("\n");
    }
    let content = s.substring_char(p + 1, p + 1 + v).to_owned();
    Some((content, p + 2 + v))
}

/// Reads the due-date line.
fn parse_due_field(s: &str, pos: usize) -> (r: Option<(Option<DueDate>, usize)>)
    requires
        pos <= s@.len(),
    ensures
        spec_parse_due_field(s@, pos as int) is None ==> r is None,
        spec_parse_due_field(s@, pos as int) matches Some(dp) ==> r matches Some(q) && q.0 == dp.0
            && q.1 == dp.1 && pos < q.1 <= s@.len() && (q.0 matches Some(d) ==> valid_date(d)),
{
    proof {
        reveal_strlit("due ");
        reveal_strlit("none\n");
        reveal_strlit("\n");
    }
    let n = s.unicode_len();
    if !match_lit(s, pos, "due ") {
        return None;
    }
    let p = pos + "due ".unicode_len();
    if match_lit(s, p, "none\n") {
        let e = p + "none\n".unicode_len();
        proof {
            assert(spec_parse_due_field(s@, pos as int) == Some::<(Option<DueDate>, int)>(
                (None, e as int),
            ));
        }
        return Some((None, e));
    }
    if n - p < 20 {
        return None;
    }
    if !match_lit(s, p + 19, "\n") {
        return None;
    }
    let date_text = s.substring_char(p, p + 19);
    match parse_date(date_text) {
        Some(d) => Some((Some(d), p + 20)),
        None => None,
    }
}

/// Reads the priority line.
fn parse_priority_field(s: &str, pos: usize) -> (r: Option<(Priority, usize)>)
    requires
        pos <= s@.len(),
    ensures
        spec_parse_priority_field(s@, pos as int) is None ==> r is None,
        spec_parse_priority_field(s@, pos as int) matches Some(pp) ==> r matches Some(q) && q.0
            == pp.0 && q.1 == pp.1 && pos < q.1 <= s@.len(),
{
    proof {
        reveal_strlit("priority ");
        reveal_strlit("High\n");
        reveal_strlit("Medium\n");
        reveal_strlit("Low\n");
    }
    if !match_lit(s, pos, "priority ") {
        return None;
    }
    let _n = s.unicode_len();
    let p = pos + "priority ".unicode_len();
    if match_lit(s, p, "High\n") {
        Some((Priority::High, p + "High\n".unicode_len()))
    } else if match_lit(s, p, "Medium\n") {
        Some((Priority::Medium, p + "Medium\n".unicode_len()))
    } else if match_lit(s, p, "Low\n") {
        Some((Priority::Low, p + "Low\n".unicode_len()))
    } else {
        None
    }
}

/// Reads the status line.
fn parse_status_field(s: &str, pos: usize) -> (r: Option<(bool, usize)>)
    requires
        pos <= s@.len(),
    ensures
        spec_parse_status_field(s@, pos as int) is None ==> r is None,
        spec_parse_status_field(s@, pos as int) matches Some(bp) ==> r matches Some(q) && q.0
            == bp.0 && q.1 == bp.1 && pos < q.1 <= s@.len(),
{
    proof {
        reveal_strlit("status ");
        reveal_strlit("true\n");
        reveal_strlit("false\n");
    }
    if !match_lit(s, pos, "status ") {
        return None;
    }
    let _n = s.unicode_len();
    let p = pos + "status ".unicode_len();
    if match_lit(s, p, "true\n") {
        Some((true, p + "true\n".unicode_len()))
    } else if match_lit(s, p, "false\n") {
        Some((false, p + "false\n".unicode_len()))
    } else {
        None
    }
}

/// Reads one task record.
fn parse_task_rec(s: &str, pos: usize) -> (r: Option<(Task, usize)>)
    requires
        pos <= s@.len(),
    ensures
        spec_parse_task_rec(s@, pos as int) is None ==> r is None,
        spec_parse_task_rec(s@, pos as int) matches Some(tp) ==> r matches Some(q) && q.0@ == tp.0
            && q.1 == tp.1 && pos < q.1 <= s@.len() && q.0@.wf(),
{
    let (title, p1) = match parse_text_field(s, pos, "title ") {
        Some(q) => q,
        None => {
            return None;
        },
    };
    let (description, p2) = match parse_text_field(s, p1, "description ") {
        Some(q) => q,
        None => {
            return None;
        },
    };
    let (due_date, p3) = match parse_due_field(s, p2) {
        Some(q) => q,
        None => {
            return None;
        },
    };
    let (priority, p4) = match parse_priority_field(s, p3) {
        Some(q) => q,
        None => {
            return None;
        },
    };
    let (status, p5) = match parse_status_field(s, p4) {
        Some(q) => q,
        None => {
            return None;
        },
    };
    Some((Task { title, description, due_date, priority, status }, p5))
}

impl TaskManager {
    /// Reads a snapshot text back into a task list; a text that is not
    /// exactly a rendered snapshot yields nothing.
    pub fn deserialize(s: &str) -> (r: Option<TaskManager>)
        ensures
            spec_parse_snapshot(s@) is None ==> r is None,
            spec_parse_snapshot(s@) matches Some(ts) ==> r matches Some(m) && m@ == ts && mgr_wf(
                m@,
            ),
    {
        let n = s.unicode_len();
        if !match_lit(s, 0, "tasks ") {
            return None;
        }
        let (count, p) = match parse_dec(s, "tasks ".unicode_len()) {
            Some(q) => q,
            None => {
                return None;
            },
        };
        if !match_lit(s, p, "\n") {
            return None;
        }
        proof {
            reveal_strlit("\n");
        }
        let start = p + 1;
        let mut pos = start;
        let mut tasks: Vec<Task> = Vec::new();
        let mut i: usize = 0;
        proof {
            assert(tasks.deep_view() =~= Seq::<TaskView>::empty());
        }
        while i < count
            invariant
                n == s@.len(),
                spec_match_lit(s@, 0, "tasks "@),
                spec_parse_dec(s@, "tasks "@.len() as int) == Some::<(int, int)>(
                    (count as int, p as int),
                ),
                spec_match_lit(s@, p as int, "\n"@),
                start == p + "\n"@.len(),
                start <= pos <= n,
                i <= count,
                tasks@.len() == i,
                forall|k: int| 0 <= k < tasks@.len() ==> (#[trigger] tasks@[k])@.wf(),
                spec_parse_tasks(s@, start as int, count as int) is None <==> spec_parse_tasks(
                    s@,
                    pos as int,
                    count - i,
                ) is None,
                spec_parse_tasks(s@, pos as int, count - i) matches Some(rp)
                    ==> spec_parse_tasks(s@, start as int, count as int) == Some::<
                    (Seq<TaskView>, int),
                >((tasks.deep_view() + rp.0, rp.1)),
            decreases count - i,
        {
            let (t, p2) = match parse_task_rec(s, pos) {
                Some(q) => q,
                None => {
                    proof {
                        reveal_strlit("\n");
                        assert(spec_parse_tasks(s@, pos as int, count - i) is None);
                        assert(spec_parse_tasks(s@, start as int, count as int) is None);
                        assert(spec_match_lit(s@, 0, "tasks "@));
                        let sd = spec_parse_dec(s@, "tasks "@.len() as int);
                        assert(sd is Some);
                        assert(sd == Some::<(int, int)>((count as int, p as int)));
                        assert(spec_match_lit(s@, p as int, "\n"@));
                        assert(start == p + "\n"@.len());
                        assert(spec_parse_snapshot(s@) is None);
                    }
                    return None;
                },
            };
            proof {
                assert(spec_parse_task_rec(s@, pos as int) == Some::<(TaskView, int)>(
                    (t@, p2 as int),
                ));
            }
            let ghost before = tasks.deep_view();
            tasks.push(t);
            proof {
                assert(tasks.deep_view() =~= before.push(t@));
                let rem = spec_parse_tasks(s@, p2 as int, count - i - 1);
                if rem is Some {
                    let rp = rem->Some_0;
                    assert(spec_parse_tasks(s@, pos as int, count - i) == Some::<
                        (Seq<TaskView>, int),
                    >((seq![t@] + rp.0, rp.1)));
                    assert(before.push(t@) + rp.0 =~= before + (seq![t@] + rp.0));
                }
            }
            pos = p2;
            i = i + 1;
        }
        proof {
            assert(spec_parse_tasks(s@, pos as int, 0) == Some::<(Seq<TaskView>, int)>(
                (Seq::<TaskView>::empty(), pos as int),
            ));
            assert(tasks.deep_view() + Seq::<TaskView>::empty() =~= tasks.deep_view());
        }
        if pos != n {
            return None;
        }
        let m = TaskManager { tasks };
        Some(m)
    }
}

/// Rendering one more task appends exactly its record.
proof fn lemma_render_tasks_snoc(s: Seq<TaskView>, t: TaskView)
    ensures
        spec_render_tasks(s.push(t)) == spec_render_tasks(s) + spec_render_task_rec(t),
    decreases s.len(),
{
    if s.len() == 0 {
        assert(s.push(t).drop_first() =~= Seq::<TaskView>::empty());
        assert(s.push(t)[0] == t);
        assert(spec_render_tasks(s.push(t)) == spec_render_task_rec(t) + spec_render_tasks(
            Seq::<TaskView>::empty(),
        ));
        assert(spec_render_tasks(Seq::<TaskView>::empty()) == Seq::<char>::empty());
        assert(spec_render_tasks(s) == Seq::<char>::empty());
        assert(spec_render_tasks(s.push(t)) =~= spec_render_tasks(s) + spec_render_task_rec(t));
    } else {
        assert(s.push(t).drop_first() =~= s.drop_first().push(t));
        lemma_render_tasks_snoc(s.drop_first(), t);
        assert(s.push(t)[0] == s[0]);
        assert(spec_render_tasks(s.push(t)) == spec_render_task_rec(s[0]) + (spec_render_tasks(
            s.drop_first(),
        ) + spec_render_task_rec(t)));
        assert(spec_render_tasks(s) == spec_render_task_rec(s[0]) + spec_render_tasks(
            s.drop_first(),
        ));
        assert(spec_render_tasks(s.push(t)) =~= spec_render_tasks(s) + spec_render_task_rec(t));
    }
}


/// One character of a piece that stands in a larger text.
proof fn lemma_piece_char(s: Seq<char>, pos: int, piece: Seq<char>, i: int)
    requires
        0 <= pos,
        pos + piece.len() <= s.len(),
        s.subrange(pos, pos + piece.len()) == piece,
        0 <= i < piece.len(),
    ensures
        s[pos + i] == piece[i],
{
    assert(piece[i] == s.subrange(pos, pos + piece.len())[i]);
}

/// A slice of a piece that stands in a larger text stands there too.
proof fn lemma_sub_piece(s: Seq<char>, pos: int, piece: Seq<char>, lo: int, hi: int)
    requires
        0 <= pos,
        pos + piece.len() <= s.len(),
        s.subrange(pos, pos + piece.len()) == piece,
        0 <= lo <= hi <= piece.len(),
    ensures
        s.subrange(pos + lo, pos + hi) == piece.subrange(lo, hi),
{
    assert forall|i: int| 0 <= i < hi - lo implies s.subrange(pos + lo, pos + hi)[i]
        == piece.subrange(lo, hi)[i] by {
        lemma_piece_char(s, pos, piece, lo + i);
    }
    assert(s.subrange(pos + lo, pos + hi) =~= piece.subrange(lo, hi));
}

/// Every character of a decimal rendering is a digit.
proof fn lemma_dec_rep_digits(n: nat)
    ensures
        dec_rep(n).len() >= 1,
        forall|i: int| 0 <= i < dec_rep(n).len() ==> is_digit(#[trigger] dec_rep(n)[i]),
    decreases n,
{
    if n < 10 {
        crate::date::lemma_digit_char_val(n as int);
    } else {
        lemma_dec_rep_digits(n / 10);
        crate::date::lemma_digit_char_val(n as int % 10);
        assert forall|i: int| 0 <= i < dec_rep(n).len() implies is_digit(
            #[trigger] dec_rep(n)[i],
        ) by {
            if i < dec_rep(n / 10).len() {
                assert(dec_rep(n)[i] == dec_rep(n / 10)[i]);
            } else {
                assert(dec_rep(n)[i] == digit_char(n as int % 10));
            }
        }
    }
}

/// A decimal rendering standing in a text reads back as its value.
proof fn lemma_dec_val_of_rep(s: Seq<char>, pos: int, n: nat)
    requires
        0 <= pos,
        pos + dec_rep(n).len() <= s.len(),
        s.subrange(pos, pos + dec_rep(n).len()) == dec_rep(n),
    ensures
        dec_val(s, pos, pos + dec_rep(n).len()) == n,
    decreases n,
{
    let t = dec_rep(n);
    if n < 10 {
        lemma_piece_char(s, pos, t, 0);
        assert(dec_val(s, pos, pos) == 0);
        assert(dec_val(s, pos, pos + 1) == digit_val(s[pos]));
        crate::date::lemma_digit_char_val(n as int);
    } else {
        let hi = dec_rep(n / 10);
        lemma_sub_piece(s, pos, t, 0, hi.len() as int);
        assert(t.subrange(0, hi.len() as int) =~= hi);
        lemma_dec_val_of_rep(s, pos, n / 10);
        lemma_piece_char(s, pos, t, t.len() - 1);
        assert(t[t.len() - 1] == digit_char(n as int % 10));
        crate::date::lemma_digit_char_val(n as int % 10);
        assert(dec_val(s, pos, pos + t.len()) == dec_val(s, pos, pos + t.len() - 1) * 10
            + digit_val(s[pos + t.len() - 1]));
        assert(dec_val(s, pos, pos + t.len()) == (n / 10) * 10 + n % 10);
    }
}

/// A decimal rendering delimited on the right parses back exactly.
proof fn lemma_parse_dec_at(s: Seq<char>, pos: int, n: nat)
    requires
        0 <= pos,
        pos + dec_rep(n).len() <= s.len(),
        s.subrange(pos, pos + dec_rep(n).len()) == dec_rep(n),
        n <= usize::MAX,
        pos + dec_rep(n).len() == s.len() || !is_digit(s[pos + dec_rep(n).len()]),
    ensures
        spec_parse_dec(s, pos) == Some((n as int, pos + dec_rep(n).len())),
{
    let t = dec_rep(n);
    lemma_dec_rep_digits(n);
    assert forall|i: int| pos <= i < pos + t.len() implies is_digit(#[trigger] s[i]) by {
        lemma_piece_char(s, pos, t, i - pos);
    }
    lemma_digits_end_at(s, pos, pos + t.len());
    lemma_dec_val_of_rep(s, pos, n);
}

/// A rendered text field standing in a text parses back exactly.
proof fn lemma_parse_text_field_at(s: Seq<char>, pos: int, label: Seq<char>, content: Seq<char>)
    requires
        0 <= pos,
        content.len() <= usize::MAX,
        pos + label.len() + spec_render_text(content).len() <= s.len(),
        s.subrange(
            pos,
            pos + label.len() + spec_render_text(content).len(),
        ) == label + spec_render_text(content),
    ensures
        spec_parse_text_field(s, pos, label) == Some(
            (content, pos + label.len() + spec_render_text(content).len()),
        ),
{
    reveal_strlit(" ");
    reveal_strlit("\n");
    let rt = spec_render_text(content);
    let piece = label + rt;
    let ll = label.len() as int;
    let p0 = pos + ll;
    let d = dec_rep(content.len());
    let dl = d.len() as int;
    let cl = content.len() as int;
    assert(rt.len() == dl + 2 + cl);
    lemma_sub_piece(s, pos, piece, 0, ll);
    assert(piece.subrange(0, ll) =~= label);
    assert(spec_match_lit(s, pos, label));
    lemma_sub_piece(s, pos, piece, ll, ll + dl);
    assert(piece.subrange(ll, ll + dl) =~= d);
    lemma_piece_char(s, pos, piece, ll + dl);
    assert(piece[ll + dl] == ' ');
    assert(!is_digit(' '));
    lemma_parse_dec_at(s, p0, content.len());
    let e = p0 + dl;
    assert(spec_match_lit(s, e, " "@)) by {
        lemma_sub_piece(s, pos, piece, ll + dl, ll + dl + 1);
        assert(piece.subrange(ll + dl, ll + dl + 1) =~= " "@);
    }
    assert(e + 1 + cl <= s.len());
    assert(s.subrange(e + 1, e + 1 + cl) == content) by {
        lemma_sub_piece(s, pos, piece, ll + dl + 1, ll + dl + 1 + cl);
        assert(piece.subrange(ll + dl + 1, ll + dl + 1 + cl) =~= content);
    }
    assert(spec_match_lit(s, e + 1 + cl, "\n"@)) by {
        lemma_sub_piece(s, pos, piece, ll + dl + 1 + cl, ll + dl + 2 + cl);
        assert(piece.subrange(ll + dl + 1 + cl, ll + dl + 2 + cl) =~= "\n"@);
    }
}

/// A rendered due-date line standing in a text parses back exactly.
proof fn lemma_parse_due_field_at(s: Seq<char>, pos: int, due: Option<DueDate>)
    requires
        0 <= pos,
        due matches Some(d) ==> valid_date(d),
        pos + "due "@.len() + spec_due_word(due).len() + "\n"@.len() <= s.len(),
        s.subrange(
            pos,
            pos + "due "@.len() + spec_due_word(due).len() + "\n"@.len(),
        ) == "due "@ + spec_due_word(due) + "\n"@,
    ensures
        spec_parse_due_field(s, pos) == Some(
            (due, pos + "due "@.len() + spec_due_word(due).len() + "\n"@.len()),
        ),
{
    reveal_strlit("due ");
    reveal_strlit("none");
    reveal_strlit("none\n");
    reveal_strlit("\n");
    let w = spec_due_word(due);
    let piece = "due "@ + w + "\n"@;
    let p = pos + 4;
    lemma_sub_piece(s, pos, piece, 0, 4);
    assert(piece.subrange(0, 4) =~= "due "@);
    assert(spec_match_lit(s, pos, "due "@));
    match due {
        None => {
            assert(w == "none"@);
            assert(spec_match_lit(s, p, "none\n"@)) by {
                lemma_sub_piece(s, pos, piece, 4, 9);
                assert(piece.subrange(4, 9) =~= "none\n"@);
            }
        },
        Some(d) => {
            let f = spec_format_date(d);
            assert(w == f);
            assert(f.len() == 19);
            assert(!spec_match_lit(s, p, "none\n"@)) by {
                crate::date::lemma_digit_char_val(d.day as int / 10);
                lemma_piece_char(s, pos, piece, 4);
                assert(piece[4] == f[0]);
                assert(is_digit(f[0]));
                assert(!is_digit('n'));
                if spec_match_lit(s, p, "none\n"@) {
                    assert(s.subrange(p, p + 5)[0] == 'n');
                    assert(s[p] == 'n');
                }
            }
            assert(p + 20 <= s.len());
            assert(spec_match_lit(s, p + 19, "\n"@)) by {
                lemma_sub_piece(s, pos, piece, 23, 24);
                assert(piece.subrange(23, 24) =~= "\n"@);
            }
            assert(s.subrange(p, p + 19) == f) by {
                lemma_sub_piece(s, pos, piece, 4, 23);
                assert(piece.subrange(4, 23) =~= f);
            }
            crate::date::lemma_format_parse_date(d);
        },
    }
}

/// A rendered priority line standing in a text parses back exactly.
proof fn lemma_parse_priority_field_at(s: Seq<char>, pos: int, prio: Priority)
    requires
        0 <= pos,
        pos + "priority "@.len() + spec_priority_text(prio).len() + "\n"@.len() <= s.len(),
        s.subrange(
            pos,
            pos + "priority "@.len() + spec_priority_text(prio).len() + "\n"@.len(),
        ) == "priority "@ + spec_priority_text(prio) + "\n"@,
    ensures
        spec_parse_priority_field(s, pos) == Some(
            (prio, pos + "priority "@.len() + spec_priority_text(prio).len() + "\n"@.len()),
        ),
{
    reveal_strlit("priority ");
    reveal_strlit("High");
    reveal_strlit("Medium");
    reveal_strlit("Low");
    reveal_strlit("High\n");
    reveal_strlit("Medium\n");
    reveal_strlit("Low\n");
    reveal_strlit("\n");
    let w = spec_priority_text(prio);
    let wl = w.len() as int;
    let piece = "priority "@ + w + "\n"@;
    let p = pos + 9;
    lemma_sub_piece(s, pos, piece, 0, 9);
    assert(piece.subrange(0, 9) =~= "priority "@);
    assert(spec_match_lit(s, pos, "priority "@));
    lemma_sub_piece(s, pos, piece, 9, 9 + wl + 1);
    match prio {
        Priority::High => {
            assert(spec_match_lit(s, p, "High\n"@)) by {
                assert(piece.subrange(9, 14) =~= "High\n"@);
            }
        },
        Priority::Medium => {
            assert(!spec_match_lit(s, p, "High\n"@)) by {
                lemma_piece_char(s, pos, piece, 9);
                assert(piece[9] == 'M');
                if spec_match_lit(s, p, "High\n"@) {
                    assert(s.subrange(p, p + 5)[0] == 'H');
                    assert(s[p] == 'H');
                }
            }
            assert(spec_match_lit(s, p, "Medium\n"@)) by {
                assert(piece.subrange(9, 16) =~= "Medium\n"@);
            }
        },
        Priority::Low => {
            assert(!spec_match_lit(s, p, "High\n"@)) by {
                lemma_piece_char(s, pos, piece, 9);
                assert(piece[9] == 'L');
                if spec_match_lit(s, p, "High\n"@) {
                    assert(s.subrange(p, p + 5)[0] == 'H');
                    assert(s[p] == 'H');
                }
            }
            assert(!spec_match_lit(s, p, "Medium\n"@)) by {
                lemma_piece_char(s, pos, piece, 9);
                assert(piece[9] == 'L');
                if spec_match_lit(s, p, "Medium\n"@) {
                    assert(s.subrange(p, p + 7)[0] == 'M');
                    assert(s[p] == 'M');
                }
            }
            assert(spec_match_lit(s, p, "Low\n"@)) by {
                assert(piece.subrange(9, 13) =~= "Low\n"@);
            }
        },
    }
}

/// A rendered status line standing in a text parses back exactly.
proof fn lemma_parse_status_field_at(s: Seq<char>, pos: int, st: bool)
    requires
        0 <= pos,
        pos + "status "@.len() + spec_status_word(st).len() + "\n"@.len() <= s.len(),
        s.subrange(
            pos,
            pos + "status "@.len() + spec_status_word(st).len() + "\n"@.len(),
        ) == "status "@ + spec_status_word(st) + "\n"@,
    ensures
        spec_parse_status_field(s, pos) == Some(
            (st, pos + "status "@.len() + spec_status_word(st).len() + "\n"@.len()),
        ),
{
    reveal_strlit("status ");
    reveal_strlit("true");
    reveal_strlit("false");
    reveal_strlit("true\n");
    reveal_strlit("false\n");
    reveal_strlit("\n");
    let w = spec_status_word(st);
    let wl = w.len() as int;
    let piece = "status "@ + w + "\n"@;
    let p = pos + 7;
    lemma_sub_piece(s, pos, piece, 0, 7);
    assert(piece.subrange(0, 7) =~= "status "@);
    assert(spec_match_lit(s, pos, "status "@));
    lemma_sub_piece(s, pos, piece, 7, 7 + wl + 1);
    if st {
        assert(spec_match_lit(s, p, "true\n"@)) by {
            assert(piece.subrange(7, 12) =~= "true\n"@);
        }
    } else {
        assert(!spec_match_lit(s, p, "true\n"@)) by {
            lemma_piece_char(s, pos, piece, 7);
            assert(piece[7] == 'f');
            if spec_match_lit(s, p, "true\n"@) {
                assert(s.subrange(p, p + 5)[0] == 't');
                assert(s[p] == 't');
            }
        }
        assert(spec_match_lit(s, p, "false\n"@)) by {
            assert(piece.subrange(7, 13) =~= "false\n"@);
        }
    }
}

/// A rendered task record standing in a text parses back exactly.
proof fn lemma_parse_task_rec_at(s: Seq<char>, pos: int, t: TaskView)
    requires
        0 <= pos,
        t.wf(),
        t.title.len() <= usize::MAX,
        t.description.len() <= usize::MAX,
        pos + spec_render_task_rec(t).len() <= s.len(),
        s.subrange(pos, pos + spec_render_task_rec(t).len()) == spec_render_task_rec(t),
    ensures
        spec_parse_task_rec(s, pos) == Some((t, pos + spec_render_task_rec(t).len())),
{
    reveal_strlit("\n");
    let r = spec_render_task_rec(t);
    let ga = "title "@ + spec_render_text(t.title);
    let gb = "description "@ + spec_render_text(t.description);
    let gc = "due "@ + spec_due_word(t.due) + "\n"@;
    let gd = "priority "@ + spec_priority_text(t.priority) + "\n"@;
    let ge = "status "@ + spec_status_word(t.status) + "\n"@;
    let a = ga.len() as int;
    let b = gb.len() as int;
    let c = gc.len() as int;
    let d = gd.len() as int;
    let e = ge.len() as int;
    assert(r.len() == a + b + c + d + e);
    lemma_sub_piece(s, pos, r, 0, a);
    assert(r.subrange(0, a) =~= ga);
    lemma_parse_text_field_at(s, pos, "title "@, t.title);
    let p1 = pos + a;
    lemma_sub_piece(s, pos, r, a, a + b);
    assert(r.subrange(a, a + b) =~= gb);
    lemma_parse_text_field_at(s, p1, "description "@, t.description);
    let p2 = p1 + b;
    lemma_sub_piece(s, pos, r, a + b, a + b + c);
    assert(r.subrange(a + b, a + b + c) =~= gc);
    lemma_parse_due_field_at(s, p2, t.due);
    let p3 = p2 + c;
    lemma_sub_piece(s, pos, r, a + b + c, a + b + c + d);
    assert(r.subrange(a + b + c, a + b + c + d) =~= gd);
    lemma_parse_priority_field_at(s, p3, t.priority);
    let p4 = p3 + d;
    lemma_sub_piece(s, pos, r, a + b + c + d, a + b + c + d + e);
    assert(r.subrange(a + b + c + d, a + b + c + d + e) =~= ge);
    lemma_parse_status_field_at(s, p4, t.status);
}

/// Rendered task records standing in a text parse back exactly.
proof fn lemma_parse_tasks_at(s: Seq<char>, pos: int, ts: Seq<TaskView>)
    requires
        0 <= pos,
        mgr_wf(ts),
        forall|i: int|
            0 <= i < ts.len() ==> (#[trigger] ts[i]).title.len() <= usize::MAX
                && ts[i].description.len() <= usize::MAX,
        pos + spec_render_tasks(ts).len() <= s.len(),
        s.subrange(pos, pos + spec_render_tasks(ts).len()) == spec_render_tasks(ts),
    ensures
        spec_parse_tasks(s, pos, ts.len() as int) == Some(
            (ts, pos + spec_render_tasks(ts).len()),
        ),
    decreases ts.len(),
{
    if ts.len() == 0 {
    } else {
        let r = spec_render_tasks(ts);
        let head = spec_render_task_rec(ts[0]);
        let tail = spec_render_tasks(ts.drop_first());
        let hl = head.len() as int;
        let tl = tail.len() as int;
        assert(r == head + tail);
        lemma_sub_piece(s, pos, r, 0, hl);
        assert(r.subrange(0, hl) =~= head);
        assert(ts[0].wf());
        lemma_parse_task_rec_at(s, pos, ts[0]);
        let p1 = pos + hl;
        lemma_sub_piece(s, pos, r, hl, hl + tl);
        assert(r.subrange(hl, hl + tl) =~= tail);
        assert(mgr_wf(ts.drop_first())) by {
            assert forall|i: int|
                0 <= i < ts.drop_first().len() implies (#[trigger] ts.drop_first()[i]).wf() by {
                assert(ts.drop_first()[i] == ts[i + 1]);
            }
        }
        assert forall|i: int|
            0 <= i < ts.drop_first().len() implies (#[trigger] ts.drop_first()[i]).title.len()
            <= usize::MAX && ts.drop_first()[i].description.len() <= usize::MAX by {
            assert(ts.drop_first()[i] == ts[i + 1]);
        }
        lemma_parse_tasks_at(s, p1, ts.drop_first());
        assert(seq![ts[0]] + ts.drop_first() =~= ts);
    }
}

/// Parsing a rendered snapshot gives back exactly the tasks that were
/// rendered: the persisted form is faithful, field for field, for any
/// well-formed task list the machine can hold.
pub proof fn lemma_snapshot_round_trip(ts: Seq<TaskView>)
    requires
        mgr_wf(ts),
        ts.len() <= usize::MAX,
        forall|i: int|
            0 <= i < ts.len() ==> (#[trigger] ts[i]).title.len() <= usize::MAX
                && ts[i].description.len() <= usize::MAX,
    ensures
        spec_parse_snapshot(spec_render_snapshot(ts)) == Some(ts),
{
    reveal_strlit("tasks ");
    reveal_strlit("\n");
    let s = spec_render_snapshot(ts);
    let d = dec_rep(ts.len());
    let dl = d.len() as int;
    let body = spec_render_tasks(ts);
    let bl = body.len() as int;
    assert(s.len() == 6 + dl + 1 + bl);
    assert(s.subrange(0, s.len() as int) =~= s);
    lemma_sub_piece(s, 0, s, 0, 6);
    assert(s.subrange(0, 6) =~= "tasks "@);
    assert(spec_match_lit(s, 0, "tasks "@));
    lemma_sub_piece(s, 0, s, 6, 6 + dl);
    assert(s.subrange(6, 6 + dl) =~= d);
    lemma_piece_char(s, 0, s, 6 + dl);
    assert(s[6 + dl] == '\n');
    assert(!is_digit('\n'));
    lemma_parse_dec_at(s, 6, ts.len());
    let p1 = 6 + dl;
    assert(spec_match_lit(s, p1, "\n"@)) by {
        lemma_sub_piece(s, 0, s, p1, p1 + 1);
        assert(s.subrange(p1, p1 + 1) =~= "\n"@);
    }
    let p2 = p1 + 1;
    lemma_sub_piece(s, 0, s, p2, p2 + bl);
    assert(s.subrange(p2, p2 + bl) =~= body);
    lemma_parse_tasks_at(s, p2, ts);
    assert(p2 + bl == s.len());
}

} // verus!
