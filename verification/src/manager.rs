//! The owner of the task list: adds, lists, completes, updates, deletes
//! and sorts tasks. Positions are 1-based; every operation validates its
//! arguments before it mutates, so a failing call leaves the list as it
//! was.
use vstd::prelude::*;
use crate::date::DueDate;
use crate::date::parse_date;
use crate::date::spec_parse_date;
use crate::date::valid_date;
use crate::sorting::SortCriterion;
use crate::sorting::sort_tasks;
use crate::sorting::spec_sort;
use crate::task::Priority;
use crate::task::Task;
use crate::task::TaskView;
use crate::text::str_eq;

verus! {

/// Why an operation was refused. Every operation that fails leaves the
/// task list unchanged.
#[derive(Clone, Copy, PartialEq, Eq, Structural, Debug)]
pub enum TaskError {
    /// The 1-based position is 0 or past the end of the list.
    TaskNotFound,
    /// A due-date text is not a valid `DD-MM-YYYY HH:MM:SS` date.
    MalformedDate,
    /// An enumerated choice (priority label, update field, sort
    /// criterion) matches none of the recognised words.
    InvalidChoice,
}

impl TaskError {
    /// A one-line human-readable account of the error.
    pub fn message(&self) -> (r: &'static str)
        ensures
            self is TaskNotFound ==> r@ == "No task with such index"@,
            self is MalformedDate ==> r@ == "Malformed due date"@,
            self is InvalidChoice ==> r@ == "No such option"@,
    {
        match self {
            TaskError::TaskNotFound => "No task with such index",
            TaskError::MalformedDate => "Malformed due date",
            TaskError::InvalidChoice => "No such option",
        }
    }
}

/// What a priority choice word denotes: a priority, `none` for no
/// choice, or nothing recognisable.
pub open spec fn spec_priority_choice(s: Seq<char>) -> Option<Option<Priority>> {
    if s == "High"@ {
        Some(Some(Priority::High))
    } else if s == "Medium"@ {
        Some(Some(Priority::Medium))
    } else if s == "Low"@ {
        Some(Some(Priority::Low))
    } else if s == "none"@ {
        Some(None)
    } else {
        None
    }
}

/// What a due-date text denotes: a date, `none` for no date, or nothing
/// recognisable.
pub open spec fn spec_due_choice(s: Seq<char>) -> Option<Option<DueDate>> {
    if s == "none"@ {
        Some(None)
    } else {
        match spec_parse_date(s) {
            Some(d) => Some(Some(d)),
            None => None,
        }
    }
}

/// The field an update addresses.
#[derive(Clone, Copy, PartialEq, Eq, Structural, Debug)]
pub enum UpdateField {
    Title,
    Description,
    Due,
}

/// What an update-field word denotes.
pub open spec fn spec_field_choice(s: Seq<char>) -> Option<UpdateField> {
    if s == "title"@ {
        Some(UpdateField::Title)
    } else if s == "description"@ {
        Some(UpdateField::Description)
    } else if s == "due date"@ {
        Some(UpdateField::Due)
    } else {
        None
    }
}

/// What a sort-criterion word denotes.
pub open spec fn spec_criterion_choice(s: Seq<char>) -> Option<SortCriterion> {
    if s == "priority"@ {
        Some(SortCriterion::ByPriority)
    } else if s == "due date"@ {
        Some(SortCriterion::ByDueDate)
    } else {
        None
    }
}

/// Every task of the list is well formed.
pub open spec fn mgr_wf(s: Seq<TaskView>) -> bool {
    forall|i: int| 0 <= i < s.len() ==> (#[trigger] s[i]).wf()
}

/// Recognises a priority choice word.
fn parse_priority_choice(s: &str) -> (r: Option<Option<Priority>>)
    ensures
        r == spec_priority_choice(s@),
{
    if str_eq(s, "High") {
        Some(Some(Priority::High))
    } else if str_eq(s, "Medium") {
        Some(Some(Priority::Medium))
    } else if str_eq(s, "Low") {
        Some(Some(Priority::Low))
    } else if str_eq(s, "none") {
        Some(None)
    } else {
        None
    }
}

/// Recognises a due-date text.
fn parse_due_choice(s: &str) -> (r: Option<Option<DueDate>>)
    ensures
        r == spec_due_choice(s@),
{
    if str_eq(s, "none") {
        Some(None)
    } else {
        match parse_date(s) {
            Some(d) => Some(Some(d)),
            None => None,
        }
    }
}

/// The task list, held in insertion order.
#[derive(Debug)]
pub struct TaskManager {
    pub tasks: Vec<Task>,
}

impl View for TaskManager {
    type V = Seq<TaskView>;

    open spec fn view(&self) -> Seq<TaskView> {
        self.tasks.deep_view()
    }
}

impl Default for TaskManager {
    fn default() -> (r: TaskManager)
        ensures
            r@ == Seq::<TaskView>::empty(),
    {
        TaskManager::new()
    }
}

impl TaskManager {
    /// An empty task list.
    pub fn new() -> (r: TaskManager)
        ensures
            r@ == Seq::<TaskView>::empty(),
            mgr_wf(r@),
    {
        let r = TaskManager { tasks: Vec::new() };
        proof {
            assert(r@ =~= Seq::<TaskView>::empty());
        }
        r
    }

    /// Adds a task built from the given texts to the end of the list.
    /// An unrecognised priority word is refused as `InvalidChoice`, a bad
    /// due-date text as `MalformedDate`; either way the list stays as it
    /// was. On success the added task is returned for display.
    pub fn add_task(
        &mut self,
        title: String,
        description: String,
        due_text: &str,
        priority_text: &str,
    ) -> (r: Result<Task, TaskError>)
        requires
            mgr_wf(old(self)@),
        ensures
            mgr_wf(final(self)@),
            spec_priority_choice(priority_text@) is None ==> r == Err::<Task, TaskError>(
                TaskError::InvalidChoice,
            ) && final(self)@ == old(self)@,
            spec_priority_choice(priority_text@) is Some && spec_due_choice(due_text@) is None
                ==> r == Err::<Task, TaskError>(TaskError::MalformedDate) && final(self)@ == old(
                self,
            )@,
            ({
                let v = spec_added_task(
                    title@,
                    description@,
                    spec_due_choice(due_text@),
                    spec_priority_choice(priority_text@),
                );
                spec_priority_choice(priority_text@) is Some && spec_due_choice(due_text@)
                    is Some ==> {
                    &&& final(self)@ == old(self)@.push(v)
                    &&& r matches Ok(t) && t@ == v
                }
            }),
    {
        let priority = match parse_priority_choice(priority_text) {
            Some(p) => p,
            None => {
                return Err(TaskError::InvalidChoice);
            },
        };
        let due = match parse_due_choice(due_text) {
            Some(d) => d,
            None => {
                return Err(TaskError::MalformedDate);
            },
        };
        let t = Task::new(title, description, due, priority);
        let r = t.clone();
        self.tasks.push(t);
        proof {
            assert(final(self)@ =~= old(self)@.push(r@));
        }
        Ok(r)
    }

    /// The tasks in storage order, each paired with its current 1-based
    /// position.
    pub fn list_items(&self) -> (r: Vec<(usize, Task)>)
        ensures
            r@.len() == self@.len(),
            forall|i: int|
                0 <= i < r@.len() ==> (#[trigger] r@[i]).0 == i + 1 && r@[i].1@ == self@[i],
    {
        let mut out: Vec<(usize, Task)> = Vec::new();
        let mut i: usize = 0;
        while i < self.tasks.len()
            invariant
                i <= self@.len(),
                self@.len() == self.tasks@.len(),
                out@.len() == i,
                forall|k: int|
                    0 <= k < i ==> (#[trigger] out@[k]).0 == k + 1 && out@[k].1@ == self@[k],
            decreases self@.len() - i,
        {
            let t = self.tasks[i].clone();
            out.push((i + 1, t));
            i = i + 1;
        }
        out
    }

    /// Marks the task at a 1-based position completed. A position outside
    /// `1..=len` is refused as `TaskNotFound`; completing an already
    /// completed task is not an error. No other task changes.
    pub fn complete_task(&mut self, index: usize) -> (r: Result<(), TaskError>)
        requires
            mgr_wf(old(self)@),
        ensures
            mgr_wf(final(self)@),
            index < 1 || index > old(self)@.len() ==> r == Err::<(), TaskError>(
                TaskError::TaskNotFound,
            ) && final(self)@ == old(self)@,
            1 <= index <= old(self)@.len() ==> r == Ok::<(), TaskError>(()) && final(self)@ == old(
                self,
            )@.update(
                index - 1,
                (TaskView { status: true, ..old(self)@[index - 1] }),
            ),
    {
        if index == 0 || index > self.tasks.len() {
            return Err(TaskError::TaskNotFound);
        }
        self.tasks[index - 1].status = true;
        proof {
            assert(final(self)@ =~= old(self)@.update(
                index - 1,
                (TaskView { status: true, ..old(self)@[index - 1] }),
            ));
        }
        Ok(())
    }

    /// Removes the task at a 1-based position, shifting every later task
    /// one position down. A position outside `1..=len` is refused as
    /// `TaskNotFound` and the list stays as it was.
    pub fn delete_task(&mut self, index: usize) -> (r: Result<(), TaskError>)
        requires
            mgr_wf(old(self)@),
        ensures
            mgr_wf(final(self)@),
            index < 1 || index > old(self)@.len() ==> r == Err::<(), TaskError>(
                TaskError::TaskNotFound,
            ) && final(self)@ == old(self)@,
            1 <= index <= old(self)@.len() ==> r == Ok::<(), TaskError>(()) && final(self)@ == old(
                self,
            )@.remove(index - 1),
    {
        if index == 0 || index > self.tasks.len() {
            return Err(TaskError::TaskNotFound);
        }
        self.tasks.remove(index - 1);
        proof {
            assert(final(self)@ =~= old(self)@.remove(index - 1));
        }
        Ok(())
    }

    /// Rewrites one field of the task at a 1-based position: the title or
    /// the description to the given text, or the due date to what the
    /// text denotes (`none` clears it). A bad position is refused as
    /// `TaskNotFound`, an unrecognised field word as `InvalidChoice`, a
    /// bad due-date text as `MalformedDate`; any refusal leaves the list
    /// unchanged.
    pub fn update(&mut self, index: usize, field: &str, new_value: String) -> (r: Result<
        (),
        TaskError,
    >)
        requires
            mgr_wf(old(self)@),
        ensures
            mgr_wf(final(self)@),
            index < 1 || index > old(self)@.len() ==> r == Err::<(), TaskError>(
                TaskError::TaskNotFound,
            ) && final(self)@ == old(self)@,
            1 <= index <= old(self)@.len() && spec_field_choice(field@) is None ==> r == Err::<
                (),
                TaskError,
            >(TaskError::InvalidChoice) && final(self)@ == old(self)@,
            1 <= index <= old(self)@.len() && spec_field_choice(field@) == Some(UpdateField::Title)
                ==> r == Ok::<(), TaskError>(()) && final(self)@ == old(self)@.update(
                index - 1,
                (TaskView { title: new_value@, ..old(self)@[index - 1] }),
            ),
            1 <= index <= old(self)@.len() && spec_field_choice(field@) == Some(
                UpdateField::Description,
            ) ==> r == Ok::<(), TaskError>(()) && final(self)@ == old(self)@.update(
                index - 1,
                (TaskView { description: new_value@, ..old(self)@[index - 1] }),
            ),
            1 <= index <= old(self)@.len() && spec_field_choice(field@) == Some(UpdateField::Due)
                && spec_due_choice(new_value@) is None ==> r == Err::<(), TaskError>(
                TaskError::MalformedDate,
            ) && final(self)@ == old(self)@,
            1 <= index <= old(self)@.len() && spec_field_choice(field@) == Some(UpdateField::Due)
                ==> (spec_due_choice(new_value@) matches Some(d) ==> r == Ok::<(), TaskError>(())
                && final(self)@ == old(self)@.update(
                index - 1,
                (TaskView { due: d, ..old(self)@[index - 1] }),
            )),
    {
        if index == 0 || index > self.tasks.len() {
            return Err(TaskError::TaskNotFound);
        }
        if str_eq(field, "title") {
            self.tasks[index - 1].title = new_value;
            proof {
                assert(final(self)@ =~= old(self)@.update(
                    index - 1,
                    (TaskView { title: new_value@, ..old(self)@[index - 1] }),
                ));
            }
            Ok(())
        } else if str_eq(field, "description") {
            self.tasks[index - 1].description = new_value;
            proof {
                assert(final(self)@ =~= old(self)@.update(
                    index - 1,
                    (TaskView { description: new_value@, ..old(self)@[index - 1] }),
                ));
            }
            Ok(())
        } else if str_eq(field, "due date") {
            match parse_due_choice(new_value.as_str()) {
                Some(d) => {
                    self.tasks[index - 1].due_date = d;
                    proof {
                        assert(final(self)@ =~= old(self)@.update(
                            index - 1,
                            (TaskView { due: d, ..old(self)@[index - 1] }),
                        ));
                    }
                    Ok(())
                },
                None => Err(TaskError::MalformedDate),
            }
        } else {
            Err(TaskError::InvalidChoice)
        }
    }

    /// A freshly ordered snapshot of the tasks: by priority rank or by
    /// due date, ascending and stable, the stored order untouched. An
    /// unrecognised criterion word is refused as `InvalidChoice`.
    pub fn sort(&self, criterion: &str) -> (r: Result<Vec<Task>, TaskError>)
        requires
            mgr_wf(self@),
        ensures
            spec_criterion_choice(criterion@) is None ==> r == Err::<Vec<Task>, TaskError>(
                TaskError::InvalidChoice,
            ),
            spec_criterion_choice(criterion@) matches Some(c) ==> r matches Ok(v) && v.deep_view()
                == spec_sort(c, self@),
    {
        let c = if str_eq(criterion, "priority") {
            SortCriterion::ByPriority
        } else if str_eq(criterion, "due date") {
            SortCriterion::ByDueDate
        } else {
            return Err(TaskError::InvalidChoice);
        };
        proof {
            assert(forall|i: int| 0 <= i < self.tasks@.len() ==> (#[trigger] self.tasks@[i])@
                == self@[i]);
        }
        Ok(sort_tasks(&self.tasks, c))
    }
}

/// The task a successful `add_task` appends, as a value.
pub open spec fn spec_added_task(
    title: Seq<char>,
    description: Seq<char>,
    due_choice: Option<Option<DueDate>>,
    priority_choice: Option<Option<Priority>>,
) -> TaskView {
    TaskView {
        title: title,
        description: description,
        due: match due_choice {
            Some(d) => d,
            None => None,
        },
        priority: match priority_choice {
            Some(Some(p)) => p,
            _ => Priority::Low,
        },
        status: false,
    }
}

/// Deleting the task at 1-based position `i` shortens the list by one;
/// every earlier task keeps its position and every later task moves one
/// position down, so the task that stood at position `i + 1` stands at
/// position `i`.
pub proof fn lemma_delete_shifts(s: Seq<TaskView>, i: int)
    requires
        1 <= i <= s.len(),
    ensures
        s.remove(i - 1).len() == s.len() - 1,
        forall|j: int| 0 <= j < i - 1 ==> s.remove(i - 1)[j] == s[j],
        forall|j: int| i <= j < s.len() ==> s.remove(i - 1)[j - 1] == s[j],
{
}

} // verus!
