//! The task data model: headings, attributes, tasks, and the derived
//! computations — visibility, attribute inheritance and sort keys.

use vstd::prelude::*;
use crate::date::{Date, date_before, date_day_number, date_lt, date_iso, date_to_string};
use crate::text::{dec_int, i64_to_string};

verus! {

/// A markdown heading: its level (the number of leading `#`) and its name.
#[derive(Debug, Clone, PartialEq, Eq)]
pub struct Heading {
    pub level: usize,
    pub name: String,
}

/// The four optional dates a task can carry. No ordering between them is
/// enforced.
#[derive(Debug, Clone, Copy, PartialEq, Eq)]
pub struct DateAttribute {
    pub created_date: Option<Date>,
    pub due_date: Option<Date>,
    pub reminder_date: Option<Date>,
    pub finished_date: Option<Date>,
}

/// A task's assignee.
#[derive(Debug, Clone, PartialEq, Eq)]
pub struct AssignmentAttribute {
    pub assigned_to: String,
}

/// A task's priority; a lower value is a higher priority.
#[derive(Debug, Clone, Copy, PartialEq, Eq)]
pub struct PriorityAttribute {
    pub priority: i32,
}

/// All attributes of one task.
#[derive(Debug, Clone, PartialEq, Eq)]
pub struct TaskAttributes {
    pub date_attr: DateAttribute,
    pub assn_attr: Option<AssignmentAttribute>,
    pub priority_attr: Option<PriorityAttribute>,
}

/// The mathematical value of a `TaskAttributes`.
pub ghost struct TaskAttributesV {
    pub date_attr: DateAttribute,
    pub assn: Option<Seq<char>>,
    pub priority: Option<i32>,
}

impl View for TaskAttributes {
    type V = TaskAttributesV;

    open spec fn view(&self) -> TaskAttributesV {
        TaskAttributesV {
            date_attr: self.date_attr,
            assn: match self.assn_attr {
                Some(a) => Some(a.assigned_to@),
                None => None,
            },
            priority: match self.priority_attr {
                Some(p) => Some(p.priority),
                None => None,
            },
        }
    }
}

/// A checklist task: its heading path, title, checkbox state, free-text
/// description, subtasks, attributes, and provenance.
#[derive(Debug, PartialEq, Eq)]
pub struct Task {
    pub path: Vec<String>,
    pub title: String,
    pub done: bool,
    pub description: String,
    pub subtasks: Vec<Task>,
    pub attrs: TaskAttributes,
    pub file_path: String,
    pub line_number: usize,
}

/// The mathematical value of a `Task`.
pub ghost struct TaskV {
    pub path: Seq<Seq<char>>,
    pub title: Seq<char>,
    pub done: bool,
    pub description: Seq<char>,
    pub subtasks: Seq<TaskV>,
    pub attrs: TaskAttributesV,
    pub file_path: Seq<char>,
    pub line_number: nat,
}

/// The value of a task, subtasks included.
pub open spec fn task_view(t: Task) -> TaskV
    decreases t,
{
    TaskV {
        path: t.path.deep_view(),
        title: t.title@,
        done: t.done,
        description: t.description@,
        subtasks: Seq::new(
            t.subtasks@.len(),
            |i: int|
                if 0 <= i < t.subtasks@.len() {
                    task_view(t.subtasks@[i])
                } else {
                    arbitrary()
                },
        ),
        attrs: t.attrs@,
        file_path: t.file_path@,
        line_number: t.line_number as nat,
    }
}

impl View for Task {
    type V = TaskV;

    open spec fn view(&self) -> TaskV {
        task_view(*self)
    }
}

impl DeepView for Task {
    type V = TaskV;

    open spec fn deep_view(&self) -> TaskV {
        task_view(*self)
    }
}

impl DateAttribute {
    /// Every date that is set names an existing calendar day.
    pub open spec fn wf(self) -> bool {
        &&& (self.created_date matches Some(d) ==> d.wf())
        &&& (self.due_date matches Some(d) ==> d.wf())
        &&& (self.reminder_date matches Some(d) ==> d.wf())
        &&& (self.finished_date matches Some(d) ==> d.wf())
    }
}

impl TaskV {
    /// Every date of the task and of its subtasks names an existing
    /// calendar day.
    pub open spec fn wf(self) -> bool
        decreases self,
    {
        &&& self.attrs.date_attr.wf()
        &&& (forall|i: int|
            #![trigger self.subtasks[i]]
            0 <= i < self.subtasks.len() ==> self.subtasks[i].wf())
    }
}

/// The date `d` falls within `lookahead` days after `today`.
pub open spec fn within_lookahead(d: Date, today: Date, lookahead: int) -> bool {
    d.day_num() - today.day_num() <= lookahead
}

/// A date attribute is visible when its due date or its reminder date has
/// been reached, looking `lookahead` days ahead of `today`.
pub open spec fn date_visible(a: DateAttribute, today: Date, lookahead: int) -> bool {
    ||| (a.due_date matches Some(d) && within_lookahead(d, today, lookahead))
    ||| (a.reminder_date matches Some(d) && within_lookahead(d, today, lookahead))
}

/// A task is displayed when it is not done, and its own dates are visible
/// or one of its subtasks is displayed.
pub open spec fn task_displayed(t: TaskV, today: Date, lookahead: int) -> bool
    decreases t,
{
    &&& !t.done
    &&& {
        ||| date_visible(t.attrs.date_attr, today, lookahead)
        ||| exists|i: int|
            0 <= i < t.subtasks.len() && task_displayed(#[trigger] t.subtasks[i], today, lookahead)
    }
}

/// The date attribute with no date set.
pub open spec fn empty_dates() -> DateAttribute {
    DateAttribute {
        created_date: None,
        due_date: None,
        reminder_date: None,
        finished_date: None,
    }
}

impl Default for DateAttribute {
    /// No date set.
    fn default() -> (r: Self)
        ensures
            r == empty_dates(),
    {
        DateAttribute { created_date: None, due_date: None, reminder_date: None, finished_date: None }
    }
}

impl Default for TaskAttributes {
    /// No attribute set.
    fn default() -> (r: Self)
        ensures
            r.date_attr == empty_dates(),
            (r.assn_attr is None),
            (r.priority_attr is None),
    {
        TaskAttributes {
            date_attr: DateAttribute {
                created_date: None,
                due_date: None,
                reminder_date: None,
                finished_date: None,
            },
            assn_attr: None,
            priority_attr: None,
        }
    }
}

impl Default for Task {
    /// The empty task: no path, empty title and description, not done, no
    /// subtasks, no attributes, empty provenance.
    fn default() -> (r: Self)
        ensures
            (r@.path.len() == 0),
            (r@.title.len() == 0),
            (r@.done == false),
            (r@.description.len() == 0),
            (r@.subtasks.len() == 0),
            (r@.attrs.date_attr == empty_dates()),
            (r@.attrs.assn is None),
            (r@.attrs.priority is None),
            (r@.file_path.len() == 0),
            (r@.line_number == 0),
    {
        Task {
            path: Vec::new(),
            title: String::new(),
            done: false,
            description: String::new(),
            subtasks: Vec::new(),
            attrs: TaskAttributes::default(),
            file_path: String::new(),
            line_number: 0,
        }
    }
}

impl DateAttribute {
    /// Whether this attribute should be visible, given today's date and a
    /// lookahead window in days.
    pub fn is_visible(&self, today: &Date, lookahead_days: i64) -> (r: bool)
        requires
            self.wf(),
            today.wf(),
        ensures
            r == date_visible(*self, *today, lookahead_days as int),
    {
        let tn = date_day_number(today);
        if let Some(due) = self.due_date {
            if date_day_number(&due) - tn <= lookahead_days {
                return true;
            }
        }
        if let Some(rem) = self.reminder_date {
            if date_day_number(&rem) - tn <= lookahead_days {
                return true;
            }
        }
        false
    }

    /// Fills every unset date from the parent's attribute; set dates are
    /// kept.
    pub fn merge_attributes(&mut self, parent_attrs: &DateAttribute)
        ensures
            final (self).created_date == if old(self).created_date is None {
                parent_attrs.created_date
            } else {
                old(self).created_date
            },
            final (self).due_date == if old(self).due_date is None {
                parent_attrs.due_date
            } else {
                old(self).due_date
            },
            final (self).reminder_date == if old(self).reminder_date is None {
                parent_attrs.reminder_date
            } else {
                old(self).reminder_date
            },
            final (self).finished_date == if old(self).finished_date is None {
                parent_attrs.finished_date
            } else {
                old(self).finished_date
            },
    {
        if self.created_date.is_none() {
            self.created_date = parent_attrs.created_date;
        }
        if self.due_date.is_none() {
            self.due_date = parent_attrs.due_date;
        }
        if self.reminder_date.is_none() {
            self.reminder_date = parent_attrs.reminder_date;
        }
        if self.finished_date.is_none() {
            self.finished_date = parent_attrs.finished_date;
        }
    }
}

impl TaskAttributes {
    /// Inherits the parent's dates where the receiver left them unset;
    /// priority and assignment are not inherited.
    pub fn merge_attributes(&mut self, parent_attrs: &TaskAttributes)
        ensures
            final (self).date_attr.created_date == if old(self).date_attr.created_date is None {
                parent_attrs.date_attr.created_date
            } else {
                old(self).date_attr.created_date
            },
            final (self).date_attr.due_date == if old(self).date_attr.due_date is None {
                parent_attrs.date_attr.due_date
            } else {
                old(self).date_attr.due_date
            },
            final (self).date_attr.reminder_date == if old(self).date_attr.reminder_date is None {
                parent_attrs.date_attr.reminder_date
            } else {
                old(self).date_attr.reminder_date
            },
            final (self).date_attr.finished_date == if old(self).date_attr.finished_date is None {
                parent_attrs.date_attr.finished_date
            } else {
                old(self).date_attr.finished_date
            },
            final (self).assn_attr == old(self).assn_attr,
            final (self).priority_attr == old(self).priority_attr,
    {
        self.date_attr.merge_attributes(&parent_attrs.date_attr);
    }
}

impl Task {
    /// Whether the receiver should be displayed: not done, and visible itself
    /// or through a subtask.
    pub fn is_displayed(&self, today: &Date, lookahead_days: i64) -> (r: bool)
        requires
            self@.wf(),
            today.wf(),
        ensures
            r == task_displayed(self@, *today, lookahead_days as int),
        decreases *self,
    {
        if self.done {
            return false;
        }
        if self.attrs.date_attr.is_visible(today, lookahead_days) {
            return true;
        }
        let mut i: usize = 0;
        while i < self.subtasks.len()
            invariant
                0 <= i <= self.subtasks.len(),
                self@.wf(),
                today.wf(),
                self@.done == false,
                !date_visible(self@.attrs.date_attr, *today, lookahead_days as int),
                forall|j: int|
                    0 <= j < i ==> !task_displayed(
                        #[trigger] self@.subtasks[j],
                        *today,
                        lookahead_days as int,
                    ),
            decreases self.subtasks.len() - i,
        {
            proof {
                assert(self@.subtasks.len() == self.subtasks@.len());
                assert(self@.subtasks[i as int] == task_view(self.subtasks@[i as int]));
                assert(self@.subtasks[i as int].wf());
                assert(decreases_to!(*self => self.subtasks@[i as int]));
            }
            if self.subtasks[i].is_displayed(today, lookahead_days) {
                proof {
                    let wit = i as int;
                    assert(0 <= wit < self@.subtasks.len() && task_displayed(
                        self@.subtasks[wit],
                        *today,
                        lookahead_days as int,
                    ));
                    assert(exists|j: int|
                        0 <= j < self@.subtasks.len() && task_displayed(
                            #[trigger] self@.subtasks[j],
                            *today,
                            lookahead_days as int,
                        ));
                }
                return true;
            }
            i = i + 1;
        }
        false
    }
}

/// The text of a day count: `1 day`, or `n days` for any other `n`.
pub open spec fn format_days_text(days: int) -> Seq<char> {
    if days == 1 {
        dec_int(days) + " day"@
    } else {
        dec_int(days) + " days"@
    }
}

/// Renders a day count as `format_days_text` says.
pub fn format_days(days: i64) -> (r: String)
    ensures
        r@ == format_days_text(days as int),
{
    let mut r = i64_to_string(days);
    if days == 1 {
        r.append(" day");
    } else {
        r.append(" days");
    }
    proof {
        reveal_strlit(" day");
        reveal_strlit(" days");
    }
    r
}

/// The text that places a date relative to today: `**<prefix><n> ago**`
/// for past dates, `**<prefix>today**` for today, `<prefix>in <n>` for
/// future dates, with the day count rendered by `format_days_text`.
pub open spec fn date_rel_text(date: Date, today: Date, prefix: Seq<char>) -> Seq<char> {
    if date_lt(date, today) {
        "**"@ + prefix + format_days_text(today.day_num() - date.day_num()) + " ago**"@
    } else if date == today {
        "**"@ + prefix + "today**"@
    } else {
        prefix + "in "@ + format_days_text(date.day_num() - today.day_num())
    }
}

/// Renders a date relative to today, as `date_rel_text` says.
pub fn date_relative_to_today(date: &Date, today: &Date, prefix: &str) -> (r: String)
    requires
        date.wf(),
        today.wf(),
    ensures
        r@ == date_rel_text(*date, *today, prefix@),
{
    let mut r = String::new();
    if date_before(date, today) {
        let delta = date_day_number(today) - date_day_number(date);
        r.append("**");
        r.append(prefix);
        let days = format_days(delta);
        r.append(days.as_str());
        r.append(" ago**");
        proof {
            reveal_strlit("**");
            reveal_strlit(" ago**");
            assert(r@ =~= date_rel_text(*date, *today, prefix@));
        }
    } else if date == today {
        r.append("**");
        r.append(prefix);
        r.append("today**");
        proof {
            reveal_strlit("**");
            reveal_strlit("today**");
            assert(r@ =~= date_rel_text(*date, *today, prefix@));
        }
    } else {
        let delta = date_day_number(date) - date_day_number(today);
        r.append(prefix);
        r.append("in ");
        let days = format_days(delta);
        r.append(days.as_str());
        proof {
            reveal_strlit("in ");
            assert(r@ =~= date_rel_text(*date, *today, prefix@));
        }
    }
    r
}

/// The summary of a date attribute: the reminder or due phrasing in
/// brackets; with both dates set, the reminder is shown only while the
/// due date is still in the future.
pub open spec fn date_summary_text(a: DateAttribute, today: Date) -> Seq<char> {
    match (a.reminder_date, a.due_date) {
        (Some(rem), None) => "["@ + date_rel_text(rem, today, "Reminder "@) + "]"@,
        (None, Some(due)) => "["@ + date_rel_text(due, today, "Due "@) + "]"@,
        (Some(rem), Some(due)) => if date_lt(today, due) {
            "["@ + date_rel_text(rem, today, "Reminder "@) + "] ["@ + date_rel_text(
                due,
                today,
                "Due "@,
            ) + "]"@
        } else {
            "["@ + date_rel_text(due, today, "Due "@) + "]"@
        },
        (None, None) => Seq::empty(),
    }
}

/// The details of a date attribute: one labelled line per set due or
/// reminder date, the date in ISO form with its relative phrasing.
pub open spec fn date_details_text(a: DateAttribute, today: Date) -> Seq<char> {
    (match a.due_date {
        Some(due) => "**Due date**: "@ + date_iso(due) + " ("@ + date_rel_text(
            due,
            today,
            "Due "@,
        ) + ")  \n"@,
        None => Seq::empty(),
    }) + (match a.reminder_date {
        Some(rem) => "**Reminder date**: "@ + date_iso(rem) + " ("@ + date_rel_text(
            rem,
            today,
            "Reminder "@,
        ) + ")  \n"@,
        None => Seq::empty(),
    })
}

impl DateAttribute {
    /// The bracketed summary for the task list, as `date_summary_text`
    /// says.
    pub fn summary(&self, today: &Date) -> (r: String)
        requires
            self.wf(),
            today.wf(),
        ensures
            r@ == date_summary_text(*self, *today),
    {
        let mut r = String::new();
        proof {
            reveal_strlit("[");
            reveal_strlit("]");
            reveal_strlit("] [");
            reveal_strlit("Reminder ");
            reveal_strlit("Due ");
        }
        match (&self.reminder_date, &self.due_date) {
            (Some(rem), None) => {
                r.append("[");
                let m = date_relative_to_today(rem, today, "Reminder ");
                r.append(m.as_str());
                r.append("]");
                proof {
                    assert(r@ =~= date_summary_text(*self, *today));
                }
            },
            (None, Some(due)) => {
                r.append("[");
                let m = date_relative_to_today(due, today, "Due ");
                r.append(m.as_str());
                r.append("]");
                proof {
                    assert(r@ =~= date_summary_text(*self, *today));
                }
            },
            (Some(rem), Some(due)) => {
                if date_before(today, due) {
                    r.append("[");
                    let m = date_relative_to_today(rem, today, "Reminder ");
                    r.append(m.as_str());
                    r.append("] [");
                    let d = date_relative_to_today(due, today, "Due ");
                    r.append(d.as_str());
                    r.append("]");
                    proof {
                        assert(r@ =~= date_summary_text(*self, *today));
                    }
                } else {
                    r.append("[");
                    let d = date_relative_to_today(due, today, "Due ");
                    r.append(d.as_str());
                    r.append("]");
                    proof {
                        assert(r@ =~= date_summary_text(*self, *today));
                    }
                }
            },
            (None, None) => {
                proof {
                    assert(r@ =~= date_summary_text(*self, *today));
                }
            },
        }
        r
    }

    /// The labelled detail lines for the task view, as
    /// `date_details_text` says.
    pub fn details(&self, today: &Date) -> (r: String)
        requires
            self.wf(),
            today.wf(),
        ensures
            r@ == date_details_text(*self, *today),
    {
        let mut r = String::new();
        proof {
            reveal_strlit("**Due date**: ");
            reveal_strlit("**Reminder date**: ");
            reveal_strlit(" (");
            reveal_strlit(")  \n");
        }
        if let Some(due) = &self.due_date {
            r.append("**Due date**: ");
            let iso = date_to_string(due);
            r.append(iso.as_str());
            r.append(" (");
            let m = date_relative_to_today(due, today, "Due ");
            r.append(m.as_str());
            r.append(")  \n");
        }
        if let Some(rem) = &self.reminder_date {
            r.append("**Reminder date**: ");
            let iso = date_to_string(rem);
            r.append(iso.as_str());
            r.append(" (");
            let m = date_relative_to_today(rem, today, "Reminder ");
            r.append(m.as_str());
            r.append(")  \n");
        }
        proof {
            reveal_strlit("Due ");
            reveal_strlit("Reminder ");
            assert(r@ =~= date_details_text(*self, *today));
        }
        r
    }
}

/// The summary of a priority: `[***Priority*** = <n>]`.
pub open spec fn priority_summary_text(p: int) -> Seq<char> {
    "[***Priority*** = "@ + dec_int(p) + "]"@
}

impl PriorityAttribute {
    /// Renders the priority as `priority_summary_text` says.
    pub fn summary(&self) -> (r: String)
        ensures
            r@ == priority_summary_text(self.priority as int),
    {
        let mut r = String::new();
        r.append("[***Priority*** = ");
        let n = i64_to_string(self.priority as i64);
        r.append(n.as_str());
        r.append("]");
        proof {
            reveal_strlit("[***Priority*** = ");
            reveal_strlit("]");
            assert(r@ =~= priority_summary_text(self.priority as int));
        }
        r
    }
}

/// The details of a task: its title, its date details, and its
/// description when it has one, each under a bold label.
pub open spec fn task_details_text(t: TaskV, today: Date) -> Seq<char> {
    "**Title**: "@ + t.title + " \n"@ + date_details_text(t.attrs.date_attr, today) + (
    if t.description.len() > 0 {
        "**Description**:  \n\n"@ + t.description
    } else {
        Seq::empty()
    })
}

impl Task {
    /// The receiver's bracketed date summary.
    pub fn summary(&self, today: &Date) -> (r: String)
        requires
            self.attrs.date_attr.wf(),
            today.wf(),
        ensures
            r@ == date_summary_text(self.attrs.date_attr, *today),
    {
        self.attrs.date_attr.summary(today)
    }

    /// The receiver's detail block, as `task_details_text` says: raw
    /// emphasis markup, left for a renderer to style.
    pub fn details(&self, today: &Date) -> (r: String)
        requires
            self.attrs.date_attr.wf(),
            today.wf(),
        ensures
            r@ == task_details_text(self@, *today),
    {
        let mut r = String::new();
        r.append("**Title**: ");
        r.append(self.title.as_str());
        r.append(" \n");
        let dates = self.attrs.date_attr.details(today);
        r.append(dates.as_str());
        if !self.description.as_str().is_empty() {
            r.append("**Description**:  \n\n");
            r.append(self.description.as_str());
        }
        proof {
            reveal_strlit("**Title**: ");
            reveal_strlit(" \n");
            reveal_strlit("**Description**:  \n\n");
            assert(self.description@.len() == 0 ==> self.description@ =~= Seq::<char>::empty());
            assert(r@ =~= task_details_text(self@, *today));
        }
        r
    }
}

/// A task's derived sort key. Tasks are ordered by priority, then heading
/// path, then reminder delta, then due delta, each ascending.
#[derive(Debug, Clone, PartialEq, Eq)]
pub struct TaskSortKey {
    pub priority: i32,
    pub path: Vec<String>,
    pub reminder_delta: i64,
    pub due_delta: i64,
}

/// The mathematical value of a sort key.
pub ghost struct TaskSortKeyV {
    pub priority: int,
    pub path: Seq<Seq<char>>,
    pub reminder_delta: int,
    pub due_delta: int,
}

impl View for TaskSortKey {
    type V = TaskSortKeyV;

    open spec fn view(&self) -> TaskSortKeyV {
        TaskSortKeyV {
            priority: self.priority as int,
            path: self.path.deep_view(),
            reminder_delta: self.reminder_delta as int,
            due_delta: self.due_delta as int,
        }
    }
}

/// The priority an unprioritized task sorts with: after every explicit
/// priority in practice.
pub const UNPRIORITIZED: i32 = 100000;

/// The sort key of a task: its priority (`UNPRIORITIZED` when none), its
/// heading path, and the distances in days from today to its reminder and
/// due dates, zero when unset.
pub open spec fn task_sort_key(t: TaskV, today: Date) -> TaskSortKeyV {
    TaskSortKeyV {
        priority: match t.attrs.priority {
            Some(p) => p as int,
            None => UNPRIORITIZED as int,
        },
        path: t.path,
        reminder_delta: match t.attrs.date_attr.reminder_date {
            Some(d) => d.day_num() - today.day_num(),
            None => 0,
        },
        due_delta: match t.attrs.date_attr.due_date {
            Some(d) => d.day_num() - today.day_num(),
            None => 0,
        },
    }
}

/// Copies a vector of strings, keeping its value.
pub(crate) fn clone_strings(v: &Vec<String>) -> (r: Vec<String>)
    ensures
        r.deep_view() =~= v.deep_view(),
{
    let mut r: Vec<String> = Vec::new();
    let mut i: usize = 0;
    while i < v.len()
        invariant
            0 <= i <= v.len(),
            r@.len() == i,
            forall|k: int| 0 <= k < i ==> #[trigger] r@[k]@ == v@[k]@,
        decreases v.len() - i,
    {
        r.push(v[i].clone());
        i = i + 1;
    }
    proof {
        assert forall|k: int| 0 <= k < v@.len() implies r.deep_view()[k] == v.deep_view()[k] by {
            assert(r@[k]@ == v@[k]@);
        }
        assert(r.deep_view() =~= v.deep_view());
    }
    r
}

impl Task {
    /// The receiver's sort key for `today`.
    pub fn sort_key(&self, today: &Date) -> (k: TaskSortKey)
        requires
            self.attrs.date_attr.wf(),
            today.wf(),
        ensures
            k@ == task_sort_key(self@, *today),
    {
        let priority: i32 = match &self.attrs.priority_attr {
            Some(p) => p.priority,
            None => 100000,
        };
        let tn = date_day_number(today);
        let reminder_delta: i64 = match &self.attrs.date_attr.reminder_date {
            Some(d) => date_day_number(d) - tn,
            None => 0,
        };
        let due_delta: i64 = match &self.attrs.date_attr.due_date {
            Some(d) => date_day_number(d) - tn,
            None => 0,
        };
        TaskSortKey { priority, path: clone_strings(&self.path), reminder_delta, due_delta }
    }
}

} // verus!
