use today::cli::{parse_date_arg, CliArgs};
use today::date::{date_to_string, Date};
use today::parser::parse_markdown;
use today::select::select_tasks;
use today::task::{
    date_relative_to_today, format_days, AssignmentAttribute, DateAttribute, PriorityAttribute,
    Task, TaskAttributes,
};

fn d(year: i32, month: u32, day: u32) -> Date {
    Date { year, month, day }
}

fn dates(due: Option<Date>, reminder: Option<Date>) -> DateAttribute {
    DateAttribute { created_date: None, due_date: due, reminder_date: reminder, finished_date: None }
}

fn plain_task(title: &str, path: Vec<String>, prio: Option<i32>, due: Option<Date>) -> Task {
    let mut t = Task::default();
    t.title = title.to_string();
    t.path = path;
    t.attrs = TaskAttributes {
        date_attr: dates(due, None),
        assn_attr: None,
        priority_attr: prio.map(|priority| PriorityAttribute { priority }),
    };
    t
}

#[test]
fn due_today_is_visible_done_is_not_displayed() {
    let today = d(2024, 3, 1);
    let attr = dates(Some(today), None);
    assert!(attr.is_visible(&today, 0));
    let mut t = plain_task("x", vec![], None, Some(today));
    assert!(t.is_displayed(&today, 0));
    t.done = true;
    assert!(!t.is_displayed(&today, 0));
}

#[test]
fn visibility_window() {
    let today = d(2024, 3, 1);
    let tomorrow = d(2024, 3, 2);
    let attr = dates(Some(tomorrow), None);
    // not due yet with no lookahead, due within one day of lookahead
    assert!(!attr.is_visible(&today, 0));
    assert!(attr.is_visible(&today, 1));
    // a reminder alone also makes the attribute visible
    let attr = dates(None, Some(d(2024, 2, 28)));
    assert!(attr.is_visible(&today, 0));
    // no dates at all: never visible
    let attr = dates(None, None);
    assert!(!attr.is_visible(&today, 365));
}

#[test]
fn parent_with_visible_subtask_is_displayed() {
    let today = d(2024, 3, 1);
    let mut parent = plain_task("p", vec![], None, None);
    let sub = plain_task("s", vec![], None, Some(today));
    assert!(!parent.is_displayed(&today, 0));
    parent.subtasks.push(sub);
    assert!(parent.is_displayed(&today, 0));
    // a done subtask does not rescue the parent
    parent.subtasks[0].done = true;
    assert!(!parent.is_displayed(&today, 0));
}

#[test]
fn merge_fills_only_unset_dates() {
    let parent = dates(Some(d(2024, 3, 5)), Some(d(2024, 3, 2)));
    let mut child = dates(None, Some(d(2024, 4, 1)));
    child.merge_attributes(&parent);
    // the unset due date is inherited
    assert_eq!(child.due_date, Some(d(2024, 3, 5)));
    // the set reminder is kept
    assert_eq!(child.reminder_date, Some(d(2024, 4, 1)));
}

#[test]
fn sort_key_deltas_default_to_zero() {
    let today = d(2024, 3, 1);
    let t = plain_task("a", vec!["P".to_string()], Some(3), Some(d(2024, 3, 5)));
    let k = t.sort_key(&today);
    assert_eq!(k.priority, 3);
    assert_eq!(k.path, vec!["P".to_string()]);
    assert_eq!(k.reminder_delta, 0);
    assert_eq!(k.due_delta, 4);
    let t = plain_task("b", vec![], None, None);
    let k = t.sort_key(&today);
    assert_eq!(k.priority, 100000);
    assert_eq!(k.reminder_delta, 0);
    assert_eq!(k.due_delta, 0);
}

#[test]
fn prioritized_task_sorts_first() {
    let today = d(2024, 3, 1);
    let unprioritized = plain_task("later", vec!["B".to_string()], None, Some(today));
    let prioritized = plain_task("first", vec!["A".to_string()], Some(1), Some(today));
    let sorted = select_tasks(vec![unprioritized, prioritized], &today, 0);
    assert_eq!(sorted.len(), 2);
    assert_eq!(sorted[0].title, "first");
    // the priority wins whatever the path order says
    let unprioritized = plain_task("later", vec!["A".to_string()], None, Some(today));
    let prioritized = plain_task("first", vec!["Z".to_string()], Some(1), Some(today));
    let sorted = select_tasks(vec![unprioritized, prioritized], &today, 0);
    assert_eq!(sorted[0].title, "first");
}

#[test]
fn select_filters_and_orders() {
    let today = d(2024, 3, 1);
    let hidden = plain_task("hidden", vec![], None, Some(d(2024, 3, 9)));
    let done = {
        let mut t = plain_task("done", vec![], None, Some(today));
        t.done = true;
        t
    };
    let b = plain_task("b", vec!["B".to_string()], None, Some(today));
    let a = plain_task("a", vec!["A".to_string()], None, Some(today));
    let sorted = select_tasks(vec![hidden, done, b, a], &today, 0);
    assert_eq!(sorted.len(), 2);
    assert_eq!(sorted[0].title, "a");
    assert_eq!(sorted[1].title, "b");
}

#[test]
fn details_twice_is_identical() {
    let today = d(2024, 3, 1);
    let mut t = plain_task("T", vec![], None, Some(d(2024, 3, 5)));
    t.description = "notes".to_string();
    let first = t.details(&today);
    let second = t.details(&today);
    assert_eq!(first, second);
}

#[test]
fn details_text_exact() {
    let today = d(2024, 3, 1);
    let mut t = plain_task("T", vec![], None, Some(d(2024, 3, 5)));
    assert_eq!(t.details(&today), "**Title**: T \n**Due date**: 2024-03-05 (Due in 4 days)  \n");
    t.description = "notes".to_string();
    assert_eq!(
        t.details(&today),
        "**Title**: T \n**Due date**: 2024-03-05 (Due in 4 days)  \n**Description**:  \n\nnotes"
    );
}

#[test]
fn summary_phrasing() {
    let today = d(2024, 3, 1);
    // only a due date, today
    let t = plain_task("x", vec![], None, Some(today));
    assert_eq!(t.summary(&today), "[**Due today**]");
    // only a due date, in the past: singular day
    let t = plain_task("x", vec![], None, Some(d(2024, 2, 29)));
    assert_eq!(t.summary(&today), "[**Due 1 day ago**]");
    // reminder and future due date: both shown
    let mut t = plain_task("x", vec![], None, Some(d(2024, 3, 3)));
    t.attrs.date_attr.reminder_date = Some(d(2024, 2, 28));
    assert_eq!(t.summary(&today), "[**Reminder 2 days ago**] [Due in 2 days]");
    // reminder with a due date already reached: only the due phrasing
    t.attrs.date_attr.due_date = Some(today);
    assert_eq!(t.summary(&today), "[**Due today**]");
    // no dates: empty summary
    let t = plain_task("x", vec![], None, None);
    assert_eq!(t.summary(&today), "");
}

#[test]
fn priority_summary_text() {
    let p = PriorityAttribute { priority: 2 };
    assert_eq!(p.summary(), "[***Priority*** = 2]");
    let p = PriorityAttribute { priority: -3 };
    assert_eq!(p.summary(), "[***Priority*** = -3]");
}

#[test]
fn relative_dates_and_day_counts() {
    assert_eq!(format_days(1), "1 day");
    assert_eq!(format_days(0), "0 days");
    assert_eq!(format_days(14), "14 days");
    let today = d(2024, 3, 1);
    assert_eq!(date_relative_to_today(&d(2024, 3, 1), &today, "Due "), "**Due today**");
    assert_eq!(date_relative_to_today(&d(2024, 2, 20), &today, "Due "), "**Due 10 days ago**");
    assert_eq!(date_relative_to_today(&d(2024, 3, 11), &today, "Due "), "Due in 10 days");
    // day arithmetic crosses a leap day correctly
    assert_eq!(date_relative_to_today(&d(2024, 2, 20), &d(2024, 3, 1), "X "), "**X 10 days ago**");
    assert_eq!(date_relative_to_today(&d(2023, 2, 20), &d(2023, 3, 1), "X "), "**X 9 days ago**");
}

#[test]
fn date_renders_iso() {
    assert_eq!(date_to_string(&d(2024, 3, 5)), "2024-03-05");
    assert_eq!(date_to_string(&d(812, 11, 30)), "0812-11-30");
}

#[test]
fn cli_defaults_and_task_id() {
    let mut args = CliArgs::default();
    assert_eq!(args.lookahead_days(), 0);
    assert!(args.get_task_id().is_none());
    args.days = Some(7);
    args.task_id = Some("3".to_string());
    assert_eq!(args.lookahead_days(), 7);
    assert_eq!(args.get_task_id(), Some(Ok(3)));
    args.task_id = Some("abc".to_string());
    assert_eq!(args.get_task_id(), Some(Err("abc".to_string())));
}

#[test]
fn cli_date_argument() {
    assert_eq!(parse_date_arg("3/1/2024").unwrap(), d(2024, 3, 1));
    assert!(parse_date_arg("3/1").is_err());
    assert!(parse_date_arg("2/30/2024").is_err());
    assert!(parse_date_arg("nonsense").is_err());
}

#[test]
fn assignment_attribute_value() {
    let a = AssignmentAttribute { assigned_to: "bob".to_string() };
    assert_eq!(a.assigned_to, "bob");
}
