use today::date::Date;
use today::parser::{
    handle_headings_stack, md_checkbox, parse_heading, parse_markdown, extract_task_attrs,
    ParseErrorKind,
};
use today::task::Heading;

fn d(year: i32, month: u32, day: u32) -> Date {
    Date { year, month, day }
}

#[test]
fn test_parse_heading() {
    assert_eq!(
        parse_heading("# Title").unwrap(),
        Heading { level: 1, name: "Title".to_string() }
    );
    assert_eq!(
        parse_heading("### **title 2**").unwrap(),
        Heading { level: 3, name: "**title 2**".to_string() }
    );
    assert!(parse_heading("bare line").is_err());
}

#[test]
fn test_md_checkbox() {
    assert_eq!(md_checkbox("[ ]"), Some(false));
    assert_eq!(md_checkbox("[x]"), Some(true));
    assert_eq!(md_checkbox("[X]"), Some(true));
    assert_eq!(md_checkbox("invalid"), None);
}

#[test]
fn heading_stack_follows_levels() {
    let mut stack: Vec<String> = Vec::new();
    handle_headings_stack(&mut stack, "# A").unwrap();
    assert_eq!(stack, vec!["A".to_string()]);
    handle_headings_stack(&mut stack, "## B").unwrap();
    assert_eq!(stack, vec!["A".to_string(), "B".to_string()]);
    handle_headings_stack(&mut stack, "### C").unwrap();
    assert_eq!(stack.len(), 3);
    // a sibling at level two replaces everything at its level and deeper
    handle_headings_stack(&mut stack, "## D").unwrap();
    assert_eq!(stack, vec!["A".to_string(), "D".to_string()]);
}

#[test]
fn heading_jump_is_too_deep() {
    let mut stack: Vec<String> = Vec::new();
    handle_headings_stack(&mut stack, "# A").unwrap();
    let e = handle_headings_stack(&mut stack, "### C").unwrap_err();
    assert_eq!(e.kind, ParseErrorKind::HeadingTooDeep);
    // the stack is untouched by the refused heading
    assert_eq!(stack, vec!["A".to_string()]);
}

#[test]
fn heading_malformed() {
    let mut stack: Vec<String> = Vec::new();
    let e = handle_headings_stack(&mut stack, "#bad").unwrap_err();
    assert_eq!(e.kind, ParseErrorKind::MalformedHeading);
    let tasks = parse_markdown(&vec!["#bad".to_string()], &d(2024, 1, 1));
    assert_eq!(tasks.unwrap_err().kind, ParseErrorKind::MalformedHeading);
}

#[test]
fn parse_document_with_subtask() {
    // one heading, one prioritized due task, one assigned subtask
    let today = d(2024, 3, 1);
    let lines = vec![
        "# Work".to_string(),
        "- [ ] Ship it [d:3/1] [!2]".to_string(),
        "  - [ ] subtask [@bob]".to_string(),
    ];
    let tasks = parse_markdown(&lines, &today).unwrap();
    assert_eq!(tasks.len(), 1);
    let t = &tasks[0];
    assert_eq!(t.title, "Ship it");
    assert_eq!(t.path, vec!["Work".to_string()]);
    assert_eq!(t.done, false);
    assert_eq!(t.line_number, 2);
    assert_eq!(t.attrs.date_attr.due_date, Some(d(2024, 3, 1)));
    assert_eq!(t.attrs.priority_attr.as_ref().unwrap().priority, 2);
    assert_eq!(t.subtasks.len(), 1);
    let s = &t.subtasks[0];
    assert_eq!(s.title, "subtask");
    assert_eq!(s.line_number, 3);
    assert_eq!(s.attrs.assn_attr.as_ref().unwrap().assigned_to, "bob");
    // the subtask's unset due date is inherited from its parent
    assert_eq!(s.attrs.date_attr.due_date, Some(d(2024, 3, 1)));
    // priority is not inherited
    assert!(s.attrs.priority_attr.is_none());
    // nesting stops at one level
    assert!(s.subtasks.is_empty());
}

#[test]
fn reminder_today_token() {
    let today = d(2024, 6, 15);
    let lines = vec!["- [ ] Task [r:t]".to_string()];
    let tasks = parse_markdown(&lines, &today).unwrap();
    assert_eq!(tasks.len(), 1);
    assert_eq!(tasks[0].title, "Task");
    assert_eq!(tasks[0].attrs.date_attr.reminder_date, Some(d(2024, 6, 15)));
}

#[test]
fn orphan_subtask_fails_with_line() {
    let today = d(2024, 1, 1);
    let lines = vec!["  - [ ] orphan".to_string()];
    let e = parse_markdown(&lines, &today).unwrap_err();
    assert_eq!(e.kind, ParseErrorKind::OrphanSubtask);
    assert_eq!(e.line_number, 1);
    assert_eq!(
        e.message(),
        "Encountered subtask without a main task on line 1:   - [ ] orphan"
    );
}

#[test]
fn invalid_priority_value() {
    let e = parse_markdown(&vec!["- [ ] x [!abc]".to_string()], &d(2024, 1, 1)).unwrap_err();
    assert_eq!(e.kind, ParseErrorKind::InvalidPriority);
    assert_eq!(e.text, "abc");
}

#[test]
fn unknown_date_kind() {
    let e = parse_markdown(&vec!["- [ ] x [z:t]".to_string()], &d(2024, 1, 1)).unwrap_err();
    assert_eq!(e.kind, ParseErrorKind::UnknownDateKind);
    assert_eq!(e.text, "z");
}

#[test]
fn invalid_date_values() {
    // a month that does not exist
    let e = parse_markdown(&vec!["- [ ] x [d:13/45]".to_string()], &d(2024, 1, 1)).unwrap_err();
    assert_eq!(e.kind, ParseErrorKind::InvalidDate);
    // February 30 exists in no year
    let e = parse_markdown(&vec!["- [ ] x [d:2/30/2023]".to_string()], &d(2024, 1, 1))
        .unwrap_err();
    assert_eq!(e.kind, ParseErrorKind::InvalidDate);
    // a leap day parses in a leap year
    let tasks = parse_markdown(&vec!["- [ ] x [d:2/29/2024]".to_string()], &d(2024, 1, 1))
        .unwrap();
    assert_eq!(tasks[0].attrs.date_attr.due_date, Some(d(2024, 2, 29)));
    // and is refused in a common year
    let e = parse_markdown(&vec!["- [ ] x [d:2/29/2023]".to_string()], &d(2024, 1, 1))
        .unwrap_err();
    assert_eq!(e.kind, ParseErrorKind::InvalidDate);
    // a malformed field count
    let e = parse_markdown(&vec!["- [ ] x [d:1/2/3/4]".to_string()], &d(2024, 1, 1)).unwrap_err();
    assert_eq!(e.kind, ParseErrorKind::InvalidDate);
}

#[test]
fn two_field_date_takes_current_year() {
    let today = d(2021, 7, 4);
    let tasks = parse_markdown(&vec!["- [ ] x [d:3/1]".to_string()], &today).unwrap();
    assert_eq!(tasks[0].attrs.date_attr.due_date, Some(d(2021, 3, 1)));
}

#[test]
fn extract_attrs_round_trip() {
    // once extracted, rescanning the residual title finds nothing more
    let today = d(2024, 3, 1);
    let (attrs, rest) = extract_task_attrs("Ship it [d:3/1] [!2] now", &today).unwrap();
    assert_eq!(rest, "Ship it now");
    assert_eq!(attrs.date_attr.due_date, Some(d(2024, 3, 1)));
    let (again, rest2) = extract_task_attrs(&rest, &today).unwrap();
    assert_eq!(rest2, rest);
    assert!(again.date_attr.due_date.is_none());
    assert!(again.priority_attr.is_none());
    assert!(again.assn_attr.is_none());
}

#[test]
fn all_date_kinds_assign() {
    let today = d(2024, 3, 1);
    let lines = vec!["- [x] t [c:1/2] [d:3/4] [r:5/6] [f:7/8/2020]".to_string()];
    let tasks = parse_markdown(&lines, &today).unwrap();
    let da = &tasks[0].attrs.date_attr;
    assert_eq!(da.created_date, Some(d(2024, 1, 2)));
    assert_eq!(da.due_date, Some(d(2024, 3, 4)));
    assert_eq!(da.reminder_date, Some(d(2024, 5, 6)));
    assert_eq!(da.finished_date, Some(d(2020, 7, 8)));
    assert!(tasks[0].done);
    assert_eq!(tasks[0].title, "t");
}

#[test]
fn later_token_overwrites_earlier() {
    let today = d(2024, 3, 1);
    let tasks = parse_markdown(&vec!["- [ ] x [!1] [!7]".to_string()], &today).unwrap();
    assert_eq!(tasks[0].attrs.priority_attr.as_ref().unwrap().priority, 7);
}

#[test]
fn descriptions_attach_to_current_task() {
    let today = d(2024, 3, 1);
    let lines = vec![
        "- [ ] a [d:t]".to_string(),
        "first line".to_string(),
        "  - [ ] sub".to_string(),
        "second line".to_string(),
        "".to_string(),
        "- [ ] b".to_string(),
        "   b text   ".to_string(),
    ];
    let tasks = parse_markdown(&lines, &today).unwrap();
    assert_eq!(tasks.len(), 2);
    // lines after a subtask still belong to the enclosing task
    assert_eq!(tasks[0].description, "first line\nsecond line");
    assert_eq!(tasks[0].subtasks.len(), 1);
    // descriptions are trimmed at the end
    assert_eq!(tasks[1].description, "b text");
}

#[test]
fn heading_closes_current_task() {
    let today = d(2024, 3, 1);
    let lines = vec![
        "# A".to_string(),
        "- [ ] one".to_string(),
        "## B".to_string(),
        "- [ ] two".to_string(),
    ];
    let tasks = parse_markdown(&lines, &today).unwrap();
    assert_eq!(tasks.len(), 2);
    assert_eq!(tasks[0].path, vec!["A".to_string()]);
    assert_eq!(tasks[1].path, vec!["A".to_string(), "B".to_string()]);
}

#[test]
fn stray_lines_before_any_task_are_ignored() {
    let today = d(2024, 3, 1);
    let lines = vec![
        "".to_string(),
        "just prose".to_string(),
        "- [y] not a task".to_string(),
        "- [ ] real".to_string(),
    ];
    let tasks = parse_markdown(&lines, &today).unwrap();
    assert_eq!(tasks.len(), 1);
    assert_eq!(tasks[0].title, "real");
    assert_eq!(tasks[0].line_number, 4);
}
