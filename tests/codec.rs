use godo::storage::{format_task, format_tasks, parse_tasks};
use godo::task::{Task, TaskList, TaskStatus};
use godo::timestamp::Timestamp;

fn fixed_now() -> Timestamp {
    Timestamp { year: 2030, month: 6, day: 15, hour: 8, minute: 30, second: 5, offset_seconds: 0 }
}

fn ts(year: i32, month: u32, day: u32, hour: u32, minute: u32, second: u32, offset_seconds: i32) -> Timestamp {
    Timestamp { year, month, day, hour, minute, second, offset_seconds }
}

#[test]
fn test_parse_todo_task() {
    let content = r#"# godo tasks

## Todo

- [ ] Test task <!-- id:1 created:2025-01-07T10:00:00+09:00 -->

## Done

"#;
    let tasks = parse_tasks(content, fixed_now());
    assert_eq!(tasks.tasks.len(), 1);
    assert_eq!(tasks.tasks[0].title, "Test task");
    assert_eq!(tasks.tasks[0].status, TaskStatus::Todo);
}

#[test]
fn test_parse_done_task() {
    let content = r#"# godo tasks

## Todo

## Done

- [x] Done task <!-- id:1 created:2025-01-07T10:00:00+09:00 done:2025-01-07T12:00:00+09:00 -->
"#;
    let tasks = parse_tasks(content, fixed_now());
    assert_eq!(tasks.tasks.len(), 1);
    assert_eq!(tasks.tasks[0].title, "Done task");
    assert_eq!(tasks.tasks[0].status, TaskStatus::Done);
    assert!(tasks.tasks[0].done_at.is_some());
}

#[test]
fn parse_then_list_pending() {
    let content = "# godo tasks\n\n## Todo\n\n- [ ] Buy milk <!-- id:1 created:2025-01-07T10:00:00+09:00 -->\n\n## Done\n\n";
    let list = parse_tasks(content, fixed_now());
    assert_eq!(list.tasks.len(), 1);
    let t = &list.tasks[0];
    assert_eq!(t.id, 1);
    assert_eq!(t.title, "Buy milk");
    assert_eq!(t.status, TaskStatus::Todo);
    assert_eq!(t.done_at, None);
    assert_eq!(t.created_at, ts(2025, 1, 7, 10, 0, 0, 9 * 3600));
    let pending = list.todo_tasks();
    assert_eq!(pending.len(), 1);
    assert_eq!(pending[0].id, 1);
    assert_eq!(list.next_id(), 2);
}

#[test]
fn malformed_timestamp_is_lenient() {
    let content = "- [ ] First <!-- id:3 created:not-a-date -->\n- [x] Second <!-- id:4 created:2024-02-29T23:59:59-05:30 done:bad -->\n- [ ] Third <!-- id:5 created:2024-03-01T00:00:00+00:00 -->\n";
    let list = parse_tasks(content, fixed_now());
    assert_eq!(list.tasks.len(), 3);
    assert_eq!(list.tasks[0].created_at, fixed_now());
    assert_eq!(list.tasks[1].created_at, ts(2024, 2, 29, 23, 59, 59, -(5 * 3600 + 30 * 60)));
    assert_eq!(list.tasks[1].status, TaskStatus::Done);
    assert_eq!(list.tasks[1].done_at, None);
    assert_eq!(list.tasks[2].title, "Third");
    assert_eq!(list.next_id(), 6);
}

#[test]
fn identifier_too_large_reads_as_zero() {
    let content = "- [ ] Big <!-- id:4294967296 created:2025-01-07T10:00:00+09:00 -->\n- [ ] Max <!-- id:4294967295 created:2025-01-07T10:00:00+09:00 -->";
    let list = parse_tasks(content, fixed_now());
    assert_eq!(list.tasks.len(), 2);
    assert_eq!(list.tasks[0].id, 0);
    assert_eq!(list.tasks[1].id, 4294967295);
    assert_eq!(list.next_id(), 4294967296);
}

#[test]
fn non_record_lines_are_ignored() {
    let content = "# title\n- [ ]   <!-- id:1 created:x -->\n- [y] Bad marker <!-- id:2 created:x -->\n-[ ] No space <!-- id:3 created:x -->\n- [ ] No id <!-- id: created:x -->\n   - [ ] Indented <!-- id:9 created:x -->   \r\nplain text\n";
    let list = parse_tasks(content, fixed_now());
    assert_eq!(list.tasks.len(), 2);
    assert_eq!(list.tasks[0].title, " ");
    assert_eq!(list.tasks[1].title, "Indented");
    assert_eq!(list.tasks[1].id, 9);
}

#[test]
fn shortest_title_is_taken() {
    let content = "- [ ] a <!-- id:1 created:x --> <!-- id:2 created:y -->";
    let list = parse_tasks(content, fixed_now());
    assert_eq!(list.tasks.len(), 1);
    assert_eq!(list.tasks[0].title, "a <!-- id:1 created:x -->");
    assert_eq!(list.tasks[0].id, 2);
}

#[test]
fn empty_document_gives_empty_list() {
    let list = parse_tasks("", fixed_now());
    assert_eq!(list.tasks.len(), 0);
    assert_eq!(list.next_id(), 1);
}

#[test]
fn format_empty_list() {
    let list = TaskList::new();
    assert_eq!(format_tasks(&list), "# godo tasks\n\n## Todo\n\n\n## Done\n\n");
}

#[test]
fn format_single_lines() {
    let mut t = Task::new(42, "Write report".to_string(), ts(2025, 1, 7, 10, 0, 0, 9 * 3600));
    assert_eq!(format_task(&t), "- [ ] Write report <!-- id:42 created:2025-01-07T10:00:00+09:00 -->");
    t.mark_done(ts(987, 12, 31, 23, 5, 9, -(3 * 3600 + 45 * 60)));
    assert_eq!(
        format_task(&t),
        "- [x] Write report <!-- id:42 created:2025-01-07T10:00:00+09:00 done:0987-12-31T23:05:09-03:45 -->"
    );
}

#[test]
fn format_puts_pending_before_done() {
    let mut list = TaskList::new();
    list.add("A".to_string(), ts(2025, 1, 1, 0, 0, 0, 0));
    list.add("B".to_string(), ts(2025, 1, 2, 0, 0, 0, 0));
    list.add("C".to_string(), ts(2025, 1, 3, 0, 0, 0, 0));
    list.find_mut(1).unwrap().mark_done(ts(2025, 1, 4, 0, 0, 0, 3600));
    let text = format_tasks(&list);
    assert_eq!(
        text,
        "# godo tasks\n\n## Todo\n\n- [ ] B <!-- id:2 created:2025-01-02T00:00:00+00:00 -->\n- [ ] C <!-- id:3 created:2025-01-03T00:00:00+00:00 -->\n\n## Done\n\n- [x] A <!-- id:1 created:2025-01-01T00:00:00+00:00 done:2025-01-04T00:00:00+01:00 -->\n"
    );
}

#[test]
fn format_then_parse_round_trip() {
    let mut list = TaskList::new();
    list.add("Buy <milk> & eggs -->".to_string(), ts(2025, 1, 1, 9, 15, 30, 9 * 3600));
    list.add("Call Bob".to_string(), ts(2024, 2, 29, 23, 59, 59, -8 * 3600));
    list.add("  spaced  ".to_string(), ts(2000, 12, 31, 0, 0, 0, 0));
    list.find_mut(2).unwrap().mark_done(ts(2025, 3, 1, 1, 2, 3, 5 * 3600 + 45 * 60));
    let parsed = parse_tasks(&format_tasks(&list), fixed_now());
    let expected: Vec<&Task> = list.todo_tasks().into_iter().chain(list.all_tasks().into_iter().filter(|t| t.is_done())).collect();
    assert_eq!(parsed.tasks.len(), expected.len());
    for (p, e) in parsed.tasks.iter().zip(expected.iter()) {
        assert_eq!(p.id, e.id);
        assert_eq!(p.title, e.title);
        assert_eq!(p.status, e.status);
        assert_eq!(p.created_at, e.created_at);
        assert_eq!(p.done_at, e.done_at);
    }
    assert_eq!(parsed.next_id(), 4);
}

#[test]
fn non_ascii_digit_identifier_reads_as_zero() {
    let content = "- [ ] X <!-- id:\u{663} created:x -->\n- [ ] Y <!-- id:1\u{663}2 created:2025-01-07T10:00:00+09:00 -->\n- [ ] Z <!-- id:\u{2155} created:x -->\n";
    let list = parse_tasks(content, fixed_now());
    assert_eq!(list.tasks.len(), 2);
    assert_eq!(list.tasks[0].title, "X");
    assert_eq!(list.tasks[0].id, 0);
    assert_eq!(list.tasks[0].created_at, fixed_now());
    assert_eq!(list.tasks[1].title, "Y");
    assert_eq!(list.tasks[1].id, 0);
    assert_eq!(list.next_id(), 1);
}
