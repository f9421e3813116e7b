use godo::config::{config_path, expand_tilde, godo_dir, home_relative, Config};
use std::path::PathBuf;
use godo::task::{Task, TaskList, TaskStatus};
use godo::timestamp::Timestamp;

fn at(day: u32) -> Timestamp {
    Timestamp { year: 2025, month: 1, day, hour: 12, minute: 0, second: 0, offset_seconds: 0 }
}

#[test]
fn add_then_remove_never_reuses() {
    let mut list = TaskList::new();
    assert_eq!(list.next_id(), 1);
    assert_eq!(list.add("A".to_string(), at(1)).id, 1);
    assert_eq!(list.add("B".to_string(), at(2)).id, 2);
    let removed = list.remove(1).unwrap();
    assert_eq!(removed.id, 1);
    assert_eq!(removed.title, "A");
    let all = list.all_tasks();
    assert_eq!(all.len(), 1);
    assert_eq!(all[0].id, 2);
    assert_eq!(list.add("C".to_string(), at(3)).id, 3);
    assert!(list.remove(1).is_none());
}

#[test]
fn identifiers_stay_distinct() {
    let mut list = TaskList::new();
    for i in 0..5u32 {
        list.add(format!("t{}", i), at(1));
    }
    list.remove(5);
    list.remove(2);
    list.add("again".to_string(), at(2));
    let ids: Vec<u32> = list.all_tasks().iter().map(|t| t.id).collect();
    assert_eq!(ids, vec![1, 3, 4, 6]);
}

#[test]
fn remove_keeps_order() {
    let mut list = TaskList::new();
    list.add("A".to_string(), at(1));
    list.add("B".to_string(), at(1));
    list.add("C".to_string(), at(1));
    list.remove(2);
    let titles: Vec<&str> = list.all_tasks().iter().map(|t| t.title.as_str()).collect();
    assert_eq!(titles, vec!["A", "C"]);
}

#[test]
fn mark_done_sets_completion() {
    let mut list = TaskList::new();
    list.add("A".to_string(), at(1));
    assert_eq!(list.tasks[0].done_at, None);
    assert_eq!(list.tasks[0].status, TaskStatus::Todo);
    let t = list.find_mut(1).unwrap();
    t.mark_done(at(2));
    assert_eq!(list.tasks[0].status, TaskStatus::Done);
    assert_eq!(list.tasks[0].done_at, Some(at(2)));
    assert!(list.tasks[0].is_done());
    list.find_mut(1).unwrap().mark_done(at(3));
    assert_eq!(list.tasks[0].done_at, Some(at(3)));
    assert_eq!(list.tasks[0].created_at, at(1));
}

#[test]
fn find_mut_missing_is_none() {
    let mut list = TaskList::new();
    list.add("A".to_string(), at(1));
    assert!(list.find_mut(7).is_none());
    list.find_mut(1).unwrap().title = "Renamed".to_string();
    assert_eq!(list.tasks[0].title, "Renamed");
}

#[test]
fn pending_is_filter_of_all() {
    let mut list = TaskList::new();
    for name in ["a", "b", "c", "d"] {
        list.add(name.to_string(), at(1));
    }
    list.find_mut(2).unwrap().mark_done(at(2));
    list.find_mut(4).unwrap().mark_done(at(2));
    let pending: Vec<u32> = list.todo_tasks().iter().map(|t| t.id).collect();
    let filtered: Vec<u32> = list.all_tasks().iter().filter(|t| t.status == TaskStatus::Todo).map(|t| t.id).collect();
    assert_eq!(pending, vec![1, 3]);
    assert_eq!(pending, filtered);
}

#[test]
fn with_tasks_counter() {
    let list = TaskList::with_tasks(vec![Task::new(7, "x".to_string(), at(1)), Task::new(3, "y".to_string(), at(1))]);
    assert_eq!(list.next_id(), 8);
    assert_eq!(TaskList::with_tasks(Vec::new()).next_id(), 1);
}

#[test]
fn markers() {
    assert_eq!(TaskStatus::Todo.marker(), "[ ]");
    assert_eq!(TaskStatus::Done.marker(), "[x]");
}

#[test]
fn default_config() {
    let c = Config::default();
    assert_eq!(c.general.data_file, "~/.godo/tasks.md");
    assert_eq!(c.display.date_format, "%Y-%m-%d %H:%M");
}

#[test]
fn tilde_prefix() {
    assert_eq!(home_relative("~/notes/tasks.md"), Some("notes/tasks.md".to_string()));
    assert_eq!(home_relative("/tmp/tasks.md"), None);
    assert_eq!(home_relative("~"), None);
}

#[test]
fn rfc3339_reading() {
    assert_eq!(
        Timestamp::parse("2024-02-29T23:59:59-05:30"),
        Some(Timestamp { year: 2024, month: 2, day: 29, hour: 23, minute: 59, second: 59, offset_seconds: -19800 })
    );
    assert_eq!(Timestamp::parse("2023-02-29T00:00:00+00:00"), None);
    assert_eq!(Timestamp::parse("garbage"), None);
    let now = Timestamp::now().unwrap();
    assert!(now.month >= 1 && now.month <= 12);
    assert_eq!(now.offset_seconds % 60, 0);
}

#[test]
fn expand_tilde_paths() {
    assert_eq!(expand_tilde("/tmp/tasks.md").unwrap(), PathBuf::from("/tmp/tasks.md"));
    if let Ok(dir) = godo_dir() {
        assert!(dir.ends_with(".godo"));
        let expanded = expand_tilde("~/.godo/tasks.md").unwrap();
        assert_eq!(expanded, dir.join("tasks.md"));
        assert_eq!(config_path().unwrap(), dir.join("config.toml"));
        let c = Config::default();
        assert_eq!(c.data_file_path().unwrap(), dir.join("tasks.md"));
    }
}

#[test]
fn clock_reading_to_text_time() {
    let c = Timestamp { year: 2025, month: 3, day: 31, hour: 23, minute: 59, second: 59, offset_seconds: -19830 };
    assert_eq!(Timestamp::from_clock_reading(c), Some(Timestamp { offset_seconds: -19800, ..c }));
    let d = Timestamp { offset_seconds: 19859, ..c };
    assert_eq!(Timestamp::from_clock_reading(d), Some(Timestamp { offset_seconds: 19800, ..c }));
    let far = Timestamp { year: 10000, ..c };
    assert_eq!(Timestamp::from_clock_reading(far), None);
    assert!(Timestamp::from_clock_reading(c).unwrap().is_valid());
    let v = Timestamp::from_clock_reading(c).unwrap();
    assert!(!Timestamp { day: 29, month: 2, year: 2100, ..v }.is_valid());
    assert!(Timestamp { day: 29, month: 2, year: 2000, ..v }.is_valid());
    assert!(!c.is_valid());
}
