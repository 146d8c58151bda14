use todo_list_parser::order::{
    comes_not_after, date_before_or_equal, extract_due_date, extract_start_date, insert_task,
    priority_order, sort_tasks, status_order, text_before_or_equal, SortMode,
};
use todo_list_parser::{parse_file, DescriptionPart, Priority, Status, Task};

fn named(priority: Option<Priority>, status: Status, parts: Vec<DescriptionPart>) -> Task {
    Task { priority, status, description: parts }
}

fn label_of(task: &Task) -> String {
    match &task.description[0] {
        DescriptionPart::Text(t) => t.clone(),
        _ => String::new(),
    }
}

fn labels(tasks: &[Task]) -> Vec<String> {
    tasks.iter().map(label_of).collect()
}

#[test]
fn priority_ranks() {
    assert_eq!(priority_order(&Some(Priority::P1)), 0);
    assert_eq!(priority_order(&Some(Priority::P2)), 1);
    assert_eq!(priority_order(&Some(Priority::P3)), 2);
    assert_eq!(priority_order(&None), 3);
}

#[test]
fn status_ranks() {
    assert_eq!(status_order(&Status::Todo), 0);
    assert_eq!(status_order(&Status::Doing), 1);
    assert_eq!(status_order(&Status::Done), 2);
}

#[test]
fn first_date_of_each_kind() {
    let tasks =
        parse_file("[TODO] a ^2025-01-01 @2025-02-02 b @2025-03-03 ^2025-04-04\n[TODO] c +t\n")
            .unwrap();
    assert_eq!(extract_due_date(&tasks[0]), Some("@2025-02-02".to_string()));
    assert_eq!(extract_start_date(&tasks[0]), Some("^2025-01-01".to_string()));
    assert_eq!(extract_due_date(&tasks[1]), None);
    assert_eq!(extract_start_date(&tasks[1]), None);
}

#[test]
fn text_order() {
    assert!(text_before_or_equal("", ""));
    assert!(text_before_or_equal("", "a"));
    assert!(!text_before_or_equal("a", ""));
    assert!(text_before_or_equal("abc", "abc"));
    assert!(text_before_or_equal("ab", "abc"));
    assert!(!text_before_or_equal("abc", "ab"));
    assert!(text_before_or_equal("abc", "abd"));
    assert!(!text_before_or_equal("abd", "abc"));
    assert!(text_before_or_equal("@2025-01-09", "@2025-01-10"));
    assert!(text_before_or_equal("z", "я"));
    assert!(!text_before_or_equal("я", "z"));
}

#[test]
fn text_order_is_that_of_strings() {
    let words = ["", "a", "ab", "b", "@2025-01-01", "@2024-12-31", "я", "\u{1F600}", "ї"];
    for a in words {
        for b in words {
            assert_eq!(text_before_or_equal(a, b), a <= b, "{:?} {:?}", a, b);
        }
    }
}

#[test]
fn missing_date_comes_last() {
    let early = Some("@2025-01-01".to_string());
    let late = Some("@2025-12-31".to_string());
    assert!(date_before_or_equal(&early, &late));
    assert!(!date_before_or_equal(&late, &early));
    assert!(date_before_or_equal(&late, &None));
    assert!(!date_before_or_equal(&None, &early));
    assert!(date_before_or_equal(&None, &None));
    assert!(date_before_or_equal(&early, &early));
}

#[test]
fn comparison_in_each_mode() {
    let tasks = parse_file("*** [DONE] a @2025-01-01\n* [TODO] b ^2025-01-01\n").unwrap();
    let (a, b) = (&tasks[0], &tasks[1]);
    assert!(comes_not_after(SortMode::Priority, a, b));
    assert!(!comes_not_after(SortMode::Priority, b, a));
    assert!(!comes_not_after(SortMode::Status, a, b));
    assert!(comes_not_after(SortMode::Status, b, a));
    assert!(comes_not_after(SortMode::Due, a, b));
    assert!(!comes_not_after(SortMode::Due, b, a));
    assert!(!comes_not_after(SortMode::Start, a, b));
    assert!(comes_not_after(SortMode::Start, b, a));
    assert!(comes_not_after(SortMode::Unsorted, a, b));
    assert!(comes_not_after(SortMode::Unsorted, b, a));
}

#[test]
fn sort_by_priority_is_stable() {
    let tasks = parse_file(
        "[TODO] a\n* [TODO] b\n*** [TODO] c\n** [TODO] d\n*** [TODO] e\n[TODO] f\n* [TODO] g\n",
    )
    .unwrap();
    let sorted = sort_tasks(SortMode::Priority, tasks);
    assert_eq!(labels(&sorted), vec!["c", "e", "d", "b", "g", "a", "f"]);
}

#[test]
fn sort_by_status() {
    let tasks = parse_file("[DONE] a\n[DOING] b\n[TODO] c\n[DONE] d\n[TODO] e\n").unwrap();
    let sorted = sort_tasks(SortMode::Status, tasks);
    assert_eq!(labels(&sorted), vec!["c", "e", "b", "a", "d"]);
}

#[test]
fn sort_by_due_date() {
    let tasks = parse_file(
        "[TODO] a @2025-03-01\n[TODO] b\n[TODO] c @2025-01-01 @2026-01-01\n[TODO] d @2025-02-01\n[TODO] e\n",
    )
    .unwrap();
    let sorted = sort_tasks(SortMode::Due, tasks);
    assert_eq!(labels(&sorted), vec!["c", "d", "a", "b", "e"]);
}

#[test]
fn sort_by_start_date() {
    let tasks = parse_file(
        "[TODO] a\n[TODO] b ^2025-03-01 @2020-01-01\n[TODO] c ^2025-01-01\n[TODO] d ^2025-03-01\n",
    )
    .unwrap();
    let sorted = sort_tasks(SortMode::Start, tasks);
    assert_eq!(labels(&sorted), vec!["c", "b", "d", "a"]);
}

#[test]
fn sort_by_nothing_keeps_the_list() {
    let tasks = parse_file("*** [DONE] a\n[TODO] b\n* [DOING] c\n").unwrap();
    let sorted = sort_tasks(SortMode::Unsorted, tasks.clone());
    assert_eq!(sorted, tasks);
    assert_eq!(sort_tasks(SortMode::Priority, vec![]), vec![]);
}

#[test]
fn sorted_list_holds_the_same_tasks() {
    let tasks = parse_file("[DONE] a\n* [DOING] b +x\n*** [TODO] c @2025-01-01\n[DONE] a\n").unwrap();
    for mode in [SortMode::Priority, SortMode::Status, SortMode::Start, SortMode::Due] {
        let sorted = sort_tasks(mode, tasks.clone());
        assert_eq!(sorted.len(), tasks.len());
        for task in &tasks {
            let before = tasks.iter().filter(|t| *t == task).count();
            let after = sorted.iter().filter(|t| *t == task).count();
            assert_eq!(before, after);
        }
        for i in 1..sorted.len() {
            assert!(comes_not_after(mode, &sorted[i - 1], &sorted[i]));
        }
    }
}

#[test]
fn insert_goes_behind_equal_tasks() {
    let mut sorted = vec![
        named(Some(Priority::P1), Status::Todo, vec![DescriptionPart::Text("a".to_string())]),
        named(Some(Priority::P2), Status::Todo, vec![DescriptionPart::Text("b".to_string())]),
        named(None, Status::Todo, vec![DescriptionPart::Text("c".to_string())]),
    ];
    let new = named(Some(Priority::P2), Status::Done, vec![DescriptionPart::Text("n".to_string())]);
    insert_task(SortMode::Priority, &mut sorted, new);
    assert_eq!(labels(&sorted), vec!["a", "b", "n", "c"]);
    let first = named(Some(Priority::P1), Status::Done, vec![DescriptionPart::Text("m".to_string())]);
    insert_task(SortMode::Status, &mut sorted, first);
    assert_eq!(labels(&sorted), vec!["a", "b", "n", "c", "m"]);
}

#[test]
fn mode_from_choices() {
    assert_eq!(SortMode::choose_mode(true, true, true, true), SortMode::Priority);
    assert_eq!(SortMode::choose_mode(false, true, true, true), SortMode::Status);
    assert_eq!(SortMode::choose_mode(false, false, true, true), SortMode::Start);
    assert_eq!(SortMode::choose_mode(false, false, false, true), SortMode::Due);
    assert_eq!(SortMode::choose_mode(false, false, false, false), SortMode::Unsorted);
    assert_eq!(SortMode::choose_mode(true, false, false, false), SortMode::Priority);
}

#[test]
fn mode_labels() {
    assert_eq!(SortMode::Priority.label(), "Priority");
    assert_eq!(SortMode::Status.label(), "Status");
    assert_eq!(SortMode::Start.label(), "Start Date");
    assert_eq!(SortMode::Due.label(), "Final date");
    assert_eq!(SortMode::Unsorted.label(), "just list");
}
