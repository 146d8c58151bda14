use todo_list_parser::{parse_file, Grammar, Rule};

#[test]
fn test_status_complete() {
    let input = "[DONE]";
    let pair = Grammar::parse(Rule::Status, input).expect("Cannot find [DONE]");

    assert_eq!(pair.rule, Rule::Status);
    assert_eq!(pair.end, 6);

    let inner_rule = pair.children.into_iter().next().unwrap().rule;
    assert_eq!(inner_rule, Rule::Complete);
}

#[test]
fn test_status_incomplete() {
    let input = "[TODO]";
    let pair = Grammar::parse(Rule::Status, input).expect("Cannot find [TODO]");

    assert_eq!(pair.rule, Rule::Status);

    let inner_rule = pair.children.into_iter().next().unwrap().rule;
    assert_eq!(inner_rule, Rule::Incomplete);
}

#[test]
fn test_status_in_progress() {
    let input = "[DOING]";
    let pair = Grammar::parse(Rule::Status, input).expect("Cannot find [DOING]");

    assert_eq!(pair.rule, Rule::Status);

    let inner_rule = pair.children.into_iter().next().unwrap().rule;
    assert_eq!(inner_rule, Rule::InProgress);
}

#[test]
fn test_priority_one_star() {
    let input = "*";
    let pair = Grammar::parse(Rule::Priority, input).expect("Cannot find *");

    assert_eq!(pair.rule, Rule::Priority);
    assert_eq!(pair.text, "*");
}

#[test]
fn test_priority_three_stars() {
    let input = "***";
    let pair = Grammar::parse(Rule::Priority, input).expect("Cannot find ***");

    assert_eq!(pair.rule, Rule::Priority);
    assert_eq!(pair.text, "***");
}

#[test]
fn test_tag_simple() {
    let input = "+work";
    let pair = Grammar::parse(Rule::Tag, input).expect("Cannot find +work");

    assert_eq!(pair.rule, Rule::Tag);
    assert_eq!(pair.text, "+work");
}

#[test]
fn test_tag_ukr() {
    let input = "+документація";
    let pair = Grammar::parse(Rule::Tag, input).expect("Cannot find +документація");

    assert_eq!(pair.rule, Rule::Tag);
    assert_eq!(pair.text, "+документація");
}

#[test]
fn test_due_date() {
    let input = "@2025-11-15";
    let pair = Grammar::parse(Rule::DueDate, input).expect("Cannot find @2025-11-15");

    assert_eq!(pair.rule, Rule::DueDate);
    assert_eq!(pair.text, "@2025-11-15");
}

#[test]
fn test_due_date2() {
    let input = "@2026-12-31";
    let pair = Grammar::parse(Rule::DueDate, input).expect("Cannot find @2026-12-31");

    assert_eq!(pair.rule, Rule::DueDate);
    assert_eq!(pair.text, "@2026-12-31");
}

#[test]
fn test_parse_simple_task() {
    let input = "[TODO] Simple task\n";
    let tasks = parse_file(input).unwrap();

    assert_eq!(tasks.len(), 1);
}

#[test]
fn test_parse_task_with_priority() {
    let input = "** [DOING] Important task\n";
    let tasks = parse_file(input).unwrap();

    assert_eq!(tasks.len(), 1);
}

#[test]
fn test_parse_multiple_tasks() {
    let input = "[TODO] First task\n[DOING] Second task\n";
    let tasks = parse_file(input).unwrap();

    assert_eq!(tasks.len(), 2);
}
