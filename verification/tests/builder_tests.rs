use todo_list_parser::builder::{
    build_description, build_file, build_lines, build_part, build_priority, build_status,
    build_task,
};
use todo_list_parser::{DescriptionPart, Node, ParseError, Priority, Rule, Status, Task};

fn leaf_of(rule: Rule, text: &str) -> Node {
    Node { rule, start: 0, end: text.chars().count(), text: text.to_string(), children: vec![] }
}

fn node_of(rule: Rule, children: Vec<Node>) -> Node {
    Node { rule, start: 0, end: 0, text: String::new(), children }
}

fn status_of(marker: Rule) -> Node {
    node_of(Rule::Status, vec![leaf_of(marker, "")])
}

fn part_node(rule: Rule, text: &str) -> Node {
    node_of(Rule::DescriptionPart, vec![leaf_of(rule, text)])
}

#[test]
fn priority_from_stars() {
    assert_eq!(build_priority(&leaf_of(Rule::Priority, "*")), Priority::P3);
    assert_eq!(build_priority(&leaf_of(Rule::Priority, "**")), Priority::P2);
    assert_eq!(build_priority(&leaf_of(Rule::Priority, "***")), Priority::P1);
}

#[test]
fn status_from_marker() {
    assert_eq!(build_status(&status_of(Rule::Complete)), Status::Done);
    assert_eq!(build_status(&status_of(Rule::Incomplete)), Status::Todo);
    assert_eq!(build_status(&status_of(Rule::InProgress)), Status::Doing);
}

#[test]
fn part_from_each_rule() {
    assert_eq!(
        build_part(&part_node(Rule::Text, " keep  spaces ")),
        DescriptionPart::Text(" keep  spaces ".to_string())
    );
    assert_eq!(build_part(&part_node(Rule::Tag, "+t")), DescriptionPart::Tag("+t".to_string()));
    assert_eq!(
        build_part(&part_node(Rule::DueDate, "@2025-01-01")),
        DescriptionPart::DueDate("@2025-01-01".to_string())
    );
    assert_eq!(
        build_part(&part_node(Rule::StartDate, "^2025-01-01")),
        DescriptionPart::StartDate("^2025-01-01".to_string())
    );
}

#[test]
fn description_keeps_the_order_of_its_parts() {
    let node = node_of(
        Rule::Description,
        vec![
            part_node(Rule::DueDate, "@2025-01-01"),
            part_node(Rule::Text, "b"),
            part_node(Rule::Tag, "+a"),
            part_node(Rule::Text, "a"),
        ],
    );
    assert_eq!(
        build_description(&node),
        vec![
            DescriptionPart::DueDate("@2025-01-01".to_string()),
            DescriptionPart::Text("b".to_string()),
            DescriptionPart::Tag("+a".to_string()),
            DescriptionPart::Text("a".to_string()),
        ]
    );
    assert_eq!(build_description(&node_of(Rule::Description, vec![])), vec![]);
}

#[test]
fn task_without_status_is_an_error() {
    let none = node_of(Rule::Task, vec![]);
    assert_eq!(build_task(&none), Err(ParseError::MissingStatus));
    let some = node_of(
        Rule::Task,
        vec![
            leaf_of(Rule::Priority, "**"),
            node_of(Rule::Description, vec![part_node(Rule::Text, "a")]),
        ],
    );
    assert_eq!(build_task(&some), Err(ParseError::MissingStatus));
}

#[test]
fn task_with_status_only() {
    let node = node_of(Rule::Task, vec![status_of(Rule::InProgress)]);
    assert_eq!(
        build_task(&node),
        Ok(Task { priority: None, status: Status::Doing, description: vec![] })
    );
}

#[test]
fn task_with_all_fields() {
    let node = node_of(
        Rule::Task,
        vec![
            leaf_of(Rule::Priority, "***"),
            status_of(Rule::Complete),
            node_of(Rule::Description, vec![part_node(Rule::Tag, "+x")]),
        ],
    );
    assert_eq!(
        build_task(&node),
        Ok(Task {
            priority: Some(Priority::P1),
            status: Status::Done,
            description: vec![DescriptionPart::Tag("+x".to_string())],
        })
    );
}

#[test]
fn last_field_of_a_kind_counts() {
    let node = node_of(
        Rule::Task,
        vec![
            status_of(Rule::Complete),
            leaf_of(Rule::Priority, "*"),
            node_of(Rule::Description, vec![part_node(Rule::Tag, "+x")]),
            leaf_of(Rule::Priority, "**"),
            status_of(Rule::Incomplete),
            node_of(Rule::Description, vec![part_node(Rule::Text, "y")]),
        ],
    );
    assert_eq!(
        build_task(&node),
        Ok(Task {
            priority: Some(Priority::P2),
            status: Status::Todo,
            description: vec![DescriptionPart::Text("y".to_string())],
        })
    );
}

#[test]
fn file_without_a_tree_is_empty() {
    assert_eq!(build_file(None), Err(ParseError::EmptyFile));
}

#[test]
fn file_skips_empty_lines() {
    let root = node_of(
        Rule::File,
        vec![
            leaf_of(Rule::EmptyLine, ""),
            node_of(Rule::Task, vec![status_of(Rule::Incomplete)]),
            leaf_of(Rule::EmptyLine, "  "),
            node_of(Rule::Task, vec![leaf_of(Rule::Priority, "*"), status_of(Rule::Complete)]),
        ],
    );
    let expected = vec![
        Task { priority: None, status: Status::Todo, description: vec![] },
        Task { priority: Some(Priority::P3), status: Status::Done, description: vec![] },
    ];
    assert_eq!(build_file(Some(&root)), Ok(expected.clone()));
    assert_eq!(build_lines(&root), Ok(expected));
    assert_eq!(build_file(Some(&node_of(Rule::File, vec![]))), Ok(vec![]));
}

#[test]
fn file_stops_at_the_first_task_without_status() {
    let root = node_of(
        Rule::File,
        vec![
            node_of(Rule::Task, vec![status_of(Rule::Incomplete)]),
            node_of(Rule::Task, vec![leaf_of(Rule::Priority, "*")]),
            node_of(Rule::Task, vec![status_of(Rule::Complete)]),
        ],
    );
    assert_eq!(build_file(Some(&root)), Err(ParseError::MissingStatus));
}
