use todo_list_parser::grammar::parse_chars;
use todo_list_parser::text::{chars_of, slice_string};
use todo_list_parser::{Grammar, Node, Rule, SyntaxError};

fn leaf(rule: Rule, start: usize, text: &str) -> Node {
    Node { rule, start, end: start + text.chars().count(), text: text.to_string(), children: vec![] }
}

fn branch(rule: Rule, start: usize, text: &str, children: Vec<Node>) -> Node {
    Node { rule, start, end: start + text.chars().count(), text: text.to_string(), children }
}

fn refused(position: usize, expected: Vec<Rule>) -> Result<Node, SyntaxError> {
    Err(SyntaxError { position, expected })
}

#[test]
fn chars_and_back() {
    let chars = chars_of("aї\u{1F600}b");
    assert_eq!(chars, vec!['a', 'ї', '\u{1F600}', 'b']);
    assert_eq!(slice_string(&chars, 1, 3), "ї\u{1F600}");
    assert_eq!(slice_string(&chars, 0, 4), "aї\u{1F600}b");
    assert_eq!(slice_string(&chars, 2, 2), "");
    assert_eq!(chars_of(""), vec![]);
}

#[test]
fn tree_of_a_file() {
    let input = "** [DOING] Ship @2025-11-15 +release\n\n  [DONE]\n";
    let task_text = "** [DOING] Ship @2025-11-15 +release";
    let expected = branch(
        Rule::File,
        0,
        input,
        vec![
            branch(
                Rule::Task,
                0,
                task_text,
                vec![
                    leaf(Rule::Priority, 0, "**"),
                    branch(Rule::Status, 3, "[DOING]", vec![leaf(Rule::InProgress, 4, "DOING")]),
                    branch(
                        Rule::Description,
                        11,
                        "Ship @2025-11-15 +release",
                        vec![
                            branch(
                                Rule::DescriptionPart,
                                11,
                                "Ship",
                                vec![leaf(Rule::Text, 11, "Ship")],
                            ),
                            branch(
                                Rule::DescriptionPart,
                                16,
                                "@2025-11-15",
                                vec![leaf(Rule::DueDate, 16, "@2025-11-15")],
                            ),
                            branch(
                                Rule::DescriptionPart,
                                28,
                                "+release",
                                vec![leaf(Rule::Tag, 28, "+release")],
                            ),
                        ],
                    ),
                ],
            ),
            leaf(Rule::EmptyLine, 37, ""),
            branch(
                Rule::Task,
                40,
                "[DONE]",
                vec![branch(Rule::Status, 40, "[DONE]", vec![leaf(Rule::Complete, 41, "DONE")])],
            ),
        ],
    );
    assert_eq!(Grammar::parse(Rule::File, input), Ok(expected));
}

#[test]
fn file_rule_on_empty_input() {
    assert_eq!(Grammar::parse(Rule::File, ""), Ok(branch(Rule::File, 0, "", vec![])));
}

#[test]
fn file_rule_refuses_a_line_without_status() {
    assert_eq!(
        Grammar::parse(Rule::File, "[DONE] a\nb\n"),
        refused(9, vec![Rule::Priority, Rule::Status])
    );
}

#[test]
fn task_rule() {
    assert_eq!(
        Grammar::parse(Rule::Task, "*[TODO]"),
        Ok(branch(
            Rule::Task,
            0,
            "*[TODO]",
            vec![
                leaf(Rule::Priority, 0, "*"),
                branch(Rule::Status, 1, "[TODO]", vec![leaf(Rule::Incomplete, 2, "TODO")]),
            ],
        ))
    );
    assert_eq!(Grammar::parse(Rule::Task, " [TODO]"), refused(0, vec![Rule::Priority, Rule::Status]));
    assert_eq!(Grammar::parse(Rule::Task, "*  x"), refused(3, vec![Rule::Status]));
    assert_eq!(Grammar::parse(Rule::Task, ""), refused(0, vec![Rule::Priority, Rule::Status]));
}

#[test]
fn task_rule_stops_at_the_line_end() {
    let tree = Grammar::parse(Rule::Task, "[TODO] a \n[DONE] b").unwrap();
    assert_eq!(tree.end, 8);
    assert_eq!(tree.text, "[TODO] a");
}

#[test]
fn empty_line_rule() {
    assert_eq!(Grammar::parse(Rule::EmptyLine, " \t\nx"), Ok(leaf(Rule::EmptyLine, 0, " \t")));
    assert_eq!(Grammar::parse(Rule::EmptyLine, ""), Ok(leaf(Rule::EmptyLine, 0, "")));
    assert_eq!(Grammar::parse(Rule::EmptyLine, "  x"), refused(2, vec![Rule::EmptyLine]));
}

#[test]
fn priority_rule() {
    assert_eq!(Grammar::parse(Rule::Priority, "**"), Ok(leaf(Rule::Priority, 0, "**")));
    assert_eq!(Grammar::parse(Rule::Priority, "*****"), Ok(leaf(Rule::Priority, 0, "***")));
    assert_eq!(Grammar::parse(Rule::Priority, "x*"), refused(0, vec![Rule::Priority]));
    assert_eq!(Grammar::parse(Rule::Priority, ""), refused(0, vec![Rule::Priority]));
}

#[test]
fn status_rule_refusals() {
    assert_eq!(Grammar::parse(Rule::Status, "[todo]"), refused(0, vec![Rule::Status]));
    assert_eq!(Grammar::parse(Rule::Status, "[TODO"), refused(0, vec![Rule::Status]));
    assert_eq!(Grammar::parse(Rule::Status, "[DON]"), refused(0, vec![Rule::Status]));
    assert_eq!(Grammar::parse(Rule::Status, "[ DONE]"), refused(0, vec![Rule::Status]));
    assert_eq!(Grammar::parse(Rule::Status, "[x]"), refused(0, vec![Rule::Status]));
    assert_eq!(Grammar::parse(Rule::Status, ""), refused(0, vec![Rule::Status]));
}

#[test]
fn marker_rules() {
    assert_eq!(Grammar::parse(Rule::Complete, "DONE]"), Ok(leaf(Rule::Complete, 0, "DONE")));
    assert_eq!(Grammar::parse(Rule::Incomplete, "TODO"), Ok(leaf(Rule::Incomplete, 0, "TODO")));
    assert_eq!(Grammar::parse(Rule::InProgress, "DOINGS"), Ok(leaf(Rule::InProgress, 0, "DOING")));
    assert_eq!(Grammar::parse(Rule::Complete, "DOING"), refused(0, vec![Rule::Complete]));
    assert_eq!(Grammar::parse(Rule::Incomplete, "TOD"), refused(0, vec![Rule::Incomplete]));
    assert_eq!(Grammar::parse(Rule::InProgress, "DONE"), refused(0, vec![Rule::InProgress]));
}

#[test]
fn description_rule() {
    assert_eq!(
        Grammar::parse(Rule::Description, "  a +b  \nc"),
        Ok(branch(
            Rule::Description,
            2,
            "a +b",
            vec![
                branch(Rule::DescriptionPart, 2, "a", vec![leaf(Rule::Text, 2, "a")]),
                branch(Rule::DescriptionPart, 4, "+b", vec![leaf(Rule::Tag, 4, "+b")]),
            ],
        ))
    );
    assert_eq!(Grammar::parse(Rule::Description, "  \n"), refused(2, vec![Rule::DescriptionPart]));
    assert_eq!(Grammar::parse(Rule::Description, ""), refused(0, vec![Rule::DescriptionPart]));
}

#[test]
fn description_part_rule() {
    assert_eq!(
        Grammar::parse(Rule::DescriptionPart, "^2025-01-02x"),
        Ok(branch(
            Rule::DescriptionPart,
            0,
            "^2025-01-02",
            vec![leaf(Rule::StartDate, 0, "^2025-01-02")],
        ))
    );
    assert_eq!(
        Grammar::parse(Rule::DescriptionPart, "x y  +z"),
        Ok(branch(Rule::DescriptionPart, 0, "x y", vec![leaf(Rule::Text, 0, "x y")]))
    );
    assert_eq!(Grammar::parse(Rule::DescriptionPart, " x"), refused(0, vec![Rule::DescriptionPart]));
    assert_eq!(Grammar::parse(Rule::DescriptionPart, "\n"), refused(0, vec![Rule::DescriptionPart]));
    assert_eq!(Grammar::parse(Rule::DescriptionPart, ""), refused(0, vec![Rule::DescriptionPart]));
}

#[test]
fn tag_rule() {
    assert_eq!(Grammar::parse(Rule::Tag, "+a+b@c rest"), Ok(leaf(Rule::Tag, 0, "+a+b@c")));
    assert_eq!(Grammar::parse(Rule::Tag, "+a\tb"), Ok(leaf(Rule::Tag, 0, "+a")));
    assert_eq!(Grammar::parse(Rule::Tag, "+a\rb"), Ok(leaf(Rule::Tag, 0, "+a")));
    assert_eq!(Grammar::parse(Rule::Tag, "+"), refused(0, vec![Rule::Tag]));
    assert_eq!(Grammar::parse(Rule::Tag, "+ a"), refused(0, vec![Rule::Tag]));
    assert_eq!(Grammar::parse(Rule::Tag, "+\n"), refused(0, vec![Rule::Tag]));
    assert_eq!(Grammar::parse(Rule::Tag, "a"), refused(0, vec![Rule::Tag]));
}

#[test]
fn date_rules() {
    assert_eq!(
        Grammar::parse(Rule::DueDate, "@0000-99-99!"),
        Ok(leaf(Rule::DueDate, 0, "@0000-99-99"))
    );
    assert_eq!(
        Grammar::parse(Rule::StartDate, "^2025-01-02"),
        Ok(leaf(Rule::StartDate, 0, "^2025-01-02"))
    );
    assert_eq!(Grammar::parse(Rule::DueDate, "@2025-1-02"), refused(0, vec![Rule::DueDate]));
    assert_eq!(Grammar::parse(Rule::DueDate, "@2025-01-0"), refused(0, vec![Rule::DueDate]));
    assert_eq!(Grammar::parse(Rule::DueDate, "@2025/01/02"), refused(0, vec![Rule::DueDate]));
    assert_eq!(Grammar::parse(Rule::DueDate, "@２０２５-01-02"), refused(0, vec![Rule::DueDate]));
    assert_eq!(Grammar::parse(Rule::DueDate, "^2025-01-02"), refused(0, vec![Rule::DueDate]));
    assert_eq!(Grammar::parse(Rule::StartDate, "@2025-01-02"), refused(0, vec![Rule::StartDate]));
    assert_eq!(Grammar::parse(Rule::StartDate, ""), refused(0, vec![Rule::StartDate]));
}

#[test]
fn text_rule() {
    assert_eq!(Grammar::parse(Rule::Text, "a b  \n"), Ok(leaf(Rule::Text, 0, "a b")));
    assert_eq!(Grammar::parse(Rule::Text, "a+b"), Ok(leaf(Rule::Text, 0, "a")));
    assert_eq!(Grammar::parse(Rule::Text, "@home"), Ok(leaf(Rule::Text, 0, "@home")));
    assert_eq!(Grammar::parse(Rule::Text, "+ x"), Ok(leaf(Rule::Text, 0, "+ x")));
    assert_eq!(Grammar::parse(Rule::Text, "+x"), refused(0, vec![Rule::Text]));
    assert_eq!(Grammar::parse(Rule::Text, " x"), refused(0, vec![Rule::Text]));
    assert_eq!(Grammar::parse(Rule::Text, ""), refused(0, vec![Rule::Text]));
}

#[test]
fn parse_chars_is_parse() {
    let input = "* [TODO] a\n";
    assert_eq!(parse_chars(Rule::File, &chars_of(input)), Grammar::parse(Rule::File, input));
}

fn nested_in(node: &Node, input: &[char]) -> bool {
    let text: String = input[node.start..node.end].iter().collect();
    let mut at = node.start;
    for child in &node.children {
        if child.start < at || child.end > node.end || !nested_in(child, input) {
            return false;
        }
        at = child.end;
    }
    node.text == text
}

#[test]
fn nodes_lie_inside_their_parents() {
    let input = "  *** [DONE] ї +тег  x ^2025-01-01\r\n\n \t\n[TODO]\n* [DOING] @2025-01-01 a+b\n";
    let tree = Grammar::parse(Rule::File, input).unwrap();
    assert_eq!(tree.rule, Rule::File);
    assert_eq!(tree.children.len(), 6);
    assert!(nested_in(&tree, &chars_of(input)));
}
