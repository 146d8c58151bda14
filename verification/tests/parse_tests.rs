use todo_list_parser::{
    parse_file, DescriptionPart, ParseError, Priority, Rule, Status, SyntaxError, Task,
};

fn text(s: &str) -> DescriptionPart {
    DescriptionPart::Text(s.to_string())
}

fn tag(s: &str) -> DescriptionPart {
    DescriptionPart::Tag(s.to_string())
}

fn due(s: &str) -> DescriptionPart {
    DescriptionPart::DueDate(s.to_string())
}

fn start(s: &str) -> DescriptionPart {
    DescriptionPart::StartDate(s.to_string())
}

fn task(priority: Option<Priority>, status: Status, description: Vec<DescriptionPart>) -> Task {
    Task { priority, status, description }
}

fn syntax(position: usize, expected: Vec<Rule>) -> ParseError {
    ParseError::Syntax(SyntaxError { position, expected })
}

#[test]
fn buy_milk() {
    assert_eq!(
        parse_file("[TODO] Buy milk\n"),
        Ok(vec![task(None, Status::Todo, vec![text("Buy milk")])])
    );
}

#[test]
fn ship_with_date_and_tag() {
    assert_eq!(
        parse_file("** [DOING] Ship @2025-11-15 +release\n"),
        Ok(vec![task(
            Some(Priority::P2),
            Status::Doing,
            vec![text("Ship"), due("@2025-11-15"), tag("+release")]
        )])
    );
}

#[test]
fn each_status_alone() {
    assert_eq!(parse_file("[TODO]"), Ok(vec![task(None, Status::Todo, vec![])]));
    assert_eq!(parse_file("[DOING]"), Ok(vec![task(None, Status::Doing, vec![])]));
    assert_eq!(parse_file("[DONE]"), Ok(vec![task(None, Status::Done, vec![])]));
    assert_eq!(parse_file("[DONE]\n"), Ok(vec![task(None, Status::Done, vec![])]));
}

#[test]
fn each_priority() {
    assert_eq!(parse_file("* [TODO]\n"), Ok(vec![task(Some(Priority::P3), Status::Todo, vec![])]));
    assert_eq!(parse_file("** [TODO]\n"), Ok(vec![task(Some(Priority::P2), Status::Todo, vec![])]));
    assert_eq!(
        parse_file("*** [TODO]\n"),
        Ok(vec![task(Some(Priority::P1), Status::Todo, vec![])])
    );
    assert_eq!(parse_file("[TODO]\n"), Ok(vec![task(None, Status::Todo, vec![])]));
}

#[test]
fn priority_without_space() {
    assert_eq!(
        parse_file("***[DONE]x"),
        Ok(vec![task(Some(Priority::P1), Status::Done, vec![text("x")])])
    );
}

#[test]
fn four_stars_are_refused() {
    assert_eq!(parse_file("**** [TODO] a\n"), Err(syntax(3, vec![Rule::Status])));
}

#[test]
fn parts_keep_their_order() {
    assert_eq!(
        parse_file("[TODO] +a one ^2025-01-02 two  three @2025-03-04 +b\n"),
        Ok(vec![task(
            None,
            Status::Todo,
            vec![
                tag("+a"),
                text("one"),
                start("^2025-01-02"),
                text("two  three"),
                due("@2025-03-04"),
                tag("+b"),
            ]
        )])
    );
}

#[test]
fn tag_with_other_letters() {
    assert_eq!(
        parse_file("[TODO] +документація\n"),
        Ok(vec![task(None, Status::Todo, vec![tag("+документація")])])
    );
}

#[test]
fn positions_count_characters() {
    assert_eq!(
        parse_file("[TODO] їжа\n* x\n"),
        Err(syntax(13, vec![Rule::Status]))
    );
}

#[test]
fn blank_lines_are_dropped() {
    let input = "\n  \n[TODO] a\n\n\t\n* [DONE] b\r\n\n[DOING] c";
    assert_eq!(
        parse_file(input),
        Ok(vec![
            task(None, Status::Todo, vec![text("a")]),
            task(Some(Priority::P3), Status::Done, vec![text("b")]),
            task(None, Status::Doing, vec![text("c")]),
        ])
    );
}

#[test]
fn leading_spaces_before_a_task() {
    assert_eq!(
        parse_file("   [TODO]   a  \n"),
        Ok(vec![task(None, Status::Todo, vec![text("a")])])
    );
}

#[test]
fn line_without_status() {
    assert_eq!(parse_file("Buy milk\n"), Err(syntax(0, vec![Rule::Priority, Rule::Status])));
    assert_eq!(parse_file("** Buy milk\n"), Err(syntax(3, vec![Rule::Status])));
    assert_eq!(
        parse_file("[TODO] a\n  [todo] b\n"),
        Err(syntax(11, vec![Rule::Priority, Rule::Status]))
    );
    assert_eq!(parse_file("[TODO\n"), Err(syntax(0, vec![Rule::Priority, Rule::Status])));
}

#[test]
fn empty_input_has_no_tasks() {
    assert_eq!(parse_file(""), Ok(vec![]));
}

#[test]
fn blank_input_has_no_tasks() {
    assert_eq!(parse_file("\n"), Ok(vec![]));
    assert_eq!(parse_file("  \t \n\n   "), Ok(vec![]));
}

#[test]
fn things_that_only_look_like_tokens() {
    assert_eq!(
        parse_file("[TODO] mail @home + 1 ^top @2025-1-01\n"),
        Ok(vec![task(None, Status::Todo, vec![text("mail @home + 1 ^top @2025-1-01")])])
    );
}

#[test]
fn token_inside_a_word_ends_the_text() {
    assert_eq!(
        parse_file("[TODO] a+b c@2025-11-15d\n"),
        Ok(vec![task(
            None,
            Status::Todo,
            vec![text("a"), tag("+b"), text("c"), due("@2025-11-15"), text("d")]
        )])
    );
}
