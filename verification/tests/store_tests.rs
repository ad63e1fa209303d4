use todo_list::todo::{MutationRequest, Todo, Todos};

fn todo(completed: bool, name: &str) -> Todo {
    Todo::new(completed, name.to_string())
}

#[test]
fn to_line_completed() {
    assert_eq!(todo(true, "buy milk").to_line(), "1;buy milk");
}

#[test]
fn to_line_open() {
    assert_eq!(todo(false, "water plants").to_line(), "0;water plants");
}

#[test]
fn parse_line_completed() {
    let t = Todo::parse_line("1;milk").unwrap();
    assert!(t.completed);
    assert_eq!(t.name, "milk");
}

#[test]
fn parse_line_open() {
    let t = Todo::parse_line("0;a b").unwrap();
    assert!(!t.completed);
    assert_eq!(t.name, "a b");
}

#[test]
fn parse_line_keeps_later_semicolons() {
    let t = Todo::parse_line("0;a;b").unwrap();
    assert!(!t.completed);
    assert_eq!(t.name, "a;b");
}

#[test]
fn parse_line_other_flag_reads_as_open() {
    let t = Todo::parse_line("2;task").unwrap();
    assert!(!t.completed);
    assert_eq!(t.name, "task");
}

#[test]
fn parse_line_rejects_empty() {
    assert!(Todo::parse_line("").is_none());
}

#[test]
fn parse_line_rejects_short() {
    assert!(Todo::parse_line("0;").is_none());
}

#[test]
fn parse_line_rejects_missing_semicolon() {
    assert!(Todo::parse_line("abc").is_none());
}

#[test]
fn render_two_items() {
    let mut ts = Todos::new();
    ts.add_todo(todo(false, "a"));
    ts.add_todo(todo(true, "b"));
    assert_eq!(ts.render(), "0;a\n1;b\n");
}

#[test]
fn render_empty_list() {
    assert_eq!(Todos::new().render(), "");
}

#[test]
fn load_two_items() {
    let ts = Todos::load("0;a\n1;b\n").unwrap();
    assert_eq!(ts.0, vec![todo(false, "a"), todo(true, "b")]);
}

#[test]
fn load_without_trailing_newline() {
    let ts = Todos::load("0;a").unwrap();
    assert_eq!(ts.0, vec![todo(false, "a")]);
}

#[test]
fn load_empty_content() {
    let ts = Todos::load("").unwrap();
    assert!(ts.0.is_empty());
}

#[test]
fn load_rejects_malformed_line() {
    assert!(Todos::load("0;a\nxx\n").is_none());
}

#[test]
fn load_rejects_blank_interior_line() {
    assert!(Todos::load("0;a\n\n1;b\n").is_none());
}

#[test]
fn round_trip_preserves_list() {
    let mut ts = Todos::new();
    ts.add_todo(todo(false, "water plants"));
    ts.add_todo(todo(true, "pay rent; soon"));
    ts.add_todo(todo(false, "c"));
    let reloaded = Todos::load(ts.render().as_str()).unwrap();
    assert_eq!(reloaded.0, ts.0);
}

#[test]
fn persist_twice_is_identical() {
    let mut ts = Todos::new();
    ts.add_todo(todo(true, "a"));
    ts.add_todo(todo(false, "b c"));
    let first = ts.render();
    let second = ts.render();
    assert_eq!(first, second);
}

#[test]
fn apply_add_appends() {
    let mut ts = Todos::new();
    ts.apply_mutation(MutationRequest::Add(todo(false, "a")));
    ts.apply_mutation(MutationRequest::Add(todo(true, "b")));
    assert_eq!(ts.0, vec![todo(false, "a"), todo(true, "b")]);
    assert_eq!(ts.len(), 2);
}

#[test]
fn apply_update_replaces_in_place() {
    let mut ts = Todos::new();
    ts.add_todo(todo(false, "a"));
    ts.add_todo(todo(false, "b"));
    ts.apply_mutation(MutationRequest::Update(1, todo(true, "b")));
    assert_eq!(ts.0, vec![todo(false, "a"), todo(true, "b")]);
}

#[test]
fn apply_remove_deletes_indexed_item() {
    let mut ts = Todos::new();
    ts.add_todo(todo(false, "a"));
    ts.add_todo(todo(false, "b"));
    ts.add_todo(todo(false, "c"));
    ts.apply_mutation(MutationRequest::Remove(1));
    assert_eq!(ts.0, vec![todo(false, "a"), todo(false, "c")]);
}

#[test]
fn apply_remove_on_empty_list_is_noop() {
    let mut ts = Todos::new();
    ts.apply_mutation(MutationRequest::Remove(0));
    assert!(ts.0.is_empty());
}
