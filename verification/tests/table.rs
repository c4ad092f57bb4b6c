use path_router::{parse_template, split_path, Handler, RouteTable, RouterError, Segment};

fn h(id: u64) -> Handler {
    Handler { id }
}

#[test]
fn split_path_pieces() {
    assert_eq!(split_path(""), vec!["".to_string()]);
    assert_eq!(split_path("/"), vec!["".to_string(), "".to_string()]);
    assert_eq!(
        split_path("/a/b"),
        vec!["".to_string(), "a".to_string(), "b".to_string()]
    );
    assert_eq!(
        split_path("/a/"),
        vec!["".to_string(), "a".to_string(), "".to_string()]
    );
    assert_eq!(
        split_path("a//b"),
        vec!["a".to_string(), "".to_string(), "b".to_string()]
    );
}

#[test]
fn parse_template_segments() {
    let segs = parse_template("/users/{id}");
    assert_eq!(segs.len(), 3);
    assert!(matches!(&segs[0], Segment::Fixed { text } if text.is_empty()));
    assert!(matches!(&segs[1], Segment::Fixed { text } if text == "users"));
    assert!(matches!(&segs[2], Segment::Param { name } if name == "id"));
    // A piece not wrapped in the full brace pair stays fixed text.
    let odd = parse_template("/x{y}/{z");
    assert!(matches!(&odd[1], Segment::Fixed { text } if text == "x{y}"));
    assert!(matches!(&odd[2], Segment::Fixed { text } if text == "{z"));
}

#[test]
fn empty_table_matches_nothing() {
    let table = RouteTable::new();
    assert!(table.lookup("/").is_none());
    assert!(table.lookup("").is_none());
    assert!(table.lookup("/a/b").is_none());
}

#[test]
fn table_insert_then_lookup() {
    let mut table = RouteTable::new();
    table.insert("/items/{key}", h(1)).unwrap();
    let (handler, params) = table.lookup("/items/knife").unwrap();
    assert_eq!(handler, h(1));
    assert_eq!(params, vec![("key".to_string(), "knife".to_string())]);
}

#[test]
fn table_fallback_order() {
    let mut table = RouteTable::new();
    table.insert("/a", h(1)).unwrap();
    table.insert("/b/", h(2)).unwrap();
    assert_eq!(table.lookup("/a/"), Some((h(1), vec![])));
    assert_eq!(table.lookup("/b"), Some((h(2), vec![])));
    assert!(table.lookup("/c").is_none());
}

#[test]
fn table_conflict_error_and_untouched() {
    let mut table = RouteTable::new();
    table.insert("/x/{a}/y", h(1)).unwrap();
    assert_eq!(
        table.insert("/x/fixed/y", h(2)),
        Err(RouterError::TemplateConflict)
    );
    assert_eq!(
        table.lookup("/x/fixed/y"),
        Some((h(1), vec![("a".to_string(), "fixed".to_string())]))
    );
}

#[test]
fn table_distinguishes_lengths() {
    let mut table = RouteTable::new();
    table.insert("/a/{x}", h(1)).unwrap();
    table.insert("/a/{x}/{y}", h(2)).unwrap();
    assert_eq!(
        table.lookup("/a/1"),
        Some((h(1), vec![("x".to_string(), "1".to_string())]))
    );
    assert_eq!(
        table.lookup("/a/1/2"),
        Some((
            h(2),
            vec![
                ("x".to_string(), "1".to_string()),
                ("y".to_string(), "2".to_string())
            ]
        ))
    );
}
