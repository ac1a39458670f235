use streamson::path::{Element, Path};

#[test]
fn test_path_from_string_empty() {
    assert!(Path::try_from("").is_ok());
}

#[test]
fn test_path_from_string_array() {
    let mut path = Path::new();
    path.push(Element::Root);
    path.push(Element::Index(0));
    assert_eq!(Path::try_from("[0]").unwrap(), path);
}

#[test]
fn test_path_from_string_object() {
    let mut path = Path::new();
    path.push(Element::Root);
    path.push(Element::Key(r#"my-ke\\y\" "#.into()));
    assert_eq!(Path::try_from(r#"{"my-ke\\y\" "}"#).unwrap(), path);
}

#[test]
fn path_display_round_trip() {
    let path = Path::try_from(r#"{"users"}[10]{"name"}"#).unwrap();
    assert_eq!(path.to_string(), r#"{"users"}[10]{"name"}"#);
    assert_eq!(path.depth(), 3);
}

#[test]
fn path_invalid() {
    assert!(Path::try_from(r#"{"users"#).is_err());
    assert!(Path::try_from(r#"[1"#).is_err());
    assert!(Path::try_from(r#"x"#).is_err());
    assert!(Path::try_from(r#"{x}"#).is_err());
}

#[test]
fn path_pop_keeps_root() {
    let mut path = Path::try_from(r#"{"a"}[1]"#).unwrap();
    path.pop();
    assert_eq!(path, Path::try_from(r#"{"a"}"#).unwrap());
    assert_eq!(path.depth(), 1);
}

fn path_error(s: &str) -> String {
    match Path::try_from(s) {
        Ok(_) => panic!("an error was expected"),
        Err(e) => e.path,
    }
}

#[test]
fn malformed_paths() {
    assert_eq!(path_error("[]"), "[]");
    assert_eq!(path_error("[a]"), "[a]");
    assert_eq!(path_error("[99999999999999999999]"), "[99999999999999999999]");
    assert_eq!(path_error(r#"{"a"}[1"#), r#"{"a"}[1"#);
}
