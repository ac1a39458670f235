use streamson::extractor::Extractor;
use streamson::matcher::{Combinator, Simple};

fn collect(extractor: &mut Extractor, input: &[u8]) -> Vec<(Option<String>, Vec<u8>)> {
    let mut buf = input.to_vec();
    let mut res = vec![];
    while let Some(item) = extractor.decode(&mut buf).unwrap() {
        res.push(item);
    }
    res
}

fn matcher() -> Combinator {
    Combinator::new(Simple::new(r#"{"users"}[]"#).unwrap())
        | Combinator::new(Simple::new(r#"{"groups"}[]"#).unwrap())
}

#[test]
fn with_included_path() {
    let mut extractor = Extractor::new(matcher(), true);
    let items = collect(
        &mut extractor,
        br#"{"users": ["mike","john"], "groups": ["admin", "staff"]}"#,
    );
    assert_eq!(
        items,
        vec![
            (Some(r#"{"users"}[0]"#.to_string()), br#""mike""#.to_vec()),
            (Some(r#"{"users"}[1]"#.to_string()), br#""john""#.to_vec()),
            (Some(r#"{"groups"}[0]"#.to_string()), br#""admin""#.to_vec()),
            (Some(r#"{"groups"}[1]"#.to_string()), br#""staff""#.to_vec()),
        ]
    );
}

#[test]
fn without_included_path() {
    let mut extractor = Extractor::new(matcher(), false);
    let items = collect(
        &mut extractor,
        br#"{"users": ["mike","john"], "groups": ["admin", "staff"]}"#,
    );
    assert_eq!(
        items,
        vec![
            (None, br#""mike""#.to_vec()),
            (None, br#""john""#.to_vec()),
            (None, br#""admin""#.to_vec()),
            (None, br#""staff""#.to_vec()),
        ]
    );
}

#[test]
fn multiple_json_input() {
    let mut extractor =
        Extractor::new(Combinator::new(Simple::new(r#"{"users"}[]"#).unwrap()), true);
    let items = collect(
        &mut extractor,
        br#"{"users": ["user1","user2", "user3"]} {"users": ["user4","user5"]}"#,
    );
    assert_eq!(
        items,
        vec![
            (Some(r#"{"users"}[0]"#.to_string()), br#""user1""#.to_vec()),
            (Some(r#"{"users"}[1]"#.to_string()), br#""user2""#.to_vec()),
            (Some(r#"{"users"}[2]"#.to_string()), br#""user3""#.to_vec()),
            (Some(r#"{"users"}[0]"#.to_string()), br#""user4""#.to_vec()),
            (Some(r#"{"users"}[1]"#.to_string()), br#""user5""#.to_vec()),
        ]
    );
}

#[test]
fn decode_in_chunks() {
    let input = br#"{"users": ["mike","john"]}"#;
    let mut extractor = Extractor::new(Simple::new(r#"{"users"}[]"#).unwrap(), false);
    let mut items = vec![];
    for part in input.chunks(3) {
        let mut buf = part.to_vec();
        while let Some(item) = extractor.decode(&mut buf).unwrap() {
            items.push(item.1);
        }
        assert!(buf.is_empty());
    }
    assert_eq!(items, vec![br#""mike""#.to_vec(), br#""john""#.to_vec()]);
}
