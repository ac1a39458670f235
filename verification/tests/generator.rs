use streamson::generator::StreamsonGenerator;
use streamson::matcher::Simple;

#[test]
fn test_empty() {
    let input = vec![b"{".to_vec(), b"}".to_vec()];

    let matcher = Simple::from_str(r#"{"users"}[]{"name"}"#).unwrap();
    let mut wrapped_generator = StreamsonGenerator::new(input, matcher);

    assert!(wrapped_generator.next().is_none());
}

#[test]
fn lib_test_basic() {
    let input = vec![
        b"{".to_vec(),
        br#""users": ["#.to_vec(),
        br#"{"name": "user1"},"#.to_vec(),
        br#"{"name": "user2"},"#.to_vec(),
        br#"{"name": "user3"}"#.to_vec(),
        b"]".to_vec(),
        b"}".to_vec(),
    ];

    let matcher = Simple::from_str(r#"{"users"}[]{"name"}"#).unwrap();
    let mut wrapped_generator = StreamsonGenerator::new(input, matcher);

    assert_eq!(
        wrapped_generator.next().unwrap().unwrap(),
        (
            r#"{"users"}[0]{"name"}"#.to_string(),
            br#""user1""#.to_vec()
        )
    );
    assert_eq!(
        wrapped_generator.next().unwrap().unwrap(),
        (
            r#"{"users"}[1]{"name"}"#.to_string(),
            br#""user2""#.to_vec()
        )
    );
    assert_eq!(
        wrapped_generator.next().unwrap().unwrap(),
        (
            r#"{"users"}[2]{"name"}"#.to_string(),
            br#""user3""#.to_vec()
        )
    );
    assert!(wrapped_generator.next().is_none());
}

#[test]
fn test_multiple_input() {
    let input = vec![
        br#"{"users": [{"name": "user1"},{"name": "user2"},{"name": "user3"}]}"#.to_vec(),
        br#"{"users": [{"name": "user4"},{"name": "user5"}]}"#.to_vec(),
    ];

    let matcher = Simple::from_str(r#"{"users"}[]{"name"}"#).unwrap();
    let mut wrapped_generator = StreamsonGenerator::new(input, matcher);

    assert_eq!(
        wrapped_generator.next().unwrap().unwrap(),
        (
            r#"{"users"}[0]{"name"}"#.to_string(),
            br#""user1""#.to_vec()
        )
    );
    assert_eq!(
        wrapped_generator.next().unwrap().unwrap(),
        (
            r#"{"users"}[1]{"name"}"#.to_string(),
            br#""user2""#.to_vec()
        )
    );
    assert_eq!(
        wrapped_generator.next().unwrap().unwrap(),
        (
            r#"{"users"}[2]{"name"}"#.to_string(),
            br#""user3""#.to_vec()
        )
    );
    assert_eq!(
        wrapped_generator.next().unwrap().unwrap(),
        (
            r#"{"users"}[0]{"name"}"#.to_string(),
            br#""user4""#.to_vec()
        )
    );
    assert_eq!(
        wrapped_generator.next().unwrap().unwrap(),
        (
            r#"{"users"}[1]{"name"}"#.to_string(),
            br#""user5""#.to_vec()
        )
    );
    assert!(wrapped_generator.next().is_none());
}

#[test]
fn generator_stops_after_error() {
    let input = vec![b"{\"users\": x".to_vec(), b"}".to_vec()];
    let matcher = Simple::from_str(r#"{"users"}"#).unwrap();
    let mut wrapped_generator = StreamsonGenerator::new(input, matcher);
    assert!(wrapped_generator.next().unwrap().is_err());
    assert!(wrapped_generator.next().is_none());
    assert!(wrapped_generator.next().is_none());
}
