use streamson::cli::{
    add_handler_to_group, add_matcher_to_group, alias_to_handler_name, handlers_for_strategy,
    make_handler, make_matcher, split_argument, str_to_vec, usize_validator,
};
use streamson::handler::Handler;
use streamson::matcher::MatchMaker;
use streamson::path::Path;
use streamson::streamer::ParsedKind;

#[test]
fn split_full_argument() {
    let (name, groups, options, definition) = split_argument(r#"simple.first,second:{"users"}[]"#);
    assert_eq!(name, "simple");
    assert_eq!(groups, vec!["first".to_string()]);
    assert_eq!(options, vec!["second".to_string()]);
    assert_eq!(definition, r#"{"users"}[]"#);
}

#[test]
fn split_name_only() {
    let (name, groups, options, definition) = split_argument("depth");
    assert_eq!(name, "depth");
    assert_eq!(groups, vec!["".to_string()]);
    assert!(options.is_empty());
    assert_eq!(definition, "");
}

#[test]
fn split_definition_with_colons() {
    let (name, groups, options, definition) = split_argument("f.g,true,x:/tmp/a:b");
    assert_eq!(name, "f");
    assert_eq!(groups, vec!["g".to_string()]);
    assert_eq!(options, vec!["true".to_string(), "x".to_string()]);
    assert_eq!(definition, "/tmp/a:b");
}

#[test]
fn validate_sizes() {
    assert!(usize_validator("10").is_ok());
    assert!(usize_validator("0").is_err());
    assert!(usize_validator("x").is_err());
    assert!(usize_validator("").is_err());
}

#[test]
fn strategy_handlers() {
    assert_eq!(handlers_for_strategy("all"), vec!["analyser", "indenter"]);
    assert_eq!(
        handlers_for_strategy("convert"),
        vec!["file", "regex", "replace", "shorten", "unstringify"]
    );
    assert_eq!(
        handlers_for_strategy("trigger"),
        vec!["file", "regex", "shorten", "unstringify"]
    );
}

#[test]
fn handler_aliases() {
    assert_eq!(alias_to_handler_name("a"), "analyser");
    assert_eq!(alias_to_handler_name("i"), "indenter");
    assert_eq!(alias_to_handler_name("x"), "regex");
    assert_eq!(alias_to_handler_name("unknown"), "unknown");
}

#[test]
fn matchers_from_definitions() {
    let m = make_matcher("s", r#"{"users"}[]"#).unwrap();
    assert!(m.match_path(&Path::try_from(r#"{"users"}[3]"#).unwrap(), ParsedKind::Obj));
    let m = make_matcher("depth", "1-1").unwrap();
    assert!(m.match_path(&Path::try_from(r#"{"users"}"#).unwrap(), ParsedKind::Arr));
    assert!(make_matcher("x", "(").is_err());
    assert!(make_matcher("unknown", "").is_err());
    assert!(make_matcher("simple", "{").is_err());
}

#[test]
fn handlers_from_definitions() {
    let no_options: Vec<String> = vec![];
    assert!(matches!(
        make_handler("r", "***", &no_options, "convert").unwrap(),
        Handler::Replace(_)
    ));
    // replace is not a part of the trigger strategy
    assert!(make_handler("r", "***", &no_options, "trigger").is_err());
    assert!(matches!(
        make_handler("f", "/tmp/out", &vec!["true".to_string()], "extract").unwrap(),
        Handler::Output(_)
    ));
    assert!(make_handler("f", "/tmp/out", &vec!["1".to_string()], "extract").is_err());
    assert!(make_handler("a", "", &vec!["x".to_string()], "all").is_err());
    assert!(matches!(
        make_handler("i", "2", &no_options, "all").unwrap(),
        Handler::Indenter(_)
    ));
}

#[test]
fn bytes_of_string() {
    assert_eq!(str_to_vec("ab€"), "ab€".as_bytes().to_vec());
}

#[test]
fn matchers_grouped_by_name() {
    let mut groups = vec![];
    add_matcher_to_group(&mut groups, "a".to_string(), make_matcher("s", r#"{"x"}"#).unwrap());
    add_matcher_to_group(&mut groups, "b".to_string(), make_matcher("s", r#"{"y"}"#).unwrap());
    add_matcher_to_group(&mut groups, "a".to_string(), make_matcher("s", r#"{"z"}"#).unwrap());
    assert_eq!(groups.len(), 2);
    assert_eq!(groups[0].0, "a");
    assert_eq!(groups[1].0, "b");
    let path = |p: &str| Path::try_from(p).unwrap();
    assert!(groups[0].1.match_path(&path(r#"{"x"}"#), ParsedKind::Num));
    assert!(groups[0].1.match_path(&path(r#"{"z"}"#), ParsedKind::Num));
    assert!(!groups[0].1.match_path(&path(r#"{"y"}"#), ParsedKind::Num));
    assert!(groups[1].1.match_path(&path(r#"{"y"}"#), ParsedKind::Num));
}

#[test]
fn handlers_grouped_by_name() {
    let no_options: Vec<String> = vec![];
    let mut groups = vec![];
    add_handler_to_group(&mut groups, "".to_string(), make_handler("s", "5", &no_options, "convert").unwrap());
    add_handler_to_group(&mut groups, "g".to_string(), make_handler("u", "", &no_options, "convert").unwrap());
    add_handler_to_group(&mut groups, "".to_string(), make_handler("r", "x", &no_options, "convert").unwrap());
    assert_eq!(groups.len(), 2);
    assert_eq!(groups[0].0, "");
    assert_eq!(groups[0].1.len(), 2);
    assert!(matches!(groups[0].1[0], Handler::Shorten(_)));
    assert!(matches!(groups[0].1[1], Handler::Replace(_)));
    assert_eq!(groups[1].1.len(), 1);
}

fn handler_error(r: Result<Handler, streamson::error::Handler>) -> String {
    match r {
        Ok(_) => panic!("an error was expected"),
        Err(e) => e.reason,
    }
}

#[test]
fn handler_error_messages() {
    let no_options: Vec<String> = vec![];
    assert_eq!(
        handler_error(make_handler("r", "***", &no_options, "trigger")),
        "handler `r` can not be used in `trigger` strategy."
    );
    assert_eq!(
        handler_error(make_handler("r", "null", &vec!["x".to_string()], "convert")),
        "Wrong file handler options number 1"
    );
    assert_eq!(
        handler_error(make_handler(
            "f",
            "/tmp/out",
            &vec!["true".to_string(), "x".to_string()],
            "extract"
        )),
        "Wrong file handler options number 2"
    );
    assert_eq!(
        handler_error(make_handler("f", "/tmp/out", &vec!["1".to_string()], "extract")),
        "provided string was not `true` or `false`"
    );
    // `d` is no alias of a handler
    assert!(make_handler("d", "2", &no_options, "all").is_err());
}

#[test]
fn validator_messages() {
    assert_eq!(usize_validator("5"), Ok(()));
    assert_eq!(usize_validator("+5"), Ok(()));
    assert_eq!(usize_validator("0"), Err("Buffer can't have 0 size".to_string()));
    assert_eq!(usize_validator(""), Err("cannot parse integer from empty string".to_string()));
    assert_eq!(usize_validator("5x"), Err("invalid digit found in string".to_string()));
    assert_eq!(usize_validator("+"), Err("invalid digit found in string".to_string()));
    assert_eq!(
        usize_validator("99999999999999999999"),
        Err("number too large to fit in target type".to_string())
    );
    assert_eq!(
        usize_validator("99999999999999999999x"),
        Err("number too large to fit in target type".to_string())
    );
}

#[test]
fn matcher_error_messages() {
    let m = make_matcher("depth", "4").unwrap();
    assert!(m.match_path(&Path::try_from(r#"[1][2][3][4]"#).unwrap(), ParsedKind::Num));
    assert!(!m.match_path(&Path::try_from(r#"[1][2][3]"#).unwrap(), ParsedKind::Num));
    match make_matcher("unknown", "") {
        Err(streamson::error::Matcher::Parse(m)) => assert_eq!(m, "Unknown type unknown"),
        _ => panic!("an error was expected"),
    }
    match make_matcher("d", "4-3") {
        Err(streamson::error::Matcher::Parse(m)) => assert_eq!(m, "4-3"),
        _ => panic!("an error was expected"),
    }
}

#[test]
fn definition_error_messages() {
    let no_options: Vec<String> = vec![];
    assert!(handler_error(make_handler("x", "q/a/b/", &no_options, "convert"))
        .starts_with("Parsing error: "));
    assert_eq!(
        handler_error(make_handler("i", "x", &no_options, "all")),
        "invalid digit found in string"
    );
    assert_eq!(
        handler_error(make_handler("a", "yes", &no_options, "all")),
        "provided string was not `true` or `false`"
    );
    match make_matcher("x", "(") {
        Err(streamson::error::Matcher::Parse(m)) => {
            assert_eq!(m, regex::Regex::new("(").unwrap_err().to_string())
        }
        _ => panic!("an error was expected"),
    }
}
