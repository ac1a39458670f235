use streamson::matcher::{All, Combinator, Depth, MatchMaker, Regex, Simple};
use streamson::path::Path;
use streamson::streamer::ParsedKind;

#[test]
fn all_match_path() {
    let all = All::default();

    assert!(all.match_path(&Path::try_from(r#""#).unwrap(), ParsedKind::Obj));
    assert!(all.match_path(&Path::try_from(r#"{"Any"}"#).unwrap(), ParsedKind::Arr));
    assert!(all.match_path(
        &Path::try_from(r#"{"Any"}[0]{"Any"}"#).unwrap(),
        ParsedKind::Obj
    ));
}

#[test]
fn all_parse() {
    assert!(All::from_str("").is_ok());
    assert!(All::from_str("*").is_ok());
    assert!(All::from_str("all").is_ok());
    assert!(All::from_str(".*").is_ok());
    assert!(All::from_str("any string").is_ok());
}

#[test]
fn wrapper() {
    let comb = Combinator::new(Depth::new(1, Some(1)));
    assert!(comb.match_path(&Path::try_from(r#"{"People"}"#).unwrap(), ParsedKind::Arr));
    assert!(comb.match_path(&Path::try_from(r#"[0]"#).unwrap(), ParsedKind::Obj));
}

#[test]
fn not() {
    let comb = !Combinator::new(Depth::new(1, None));
    assert!(!comb.match_path(&Path::try_from(r#"{"People"}"#).unwrap(), ParsedKind::Arr));
    assert!(!comb.match_path(&Path::try_from(r#"[0]"#).unwrap(), ParsedKind::Obj));
    assert!(comb.match_path(&Path::try_from(r#""#).unwrap(), ParsedKind::Obj));
    assert!(!comb.match_path(
        &Path::try_from(r#"{"People"}[0]"#).unwrap(),
        ParsedKind::Obj
    ));
}

#[test]
fn and() {
    let comb = Combinator::new(Depth::new(1, Some(1)))
        & Combinator::new(Simple::new(r#"{}"#).unwrap());
    assert!(comb.match_path(&Path::try_from(r#"{"People"}"#).unwrap(), ParsedKind::Arr));
    assert!(!comb.match_path(&Path::try_from(r#"[0]"#).unwrap(), ParsedKind::Obj));
    assert!(!comb.match_path(&Path::try_from(r#""#).unwrap(), ParsedKind::Obj));
    assert!(!comb.match_path(
        &Path::try_from(r#"{"People"}[0]"#).unwrap(),
        ParsedKind::Obj
    ));
}

#[test]
fn or() {
    let comb = Combinator::new(Depth::new(1, Some(1)))
        | Combinator::new(Simple::new(r#"{}[0]"#).unwrap());
    assert!(comb.match_path(&Path::try_from(r#"{"People"}"#).unwrap(), ParsedKind::Arr));
    assert!(comb.match_path(&Path::try_from(r#"[0]"#).unwrap(), ParsedKind::Obj));
    assert!(!comb.match_path(&Path::try_from(r#""#).unwrap(), ParsedKind::Obj));
    assert!(comb.match_path(
        &Path::try_from(r#"{"People"}[0]"#).unwrap(),
        ParsedKind::Obj
    ));
    assert!(!comb.match_path(
        &Path::try_from(r#"{"People"}[1]"#).unwrap(),
        ParsedKind::Obj
    ));
}

#[test]
fn combinator_complex() {
    let comb1 = Combinator::new(Depth::new(1, Some(1)))
        | Combinator::new(Simple::new(r#"{}[0]"#).unwrap());
    let comb2 = Combinator::new(Depth::new(2, Some(2)))
        | Combinator::new(Simple::new(r#"{}"#).unwrap());
    let comb3 = !comb1 & comb2;

    assert!(!comb3.match_path(&Path::try_from(r#"{"People"}"#).unwrap(), ParsedKind::Arr));
    assert!(!comb3.match_path(&Path::try_from(r#"[0]"#).unwrap(), ParsedKind::Obj));
    assert!(!comb3.match_path(&Path::try_from(r#""#).unwrap(), ParsedKind::Obj));
    assert!(!comb3.match_path(
        &Path::try_from(r#"{"People"}[0]"#).unwrap(),
        ParsedKind::Obj
    ));
    assert!(comb3.match_path(
        &Path::try_from(r#"{"People"}[1]"#).unwrap(),
        ParsedKind::Obj
    ));
}

#[test]
fn depth_match_path() {
    let depth = Depth::from_str("2-").unwrap();

    assert!(!depth.match_path(&Path::try_from(r#"{"People"}"#).unwrap()));
    assert!(depth.match_path(&Path::try_from(r#"{"People"}[0]"#).unwrap()));
    assert!(depth.match_path(&Path::try_from(r#"{"People"}[0]{"Age"}"#).unwrap()));
    assert!(depth.match_path(&Path::try_from(r#"{"People"}[0]{"Height"}"#).unwrap()));
    assert!(depth.match_path(&Path::try_from(r#"{"People"}[1]"#).unwrap()));
    assert!(depth.match_path(&Path::try_from(r#"{"People"}[1]{"Age"}"#).unwrap()));
    assert!(depth.match_path(&Path::try_from(r#"{"People"}[1]{"Height"}"#).unwrap()));

    let depth = Depth::from_str("2-2").unwrap();
    assert!(!depth.match_path(&Path::try_from(r#"{"People"}"#).unwrap()));
    assert!(depth.match_path(&Path::try_from(r#"{"People"}[0]"#).unwrap()));
    assert!(!depth.match_path(&Path::try_from(r#"{"People"}[0]{"Age"}"#).unwrap()));
    assert!(!depth.match_path(&Path::try_from(r#"{"People"}[0]{"Height"}"#).unwrap()));
    assert!(depth.match_path(&Path::try_from(r#"{"People"}[1]"#).unwrap()));
    assert!(!depth.match_path(&Path::try_from(r#"{"People"}[1]{"Age"}"#).unwrap()));
    assert!(!depth.match_path(&Path::try_from(r#"{"People"}[1]{"Height"}"#).unwrap()));
}

#[test]
fn depth_parse() {
    assert!(Depth::from_str("").is_err());
    assert!(Depth::from_str("-").is_err());
    assert!(Depth::from_str("4-").is_ok());
    assert!(Depth::from_str("4-5").is_ok());
    assert!(Depth::from_str("4-4").is_ok());
    assert!(Depth::from_str("4-3").is_err());
    assert!(Depth::from_str("4-3x").is_err());
}

#[test]
fn exact() {
    let simple = Simple::from_str(r#"{"People"}[0]{"Height"}"#).unwrap();

    assert!(!simple.match_path(&Path::try_from(r#"{"People"}"#).unwrap(), ParsedKind::Arr));
    assert!(!simple.match_path(
        &Path::try_from(r#"{"People"}[0]"#).unwrap(),
        ParsedKind::Obj
    ));
    assert!(!simple.match_path(
        &Path::try_from(r#"{"People"}[0]{"Age"}"#).unwrap(),
        ParsedKind::Num
    ));
    assert!(simple.match_path(
        &Path::try_from(r#"{"People"}[0]{"Height"}"#).unwrap(),
        ParsedKind::Num
    ));
    assert!(!simple.match_path(
        &Path::try_from(r#"{"People"}[1]"#).unwrap(),
        ParsedKind::Obj
    ));
    assert!(!simple.match_path(
        &Path::try_from(r#"{"People"}[1]{"Age"}"#).unwrap(),
        ParsedKind::Num
    ));
    assert!(!simple.match_path(
        &Path::try_from(r#"{"People"}[1]{"Height"}"#).unwrap(),
        ParsedKind::Num
    ));
}

#[test]
fn wild_array() {
    let simple = Simple::from_str(r#"{"People"}[]{"Height"}"#).unwrap();

    assert!(!simple.match_path(&Path::try_from(r#"{"People"}"#).unwrap(), ParsedKind::Arr));
    assert!(!simple.match_path(
        &Path::try_from(r#"{"People"}[0]"#).unwrap(),
        ParsedKind::Obj
    ));
    assert!(!simple.match_path(
        &Path::try_from(r#"{"People"}[0]{"Age"}"#).unwrap(),
        ParsedKind::Num
    ));
    assert!(simple.match_path(
        &Path::try_from(r#"{"People"}[0]{"Height"}"#).unwrap(),
        ParsedKind::Num
    ));
    assert!(!simple.match_path(
        &Path::try_from(r#"{"People"}[1]"#).unwrap(),
        ParsedKind::Obj
    ));
    assert!(!simple.match_path(
        &Path::try_from(r#"{"People"}[1]{"Age"}"#).unwrap(),
        ParsedKind::Num
    ));
    assert!(simple.match_path(
        &Path::try_from(r#"{"People"}[1]{"Height"}"#).unwrap(),
        ParsedKind::Num
    ));
}

#[test]
fn ranges_array() {
    let simple = Simple::from_str(r#"{"People"}[3,4-5,5,-3,6-]{"Height"}"#).unwrap();

    assert!(simple.match_path(
        &Path::try_from(r#"{"People"}[0]{"Height"}"#).unwrap(),
        ParsedKind::Num
    ));
    assert!(simple.match_path(
        &Path::try_from(r#"{"People"}[1]{"Height"}"#).unwrap(),
        ParsedKind::Num
    ));
    assert!(simple.match_path(
        &Path::try_from(r#"{"People"}[2]{"Height"}"#).unwrap(),
        ParsedKind::Num
    ));
    assert!(simple.match_path(
        &Path::try_from(r#"{"People"}[3]{"Height"}"#).unwrap(),
        ParsedKind::Num
    ));
    assert!(simple.match_path(
        &Path::try_from(r#"{"People"}[4]{"Height"}"#).unwrap(),
        ParsedKind::Num
    ));
    assert!(simple.match_path(
        &Path::try_from(r#"{"People"}[5]{"Height"}"#).unwrap(),
        ParsedKind::Num
    ));
    assert!(simple.match_path(
        &Path::try_from(r#"{"People"}[6]{"Height"}"#).unwrap(),
        ParsedKind::Num
    ));
}

#[test]
fn wild_object() {
    let simple = Simple::from_str(r#"{"People"}[0]{}"#).unwrap();

    assert!(!simple.match_path(&Path::try_from(r#"{"People"}"#).unwrap(), ParsedKind::Arr));
    assert!(!simple.match_path(
        &Path::try_from(r#"{"People"}[0]"#).unwrap(),
        ParsedKind::Obj
    ));
    assert!(simple.match_path(
        &Path::try_from(r#"{"People"}[0]{"Age"}"#).unwrap(),
        ParsedKind::Num
    ));
    assert!(simple.match_path(
        &Path::try_from(r#"{"People"}[0]{"Height"}"#).unwrap(),
        ParsedKind::Num
    ));
    assert!(!simple.match_path(
        &Path::try_from(r#"{"People"}[1]"#).unwrap(),
        ParsedKind::Obj
    ));
    assert!(!simple.match_path(
        &Path::try_from(r#"{"People"}[1]{"Age"}"#).unwrap(),
        ParsedKind::Num
    ));
    assert!(!simple.match_path(
        &Path::try_from(r#"{"People"}[1]{"Height"}"#).unwrap(),
        ParsedKind::Num
    ));
}

#[test]
fn object_escapes() {
    let simple = Simple::from_str(r#"{"People"}[0]{"\""}"#).unwrap();
    assert!(simple.match_path(
        &Path::try_from(r#"{"People"}[0]{"\""}"#).unwrap(),
        ParsedKind::Num
    ));
    assert!(!simple.match_path(
        &Path::try_from(r#"{"People"}[0]{""}"#).unwrap(),
        ParsedKind::Num
    ));
    assert!(!simple.match_path(
        &Path::try_from(r#"{"People"}[0]{"\"x"}"#).unwrap(),
        ParsedKind::Num
    ));
    assert!(!simple.match_path(
        &Path::try_from(r#"{"People"}[0]{"y\""}"#).unwrap(),
        ParsedKind::Num
    ));
}

#[test]
fn wild_object_escapes() {
    let simple = Simple::from_str(r#"{"People"}[0]{}"#).unwrap();
    assert!(simple.match_path(
        &Path::try_from(r#"{"People"}[0]{"O\"ll"}"#).unwrap(),
        ParsedKind::Num
    ));
    assert!(simple.match_path(
        &Path::try_from(r#"{"People"}[0]{"O\\\"ll"}"#).unwrap(),
        ParsedKind::Num
    ));
}

#[test]
fn parse() {
    assert!(Simple::from_str(r#""#).is_ok());
    assert!(Simple::from_str(r#"{}"#).is_ok());
    assert!(Simple::from_str(r#"{}[3]"#).is_ok());
    assert!(Simple::from_str(r#"{"xx"}[]"#).is_ok());
    assert!(Simple::from_str(r#"{}[]"#).is_ok());
    assert!(Simple::from_str(r#"{"š𐍈€"}"#).is_ok());
    assert!(Simple::from_str(r#"{"\""}"#).is_ok());
    assert!(Simple::from_str(r#"[1,2,8,3-,-2,2-3]"#).is_ok());
    assert!(Simple::from_str(r#"?"#).is_ok());
    assert!(Simple::from_str(r#"????"#).is_ok());
    assert!(Simple::from_str(r#"?{}[1]?{"xx"}"#).is_ok());
    assert!(Simple::from_str(r#"*"#).is_ok());
    assert!(Simple::from_str(r#"****"#).is_ok());
    assert!(Simple::from_str(r#"*{}[1]**{"xx"}*"#).is_ok());
}

#[test]
fn parse_error() {
    assert!(Simple::from_str(r#"{"People""#).is_err());
    assert!(Simple::from_str(r#"[}"#).is_err());
    assert!(Simple::from_str(r#"{"People}"#).is_err());
    assert!(Simple::from_str(r#"{"š𐍈€""#).is_err());
    assert!(Simple::from_str(r#"[1,2,8,3-,-2,-]"#).is_err());
    assert!(Simple::from_str(r#"[3-3]"#).is_err());
    assert!(Simple::from_str(r#"[,2,8]"#).is_err());
    assert!(Simple::from_str(r#"[2,8,]"#).is_err());
}

#[test]
fn single_wild() {
    let simple = Simple::from_str(r#"?[0]{"range"}?"#).unwrap();

    assert!(simple.match_path(
        &Path::try_from(r#"[1][0]{"range"}{"from_home"}"#).unwrap(),
        ParsedKind::Num
    ));
    assert!(simple.match_path(
        &Path::try_from(r#"{"People"}[0]{"range"}[1]"#).unwrap(),
        ParsedKind::Num
    ));
    assert!(!simple.match_path(
        &Path::try_from(r#"[0]{"range"}{"from_home"}"#).unwrap(),
        ParsedKind::Num
    ));
    assert!(!simple.match_path(
        &Path::try_from(r#"{"People"}[0]{"range"}"#).unwrap(),
        ParsedKind::Arr
    ));
    assert!(!simple.match_path(
        &Path::try_from(r#"{"People"}[1]{"range"}[1]"#).unwrap(),
        ParsedKind::Num
    ));
    assert!(!simple.match_path(
        &Path::try_from(r#"[1][0]{"other"}{"from_home"}"#).unwrap(),
        ParsedKind::Num
    ));
}

#[test]
fn any_wild() {
    let simple = Simple::from_str(r#"*[0]*{"range"}**"#).unwrap();

    assert!(simple.match_path(&Path::try_from(r#"[0]{"range"}"#).unwrap(), ParsedKind::Obj));
    assert!(simple.match_path(
        &Path::try_from(r#"[1][0]{"range"}{"from_home"}"#).unwrap(),
        ParsedKind::Obj
    ));
    assert!(simple.match_path(
        &Path::try_from(r#"{"another"}[1][0]{"range"}{"from_home"}[2]"#).unwrap(),
        ParsedKind::Obj
    ));
    assert!(simple.match_path(
        &Path::try_from(r#"[0][2]{"range"}"#).unwrap(),
        ParsedKind::Obj
    ));
    assert!(simple.match_path(
        &Path::try_from(r#"[0]{"middle"}{"range"}"#).unwrap(),
        ParsedKind::Obj
    ));
    assert!(!simple.match_path(&Path::try_from(r#"[1]{"range"}"#).unwrap(), ParsedKind::Obj));
    assert!(!simple.match_path(&Path::try_from(r#"[0]{"other"}"#).unwrap(), ParsedKind::Obj));
}

#[test]
fn regex_match_path() {
    let re = Regex::new(r#"^\{"People"\}\[[0-9]+\]$"#).unwrap();
    assert!(re.match_path(&Path::try_from(r#"{"People"}[0]"#).unwrap(), ParsedKind::Obj));
    assert!(re.match_path(&Path::try_from(r#"{"People"}[12]"#).unwrap(), ParsedKind::Obj));
    assert!(!re.match_path(&Path::try_from(r#"{"People"}"#).unwrap(), ParsedKind::Arr));
    assert!(!re.match_path(&Path::try_from(r#"{"People"}[0]{"Age"}"#).unwrap(), ParsedKind::Num));
}

#[test]
fn regex_parse_error() {
    assert!(Regex::new("[").is_err());
    assert!(Regex::from_str("(").is_err());
    assert!(Regex::from_str("a+").is_ok());
}

#[test]
fn depth_parse_values() {
    let depth = Depth::from_str("4-").unwrap();
    assert_eq!(depth.min, 4);
    assert_eq!(depth.max, None);
    let depth = Depth::from_str("4-5").unwrap();
    assert_eq!(depth.min, 4);
    assert_eq!(depth.max, Some(5));
    let depth = Depth::from_str("3").unwrap();
    assert_eq!(depth.min, 3);
    assert_eq!(depth.max, None);
    assert!(Depth::from_str("3x").is_err());
}

#[test]
fn combinator_double_negation() {
    let comb = !!Combinator::new(Simple::new(r#"{"People"}"#).unwrap());
    assert!(comb.match_path(&Path::try_from(r#"{"People"}"#).unwrap(), ParsedKind::Arr));
    assert!(!comb.match_path(&Path::try_from(r#"{"Other"}"#).unwrap(), ParsedKind::Arr));
}

#[test]
fn ranges_include_upper_bound() {
    let simple = Simple::from_str("[1,3-5]").unwrap();
    for i in 0..8usize {
        let path = Path::try_from(format!("[{}]", i).as_str()).unwrap();
        assert_eq!(
            simple.match_path(&path, ParsedKind::Num),
            i == 1 || (3 <= i && i <= 5)
        );
    }
    let simple = Simple::from_str("[-2]").unwrap();
    assert!(simple.match_path(&Path::try_from("[2]").unwrap(), ParsedKind::Num));
    assert!(!simple.match_path(&Path::try_from("[3]").unwrap(), ParsedKind::Num));
}

#[test]
fn largest_index() {
    let simple = Simple::from_str("[18446744073709551615]").unwrap();
    let mut path = Path::new();
    path.push(streamson::path::Element::Index(usize::MAX));
    assert!(simple.match_path(&path, ParsedKind::Num));
    assert!(!simple.match_path(&Path::try_from("[0]").unwrap(), ParsedKind::Num));
}
