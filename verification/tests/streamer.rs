use streamson::path::Path;
use streamson::streamer::{ParsedKind, Streamer, Token};


fn make_path(path: &str) -> Path {
    Path::try_from(path).unwrap()
}

#[test]
fn test_spaces() {
    let mut streamer = Streamer::new();
    streamer.feed(br#"  "#);
    assert_eq!(streamer.read().unwrap(), Token::Pending);
}

#[test]
fn test_string() {
    let mut streamer = Streamer::new();
    streamer.feed(br#"  "test string \" \\\" [ ] {} , :\\""#);
    assert_eq!(streamer.read().unwrap(), Token::Start(2, ParsedKind::Str));
    assert_eq!(streamer.current_path(), &make_path(""));
    assert_eq!(streamer.read().unwrap(), Token::End(36, ParsedKind::Str));
    assert_eq!(streamer.current_path(), &make_path(""));
    assert_eq!(streamer.read().unwrap(), Token::Pending);

    let mut streamer = Streamer::new();
    streamer.feed(br#"" another one " "#);
    assert_eq!(streamer.read().unwrap(), Token::Start(0, ParsedKind::Str));
    assert_eq!(streamer.current_path(), &make_path(""));
    assert_eq!(streamer.read().unwrap(), Token::End(15, ParsedKind::Str));
    assert_eq!(streamer.current_path(), &make_path(""));
    assert_eq!(streamer.read().unwrap(), Token::Pending);
}

#[test]
fn test_number() {
    let mut streamer = Streamer::new();
    streamer.feed(br#" 3.24 "#);
    assert_eq!(streamer.read().unwrap(), Token::Start(1, ParsedKind::Num));
    assert_eq!(streamer.current_path(), &make_path(""));
    assert_eq!(streamer.read().unwrap(), Token::End(5, ParsedKind::Num));
    assert_eq!(streamer.current_path(), &make_path(""));
    assert_eq!(streamer.read().unwrap(), Token::Pending);
}

#[test]
fn test_bool() {
    let mut streamer = Streamer::new();
    streamer.feed(br#"  true  "#);
    assert_eq!(streamer.read().unwrap(), Token::Start(2, ParsedKind::Bool));
    assert_eq!(streamer.current_path(), &make_path(""));
    assert_eq!(streamer.read().unwrap(), Token::End(6, ParsedKind::Bool));
    assert_eq!(streamer.current_path(), &make_path(""));
    assert_eq!(streamer.read().unwrap(), Token::Pending);
}

#[test]
fn test_null() {
    let mut streamer = Streamer::new();
    // a bare null is only known to end when a byte follows it
    streamer.feed(br#"null"#);
    assert_eq!(streamer.read().unwrap(), Token::Start(0, ParsedKind::Null));
    assert_eq!(streamer.current_path(), &make_path(""));
    assert_eq!(streamer.read().unwrap(), Token::Pending);

    let mut streamer = Streamer::new();
    streamer.feed(br#"null  "#);
    assert_eq!(streamer.read().unwrap(), Token::Start(0, ParsedKind::Null));
    assert_eq!(streamer.current_path(), &make_path(""));
    assert_eq!(streamer.read().unwrap(), Token::End(4, ParsedKind::Null));
    assert_eq!(streamer.current_path(), &make_path(""));
    assert_eq!(streamer.read().unwrap(), Token::Pending);
}

#[test]
fn test_array() {
    let mut streamer = Streamer::new();
    streamer.feed(br#"[ null, 33, "string" ]"#);
    assert_eq!(streamer.read().unwrap(), Token::Start(0, ParsedKind::Arr));
    assert_eq!(streamer.current_path(), &make_path(""));
    assert_eq!(streamer.read().unwrap(), Token::Start(2, ParsedKind::Null));
    assert_eq!(streamer.current_path(), &make_path("[0]"));
    assert_eq!(streamer.read().unwrap(), Token::End(6, ParsedKind::Null));
    assert_eq!(streamer.current_path(), &make_path("[0]"));
    assert_eq!(streamer.read().unwrap(), Token::Separator(6));
    assert_eq!(streamer.read().unwrap(), Token::Start(8, ParsedKind::Num));
    assert_eq!(streamer.current_path(), &make_path("[1]"));
    assert_eq!(streamer.read().unwrap(), Token::End(10, ParsedKind::Num));
    assert_eq!(streamer.current_path(), &make_path("[1]"));
    assert_eq!(streamer.read().unwrap(), Token::Separator(10));
    assert_eq!(streamer.read().unwrap(), Token::Start(12, ParsedKind::Str));
    assert_eq!(streamer.current_path(), &make_path("[2]"));
    assert_eq!(streamer.read().unwrap(), Token::End(20, ParsedKind::Str));
    assert_eq!(streamer.current_path(), &make_path("[2]"));
    assert_eq!(streamer.read().unwrap(), Token::End(22, ParsedKind::Arr));
    assert_eq!(streamer.current_path(), &make_path(""));
    assert_eq!(streamer.read().unwrap(), Token::Pending);
}

#[test]
fn test_array_pending() {
    let mut streamer = Streamer::new();
    streamer.feed(br#"[ null, 3"#);
    assert_eq!(streamer.read().unwrap(), Token::Start(0, ParsedKind::Arr));
    assert_eq!(streamer.current_path(), &make_path(""));
    assert_eq!(streamer.read().unwrap(), Token::Start(2, ParsedKind::Null));
    assert_eq!(streamer.current_path(), &make_path("[0]"));
    assert_eq!(streamer.read().unwrap(), Token::End(6, ParsedKind::Null));
    assert_eq!(streamer.current_path(), &make_path("[0]"));
    assert_eq!(streamer.read().unwrap(), Token::Separator(6));
    assert_eq!(streamer.read().unwrap(), Token::Start(8, ParsedKind::Num));
    assert_eq!(streamer.current_path(), &make_path("[1]"));
    assert_eq!(streamer.read().unwrap(), Token::Pending);
    assert_eq!(streamer.current_path(), &make_path("[1]"));
    streamer.feed(br#"3,"#);
    assert_eq!(streamer.read().unwrap(), Token::End(10, ParsedKind::Num));
    assert_eq!(streamer.current_path(), &make_path("[1]"));
    assert_eq!(streamer.read().unwrap(), Token::Separator(10));
    assert_eq!(streamer.read().unwrap(), Token::Pending);
    assert_eq!(streamer.current_path(), &make_path(""));
    streamer.feed(br#" "string" ]"#);
    assert_eq!(streamer.read().unwrap(), Token::Start(12, ParsedKind::Str));
    assert_eq!(streamer.current_path(), &make_path("[2]"));
    assert_eq!(streamer.read().unwrap(), Token::End(20, ParsedKind::Str));
    assert_eq!(streamer.current_path(), &make_path("[2]"));
    assert_eq!(streamer.read().unwrap(), Token::End(22, ParsedKind::Arr));
    assert_eq!(streamer.current_path(), &make_path(""));
    assert_eq!(streamer.read().unwrap(), Token::Pending);
}

#[test]
fn test_empty_array() {
    let mut streamer = Streamer::new();
    streamer.feed(br#"[]"#);
    assert_eq!(streamer.read().unwrap(), Token::Start(0, ParsedKind::Arr));
    assert_eq!(streamer.current_path(), &make_path(""));
    assert_eq!(streamer.read().unwrap(), Token::End(2, ParsedKind::Arr));
    assert_eq!(streamer.current_path(), &make_path(""));
    assert_eq!(streamer.read().unwrap(), Token::Pending);
}

#[test]
fn test_array_in_array() {
    let mut streamer = Streamer::new();
    streamer.feed(br#"[ [], 33, ["string" , 44], [  ]]"#);
    assert_eq!(streamer.read().unwrap(), Token::Start(0, ParsedKind::Arr));
    assert_eq!(streamer.current_path(), &make_path(""));
    assert_eq!(streamer.read().unwrap(), Token::Start(2, ParsedKind::Arr));
    assert_eq!(streamer.current_path(), &make_path("[0]"));
    assert_eq!(streamer.read().unwrap(), Token::End(4, ParsedKind::Arr));
    assert_eq!(streamer.current_path(), &make_path("[0]"));
    assert_eq!(streamer.read().unwrap(), Token::Separator(4));
    assert_eq!(streamer.read().unwrap(), Token::Start(6, ParsedKind::Num));
    assert_eq!(streamer.current_path(), &make_path("[1]"));
    assert_eq!(streamer.read().unwrap(), Token::End(8, ParsedKind::Num));
    assert_eq!(streamer.current_path(), &make_path("[1]"));
    assert_eq!(streamer.read().unwrap(), Token::Separator(8));
    assert_eq!(streamer.read().unwrap(), Token::Start(10, ParsedKind::Arr));
    assert_eq!(streamer.current_path(), &make_path("[2]"));
    assert_eq!(streamer.read().unwrap(), Token::Start(11, ParsedKind::Str));
    assert_eq!(streamer.current_path(), &make_path("[2][0]"));
    assert_eq!(streamer.read().unwrap(), Token::End(19, ParsedKind::Str));
    assert_eq!(streamer.current_path(), &make_path("[2][0]"));
    assert_eq!(streamer.read().unwrap(), Token::Separator(20));
    assert_eq!(streamer.read().unwrap(), Token::Start(22, ParsedKind::Num));
    assert_eq!(streamer.current_path(), &make_path("[2][1]"));
    assert_eq!(streamer.read().unwrap(), Token::End(24, ParsedKind::Num));
    assert_eq!(streamer.current_path(), &make_path("[2][1]"));
    assert_eq!(streamer.read().unwrap(), Token::End(25, ParsedKind::Arr));
    assert_eq!(streamer.current_path(), &make_path("[2]"));
    assert_eq!(streamer.read().unwrap(), Token::Separator(25));
    assert_eq!(streamer.read().unwrap(), Token::Start(27, ParsedKind::Arr));
    assert_eq!(streamer.current_path(), &make_path("[3]"));
    assert_eq!(streamer.read().unwrap(), Token::End(31, ParsedKind::Arr));
    assert_eq!(streamer.current_path(), &make_path("[3]"));
    assert_eq!(streamer.read().unwrap(), Token::End(32, ParsedKind::Arr));
    assert_eq!(streamer.current_path(), &make_path(""));
    assert_eq!(streamer.read().unwrap(), Token::Pending);
}

#[test]
fn test_object() {
    let mut streamer = Streamer::new();
    streamer.feed(br#"{"a":"a", "b" :  true , "c": null, " \" \\\" \\": 33}"#);
    assert_eq!(streamer.read().unwrap(), Token::Start(0, ParsedKind::Obj));
    assert_eq!(streamer.current_path(), &make_path(""));
    assert_eq!(streamer.read().unwrap(), Token::Start(5, ParsedKind::Str));
    assert_eq!(streamer.current_path(), &make_path("{\"a\"}"));
    assert_eq!(streamer.read().unwrap(), Token::End(8, ParsedKind::Str));
    assert_eq!(streamer.current_path(), &make_path("{\"a\"}"));
    assert_eq!(streamer.read().unwrap(), Token::Separator(8));
    assert_eq!(streamer.read().unwrap(), Token::Start(17, ParsedKind::Bool));
    assert_eq!(streamer.current_path(), &make_path("{\"b\"}"));
    assert_eq!(streamer.read().unwrap(), Token::End(21, ParsedKind::Bool));
    assert_eq!(streamer.current_path(), &make_path("{\"b\"}"));
    assert_eq!(streamer.read().unwrap(), Token::Separator(22));
    assert_eq!(streamer.read().unwrap(), Token::Start(29, ParsedKind::Null));
    assert_eq!(streamer.current_path(), &make_path("{\"c\"}"));
    assert_eq!(streamer.read().unwrap(), Token::End(33, ParsedKind::Null));
    assert_eq!(streamer.current_path(), &make_path("{\"c\"}"));
    assert_eq!(streamer.read().unwrap(), Token::Separator(33));
    assert_eq!(streamer.read().unwrap(), Token::Start(50, ParsedKind::Num));
    assert_eq!(streamer.current_path(), &make_path(r#"{" \" \\\" \\"}"#));
    assert_eq!(streamer.read().unwrap(), Token::End(52, ParsedKind::Num));
    assert_eq!(streamer.current_path(), &make_path(r#"{" \" \\\" \\"}"#));
    assert_eq!(streamer.read().unwrap(), Token::End(53, ParsedKind::Obj));
    assert_eq!(streamer.current_path(), &make_path(""));
    assert_eq!(streamer.read().unwrap(), Token::Pending);
}

#[test]
fn test_empty_object() {
    let mut streamer = Streamer::new();
    streamer.feed(br#"{}"#);
    assert_eq!(streamer.read().unwrap(), Token::Start(0, ParsedKind::Obj));
    assert_eq!(streamer.current_path(), &make_path(""));
    assert_eq!(streamer.read().unwrap(), Token::End(2, ParsedKind::Obj));
    assert_eq!(streamer.current_path(), &make_path(""));
    assert_eq!(streamer.read().unwrap(), Token::Pending);
}

#[test]
fn test_object_in_object() {
    let mut streamer = Streamer::new();
    streamer.feed(br#" {"u": {}, "j": {"x": {  }, "y": 10}} "#);
    assert_eq!(streamer.read().unwrap(), Token::Start(1, ParsedKind::Obj));
    assert_eq!(streamer.current_path(), &make_path(""));
    assert_eq!(streamer.read().unwrap(), Token::Start(7, ParsedKind::Obj));
    assert_eq!(streamer.current_path(), &make_path("{\"u\"}"));
    assert_eq!(streamer.read().unwrap(), Token::End(9, ParsedKind::Obj));
    assert_eq!(streamer.current_path(), &make_path("{\"u\"}"));
    assert_eq!(streamer.read().unwrap(), Token::Separator(9));
    assert_eq!(streamer.read().unwrap(), Token::Start(16, ParsedKind::Obj));
    assert_eq!(streamer.current_path(), &make_path("{\"j\"}"));
    assert_eq!(streamer.read().unwrap(), Token::Start(22, ParsedKind::Obj));
    assert_eq!(streamer.current_path(), &make_path("{\"j\"}{\"x\"}"));
    assert_eq!(streamer.read().unwrap(), Token::End(26, ParsedKind::Obj));
    assert_eq!(streamer.current_path(), &make_path("{\"j\"}{\"x\"}"));
    assert_eq!(streamer.read().unwrap(), Token::Separator(26));
    assert_eq!(streamer.read().unwrap(), Token::Start(33, ParsedKind::Num));
    assert_eq!(streamer.current_path(), &make_path("{\"j\"}{\"y\"}"));
    assert_eq!(streamer.read().unwrap(), Token::End(35, ParsedKind::Num));
    assert_eq!(streamer.current_path(), &make_path("{\"j\"}{\"y\"}"));
    assert_eq!(streamer.read().unwrap(), Token::End(36, ParsedKind::Obj));
    assert_eq!(streamer.current_path(), &make_path("{\"j\"}"));
    assert_eq!(streamer.read().unwrap(), Token::End(37, ParsedKind::Obj));
    assert_eq!(streamer.current_path(), &make_path(""));
    assert_eq!(streamer.read().unwrap(), Token::Pending);
}

#[test]
fn test_complex_with_pending() {
    const COMPLEX_DATA: &[u8] = br#" [{"aha y": {}, "j": {"x": [{  }, [ {}, null ]], "y" : 10}}, null, 43, [ {"a": false} ] ]"#;

    // Split complex data into parts
    for i in 0..COMPLEX_DATA.len() {
        let start_data = &COMPLEX_DATA[0..i];
        let end_data = &COMPLEX_DATA[i..];
        let mut streamer = Streamer::new();

        // feed the first part
        streamer.feed(start_data);

        let mut terminate = false;
        // Gets next item and feed the rest of the data when pending
        let mut get_item = |path: Option<&str>| loop {
            match streamer.read() {
                Ok(Token::Pending) => {
                    if terminate {
                        break Token::Pending;
                    } else {
                        terminate = true;
                        streamer.feed(end_data);
                    }
                    continue;
                }
                Ok(e) => {
                    if let Some(pth) = path {
                        assert_eq!(streamer.current_path(), &make_path(pth));
                    }
                    return e;
                }
                Err(_) => panic!("Error occured"),
            }
        };

        assert_eq!(get_item(Some("")), Token::Start(1, ParsedKind::Arr));
        assert_eq!(get_item(Some("[0]")), Token::Start(2, ParsedKind::Obj));
        assert_eq!(
            get_item(Some("[0]{\"aha y\"}")),
            Token::Start(12, ParsedKind::Obj)
        );
        assert_eq!(
            get_item(Some("[0]{\"aha y\"}")),
            Token::End(14, ParsedKind::Obj)
        );
        assert_eq!(get_item(None), Token::Separator(14));
        assert_eq!(
            get_item(Some("[0]{\"j\"}")),
            Token::Start(21, ParsedKind::Obj)
        );
        assert_eq!(
            get_item(Some("[0]{\"j\"}{\"x\"}")),
            Token::Start(27, ParsedKind::Arr)
        );
        assert_eq!(
            get_item(Some("[0]{\"j\"}{\"x\"}[0]")),
            Token::Start(28, ParsedKind::Obj)
        );
        assert_eq!(
            get_item(Some("[0]{\"j\"}{\"x\"}[0]")),
            Token::End(32, ParsedKind::Obj)
        );
        assert_eq!(get_item(None), Token::Separator(32));
        assert_eq!(
            get_item(Some("[0]{\"j\"}{\"x\"}[1]")),
            Token::Start(34, ParsedKind::Arr)
        );
        assert_eq!(
            get_item(Some("[0]{\"j\"}{\"x\"}[1][0]")),
            Token::Start(36, ParsedKind::Obj)
        );
        assert_eq!(
            get_item(Some("[0]{\"j\"}{\"x\"}[1][0]")),
            Token::End(38, ParsedKind::Obj)
        );
        assert_eq!(get_item(None), Token::Separator(38));
        assert_eq!(
            get_item(Some("[0]{\"j\"}{\"x\"}[1][1]")),
            Token::Start(40, ParsedKind::Null)
        );
        assert_eq!(
            get_item(Some("[0]{\"j\"}{\"x\"}[1][1]")),
            Token::End(44, ParsedKind::Null)
        );
        assert_eq!(
            get_item(Some("[0]{\"j\"}{\"x\"}[1]")),
            Token::End(46, ParsedKind::Arr)
        );
        assert_eq!(
            get_item(Some("[0]{\"j\"}{\"x\"}")),
            Token::End(47, ParsedKind::Arr)
        );
        assert_eq!(get_item(None), Token::Separator(47));
        assert_eq!(
            get_item(Some("[0]{\"j\"}{\"y\"}")),
            Token::Start(55, ParsedKind::Num)
        );
        assert_eq!(
            get_item(Some("[0]{\"j\"}{\"y\"}")),
            Token::End(57, ParsedKind::Num)
        );
        assert_eq!(
            get_item(Some("[0]{\"j\"}")),
            Token::End(58, ParsedKind::Obj)
        );
        assert_eq!(get_item(Some("[0]")), Token::End(59, ParsedKind::Obj));
        assert_eq!(get_item(None), Token::Separator(59));
        assert_eq!(get_item(Some("[1]")), Token::Start(61, ParsedKind::Null));
        assert_eq!(get_item(Some("[1]")), Token::End(65, ParsedKind::Null));
        assert_eq!(get_item(None), Token::Separator(65));
        assert_eq!(get_item(Some("[2]")), Token::Start(67, ParsedKind::Num));
        assert_eq!(get_item(Some("[2]")), Token::End(69, ParsedKind::Num));
        assert_eq!(get_item(None), Token::Separator(69));
        assert_eq!(get_item(Some("[3]")), Token::Start(71, ParsedKind::Arr));
        assert_eq!(get_item(Some("[3][0]")), Token::Start(73, ParsedKind::Obj));
        assert_eq!(
            get_item(Some("[3][0]{\"a\"}")),
            Token::Start(79, ParsedKind::Bool)
        );
        assert_eq!(
            get_item(Some("[3][0]{\"a\"}")),
            Token::End(84, ParsedKind::Bool)
        );
        assert_eq!(get_item(Some("[3][0]")), Token::End(85, ParsedKind::Obj));
        assert_eq!(get_item(Some("[3]")), Token::End(87, ParsedKind::Arr));
        assert_eq!(get_item(Some("")), Token::End(89, ParsedKind::Arr));
        assert_eq!(get_item(None), Token::Pending);
    }
}

#[test]
fn test_utf8() {
    // try to cover all utf8 character lengths
    let utf8_data: Vec<u8> = r#"[{"š𐍈€": "€š𐍈"}, "𐍈€š"]"#.to_string().into_bytes();
    for i in 0..utf8_data.len() {
        let start_data = &utf8_data[0..i];
        let end_data = &utf8_data[i..];
        let mut streamer = Streamer::new();

        // feed the first part
        streamer.feed(start_data);

        let mut terminate = false;
        // Gets next item and feed the rest of the data when pending
        let mut get_item = |path: Option<&str>| loop {
            match streamer.read() {
                Ok(Token::Pending) => {
                    if terminate {
                        break Token::Pending;
                    } else {
                        terminate = true;
                        streamer.feed(end_data);
                    }
                    continue;
                }
                Ok(e) => {
                    if let Some(pth) = path {
                        assert_eq!(streamer.current_path(), &make_path(pth));
                    }
                    return e;
                }
                Err(_) => panic!("Error occured"),
            }
        };

        assert_eq!(get_item(Some("")), Token::Start(0, ParsedKind::Arr));
        assert_eq!(get_item(Some("[0]")), Token::Start(1, ParsedKind::Obj));
        assert_eq!(
            get_item(Some("[0]{\"š𐍈€\"}")),
            Token::Start(15, ParsedKind::Str)
        );
        assert_eq!(
            get_item(Some("[0]{\"š𐍈€\"}")),
            Token::End(26, ParsedKind::Str)
        );
        assert_eq!(get_item(Some("[0]")), Token::End(27, ParsedKind::Obj));
        assert_eq!(get_item(None), Token::Separator(27));
        assert_eq!(get_item(Some("[1]")), Token::Start(29, ParsedKind::Str));
        assert_eq!(get_item(Some("[1]")), Token::End(40, ParsedKind::Str));
        assert_eq!(get_item(Some("")), Token::End(41, ParsedKind::Arr));
        assert_eq!(get_item(None), Token::Pending);
    }
}

#[test]
fn test_multiple_input_flat() {
    let mut streamer = Streamer::new();
    streamer.feed(br#""first" "second""third""#);
    assert_eq!(streamer.read().unwrap(), Token::Start(0, ParsedKind::Str));
    assert_eq!(streamer.current_path(), &make_path(""));
    assert_eq!(streamer.read().unwrap(), Token::End(7, ParsedKind::Str));
    assert_eq!(streamer.current_path(), &make_path(""));
    assert_eq!(streamer.read().unwrap(), Token::Start(8, ParsedKind::Str));
    assert_eq!(streamer.current_path(), &make_path(""));
    assert_eq!(streamer.read().unwrap(), Token::End(16, ParsedKind::Str));
    assert_eq!(streamer.current_path(), &make_path(""));
    assert_eq!(streamer.read().unwrap(), Token::Start(16, ParsedKind::Str));
    assert_eq!(streamer.current_path(), &make_path(""));
    assert_eq!(streamer.read().unwrap(), Token::End(23, ParsedKind::Str));
    assert_eq!(streamer.current_path(), &make_path(""));
    assert_eq!(streamer.read().unwrap(), Token::Pending);
}

#[test]
fn test_newlines() {
    let mut streamer = Streamer::new();
    streamer.feed(
        br#" {
                "u": {},
                "j": {
                    "x": {  } ,
                    "y":10
                }
            } "#,
    );
    assert_eq!(streamer.read().unwrap(), Token::Start(1, ParsedKind::Obj));
    assert_eq!(streamer.current_path(), &make_path(""));
    assert_eq!(streamer.read().unwrap(), Token::Start(24, ParsedKind::Obj));
    assert_eq!(streamer.current_path(), &make_path("{\"u\"}"));
    assert_eq!(streamer.read().unwrap(), Token::End(26, ParsedKind::Obj));
    assert_eq!(streamer.current_path(), &make_path("{\"u\"}"));
    assert_eq!(streamer.read().unwrap(), Token::Separator(26));
    assert_eq!(streamer.read().unwrap(), Token::Start(49, ParsedKind::Obj));
    assert_eq!(streamer.current_path(), &make_path("{\"j\"}"));
    assert_eq!(streamer.read().unwrap(), Token::Start(76, ParsedKind::Obj));
    assert_eq!(streamer.current_path(), &make_path("{\"j\"}{\"x\"}"));
    assert_eq!(streamer.read().unwrap(), Token::End(80, ParsedKind::Obj));
    assert_eq!(streamer.current_path(), &make_path("{\"j\"}{\"x\"}"));
    assert_eq!(streamer.read().unwrap(), Token::Separator(81));
    assert_eq!(streamer.read().unwrap(), Token::Start(107, ParsedKind::Num));
    assert_eq!(streamer.current_path(), &make_path("{\"j\"}{\"y\"}"));
    assert_eq!(streamer.read().unwrap(), Token::End(109, ParsedKind::Num));
    assert_eq!(streamer.current_path(), &make_path("{\"j\"}{\"y\"}"));
    assert_eq!(streamer.read().unwrap(), Token::End(127, ParsedKind::Obj));
    assert_eq!(streamer.current_path(), &make_path("{\"j\"}"));
    assert_eq!(streamer.read().unwrap(), Token::End(141, ParsedKind::Obj));
    assert_eq!(streamer.current_path(), &make_path(""));
    assert_eq!(streamer.read().unwrap(), Token::Pending);
}

#[test]
fn end_paths_match_start_paths() {
    let mut streamer = Streamer::new();
    streamer.feed(br#"{"a": [1, {"b": "x", "c": [true, null]}], "d": {}} "#);
    let mut open: Vec<Path> = vec![];
    let mut ends = 0;
    loop {
        match streamer.read().unwrap() {
            Token::Start(_, _) => open.push(streamer.current_path().clone()),
            Token::End(_, _) => {
                let started = open.pop().unwrap();
                assert_eq!(streamer.current_path(), &started);
                ends += 1;
            }
            Token::Separator(_) => {}
            Token::Pending => break,
        }
    }
    assert!(open.is_empty());
    assert_eq!(ends, 9);
}

#[test]
fn nested_array_indexes() {
    let mut streamer = Streamer::new();
    streamer.feed(br#"[[1,2],[3]]"#);
    assert_eq!(streamer.read().unwrap(), Token::Start(0, ParsedKind::Arr));
    assert_eq!(streamer.current_path(), &make_path(""));
    assert_eq!(streamer.read().unwrap(), Token::Start(1, ParsedKind::Arr));
    assert_eq!(streamer.current_path(), &make_path("[0]"));
    assert_eq!(streamer.read().unwrap(), Token::Start(2, ParsedKind::Num));
    assert_eq!(streamer.current_path(), &make_path("[0][0]"));
    assert_eq!(streamer.read().unwrap(), Token::End(3, ParsedKind::Num));
    assert_eq!(streamer.read().unwrap(), Token::Separator(3));
    assert_eq!(streamer.read().unwrap(), Token::Start(4, ParsedKind::Num));
    assert_eq!(streamer.current_path(), &make_path("[0][1]"));
    assert_eq!(streamer.read().unwrap(), Token::End(5, ParsedKind::Num));
    assert_eq!(streamer.read().unwrap(), Token::End(6, ParsedKind::Arr));
    assert_eq!(streamer.current_path(), &make_path("[0]"));
    assert_eq!(streamer.read().unwrap(), Token::Separator(6));
    assert_eq!(streamer.read().unwrap(), Token::Start(7, ParsedKind::Arr));
    assert_eq!(streamer.current_path(), &make_path("[1]"));
    assert_eq!(streamer.read().unwrap(), Token::Start(8, ParsedKind::Num));
    assert_eq!(streamer.current_path(), &make_path("[1][0]"));
    assert_eq!(streamer.read().unwrap(), Token::End(9, ParsedKind::Num));
    assert_eq!(streamer.read().unwrap(), Token::End(10, ParsedKind::Arr));
    assert_eq!(streamer.read().unwrap(), Token::End(11, ParsedKind::Arr));
    assert_eq!(streamer.read().unwrap(), Token::Pending);
}

#[test]
fn errors_only_where_bytes_do_not_fit() {
    let mut streamer = Streamer::new();
    streamer.feed(b"  [ 1 , 2 ]");
    assert_eq!(streamer.read().unwrap(), Token::Start(2, ParsedKind::Arr));
    assert_eq!(streamer.read().unwrap(), Token::Start(4, ParsedKind::Num));
    assert_eq!(streamer.read().unwrap(), Token::End(5, ParsedKind::Num));
    assert_eq!(streamer.read().unwrap(), Token::Separator(6));

    let mut streamer = Streamer::new();
    streamer.feed(b"[1}");
    assert_eq!(streamer.read().unwrap(), Token::Start(0, ParsedKind::Arr));
    assert_eq!(streamer.read().unwrap(), Token::Start(1, ParsedKind::Num));
    assert_eq!(streamer.read().unwrap(), Token::End(2, ParsedKind::Num));
    assert!(streamer.read().is_err());
}
