use streamson::handler::{Buffer, Handler, Replace, Shorten};
use streamson::matcher::{Combinator, Simple};
use streamson::path::Path;
use streamson::strategy::{All, Convert, Extract, Filter, Output, OutputConverter, Strategy, Trigger};

fn flatten(records: Vec<(Option<Path>, Vec<u8>)>) -> Vec<u8> {
    records.into_iter().map(|e| e.1).flatten().collect()
}

#[test]
fn converter() {
    let mut converter = OutputConverter::new();
    let data = converter.convert(&[
        Output::Start(None),
        Output::Data(b"1234".to_vec()),
        Output::End,
    ]);
    assert_eq!(data, vec![(None, b"1234".to_vec())]);

    let data = converter.convert(&[
        Output::Start(Some(Path::try_from("").unwrap())),
        Output::Data(b"567".to_vec()),
    ]);
    assert_eq!(data, vec![]);

    let data = converter.convert(&[Output::Data(b"89".to_vec()), Output::End]);
    assert_eq!(
        data,
        vec![(Some(Path::try_from("").unwrap()), b"56789".to_vec())]
    );
}

fn make_replace_handler() -> Handler {
    Handler::Replace(Replace::new(vec![b'"', b'*', b'*', b'*', b'"']))
}

#[test]
fn convert_basic() {
    let mut convert = Convert::new();
    let matcher = Simple::new(r#"[]{"password"}"#).unwrap();
    let replace = convert.add_handler(make_replace_handler()).unwrap();
    convert.add_matcher(matcher, vec![replace]).unwrap();

    let mut output = convert
        .process(br#"[{"id": 1, "password": "secret1"}, {"id": 2, "password": "secret2"}]"#)
        .unwrap();

    assert_eq!(output.len(), 5);
    assert_eq!(
        String::from_utf8(output.remove(0)).unwrap(),
        r#"[{"id": 1, "password": "#
    );
    assert_eq!(String::from_utf8(output.remove(0)).unwrap(), r#""***""#);
    assert_eq!(
        String::from_utf8(output.remove(0)).unwrap(),
        r#"}, {"id": 2, "password": "#
    );
    assert_eq!(String::from_utf8(output.remove(0)).unwrap(), r#""***""#);
    assert_eq!(String::from_utf8(output.remove(0)).unwrap(), "}]");
}

#[test]
fn convert_basic_pending() {
    let mut convert = Convert::new();
    let matcher = Simple::new(r#"[]{"password"}"#).unwrap();
    let replace = convert.add_handler(make_replace_handler()).unwrap();
    convert.add_matcher(matcher, vec![replace]).unwrap();

    let mut result = vec![];
    let output = convert.process(br#"[{"id": 1, "password": "s"#).unwrap();
    result.extend(output);

    let output = convert
        .process(br#"ecret1"}, {"id": 2, "password": "secret2"}]"#)
        .unwrap();
    result.extend(output);
    assert_eq!(
        String::from_utf8(result.into_iter().flatten().collect()).unwrap(),
        r#"[{"id": 1, "password": "***"}, {"id": 2, "password": "***"}]"#
    );
}

#[test]
fn chaining_handlers() {
    let mut convert = Convert::new();
    let matcher = Simple::new(r#"[]{"password"}"#).unwrap();
    let replace = convert
        .add_handler(Handler::Replace(Replace::new(br#""*****************""#.to_vec())))
        .unwrap();
    let shorten = convert
        .add_handler(Handler::Shorten(Shorten::new(4, "...\"".into())))
        .unwrap();
    convert.add_matcher(matcher, vec![replace, shorten]).unwrap();

    let output = convert
        .process(br#"[{"id": 1, "password": "secret1"}, {"id": 2, "password": "secret2"}]"#)
        .unwrap();

    assert_eq!(
        String::from_utf8(output.into_iter().flatten().collect()).unwrap(),
        r#"[{"id": 1, "password": "****..."}, {"id": 2, "password": "****..."}]"#
    );
}

#[test]
fn convert_without_matchers_keeps_input() {
    let mut convert = Convert::new();
    let input = br#"{"a": [1, 2, {"b": null}], "c": "d"}"#;
    let output = convert.process(&input[..10]).unwrap();
    let mut result: Vec<u8> = output.into_iter().flatten().collect();
    result.extend(convert.process(&input[10..]).unwrap().into_iter().flatten());
    assert_eq!(result, input.to_vec());
}

fn get_extract_input() -> Vec<u8> {
    br#"{"users": [{"name": "fred"}, {"name": "bob"}], "groups": [{"name": "admins"}]}"#.to_vec()
}

#[test]
fn flat() {
    // without path
    let input = get_extract_input();
    let matcher = Simple::new(r#"{}[]{"name"}"#).unwrap();

    let mut extract = Extract::new();
    extract.add_matcher(matcher.clone(), None).unwrap();

    let output = extract.process(&input).unwrap();
    assert_eq!(output.len(), 9);
    assert_eq!(output[0], Output::Start(None));
    assert_eq!(output[1], Output::Data(br#""fred""#.to_vec()));
    assert_eq!(output[2], Output::End);
    assert_eq!(output[3], Output::Start(None));
    assert_eq!(output[4], Output::Data(br#""bob""#.to_vec()));
    assert_eq!(output[5], Output::End);
    assert_eq!(output[6], Output::Start(None));
    assert_eq!(output[7], Output::Data(br#""admins""#.to_vec()));
    assert_eq!(output[8], Output::End);

    // with path
    let input = get_extract_input();
    let mut extract = Extract::new().set_export_path(true);
    extract.add_matcher(matcher, None).unwrap();
    let output = extract.process(&input).unwrap();
    assert_eq!(output.len(), 9);
    assert_eq!(
        output[0],
        Output::Start(Some(Path::try_from(r#"{"users"}[0]{"name"}"#).unwrap()))
    );
    assert_eq!(output[1], Output::Data(br#""fred""#.to_vec()));
    assert_eq!(output[2], Output::End);
    assert_eq!(
        output[3],
        Output::Start(Some(Path::try_from(r#"{"users"}[1]{"name"}"#).unwrap()))
    );
    assert_eq!(output[4], Output::Data(br#""bob""#.to_vec()));
    assert_eq!(output[5], Output::End);
    assert_eq!(
        output[6],
        Output::Start(Some(Path::try_from(r#"{"groups"}[0]{"name"}"#).unwrap()))
    );
    assert_eq!(output[7], Output::Data(br#""admins""#.to_vec()));
    assert_eq!(output[8], Output::End);
}

#[test]
fn nested() {
    let input = get_extract_input();
    let matcher = Simple::new(r#"{}[1]"#).unwrap();

    let mut extract = Extract::new();
    extract.add_matcher(matcher, None).unwrap();

    let output = extract.process(&input).unwrap();
    assert_eq!(output.len(), 3);
    assert_eq!(output[0], Output::Start(None));
    assert_eq!(output[1], Output::Data(br#"{"name": "bob"}"#.to_vec()));
    assert_eq!(output[2], Output::End);
}

#[test]
fn pending() {
    let input = get_extract_input();
    let input1 = &input[0..37];
    let input2 = &input[37..];

    let matcher = Simple::new(r#"{}[1]"#).unwrap();

    let mut extract = Extract::new();
    extract.add_matcher(matcher, None).unwrap();

    let output = extract.process(input1).unwrap();
    assert_eq!(output.len(), 2);
    assert_eq!(output[0], Output::Start(None));
    assert_eq!(output[1], Output::Data(br#"{"name":"#.to_vec()));

    let output = extract.process(input2).unwrap();
    assert_eq!(output.len(), 2);
    assert_eq!(output[0], Output::Data(br#" "bob"}"#.to_vec()));
    assert_eq!(output[1], Output::End);
}

#[test]
fn pending_handlers() {
    let input = get_extract_input();
    let input1 = &input[0..37];
    let input2 = &input[37..];

    let matcher = Simple::new(r#"{}[1]"#).unwrap();

    let mut extract = Extract::new();
    let buffer = extract
        .add_handler(Handler::Buffer(Buffer::new().set_max_buffer_size(Some(22))))
        .unwrap();
    extract.add_matcher(matcher, Some(buffer)).unwrap();

    let output = extract.process(input1).unwrap();
    assert_eq!(output.len(), 2);
    assert_eq!(output[0], Output::Start(None));
    assert_eq!(output[1], Output::Data(br#"{"name":"#.to_vec()));

    let output = extract.process(input2).unwrap();
    assert_eq!(output.len(), 2);
    assert_eq!(output[0], Output::Data(br#" "bob"}"#.to_vec()));
    assert_eq!(output[1], Output::End);

    assert_eq!(
        extract.buffer_pop(buffer).unwrap(),
        (None, br#"{"name": "bob"}"#.to_vec())
    );
}

#[test]
fn extract_without_matchers_is_empty() {
    let mut extract = Extract::new();
    assert!(extract.process(&get_extract_input()).unwrap().is_empty());
}

fn get_filter_input() -> Vec<u8> {
    br#"{"users": [{"uid": 1}, {"uid": 2}, {"uid": 3}], "groups": [{"gid": 1}, {"gid": 2}], "void": {}}"#
        .to_vec()
}

fn filtered(matcher: Combinator) -> String {
    let mut filter = Filter::new();
    filter.add_matcher(matcher, None).unwrap();
    String::from_utf8(flatten(
        OutputConverter::new().convert(&filter.process(&get_filter_input()).unwrap()),
    ))
    .unwrap()
}

fn simple(def: &str) -> Combinator {
    Combinator::new(Simple::new(def).unwrap())
}

#[test]
fn single_matcher_no_match() {
    let input = get_filter_input();
    assert_eq!(
        filtered(simple(r#"{"no-existing"}[]{"uid"}"#)).into_bytes(),
        input.clone()
    );
}

#[test]
fn single_matcher_array_first() {
    assert_eq!(
        filtered(simple(r#"{"users"}[0]"#)),
        r#"{"users": [ {"uid": 2}, {"uid": 3}], "groups": [{"gid": 1}, {"gid": 2}], "void": {}}"#
    );
}

#[test]
fn single_matcher_array_last() {
    assert_eq!(
        filtered(simple(r#"{"users"}[2]"#)),
        r#"{"users": [{"uid": 1}, {"uid": 2}], "groups": [{"gid": 1}, {"gid": 2}], "void": {}}"#
    );
}

#[test]
fn single_matcher_array_middle() {
    assert_eq!(
        filtered(simple(r#"{"users"}[1]"#)),
        r#"{"users": [{"uid": 1}, {"uid": 3}], "groups": [{"gid": 1}, {"gid": 2}], "void": {}}"#
    );
}

#[test]
fn single_matcher_array_all() {
    assert_eq!(
        filtered(simple(r#"{"users"}[]"#)),
        r#"{"users": [], "groups": [{"gid": 1}, {"gid": 2}], "void": {}}"#
    );
}

#[test]
fn single_matcher_object_first() {
    assert_eq!(
        filtered(simple(r#"{"users"}"#)),
        r#"{ "groups": [{"gid": 1}, {"gid": 2}], "void": {}}"#
    );
}

#[test]
fn single_matcher_object_last() {
    assert_eq!(
        filtered(simple(r#"{"void"}"#)),
        r#"{"users": [{"uid": 1}, {"uid": 2}, {"uid": 3}], "groups": [{"gid": 1}, {"gid": 2}]}"#
    );
}

#[test]
fn single_matcher_object_middle() {
    assert_eq!(
        filtered(simple(r#"{"groups"}"#)),
        r#"{"users": [{"uid": 1}, {"uid": 2}, {"uid": 3}], "void": {}}"#
    );
}

#[test]
fn single_matcher_object_all() {
    assert_eq!(filtered(simple(r#"{}"#)), r#"{}"#);
}

#[test]
fn filter_combinator_in_parts() {
    let input = get_filter_input();
    for size in [1usize, 5, 100] {
        let matcher = simple(r#"{"users"}"#) | simple(r#"{"void"}"#);
        let mut filter = Filter::new();
        filter.add_matcher(matcher, None).unwrap();
        let mut result: Vec<u8> = Vec::new();
        let mut converter = OutputConverter::new();
        for part in input.chunks(size) {
            result.extend(flatten(converter.convert(&filter.process(part).unwrap())));
        }
        assert_eq!(
            String::from_utf8(result).unwrap(),
            r#"{ "groups": [{"gid": 1}, {"gid": 2}]}"#
        );
    }
}

#[test]
fn trigger_basic() {
    let mut trigger = Trigger::new();
    let handler = trigger
        .add_handler(Handler::Buffer(Buffer::new().set_use_path(true)))
        .unwrap();
    let matcher = Simple::new(r#"{"elements"}[]"#).unwrap();
    trigger.add_matcher(matcher, handler).unwrap();
    trigger.process(br#"{"elements": [1, 2, 3, 4]}"#).unwrap();

    for (i, data) in ["1", "2", "3", "4"].iter().enumerate() {
        let (path, bytes) = trigger.buffer_pop(handler).unwrap();
        assert_eq!(path.unwrap(), format!(r#"{{"elements"}}[{}]"#, i));
        assert_eq!(bytes, data.as_bytes().to_vec());
    }
    assert!(trigger.buffer_pop(handler).is_none());
}

#[test]
fn trigger_in_parts() {
    let input = br#"{"elements": [1, 2, 3, 4]}"#;
    for size in [1usize, 5, 100] {
        let mut trigger = Trigger::new();
        let handler = trigger
            .add_handler(Handler::Buffer(Buffer::new().set_use_path(true)))
            .unwrap();
        trigger
            .add_matcher(Simple::new(r#"{"elements"}[]"#).unwrap(), handler)
            .unwrap();
        for part in input.chunks(size) {
            assert!(trigger.process(part).unwrap().is_empty());
        }
        let mut count = 0;
        while let Some((path, bytes)) = trigger.buffer_pop(handler) {
            assert_eq!(path.unwrap(), format!(r#"{{"elements"}}[{}]"#, count));
            assert_eq!(bytes, format!("{}", count + 1).into_bytes());
            count += 1;
        }
        assert_eq!(count, 4);
        assert!(trigger.terminate().is_ok());
    }
}

#[test]
fn trigger_terminate_unfinished() {
    let mut trigger = Trigger::new();
    trigger.process(br#"{"elements": [1, "#).unwrap();
    assert!(trigger.terminate().is_err());
}

#[test]
fn incorrect_input() {
    let mut trigger = Trigger::new();
    assert!(trigger.process(br#"{"a": x}"#).is_err());
}

// Each data part must be found in the input after the previous one.
fn assert_pieces_of(outputs: &[Output], input: &[u8]) {
    let mut from = 0;
    for output in outputs {
        if let Output::Data(data) = output {
            let pos = (from..=input.len() - data.len())
                .find(|&i| &input[i..i + data.len()] == data.as_slice())
                .expect("data part is not a piece of the input");
            from = pos + data.len();
        }
    }
}

#[test]
fn filter_emits_pieces_of_input() {
    let input = get_filter_input();
    let mut filter = Filter::new();
    filter.add_matcher(simple(r#"{"users"}[1]"#), None).unwrap();
    let outputs = filter.process(&input).unwrap();
    assert!(outputs.iter().any(|o| matches!(o, Output::Data(_))));
    assert_pieces_of(&outputs, &input);
}

#[test]
fn extract_emits_pieces_of_input() {
    let input = get_extract_input();
    let mut extract = Extract::new();
    extract.add_matcher(simple(r#"{}[]{"name"}"#), None).unwrap();
    let outputs = extract.process(&input).unwrap();
    assert_eq!(outputs.iter().filter(|o| matches!(o, Output::Data(_))).count(), 3);
    assert_pieces_of(&outputs, &input);
}

#[test]
fn filter_without_matchers_keeps_input() {
    let input = get_filter_input();
    let mut filter = Filter::new();
    let mut output = vec![];
    for part in input.chunks(7) {
        for o in filter.process(part).unwrap() {
            if let Output::Data(data) = o {
                output.extend(data);
            }
        }
    }
    assert_eq!(output, input);
}

fn incorrect_input_at<T>(r: Result<T, streamson::error::General>) -> (u8, usize) {
    match r {
        Err(streamson::error::General::IncorrectInput(e)) => (e.byte, e.idx),
        _ => panic!("an incorrect input error was expected"),
    }
}

#[test]
fn invalid_first_byte() {
    let mut convert = Convert::new();
    assert_eq!(incorrect_input_at(convert.process(b"x")), (b'x', 0));
    let mut extract = Extract::new();
    assert_eq!(incorrect_input_at(extract.process(b"  x")), (b'x', 2));
    let mut filter = Filter::new();
    assert_eq!(incorrect_input_at(filter.process(b"x")), (b'x', 0));
    let mut trigger = Trigger::new();
    assert_eq!(incorrect_input_at(trigger.process(b"-1")), (b'-', 0));
    let mut all = All::new();
    assert_eq!(incorrect_input_at(all.process(b"x")), (b'x', 0));
}
