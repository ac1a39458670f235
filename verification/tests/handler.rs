use streamson::handler::{
    Analyser, Buffer, Group, Handler, Indenter, Indexer, Output as OutputHandler, Regex, Replace,
    Shorten, Unstringify,
};
use streamson::matcher::{Combinator, Simple};
use streamson::path::Path;
use streamson::strategy::{All, Convert, Extract, Filter, OutputConverter, Strategy, Trigger};
use streamson::streamer::{ParsedKind, Token};

fn flatten(records: Vec<(Option<Path>, Vec<u8>)>) -> Vec<u8> {
    records.into_iter().map(|e| e.1).flatten().collect()
}

const ANALYSER_INPUT: &[u8] = br#"{"elements": [1, 2, 3, [41, 42, {"sub1": {"subsub": 1}, "sub2": null}]], "after": true, "last": [{"aaa": 1, "cc": "dd"}, {"aaa": 2, "extra": false}]}"#;

#[test]
fn analyser_handler() {
    let mut all = All::new();
    let analyser = all.add_handler(Handler::Analyser(Analyser::new())).unwrap();
    all.process(ANALYSER_INPUT).unwrap();

    let results = all.handlers().analyser_results(analyser).unwrap();
    assert_eq!(results.len(), 13);
    assert_eq!(results[0], ("".to_string(), 1));
    assert_eq!(results[1], (r#"{"after"}"#.to_string(), 1));
    assert_eq!(results[2], (r#"{"elements"}"#.to_string(), 1));
    assert_eq!(results[3], (r#"{"elements"}[]"#.to_string(), 4));
    assert_eq!(results[4], (r#"{"elements"}[][]"#.to_string(), 3));
    assert_eq!(results[5], (r#"{"elements"}[][]{"sub1"}"#.to_string(), 1));
    assert_eq!(
        results[6],
        (r#"{"elements"}[][]{"sub1"}{"subsub"}"#.to_string(), 1)
    );
    assert_eq!(results[7], (r#"{"elements"}[][]{"sub2"}"#.to_string(), 1));
    assert_eq!(results[8], (r#"{"last"}"#.to_string(), 1));
    assert_eq!(results[9], (r#"{"last"}[]"#.to_string(), 2));
    assert_eq!(results[10], (r#"{"last"}[]{"aaa"}"#.to_string(), 2));
    assert_eq!(results[11], (r#"{"last"}[]{"cc"}"#.to_string(), 1));
    assert_eq!(results[12], (r#"{"last"}[]{"extra"}"#.to_string(), 1));
}

#[test]
fn analyser_handler_with_types() {
    let mut all = All::new();
    let analyser = all
        .add_handler(Handler::Analyser(Analyser::new().set_group_types(true)))
        .unwrap();
    all.process(ANALYSER_INPUT).unwrap();

    let results = all.handlers().analyser_results(analyser).unwrap();
    assert_eq!(results.len(), 15);
    assert_eq!(results[0], ("<object>".to_string(), 1));
    assert_eq!(results[1], (r#"{"after"}<boolean>"#.to_string(), 1));
    assert_eq!(results[2], (r#"{"elements"}<array>"#.to_string(), 1));
    assert_eq!(results[3], (r#"{"elements"}[]<array>"#.to_string(), 1));
    assert_eq!(results[4], (r#"{"elements"}[]<number>"#.to_string(), 3));
    assert_eq!(results[5], (r#"{"elements"}[][]<number>"#.to_string(), 2));
    assert_eq!(results[6], (r#"{"elements"}[][]<object>"#.to_string(), 1));
    assert_eq!(
        results[7],
        (r#"{"elements"}[][]{"sub1"}<object>"#.to_string(), 1)
    );
    assert_eq!(
        results[8],
        (
            r#"{"elements"}[][]{"sub1"}{"subsub"}<number>"#.to_string(),
            1
        )
    );
    assert_eq!(
        results[9],
        (r#"{"elements"}[][]{"sub2"}<null>"#.to_string(), 1)
    );
    assert_eq!(results[10], (r#"{"last"}<array>"#.to_string(), 1));
    assert_eq!(results[11], (r#"{"last"}[]<object>"#.to_string(), 2));
    assert_eq!(results[12], (r#"{"last"}[]{"aaa"}<number>"#.to_string(), 2));
    assert_eq!(results[13], (r#"{"last"}[]{"cc"}<string>"#.to_string(), 1));
    assert_eq!(
        results[14],
        (r#"{"last"}[]{"extra"}<boolean>"#.to_string(), 1)
    );
}

// The state is read after each processed JSON and after the input ends.
#[test]
fn callbacks() {
    let mut all = All::new();
    let analyser = all.add_handler(Handler::Analyser(Analyser::new())).unwrap();
    let mut lengths = vec![];
    all.process(ANALYSER_INPUT).unwrap();
    lengths.push(all.handlers().analyser_results(analyser).unwrap().len());
    all.process(ANALYSER_INPUT).unwrap();
    lengths.push(all.handlers().analyser_results(analyser).unwrap().len());
    all.terminate().unwrap();
    let results = all.handlers().analyser_results(analyser).unwrap();
    let first_and_last = vec![results[0].clone(), results[results.len() - 1].clone()];

    assert_eq!(first_and_last.len(), 2);
    assert_eq!(first_and_last[0], (r#""#.to_string(), 2));
    assert_eq!(first_and_last[1], (r#"{"last"}[]{"extra"}"#.to_string(), 2));
    assert_eq!(lengths.len(), 2);
    assert_eq!(lengths[0], 13);
    assert_eq!(lengths[1], 13);
}

#[test]
fn max_buffer_size_error() {
    let mut trigger = Trigger::new();
    let buffer = trigger
        .add_handler(Handler::Buffer(Buffer::new().set_max_buffer_size(Some(22))))
        .unwrap();
    let matcher = Simple::new(r#"[]{"description"}"#).unwrap();
    trigger.add_matcher(matcher, buffer).unwrap();

    // Fits into the buffer
    assert!(trigger.process(br#"[{"description": "short"}, "#).is_ok());
    // Doesn't fit into the buffer
    assert!(trigger
        .process(br#"{"description": "too long description"}]"#)
        .is_err());
}

#[test]
fn max_buffer_size_consumed() {
    let mut trigger = Trigger::new();
    let buffer = trigger
        .add_handler(Handler::Buffer(Buffer::new().set_max_buffer_size(Some(22))))
        .unwrap();
    let matcher = Simple::new(r#"[]{"description"}"#).unwrap();
    trigger.add_matcher(matcher, buffer).unwrap();

    // Fits into the buffer
    assert!(trigger.process(br#"[{"description": "short"}, "#).is_ok());
    // Make the buffer shorter
    assert_eq!(
        trigger.buffer_pop(buffer).unwrap(),
        (None, br#""short""#.to_vec())
    );
    assert!(trigger
        .process(br#"{"description": "too long description"}]"#)
        .is_ok());
    // Make the buffer shorter
    assert_eq!(
        trigger.buffer_pop(buffer).unwrap(),
        (None, br#""too long description""#.to_vec())
    );
}

#[test]
fn nested_matches() {
    let mut trigger = Trigger::new();
    let buffer = trigger.add_handler(Handler::Buffer(Buffer::new())).unwrap();
    let matcher = Combinator::new(Simple::new(r#"{"nested"}"#).unwrap())
        | Combinator::new(Simple::new(r#"{"nested"}[]"#).unwrap());
    trigger.add_matcher(matcher, buffer).unwrap();
    assert!(trigger.process(br#"{"nested": ["1", "2", "3"]}"#).is_ok());

    assert_eq!(String::from_utf8(trigger.buffer_pop(buffer).unwrap().1).unwrap(), r#""1""#);
    assert_eq!(String::from_utf8(trigger.buffer_pop(buffer).unwrap().1).unwrap(), r#""2""#);
    assert_eq!(String::from_utf8(trigger.buffer_pop(buffer).unwrap().1).unwrap(), r#""3""#);
    assert_eq!(
        String::from_utf8(trigger.buffer_pop(buffer).unwrap().1).unwrap(),
        r#"["1", "2", "3"]"#
    );
    assert_eq!(trigger.buffer_pop(buffer), None);
}

fn nested_matcher() -> Combinator {
    Combinator::new(Simple::new(r#"{"nested"}"#).unwrap())
        | Combinator::new(Simple::new(r#"{"nested"}[1]"#).unwrap())
}

const CALLBACK_INPUTS: [&[u8]; 3] = [
    br#"{"nested": ["1", "2", "3"]}"#,
    br#"{"nested": ["4", "5", "6"]}"#,
    br#"{"nested": ["1"]}"#,
];

// The buffer length is read after each processed JSON and after the input
// ends.
#[test]
fn callbacks_convert() {
    let mut convert = Convert::new();
    let buffer = convert.add_handler(Handler::Buffer(Buffer::new())).unwrap();
    convert.add_matcher(nested_matcher(), vec![buffer]).unwrap();

    let mut json_data = vec![];
    for input in CALLBACK_INPUTS.iter() {
        assert!(convert.process(input).is_ok());
        json_data.push(convert.handlers().buffer_len(buffer));
    }
    let terminate_data = vec![convert.handlers().buffer_len(buffer)];

    assert_eq!(json_data.len(), 3);
    assert_eq!(json_data[0], 1);
    assert_eq!(json_data[1], 2);
    assert_eq!(json_data[2], 3);
    assert_eq!(terminate_data.len(), 1);
    assert_eq!(terminate_data[0], 3);
}

#[test]
fn callbacks_extract() {
    let mut extract = Extract::new();
    let buffer = extract.add_handler(Handler::Buffer(Buffer::new())).unwrap();
    extract.add_matcher(nested_matcher(), Some(buffer)).unwrap();

    let mut json_data = vec![];
    for input in CALLBACK_INPUTS.iter() {
        assert!(extract.process(input).is_ok());
        json_data.push(extract.handlers().buffer_len(buffer));
    }
    assert!(extract.terminate().is_ok());
    let terminate_data = vec![extract.handlers().buffer_len(buffer)];

    assert_eq!(json_data.len(), 3);
    assert_eq!(json_data[0], 1);
    assert_eq!(json_data[1], 2);
    assert_eq!(json_data[2], 3);
    assert_eq!(terminate_data.len(), 1);
    assert_eq!(terminate_data[0], 3);
}

#[test]
fn callbacks_filter() {
    let mut filter = Filter::new();
    let buffer = filter.add_handler(Handler::Buffer(Buffer::new())).unwrap();
    filter.add_matcher(nested_matcher(), Some(buffer)).unwrap();

    let mut json_data = vec![];
    for input in CALLBACK_INPUTS.iter() {
        assert!(filter.process(input).is_ok());
        json_data.push(filter.handlers().buffer_len(buffer));
    }
    assert!(filter.terminate().is_ok());
    let terminate_data = vec![filter.handlers().buffer_len(buffer)];

    assert_eq!(json_data.len(), 3);
    assert_eq!(json_data[0], 1);
    assert_eq!(json_data[1], 2);
    assert_eq!(json_data[2], 3);
    assert_eq!(terminate_data.len(), 1);
    assert_eq!(terminate_data[0], 3);
}

#[test]
fn callbacks_trigger() {
    let mut trigger = Trigger::new();
    let buffer = trigger.add_handler(Handler::Buffer(Buffer::new())).unwrap();
    trigger.add_matcher(nested_matcher(), buffer).unwrap();

    let mut json_data = vec![];
    for input in CALLBACK_INPUTS.iter() {
        assert!(trigger.process(input).is_ok());
        json_data.push(trigger.handlers().buffer_len(buffer));
    }
    assert!(trigger.terminate().is_ok());
    let terminate_data = vec![trigger.handlers().buffer_len(buffer)];

    assert_eq!(json_data.len(), 3);
    assert_eq!(json_data[0], 2);
    assert_eq!(json_data[1], 4);
    assert_eq!(json_data[2], 5);
    assert_eq!(terminate_data.len(), 1);
    assert_eq!(terminate_data[0], 5);
}

struct GroupIds {
    buffer1: usize,
    buffer2: usize,
    buffer3: usize,
    group: usize,
}

fn prepare_group<F>(mut add: F) -> GroupIds
where
    F: FnMut(Handler) -> usize,
{
    let buffer1 = add(Handler::Buffer(Buffer::new()));
    let replace = add(Handler::Replace(Replace::new(br#""ccccc""#.to_vec())));
    let buffer2 = add(Handler::Buffer(Buffer::new()));
    let shorten = add(Handler::Shorten(Shorten::new(3, r#"..""#.into())));
    let buffer3 = add(Handler::Buffer(Buffer::new()));
    let group = add(Handler::Group(
        Group::new()
            .add_handler(buffer1)
            .add_handler(replace)
            .add_handler(buffer2)
            .add_handler(shorten)
            .add_handler(buffer3),
    ));
    GroupIds { buffer1, buffer2, buffer3, group }
}

fn pop_str<F>(mut pop: F) -> Option<String>
where
    F: FnMut() -> Option<(Option<String>, Vec<u8>)>,
{
    pop().map(|e| String::from_utf8(e.1).unwrap())
}

#[test]
fn test_convert() {
    let mut convert = Convert::new();
    let ids = prepare_group(|h| convert.add_handler(h).unwrap());
    let matcher = Simple::new(r#"[]{"desc"}"#).unwrap();
    convert.add_matcher(matcher, vec![ids.group]).unwrap();

    let output: Vec<u8> = convert
        .process(br#"[{"desc": "aa"}, {"desc": "bbbbbb"}]"#)
        .unwrap()
        .into_iter()
        .flatten()
        .collect();

    // output
    assert_eq!(
        String::from_utf8(output).unwrap(),
        r#"[{"desc": "ccc.."}, {"desc": "ccc.."}]"#
    );

    // buffer1
    assert_eq!(pop_str(|| convert.buffer_pop(ids.buffer1)).unwrap(), r#""aa""#);
    assert_eq!(pop_str(|| convert.buffer_pop(ids.buffer1)).unwrap(), r#""bbbbbb""#);
    assert!(convert.buffer_pop(ids.buffer1).is_none());

    // buffer2
    assert_eq!(pop_str(|| convert.buffer_pop(ids.buffer2)).unwrap(), r#""ccccc""#);
    assert_eq!(pop_str(|| convert.buffer_pop(ids.buffer2)).unwrap(), r#""ccccc""#);
    assert!(convert.buffer_pop(ids.buffer2).is_none());

    // buffer3
    assert_eq!(pop_str(|| convert.buffer_pop(ids.buffer3)).unwrap(), r#""ccc..""#);
    assert_eq!(pop_str(|| convert.buffer_pop(ids.buffer3)).unwrap(), r#""ccc..""#);
    assert!(convert.buffer_pop(ids.buffer3).is_none());
}

#[test]
fn test_trigger() {
    let mut trigger = Trigger::new();
    let ids = prepare_group(|h| trigger.add_handler(h).unwrap());
    let matcher = Simple::new(r#"[]{"desc"}"#).unwrap();
    trigger.add_matcher(matcher, ids.group).unwrap();

    trigger
        .process(br#"[{"desc": "aa"}, {"desc": "bbbbbb"}]"#)
        .unwrap();

    // buffer1
    assert_eq!(pop_str(|| trigger.buffer_pop(ids.buffer1)).unwrap(), r#""aa""#);
    assert_eq!(pop_str(|| trigger.buffer_pop(ids.buffer1)).unwrap(), r#""bbbbbb""#);
    assert!(trigger.buffer_pop(ids.buffer1).is_none());

    // buffer2
    assert_eq!(pop_str(|| trigger.buffer_pop(ids.buffer2)).unwrap(), r#""ccccc""#);
    assert_eq!(pop_str(|| trigger.buffer_pop(ids.buffer2)).unwrap(), r#""ccccc""#);
    assert!(trigger.buffer_pop(ids.buffer2).is_none());

    // buffer3
    assert_eq!(pop_str(|| trigger.buffer_pop(ids.buffer3)).unwrap(), r#""ccc..""#);
    assert_eq!(pop_str(|| trigger.buffer_pop(ids.buffer3)).unwrap(), r#""ccc..""#);
    assert!(trigger.buffer_pop(ids.buffer3).is_none());
}

#[test]
fn test_filter() {
    let mut filter = Filter::new();
    let ids = prepare_group(|h| filter.add_handler(h).unwrap());
    let matcher = Simple::new(r#"[]{"desc"}"#).unwrap();
    filter.add_matcher(matcher, Some(ids.group)).unwrap();

    let output: Vec<u8> = flatten(
        OutputConverter::new().convert(
            &filter
                .process(br#"[{"desc": "aa"}, {"desc": "bbbbbb"}]"#)
                .unwrap(),
        ),
    );

    // output
    assert_eq!(String::from_utf8(output).unwrap(), r#"[{}, {}]"#);

    // buffer1
    assert_eq!(pop_str(|| filter.buffer_pop(ids.buffer1)).unwrap(), r#""aa""#);
    assert_eq!(pop_str(|| filter.buffer_pop(ids.buffer1)).unwrap(), r#""bbbbbb""#);
    assert!(filter.buffer_pop(ids.buffer1).is_none());

    // buffer2
    assert_eq!(pop_str(|| filter.buffer_pop(ids.buffer2)).unwrap(), r#""ccccc""#);
    assert_eq!(pop_str(|| filter.buffer_pop(ids.buffer2)).unwrap(), r#""ccccc""#);
    assert!(filter.buffer_pop(ids.buffer2).is_none());

    // buffer3
    assert_eq!(pop_str(|| filter.buffer_pop(ids.buffer3)).unwrap(), r#""ccc..""#);
    assert_eq!(pop_str(|| filter.buffer_pop(ids.buffer3)).unwrap(), r#""ccc..""#);
    assert!(filter.buffer_pop(ids.buffer3).is_none());
}

#[test]
fn test_extract() {}

#[test]
fn group_refers_to_registered_handlers_only() {
    let mut trigger = Trigger::new();
    assert!(trigger
        .add_handler(Handler::Group(Group::new().add_handler(0)))
        .is_err());
    let buffer = trigger.add_handler(Handler::Buffer(Buffer::new())).unwrap();
    assert!(trigger
        .add_handler(Handler::Group(Group::new().add_handler(buffer)))
        .is_ok());
    assert!(trigger.add_matcher(Simple::new("{}").unwrap(), 7).is_err());
}

fn make_all_with_spaces(level: Option<usize>) -> All {
    let mut all = All::new();
    all.set_convert(true);
    all.add_handler(Handler::Indenter(Indenter::new(level))).unwrap();
    all
}

#[test]
fn flat_array() {
    let input = b" [ \n 3 \n , null,true,\n false, \"10\"\n]".to_vec();

    // No indentation or spaces
    let mut all = make_all_with_spaces(None);
    assert_eq!(
        br#"[3,null,true,false,"10"]"#.to_vec(),
        OutputConverter::new().convert(&all.process(&input).unwrap())[0].1
    );

    // No indentation
    let mut all = make_all_with_spaces(Some(0));
    assert_eq!(
        b"[\n3,\nnull,\ntrue,\nfalse,\n\"10\"\n]\n".to_vec(),
        OutputConverter::new().convert(&all.process(&input).unwrap())[0].1
    );

    // 2 indentation
    let mut all = make_all_with_spaces(Some(2));
    assert_eq!(
        b"[\n  3,\n  null,\n  true,\n  false,\n  \"10\"\n]\n".to_vec(),
        OutputConverter::new().convert(&all.process(&input).unwrap())[0].1
    );
}

#[test]
fn nested_array() {
    let input = b" [ \n [3] \n , [],null,[[]], \"10\"\n,[[[]]]]".to_vec();

    // No indentation or spaces
    let mut all = make_all_with_spaces(None);
    assert_eq!(
        br#"[[3],[],null,[[]],"10",[[[]]]]"#.to_vec(),
        OutputConverter::new().convert(&all.process(&input).unwrap())[0].1
    );

    // No indentation
    let mut all = make_all_with_spaces(Some(0));
    assert_eq!(
        b"[\n[\n3\n],\n[],\nnull,\n[\n[]\n],\n\"10\",\n[\n[\n[]\n]\n]\n]\n".to_vec(),
        OutputConverter::new().convert(&all.process(&input).unwrap())[0].1
    );

    // 2 indentation
    let mut all = make_all_with_spaces(Some(2));
    assert_eq!(
        b"[\n  [\n    3\n  ],\n  [],\n  null,\n  [\n    []\n  ],\n  \"10\",\n  [\n    [\n      []\n    ]\n  ]\n]\n".to_vec(),
        OutputConverter::new().convert(&all.process(&input).unwrap())[0].1
    );
}

#[test]
fn flat_object() {
    let input =
        b" { \n \"1\" \n: 1 , \"2\":\"2\",   \"3\": null\n, \"4\":\n\nfalse\n\n\n}".to_vec();

    // No indentation or spaces
    let mut all = make_all_with_spaces(None);
    assert_eq!(
        br#"{"1":1,"2":"2","3":null,"4":false}"#.to_vec(),
        OutputConverter::new().convert(&all.process(&input).unwrap())[0].1
    );

    // No indentation
    let mut all = make_all_with_spaces(Some(0));
    assert_eq!(
        b"{\n\"1\": 1,\n\"2\": \"2\",\n\"3\": null,\n\"4\": false\n}\n".to_vec(),
        OutputConverter::new().convert(&all.process(&input).unwrap())[0].1
    );

    // 2 indentation
    let mut all = make_all_with_spaces(Some(2));
    assert_eq!(
        b"{\n  \"1\": 1,\n  \"2\": \"2\",\n  \"3\": null,\n  \"4\": false\n}\n".to_vec(),
        OutputConverter::new().convert(&all.process(&input).unwrap())[0].1
    );
}

#[test]
fn nested_object() {
    let input =
        b" { \n \"1\" \n: {} , \"2\":{\"2a\": {}},   \"3\": null\n, \"4\":\n\n{\"4a\": {\"4aa\": {}}}\n\n\n}".to_vec();

    // No indentation or spaces
    let mut all = make_all_with_spaces(None);
    assert_eq!(
        br#"{"1":{},"2":{"2a":{}},"3":null,"4":{"4a":{"4aa":{}}}}"#.to_vec(),
        OutputConverter::new().convert(&all.process(&input).unwrap())[0].1
    );

    // No indentation
    let mut all = make_all_with_spaces(Some(0));
    assert_eq!(
        b"{\n\"1\": {},\n\"2\": {\n\"2a\": {}\n},\n\"3\": null,\n\"4\": {\n\"4a\": {\n\"4aa\": {}\n}\n}\n}\n".to_vec(),
        OutputConverter::new().convert(&all.process(&input).unwrap())[0].1
    );

    // 2 indentation
    let mut all = make_all_with_spaces(Some(2));
    assert_eq!(
        b"{\n  \"1\": {},\n  \"2\": {\n    \"2a\": {}\n  },\n  \"3\": null,\n  \"4\": {\n    \"4a\": {\n      \"4aa\": {}\n    }\n  }\n}\n".to_vec(),
        OutputConverter::new().convert(&all.process(&input).unwrap())[0].1
    );
}

#[test]
fn indenter_complex() {
    let input =
        b" { \n \"1\" \n: [] , \"2\":{\"2a\": []},   \"3\": null\n, \"4\":\n\n[ {\"4aa\": {}}]\n\n\n}".to_vec();

    // No indentation or spaces
    let mut all = make_all_with_spaces(None);
    assert_eq!(
        br#"{"1":[],"2":{"2a":[]},"3":null,"4":[{"4aa":{}}]}"#.to_vec(),
        OutputConverter::new().convert(&all.process(&input).unwrap())[0].1
    );

    // No indentation
    let mut all = make_all_with_spaces(Some(0));
    assert_eq!(
        b"{\n\"1\": [],\n\"2\": {\n\"2a\": []\n},\n\"3\": null,\n\"4\": [\n{\n\"4aa\": {}\n}\n]\n}\n".to_vec(),
        OutputConverter::new().convert(&all.process(&input).unwrap())[0].1
    );

    // 2 indentation
    let mut all = make_all_with_spaces(Some(2));
    assert_eq!(
        b"{\n  \"1\": [],\n  \"2\": {\n    \"2a\": []\n  },\n  \"3\": null,\n  \"4\": [\n    {\n      \"4aa\": {}\n    }\n  ]\n}\n".to_vec(),
        OutputConverter::new().convert(&all.process(&input).unwrap())[0].1
    );
}


#[test]
fn indenter_leafs() {
    let cases: Vec<(Option<usize>, &[u8], &[u8])> = vec![
        (None, b"null", b"null"),
        (Some(0), b"null", b"null\n"),
        (Some(2), b"null", b"null\n"),
        (None, b"{}", b"{}"),
        (Some(0), b"{}", b"{}\n"),
        (Some(2), b"{}", b"{}\n"),
        (None, b"[]", b"[]"),
        (Some(0), b"[]", b"[]\n"),
        (Some(2), b"[]", b"[]\n"),
        (None, br#""str""#, br#""str""#),
        (Some(0), br#""str""#, b"\"str\"\n"),
        (Some(2), br#""str""#, b"\"str\"\n"),
    ];
    let befores: [&[u8]; 4] = [b"\n\n", b"\n", b" ", b""];
    let afters: [&[u8]; 3] = [b"\n\n", b"\n", b" "];
    for (spaces, input, output) in cases {
        for before in befores.iter() {
            for after in afters.iter() {
                let mut all = make_all_with_spaces(spaces);
                let mut final_input = vec![];
                final_input.extend(before.iter());
                final_input.extend(input);
                final_input.extend(after.iter());
                let result = OutputConverter::new().convert(&all.process(&final_input).unwrap());
                assert_eq!(result.len(), 1);
                assert_eq!((None, output.to_vec()), result[0]);
            }
        }
    }
}

#[test]
fn indexer_handler() {
    let mut trigger = Trigger::new();

    let indexer = trigger.add_handler(Handler::Indexer(Indexer::new())).unwrap();
    let buffer = trigger.add_handler(Handler::Buffer(Buffer::new())).unwrap();
    let group = trigger
        .add_handler(Handler::Group(Group::new().add_handler(indexer).add_handler(buffer)))
        .unwrap();
    let matcher_all = Simple::new(r#"{"elements"}"#).unwrap();
    let matcher_elements = Simple::new(r#"{"elements"}[]"#).unwrap();

    trigger.add_matcher(matcher_all, indexer).unwrap();
    trigger.add_matcher(matcher_elements, group).unwrap();

    trigger.process(br#"{"elements": [1, 2, 3, 4]}"#).unwrap();

    // Test indexer handler
    assert_eq!(trigger.indexer_pop(indexer).unwrap(), (None, Token::Start(13, ParsedKind::Arr)));
    assert_eq!(trigger.indexer_pop(indexer).unwrap(), (None, Token::Start(14, ParsedKind::Num)));
    assert_eq!(trigger.indexer_pop(indexer).unwrap(), (None, Token::End(15, ParsedKind::Num)));
    assert_eq!(trigger.indexer_pop(indexer).unwrap(), (None, Token::Start(17, ParsedKind::Num)));
    assert_eq!(trigger.indexer_pop(indexer).unwrap(), (None, Token::End(18, ParsedKind::Num)));
    assert_eq!(trigger.indexer_pop(indexer).unwrap(), (None, Token::Start(20, ParsedKind::Num)));
    assert_eq!(trigger.indexer_pop(indexer).unwrap(), (None, Token::End(21, ParsedKind::Num)));
    assert_eq!(trigger.indexer_pop(indexer).unwrap(), (None, Token::Start(23, ParsedKind::Num)));
    assert_eq!(trigger.indexer_pop(indexer).unwrap(), (None, Token::End(24, ParsedKind::Num)));
    assert_eq!(trigger.indexer_pop(indexer).unwrap(), (None, Token::End(25, ParsedKind::Arr)));

    // Test whether buffer handler contains the right data
    assert_eq!(trigger.buffer_pop(buffer).unwrap(), (None, vec![b'1']));
    assert_eq!(trigger.buffer_pop(buffer).unwrap(), (None, vec![b'2']));
    assert_eq!(trigger.buffer_pop(buffer).unwrap(), (None, vec![b'3']));
    assert_eq!(trigger.buffer_pop(buffer).unwrap(), (None, vec![b'4']));
}

fn make_output(matcher: Simple, handler: OutputHandler, input: &[u8]) -> String {
    let mut trigger = Trigger::new();
    let id = trigger.add_handler(Handler::Output(handler)).unwrap();
    trigger.add_matcher(matcher, id).unwrap();
    trigger.process(input).unwrap();
    match trigger.handlers().get(id).unwrap() {
        Handler::Output(o) => String::from_utf8(o.written_data().to_vec()).unwrap(),
        _ => panic!("not an output handler"),
    }
}

#[test]
fn output_basic() {
    let matcher = Simple::new(r#"{"aa"}[]"#).unwrap();
    let handler = OutputHandler::new();
    let output = make_output(matcher, handler, br#"{"aa": [1, 2, "u"], "b": true}"#);
    assert_eq!(output, "1\n2\n\"u\"\n");
}

#[test]
fn output_separator() {
    let matcher = Simple::new(r#"{"aa"}[]"#).unwrap();
    let handler = OutputHandler::new().set_separator("XXX");
    let output = make_output(matcher, handler, br#"{"aa": [1, 2, "u"], "b": true}"#);
    assert_eq!(output, r#"1XXX2XXX"u"XXX"#);
}

#[test]
fn output_use_path() {
    let matcher = Simple::new(r#"{"aa"}[]"#).unwrap();
    let handler = OutputHandler::new().set_write_path(true);
    let output = make_output(matcher, handler, br#"{"aa": [1, 2, "u"], "b": true}"#);
    assert_eq!(output, "{\"aa\"}[0]: 1\n{\"aa\"}[1]: 2\n{\"aa\"}[2]: \"u\"\n");
}

#[test]
fn regex_converter() {
    let mut convert = Convert::new();
    let regex = convert
        .add_handler(Handler::Regex(
            Regex::new().add_regex("s/[Uu]ser([0-9]+)/user$1/".to_string()),
        ))
        .unwrap();
    let matcher = Simple::new(r#"[]{"name"}"#).unwrap();
    convert.add_matcher(matcher, vec![regex]).unwrap();

    let output: Vec<u8> = convert
        .process(br#"[{"name": "User1 User1"}, {"name": "user2"}]"#)
        .unwrap()
        .into_iter()
        .flatten()
        .collect();

    assert_eq!(
        String::from_utf8(output).unwrap(),
        r#"[{"name": "user1 User1"}, {"name": "user2"}]"#
    );
}

#[test]
fn regex_invalid_command() {
    assert!(Regex::from_str("s/a/b/").is_ok());
    assert!(Regex::from_str("x").is_err());
    let mut convert = Convert::new();
    let regex = convert
        .add_handler(Handler::Regex(Regex::new().add_regex("not a command".to_string())))
        .unwrap();
    convert
        .add_matcher(Simple::new(r#"[]{"name"}"#).unwrap(), vec![regex])
        .unwrap();
    assert!(convert.process(br#"[{"name": "User1"}]"#).is_err());
}

#[test]
fn shorten_handler() {
    let mut convert = Convert::new();
    let shorten = convert
        .add_handler(Handler::Shorten(Shorten::new(10, "..\"".to_string())))
        .unwrap();
    let matcher = Simple::new(r#"[]{"description"}"#).unwrap();

    convert.add_matcher(matcher, vec![shorten]).unwrap();
    let output = convert
        .process(br#"[{"description": "too long description"}, {"description": "short"}]"#)
        .unwrap();

    let output: Vec<u8> = output.into_iter().flatten().collect();

    assert_eq!(
        String::from_utf8(output).unwrap(),
        r#"[{"description": "too long d.."}, {"description": "short"}]"#
    );
}

#[test]
fn shorten_handler_parts() {
    let mut convert = Convert::new();
    let shorten = convert
        .add_handler(Handler::Shorten(Shorten::new(10, "..\"".to_string())))
        .unwrap();
    let matcher = Simple::new(r#"[]{"description"}"#).unwrap();

    convert.add_matcher(matcher, vec![shorten]).unwrap();
    let mut output = convert.process(br#"[{"description": "t"#).unwrap();

    output.extend(convert.process(br#"oo long d"#).unwrap());

    output.extend(
        convert
            .process(br#"escription"}, {"description": "short"}]"#)
            .unwrap(),
    );

    let output: Vec<u8> = output.into_iter().flatten().collect();

    assert_eq!(
        String::from_utf8(output).unwrap(),
        r#"[{"description": "too long d.."}, {"description": "short"}]"#
    );
}

#[test]
fn shorten_from_str() {
    let mut shorten = Shorten::from_str("3,..").unwrap();
    let out = shorten.feed(b"abcdef", 0).unwrap().unwrap();
    assert_eq!(out, b"abcd..".to_vec());
    assert!(shorten.feed(b"xyz", 0).unwrap().is_none());
    assert!(Shorten::from_str("x,..").is_err());
}

#[test]
fn unstringify_handler_ok() {
    let mut convert = Convert::new();
    let unstringify = convert.add_handler(Handler::Unstringify(Unstringify::new())).unwrap();
    let matcher = Simple::new(r#"[]{"stringified"}[]"#).unwrap();

    convert.add_matcher(matcher, vec![unstringify]).unwrap();
    let mut output = convert
        .process(br#"[{"stringified": ["true", "false", "null", "11", "\"\""]},"#)
        .unwrap();

    output.extend(
        convert
            .process(br#" {"stringified": ["\"inner\"", "[]", "{}", "{\"key\": \"value\"}"]}]"#)
            .unwrap(),
    );

    let output: Vec<u8> = output.into_iter().flatten().collect();

    assert_eq!(
        String::from_utf8(output).unwrap(),
        r#"[{"stringified": [true, false, null, 11, ""]}, {"stringified": ["inner", [], {}, {"key": "value"}]}]"#
    );
}

#[test]
fn unstringify_errors() {
    let mut convert = Convert::new();
    let unstringify = convert.add_handler(Handler::Unstringify(Unstringify::new())).unwrap();
    convert
        .add_matcher(Simple::new(r#"[]"#).unwrap(), vec![unstringify])
        .unwrap();
    // only strings can be unstringified
    assert!(convert.process(br#"[1]"#).is_err());
}

#[test]
fn buffer_fifo() {
    let mut buffer = Buffer::new().set_use_path(true);
    let path = Path::try_from(r#"{"a"}"#).unwrap();
    assert!(buffer.start(&path, 0, Token::Start(5, ParsedKind::Str)).is_ok());
    assert!(buffer.feed(b"\"x\"", 0).is_ok());
    assert!(buffer.end(&path, 0, Token::End(8, ParsedKind::Str)).is_ok());
    assert!(buffer.start(&path, 0, Token::Start(10, ParsedKind::Num)).is_ok());
    assert!(buffer.feed(b"42", 0).is_ok());
    assert!(buffer.end(&path, 0, Token::End(12, ParsedKind::Num)).is_ok());
    assert_eq!(buffer.len(), 2);
    assert_eq!(buffer.pop(), Some((Some(r#"{"a"}"#.to_string()), b"\"x\"".to_vec())));
    assert_eq!(buffer.pop(), Some((Some(r#"{"a"}"#.to_string()), b"42".to_vec())));
    assert!(buffer.is_empty());
    assert_eq!(buffer.pop(), None);
    // an end without a start is refused
    assert!(buffer.end(&path, 0, Token::End(12, ParsedKind::Num)).is_err());
}

#[test]
fn buffer_from_str() {
    assert!(Buffer::from_str("true").is_ok());
    assert!(Buffer::from_str("false,10").is_ok());
    assert!(Buffer::from_str("yes").is_err());
    assert!(Buffer::from_str("true,x").is_err());
    assert!(Buffer::from_str("true,1,2").is_err());
}

#[test]
fn analyser_from_str() {
    assert!(Analyser::from_str("").is_ok());
    assert!(Analyser::from_str("true").is_ok());
    assert!(Analyser::from_str("1").is_err());
}

#[test]
fn replace_from_str() {
    let mut replace = Replace::from_str("***").unwrap();
    let path = Path::try_from("").unwrap();
    assert_eq!(
        replace.end(&path, 0, Token::End(1, ParsedKind::Num)).unwrap(),
        Some(b"***".to_vec())
    );
}

#[test]
fn buffer_limit_message() {
    let mut buffer = Buffer::new().set_max_buffer_size(Some(3));
    let path = Path::try_from(r#"{"a"}"#).unwrap();
    buffer.start(&path, 0, Token::Start(0, ParsedKind::Str)).unwrap();
    assert!(buffer.feed(b"\"ab", 0).is_ok());
    let err = buffer.feed(b"c\"", 0).unwrap_err();
    assert_eq!(err.reason, "Max buffer size 3 was reached");
}

fn buffer_error(input: &str) -> String {
    match Buffer::from_str(input) {
        Ok(_) => panic!("an error was expected"),
        Err(e) => e.reason,
    }
}

#[test]
fn buffer_definition_messages() {
    assert_eq!(buffer_error("yes"), "provided string was not `true` or `false`");
    assert_eq!(buffer_error("true,x"), "invalid digit found in string");
    assert_eq!(buffer_error("true,1,2"), "Failed to parse");
}

#[test]
fn unstringify_messages() {
    let mut unstringify = Unstringify::new();
    let path = Path::try_from(r#"{"a"}"#).unwrap();
    assert_eq!(
        unstringify.start(&path, 0, Token::Start(0, ParsedKind::Num)).unwrap_err().reason,
        "Unstringified data is supposed to be a string."
    );
    unstringify.start(&path, 0, Token::Start(0, ParsedKind::Str)).unwrap();
    unstringify.feed(b"\"ab", 0).unwrap();
    assert_eq!(
        unstringify.end(&path, 0, Token::End(3, ParsedKind::Str)).unwrap_err().reason,
        "String does not ended"
    );
}

fn shorten_parts(parts: &[&[u8]]) -> Vec<u8> {
    let mut shorten = Shorten::new(3, "..\"".to_string());
    let mut out = vec![];
    for part in parts {
        if let Some(data) = shorten.feed(part, 0).unwrap() {
            out.extend(data);
        }
    }
    out
}

#[test]
fn shorten_split_parts() {
    let whole = shorten_parts(&[b"\"abcdef\""]);
    assert_eq!(whole, b"\"abc..\"".to_vec());
    assert_eq!(shorten_parts(&[b"\"a", b"bcdef\""]), whole);
    assert_eq!(shorten_parts(&[b"\"abcd", b"ef\""]), whole);
    assert_eq!(shorten_parts(&[b"\"ab", b"cdef\""]), whole);
    assert_eq!(shorten_parts(&[b"\"ab", b"", b"c", b"def\""]), whole);
}

#[test]
fn regex_handler_messages() {
    let path = Path::try_from(r#"{"a"}"#).unwrap();
    let mut regex = Regex::new().add_regex("s/a/b/".to_string());
    regex.start(&path, 0, Token::Start(0, ParsedKind::Str)).unwrap();
    regex.feed(b"\"\xff\"", 0).unwrap();
    let err = regex.end(&path, 0, Token::End(3, ParsedKind::Str)).unwrap_err();
    assert_eq!(err.reason, std::str::from_utf8(b"\"\xff\"").unwrap_err().to_string());

    let mut regex = Regex::new().add_regex("q/a/b/".to_string());
    regex.start(&path, 0, Token::Start(0, ParsedKind::Str)).unwrap();
    regex.feed(b"\"a\"", 0).unwrap();
    let err = regex.end(&path, 0, Token::End(3, ParsedKind::Str)).unwrap_err();
    assert!(err.reason.starts_with("Parsing error: "));
}
