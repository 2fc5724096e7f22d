// The bulk layers on real parsed input: the chunked stream, the large-object
// splitter, the line streamer and the column pivot.

use json_flattener::{
    flatten_json, flatten_json_stream, flatten_json_text, process_large_json, process_lines,
    process_stream, split_large_object, to_columns, usize_to_string, FlatRecord, FlattenOptions,
    JsonValue, RecordingSink,
};

#[test]
fn test_flatten_text_scenario_defaults() {
    let options = FlattenOptions::default();
    let flattened = flatten_json_text("{\"a\":{\"b\":1,\"c\":[true,false]}}", &options).unwrap();
    assert_eq!(flattened.get("a.b"), Some(&"1".to_string()));
    assert_eq!(flattened.get("a.c.0"), Some(&"true".to_string()));
    assert_eq!(flattened.get("a.c.1"), Some(&"false".to_string()));
    assert_eq!(flattened.keys().len(), 3);
}

#[test]
fn test_flatten_text_depth_two() {
    let mut options = FlattenOptions::default();
    options.max_depth = 2;
    let flattened = flatten_json_text("{\"a\":{\"b\":{\"c\":1}}}", &options).unwrap();
    assert_eq!(flattened.get("a.b"), Some(&"{\"c\":1}".to_string()));
    assert_eq!(flattened.keys().len(), 1);
}

#[test]
fn test_flatten_text_rejects_bad_document() {
    let options = FlattenOptions::default();
    let err = match flatten_json_text("{\"a\": ", &options) {
        Err(e) => e,
        Ok(_) => panic!("a truncated document must be rejected"),
    };
    assert!(err.line >= 1);
    assert!(err.column >= 1);
}

#[test]
fn test_lines_stop_at_first_bad_line() {
    let options = FlattenOptions::default();
    let lines: Vec<String> = vec![
        "{\"a\":1}".to_string(),
        "   ".to_string(),
        "{\"b\":2}".to_string(),
        "{not json".to_string(),
        "{\"c\":3}".to_string(),
    ];
    let mut sink = RecordingSink::new();
    let err = process_lines(&lines, &mut sink, &options).unwrap_err();
    assert_eq!(err.line, 4);
    assert_eq!(err.delivered, 2);
    assert_eq!(sink.records.len(), 2);
    assert_eq!(sink.records[0].get("a"), Some(&"1".to_string()));
    assert_eq!(sink.records[1].get("b"), Some(&"2".to_string()));
}

#[test]
fn test_recording_sink_receives_each_record_in_order() {
    let options = FlattenOptions::default();
    let lines: Vec<String> = vec![
        "{\"n\":\"first\"}".to_string(),
        " ".to_string(),
        "{\"n\":\"second\"}".to_string(),
    ];
    let mut sink = RecordingSink::new();
    let delivered = process_lines(&lines, &mut sink, &options).unwrap();
    assert_eq!(delivered, 2);
    assert_eq!(sink.records.len(), 2);
    assert_eq!(sink.records[0].get("n"), Some(&"first".to_string()));
    assert_eq!(sink.records[1].get("n"), Some(&"second".to_string()));
}

#[test]
fn test_lines_all_good_counts_records() {
    let options = FlattenOptions::default();
    let lines: Vec<String> = vec![
        "".to_string(),
        "{\"a\":{\"b\":true}}".to_string(),
        "\t ".to_string(),
        "[1,2]".to_string(),
    ];
    let mut sink = RecordingSink::new();
    let delivered = process_lines(&lines, &mut sink, &options).unwrap();
    assert_eq!(delivered, 2);
    assert_eq!(sink.records[0].get("a.b"), Some(&"true".to_string()));
    assert_eq!(sink.records[1].get(".0"), Some(&"1".to_string()));
    assert_eq!(sink.records[1].get(".1"), Some(&"2".to_string()));
}

#[test]
fn test_stream_order_independent_of_concurrency() {
    let docs: Vec<JsonValue> = (0..5)
        .map(|i: usize| {
            JsonValue::Object(vec![(
                "i".to_string(),
                JsonValue::Number(usize_to_string(i)),
            )])
        })
        .collect();

    let mut one = FlattenOptions::default();
    one.chunk_size = 2;
    one.max_concurrency = 1;
    let mut eight = FlattenOptions::default();
    eight.chunk_size = 2;
    eight.max_concurrency = 8;

    let r1 = process_stream(&docs, &one);
    let r8 = process_stream(&docs, &eight);
    assert_eq!(r1.len(), 5);
    assert_eq!(r8.len(), 5);
    for i in 0..5 {
        let expected = usize_to_string(i);
        assert_eq!(r1[i].get("i"), Some(&expected));
        assert_eq!(r8[i].get("i"), Some(&expected));
    }
}

#[test]
fn test_stream_text_in_order() {
    let mut options = FlattenOptions::default();
    options.chunk_size = 2;
    let text = "{\"n\":\"a\"}\n{\"n\":\"b\"}\n{\"n\":\"c\"}\n{\"n\":\"d\"}\n{\"n\":\"e\"}";
    let records = flatten_json_stream(text, &options).unwrap();
    assert_eq!(records.len(), 5);
    let expected = ["a", "b", "c", "d", "e"];
    for i in 0..5 {
        assert_eq!(records[i].get("n"), Some(&expected[i].to_string()));
    }
}

#[test]
fn test_stream_error_discards_everything() {
    let options = FlattenOptions::default();
    let text = "{\"a\":1}\n{\"b\":2}\n{oops\n{\"c\":3}";
    let result = flatten_json_stream(text, &options);
    assert!(result.is_err());
}

#[test]
fn test_split_large_object_matches_engine() {
    let options = FlattenOptions::default();
    let text = "{\"a\":{\"x\":1},\"b\":[true,null],\"c\":\"s\"}";
    let split = process_large_json(text, &options).unwrap();
    let plain = flatten_json_text(text, &options).unwrap();
    for key in ["a.x", "b.0", "b.1", "c"] {
        assert_eq!(split.get(key), plain.get(key));
        assert!(split.get(key).is_some());
    }
    assert_eq!(split.keys().len(), 4);
}

#[test]
fn test_split_non_object_flattens_whole() {
    let options = FlattenOptions::default();
    let value = JsonValue::Array(vec![JsonValue::Bool(true), JsonValue::Null]);
    let record = split_large_object(&value, &options);
    assert_eq!(record.get(".0"), Some(&"true".to_string()));
    assert_eq!(record.get(".1"), Some(&"null".to_string()));
}

#[test]
fn test_split_counts_depth_from_each_entry() {
    // The splitter starts each top-level entry at depth zero, so a depth
    // limit of one serializes one level lower than whole-tree flattening.
    let mut options = FlattenOptions::default();
    options.max_depth = 1;
    let text = "{\"a\":{\"b\":1}}";
    let split = process_large_json(text, &options).unwrap();
    assert_eq!(split.get("a.b"), Some(&"1".to_string()));
    let plain = flatten_json_text(text, &options).unwrap();
    assert_eq!(plain.get("a"), Some(&"{\"b\":1}".to_string()));
}

#[test]
fn test_large_json_rejects_bad_document() {
    let options = FlattenOptions::default();
    assert!(process_large_json("[1, 2", &options).is_err());
}

#[test]
fn test_columns_fill_missing_cells() {
    let options = FlattenOptions::default();
    let records = vec![
        flatten_json_text("{\"a\":1,\"b\":2}", &options).unwrap(),
        flatten_json_text("{\"a\":3}", &options).unwrap(),
    ];
    let cols = to_columns(&records, "");
    assert_eq!(cols.len(), 2);
    let a = cols.iter().find(|c| c.0 == "a").unwrap();
    let b = cols.iter().find(|c| c.0 == "b").unwrap();
    assert_eq!(a.1, vec!["1".to_string(), "3".to_string()]);
    assert_eq!(b.1, vec!["2".to_string(), "".to_string()]);

    let cols_null = to_columns(&records, "null");
    let b_null = cols_null.iter().find(|c| c.0 == "b").unwrap();
    assert_eq!(b_null.1, vec!["2".to_string(), "null".to_string()]);
}

#[test]
fn test_columns_of_nothing_is_empty() {
    let records: Vec<FlatRecord> = Vec::new();
    let cols = to_columns(&records, "");
    assert_eq!(cols.len(), 0);
}

#[test]
fn test_parse_reads_tree_not_text() {
    // A document whose flat record differs from any echo of the input text.
    let options = FlattenOptions::default();
    let flattened = flatten_json_text(" { \"k\" : \"v v\" } ", &options).unwrap();
    assert_eq!(flattened.get("k"), Some(&"v v".to_string()));
    assert_eq!(flattened.keys().len(), 1);

    let direct = flatten_json(
        &JsonValue::Object(vec![("k".to_string(), JsonValue::String("v v".to_string()))]),
        &options,
    );
    assert_eq!(direct.get("k"), flattened.get("k"));
}

#[test]
fn test_stream_array_root_per_element() {
    let mut options = FlattenOptions::default();
    options.chunk_size = 2;
    let text = "[{\"n\":\"a\"},{\"n\":\"b\"},{\"n\":\"c\"}]";
    let records = flatten_json_stream(text, &options).unwrap();
    assert_eq!(records.len(), 3);
    let expected = ["a", "b", "c"];
    for i in 0..3 {
        assert_eq!(records[i].get("n"), Some(&expected[i].to_string()));
    }
}

#[test]
fn test_stream_single_document_one_record() {
    let options = FlattenOptions::default();
    let records = flatten_json_stream("{\"a\":{\"b\":1}}", &options).unwrap();
    assert_eq!(records.len(), 1);
    assert_eq!(records[0].get("a.b"), Some(&"1".to_string()));
}
