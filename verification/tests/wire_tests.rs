use collabori::data::Operation;
use collabori::errors::CollaboriError;
use collabori::wire::{deserialize, serialize};

fn ins(index: usize, value: char, id: &str) -> Operation {
    Operation::Insert { index, value, id: id.into() }
}

fn del(index: usize, id: &str) -> Operation {
    Operation::Delete { index, id: id.into() }
}

fn samples() -> Vec<Operation> {
    vec![
        ins(0, 'a', "1"),
        ins(1, 'b', "2"),
        ins(10, 'z', "0"),
        ins(usize::MAX, 'x', "6f1c2b9e-4a1d-4c57-9d0e-3b2a1f0e9d8c"),
        ins(7, '"', "quote\"inside"),
        ins(7, '\\', "back\\slash"),
        ins(7, '\n', "line\nbreak\r\ttab"),
        ins(7, '\u{08}', "\u{08}\u{0c}"),
        ins(7, '\u{00}', "\u{00}\u{01}\u{1f}\u{7f}"),
        ins(7, '/', "a/b"),
        ins(7, '\u{e9}', "caf\u{e9}"),
        ins(7, '\u{4e2d}', "\u{4e2d}\u{6587}"),
        ins(7, '\u{1f600}', "\u{1f600}"),
        ins(7, ' ', ""),
        ins(7, '}', "}}"),
        ins(7, ',', ",\"id\":\"x\"}}"),
        del(0, "1"),
        del(5, ""),
        del(usize::MAX, "last"),
        del(12345, "{\"Insert\":{\"index\":0}}"),
        del(9, "\u{10ffff}\u{d7ff}\u{e000}"),
    ]
}

#[test]
fn insert_is_written_as_a_tagged_record() {
    assert_eq!(serialize(&ins(0, 'a', "1")), "{\"Insert\":{\"index\":0,\"value\":\"a\",\"id\":\"1\"}}");
    assert_eq!(
        serialize(&ins(1, 'b', "2")),
        "{\"Insert\":{\"index\":1,\"value\":\"b\",\"id\":\"2\"}}"
    );
    assert_eq!(
        serialize(&ins(1234567890, 'Z', "id-7")),
        "{\"Insert\":{\"index\":1234567890,\"value\":\"Z\",\"id\":\"id-7\"}}"
    );
}

#[test]
fn delete_is_written_as_a_tagged_record() {
    assert_eq!(serialize(&del(2, "1")), "{\"Delete\":{\"index\":2,\"id\":\"1\"}}");
    assert_eq!(serialize(&del(0, "")), "{\"Delete\":{\"index\":0,\"id\":\"\"}}");
    assert_eq!(
        serialize(&del(usize::MAX, "x")),
        format!("{{\"Delete\":{{\"index\":{},\"id\":\"x\"}}}}", usize::MAX)
    );
}

#[test]
fn special_characters_are_escaped() {
    assert_eq!(
        serialize(&ins(0, '"', "a\\b")),
        "{\"Insert\":{\"index\":0,\"value\":\"\\\"\",\"id\":\"a\\\\b\"}}"
    );
    assert_eq!(
        serialize(&ins(0, '\n', "\r\t\u{08}\u{0c}")),
        "{\"Insert\":{\"index\":0,\"value\":\"\\n\",\"id\":\"\\r\\t\\b\\f\"}}"
    );
    assert_eq!(
        serialize(&ins(0, '\u{00}', "\u{01}\u{0b}\u{1f}")),
        "{\"Insert\":{\"index\":0,\"value\":\"\\u0000\",\"id\":\"\\u0001\\u000b\\u001f\"}}"
    );
    assert_eq!(
        serialize(&ins(0, '\u{7f}', "/\u{e9}\u{1f600}")),
        "{\"Insert\":{\"index\":0,\"value\":\"\u{7f}\",\"id\":\"/\u{e9}\u{1f600}\"}}"
    );
}

#[test]
fn every_operation_survives_the_round_trip() {
    for op in samples() {
        let text = serialize(&op);
        assert_eq!(deserialize(&text), Ok(op.clone()), "{}", text);
    }
}

#[test]
fn every_character_below_the_surrogates_survives_as_a_value() {
    for code in 0u32..0x3000 {
        let c = char::from_u32(code).unwrap();
        let op = ins(3, c, &format!("x{}y", c));
        assert_eq!(deserialize(&serialize(&op)), Ok(op));
    }
}

#[test]
fn generated_operations_survive_the_round_trip() {
    let mut rga = collabori::crdt::RGA::new();
    let a = rga.insert(0, 'a').unwrap();
    let b = rga.delete(0).unwrap();
    assert_eq!(deserialize(&serialize(&a)), Ok(a));
    assert_eq!(deserialize(&serialize(&b)), Ok(b));
}

#[test]
fn canonical_text_is_read() {
    assert_eq!(
        deserialize("{\"Insert\":{\"index\":0,\"value\":\"a\",\"id\":\"1\"}}"),
        Ok(ins(0, 'a', "1"))
    );
    assert_eq!(deserialize("{\"Delete\":{\"index\":42,\"id\":\"abc\"}}"), Ok(del(42, "abc")));
}

#[test]
fn every_escape_is_read() {
    assert_eq!(
        deserialize("{\"Delete\":{\"index\":1,\"id\":\"\\\"\\\\\\/\\b\\f\\n\\r\\t\"}}"),
        Ok(del(1, "\"\\/\u{08}\u{0c}\n\r\t"))
    );
    assert_eq!(
        deserialize("{\"Delete\":{\"index\":1,\"id\":\"\\u0041\\u00e9\\u00E9\\u4e2d\\uFFFF\"}}"),
        Ok(del(1, "A\u{e9}\u{e9}\u{4e2d}\u{ffff}"))
    );
    assert_eq!(
        deserialize("{\"Insert\":{\"index\":1,\"value\":\"\\u0061\",\"id\":\"\"}}"),
        Ok(ins(1, 'a', ""))
    );
}

fn refused(text: &str) {
    assert_eq!(deserialize(text), Err(CollaboriError::SerializationError), "{}", text);
}

#[test]
fn text_that_is_no_record_is_refused() {
    refused("");
    refused("not json");
    refused("{}");
    refused("null");
    refused("{\"Insert\":{}}");
    refused("{\"Update\":{\"index\":0,\"id\":\"1\"}}");
    refused("{\"insert\":{\"index\":0,\"value\":\"a\",\"id\":\"1\"}}");
    refused("{\"Insert\":{\"index\":0,\"value\":\"a\",\"id\":\"1\"}");
    refused("{\"Insert\":{\"index\":0,\"value\":\"a\",\"id\":\"1\"}}}");
    refused("{\"Insert\":{\"index\":0,\"value\":\"a\",\"id\":\"1\"}} ");
    refused(" {\"Insert\":{\"index\":0,\"value\":\"a\",\"id\":\"1\"}}");
    refused("{\"Insert\": {\"index\":0,\"value\":\"a\",\"id\":\"1\"}}");
    refused("{\"Insert\":{\"index\":0,\"id\":\"1\",\"value\":\"a\"}}");
    refused("{\"Insert\":{\"index\":0,\"id\":\"1\"}}");
    refused("{\"Delete\":{\"index\":0,\"value\":\"a\",\"id\":\"1\"}}");
    refused("{\"Delete\":{\"id\":\"1\",\"index\":0}}");
    refused("{\"Delete\":{\"index\":0}}");
}

#[test]
fn bad_positions_are_refused() {
    refused("{\"Delete\":{\"index\":,\"id\":\"1\"}}");
    refused("{\"Delete\":{\"index\":-1,\"id\":\"1\"}}");
    refused("{\"Delete\":{\"index\":+1,\"id\":\"1\"}}");
    refused("{\"Delete\":{\"index\":01,\"id\":\"1\"}}");
    refused("{\"Delete\":{\"index\":00,\"id\":\"1\"}}");
    refused("{\"Delete\":{\"index\":1.0,\"id\":\"1\"}}");
    refused("{\"Delete\":{\"index\":1e3,\"id\":\"1\"}}");
    refused("{\"Delete\":{\"index\":\"1\",\"id\":\"1\"}}");
    refused("{\"Delete\":{\"index\":0x10,\"id\":\"1\"}}");
    refused("{\"Delete\":{\"index\":\u{0661},\"id\":\"1\"}}");
    refused("{\"Delete\":{\"index\":18446744073709551616,\"id\":\"1\"}}");
    refused("{\"Delete\":{\"index\":99999999999999999999999999999999,\"id\":\"1\"}}");
    refused("{\"Delete\":{\"index\":184467440737095516150,\"id\":\"1\"}}");
}

#[test]
fn the_largest_position_is_read() {
    let text = format!("{{\"Delete\":{{\"index\":{},\"id\":\"1\"}}}}", usize::MAX);
    assert_eq!(deserialize(&text), Ok(del(usize::MAX, "1")));
    let below = format!("{{\"Delete\":{{\"index\":{},\"id\":\"1\"}}}}", usize::MAX - 1);
    assert_eq!(deserialize(&below), Ok(del(usize::MAX - 1, "1")));
}

#[test]
fn bad_strings_are_refused() {
    refused("{\"Delete\":{\"index\":0,\"id\":1}}");
    refused("{\"Delete\":{\"index\":0,\"id\":\"1}}");
    refused("{\"Delete\":{\"index\":0,\"id\":\"1\\\"}}");
    refused("{\"Delete\":{\"index\":0,\"id\":\"\\x41\"}}");
    refused("{\"Delete\":{\"index\":0,\"id\":\"\\u12\"}}");
    refused("{\"Delete\":{\"index\":0,\"id\":\"\\u12g4\"}}");
    refused("{\"Delete\":{\"index\":0,\"id\":\"\\ud800\"}}");
    refused("{\"Delete\":{\"index\":0,\"id\":\"\\udfff\"}}");
    refused("{\"Delete\":{\"index\":0,\"id\":\"\\ud83d\\ude00\"}}");
    refused("{\"Delete\":{\"index\":0,\"id\":\"a\nb\"}}");
    refused("{\"Delete\":{\"index\":0,\"id\":\"a\u{01}b\"}}");
    refused("{\"Delete\":{\"index\":0,\"id\":\"a\"b\"}}");
    refused("{\"Delete\":{\"index\":0,\"id\":'a'}}");
}

#[test]
fn a_value_must_be_one_character() {
    refused("{\"Insert\":{\"index\":0,\"value\":\"\",\"id\":\"1\"}}");
    refused("{\"Insert\":{\"index\":0,\"value\":\"ab\",\"id\":\"1\"}}");
    refused("{\"Insert\":{\"index\":0,\"value\":\"a\\n\",\"id\":\"1\"}}");
    refused("{\"Insert\":{\"index\":0,\"value\":97,\"id\":\"1\"}}");
    assert_eq!(
        deserialize("{\"Insert\":{\"index\":0,\"value\":\"\u{1f600}\",\"id\":\"1\"}}"),
        Ok(ins(0, '\u{1f600}', "1"))
    );
}

#[test]
fn the_text_is_json_with_the_fields_of_the_operation() {
    for op in samples() {
        let text = serialize(&op);
        let json: serde_json::Value = serde_json::from_str(&text).unwrap();
        let outer = json.as_object().unwrap();
        assert_eq!(outer.len(), 1);
        match &op {
            Operation::Insert { index, value, id } => {
                let fields = outer.get("Insert").unwrap().as_object().unwrap();
                assert_eq!(fields.len(), 3);
                assert_eq!(fields.get("index").unwrap().as_u64(), Some(*index as u64));
                assert_eq!(fields.get("value").unwrap().as_str(), Some(value.to_string().as_str()));
                assert_eq!(fields.get("id").unwrap().as_str(), Some(id.as_str()));
            }
            Operation::Delete { index, id } => {
                let fields = outer.get("Delete").unwrap().as_object().unwrap();
                assert_eq!(fields.len(), 2);
                assert_eq!(fields.get("index").unwrap().as_u64(), Some(*index as u64));
                assert_eq!(fields.get("id").unwrap().as_str(), Some(id.as_str()));
            }
        }
    }
}

#[test]
fn strings_are_quoted_as_a_json_writer_quotes_them() {
    for op in samples() {
        let text = serialize(&op);
        let id = serde_json::to_string(op.id().as_str()).unwrap();
        let index = serde_json::to_string(&op.index()).unwrap();
        let expected = match &op {
            Operation::Insert { value, .. } => {
                let value = serde_json::to_string(&value.to_string()).unwrap();
                format!("{{\"Insert\":{{\"index\":{},\"value\":{},\"id\":{}}}}}", index, value, id)
            }
            Operation::Delete { .. } => {
                format!("{{\"Delete\":{{\"index\":{},\"id\":{}}}}}", index, id)
            }
        };
        assert_eq!(text, expected);
    }
}
