//! JSON documents, strict records and text helpers.

use edge_agent_core::json;
use edge_agent_core::json::{Json, ObjectWriter};
use edge_agent_core::record;
use edge_agent_core::text;

#[test]
fn strings_are_escaped_as_the_reader_expects() {
    let all: String = (0u8..128).map(|b| b as char).chain("é中😀".chars()).collect();
    let written = Json::string(&all);
    let expected = serde_json::Value::from(all.as_str()).to_string();
    assert_eq!(written.text, expected);
    assert_eq!(written.as_str(), Some(all));
}

#[test]
fn control_characters_have_their_short_forms() {
    assert_eq!(Json::string("\u{1}\t\u{1f}\u{8}\u{c}\r").text, "\"\\u0001\\t\\u001f\\b\\f\\r\"");
    assert_eq!(Json::string("a/b\u{7f}").text, "\"a/b\u{7f}\"");
}

#[test]
fn writer_puts_members_together() {
    let doc = ObjectWriter::new()
        .string("a", "x")
        .raw("b", "[1,2]")
        .opt_string("c", &None)
        .opt_string("d", &Some("y".to_string()))
        .close();
    assert_eq!(doc.text, "{\"a\":\"x\",\"b\":[1,2],\"c\":null,\"d\":\"y\"}");
    assert_eq!(Json::empty_object().text, "{}");
    assert_eq!(json::string_array(&[]).text, "[]");
    assert_eq!(
        json::string_array(&["p".to_string(), "q\"".to_string()]).text,
        "[\"p\",\"q\\\"\"]"
    );
}

#[test]
fn parsing_compacts_and_refuses() {
    assert_eq!(Json::parse(" { \"b\" : 1 , \"a\" : [ ] } ").unwrap().text, "{\"a\":[],\"b\":1}");
    assert!(Json::parse("{\"a\":").is_none());
    assert!(Json::parse("").is_none());
    assert!(Json::parse("null").unwrap().is_null());
    assert!(!Json::parse("0").unwrap().is_null());
}

#[test]
fn members_and_elements() {
    let doc = Json::parse("{\"name\":\"n\",\"list\":[true,{\"k\":2}]}").unwrap();
    assert_eq!(doc.get("name").unwrap().as_str(), Some("n".to_string()));
    assert!(doc.get("other").is_none());
    let list = doc.get("list").unwrap();
    assert_eq!(list.elements().unwrap(), vec!["true", "{\"k\":2}"]);
    assert!(list.get("k").is_none());
    assert!(doc.elements().is_none());
    assert!(doc.as_str().is_none());
}

#[test]
fn records_are_strict() {
    let names = ["a", "b"];
    let full = record::read_record("{\"b\": \"x, y\", \"a\": {\"n\": [1, 2]}}", &names).unwrap();
    assert_eq!(full, vec![Some("{\"n\":[1,2]}".to_string()), Some("\"x, y\"".to_string())]);
    // A field may be left out.
    let part = record::read_record("{\"b\":1}", &names).unwrap();
    assert_eq!(part, vec![None, Some("1".to_string())]);
    assert_eq!(record::read_record("{}", &names).unwrap(), vec![None, None]);
    // Unknown fields, repeated fields and other documents are refused.
    assert!(record::read_record("{\"a\":1,\"c\":2}", &names).is_none());
    assert!(record::read_record("{\"a\":1,\"a\":2}", &names).is_none());
    assert!(record::read_record("\"a\"", &names).is_none());
    assert!(record::read_record("{\"a\":1", &names).is_none());
    // The positional form gives the leading fields.
    assert_eq!(
        record::read_record("[5]", &names).unwrap(),
        vec![Some("5".to_string()), None]
    );
    assert!(record::read_record("[1,2,3]", &names).is_none());
}

#[test]
fn repeats_are_found_at_any_depth() {
    assert!(record::has_no_repeats("{\"a\": {\"x\": 1, \"y\": [2, 3]}, \"b\": \",,\"}"));
    assert!(!record::has_no_repeats("{\"a\": {\"x\": 1, \"x\": 2}, \"b\": 0}"));
    assert!(record::has_no_repeats("[1, [2, 3], \"a,b\"]"));
    assert!(record::has_no_repeats("7"));
}

#[test]
fn text_helpers() {
    assert!(text::same_text("中", "中"));
    assert!(!text::same_text("a", "b"));
    assert!(text::text_at_most("a", "ab"));
    assert!(text::text_at_most("Z", "a"));
    assert!(!text::text_at_most("é", "z"));
    assert_eq!(text::decimal(0), "0");
    assert_eq!(text::decimal(18446744073709551615), "18446744073709551615");
    assert_eq!(text::trim("\n\u{3000} a b\t "), "a b");
    assert_eq!(text::trim(" \t"), "");
    let sorted = text::sort_texts(&["b".to_string(), "a".to_string(), "b".to_string()]);
    assert_eq!(sorted, vec!["a", "b", "b"]);
}

#[test]
fn splitting_at_characters() {
    assert_eq!(text::split_first("a{b{c", '{', 0x7b), Some(("a", "{b{c")));
    assert_eq!(text::split_last("中}b}c", '}', 0x7d), Some(("中}b", "}c")));
    assert_eq!(text::split_first("中文", '{', 0x7b), None);
    assert_eq!(text::split_last("", '}', 0x7d), None);
}

#[test]
fn objects_that_were_written_are_read_back() {
    let document = ObjectWriter::new()
        .string("b", "first")
        .raw("a", "true")
        .opt_string("c", &None)
        .string("b", "say \"hi\"\n\u{1}, ok {}")
        .close();
    assert_eq!(document.get("a").unwrap().text, "true");
    assert!(document.get("c").unwrap().is_null());
    assert_eq!(
        document.get("b").unwrap().as_str().as_deref(),
        Some("say \"hi\"\n\u{1}, ok {}")
    );
    assert!(document.get("d").is_none());
}
