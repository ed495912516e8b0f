use vynkor_plugins::caller::check_caller_id;
use vynkor_plugins::fields::{join, split, split_once, trim, words};
use vynkor_plugins::json::{array_json, found_reply, object_json, read_stored, stored_reading};
use vynkor_plugins::listing::{id_num, take_page};
use vynkor_plugins::rpc::{call_result, effective_timeout, CallEnd};
use vynkor_plugins::settings::{read_positive, read_setting, read_text};
use vynkor_plugins::sorting::sort_texts;
use vynkor_plugins::strmap::{StrMap, StrSet};

#[test]
fn texts_are_split_and_trimmed() {
    assert_eq!(trim("  a b\t"), "a b");
    assert_eq!(split("a,,b", ','), vec!["a", "", "b"]);
    assert_eq!(words("  a  b "), vec!["a", "b"]);
    assert_eq!(split_once("k=v=w", '='), Some(("k".to_string(), "v=w".to_string())));
    assert_eq!(split_once("kv", '='), None);
    assert_eq!(join(&vec!["a".to_string(), "b".to_string()], ", "), "a, b");
}

#[test]
fn settings_fall_back() {
    assert_eq!(read_setting(&None, 10, 7), 7);
    assert_eq!(read_setting(&Some("9".to_string()), 10, 7), 9);
    assert_eq!(read_setting(&Some("11".to_string()), 10, 7), 7);
    assert_eq!(read_setting(&Some("x".to_string()), 10, 7), 7);
    assert_eq!(read_positive(&Some("0".to_string()), 10, 7), 7);
    assert_eq!(read_text(&Some("  ".to_string())), None);
}

#[test]
fn caller_ids_name_one_file() {
    assert_eq!(check_caller_id("a-b_C9"), Ok("a-b_C9"));
    assert!(check_caller_id("").is_err());
    assert!(check_caller_id("a/b").is_err());
}

#[test]
fn json_texts_are_built_in_key_order() {
    let mut m: StrMap<String> = StrMap::new();
    m.insert("b".to_string(), "2".to_string());
    m.insert("a\"".to_string(), "[1]".to_string());
    let v: serde_json::Value = serde_json::from_str(&object_json(&m)).unwrap();
    assert_eq!(v["b"], 2);
    assert_eq!(v["a\""][0], 1);
    assert_eq!(array_json(&vec!["1".to_string(), "null".to_string()]), "[1,null]");
    assert_eq!(read_stored("k", " { \"a\" : 1 } "), Ok(r#"{"a":1}"#.to_string()));
}

#[test]
fn pages_and_ids() {
    assert_eq!(take_page(&vec![4, 5, 6], 1, 1), vec![5]);
    assert_eq!(take_page(&vec![4, 5, 6], 5, 1), Vec::<usize>::new());
    let all = vec![4, 5, 6, 7, 8];
    let mut pages = take_page(&all, 0, 2);
    pages.extend(take_page(&all, 2, 2));
    pages.extend(take_page(&all, 4, 2));
    assert_eq!(pages, all, "pages in turn list everything once");
    assert_eq!(id_num("12"), 12);
    assert_eq!(id_num("x"), 0);
}

#[test]
fn maps_keep_one_value_per_key() {
    let mut m: StrMap<u32> = StrMap::new();
    assert!(m.is_empty());
    assert_eq!(m.insert("a".to_string(), 1), None);
    assert_eq!(m.insert("a".to_string(), 2), Some(1));
    assert_eq!(m.len(), 1);
    assert_eq!(m.get("a"), Some(&2));
    assert_eq!(m.remove("a"), Some(2));
    assert!(!m.contains_key("a"));
    let mut s = StrSet::new();
    s.insert("x".to_string());
    s.insert("x".to_string());
    assert_eq!(s.len(), 1);
    assert!(s.contains("x"));
}

#[test]
fn texts_are_sorted() {
    let sorted = sort_texts(&vec!["b".to_string(), "a".to_string(), "c".to_string()]);
    assert_eq!(sorted, vec!["a", "b", "c"]);
}

#[test]
fn calls_between_plugins_name_the_action() {
    assert_eq!(effective_timeout(0), 30_000);
    assert_eq!(effective_timeout(7), 7);
    let ok = CallEnd::Replied { result: Ok("{}".to_string()) };
    assert_eq!(call_result("", "db_get", 0, ok), Ok("{}".to_string()));
    assert_eq!(
        call_result("", "db_get", 0, CallEnd::TimedOut).unwrap_err(),
        "db_get timed out after 30000 ms"
    );
    assert_eq!(
        call_result("", "db_get", 5, CallEnd::LoopGone).unwrap_err(),
        "db_get aborted: serve loop is shutting down"
    );
    assert_eq!(
        call_result("database.", "db_get", 5, CallEnd::LoopGone).unwrap_err(),
        "database.db_get aborted: serve loop is shutting down"
    );
    assert_eq!(
        call_result("database.", "db_get", 5, CallEnd::TimedOut).unwrap_err(),
        "database.db_get timed out after 5 ms"
    );
    let bad = CallEnd::NotEncoded { error: "x".to_string() };
    assert_eq!(
        call_result("", "db_get", 5, bad).unwrap_err(),
        "failed to encode db_get params: x"
    );
}

#[test]
fn stored_values_are_told_as_they_read() {
    assert_eq!(stored_reading("k", Ok("1".to_string())), Ok("1".to_string()));
    assert_eq!(
        stored_reading("k", Err("bad".to_string())),
        Err("corrupt stored value for key \"k\": bad".to_string())
    );
    assert_eq!(found_reply(Some(Ok("1".to_string()))), Ok(r#"{"found":true,"value":1}"#.to_string()));
    assert_eq!(found_reply(Some(Err("bad".to_string()))), Err("bad".to_string()));
    assert_eq!(found_reply(None), Ok(r#"{"found":false,"value":null}"#.to_string()));
}
