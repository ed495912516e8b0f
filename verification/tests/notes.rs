use serde_json::Value;
use vynkor_plugins::notes::{
    advance, begin, list_notes, params_shape, parse_request, sanitize_tags, update_note, Config,
    Note, NotesData, NotesReply, NotesRequest, NotesShape, NotesStep, RawNotesParams,
    DEFAULT_LIMIT, MAX_BODY_BYTES, MAX_LIMIT, MAX_TAGS, MAX_TAG_BYTES, MAX_TITLE_BYTES,
};

fn text(v: &Value, key: &str) -> Option<String> {
    v.get(key).and_then(Value::as_str).map(str::to_string)
}

fn tags(v: &Value) -> Option<Vec<String>> {
    v.get("tags").and_then(Value::as_array).map(|a| {
        a.iter().map(|t| t.as_str().unwrap().to_string()).collect()
    })
}

fn count(v: &Value, key: &str) -> Option<usize> {
    v.get(key).and_then(Value::as_u64).map(|n| n as usize)
}

fn decode(shape: NotesShape, bytes: &[u8]) -> Result<RawNotesParams, String> {
    let v: Value = serde_json::from_slice(bytes).map_err(|e| e.to_string())?;
    Ok(match shape {
        NotesShape::Create => RawNotesParams::Create {
            title: text(&v, "title").unwrap_or_default(),
            body: text(&v, "body").unwrap_or_default(),
            tags: tags(&v).unwrap_or_default(),
        },
        NotesShape::Id => RawNotesParams::Id { id: text(&v, "id").ok_or("missing field `id`")? },
        NotesShape::List => RawNotesParams::List {
            tag: text(&v, "tag"),
            limit: count(&v, "limit"),
            offset: count(&v, "offset"),
        },
        NotesShape::Update => RawNotesParams::Update {
            id: text(&v, "id").ok_or("missing field `id`")?,
            title: text(&v, "title"),
            body: text(&v, "body"),
            tags: tags(&v),
        },
    })
}

fn parse(action: &str, bytes: &[u8]) -> Result<NotesRequest, String> {
    let decoded = match params_shape(action) {
        Some(shape) => decode(shape, bytes),
        None => Err("no such action".to_string()),
    };
    parse_request(action, decoded)
}

#[test]
fn parses_create_with_defaults() {
    match parse("note_create", br#"{"body": "hello"}"#).unwrap() {
        NotesRequest::Create { title, body, tags } => {
            assert_eq!(title, "");
            assert_eq!(body, "hello");
            assert!(tags.is_empty());
        }
        other => panic!("wrong variant: {other:?}"),
    }
}

#[test]
fn create_rejects_empty_title_and_body() {
    let err = parse("note_create", br#"{"title": "  ", "body": ""}"#).unwrap_err();
    assert!(err.contains("non-empty title or body"), "error was: {err}");
}

#[test]
fn create_rejects_oversized_title_and_body() {
    let big_title = format!(r#"{{"title": "{}"}}"#, "x".repeat(MAX_TITLE_BYTES + 1));
    let err = parse("note_create", big_title.as_bytes()).unwrap_err();
    assert!(err.contains("params.title exceeds"), "error was: {err}");

    let big_body = format!(r#"{{"title": "t", "body": "{}"}}"#, "x".repeat(MAX_BODY_BYTES + 1));
    let err = parse("note_create", big_body.as_bytes()).unwrap_err();
    assert!(err.contains("params.body exceeds"), "error was: {err}");
}

#[test]
fn tags_are_trimmed_deduped_and_capped() {
    let raw = br#"{"body": "b", "tags": [" work ", "", "work", "urgent"]}"#;
    match parse("note_create", raw).unwrap() {
        NotesRequest::Create { tags, .. } => {
            assert_eq!(tags, vec!["work".to_string(), "urgent".to_string()]);
        }
        other => panic!("wrong variant: {other:?}"),
    }
}

#[test]
fn tags_reject_oversized_entry_and_too_many_unique() {
    let long_tag = "x".repeat(MAX_TAG_BYTES + 1);
    let params = format!(r#"{{"body": "b", "tags": ["{long_tag}"]}}"#);
    let err = parse("note_create", params.as_bytes()).unwrap_err();
    assert!(err.contains("longer than"), "error was: {err}");

    let many: Vec<String> = (0..=MAX_TAGS).map(|i| format!("\"t{i}\"")).collect();
    let params = format!(r#"{{"body": "b", "tags": [{}]}}"#, many.join(","));
    let err = parse("note_create", params.as_bytes()).unwrap_err();
    assert!(err.contains("exceeds"), "error was: {err}");
}

#[test]
fn cleaning_tags_twice_changes_nothing() {
    let once = sanitize_tags(&vec![" a ".to_string(), "b".to_string(), "a".to_string()]).unwrap();
    assert_eq!(once, vec!["a", "b"]);
    assert_eq!(sanitize_tags(&once).unwrap(), once);
}

#[test]
fn parses_get_and_delete_with_nonempty_id() {
    match parse("note_get", br#"{"id": "7"}"#).unwrap() {
        NotesRequest::Get { id } => assert_eq!(id, "7"),
        other => panic!("wrong variant: {other:?}"),
    }
    match parse("note_delete", br#"{"id": "7"}"#).unwrap() {
        NotesRequest::Delete { id } => assert_eq!(id, "7"),
        other => panic!("wrong variant: {other:?}"),
    }
    let err = parse("note_get", br#"{"id": ""}"#).unwrap_err();
    assert!(err.contains("non-empty"), "error was: {err}");
}

#[test]
fn list_defaults_limit_and_offset() {
    match parse("note_list", b"{}").unwrap() {
        NotesRequest::List { tag, limit, offset } => {
            assert_eq!(tag, None);
            assert_eq!(limit, DEFAULT_LIMIT);
            assert_eq!(offset, 0);
        }
        other => panic!("wrong variant: {other:?}"),
    }
}

#[test]
fn list_rejects_bad_limit_and_trims_tag() {
    for bad in [0, MAX_LIMIT + 1] {
        let params = format!(r#"{{"limit": {bad}}}"#);
        let err = parse("note_list", params.as_bytes()).unwrap_err();
        assert!(err.contains("limit"), "error was: {err}");
    }
    match parse("note_list", br#"{"tag": " work "}"#).unwrap() {
        NotesRequest::List { tag, .. } => assert_eq!(tag, Some("work".to_string())),
        other => panic!("wrong variant: {other:?}"),
    }
}

#[test]
fn update_requires_at_least_one_field() {
    let err = parse("note_update", br#"{"id": "1"}"#).unwrap_err();
    assert!(err.contains("at least one of"), "error was: {err}");
    match parse("note_update", br#"{"id": "1", "tags": ["a"]}"#).unwrap() {
        NotesRequest::Update { id, title, body, tags } => {
            assert_eq!(id, "1");
            assert_eq!(title, None);
            assert_eq!(body, None);
            assert_eq!(tags, Some(vec!["a".to_string()]));
        }
        other => panic!("wrong variant: {other:?}"),
    }
}

#[test]
fn rejects_unknown_action_and_malformed_json() {
    let err = parse("note_frobnicate", b"{}").unwrap_err();
    assert!(err.contains("unknown action"), "error was: {err}");
    let err = parse("note_get", b"not json").unwrap_err();
    assert!(err.contains("invalid params"), "error was: {err}");
}

fn note(id: &str, updated_at_ms: i64, tags: &[&str]) -> Note {
    Note {
        id: id.to_string(),
        title: format!("note {id}"),
        body: "b".to_string(),
        tags: tags.iter().map(|t| t.to_string()).collect(),
        created_at_ms: 1,
        updated_at_ms,
    }
}

#[test]
fn notes_are_listed_newest_first_by_page() {
    let notes = vec![
        note("1", 10, &["a"]),
        note("2", 30, &[]),
        note("3", 20, &["a", "b"]),
        note("10", 30, &["a"]),
    ];
    let (page, total) = list_notes(&notes, &None, 10, 0);
    assert_eq!(total, 4);
    let times: Vec<i64> = page.iter().map(|i| notes[*i].updated_at_ms).collect();
    assert_eq!(times, vec![30, 30, 20, 10]);
    let (page, total) = list_notes(&notes, &Some("a".to_string()), 1, 1);
    assert_eq!(total, 3);
    assert_eq!(page.len(), 1);
    assert_eq!(notes[page[0]].id, "3");
    let (page, _) = list_notes(&notes, &None, 10, 9);
    assert!(page.is_empty());
}

#[test]
fn updates_replace_what_is_given() {
    let n = update_note(note("1", 5, &["a"]), Some("T".to_string()), None, None, 9).unwrap();
    assert_eq!(n.title, "T");
    assert_eq!(n.body, "b");
    assert_eq!(n.tags, vec!["a"]);
    assert_eq!(n.created_at_ms, 1);
    assert_eq!(n.updated_at_ms, 9);
    let err = update_note(
        note("1", 5, &[]),
        Some(String::new()),
        Some(" ".to_string()),
        None,
        9,
    )
    .unwrap_err();
    assert!(err.contains("title or body"), "error was: {err}");
}

#[test]
fn a_note_is_created_in_two_steps() {
    let req = parse("note_create", br#"{"title": "t", "body": "b"}"#).unwrap();
    let step = advance(begin(req), NotesReply::Id(7), 99);
    let step = advance(step, NotesReply::Stored, 99);
    match step {
        NotesStep::Done { result } => {
            let out = result.unwrap();
            match out.data {
                NotesData::Created { note } => {
                    assert_eq!(note.id, "7");
                    assert_eq!(note.created_at_ms, 99);
                }
                other => panic!("unexpected data: {other:?}"),
            }
            let event = out.event.unwrap();
            assert_eq!(event.id, "7");
        }
        other => panic!("unexpected step: {other:?}"),
    }
}

#[test]
fn failures_of_the_store_end_a_request() {
    let req = parse("note_get", br#"{"id": "7"}"#).unwrap();
    match advance(begin(req), NotesReply::Failed("down".to_string()), 1) {
        NotesStep::Done { result } => assert_eq!(result.unwrap_err(), "down"),
        other => panic!("unexpected step: {other:?}"),
    }
    let req = parse("note_update", br#"{"id": "7", "title": "x"}"#).unwrap();
    match advance(begin(req), NotesReply::Found(None), 1) {
        NotesStep::Done { result } => assert!(result.unwrap_err().contains("7")),
        other => panic!("unexpected step: {other:?}"),
    }
}

#[test]
fn deleting_reports_and_announces_only_what_was_there() {
    for there in [true, false] {
        let req = parse("note_delete", br#"{"id": "7"}"#).unwrap();
        match advance(begin(req), NotesReply::Deleted(there), 1) {
            NotesStep::Done { result } => {
                let out = result.unwrap();
                assert_eq!(out.data, NotesData::Deleted { deleted: there });
                assert_eq!(out.event.is_some(), there);
            }
            other => panic!("unexpected step: {other:?}"),
        }
    }
}

#[test]
fn notes_configuration() {
    assert_eq!(Config::from_env(&None), Config::default());
    assert_eq!(Config::from_env(&Some("123".to_string())).db_timeout_ms, 123);
}
