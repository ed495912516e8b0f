use vynkor_plugins::calendar::{
    advance, begin, begin_scan, due_events, fire_reminder, list_events, reminder_message, scan_step,
    update_event, CalendarData, CalendarReply, CalendarRequest, CalendarStep, Config, DueFire,
    EventDoc, EventPatch, NewEvent, ScanReply, ScanStep,
};

fn event(id: &str, start_ms: i64, end_ms: Option<i64>, tags: &[&str]) -> EventDoc {
    EventDoc {
        id: id.to_string(),
        title: format!("event {id}"),
        description: String::new(),
        start_ms,
        end_ms,
        all_day: false,
        remind_before_ms: Some(60_000),
        reminder_fired: true,
        tags: tags.iter().map(|t| t.to_string()).collect(),
        created_at_ms: 1,
        updated_at_ms: 1,
    }
}

fn no_patch() -> EventPatch {
    EventPatch {
        title: None,
        description: None,
        start_ms: None,
        end_ms: None,
        all_day: None,
        remind_before_ms: None,
        tags: None,
    }
}

#[test]
fn rescheduling_rearms_the_reminder() {
    let mut patch = no_patch();
    patch.title = Some("new".to_string());
    let same = update_event(event("1", 100, None, &[]), patch, 7).unwrap();
    assert_eq!(same.title, "new");
    assert!(same.reminder_fired);
    assert_eq!(same.updated_at_ms, 7);

    let mut patch = no_patch();
    patch.start_ms = Some(500);
    let moved = update_event(event("1", 100, None, &[]), patch, 7).unwrap();
    assert_eq!(moved.start_ms, 500);
    assert!(!moved.reminder_fired);
}

#[test]
fn an_event_may_not_end_before_it_starts() {
    let mut patch = no_patch();
    patch.start_ms = Some(500);
    let err = update_event(event("1", 100, Some(200), &[]), patch, 7).unwrap_err();
    assert!(err.contains("200") && err.contains("500"), "error was: {err}");
}

#[test]
fn events_are_listed_by_start_within_the_window() {
    let events = vec![
        event("1", 300, None, &["a"]),
        event("2", 100, None, &[]),
        event("3", 200, None, &["a"]),
    ];
    let (page, total) = list_events(&events, None, None, &None, 10, 0);
    assert_eq!((page, total), (vec![1, 2, 0], 3));
    let (page, total) = list_events(&events, Some(150), None, &None, 10, 0);
    assert_eq!((page, total), (vec![2, 0], 2));
    let (page, total) = list_events(&events, None, None, &Some("a".to_string()), 1, 1);
    assert_eq!((page, total), (vec![0], 2));
}

#[test]
fn reminders_are_due_once_their_instant_has_come() {
    let unfired = |id: &str, start_ms: i64, before: Option<i64>| {
        let mut e = event(id, start_ms, None, &["tag"]);
        e.remind_before_ms = before;
        e.reminder_fired = false;
        e
    };
    let events = vec![
        unfired("1", 1_000, Some(100)),
        unfired("2", 1_001, Some(100)),
        unfired("3", 1_000, None),
        event("4", 1_000, None, &[]),
        unfired("5", 800, Some(0)),
        unfired("6", i64::MIN, Some(1)),
    ];
    let fires = due_events(&events, 900);
    let ids: Vec<&str> = fires.iter().map(|f| f.event.id.as_str()).collect();
    assert_eq!(ids, vec!["1", "5", "6"]);
    assert_eq!(fires[0].remind_at_ms, 900);
    assert!(!fires[0].late);
    assert_eq!(fires[0].event, events[0]);
    assert!(fires[1].late, "it has started");
    assert_eq!(fires[2].remind_at_ms, i64::MIN);
    // What has fired is never due again.
    let marked: Vec<EventDoc> = fires.into_iter().map(|f| fire_reminder(f).0).collect();
    assert!(due_events(&marked, 900).is_empty());
    assert!(due_events(&marked, i64::MAX).is_empty());
}

fn due(late: bool, lead: Option<i64>) -> DueFire {
    let mut e = event("1", 1_000_000, None, &[]);
    e.title = "Standup".to_string();
    e.remind_before_ms = lead;
    e.reminder_fired = false;
    DueFire { event: e, remind_at_ms: 940_000, late }
}

#[test]
fn reminders_are_worded_by_their_lead() {
    assert_eq!(
        reminder_message(&due(true, Some(60_000)), 2_000_000),
        "Standup — missed reminder (started earlier)"
    );
    assert_eq!(reminder_message(&due(false, Some(0)), 0), "Standup starts now");
    assert_eq!(reminder_message(&due(false, Some(60_000)), 990_000), "Standup starts now");
    assert_eq!(
        reminder_message(&due(false, Some(600_000)), 400_000),
        "Standup starts in ~10 min"
    );
}

#[test]
fn a_fired_reminder_is_marked() {
    let (doc, payload) = fire_reminder(due(false, Some(60_000)));
    assert!(doc.reminder_fired);
    assert_eq!(payload.event_id, "1");
    assert_eq!(payload.title, "Standup");
    assert_eq!(payload.start_ms, 1_000_000);
    assert_eq!(payload.remind_at_ms, 940_000);
    assert!(!payload.late);
}

fn new_event() -> NewEvent {
    NewEvent {
        title: "t".to_string(),
        description: String::new(),
        start_ms: 5,
        end_ms: None,
        all_day: false,
        remind_before_ms: None,
        tags: Vec::new(),
    }
}

#[test]
fn an_event_is_created_in_two_steps() {
    let step = begin(CalendarRequest::Create { event: new_event() });
    let step = advance(step, CalendarReply::Id(3), 44);
    match advance(step, CalendarReply::Stored, 44) {
        CalendarStep::Done { result } => {
            let out = result.unwrap();
            match out.data {
                CalendarData::Created { event } => {
                    assert_eq!(event.id, "3");
                    assert_eq!(event.created_at_ms, 44);
                    assert!(!event.reminder_fired);
                }
                other => panic!("unexpected data: {other:?}"),
            }
            assert_eq!(out.event.unwrap().id, "3");
        }
        other => panic!("unexpected step: {other:?}"),
    }
}

#[test]
fn a_missing_event_cannot_be_updated() {
    let step = begin(CalendarRequest::Update { id: "9".to_string(), patch: no_patch() });
    match advance(step, CalendarReply::Found(None), 1) {
        CalendarStep::Done { result } => assert!(result.unwrap_err().contains("9")),
        other => panic!("unexpected step: {other:?}"),
    }
}

#[test]
fn calendar_configuration() {
    assert_eq!(Config::from_env(&None, &None, &None), Config::default());
    let c = Config::from_env(
        &Some("5".to_string()),
        &Some("6".to_string()),
        &Some("false".to_string()),
    );
    assert_eq!((c.db_timeout_ms, c.scan_secs, c.notify_enabled), (5, 6, false));
}

#[test]
fn a_scan_marks_publishes_and_notifies_in_turn() {
    let fires = vec![due(false, Some(600_000)), due(true, Some(600_000))];
    let mut step = begin_scan(fires, true, 400_000);
    let mut seen: Vec<String> = Vec::new();
    loop {
        let reply = match &step {
            ScanStep::AwaitMarked { doc, .. } => {
                assert!(doc.reminder_fired);
                seen.push("mark".to_string());
                ScanReply::Stored(Ok(()))
            }
            ScanStep::AwaitPublished { due, .. } => {
                seen.push(format!("publish {}", due.late));
                ScanReply::Published
            }
            ScanStep::AwaitNotified { message, .. } => {
                seen.push(message.clone());
                ScanReply::Notified
            }
            ScanStep::Done { result } => {
                assert_eq!(result, &Ok(2));
                break;
            }
        };
        step = scan_step(step, reply, true, 400_000);
    }
    assert_eq!(
        seen,
        vec![
            "mark",
            "publish false",
            "Standup starts in ~10 min",
            "mark",
            "publish true",
            "Standup — missed reminder (started earlier)",
        ]
    );
}

#[test]
fn a_mark_that_is_not_stored_ends_the_scan() {
    let step = begin_scan(vec![due(false, Some(0))], false, 0);
    match scan_step(step, ScanReply::Stored(Err("down".to_string())), false, 0) {
        ScanStep::Done { result } => assert_eq!(result, Err("down".to_string())),
        other => panic!("unexpected step: {other:?}"),
    }
    match begin_scan(Vec::new(), true, 0) {
        ScanStep::Done { result } => assert_eq!(result, Ok(0)),
        other => panic!("unexpected step: {other:?}"),
    }
}
