use chrono::{FixedOffset, TimeZone};
use vynkor_plugins::scheduler::{
    advance, begin, begin_scan, due_schedules, fired_event, fixed_offset, is_computable,
    list_schedules, mark_fired, next_cron_after_ms, next_fire_ms, next_from, normalize_cron_expr,
    record_last_error, scan_step, validate_cron_expr, Config, Fire, NewSchedule, ScanReply,
    ScanStep, ScheduleDoc, SchedulerData, SchedulerReply, SchedulerRequest, SchedulerStep, Trigger,
    MAX_ERROR_BYTES,
};

fn once(at_ms: i64) -> ScheduleDoc {
    ScheduleDoc {
        id: "s1".to_string(),
        name: None,
        enabled: true,
        trigger: Trigger::Once { at_ms },
        fire: Fire::Event { payload: "{}".to_string() },
        fired_once: false,
        fire_count: 0,
        last_fired_ms: None,
        last_error: None,
        created_at_ms: 0,
        updated_at_ms: 0,
    }
}

#[test]
fn once_next_follows_lifecycle() {
    assert_eq!(next_fire_ms(&once(1_000)), Some(1_000));
    // Done one-shot has nothing pending.
    let mut done = once(1_000);
    done.fired_once = true;
    assert_eq!(next_fire_ms(&done), None);
    // Disabled never fires, even when overdue.
    let mut off = once(1_000);
    off.enabled = false;
    assert_eq!(next_fire_ms(&off), None);
}

#[test]
fn due_selects_overdue_and_flags_late() {
    let docs = vec![once(900), once(5_000)];
    let fires = due_schedules(&docs, 1_000);
    assert_eq!(fires.len(), 1);
    assert_eq!(fires[0].scheduled_for_ms, 900);
    assert!(fires[0].late);

    // Exactly at the deadline: due but not late. The earlier schedule is
    // marked done first — selection is pure and keeps no fire state.
    let mut done = once(900);
    done.fired_once = true;
    let docs = vec![done, once(5_000)];
    let fires = due_schedules(&docs, 5_000);
    assert_eq!(fires.len(), 1);
    assert_eq!(fires[0].scheduled_for_ms, 5_000);
    assert!(!fires[0].late);
}

#[test]
fn five_field_cron_is_prefixed_with_seconds() {
    assert_eq!(normalize_cron_expr("*/5 * * * *"), "0 */5 * * * *");
    assert_eq!(normalize_cron_expr("*/5 * * * * *"), "*/5 * * * * *");
    assert_eq!(normalize_cron_expr("  0   9 * * MON "), "0 0 9 * * MON");
}

#[test]
fn normal_cron_expressions_stay_as_they_are() {
    for expr in ["*/5 * * * *", " 0\t9  * * MON", "*/5 * * * * *", "not a cron", ""] {
        let normal = normalize_cron_expr(expr);
        assert_eq!(normalize_cron_expr(&normal), normal);
    }
    assert_eq!(normalize_cron_expr("\n1 2\t\t3 4   5 "), normalize_cron_expr("1 2 3 4 5"));
}

#[test]
fn the_last_second_of_time_cannot_be_computed() {
    let mut doc = once(0);
    doc.created_at_ms = 8_210_266_876_799_000;
    assert!(is_computable(&doc), "a one-shot needs no computing");
    doc.trigger = Trigger::Cron { expr: "* * * * *".to_string(), tz_offset_min: 0 };
    assert!(!is_computable(&doc));
    doc.last_fired_ms = Some(8_210_266_876_798_999);
    assert!(is_computable(&doc));
    doc.last_fired_ms = Some(i64::MAX);
    assert!(is_computable(&doc));
    assert_eq!(next_fire_ms(&doc), None);
}

#[test]
fn cron_next_after_computes_in_fixed_offset() {
    let offset = FixedOffset::east_opt(fixed_offset(180).unwrap()).unwrap();
    // Daily at 01:30 wall clock; reference instant 00:10+03 → next fire
    // is the same day's 01:30+03.
    let base = offset.with_ymd_and_hms(2026, 1, 15, 0, 10, 0).unwrap().timestamp_millis();
    let next = next_cron_after_ms("30 1 * * *", 180, base).unwrap().unwrap();
    let next_dt = offset.timestamp_millis_opt(next).single().unwrap();
    assert_eq!(
        next_dt.format("%Y-%m-%d %H:%M:%S %:z").to_string(),
        "2026-01-15 01:30:00 +03:00"
    );

    // The identical wall-clock rule under UTC yields a different
    // absolute instant — proof the offset actually participates.
    let utc_next = next_cron_after_ms("30 1 * * *", 0, base).unwrap().unwrap();
    assert_ne!(utc_next, next);
}

#[test]
fn cron_seconds_expression_advances_by_one_second() {
    let base = 1_755_000_000_123i64;
    let next = next_cron_after_ms("* * * * * *", 0, base).unwrap().unwrap();
    assert_eq!(next, base - (base % 1000) + 1000);
}

#[test]
fn cron_validation_rejects_garbage_and_bad_offsets() {
    assert!(validate_cron_expr("not a cron", 0).is_err());
    assert!(validate_cron_expr("*/5 * * * *", 0).is_ok());
    assert!(validate_cron_expr("*/5 * * * *", 180).is_ok());
    assert!(validate_cron_expr("*/5 * * * *", 900).is_err());
    // 6-field with names works too.
    assert!(validate_cron_expr("0 0 9 * JAN MON", 0).is_ok());
}

#[test]
fn the_next_fire_follows_the_trigger() {
    assert_eq!(next_from(&once(1_000), Ok(Some(5))), Some(1_000));
    let cron = Trigger::Cron { expr: "* * * * *".to_string(), tz_offset_min: 0 };
    let mut doc = ScheduleDoc { trigger: cron, ..once(0) };
    assert_eq!(next_from(&doc, Ok(Some(5))), Some(5));
    assert_eq!(next_from(&doc, Ok(None)), None);
    assert_eq!(next_from(&doc, Err("bad".to_string())), None);
    doc.enabled = false;
    assert_eq!(next_from(&doc, Ok(Some(5))), None);
}

#[test]
fn a_fired_one_shot_is_done() {
    let mut fires = due_schedules(&vec![once(900)], 1_000);
    let doc = mark_fired(fires.remove(0), 1_001);
    assert!(doc.fired_once);
    assert_eq!(doc.fire_count, 1);
    assert_eq!(doc.last_fired_ms, Some(900));
    assert_eq!(doc.updated_at_ms, 1_001);
    assert_eq!(next_fire_ms(&doc), None);
    assert!(due_schedules(&vec![doc], 10_000).is_empty());
}

#[test]
fn a_fired_cron_schedule_moves_on() {
    let mut doc = once(0);
    doc.trigger = Trigger::Cron { expr: "* * * * * *".to_string(), tz_offset_min: 0 };
    doc.created_at_ms = 1_755_000_000_000;
    assert_eq!(next_fire_ms(&doc), Some(1_755_000_001_000));
    let mut fires = due_schedules(&vec![doc], 1_755_000_001_500);
    assert_eq!(fires.len(), 1);
    let doc = mark_fired(fires.remove(0), 1_755_000_001_500);
    assert!(!doc.fired_once);
    assert!(next_fire_ms(&doc).unwrap() > 1_755_000_001_000);
}

#[test]
fn missed_occurrences_are_never_made_up_for() {
    let mut doc = once(0);
    doc.trigger = Trigger::Cron { expr: "* * * * *".to_string(), tz_offset_min: 0 };
    let mut fires = due_schedules(&vec![doc], 600_000);
    assert_eq!(fires.len(), 1);
    assert_eq!(fires[0].scheduled_for_ms, 60_000);
    assert!(fires[0].late);
    let doc = mark_fired(fires.remove(0), 600_000);
    assert_eq!(doc.last_fired_ms, Some(600_000));
    assert_eq!(next_fire_ms(&doc), Some(660_000));
    match scan_step(begin_scan(), ScanReply::All(Ok(vec![doc])), 600_000, 600_000) {
        ScanStep::Done { result } => assert_eq!(result, Ok(0)),
        other => panic!("unexpected step: {other:?}"),
    }
}

#[test]
fn fired_events_carry_the_schedule() {
    let mut doc = once(5);
    doc.name = Some("n".to_string());
    doc.fire_count = 3;
    let ev = fired_event(&doc, 5, true);
    assert_eq!(ev.schedule_id, "s1");
    assert_eq!(ev.name.as_deref(), Some("n"));
    assert_eq!(ev.scheduled_for_ms, 5);
    assert!(ev.late);
    assert_eq!(ev.fire_count, 3);
}

#[test]
fn errors_are_cut_to_their_cap() {
    let doc = record_last_error(once(1), "boom", 9);
    assert_eq!(doc.last_error.as_deref(), Some("boom"));
    assert_eq!(doc.updated_at_ms, 9);
    let doc = record_last_error(once(1), &"x".repeat(MAX_ERROR_BYTES + 10), 9);
    assert_eq!(doc.last_error.unwrap().len(), MAX_ERROR_BYTES);
    let whole = "x".repeat(MAX_ERROR_BYTES);
    assert_eq!(record_last_error(once(1), &whole, 9).last_error, Some(whole));
    // A character across the cap is dropped whole.
    let split = "a".repeat(255) + "\u{e9}";
    assert_eq!(record_last_error(once(1), &split, 9).last_error, Some("a".repeat(255)));
    let split = "a".repeat(253) + "\u{1f600}b";
    assert_eq!(record_last_error(once(1), &split, 9).last_error, Some("a".repeat(253)));
}

#[test]
fn schedules_are_listed_by_their_next_fire() {
    let mut a = once(300);
    a.id = "1".to_string();
    let mut b = once(100);
    b.id = "2".to_string();
    let mut c = once(100);
    c.id = "3".to_string();
    c.enabled = false;
    let docs = vec![a, b, c];
    let nexts: Vec<Option<i64>> = docs.iter().map(next_fire_ms).collect();
    assert_eq!(nexts, vec![Some(300), Some(100), None]);
    let page = list_schedules(&docs, &nexts, 10, 0);
    assert_eq!(page[0], 1);
    assert_eq!(page[1], 0);
    assert_eq!(page[2], 2, "nothing pending comes last");
    assert_eq!(list_schedules(&docs, &nexts, 1, 1), vec![0]);
}

fn new_schedule(id: Option<&str>) -> NewSchedule {
    NewSchedule {
        id: id.map(str::to_string),
        name: None,
        enabled: true,
        trigger: Trigger::Once { at_ms: 50 },
        fire: Fire::Action { name: "ping".to_string(), params: "{}".to_string() },
    }
}

fn done(step: SchedulerStep) -> SchedulerData {
    match step {
        SchedulerStep::Done { result } => result.unwrap().data,
        other => panic!("unexpected step: {other:?}"),
    }
}

#[test]
fn schedules_are_created_and_replaced() {
    let req = SchedulerRequest::SetSchedule { new: new_schedule(None) };
    let step = advance(begin(req), SchedulerReply::Id(4), 10);
    match done(advance(step, SchedulerReply::Stored, 10)) {
        SchedulerData::Stored { created, schedule } => {
            assert!(created);
            assert_eq!(schedule.id, "4");
            assert_eq!(schedule.created_at_ms, 10);
        }
        other => panic!("unexpected data: {other:?}"),
    }

    let mut before = once(1);
    before.created_at_ms = 3;
    let req = SchedulerRequest::SetSchedule { new: new_schedule(Some("s1")) };
    let step = advance(begin(req), SchedulerReply::Found(Some(before)), 10);
    match done(advance(step, SchedulerReply::Stored, 10)) {
        SchedulerData::Stored { created, schedule } => {
            assert!(!created);
            assert_eq!(schedule.id, "s1");
            assert_eq!(schedule.created_at_ms, 3);
        }
        other => panic!("unexpected data: {other:?}"),
    }
}

#[test]
fn scheduler_configuration() {
    assert_eq!(Config::from_env(&None, &None), Config::default());
    let c = Config::from_env(&Some("5".to_string()), &Some("6".to_string()));
    assert_eq!((c.db_timeout_ms, c.scan_secs), (5, 6));
}

#[test]
fn a_scan_marks_before_it_dispatches() {
    let mut call = once(900);
    call.id = "c".to_string();
    call.fire = Fire::Action { name: "ping".to_string(), params: "{}".to_string() };
    let docs = vec![once(800), once(5_000), call];
    let mut step = scan_step(begin_scan(), ScanReply::All(Ok(docs)), 1_000, 1_000);
    let mut seen: Vec<String> = Vec::new();
    loop {
        let reply = match &step {
            ScanStep::AwaitMarked { doc, .. } => {
                assert!(doc.fired_once);
                assert_eq!(doc.fire_count, 1);
                seen.push(format!("mark {}", doc.id));
                ScanReply::Stored
            }
            ScanStep::AwaitPublished { event, payload, .. } => {
                assert_eq!(payload, "{}");
                assert!(event.late);
                seen.push(format!("publish {}", event.schedule_id));
                ScanReply::Published
            }
            ScanStep::AwaitCalled { id, name, .. } => {
                seen.push(format!("call {name} for {id}"));
                ScanReply::Called(Err("no such action".to_string()))
            }
            ScanStep::AwaitFailed { id, .. } => {
                seen.push(format!("reread {id}"));
                ScanReply::Found(Some(once(900)))
            }
            ScanStep::AwaitNoted { doc, .. } => {
                assert_eq!(doc.last_error.as_deref(), Some("no such action"));
                assert_eq!(doc.updated_at_ms, 1_234);
                seen.push("note".to_string());
                ScanReply::Stored
            }
            ScanStep::Done { result } => {
                assert_eq!(result, &Ok(2));
                break;
            }
            ScanStep::AwaitAll => unreachable!(),
        };
        step = scan_step(step, reply, 1_000, 1_234);
    }
    assert_eq!(
        seen,
        vec!["mark s1", "publish s1", "mark c", "call ping for c", "reread c", "note"]
    );
}

#[test]
fn a_scan_that_cannot_read_ends() {
    match scan_step(begin_scan(), ScanReply::All(Err("down".to_string())), 1, 1) {
        ScanStep::Done { result } => assert_eq!(result, Err("down".to_string())),
        other => panic!("unexpected step: {other:?}"),
    }
}
