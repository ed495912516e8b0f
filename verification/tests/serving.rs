use vynkor_plugins::action::{not_found, ActionStatus};
use vynkor_plugins::serving::{
    ai_actions, check_registration, serve_step, stt_actions, Inbound, ServeStep,
};

fn request(action: &str) -> Inbound {
    Inbound::Action {
        action_id: "a1".to_string(),
        action: action.to_string(),
        params_json: b"{}".to_vec(),
    }
}

#[test]
fn rejected_registrations_are_errors() {
    assert!(check_registration(true, "").is_ok());
    assert_eq!(
        check_registration(false, "bad token").unwrap_err(),
        "registration rejected: bad token"
    );
}

#[test]
fn served_actions_are_performed_and_others_not_found() {
    match serve_step(request("chat_completion"), &ai_actions(), 0) {
        ServeStep::Perform { action_id, action, params_json } => {
            assert_eq!(action_id, "a1");
            assert_eq!(action, "chat_completion");
            assert_eq!(params_json, b"{}");
        }
        other => panic!("unexpected step: {other:?}"),
    }
    match serve_step(request("chat_completion"), &stt_actions(), 0) {
        ServeStep::Reply { reply } => {
            assert_eq!(reply, not_found("a1".to_string(), "chat_completion"));
            assert_eq!(reply.status, ActionStatus::ActionNotFound);
        }
        other => panic!("unexpected step: {other:?}"),
    }
    assert!(matches!(
        serve_step(request("stt_models"), &stt_actions(), 0),
        ServeStep::Perform { .. }
    ));
}

#[test]
fn pings_events_and_shutdown() {
    assert_eq!(
        serve_step(Inbound::Ping { timestamp: 3 }, &ai_actions(), 8),
        ServeStep::Pong { original_timestamp: 3, server_timestamp: 8 }
    );
    assert_eq!(
        serve_step(Inbound::Event { event_id: "e".to_string() }, &ai_actions(), 8),
        ServeStep::AckEvent { event_id: "e".to_string() }
    );
    assert_eq!(serve_step(Inbound::Shutdown, &ai_actions(), 8), ServeStep::Stop);
    assert_eq!(serve_step(Inbound::Disconnected, &ai_actions(), 8), ServeStep::Stop);
    assert_eq!(serve_step(Inbound::Other, &ai_actions(), 8), ServeStep::Ignore);
}
