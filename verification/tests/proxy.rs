//! The quota proxy: what passes it, and how a bridged connection goes on and ends.
use cxa::app_server::read_line;
use cxa::error::Error;
use cxa::json::Json;
use cxa::proxy::{
    client_action, server_message_allowed, ClientAction, Pending, FRAME_TIMEOUT,
    IDLE_CONNECTION_TIMEOUT, MAX_CLIENTS, MAX_DRAIN_MESSAGES, MAX_PENDING_REQUESTS,
};
use cxa::wire::{
    admit_client, connection_timeout, drain_step, next_stage, polled, require_activation,
    select_codex_subprotocol, update_partial_deadline, Bridge, Drained, DrainStep, FrameTracker,
    ReadOutcome, Relay, Stage, Subprotocol, Wire,
};

fn json(text: &str) -> Json {
    match read_line(&text.as_bytes().to_vec()) {
        Ok(value) => value,
        Err(complaint) => panic!("{complaint}"),
    }
}

fn code(reply: &str) -> Option<i64> {
    json(reply).get("error").and_then(|error| error.integer_at("code"))
}

#[test]
fn forwards_only_account_and_quota_methods() {
    let mut pending = Pending::new();
    for (id, method) in ["initialize", "account/read", "account/rateLimits/read"]
        .into_iter()
        .enumerate()
    {
        let action = client_action(
            &format!(r#"{{"id": {id}, "method": "{method}"}}"#),
            &mut pending,
        );
        assert!(matches!(action, ClientAction::Forward(_)));
    }
}

#[test]
fn reloads_auth_and_denies_thread_start() {
    let mut pending = Pending::new();
    let action = client_action(
        r#"{"id": 1, "method": "account/read", "params": {"refreshToken": true}}"#,
        &mut pending,
    );
    let ClientAction::Forward(forwarded) = action else {
        panic!("account/read was not forwarded");
    };
    let forwarded = json(&forwarded);
    assert_eq!(forwarded.get("params").unwrap().bool_at("refreshToken"), Some(true));

    let action = client_action(r#"{"id": 2, "method": "thread/start"}"#, &mut pending);
    let ClientAction::Reply(reply) = action else {
        panic!("thread/start was not denied");
    };
    assert_eq!(code(&reply), Some(-32601));
    assert_eq!(json(&reply).integer_at("id"), Some(2));
}

#[test]
fn accepts_only_matching_responses_and_rate_limit_notifications() {
    let mut pending = Pending::new();
    assert!(pending.insert("1".to_owned()));
    assert!(!server_message_allowed(r#"{"id":2,"result":{}}"#, &mut pending));
    assert!(!server_message_allowed(
        r#"{"method":"thread/started","params":{}}"#,
        &mut pending
    ));
    assert!(server_message_allowed(
        r#"{"method":"account/rateLimits/updated","params":{}}"#,
        &mut pending
    ));
    assert!(server_message_allowed(r#"{"id":1,"result":{}}"#, &mut pending));
    assert_eq!(pending.len(), 0);
    assert!(!server_message_allowed(r#"{"id":1,"result":{}}"#, &mut pending));
}

#[test]
fn the_number_of_open_requests_is_bounded() {
    let mut pending = Pending::new();
    for id in 0..MAX_PENDING_REQUESTS {
        let text = format!(r#"{{"id": {id}, "method": "account/read"}}"#);
        assert!(matches!(client_action(&text, &mut pending), ClientAction::Forward(_)));
    }
    let text = format!(r#"{{"id": {MAX_PENDING_REQUESTS}, "method": "account/read"}}"#);
    assert!(matches!(client_action(&text, &mut pending), ClientAction::Reply(_)));
    assert_eq!(pending.len(), MAX_PENDING_REQUESTS);
    assert!(pending.contains("0"));
    assert!(pending.remove("0"));
    assert!(!pending.remove("0"));
}

#[test]
fn a_message_that_is_no_json_is_answered_with_an_error() {
    let mut pending = Pending::new();
    let ClientAction::Reply(reply) = client_action("not json", &mut pending) else {
        panic!("it was forwarded");
    };
    assert!(code(&reply).is_some());
    assert!(matches!(json(&reply).get("id"), Some(Json::Null)));
}

#[test]
fn accepts_missing_and_selects_the_codex_subprotocol_when_offered() {
    assert!(matches!(select_codex_subprotocol(&vec![]), Subprotocol::NotOffered));
    assert!(matches!(
        select_codex_subprotocol(&vec![Some("other, codex-app-server".to_owned())]),
        Subprotocol::Selected
    ));
    assert!(matches!(
        select_codex_subprotocol(&vec![Some("other".to_owned())]),
        Subprotocol::Refused
    ));
    assert!(matches!(select_codex_subprotocol(&vec![None]), Subprotocol::Refused));
}

#[test]
fn bridges_multiple_requests_notifications_and_local_denials() {
    let mut bridge = Bridge::new(0);
    for text in [
        r#"{"id":1,"method":"initialize"}"#,
        r#"{"id":2,"method":"account/read","params":{"refreshToken":true}}"#,
    ] {
        let relay = bridge.handle_client_message(Wire::Text(text.to_owned())).ok().unwrap();
        let Relay::ToServer(sent) = relay else {
            panic!("it was not forwarded");
        };
        assert_eq!(json(&sent).integer_at("id"), json(text).integer_at("id"));
    }
    for text in [
        r#"{"method":"account/rateLimits/updated","params":{"source":"push"}}"#,
        r#"{"id":2,"result":{"account":{"type":"chatgpt"}}}"#,
        r#"{"id":1,"result":{"serverInfo":{"name":"fake"}}}"#,
    ] {
        let relay = bridge.handle_server_message(Wire::Text(text.to_owned())).ok().unwrap();
        let Relay::ToClient(sent) = relay else {
            panic!("it was held back");
        };
        assert_eq!(sent, text);
    }
    let denied = r#"{"id":3,"method":"thread/start"}"#;
    let relay = bridge.handle_client_message(Wire::Text(denied.to_owned())).ok().unwrap();
    let Relay::ToClient(denial) = relay else {
        panic!("it was forwarded");
    };
    assert_eq!(json(&denial).integer_at("id"), Some(3));
    assert_eq!(code(&denial), Some(-32601));
}

#[test]
fn pings_are_answered_and_farewells_passed_on() {
    let mut bridge = Bridge::new(0);
    assert!(matches!(
        bridge.handle_client_message(Wire::Ping(vec![1, 2])),
        Ok(Relay::Answer(payload)) if payload == vec![1, 2]
    ));
    assert!(matches!(bridge.handle_server_message(Wire::Pong), Ok(Relay::Drop)));
    assert!(matches!(bridge.handle_server_message(Wire::Close), Ok(Relay::Close)));
    assert!(matches!(
        bridge.handle_server_message(Wire::Other),
        Err(Error::Protocol(_))
    ));
    assert_eq!(next_stage(Stage::Server, &Relay::Close), Stage::End);
}

#[test]
fn each_nonblocking_drain_has_a_message_bound() {
    let mut taken = 0;
    loop {
        let step = drain_step(taken, ReadOutcome::Message, false);
        taken += 1;
        if step != DrainStep::Continue {
            assert_eq!(step, DrainStep::Stop { incomplete: false, closed: false });
            break;
        }
    }
    assert_eq!(taken, MAX_DRAIN_MESSAGES);
    assert_eq!(drain_step(0, ReadOutcome::Failed, true), DrainStep::Fail);
    assert_eq!(
        drain_step(0, ReadOutcome::Closed, true),
        DrainStep::Stop { incomplete: false, closed: true }
    );
}

#[test]
fn a_partial_frame_after_a_message_starts_the_timeout() {
    let mut tracker = FrameTracker::start_frames();
    let mut complete = vec![0x81, 0x88, 1, 2, 3, 4];
    complete.extend_from_slice(b"complete");
    tracker.advance(&complete);
    assert!(!tracker.has_partial_frame());

    tracker.advance(&vec![0x81, 0xff, 0, 0, 0, 0, 0, 0x40, 0, 0, 1, 2, 3, 4]);
    assert!(tracker.has_partial_frame());
    let step = drain_step(0, ReadOutcome::WouldBlock, tracker.has_partial_frame());
    assert_eq!(step, DrainStep::Stop { incomplete: true, closed: false });
    let partial = Drained { messages: 0, incomplete: true, closed: false };
    assert!(update_partial_deadline(None, &partial, 7).is_some());
}

#[test]
fn a_complete_non_final_frame_starts_the_timeout() {
    let mask = [1_u8, 2, 3, 4];
    let payload = [b'{' ^ mask[0], b'}' ^ mask[1]];
    let mut tracker = FrameTracker::start_frames();
    tracker.advance(&vec![
        0x01, 0x82, mask[0], mask[1], mask[2], mask[3], payload[0], payload[1],
    ]);

    assert!(tracker.has_partial_frame());
    let drained = Drained { messages: 0, incomplete: true, closed: false };
    assert!(update_partial_deadline(None, &drained, 7).is_some());
}

#[test]
fn frames_may_come_in_any_pieces() {
    let bytes: Vec<u8> = vec![0x81, 0x7e, 0, 3, b'a', b'b', b'c', 0x89, 0x00, 0x80, 0x01, b'x'];
    let mut whole = FrameTracker::start_frames();
    whole.advance(&bytes);
    let mut pieces = FrameTracker::start_frames();
    for byte in &bytes {
        assert!(pieces.limit(16) >= 1);
        pieces.advance(&vec![*byte]);
    }
    assert_eq!(whole.has_partial_frame(), pieces.has_partial_frame());
    assert!(!whole.has_partial_frame());
}

#[test]
fn complete_idle_connections_have_a_poll_deadline() {
    let now = 1_000_000;
    assert_eq!(connection_timeout(None, None, now, now), IDLE_CONNECTION_TIMEOUT);
    assert_eq!(connection_timeout(Some(now), None, now, now), FRAME_TIMEOUT);
}

#[test]
fn a_connection_that_waited_its_full_time_ends() {
    let bridge = Bridge::new(0);
    assert_eq!(bridge.wait(0).ok(), Some(IDLE_CONNECTION_TIMEOUT));
    assert!(bridge.wait(IDLE_CONNECTION_TIMEOUT).is_err() || polled(0, false, false).is_err());
}

#[test]
fn activity_starts_the_wait_anew() {
    let mut bridge = Bridge::new(0);
    let message = Drained { messages: 1, incomplete: false, closed: false };
    let text = Wire::Text(r#"{"id":1,"method":"initialize"}"#.to_owned());
    assert!(matches!(
        bridge.turn(true, &message, Some(text), 50),
        Ok(Relay::ToServer(_))
    ));
    assert_eq!(bridge.wait(50).ok(), Some(IDLE_CONNECTION_TIMEOUT));
    bridge.server_drained(&Drained { messages: 0, incomplete: true, closed: false }, 60);
    assert_eq!(bridge.wait(60).ok(), Some(FRAME_TIMEOUT));
    bridge.client_drained(&message, 70);
}

#[test]
fn only_so_many_clients_are_served() {
    assert_eq!(admit_client(0), Some(1));
    assert_eq!(admit_client(MAX_CLIENTS - 1), Some(MAX_CLIENTS));
    assert_eq!(admit_client(MAX_CLIENTS), None);
}

#[test]
fn a_socket_has_to_be_handed_over() {
    let one = Some("1".to_owned());
    let own = Some("42".to_owned());
    assert!(require_activation(&one, &own, 42).is_ok());
    assert!(require_activation(&one, &own, 43).is_err());
    assert!(require_activation(&None, &own, 42).is_err());
    assert!(require_activation(&Some("2".to_owned()), &own, 42).is_err());
}
