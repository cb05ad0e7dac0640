use dnd_thing_server::actor::{bearer_token, AuthError, CloseCause, ConnEvent, ConnectionActor};
use dnd_thing_server::codec::encode_message;
use dnd_thing_server::hub::{Action, CloseReason, Hub, NORMAL_CLOSURE};
use dnd_thing_server::profile::DiscordUser;
use dnd_thing_server::protocol::{ChatMessage, WebsocketMessage};

fn user(id: &str) -> DiscordUser {
    DiscordUser {
        id: id.to_string(),
        username: format!("{}-name", id),
        discriminator: "0001".to_string(),
        global_name: None,
        avatar: None,
        accent_color: None,
    }
}

fn chat(author: &str, content: &str) -> WebsocketMessage {
    WebsocketMessage::Message(ChatMessage {
        author: author.to_string(),
        content: content.to_string(),
    })
}

fn connected_users(hub: &Hub) -> WebsocketMessage {
    WebsocketMessage::ConnectedUsers(hub.snapshot())
}

#[test]
fn scenario_chat_between_two_clients() {
    let mut hub = Hub::new();
    let (mut a, _) = ConnectionActor::connect(&mut hub, user("A"), 1, 0);
    let (_b, _) = ConnectionActor::connect(&mut hub, user("B"), 2, 0);

    let r = a.handle_event(&hub, ConnEvent::Text("hello".to_string()), 100);
    assert!(r.terminal.is_none());
    assert_eq!(r.actions, vec![Action::Deliver { handle: 2, message: chat("A", "hello") }]);
}

#[test]
fn scenario_session_then_presence_broadcasts() {
    let mut hub = Hub::new();
    let (_a, first) = ConnectionActor::connect(&mut hub, user("A"), 1, 0);
    assert_eq!(
        first,
        vec![
            Action::Deliver { handle: 1, message: WebsocketMessage::Session(user("A")) },
            Action::Deliver { handle: 1, message: connected_users(&hub) },
        ]
    );

    let (_b, second) = ConnectionActor::connect(&mut hub, user("B"), 2, 0);
    assert_eq!(
        second,
        vec![
            Action::Deliver { handle: 2, message: WebsocketMessage::Session(user("B")) },
            Action::Deliver { handle: 1, message: connected_users(&hub) },
            Action::Deliver { handle: 2, message: connected_users(&hub) },
        ]
    );
    let snap = hub.snapshot();
    assert_eq!(snap.len(), 2);
    assert_eq!(snap[0].identity, "A");
    assert_eq!(snap[1].identity, "B");
}

#[test]
fn scenario_no_credential_is_rejected_before_any_mutation() {
    let hub = Hub::new();
    assert_eq!(bearer_token(None), Err(AuthError::MissingCredential));
    assert_eq!(bearer_token(Some("Bear")), Err(AuthError::MalformedCredential));
    assert_eq!(hub.snapshot().len(), 0);
    assert_eq!(hub.all_handles().len(), 0);
}

#[test]
fn bearer_token_strips_the_scheme_prefix() {
    assert_eq!(bearer_token(Some("Bearer tok123")), Ok("tok123".to_string()));
}

#[test]
fn disconnect_frame_ends_the_loop_with_its_reason() {
    let mut hub = Hub::new();
    let (mut a, _) = ConnectionActor::connect(&mut hub, user("A"), 1, 0);
    let (_b, _) = ConnectionActor::connect(&mut hub, user("B"), 2, 0);

    let frame = encode_message(&WebsocketMessage::Disconnect("bye".to_string()));
    let r = a.handle_event(&hub, ConnEvent::Text(frame), 100);
    assert_eq!(r.terminal, Some(CloseCause::DisconnectRequested("bye".to_string())));
    assert_eq!(r.actions, Vec::<Action>::new());
}

#[test]
fn whitespaced_disconnect_frame_also_ends_the_loop() {
    let mut hub = Hub::new();
    let (mut a, _) = ConnectionActor::connect(&mut hub, user("A"), 1, 0);
    let frame = "{\n  \"type\": \"Disconnect\",\n  \"data\": \"bye\"\n}";
    let r = a.handle_event(&hub, ConnEvent::Text(frame.to_string()), 100);
    assert_eq!(r.terminal, Some(CloseCause::DisconnectRequested("bye".to_string())));
    assert_eq!(r.actions, Vec::<Action>::new());
}

#[test]
fn malformed_frame_falls_back_to_chat() {
    let mut hub = Hub::new();
    let (mut a, _) = ConnectionActor::connect(&mut hub, user("A"), 1, 0);
    let (_b, _) = ConnectionActor::connect(&mut hub, user("B"), 2, 0);

    let text = "{\"type\":\"Nope\",\"data\":1}";
    let r = a.handle_event(&hub, ConnEvent::Text(text.to_string()), 100);
    assert!(r.terminal.is_none());
    assert_eq!(r.actions, vec![Action::Deliver { handle: 2, message: chat("A", text) }]);
}

#[test]
fn non_disconnect_envelope_also_falls_back_to_chat() {
    let mut hub = Hub::new();
    let (mut a, _) = ConnectionActor::connect(&mut hub, user("A"), 1, 0);
    let (_b, _) = ConnectionActor::connect(&mut hub, user("B"), 2, 0);

    let frame = encode_message(&chat("A", "hi"));
    let r = a.handle_event(&hub, ConnEvent::Text(frame.clone()), 100);
    assert!(r.terminal.is_none());
    assert_eq!(r.actions, vec![Action::Deliver { handle: 2, message: chat("A", &frame) }]);
}

#[test]
fn ping_is_answered_with_its_payload() {
    let mut hub = Hub::new();
    let (mut a, _) = ConnectionActor::connect(&mut hub, user("A"), 1, 0);
    let r = a.handle_event(&hub, ConnEvent::Ping(vec![9, 9]), 100);
    assert!(r.terminal.is_none());
    assert_eq!(r.actions, vec![Action::Pong { handle: 1, data: vec![9, 9] }]);
}

#[test]
fn tick_pings_inside_the_window_and_times_out_past_it() {
    let mut hub = Hub::new();
    let (mut a, _) = ConnectionActor::connect(&mut hub, user("A"), 1, 0);

    let r = a.handle_event(&hub, ConnEvent::Tick, 10000);
    assert!(r.terminal.is_none());
    assert_eq!(r.actions, vec![Action::Ping { handle: 1 }]);

    let r = a.handle_event(&hub, ConnEvent::Tick, 10001);
    assert_eq!(r.terminal, Some(CloseCause::TimedOut));
    assert_eq!(r.actions, Vec::<Action>::new());
}

#[test]
fn inbound_activity_defers_the_timeout() {
    let mut hub = Hub::new();
    let (mut a, _) = ConnectionActor::connect(&mut hub, user("A"), 1, 0);

    let r = a.handle_event(&hub, ConnEvent::Pong, 8000);
    assert!(r.terminal.is_none());

    let r = a.handle_event(&hub, ConnEvent::Tick, 12000);
    assert!(r.terminal.is_none());
    assert_eq!(r.actions, vec![Action::Ping { handle: 1 }]);

    let r = a.handle_event(&hub, ConnEvent::Tick, 18001);
    assert_eq!(r.terminal, Some(CloseCause::TimedOut));
}

#[test]
fn peer_close_propagates_its_reason() {
    let mut hub = Hub::new();
    let (mut a, _) = ConnectionActor::connect(&mut hub, user("A"), 1, 0);
    let reason = CloseReason { code: NORMAL_CLOSURE, description: Some("done".to_string()) };
    let r = a.handle_event(&hub, ConnEvent::PeerClose(Some(reason)), 100);
    let expected = CloseReason { code: NORMAL_CLOSURE, description: Some("done".to_string()) };
    assert_eq!(r.terminal, Some(CloseCause::PeerClosed(Some(expected))));
}

#[test]
fn teardown_removes_and_rebroadcasts_presence() {
    let mut hub = Hub::new();
    let (a, _) = ConnectionActor::connect(&mut hub, user("A"), 1, 0);
    let (_b, _) = ConnectionActor::connect(&mut hub, user("B"), 2, 0);

    let actions = a.teardown(&mut hub, CloseCause::TransportError);
    assert_eq!(
        actions,
        vec![
            Action::Close { handle: 1, reason: None },
            Action::Deliver { handle: 2, message: connected_users(&hub) },
        ]
    );
    let snap = hub.snapshot();
    assert_eq!(snap.len(), 1);
    assert_eq!(snap[0].identity, "B");
}

#[test]
fn timeout_teardown_carries_a_distinct_reason() {
    let mut hub = Hub::new();
    let (a, _) = ConnectionActor::connect(&mut hub, user("A"), 1, 0);

    let actions = a.teardown(&mut hub, CloseCause::TimedOut);
    assert_eq!(
        actions,
        vec![Action::Close {
            handle: 1,
            reason: Some(CloseReason {
                code: NORMAL_CLOSURE,
                description: Some("heartbeat timeout".to_string()),
            }),
        }]
    );
    assert_eq!(hub.snapshot().len(), 0);
}
