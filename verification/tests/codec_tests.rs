use dnd_thing_server::codec::{decode_message, encode_message, encode_session_record};
use dnd_thing_server::profile::{DiscordUser, UserSession};
use dnd_thing_server::protocol::{ChatMessage, PresenceEntry, WebsocketMessage};

fn user(id: &str) -> DiscordUser {
    DiscordUser {
        id: id.to_string(),
        username: format!("{}-name", id),
        discriminator: "0001".to_string(),
        global_name: None,
        avatar: None,
        accent_color: None,
    }
}

fn full_user() -> DiscordUser {
    DiscordUser {
        id: "42".to_string(),
        username: "gm".to_string(),
        discriminator: "0007".to_string(),
        global_name: Some("The GM".to_string()),
        avatar: Some("abc123".to_string()),
        accent_color: Some(-5),
    }
}

#[test]
fn encodes_session_envelope_exactly() {
    let m = WebsocketMessage::Session(user("A"));
    assert_eq!(
        encode_message(&m),
        "{\"type\":\"Session\",\"data\":{\"id\":\"A\",\"username\":\"A-name\",\
         \"discriminator\":\"0001\",\"global_name\":null,\"avatar\":null,\
         \"accent_color\":null}}"
    );
}

#[test]
fn encodes_full_profile_fields() {
    let m = WebsocketMessage::Session(full_user());
    assert_eq!(
        encode_message(&m),
        "{\"type\":\"Session\",\"data\":{\"id\":\"42\",\"username\":\"gm\",\
         \"discriminator\":\"0007\",\"global_name\":\"The GM\",\"avatar\":\"abc123\",\
         \"accent_color\":-5}}"
    );
}

#[test]
fn encodes_connected_users_envelope_exactly() {
    let m = WebsocketMessage::ConnectedUsers(vec![
        PresenceEntry { identity: "A".to_string(), profile: user("A") },
    ]);
    assert_eq!(
        encode_message(&m),
        "{\"type\":\"ConnectedUsers\",\"data\":{\"A\":{\"id\":\"A\",\
         \"username\":\"A-name\",\"discriminator\":\"0001\",\"global_name\":null,\
         \"avatar\":null,\"accent_color\":null}}}"
    );
}

#[test]
fn encodes_empty_presence_as_empty_object() {
    let m = WebsocketMessage::ConnectedUsers(vec![]);
    assert_eq!(encode_message(&m), "{\"type\":\"ConnectedUsers\",\"data\":{}}");
}

#[test]
fn encodes_chat_and_disconnect_exactly() {
    let m = WebsocketMessage::Message(ChatMessage {
        author: "A".to_string(),
        content: "hello".to_string(),
    });
    assert_eq!(
        encode_message(&m),
        "{\"type\":\"Message\",\"data\":{\"author\":\"A\",\"content\":\"hello\"}}"
    );

    let d = WebsocketMessage::Disconnect("bye".to_string());
    assert_eq!(encode_message(&d), "{\"type\":\"Disconnect\",\"data\":\"bye\"}");
}

#[test]
fn escapes_special_characters() {
    let d = WebsocketMessage::Disconnect("a\"b\\c\nd\te\u{1f}".to_string());
    assert_eq!(
        encode_message(&d),
        "{\"type\":\"Disconnect\",\"data\":\"a\\\"b\\\\c\\nd\\te\\u001f\"}"
    );
}

#[test]
fn round_trips_every_variant() {
    let cases = vec![
        WebsocketMessage::Session(full_user()),
        WebsocketMessage::ConnectedUsers(vec![
            PresenceEntry { identity: "A".to_string(), profile: user("A") },
            PresenceEntry { identity: "B".to_string(), profile: full_user() },
        ]),
        WebsocketMessage::Message(ChatMessage {
            author: "A".to_string(),
            content: "hi \"there\"\n".to_string(),
        }),
        WebsocketMessage::Disconnect("later \\ \u{8}".to_string()),
    ];
    for m in cases {
        let wire = encode_message(&m);
        assert_eq!(decode_message(&wire), Some(m));
    }
}

#[test]
fn round_trips_extreme_accent_colors() {
    for accent in [Some(i32::MIN), Some(i32::MAX), Some(0), None] {
        let mut u = full_user();
        u.accent_color = accent;
        let m = WebsocketMessage::Session(u);
        let wire = encode_message(&m);
        assert_eq!(decode_message(&wire), Some(m));
    }
}

#[test]
fn rejects_malformed_frames() {
    assert_eq!(decode_message("hello"), None);
    assert_eq!(decode_message(""), None);
    assert_eq!(decode_message("{\"type\":\"Nope\",\"data\":\"x\"}"), None);
    assert_eq!(decode_message("{\"type\":\"Disconnect\",\"data\":\"bye\"} x"), None);
    assert_eq!(decode_message("{\"type\":\"Disconnect\",\"data\":\"bye"), None);
    assert_eq!(decode_message("{\"type\":\"Disconnect\",\"data\":\"a\u{1}b\"}"), None);
    assert_eq!(decode_message("{\"type\":\"Disconnect\",\"data\":\"a\\qb\"}"), None);
    // fields must come in declaration order
    assert_eq!(decode_message("{\"data\":\"bye\",\"type\":\"Disconnect\"}"), None);
}

#[test]
fn decodes_frames_with_json_whitespace() {
    let spaced = "{ \"type\" : \"Disconnect\" , \"data\" : \"bye\" }  ";
    assert_eq!(
        decode_message(spaced),
        Some(WebsocketMessage::Disconnect("bye".to_string()))
    );

    let pretty = "{\n  \"type\": \"Message\",\n  \"data\": {\n    \"author\": \"A\",\n    \"content\": \"hi\"\n  }\n}\n";
    assert_eq!(
        decode_message(pretty),
        Some(WebsocketMessage::Message(ChatMessage {
            author: "A".to_string(),
            content: "hi".to_string(),
        }))
    );

    let users = "{\t\"type\": \"ConnectedUsers\",\r\n\"data\": { \"A\" : {\"id\": \"A\", \"username\": \"A-name\", \"discriminator\": \"0001\", \"global_name\": null, \"avatar\": null, \"accent_color\": -7 } } }";
    let mut expected = user("A");
    expected.accent_color = Some(-7);
    assert_eq!(
        decode_message(users),
        Some(WebsocketMessage::ConnectedUsers(vec![PresenceEntry {
            identity: "A".to_string(),
            profile: expected,
        }]))
    );

    // whitespace inside a string is content, not spacing
    let inner = "{\"type\":\"Disconnect\",\"data\":\" spaced out \"}";
    assert_eq!(
        decode_message(inner),
        Some(WebsocketMessage::Disconnect(" spaced out ".to_string()))
    );
}

#[test]
fn rejects_out_of_range_accent_color() {
    let wire = "{\"type\":\"Session\",\"data\":{\"id\":\"42\",\"username\":\"gm\",\
                \"discriminator\":\"0007\",\"global_name\":null,\"avatar\":null,\
                \"accent_color\":2147483648}}";
    assert_eq!(decode_message(wire), None);
    let ok = wire.replace("2147483648", "2147483647");
    assert!(decode_message(&ok).is_some());
}

#[test]
fn decodes_unicode_escapes() {
    let wire = "{\"type\":\"Disconnect\",\"data\":\"a\\u0001b\"}";
    assert_eq!(
        decode_message(wire),
        Some(WebsocketMessage::Disconnect("a\u{1}b".to_string()))
    );
}

#[test]
fn encodes_session_record_exactly() {
    let s = UserSession {
        access_token: "acc".to_string(),
        refresh_token: "ref".to_string(),
        session: user("A"),
    };
    assert_eq!(
        encode_session_record(&s),
        "{\"access_token\":\"acc\",\"refresh_token\":\"ref\",\"session\":{\"id\":\"A\",\
         \"username\":\"A-name\",\"discriminator\":\"0001\",\"global_name\":null,\
         \"avatar\":null,\"accent_color\":null}}"
    );
}
