use dnd_thing_server::hub::{Action, Hub};
use dnd_thing_server::profile::DiscordUser;
use dnd_thing_server::protocol::{ChatMessage, WebsocketMessage};

fn user(id: &str) -> DiscordUser {
    DiscordUser {
        id: id.to_string(),
        username: format!("{}-name", id),
        discriminator: "0001".to_string(),
        global_name: None,
        avatar: None,
        accent_color: None,
    }
}

fn chat(author: &str, content: &str) -> WebsocketMessage {
    WebsocketMessage::Message(ChatMessage {
        author: author.to_string(),
        content: content.to_string(),
    })
}

fn identities(hub: &Hub) -> Vec<String> {
    hub.snapshot().into_iter().map(|e| e.identity).collect()
}

#[test]
fn presence_mirrors_registry() {
    let mut hub = Hub::new();
    assert_eq!(identities(&hub), Vec::<String>::new());
    assert_eq!(hub.all_handles(), Vec::<u64>::new());

    hub.join(user("a"), 1);
    hub.join(user("b"), 2);
    assert_eq!(identities(&hub), vec!["a".to_string(), "b".to_string()]);
    assert_eq!(hub.all_handles(), vec![1, 2]);

    hub.remove(&"a".to_string());
    assert_eq!(identities(&hub), vec!["b".to_string()]);
    assert_eq!(hub.all_handles(), vec![2]);
}

#[test]
fn join_replaces_existing_identity() {
    let mut hub = Hub::new();
    hub.join(user("a"), 1);
    hub.join(user("b"), 2);
    hub.join(user("a"), 5);
    assert_eq!(identities(&hub), vec!["a".to_string(), "b".to_string()]);
    assert_eq!(hub.all_handles(), vec![5, 2]);
}

#[test]
fn remove_absent_identity_is_noop() {
    let mut hub = Hub::new();
    hub.remove(&"ghost".to_string());
    assert_eq!(identities(&hub), Vec::<String>::new());

    hub.join(user("a"), 1);
    hub.remove(&"ghost".to_string());
    assert_eq!(identities(&hub), vec!["a".to_string()]);
    assert_eq!(hub.all_handles(), vec![1]);
}

#[test]
fn broadcast_excludes_sender() {
    let mut hub = Hub::new();
    hub.join(user("a"), 1);
    hub.join(user("b"), 2);
    hub.join(user("c"), 3);

    let actions = hub.broadcast(&"b".to_string(), &chat("b", "hi"));
    assert_eq!(
        actions,
        vec![
            Action::Deliver { handle: 1, message: chat("b", "hi") },
            Action::Deliver { handle: 3, message: chat("b", "hi") },
        ]
    );
}

#[test]
fn broadcast_from_unknown_sender_reaches_all() {
    let mut hub = Hub::new();
    hub.join(user("a"), 1);
    hub.join(user("b"), 2);

    let actions = hub.broadcast(&"zz".to_string(), &chat("zz", "hi"));
    assert_eq!(
        actions,
        vec![
            Action::Deliver { handle: 1, message: chat("zz", "hi") },
            Action::Deliver { handle: 2, message: chat("zz", "hi") },
        ]
    );
}

#[test]
fn snapshot_keeps_admission_order_and_profiles() {
    let mut hub = Hub::new();
    hub.join(user("b"), 2);
    hub.join(user("a"), 1);
    let snap = hub.snapshot();
    assert_eq!(snap.len(), 2);
    assert_eq!(snap[0].identity, "b");
    assert_eq!(snap[0].profile, user("b"));
    assert_eq!(snap[1].identity, "a");
    assert_eq!(snap[1].profile, user("a"));
}
