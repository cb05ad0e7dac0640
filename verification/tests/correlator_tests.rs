use dnd_thing_server::correlator::{
    append_state_param, assemble_session, reconcile_plan, CorrelationMiss, LoginCorrelator,
    SessionPlan,
};
use dnd_thing_server::hub::{Action, CloseReason, NORMAL_CLOSURE};
use dnd_thing_server::profile::{AccessTokens, DiscordUser, UserSession};

fn user(id: &str) -> DiscordUser {
    DiscordUser {
        id: id.to_string(),
        username: format!("{}-name", id),
        discriminator: "0001".to_string(),
        global_name: None,
        avatar: None,
        accent_color: None,
    }
}

fn session(id: &str) -> UserSession {
    UserSession {
        access_token: "acc".to_string(),
        refresh_token: "ref".to_string(),
        session: user(id),
    }
}

#[test]
fn resolve_delivers_once_then_misses() {
    let mut c = LoginCorrelator::new();
    c.register("T".to_string(), 7);
    assert!(c.contains(&"T".to_string()));

    let actions = c.resolve(&"T".to_string(), session("A")).expect("first resolution succeeds");
    assert_eq!(
        actions,
        vec![
            Action::DeliverLogin { handle: 7, payload: session("A") },
            Action::Close {
                handle: 7,
                reason: Some(CloseReason {
                    code: NORMAL_CLOSURE,
                    description: Some("Sent login".to_string()),
                }),
            },
        ]
    );

    assert!(!c.contains(&"T".to_string()));
    assert_eq!(c.resolve(&"T".to_string(), session("A")), Err(CorrelationMiss));
}

#[test]
fn resolve_unknown_token_misses_without_effect() {
    let mut c = LoginCorrelator::new();
    c.register("T".to_string(), 7);
    assert_eq!(c.resolve(&"other".to_string(), session("A")), Err(CorrelationMiss));
    assert!(c.contains(&"T".to_string()));
}

#[test]
fn minted_token_is_36_chars_and_parked() {
    let mut c = LoginCorrelator::new();
    let token = c.mint(9);
    assert_eq!(token.chars().count(), 36);
    assert!(c.contains(&token));

    let actions = c.resolve(&token, session("A")).expect("minted token resolves");
    assert!(matches!(actions[0], Action::DeliverLogin { handle: 9, .. }));
}

#[test]
fn register_overwrites_a_reused_token() {
    let mut c = LoginCorrelator::new();
    c.register("T".to_string(), 1);
    c.register("T".to_string(), 2);
    let actions = c.resolve(&"T".to_string(), session("A")).expect("token resolves");
    assert!(matches!(actions[0], Action::DeliverLogin { handle: 2, .. }));
}

#[test]
fn authorization_url_embeds_the_token() {
    let url = append_state_param("https://example.test/auth?client_id=1", "tok-42");
    assert_eq!(url, "https://example.test/auth?client_id=1&state=tok-42");
    assert!(url.contains("tok-42"));
}

#[test]
fn reconcile_plan_decides_from_the_stored_record() {
    assert_eq!(reconcile_plan(None, &"acc".to_string()), SessionPlan::AddUser);
    let stored = session("A");
    assert_eq!(reconcile_plan(Some(&stored), &"acc".to_string()), SessionPlan::UseStored);
    assert_eq!(reconcile_plan(Some(&stored), &"newer".to_string()), SessionPlan::Refresh);
}

#[test]
fn assemble_session_pairs_tokens_with_the_profile() {
    let s = assemble_session(
        AccessTokens { access_token: "a1".to_string(), refresh_token: "r1".to_string() },
        user("A"),
    );
    assert_eq!(s.access_token, "a1");
    assert_eq!(s.refresh_token, "r1");
    assert_eq!(s.session, user("A"));
}

#[test]
fn login_payload_wraps_the_record() {
    let p = dnd_thing_server::profile::LoginPayload { payload: session("A") };
    assert_eq!(p.payload, session("A"));
}
