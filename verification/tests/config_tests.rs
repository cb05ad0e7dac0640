use dnd_thing_server::config::Config;

#[test]
fn parses_a_plain_document() {
    let text = "[global]\ndiscord_client = \"client-id\"\ndiscord_secret = \"SECRET-REDACTED\"\n";
    let c = Config::new(text).expect("document parses");
    assert_eq!(c.global.discord_client, "client-id");
    assert_eq!(c.global.discord_secret, "SECRET-REDACTED");
}

#[test]
fn accepts_comment_lines() {
    let text = "# note\n[global]\ndiscord_client = \"a\"\ndiscord_secret = \"b\"\n";
    let c = Config::new(text).expect("document parses");
    assert_eq!(c.global.discord_client, "a");
    assert_eq!(c.global.discord_secret, "b");
}

#[test]
fn accepts_trailing_comments() {
    let text = "[global]  # the credentials\n\
                discord_client = \"a\"  # issued by the provider\n\
                discord_secret = \"b\" #last\n";
    let c = Config::new(text).expect("document parses");
    assert_eq!(c.global.discord_client, "a");
    assert_eq!(c.global.discord_secret, "b");
}

#[test]
fn accepts_preceding_and_trailing_tables() {
    let text = "title = \"top level\"\n\
                [server]\nhost = \"localhost\"\nport = 8080\nretry = true\n\
                [global]\ndiscord_client = \"a\"\ndiscord_secret = \"b\"\n\
                [database]\nurl = \"postgres://localhost/x\"\npool = [\n  1,\n  2,\n]\n";
    let c = Config::new(text).expect("document parses");
    assert_eq!(c.global.discord_client, "a");
    assert_eq!(c.global.discord_secret, "b");
}

#[test]
fn other_tables_do_not_supply_credentials() {
    let text = "[server]\ndiscord_client = \"wrong\"\ndiscord_secret = \"wrong\"\n[global]\n\
                discord_client = \"right\"\ndiscord_secret = \"right\"\n";
    let c = Config::new(text).expect("document parses");
    assert_eq!(c.global.discord_client, "right");
    assert_eq!(c.global.discord_secret, "right");

    let only_other = "[server]\ndiscord_client = \"a\"\ndiscord_secret = \"b\"\n";
    assert!(Config::new(only_other).is_err());
}

#[test]
fn accepts_free_spacing_and_extra_keys() {
    let text = "\n  [ global ]\r\ndatabase_url = \"postgres://localhost/x\"\r\n\
                discord_client=\"a\"\n\n  discord_secret =  \"b\"  \n";
    let c = Config::new(text).expect("document parses");
    assert_eq!(c.global.discord_client, "a");
    assert_eq!(c.global.discord_secret, "b");
}

#[test]
fn skips_non_string_bindings_in_global() {
    let text = "[global]\nretries = 3\nverbose = true\n\
                discord_client = \"a\"\ndiscord_secret = \"b\"\n";
    let c = Config::new(text).expect("document parses");
    assert_eq!(c.global.discord_client, "a");
    assert_eq!(c.global.discord_secret, "b");
}

#[test]
fn first_binding_of_a_duplicate_key_wins() {
    let text = "[global]\ndiscord_client = \"one\"\ndiscord_client = \"two\"\n\
                discord_secret = \"s\"\n";
    let c = Config::new(text).expect("document parses");
    assert_eq!(c.global.discord_client, "one");
}

#[test]
fn rejects_a_document_without_the_global_table() {
    assert!(Config::new("discord_client = \"a\"\ndiscord_secret = \"b\"\n").is_err());
    assert!(Config::new("").is_err());
    assert!(Config::new("# only a comment\n").is_err());
}

#[test]
fn rejects_missing_credentials() {
    assert!(Config::new("[global]\ndiscord_client = \"a\"\n").is_err());
    assert!(Config::new("[global]\ndiscord_secret = \"b\"\n").is_err());
    assert!(Config::new("[global]\n").is_err());
}

#[test]
fn rejects_malformed_global_lines() {
    assert!(Config::new("[global]\ndiscord_client \"a\"\n").is_err());
    assert!(Config::new("[global]\ndiscord_client = \"a\n").is_err());
    assert!(Config::new("[global]\ndiscord_client = \"a\" junk\n").is_err());
    assert!(Config::new("[global\ndiscord_client = \"a\"\n").is_err());
}
