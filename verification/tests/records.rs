use tianxuan::commands::{
    build_config, connection_key, greet, keyring_key, reads_keyring, resolve_batch_password,
    resolve_password,
    session_id_or_new,
};
use tianxuan::models::host::{AuthType, Host, PanelType as HostPanelType};
use tianxuan::models::panel::{default_panel_type, NewPanel, PanelType};
use tianxuan::services::host_service::{
    auth_type_from_str, auth_type_to_str, host_to_row, row_to_host,
};
use tianxuan::services::panel_service::{
    panel_to_row, panel_type_from_str, panel_type_to_str, row_to_panel,
};
use tianxuan::services::ssh_client::SshAuth;

fn sample_host() -> Host {
    Host::new(
        "Test Server".to_string(),
        "47.100.33.169".to_string(),
        22,
        "root".to_string(),
        AuthType::Password,
        "keyring-ref-1".to_string(),
        "\u{751f}\u{4ea7}".to_string(),
        vec!["bt".to_string()],
        Some(HostPanelType::Bt),
        Some("https://panel".to_string()),
    )
}

#[test]
fn test_greet() {
    assert_eq!(
        greet("tianxuan"),
        "Hello, tianxuan! You've been greeted from Rust!"
    );
}

#[test]
fn new_host_has_fresh_id_and_equal_stamps() {
    let a = sample_host();
    let b = sample_host();
    assert_ne!(a.id, b.id);
    assert_eq!(a.id.len(), 36);
    for (i, c) in a.id.chars().enumerate() {
        if i == 8 || i == 13 || i == 18 || i == 23 {
            assert_eq!(c, '-');
        } else {
            assert!(c.is_ascii_digit() || ('a'..='f').contains(&c));
        }
    }
    assert!(a.created_at.ends_with("+00:00"));
    assert_eq!(a.created_at, a.updated_at);
    assert!(a.panel_session_ref.is_none());
    assert_eq!(a.port, 22);
    assert_eq!(a.tags, vec!["bt".to_string()]);
}

#[test]
fn host_row_roundtrip_keeps_stored_fields() {
    let mut host = sample_host();
    host.tags = vec!["a \"quoted\" tag".to_string(), "\u{4e2d}\\n".to_string()];
    let row = host_to_row(&host);
    assert_eq!(row.auth_type, "password");
    assert_eq!(row.tags, "[\"a \\\"quoted\\\" tag\",\"\u{4e2d}\\\\n\"]");
    let back = row_to_host(row);
    assert_eq!(back.id, host.id);
    assert_eq!(back.name, "Test Server");
    assert_eq!(back.address, "47.100.33.169");
    assert_eq!(back.port, 22);
    assert_eq!(back.username, "root");
    assert_eq!(back.auth_type, AuthType::Password);
    assert_eq!(back.auth_ref, "keyring-ref-1");
    assert_eq!(back.group_name, "\u{751f}\u{4ea7}");
    assert_eq!(back.tags, host.tags);
    assert_eq!(back.created_at, host.created_at);
    assert!(back.panel_type.is_none());
    assert!(back.panel_url.is_none());
}

#[test]
fn host_row_tags_json_escapes() {
    let mut host = sample_host();
    host.tags = vec!["\t\u{1}\u{1f}".to_string(), String::new(), "\u{7f}/".to_string()];
    assert_eq!(host_to_row(&host).tags, "[\"\\t\\u0001\\u001f\",\"\",\"\u{7f}/\"]");
    host.tags = Vec::new();
    assert_eq!(host_to_row(&host).tags, "[]");
}

#[test]
fn host_row_reading_defaults() {
    let mut row = host_to_row(&sample_host());
    row.auth_type = "other".to_string();
    row.tags = "not json".to_string();
    let back = row_to_host(row);
    assert_eq!(back.auth_type, AuthType::Password);
    assert!(back.tags.is_empty());
    assert_eq!(auth_type_from_str("key"), AuthType::Key);
    assert_eq!(auth_type_to_str(&AuthType::Key), "key");
}

#[test]
fn panel_row_roundtrip() {
    let panel = NewPanel {
        name: "BT Panel".to_string(),
        url: "https://panel.example.com:8888".to_string(),
        panel_type: PanelType::OnePanel,
    }
    .into_panel();
    assert_eq!(panel.created_at, panel.updated_at);
    assert!(panel.created_at.ends_with("+00:00"));
    assert_eq!(panel.id.len(), 36);
    assert!(panel.session_ref.is_none());
    let row = panel_to_row(&panel);
    assert_eq!(row.panel_type, "1panel");
    let back = row_to_panel(row);
    assert_eq!(back.name, "BT Panel");
    assert_eq!(back.url, "https://panel.example.com:8888");
    assert_eq!(back.panel_type, PanelType::OnePanel);
    assert_eq!(panel_type_from_str("nonsense"), PanelType::Bt);
    assert_eq!(panel_type_to_str(&PanelType::Bt), "bt");
    assert_eq!(default_panel_type(), PanelType::Bt);
}

#[test]
fn keyring_key_and_passwords() {
    assert_eq!(keyring_key("abc"), "host-password:abc");
    let host = sample_host();
    assert_eq!(resolve_password(&host, Ok(Some("pw".to_string()))), Ok("pw".to_string()));
    assert_eq!(
        resolve_password(&host, Ok(None)),
        Err("password not stored in keyring".to_string())
    );
    assert_eq!(resolve_password(&host, Err("locked".to_string())), Err("locked".to_string()));
    assert_eq!(
        resolve_batch_password(&host, Ok(None)),
        Err("password not stored for Test Server".to_string())
    );
    let mut key_host = sample_host();
    key_host.auth_type = AuthType::Key;
    assert!(reads_keyring(&host));
    assert!(!reads_keyring(&key_host));
    assert_eq!(
        resolve_password(&key_host, Ok(Some("pw".to_string()))),
        Err("key-based auth not yet supported".to_string())
    );
}

#[test]
fn ssh_config_and_connection_key() {
    let mut host = sample_host();
    host.port = 2222;
    let c = build_config(&host, "s3cret");
    assert_eq!(c.host, "47.100.33.169");
    assert_eq!(c.port, 2222);
    assert_eq!(c.username, "root");
    match c.auth {
        SshAuth::Password { password } => assert_eq!(password, "s3cret"),
        _ => panic!("expected password auth"),
    }
    assert_eq!(connection_key(&host), "47.100.33.169:2222");
    assert_eq!(session_id_or_new("t1".to_string()), "t1");
    assert_eq!(session_id_or_new(String::new()).len(), 36);
}
