use astra_core::config::{
    default_config, finalize_legacy_config, finalize_toml_config, finalize_vscode_config,
    parent_dir, resolve_config_cascade, resolve_explicit_json, ConfigPathKind, ConfigReader,
};
use astra_core::i18n::Language;
use astra_core::types::{AstraTomlConfig, Credential, SftpConfig, SftpTomlConfig, VsCodeSftpConfig};

fn toml_cfg(host: &str) -> AstraTomlConfig {
    AstraTomlConfig {
        sftp: SftpTomlConfig {
            host: host.to_string(),
            port: None,
            username: "alice".to_string(),
            password: Some("pw".to_string()),
            private_key_path: None,
            remote_path: "~/proj".to_string(),
            local_path: None,
        },
        sync: None,
        language: None,
    }
}

fn legacy_cfg(host: &str) -> SftpConfig {
    SftpConfig {
        host: host.to_string(),
        port: 2222,
        username: "root".to_string(),
        password: Some("pw".to_string()),
        private_key_path: None,
        remote_path: "~".to_string(),
        local_path: "~/work".to_string(),
        language: None,
    }
}

fn vscode_cfg(host: &str, protocol: &str) -> VsCodeSftpConfig {
    VsCodeSftpConfig {
        name: "proj".to_string(),
        host: host.to_string(),
        protocol: protocol.to_string(),
        port: 22,
        secure: None,
        username: "bob".to_string(),
        remote_path: "~/www".to_string(),
        password: Some("pw".to_string()),
        private_key_path: None,
        upload_on_save: None,
    }
}

#[test]
fn test_config_cascade_prefers_toml() {
    // both the native TOML config and the legacy JSON config exist
    let r = resolve_config_cascade(
        Some(toml_cfg("toml-host")),
        None,
        Some(legacy_cfg("legacy-host")),
        None,
        "/cwd",
        Language::English,
    )
    .unwrap();
    assert_eq!(r.host, "toml-host");
}

#[test]
fn test_config_cascade_vscode_before_legacy() {
    let r = resolve_config_cascade(
        None,
        Some(vscode_cfg("vs-host", "sftp")),
        Some(legacy_cfg("legacy-host")),
        None,
        "/cwd",
        Language::English,
    )
    .unwrap();
    assert_eq!(r.host, "vs-host");
}

#[test]
fn test_config_cascade_bad_protocol_falls_through() {
    let r = resolve_config_cascade(
        None,
        Some(vscode_cfg("vs-host", "webdav")),
        Some(legacy_cfg("legacy-host")),
        None,
        "/cwd",
        Language::English,
    )
    .unwrap();
    assert_eq!(r.host, "legacy-host");
}

#[test]
fn test_config_cascade_nothing_found() {
    let e = resolve_config_cascade(None, None, None, None, "/cwd", Language::English)
        .unwrap_err();
    assert_eq!(e.message(), "Configuration error: No valid configuration file found");
}

#[test]
fn test_finalize_toml_defaults_and_expansion() {
    let r = finalize_toml_config(toml_cfg("h"), None, "/cwd");
    assert_eq!(r.port, 22);
    assert_eq!(r.local_path, "/cwd");
    assert_eq!(r.remote_path, "/home/alice/proj");
    assert_eq!(r.username, "alice");
}

#[test]
fn test_finalize_legacy_expansion_and_language() {
    let home = String::from("/home/me");
    let r = finalize_legacy_config(legacy_cfg("h"), Some(&home), "/cwd", Language::German);
    assert_eq!(r.remote_path, "/root");
    assert_eq!(r.local_path, "/home/me/work");
    assert_eq!(r.language, Some(Language::German));
    assert_eq!(r.port, 2222);
}

#[test]
fn test_finalize_vscode_protocol_check() {
    let ok = finalize_vscode_config(vscode_cfg("h", "ftp"), None, "/cwd").unwrap();
    assert_eq!(ok.remote_path, "/home/bob/www");
    assert_eq!(ok.local_path, "/cwd");
    assert_eq!(ok.language, None);

    let err = finalize_vscode_config(vscode_cfg("h", "http"), None, "/cwd").unwrap_err();
    assert_eq!(
        err.message(),
        "Configuration error: Unsupported protocol in VSCode SFTP config"
    );
}

#[test]
fn test_resolve_explicit_json() {
    let r = resolve_explicit_json(
        Some(vscode_cfg("vs-host", "sftp")),
        Some(legacy_cfg("legacy-host")),
        None,
        "/cwd",
        Language::English,
    )
    .unwrap();
    assert_eq!(r.host, "vs-host");

    let r = resolve_explicit_json(
        Some(vscode_cfg("vs-host", "http")),
        Some(legacy_cfg("legacy-host")),
        None,
        "/cwd",
        Language::English,
    )
    .unwrap();
    assert_eq!(r.host, "legacy-host");

    assert!(resolve_explicit_json(None, None, None, "/cwd", Language::English).is_err());
}

#[test]
fn test_config_path_kind() {
    assert_eq!(ConfigReader::config_path_kind("a/settings.toml"), ConfigPathKind::TomlFile);
    assert_eq!(ConfigReader::config_path_kind("a/astra.json"), ConfigPathKind::JsonFile);
    assert_eq!(ConfigReader::config_path_kind("/some/dir"), ConfigPathKind::Directory);
}

#[test]
fn test_parent_dir() {
    assert_eq!(parent_dir("/a/b/c"), Some("/a/b".to_string()));
    assert_eq!(parent_dir("/a"), Some("/".to_string()));
    assert_eq!(parent_dir("/"), None);
    assert_eq!(parent_dir("plain"), None);
}

#[test]
fn test_find_project_root() {
    let reader = ConfigReader::new("/a/b/c".to_string());
    let marked = vec!["/a".to_string()];
    assert_eq!(reader.find_project_root(&marked), Some("/a".to_string()));

    let marked_self = vec!["/a/b/c".to_string()];
    assert_eq!(reader.find_project_root(&marked_self), Some("/a/b/c".to_string()));

    let nothing: Vec<String> = Vec::new();
    assert_eq!(reader.find_project_root(&nothing), None);
}

#[test]
fn test_marker_entries() {
    let m = ConfigReader::marker_entries();
    assert_eq!(m, vec![
        ".astra-settings".to_string(),
        ".vscode".to_string(),
        "astra.json".to_string(),
    ]);
}

#[test]
fn test_default_config() {
    let c = default_config("/cwd".to_string(), Language::French);
    assert_eq!(c.host, "example.com");
    assert_eq!(c.port, 22);
    assert_eq!(c.username, "user");
    assert_eq!(c.password, None);
    assert_eq!(c.private_key_path, None);
    assert_eq!(c.remote_path, "/remote/path");
    assert_eq!(c.local_path, "/cwd");
    assert_eq!(c.language, Some(Language::French));
}

#[test]
fn test_credential_selection() {
    let mut c = legacy_cfg("h");
    c.private_key_path = Some("/k.pem".to_string());
    match c.credential().unwrap() {
        Credential::PrivateKeyPath(p) => assert_eq!(p, "/k.pem"),
        _ => panic!("expected the private key to win"),
    }
    c.private_key_path = None;
    match c.credential().unwrap() {
        Credential::Password(p) => assert_eq!(p, "pw"),
        _ => panic!("expected the password"),
    }
    c.password = None;
    let e = c.credential().unwrap_err();
    assert_eq!(
        e.message(),
        "Authentication error: Either password or private key must be provided"
    );
}
