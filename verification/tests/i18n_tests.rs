use astra_core::error::AstraError;
use astra_core::types::{OperationType, SyncOperation};
use astra_core::i18n::{
    detect_language, format_args, get_supported_languages, get_system_language, t, t_default,
    t_format, Language, TranslationStore,
};

#[test]
fn test_language_from_str() {
    assert_eq!(Language::from_str("en"), Some(Language::English));
    assert_eq!(Language::from_str("EN"), Some(Language::English));
    assert_eq!(Language::from_str("English"), Some(Language::English));
    assert_eq!(Language::from_str("zh"), Some(Language::Chinese));
    assert_eq!(Language::from_str("cn"), Some(Language::Chinese));
    assert_eq!(Language::from_str("ja"), Some(Language::Japanese));
    assert_eq!(Language::from_str("ko"), Some(Language::Korean));
    assert_eq!(Language::from_str("es"), Some(Language::Spanish));
    assert_eq!(Language::from_str("fr"), Some(Language::French));
    assert_eq!(Language::from_str("de"), Some(Language::German));
    assert_eq!(Language::from_str("ru"), Some(Language::Russian));
    assert_eq!(Language::from_str("tlh"), None);
}

#[test]
fn test_language_names() {
    assert_eq!(Language::Chinese.name(), "Chinese");
    assert_eq!(Language::Chinese.native_name(), "中文");
    assert_eq!(Language::German.native_name(), "Deutsch");
    assert_eq!(Language::English.name(), "English");
}

#[test]
fn test_supported_and_system_language() {
    let langs = get_supported_languages();
    assert_eq!(langs.len(), 8);
    assert_eq!(langs[0], Language::English);
    assert_eq!(get_system_language(), Language::English);
    assert_eq!(Language::default(), Language::English);
}

#[test]
fn test_store_lookup_and_fallback() {
    let store = TranslationStore::new();
    assert_eq!(
        store.get_translation("common.success", &Language::English),
        Some(&"Success".to_string())
    );
    assert_eq!(
        store.get_translation("common.success", &Language::Chinese),
        Some(&"成功".to_string())
    );
    assert_eq!(store.get_translation("no.such.key", &Language::English), None);

    // a missing key falls back to the key itself
    assert_eq!(
        store.get_translation_or_fallback("no.such.key", &Language::English),
        "no.such.key"
    );
    assert_eq!(t(&store, "common.error", &Language::Russian), "Ошибка");
    assert_eq!(t_default(&store, "common.error"), "Error");
}

#[test]
fn test_add_custom_translation_overrides() {
    let mut store = TranslationStore::new();
    store.add_custom_translation("common.success", Language::English, "Done!".to_string());
    assert_eq!(
        store.get_translation("common.success", &Language::English),
        Some(&"Done!".to_string())
    );
    // other languages of the same key stay untouched
    assert_eq!(
        store.get_translation("common.success", &Language::French),
        Some(&"Succès".to_string())
    );
    store.add_custom_translation("my.key", Language::Korean, "메시지".to_string());
    assert_eq!(store.get_translation("my.key", &Language::Korean), Some(&"메시지".to_string()));
}

#[test]
fn test_t_format_substitution() {
    let store = TranslationStore::new();
    let msg = t_format(
        &store,
        "cli.upload_operation",
        &Language::English,
        &vec!["a.txt".to_string(), "/r/a.txt".to_string()],
    );
    assert_eq!(msg, "Uploading: a.txt -> /r/a.txt");

    let msg = t_format(&store, "cli.sync_failed", &Language::English, &vec!["3".to_string()]);
    assert_eq!(msg, "Sync failed with 3 errors");
}

#[test]
fn test_format_args_edge_cases() {
    assert_eq!(format_args("{0}{1}", &vec!["a".to_string(), "b".to_string()]), "ab");
    // a marker without an argument stays as written
    assert_eq!(format_args("{2}", &vec!["a".to_string()]), "{2}");
    assert_eq!(format_args("no markers", &vec!["a".to_string()]), "no markers");
    assert_eq!(format_args("", &Vec::new()), "");
}

#[test]
fn test_detect_language() {
    let zh = String::from("zh_CN.UTF-8");
    let fr = String::from("fr");
    let junk = String::from("xx_YY");
    assert_eq!(detect_language(Some(&fr), Some(&zh)), Language::French);
    assert_eq!(detect_language(None, Some(&zh)), Language::Chinese);
    assert_eq!(detect_language(Some(&junk), Some(&zh)), Language::Chinese);
    assert_eq!(detect_language(None, Some(&junk)), Language::English);
    assert_eq!(detect_language(None, None), Language::English);
}

#[test]
fn test_error_messages() {
    let e = AstraError::ConfigurationError("bad".to_string());
    assert_eq!(e.message(), "Configuration error: bad");
    let e = AstraError::SftpConnectionError("refused".to_string());
    assert_eq!(e.message(), "SFTP connection error: refused");
    let e = AstraError::IoError("gone".to_string());
    assert_eq!(e.message(), "IO error: gone");
}

#[test]
fn test_sync_operation_creation() {
    let operation = SyncOperation {
        operation_type: OperationType::Upload,
        local_path: "/local/file.txt".to_string(),
        remote_path: "/remote/file.txt".to_string(),
        timestamp: 0,
    };

    matches!(operation.operation_type, OperationType::Upload);
    assert_eq!(operation.local_path, "/local/file.txt".to_string());
    assert_eq!(operation.remote_path, "/remote/file.txt".to_string());
}
