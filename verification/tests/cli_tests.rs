use astra_core::cli::{Cli, Commands};

fn args(list: &[&str]) -> Vec<String> {
    list.iter().map(|s| s.to_string()).collect()
}

#[test]
fn test_cli_command_parsing() {
    let cli = Cli::try_parse_from(&args(&["astra", "init", "--config", "test.json"])).unwrap();

    match cli.command {
        Commands::Init { config } => {
            assert_eq!(config, "test.json");
        }
        _ => panic!("Expected Init command"),
    }
}

#[test]
fn test_sync_command_parsing() {
    let cli =
        Cli::try_parse_from(&args(&["astra", "sync", "--config", "test.json", "--mode", "upload"]))
            .unwrap();

    match cli.command {
        Commands::Sync {
            config,
            mode,
            files,
        } => {
            assert_eq!(config, Some("test.json".to_string()));
            assert_eq!(mode, "upload");
            assert_eq!(files, Vec::<String>::new());
        }
        _ => panic!("Expected Sync command"),
    }
}

#[test]
fn test_status_command_parsing() {
    let cli = Cli::try_parse_from(&args(&["astra", "status", "--config", "test.json"])).unwrap();

    match cli.command {
        Commands::Status { config } => {
            assert_eq!(config, Some("test.json".to_string()));
        }
        _ => panic!("Expected Status command"),
    }
}

#[test]
fn test_init_default_config_name() {
    let cli = Cli::try_parse_from(&args(&["astra", "init"])).unwrap();
    match cli.command {
        Commands::Init { config } => assert_eq!(config, "astra.json"),
        _ => panic!("Expected Init command"),
    }
}

#[test]
fn test_sync_trailing_files() {
    let cli = Cli::try_parse_from(&args(&["astra", "sync", "a.txt", "b.txt"])).unwrap();
    match cli.command {
        Commands::Sync { config, mode, files } => {
            assert_eq!(config, None);
            assert_eq!(mode, "upload");
            assert_eq!(files, vec!["a.txt".to_string(), "b.txt".to_string()]);
        }
        _ => panic!("Expected Sync command"),
    }
}

#[test]
fn test_upload_command_parsing() {
    let cli = Cli::try_parse_from(&args(&[
        "astra", "upload", "--local", "/l/a.txt", "--remote", "/r/a.txt",
    ]))
    .unwrap();
    match cli.command {
        Commands::Upload { config, local, remote } => {
            assert_eq!(config, None);
            assert_eq!(local, "/l/a.txt");
            assert_eq!(remote, "/r/a.txt");
        }
        _ => panic!("Expected Upload command"),
    }
}

#[test]
fn test_download_command_parsing() {
    let cli = Cli::try_parse_from(&args(&[
        "astra", "download", "-r", "/r/a.txt", "-l", "/l/a.txt",
    ]))
    .unwrap();
    match cli.command {
        Commands::Download { config, remote, local } => {
            assert_eq!(config, None);
            assert_eq!(remote, "/r/a.txt");
            assert_eq!(local, "/l/a.txt");
        }
        _ => panic!("Expected Download command"),
    }
}

#[test]
fn test_upload_missing_path_rejected() {
    assert!(Cli::try_parse_from(&args(&["astra", "upload", "--local", "/l/a.txt"])).is_none());
}

#[test]
fn test_unknown_command_rejected() {
    assert!(Cli::try_parse_from(&args(&["astra", "frobnicate"])).is_none());
    assert!(Cli::try_parse_from(&args(&["astra"])).is_none());
}

#[test]
fn test_version_and_check_update_parsing() {
    let cli = Cli::try_parse_from(&args(&["astra", "version"])).unwrap();
    assert!(matches!(cli.command, Commands::Version));
    let cli = Cli::try_parse_from(&args(&["astra", "check-update"])).unwrap();
    assert!(matches!(cli.command, Commands::CheckUpdate));
    assert!(Cli::try_parse_from(&args(&["astra", "version", "extra"])).is_none());
}
