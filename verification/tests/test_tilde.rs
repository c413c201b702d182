use astra_core::config::ConfigReader;

#[test]
fn test_expand_tilde_remote() {
    // Test root user
    assert_eq!(
        ConfigReader::expand_tilde_remote("~/test", "root"),
        "/root/test"
    );
    assert_eq!(ConfigReader::expand_tilde_remote("~", "root"), "/root");

    // Test regular user
    assert_eq!(
        ConfigReader::expand_tilde_remote("~/test", "testuser"),
        "/home/testuser/test"
    );
    assert_eq!(
        ConfigReader::expand_tilde_remote("~", "testuser"),
        "/home/testuser"
    );

    // Test absolute path (no change)
    assert_eq!(
        ConfigReader::expand_tilde_remote("/absolute/path", "testuser"),
        "/absolute/path"
    );

    // Test path with tilde in the middle (no change)
    assert_eq!(
        ConfigReader::expand_tilde_remote("/path/~test", "testuser"),
        "/path/~test"
    );
}

#[test]
fn test_expand_tilde_local_home_and_fallback() {
    let home = String::from("/home/someone");
    assert_eq!(
        ConfigReader::expand_tilde_local("~/k.pem", Some(&home), "/cwd"),
        "/home/someone/k.pem"
    );
    assert_eq!(ConfigReader::expand_tilde_local("~", Some(&home), "/cwd"), "/home/someone");
    assert_eq!(ConfigReader::expand_tilde_local("~/k.pem", None, "/cwd"), "/cwd/k.pem");
    assert_eq!(ConfigReader::expand_tilde_local("/abs/k.pem", Some(&home), "/cwd"), "/abs/k.pem");
}
