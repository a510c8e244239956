use walrust::WalrustError;

#[test]
fn test_walrust_error_display_git_error() {
    let git_error = git2::Error::from_str("Git operation failed");
    let error = WalrustError::GitError(git_error);
    assert_eq!(error.to_string(), "Git error: Git operation failed");
}

#[test]
fn test_walrust_error_display_io_error() {
    let io_error = std::io::Error::new(std::io::ErrorKind::Other, "IO operation failed");
    let error = WalrustError::IoError(io_error);
    assert_eq!(error.to_string(), "IO error: IO operation failed");
}

#[test]
fn test_walrust_error_display_path_error() {
    let path = "/invalid/path".to_string();
    let error = WalrustError::PathError(path.clone());
    assert_eq!(error.to_string(), format!("Invalid path: {}", path));
}

#[test]
fn test_walrust_error_from_git_error() {
    let git_error = git2::Error::from_str("Git operation failed");
    let error: WalrustError = git_error.into();
    match error {
        WalrustError::GitError(_) => assert!(true),
        _ => assert!(false, "Expected WalrustError::GitError"),
    }
}

#[test]
fn test_walrust_error_from_io_error() {
    let io_error = std::io::Error::new(std::io::ErrorKind::Other, "IO operation failed");
    let error: WalrustError = io_error.into();
    match error {
        WalrustError::IoError(_) => assert!(true),
        _ => assert!(false, "Expected WalrustError::IoError"),
    }
}

#[test]
fn hash_error_names_the_hash() {
    let error = WalrustError::HashError("abc".to_string());
    assert_eq!(error.to_string(), "Invalid hash: abc");
}
