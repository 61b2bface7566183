use project_finder::config::Config;
use project_finder::dependencies::Dependencies;
use project_finder::errors::ProjectFinderError;

#[test]
fn error_messages() {
    assert_eq!(
        ProjectFinderError::DependencyNotFound("fd".to_string()).message(),
        "Dependency not found: fd. Please install it and try again."
    );
    assert_eq!(
        ProjectFinderError::CommandExecutionFailed("boom".to_string()).message(),
        "Failed to execute command: boom"
    );
    assert_eq!(
        ProjectFinderError::PathNotFound("/no/such".to_string()).message(),
        "Path not found: /no/such"
    );
    assert_eq!(ProjectFinderError::IoError("broken pipe".to_string()).message(), "IO error: broken pipe");
    assert_eq!(
        ProjectFinderError::Utf8Error("invalid utf-8 sequence".to_string()).message(),
        "Invalid UTF-8: invalid utf-8 sequence"
    );
}

#[test]
fn error_message_with_empty_text() {
    assert_eq!(ProjectFinderError::PathNotFound(String::new()).message(), "Path not found: ");
}

#[test]
fn config_default_values() {
    let config = Config::default();
    assert_eq!(config.paths, vec![".".to_string()]);
    assert_eq!(config.depth, 5);
    assert!(!config.verbose);
    assert_eq!(config.max_results, 0);
}

#[test]
fn dependencies_new_keeps_path() {
    let deps = Dependencies::new("/usr/bin/fd".to_string());
    assert_eq!(deps.fd_path, "/usr/bin/fd");
}

#[test]
fn dependencies_prefer_fd() {
    let deps = Dependencies::from_lookup(
        Some("/usr/bin/fd".to_string()),
        Some("/usr/bin/fdfind".to_string()),
    )
    .unwrap();
    assert_eq!(deps.fd_path, "/usr/bin/fd");
}

#[test]
fn dependencies_fall_back_to_fdfind() {
    let deps = Dependencies::from_lookup(None, Some("/usr/bin/fdfind".to_string())).unwrap();
    assert_eq!(deps.fd_path, "/usr/bin/fdfind");
}

#[test]
fn dependencies_missing() {
    let error = Dependencies::from_lookup(None, None).unwrap_err();
    assert_eq!(
        error,
        ProjectFinderError::DependencyNotFound(
            "Neither 'fd' nor 'fdfind' was found. Please install fd from https://github.com/sharkdp/fd"
                .to_string()
        )
    );
    assert_eq!(
        error.message(),
        "Dependency not found: Neither 'fd' nor 'fdfind' was found. Please install fd from https://github.com/sharkdp/fd. Please install it and try again."
    );
}

#[test]
fn dependencies_check_finds_a_binary_or_reports_it_missing() {
    match Dependencies::check() {
        Ok(deps) => assert!(!deps.fd_path.is_empty()),
        Err(error) => assert!(matches!(error, ProjectFinderError::DependencyNotFound(_))),
    }
}
