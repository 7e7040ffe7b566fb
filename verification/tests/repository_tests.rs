use ajour_core::config::Flavor;
use ajour_core::error::Error;
use ajour_core::error::ErrorKind;
use ajour_core::error::log_error;
use ajour_core::repository::GitKind;
use ajour_core::repository::RepositoryKind;
use ajour_core::repository::RepositoryPackage;

#[test]
fn from_repo_id_validates_identifier() {
    let package =
        RepositoryPackage::from_repo_id(Flavor::Retail, RepositoryKind::WowI, "123".to_string())
            .unwrap();
    assert_eq!(package.kind, RepositoryKind::WowI);
    assert_eq!(package.remote_id, "123");
    assert!(package.releases.is_empty());
    assert_eq!(package.installed_file_id, None);

    let err =
        RepositoryPackage::from_repo_id(Flavor::Retail, RepositoryKind::WowI, String::new())
            .unwrap_err();
    assert_eq!(err.kind, ErrorKind::Repository);
}

#[test]
fn from_source_url_recognizes_git_hosts() {
    let package = RepositoryPackage::from_source_url(
        Flavor::Retail,
        "https://github.com/author/addon".to_string(),
    )
    .unwrap();
    assert_eq!(package.kind, RepositoryKind::Git(GitKind::Github));
    assert_eq!(package.remote_id, "https://github.com/author/addon");

    let package = RepositoryPackage::from_source_url(
        Flavor::Retail,
        "http://gitlab.com/author/addon".to_string(),
    )
    .unwrap();
    assert_eq!(package.kind, RepositoryKind::Git(GitKind::Gitlab));
}

#[test]
fn from_source_url_rejects_everything_else() {
    let cases = [
        "https://example.com/author/addon",
        "ftp://github.com/author/addon",
        "github.com/author/addon",
        "not a url",
        "",
    ];
    for url in cases {
        let err =
            RepositoryPackage::from_source_url(Flavor::Retail, url.to_string()).unwrap_err();
        assert_eq!(err.kind, ErrorKind::Repository);
    }
}

#[test]
fn log_error_lists_message_and_causes() {
    let mut error = Error::new(ErrorKind::Download, "download failed".to_string());
    error.causes.push("connection reset".to_string());
    error.causes.push("socket closed".to_string());

    let lines = log_error(&error);
    assert_eq!(
        lines,
        vec![
            "download failed".to_string(),
            "caused by: connection reset".to_string(),
            "caused by: socket closed".to_string(),
        ]
    );

    let plain = Error::new(ErrorKind::Filesystem, "permission denied".to_string());
    assert_eq!(log_error(&plain), vec!["permission denied".to_string()]);
}
