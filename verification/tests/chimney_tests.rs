use blank::chimney_config::{
    check_site_layout, configuration_source, hash, import_record, require_domains,
    upstream_changed, ConfigOrigin,
};
use blank::chimney_runtime::{
    failed_status, initial_status, missing_page_directory, missing_page_path, page_needs_write,
    path_join_str, release_is_contained, served_site, RuntimeState,
};
use blank::error::ApiError;
use blank::paths::{path_within_str, split_name_str};

#[test]
fn detects_content_hash_changes() {
    assert_ne!(hash(b"root='.'"), hash(b"root='dist'"));
}

#[test]
fn content_hashes_are_lowercase_sha256_hex() {
    assert_eq!(
        hash(b"secret"),
        "2bb80d537b1da3e38bd30361aa855686bde0eacd7162fef6a25fe97bf527a25b"
    );
    assert_eq!(hash(b"").len(), 64);
}

#[test]
fn site_layouts_stay_inside_the_release() {
    let domains = vec!["docs.example.com".to_string()];
    assert_eq!(check_site_layout(".", &domains), Ok(()));
    assert_eq!(check_site_layout("dist/site", &domains), Ok(()));
    let escaping = Err(ApiError::BadRequest(
        "Chimney root must be a relative path without '..'".into(),
    ));
    assert_eq!(check_site_layout("../secret", &domains), escaping);
    assert_eq!(check_site_layout("/srv", &domains), escaping);
    assert_eq!(check_site_layout("", &domains), escaping);
    assert_eq!(
        check_site_layout(".", &vec![]),
        Err(ApiError::BadRequest("at least one domain is required".into()))
    );
    assert_eq!(
        require_domains(&vec![]),
        Err(ApiError::BadRequest(
            "add at least one domain before configuring Chimney".into()
        ))
    );
    assert_eq!(require_domains(&domains), Ok(()));
}

#[test]
fn configuration_edits_and_imports() {
    assert_eq!(configuration_source(true, false), Ok(true));
    assert_eq!(configuration_source(false, true), Ok(false));
    assert_eq!(
        configuration_source(true, true),
        Err(ApiError::BadRequest("provide exactly one of toml or config".into()))
    );
    assert!(configuration_source(false, false).is_err());
    assert!(upstream_changed(&Some("a".into()), &Some("b".into())));
    assert!(!upstream_changed(&Some("a".into()), &Some("a".into())));
    assert!(!upstream_changed(&None, &Some("b".into())));
    assert!(!upstream_changed(&Some("a".into()), &None));
    let (origin, fingerprint, commit) = import_record(Some("f".into()), "c1");
    assert_eq!(origin, ConfigOrigin::Repository);
    assert_eq!(origin.as_str(), "repository");
    assert_eq!(fingerprint.as_deref(), Some("f"));
    assert_eq!(commit.as_deref(), Some("c1"));
    let (origin, fingerprint, commit) = import_record(None, "c1");
    assert_eq!(origin.as_str(), "generated");
    assert_eq!((fingerprint, commit), (None, None));
    assert_eq!(ConfigOrigin::Dashboard.as_str(), "dashboard");
}

#[test]
fn runtime_status_reports() {
    let (status, tls) = initial_status(3, 0, "127.0.0.1:8081".into(), Some(443));
    assert!(!tls);
    assert_eq!(status.https_port, None);
    assert_eq!(status.state, RuntimeState::Starting);
    assert_eq!(status.state.as_str(), "starting");
    let (status, tls) = initial_status(2, 1, "127.0.0.1:8081".into(), Some(443));
    assert!(tls);
    assert_eq!(status.https_port, Some(443));
    assert_eq!(status.active_sites, 2);
    let failed = failed_status(status, "bind failed".into());
    assert_eq!(failed.state.as_str(), "failed");
    assert_eq!(failed.error.as_deref(), Some("bind failed"));
    assert_eq!(RuntimeState::Running.as_str(), "running");
}

#[test]
fn sites_serve_their_release_or_the_missing_page() {
    let site = served_site("dist", Some("index.html".into()), Some("200.html".into()), true);
    assert_eq!(site.root, "current/dist");
    assert_eq!(site.default_index_file.as_deref(), Some("index.html"));
    assert_eq!(site.fallback_file.as_deref(), Some("current/dist/200.html"));
    let missing = served_site("dist", None, None, false);
    assert_eq!(missing.root, ".blank/missing-deployment");
    assert_eq!(missing.default_index_file.as_deref(), Some("index.html"));
    assert_eq!(
        missing.fallback_file.as_deref(),
        Some(".blank/missing-deployment/index.html")
    );
    assert_eq!(missing_page_directory(), ".blank/missing-deployment");
}

#[test]
fn writes_the_branded_missing_deployment_page_where_expected() {
    let (directory, page) = missing_page_path("/data", "site-1");
    assert_eq!(directory, "/data/sites/site-1/.blank/missing-deployment");
    assert_eq!(page, "/data/sites/site-1/.blank/missing-deployment/index.html");
    assert!(page_needs_write(None, "<html>"));
    assert!(page_needs_write(Some("old"), "<html>"));
    assert!(!page_needs_write(Some("<html>"), "<html>"));
}

#[test]
fn current_release_must_stay_in_the_release_directory() {
    assert!(release_is_contained(
        "/data/sites/site-1/releases/good",
        "/data/sites/site-1/releases"
    ));
    assert!(!release_is_contained(
        "/data/sites/site-1/outside",
        "/data/sites/site-1/releases"
    ));
    assert!(!release_is_contained(
        "/data/sites/site-1/releases-evil",
        "/data/sites/site-1/releases"
    ));
}

#[test]
fn path_helpers() {
    assert_eq!(path_join_str("/srv", "a"), "/srv/a");
    assert_eq!(path_join_str("/srv/", "a"), "/srv/a");
    assert_eq!(path_join_str("/srv", "/etc"), "/etc");
    assert!(path_within_str("/a/b", "/a"));
    assert!(path_within_str("/a", "/a"));
    assert!(!path_within_str("/ab", "/a"));
    assert_eq!(
        split_name_str("/data/releases/d-1"),
        Some(("/data/releases".to_string(), "d-1".to_string()))
    );
    assert_eq!(
        split_name_str("/d-1"),
        Some(("/".to_string(), "d-1".to_string()))
    );
    assert_eq!(split_name_str("/data/"), None);
}
