use blank::error::ApiError;
use blank::github::{
    app_jwt,
    connect_html, escape_attribute, github_target, install_url, installation_covers, manifest,
    manifest_value, return_location, safe_return_path, sort_repositories, token_times, Repository,
};
use blank::webhooks::{authenticate_delivery, push_site_target, repository_pattern, PushEvent};
use hmac::{Hmac, Mac};
use serde_json::Value;
use sha2::Sha256;

fn object(entries: Vec<(&str, Value)>) -> Value {
    let mut map = serde_json::Map::new();
    for (key, value) in entries {
        map.insert(key.to_string(), value);
    }
    Value::Object(map)
}

#[test]
fn manifest_matches_github_registration_schema() {
    let value: Value = serde_json::from_str(&manifest_value("https://blank.example.com")).unwrap();

    let expected = object(vec![
        ("name", Value::String("Blank Deploy".into())),
        ("url", Value::String("https://blank.example.com".into())),
        (
            "redirect_url",
            Value::String("https://blank.example.com/api/github/manifest/callback".into()),
        ),
        (
            "hook_attributes",
            object(vec![
                (
                    "url",
                    Value::String("https://blank.example.com/api/webhooks/github".into()),
                ),
                ("active", Value::Bool(true)),
            ]),
        ),
        ("public", Value::Bool(false)),
        (
            "default_permissions",
            object(vec![("contents", Value::String("read".into()))]),
        ),
        (
            "default_events",
            Value::Array(vec![Value::String("push".into())]),
        ),
    ]);
    assert_eq!(value, expected);
}

#[test]
fn github_return_paths_stay_inside_the_admin_app() {
    assert_eq!(safe_return_path(Some("/dashboard")), "/dashboard");
    assert_eq!(
        safe_return_path(Some("/sites/site-id/settings")),
        "/sites/site-id/settings"
    );
    assert_eq!(safe_return_path(Some("//example.com")), "/dashboard");
    assert_eq!(safe_return_path(Some("https://example.com")), "/dashboard");
}

#[test]
fn return_paths_refuse_tricks() {
    assert_eq!(safe_return_path(None), "/dashboard");
    assert_eq!(safe_return_path(Some("/sites/a\\b")), "/dashboard");
    assert_eq!(safe_return_path(Some("/sites/a\nb")), "/dashboard");
    assert_eq!(safe_return_path(Some("/dashboard/x")), "/dashboard");
}

#[test]
fn manifest_needs_a_public_url() {
    assert_eq!(
        manifest(None),
        Err(ApiError::Conflict(
            "BLANK_PUBLIC_URL must be configured before connecting GitHub".into()
        ))
    );
    let (action, body) = manifest(Some("https://b.example")).unwrap();
    assert_eq!(action, "https://github.com/settings/apps/new");
    assert_eq!(body, manifest_value("https://b.example"));
    let quoted = manifest_value("https://b.example/\"x");
    assert!(quoted.contains("\"url\":\"https://b.example/\\\"x\""));
}

#[test]
fn connect_page_carries_state_and_escaped_manifest() {
    assert_eq!(escape_attribute("a&b<c\"d>"), "a&amp;b&lt;c&quot;d>");
    let page = connect_html("https://github.com/settings/apps/new", "{\"a\":1}", "/dashboard");
    assert!(page.contains("action=\"https://github.com/settings/apps/new?state=L2Rhc2hib2FyZA\""));
    assert!(page.contains("value=\"{&quot;a&quot;:1}\""));
}

#[test]
fn callback_state_decodes_to_a_safe_path() {
    assert_eq!(return_location(Some("L3NpdGVzL3g")), "/sites/x");
    assert_eq!(return_location(Some("Ly9ldmls")), "/dashboard");
    assert_eq!(return_location(Some("!!!")), "/dashboard");
    assert_eq!(return_location(None), "/dashboard");
}

#[test]
fn installation_helpers() {
    assert_eq!(
        install_url("blank-deploy"),
        "https://github.com/apps/blank-deploy/installations/new"
    );
    assert_eq!(token_times(1000), (940, 1540));
    assert_eq!(
        github_target("https://github.com/Owner/Repo.git").as_deref(),
        Some("Owner/Repo")
    );
    assert_eq!(
        github_target("git@github.com:owner/repo.git").as_deref(),
        Some("owner/repo")
    );
    assert_eq!(github_target("https://gitlab.com/owner/repo.git"), None);
    let repository = |name: &str| Repository {
        id: 1,
        full_name: name.into(),
        clone_url: String::new(),
        private: false,
        default_branch: "main".into(),
    };
    let repositories = vec![repository("zeta/site"), repository("Owner/Repo")];
    assert!(installation_covers(&repositories, "owner/repo"));
    assert!(!installation_covers(&repositories, "owner/other"));
    let sorted = sort_repositories(repositories);
    assert_eq!(sorted[0].full_name, "Owner/Repo");
    assert_eq!(sorted[1].full_name, "zeta/site");
}

fn signature(secret: &str, body: &[u8]) -> String {
    let mut mac = Hmac::<Sha256>::new_from_slice(secret.as_bytes()).unwrap();
    mac.update(body);
    format!("sha256={}", hex::encode(mac.finalize().into_bytes()))
}

#[test]
fn webhook_deliveries_are_authenticated() {
    let body = b"{\"ref\":\"refs/heads/main\"}";
    let good = signature("s3cret", body);
    assert_eq!(
        authenticate_delivery(Some("push"), Some("s3cret"), Some(&good), body),
        Ok(true)
    );
    assert_eq!(
        authenticate_delivery(Some("ping"), Some("s3cret"), Some(&good), body),
        Ok(false)
    );
    assert_eq!(
        authenticate_delivery(Some("push"), None, Some(&good), body),
        Err(ApiError::NotFound("webhooks are not configured".into()))
    );
    let wrong = signature("other", body);
    assert_eq!(
        authenticate_delivery(Some("push"), Some("s3cret"), Some(&wrong), body),
        Err(ApiError::Forbidden)
    );
    assert_eq!(
        authenticate_delivery(Some("push"), Some("s3cret"), Some("sha256=zz"), body),
        Err(ApiError::Forbidden)
    );
    assert_eq!(
        authenticate_delivery(Some("push"), Some("s3cret"), None, body),
        Err(ApiError::Forbidden)
    );
}

#[test]
fn pushes_name_a_repository_and_branch() {
    let event = PushEvent {
        reference: Some("refs/heads/main".into()),
        clone_url: Some("https://github.com/o/r.git".into()),
        html_url: Some("https://github.com/o/r".into()),
    };
    assert_eq!(
        push_site_target(&event).unwrap(),
        ("https://github.com/o/r".to_string(), "main".to_string())
    );
    let tag = PushEvent {
        reference: Some("refs/tags/".into()),
        clone_url: None,
        html_url: None,
    };
    assert_eq!(
        push_site_target(&tag),
        Err(ApiError::BadRequest("webhook branch is missing".into()))
    );
    assert_eq!(repository_pattern("https://github.com/o/r"), "https://github.com/o/r%");
}

#[test]
fn app_tokens_need_a_usable_private_key() {
    assert_eq!(app_jwt(123, 1000, "not a key"), None);
    assert_eq!(app_jwt(123, 1000, ""), None);
    assert_eq!(
        app_jwt(
            123,
            1000,
            "-----BEGIN CERTIFICATE-----\nAAAA\n-----END CERTIFICATE-----\n"
        ),
        None
    );
}
