use blank::dns::{
    concise_error, matches_expected, normalize_domain_input, valid_domain, validate_check_count,
    IpAddress,
};
use blank::error::ApiError;
use blank::sites::{
    clean_optional, default_branch, default_project_directory, default_publish_directory,
    default_true, normalized_domains, normalized_mise_tools, validate, SiteInput,
};

fn input(project: &str, publish: &str) -> SiteInput {
    SiteInput {
        name: "Docs".into(),
        repository_url: "https://example.com/docs.git".into(),
        branch: "main".into(),
        project_directory: project.into(),
        mise_tools: String::new(),
        detected_framework: None,
        install_command: None,
        build_command: None,
        publish_directory: publish.into(),
        build_enabled: true,
        auto_deploy: false,
        domains: vec![],
    }
}

#[test]
fn validates_host_names() {
    assert!(valid_domain("www.example.com"));
    assert!(!valid_domain("https://example.com"));
    assert!(!valid_domain("-bad.example.com"));
}

#[test]
fn rejects_project_traversal() {
    assert!(validate(&input("../api", "dist")).is_err());
}

#[test]
fn rejects_publish_traversal() {
    assert!(validate(&input(".", "../secret")).is_err());
}

#[test]
fn normalizes_and_deduplicates_domains() {
    let mut value = input(".", "dist");
    value.domains = vec!["Docs.Example.com.".into(), "docs.example.com".into()];
    assert_eq!(validate(&value).unwrap(), vec!["docs.example.com"]);
}

#[test]
fn rejects_malformed_site_fields() {
    let mut value = input(".", "dist");
    value.domains = vec!["bad_domain.example.com".into()];
    assert!(validate(&value).is_err());
    value.domains.clear();
    value.branch = "../main".into();
    assert!(validate(&value).is_err());
    value.branch = "main".into();
    value.name = "\n".into();
    assert!(validate(&value).is_err());
}

#[test]
fn site_errors_say_what_is_wrong() {
    let mut value = input(".", "dist");
    value.domains = vec!["bad_domain.example.com".into()];
    assert_eq!(
        validate(&value),
        Err(ApiError::BadRequest("invalid domain: bad_domain.example.com".into()))
    );
    let mut value = input("../api", "dist");
    value.domains.clear();
    assert_eq!(
        validate(&value),
        Err(ApiError::BadRequest(
            "project directory must be a relative path without '..'".into()
        ))
    );
    let mut value = input(".", "dist");
    value.mise_tools = "node@24 $(rm)".into();
    assert_eq!(
        validate(&value),
        Err(ApiError::BadRequest(
            "dependencies must contain at most 20 valid specifications".into()
        ))
    );
    let mut value = input(".", "dist");
    value.repository_url = "ext::sh".into();
    assert_eq!(
        validate(&value),
        Err(ApiError::BadRequest("invalid repository URL".into()))
    );
}

#[test]
fn domain_lists_are_limited_and_blank_entries_dropped() {
    let many: Vec<String> = (0..21).map(|i| format!("d{i}.example.com")).collect();
    assert_eq!(
        normalized_domains(&many),
        Err(ApiError::BadRequest("a site may have at most 20 domains".into()))
    );
    let list = vec![
        " ".to_string(),
        "A.example.com".to_string(),
        "b.example.com".to_string(),
        "a.example.com.".to_string(),
    ];
    assert_eq!(
        normalized_domains(&list).unwrap(),
        vec!["a.example.com", "b.example.com"]
    );
}

#[test]
fn tool_lists_become_one_per_line() {
    assert_eq!(
        normalized_mise_tools("node@24, pnpm@9\n").unwrap(),
        "node@24\npnpm@9"
    );
    assert_eq!(normalized_mise_tools("").unwrap(), "");
    assert!(normalized_mise_tools("--evil").is_err());
    assert!(normalized_mise_tools("a;b").is_err());
}

#[test]
fn site_defaults_and_cleaning() {
    assert_eq!(default_branch(), "main");
    assert_eq!(default_project_directory(), ".");
    assert_eq!(default_publish_directory(), "dist");
    assert!(default_true());
    assert_eq!(clean_optional(&Some("  x ".into())), Some("x".into()));
    assert_eq!(clean_optional(&Some("   ".into())), None);
    assert_eq!(clean_optional(&None), None);
}

#[test]
fn dns_helpers() {
    assert_eq!(normalize_domain_input("  Docs.Example.COM.. "), "docs.example.com");
    assert_eq!(
        concise_error("no record found for name"),
        "no public A or AAAA records found"
    );
    assert_eq!(concise_error("NXDOMAIN"), "no public A or AAAA records found");
    assert_eq!(concise_error("timed out"), "DNS lookup failed");
    assert_eq!(validate_check_count(1), Ok(()));
    assert_eq!(validate_check_count(20), Ok(()));
    assert_eq!(
        validate_check_count(0),
        Err(ApiError::BadRequest("check between 1 and 20 domains".into()))
    );
    assert!(validate_check_count(21).is_err());
    let a = IpAddress { v6: false, bits: 0xcb00_710a };
    let b = IpAddress { v6: false, bits: 0x0a00_0001 };
    assert_eq!(matches_expected(&vec![a], &vec![]), None);
    assert_eq!(matches_expected(&vec![a, b], &vec![b]), Some(true));
    assert_eq!(matches_expected(&vec![a], &vec![b]), Some(false));
    assert_eq!(matches_expected(&vec![], &vec![b]), Some(false));
}

#[test]
fn saved_domains_normalise_to_themselves() {
    let entered = vec![
        " Docs.Example.COM. ".to_string(),
        "www.example.com".to_string(),
        "docs.example.com".to_string(),
    ];
    let once = normalized_domains(&entered).unwrap();
    assert_eq!(once, vec!["docs.example.com", "www.example.com"]);
    assert_eq!(normalized_domains(&once).unwrap(), once);
    for domain in &once {
        assert_eq!(&normalize_domain_input(domain), domain);
    }
}
