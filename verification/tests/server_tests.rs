use blank::web::asset_path_ok;
use blank::analytics::{
    analytics_window, client_ip, client_ip_headers, default_days, default_limit, device_type,
    duration_millis, forwarded_address, protocol_name, request_record, truncate_chars, DaysQuery,
};
use blank::config::{expected_ip_entries, parse_unsigned_text, settings, ConfigError, ConfigVars};
use blank::dns::IpAddress;
use blank::web::{content_type, requested_asset};

#[test]
fn device_classes() {
    assert_eq!(device_type("Mozilla/5.0 (iPhone; CPU iPhone OS 17_0)"), "mobile");
    assert_eq!(device_type("Mozilla/5.0 (Linux; ANDROID 14)"), "mobile");
    assert_eq!(device_type("Mozilla/5.0 (iPad; CPU OS 17_0)"), "tablet");
    assert_eq!(device_type("Mozilla/5.0 (X11; Linux x86_64)"), "desktop");
    assert_eq!(device_type(""), "unknown");
}

#[test]
fn recorded_texts_are_cut_short() {
    assert_eq!(truncate_chars("héllo", 2), "hé");
    assert_eq!(truncate_chars("abc", 10), "abc");
    assert_eq!(duration_millis(12), 12);
    assert_eq!(duration_millis(u128::MAX), i64::MAX);
    assert_eq!(protocol_name(true), "https");
    assert_eq!(protocol_name(false), "http");
    let long_path = "/".repeat(3000);
    let record = request_record(
        "site-1".into(),
        Some("docs.example.com".into()),
        "GET".into(),
        &long_path,
        200,
        7,
        true,
        Some("203.0.113.1".into()),
        Some("NL".into()),
        Some("x".repeat(600)),
        None,
    );
    assert_eq!(record.path.chars().count(), 2048);
    assert_eq!(record.user_agent.as_ref().unwrap().chars().count(), 512);
    assert_eq!(record.device_type, "desktop");
    assert_eq!(record.protocol, "https");
    assert_eq!(record.duration_ms, 7);
    assert_eq!(record.referer, None);
    let anonymous = request_record(
        "s".into(),
        None,
        "GET".into(),
        "/",
        404,
        0,
        false,
        None,
        None,
        None,
        Some("https://ref.example".into()),
    );
    assert_eq!(anonymous.device_type, "unknown");
    assert_eq!(anonymous.referer.as_deref(), Some("https://ref.example"));
}

#[test]
fn client_addresses_come_from_the_trusted_proxy() {
    assert_eq!(
        client_ip_headers(),
        ["cf-connecting-ip", "x-real-ip", "x-forwarded-for"]
    );
    assert_eq!(forwarded_address(" 203.0.113.5 , 10.0.0.1"), "203.0.113.5");
    assert_eq!(forwarded_address(""), "");
    let candidates = vec![None, Some("garbage".to_string()), Some("198.51.100.2".to_string())];
    assert_eq!(
        client_ip(&candidates, &vec![false, false, true], Some("127.0.0.1".into())).as_deref(),
        Some("198.51.100.2")
    );
    assert_eq!(
        client_ip(&candidates, &vec![false, false, false], Some("127.0.0.1".into())).as_deref(),
        Some("127.0.0.1")
    );
    assert_eq!(client_ip(&vec![], &vec![], None), None);
}

#[test]
fn analytics_window_is_bounded() {
    assert_eq!(default_days(), 30);
    assert_eq!(default_limit(), 50);
    let w = analytics_window(&DaysQuery {
        days: 1000,
        search: " /docs ".into(),
        limit: 0,
        offset: -1,
        status: Some(700),
        method: " get ".into(),
        device: " mobile ".into(),
        country: " NL".into(),
    });
    assert_eq!(w.days, 365);
    assert_eq!(w.since, "-365 days");
    assert_eq!(w.search, "/docs");
    assert_eq!(w.pattern, "%/docs%");
    assert_eq!(w.status, 599);
    assert_eq!(w.method, "GET");
    assert_eq!(w.device, "mobile");
    assert_eq!(w.country, "NL");
    assert_eq!(w.limit, 1);
    assert_eq!(w.offset, 0);
    let w = analytics_window(&DaysQuery {
        days: 0,
        search: String::new(),
        limit: 500,
        offset: 20,
        status: None,
        method: String::new(),
        device: String::new(),
        country: String::new(),
    });
    assert_eq!(w.days, 1);
    assert_eq!(w.since, "-1 days");
    assert_eq!(w.status, 0);
    assert_eq!(w.limit, 200);
    assert_eq!(w.offset, 20);
}

fn vars() -> ConfigVars {
    ConfigVars {
        secure_cookies: None,
        chimney_https_port: None,
        chimney_acme_email: None,
        release_retention: None,
        expected_ips: None,
        webhook_secret: None,
        public_url: None,
        base_domain: None,
    }
}

#[test]
fn settings_defaults() {
    let s = settings(&vars(), &vec![]).unwrap();
    assert!(!s.secure_cookies);
    assert_eq!(s.chimney_https_port, None);
    assert_eq!(s.release_retention, 5);
    assert!(s.expected_ips.is_empty());
    assert_eq!(s.webhook_secret, None);
    assert_eq!(s.public_url, None);
    assert_eq!(s.base_domain, None);
}

#[test]
fn settings_are_normalised() {
    let mut v = vars();
    v.secure_cookies = Some("yes".into());
    v.chimney_https_port = Some("8443".into());
    v.chimney_acme_email = Some("ops@example.com".into());
    v.release_retention = Some("+3".into());
    v.expected_ips = Some(" 203.0.113.10, ,198.51.100.1 ".into());
    v.webhook_secret = Some(String::new());
    v.public_url = Some("https://blank.example.com//".into());
    v.base_domain = Some("  .Sites.Example.COM. ".into());
    let entries = expected_ip_entries(&v);
    assert_eq!(entries, ["203.0.113.10", "198.51.100.1"]);
    let parsed = vec![Some(v4(0xcb00_710a)), Some(v4(0xc633_6401))];
    let s = settings(&v, &parsed).unwrap();
    assert_eq!(s.expected_addresses, [v4(0xcb00_710a), v4(0xc633_6401)]);
    assert!(s.secure_cookies);
    assert_eq!(s.chimney_https_port, Some(8443));
    assert_eq!(s.chimney_acme_email.as_deref(), Some("ops@example.com"));
    assert_eq!(s.release_retention, 3);
    assert_eq!(s.expected_ips, ["203.0.113.10", "198.51.100.1"]);
    assert_eq!(s.webhook_secret, None);
    assert_eq!(s.public_url.as_deref(), Some("https://blank.example.com"));
    assert_eq!(s.base_domain.as_deref(), Some("sites.example.com"));
    let mut off = vars();
    off.secure_cookies = Some("TRUE".into());
    assert!(!settings(&off, &vec![]).unwrap().secure_cookies);
}

#[test]
fn settings_errors() {
    let mut v = vars();
    v.chimney_https_port = Some("70000".into());
    assert_eq!(settings(&v, &vec![]).unwrap_err(), ConfigError::HttpsPort);
    assert_eq!(
        ConfigError::HttpsPort.message(),
        "BLANK_CHIMNEY_HTTPS_PORT must be a port"
    );
    let mut v = vars();
    v.release_retention = Some("five".into());
    assert_eq!(settings(&v, &vec![]).unwrap_err(), ConfigError::RetentionNotANumber);
    let mut v = vars();
    v.release_retention = Some("0".into());
    assert_eq!(settings(&v, &vec![]).unwrap_err(), ConfigError::RetentionZero);
    assert_eq!(
        ConfigError::RetentionZero.message(),
        "BLANK_RELEASE_RETENTION must be at least 1"
    );
    let mut v = vars();
    v.base_domain = Some("localhost".into());
    assert_eq!(settings(&v, &vec![]).unwrap_err(), ConfigError::BaseDomain);
    let mut v = vars();
    v.chimney_https_port = Some("443".into());
    v.chimney_acme_email = Some("  ".into());
    assert_eq!(settings(&v, &vec![]).unwrap_err(), ConfigError::AcmeEmailRequired);
    assert_eq!(
        ConfigError::AcmeEmailRequired.message(),
        "BLANK_CHIMNEY_ACME_EMAIL is required when Chimney HTTPS is enabled"
    );
    let mut v = vars();
    v.chimney_https_port = Some("   ".into());
    assert_eq!(settings(&v, &vec![]).unwrap().chimney_https_port, None);
}

#[test]
fn unsigned_numbers_parse_like_std() {
    assert_eq!(parse_unsigned_text("65535", 65535), Some(65535));
    assert_eq!(parse_unsigned_text("65536", 65535), None);
    assert_eq!(parse_unsigned_text("+7", 10), Some(7));
    assert_eq!(parse_unsigned_text("+", 10), None);
    assert_eq!(parse_unsigned_text("-1", 10), None);
    assert_eq!(parse_unsigned_text(" 1", 10), None);
    assert_eq!(parse_unsigned_text("", 10), None);
    assert_eq!(
        parse_unsigned_text("18446744073709551615", u64::MAX),
        Some(u64::MAX)
    );
    assert_eq!(parse_unsigned_text("18446744073709551616", u64::MAX), None);
}

#[test]
fn dashboard_assets() {
    assert_eq!(requested_asset(""), "index.html");
    assert_eq!(requested_asset("assets/app.js"), "assets/app.js");
    assert_eq!(content_type("assets/app.js"), "text/javascript; charset=utf-8");
    assert_eq!(content_type("a.b.css"), "text/css; charset=utf-8");
    assert_eq!(content_type("logo.svg"), "image/svg+xml");
    assert_eq!(content_type("index.html"), "text/html; charset=utf-8");
    assert_eq!(content_type("js"), "text/javascript; charset=utf-8");
}

#[test]
fn assets_stay_in_their_directory() {
    assert!(asset_path_ok("assets/app.js"));
    assert!(asset_path_ok("index.html"));
    assert!(!asset_path_ok("../secret"));
    assert!(!asset_path_ok("assets/../../x"));
    assert!(!asset_path_ok("/etc/passwd"));
}

fn v4(bits: u128) -> IpAddress {
    IpAddress { v6: false, bits }
}

#[test]
fn expected_addresses_must_all_be_addresses() {
    let mut v = vars();
    v.expected_ips = Some("203.0.113.10, nonsense".into());
    assert_eq!(expected_ip_entries(&v), ["203.0.113.10", "nonsense"]);
    assert_eq!(
        settings(&v, &vec![Some(v4(0xcb00_710a)), None]).unwrap_err(),
        ConfigError::ExpectedIp
    );
    assert_eq!(
        settings(&v, &vec![Some(v4(0xcb00_710a))]).unwrap_err(),
        ConfigError::ExpectedIp
    );
    assert_eq!(
        ConfigError::ExpectedIp.message(),
        "BLANK_EXPECTED_IPS contains an invalid IP address"
    );
    v.base_domain = Some("localhost".into());
    assert_eq!(
        settings(&v, &vec![Some(v4(1)), None]).unwrap_err(),
        ConfigError::ExpectedIp
    );
    v.release_retention = Some("0".into());
    assert_eq!(
        settings(&v, &vec![Some(v4(1)), None]).unwrap_err(),
        ConfigError::RetentionZero
    );
}

#[test]
fn retention_written_as_a_number_is_that_number() {
    for n in [1usize, 5, 42, 1000, usize::MAX] {
        let mut v = vars();
        v.release_retention = Some(n.to_string());
        assert_eq!(settings(&v, &vec![]).unwrap().release_retention, n);
    }
}
