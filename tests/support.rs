use ocr_api::auth::{authorize, check_request, credential, AuthDecision};
use ocr_api::config::{effective_auth_key, parse_auth_key, parse_interval_millis, split_url_list};
use ocr_api::endpoint::EndpointId;
use ocr_api::id::time_thread_id_from;
use ocr_api::logger::{component_levels, default_directives, filter_directives, levels_at, Level};
use ocr_api::radix_fmt::{digit, FormatRadix, Radix};

const KEY: &str = "secret-key-1234567";

#[test]
fn admin_requires_credential() {
    let d = check_request(None, None, None, KEY);
    assert_eq!(d, AuthDecision::Missing);
    assert_eq!(d.refusal(), Some((401, "Not authorized")));
    let ok = check_request(Some(KEY), None, None, KEY);
    assert_eq!(ok, AuthDecision::Authorized);
    assert!(ok.refusal().is_none());
    assert!(ok.auth_data().is_some());
}

#[test]
fn credential_sources_in_order() {
    assert_eq!(credential(Some("k1"), Some("Bearer k2"), Some("api-key=k3")).as_deref(), Some("k1"));
    assert_eq!(credential(None, Some("Bearer k2"), Some("api-key=k3")).as_deref(), Some("k2"));
    assert_eq!(credential(None, Some("bEaReR k2"), None).as_deref(), Some("k2"));
    assert_eq!(credential(None, Some("Basic k2"), Some("api-key=k3")).as_deref(), Some("k3"));
    assert_eq!(credential(None, None, Some("a=1; API-KEY=k3; b=2")).as_deref(), Some("k3"));
    assert_eq!(credential(None, None, Some("a=1; b=2")), None);
    assert_eq!(credential(None, Some("Bearer"), None), None);
}

#[test]
fn wrong_key_is_rejected() {
    assert_eq!(authorize(Some("secret-key-1234568"), KEY), AuthDecision::Rejected);
    assert_eq!(authorize(Some(""), KEY), AuthDecision::Rejected);
    assert_eq!(check_request(None, None, Some("api-key=nope"), KEY), AuthDecision::Rejected);
    assert_eq!(check_request(None, Some(&format!("Bearer {KEY}")), None, KEY), AuthDecision::Authorized);
    assert_eq!(AuthDecision::Rejected.refusal(), Some((401, "Not authorized")));
}

#[test]
fn auth_key_rules() {
    assert_eq!(parse_auth_key(""), Ok(String::new()));
    assert_eq!(parse_auth_key(KEY), Ok(KEY.to_string()));
    assert_eq!(
        parse_auth_key("short"),
        Err("API auth key must be at least 16 characters long".to_string())
    );
    assert!(parse_auth_key("exactly-16-chars").is_ok());
    assert!(parse_auth_key("fifteen-chars!!").is_err());
    let k = effective_auth_key(String::new());
    assert_eq!(k.len(), 128);
    assert!(k.chars().all(|c| c.is_ascii_alphanumeric()));
    assert_eq!(effective_auth_key(KEY.to_string()), KEY);
}

#[test]
fn url_list_splitting() {
    assert_eq!(
        split_url_list("http://a/, http://b/ http://c/,,"),
        vec!["http://a/".to_string(), "http://b/".to_string(), "http://c/".to_string()]
    );
    assert_eq!(split_url_list(" \t"), Vec::<String>::new());
    assert_eq!(split_url_list("\thttp://a/\n"), vec!["http://a/".to_string()]);
}

#[test]
fn radix_formatting() {
    assert_eq!(15u32.format_to_base(3), "120");
    assert_eq!(0u64.format_to_base(36), "0");
    assert_eq!(35u64.format_to_base(36), "z");
    assert_eq!(36u128.format_to_base(36), "10");
    assert_eq!(255u32.format_to_base(16), "ff");
    assert_eq!(u128::MAX.format_to_base(2).len(), 128);
    assert_eq!(Radix::new(255u128, 16).to_radix_string(true), "FF");
    assert_eq!(Radix::new(7u128, 2).base(), 2);
    assert_eq!(digit(9, false), b'9');
    assert_eq!(digit(10, false), b'a');
    assert_eq!(digit(35, true), b'Z');
}

#[test]
fn id_composition() {
    assert_eq!(time_thread_id_from(36, 35, 0), "10-z-0");
    let id = EndpointId::time_random(1, 2);
    assert!(id.as_str().ends_with("-1-2"));
    assert!(id.same(&id.clone()));
    assert!(!id.same(&EndpointId::new("other".to_string())));
}

#[test]
fn log_directives() {
    assert_eq!(default_directives(&component_levels()), ",ocr_api=info,request=info");
    assert_eq!(default_directives(&vec![("", Level::Warn), ("x", Level::Trace)]), ",warn,x=trace");
    assert_eq!(Level::Error.as_str(), "error");
}

#[test]
fn interval_parsing() {
    assert_eq!(parse_interval_millis("5s"), Some(5000));
    assert_eq!(parse_interval_millis("1 minute"), Some(60000));
    assert_eq!(parse_interval_millis("250ms"), Some(250));
    assert_eq!(parse_interval_millis("2 hours"), Some(7_200_000));
    assert_eq!(parse_interval_millis("7"), Some(7000));
    assert_eq!(parse_interval_millis("s"), None);
    assert_eq!(parse_interval_millis("5 fortnights"), None);
    assert_eq!(parse_interval_millis("99999999999999999999s"), None);
    assert_eq!(parse_interval_millis("18446744073709551615ms"), Some(u64::MAX));
}

#[test]
fn logger_installs_once() {
    assert!(ocr_api::logger::init("request=debug"));
    assert!(!ocr_api::logger::init_with_app_level(Level::Debug, ""));
}

#[test]
fn log_filter_with_overrides() {
    let levels = component_levels();
    assert_eq!(filter_directives(&levels, ""), ",ocr_api=info,request=info");
    assert_eq!(
        filter_directives(&levels, "request=debug,bogus=="),
        ",ocr_api=info,request=info,request=debug,bogus=="
    );
    assert_eq!(
        filter_directives(&levels_at(&levels, Level::Trace), ""),
        ",ocr_api=trace,request=trace"
    );
}
