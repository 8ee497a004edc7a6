use ocr_api::admin::{add_reply, disable_reply, remove_reply};
use ocr_api::dispatch::{
    forward_headers,
    pick_index, plan_dispatch, proxy_error_message, DispatchPlan, INFO_UNAVAILABLE_MESSAGE,
    NO_LIVE_ENDPOINT_MESSAGE,
};
use ocr_api::endpoint::{
    Endpoint, EndpointId, EndpointInfo, EndpointStatus, EndpointUrl, ProbeOutcome,
};
use ocr_api::public::{public_records, EndpointPublic, EndpointStatusPublic};
use ocr_api::watcher::{EndpointWatcher, ProbeReport};

fn base(href: &str) -> EndpointUrl {
    EndpointUrl::parse(href).unwrap()
}

fn manifest(handlers: &[&str]) -> EndpointInfo {
    EndpointInfo::new(
        handlers.iter().map(|h| h.to_string()).collect(),
        "/ocr/{handler_name}".to_string(),
    )
}

fn endpoint(id: &str, href: &str, _host: &str) -> Endpoint {
    Endpoint::new(EndpointId::new(id.to_string()), base(href))
}

fn single(id: &str, href: &str, host: &str) -> EndpointWatcher {
    EndpointWatcher::from_endpoints(vec![endpoint(id, href, host)])
}

fn tick(w: &mut EndpointWatcher, id: &str, outcome: ProbeOutcome) {
    w.check_and_update_endpoints(vec![ProbeReport::new(EndpointId::new(id.to_string()), outcome)]);
}

#[test]
fn cold_start_one_reachable_backend() {
    let mut w = single("e1", "http://b1/", "b1");
    assert!(w.endpoints()[0].status().is_unknown());
    tick(&mut w, "e1", ProbeOutcome::Manifest(manifest(&["ocrs"])));
    let snap = w.endpoints();
    assert_eq!(snap.len(), 1);
    let public = public_records(&snap);
    match &public[0].status {
        EndpointStatusPublic::Up { available_handlers, .. } => {
            assert_eq!(available_handlers, &vec!["ocrs".to_string()])
        }
        other => panic!("expected up, got {:?}", other),
    }
}

#[test]
fn unreachable_backend_is_down_and_not_dispatched() {
    let mut w = single("e1", "http://127.0.0.1:1/", "127.0.0.1");
    tick(&mut w, "e1", ProbeOutcome::Unreachable("Connection refused".to_string()));
    match w.endpoints()[0].status() {
        EndpointStatus::Down { error, .. } => {
            assert!(!error.is_empty());
            assert_eq!(error, "Couldn't connect to endpoint: Connection refused");
        }
        other => panic!("expected down, got {:?}", other),
    }
    let plan = w.dispatch("ocrs", 0);
    assert!(matches!(plan, DispatchPlan::NoLiveEndpoint));
    assert_eq!(plan.failure(), Some((404, "No live endpoints found supporting that handler")));
    assert!(w.pick_public("ocrs", 0).is_none());
    assert!(w.pick_public_random("ocrs").is_none());
}

#[test]
fn handler_mismatch_gives_not_found() {
    let mut w = single("e1", "http://b1/", "b1");
    tick(&mut w, "e1", ProbeOutcome::Manifest(manifest(&["tesseract"])));
    let plan = w.dispatch("ocrs", 3);
    assert_eq!(plan.failure(), Some((404, NO_LIVE_ENDPOINT_MESSAGE)));
    assert!(w.endpoints_supporting_handler("ocrs").is_empty());
    assert_eq!(w.endpoints_supporting_handler("tesseract").len(), 1);
}

#[test]
fn successful_proxy_plan() {
    let mut w = single("e1", "http://b1/", "b1");
    tick(&mut w, "e1", ProbeOutcome::Manifest(manifest(&["ocrs"])));
    match w.dispatch("ocrs", 0) {
        DispatchPlan::Forward { endpoint_id, target_url, host } => {
            assert_eq!(endpoint_id.as_str(), "e1");
            assert_eq!(target_url, "http://b1/ocr/ocrs");
            assert_eq!(host, "b1");
        }
        other => panic!("expected forward, got {:?}", other),
    }
    match w.dispatch_random("ocrs") {
        DispatchPlan::Forward { target_url, .. } => assert_eq!(target_url, "http://b1/ocr/ocrs"),
        other => panic!("expected forward, got {:?}", other),
    }
}

#[test]
fn admin_add_is_probed_before_insert() {
    let mut w = single("e1", "http://b1/", "b1");
    let added = w.add_endpoint(
        endpoint("e2", "http://b2/", "b2"),
        ProbeOutcome::Manifest(manifest(&["ocrs"])),
    );
    assert!(added);
    let reply = add_reply(added);
    assert!(reply.success);
    assert_eq!(reply.message, "Added endpoint");
    let snap = w.endpoints();
    assert_eq!(snap.len(), 2);
    assert_eq!(snap[1].id().as_str(), "e2");
    assert!(snap[1].status().is_up());
}

#[test]
fn duplicate_add_is_refused() {
    let mut w = single("e1", "http://b1/", "b1");
    let added = w.add_endpoint(
        endpoint("e2", "http://b1/", "b1"),
        ProbeOutcome::Manifest(manifest(&["ocrs"])),
    );
    assert!(!added);
    let reply = add_reply(added);
    assert!(!reply.success);
    assert_eq!(reply.message, "Endpoint already exists");
    assert_eq!(w.len(), 1);
    assert!(w.endpoints()[0].status().is_unknown());
}

#[test]
fn second_add_of_same_url_changes_nothing() {
    let mut w = EndpointWatcher::from_endpoints(Vec::new());
    assert!(w.add_endpoint(endpoint("a", "http://h:8080/", "h"), ProbeOutcome::FetchFailed("timeout".to_string())));
    assert!(!w.add_endpoint(endpoint("b", "http://h:8080/", "h"), ProbeOutcome::FetchFailed("timeout".to_string())));
    assert_eq!(w.len(), 1);
    assert!(w.contains_url("http://h:8080/"));
    assert!(!w.contains_url("http://h:8081/"));
}

#[test]
fn removed_endpoint_never_reappears() {
    let mut w = EndpointWatcher::from_endpoints(vec![
        endpoint("a", "http://a/", "a"),
        endpoint("b", "http://b/", "b"),
        endpoint("c", "http://c/", "c"),
    ]);
    w.remove_endpoint("b");
    let ids: Vec<String> = w.endpoints().iter().map(|e| e.id().as_str().to_string()).collect();
    assert_eq!(ids, vec!["a".to_string(), "c".to_string()]);
    tick(&mut w, "b", ProbeOutcome::Manifest(manifest(&["ocrs"])));
    assert!(w.endpoint("b").is_none());
    assert_eq!(remove_reply().message, "Removed endpoint");
    w.remove_endpoint("zzz");
    assert_eq!(w.len(), 2);
}

#[test]
fn disabled_endpoint_keeps_status_and_is_not_selected() {
    let mut w = single("e1", "http://b1/", "b1");
    tick(&mut w, "e1", ProbeOutcome::Manifest(manifest(&["ocrs"])));
    assert!(w.set_disabled("e1", true));
    assert!(w.probe_targets().is_empty());
    for _ in 0..3 {
        tick(&mut w, "e1", ProbeOutcome::Unreachable("refused".to_string()));
    }
    let e = w.endpoint("e1").unwrap();
    assert!(e.disabled());
    assert!(e.status().is_up());
    assert!(w.endpoints_supporting_handler("ocrs").is_empty());
    assert!(matches!(w.dispatch("ocrs", 0), DispatchPlan::NoLiveEndpoint));
    assert!(w.set_disabled("e1", false));
    assert_eq!(w.dispatch("ocrs", 0).failure(), None);
    assert!(!w.set_disabled("nope", true));
    let reply = disable_reply(false, true);
    assert!(!reply.success);
    assert_eq!(reply.message, "Endpoint not found");
    assert_eq!(disable_reply(true, true).message, "Disabled endpoint");
    assert_eq!(disable_reply(true, false).message, "Enabled endpoint");
}

#[test]
fn probe_outcomes_map_to_statuses() {
    let mut e = endpoint("e", "http://b/", "b");
    e.check_and_update_at(7, ProbeOutcome::FetchFailed("boom".to_string()));
    match e.status() {
        EndpointStatus::Down { checked_at, error } => {
            assert_eq!(*checked_at, 7);
            assert_eq!(error, "Couldn't get endpoint base info: boom");
        }
        other => panic!("unexpected {:?}", other),
    }
    e.check_and_update_at(8, ProbeOutcome::Unparsable("bad json".to_string()));
    match e.status() {
        EndpointStatus::Down { checked_at, error } => {
            assert_eq!(*checked_at, 8);
            assert_eq!(error, "Couldn't parse endpoint base info: bad json");
        }
        other => panic!("unexpected {:?}", other),
    }
    e.check_and_update_at(9, ProbeOutcome::Manifest(manifest(&["ocrs"])));
    assert!(matches!(e.status(), EndpointStatus::Up { checked_at: 9, .. }));
    assert!(e.supports_handler("ocrs"));
    assert!(!e.supports_handler("tesseract"));
}

#[test]
fn handler_url_strips_leading_slash_and_joins() {
    let mut e = endpoint("e", "http://b:8080/", "b");
    assert_eq!(e.handler_url("ocrs"), None);
    let info = EndpointInfo::new(vec!["ocrs".to_string()], "/api/{handler_name}/run".to_string());
    assert_eq!(info.handler_path("ocrs"), "/api/ocrs/run");
    e.check_and_update_at(1, ProbeOutcome::Manifest(info));
    assert_eq!(e.handler_url("ocrs").as_deref(), Some("http://b:8080/api/ocrs/run"));
}

#[test]
fn handler_path_replaces_every_placeholder() {
    let info = EndpointInfo::new(vec![], "/{handler_name}/x/{handler_name}".to_string());
    assert_eq!(info.handler_path("t"), "/t/x/t");
    let plain = EndpointInfo::new(vec![], "/static".to_string());
    assert_eq!(plain.handler_path("t"), "/static");
}

#[test]
fn stale_endpoint_gives_info_unavailable() {
    let e = endpoint("e", "http://b/", "b");
    let plan = plan_dispatch(&vec![e], "ocrs", 0);
    assert!(matches!(plan, DispatchPlan::InfoUnavailable));
    assert_eq!(plan.failure(), Some((500, INFO_UNAVAILABLE_MESSAGE)));
    assert_eq!(proxy_error_message("reset"), "Failed to proxy request: reset");
}

#[test]
fn selection_spreads_evenly() {
    let mut counts = [0usize; 3];
    for draw in 0..300 {
        counts[pick_index(3, draw)] += 1;
    }
    assert_eq!(counts, [100, 100, 100]);
    let mut w = EndpointWatcher::from_endpoints(vec![
        endpoint("a", "http://a/", "a"),
        endpoint("b", "http://b/", "b"),
    ]);
    tick(&mut w, "a", ProbeOutcome::Manifest(manifest(&["ocrs"])));
    tick(&mut w, "b", ProbeOutcome::Manifest(manifest(&["ocrs"])));
    let first = w.pick_public("ocrs", 0).unwrap();
    let second = w.pick_public("ocrs", 1).unwrap();
    assert_eq!(first.id.as_str(), "a");
    assert_eq!(second.id.as_str(), "b");
}

#[test]
fn public_record_hides_template() {
    let mut e = endpoint("e", "http://b/", "b");
    e.check_and_update_at(5, ProbeOutcome::Manifest(manifest(&["ocrs", "tesseract"])));
    let p = EndpointPublic::from_endpoint(&e);
    assert_eq!(p.id.as_str(), "e");
    match p.status {
        EndpointStatusPublic::Up { checked_at, available_handlers } => {
            assert_eq!(checked_at, 5);
            assert_eq!(available_handlers, vec!["ocrs".to_string(), "tesseract".to_string()]);
        }
        other => panic!("unexpected {:?}", other),
    }
    let u = EndpointStatusPublic::from_status(&EndpointStatus::unknown());
    assert!(matches!(u, EndpointStatusPublic::Unknown));
}

#[test]
fn probe_address_uses_default_ports() {
    assert_eq!(base("http://b/").probe_address().as_deref(), Some("b:80"));
    assert_eq!(base("https://b/").probe_address().as_deref(), Some("b:443"));
    assert_eq!(base("http://b:8080/").probe_address().as_deref(), Some("b:8080"));
    assert_eq!(base("http://b:80/").probe_address().as_deref(), Some("b:80"));
}

#[test]
fn tick_reports_for_unknown_ids_are_dropped() {
    let mut w = single("e1", "http://b1/", "b1");
    tick(&mut w, "other", ProbeOutcome::Manifest(manifest(&["ocrs"])));
    assert!(w.endpoints()[0].status().is_unknown());
    let targets = w.probe_targets();
    assert_eq!(targets.len(), 1);
    assert_eq!(targets[0].1.href(), "http://b1/");
}

#[test]
fn status_constructors() {
    assert!(EndpointStatus::up(manifest(&["x"])).is_up());
    assert!(EndpointStatus::down("e".to_string()).is_down());
    assert!(EndpointStatus::unknown().info().is_none());
    let s = EndpointStatus::up_at(3, manifest(&["x"]));
    assert_eq!(s.info().unwrap().available_handlers, vec!["x".to_string()]);
}

#[test]
fn empty_registry_has_nothing_to_dispatch() {
    let w = EndpointWatcher::from_endpoints(Vec::new());
    assert_eq!(w.len(), 0);
    assert!(w.endpoints().is_empty());
    assert!(matches!(w.dispatch("ocrs", 5), DispatchPlan::NoLiveEndpoint));
    assert!(matches!(w.dispatch_random("ocrs"), DispatchPlan::NoLiveEndpoint));
    assert!(w.endpoint("a").is_none());
    assert!(w.position("a").is_none());
}

#[test]
fn base_urls_are_normalised() {
    let u = base("http://h:8080/api/v1");
    assert_eq!(u.href(), "http://h:8080/");
    assert_eq!(u.scheme(), "http");
    assert_eq!(u.host(), "h");
    assert_eq!(u.port(), Some(8080));
    assert_eq!(base("https://h").href(), "https://h/");
    assert_eq!(base("https://h:443/x").port(), None);
}

#[test]
fn base_url_errors() {
    assert_eq!(EndpointUrl::parse("ftp://b/").unwrap_err(), "URL scheme must be http or https");
    assert_eq!(EndpointUrl::parse("mailto:x@y").unwrap_err(), "URL must be absolute");
    assert!(EndpointUrl::parse("not a url").unwrap_err().starts_with("URL must be absolute: "));
}

#[test]
fn add_compares_normalised_urls() {
    let mut w = single("e1", "http://h:8080/", "h");
    let added = w.add_endpoint(
        endpoint("e2", "http://h:8080/api", "h"),
        ProbeOutcome::Manifest(manifest(&["ocrs"])),
    );
    assert!(!added);
    assert_eq!(w.len(), 1);
}

#[test]
fn add_refuses_a_registered_id() {
    let mut w = single("e1", "http://a/", "a");
    let added = w.add_endpoint(
        endpoint("e1", "http://b/", "b"),
        ProbeOutcome::Manifest(manifest(&["ocrs"])),
    );
    assert!(!added);
    assert_eq!(w.len(), 1);
    assert_eq!(w.endpoints()[0].base_url().href(), "http://a/");
}

#[test]
fn tick_keeps_first_report_per_id() {
    let mut w = single("e1", "http://b1/", "b1");
    w.check_and_update_endpoints(vec![
        ProbeReport::new(EndpointId::new("e1".to_string()), ProbeOutcome::Manifest(manifest(&["ocrs"]))),
        ProbeReport::new(EndpointId::new("e1".to_string()), ProbeOutcome::Unreachable("x".to_string())),
    ]);
    assert!(w.endpoints()[0].status().is_up());
}

#[test]
fn upstream_headers_carry_backend_host() {
    let inbound = vec![
        ("host".to_string(), b"gateway:8000".to_vec()),
        ("content-type".to_string(), b"image/png".to_vec()),
        ("x-trace".to_string(), vec![0xff, 0x01]),
    ];
    let out = forward_headers(&inbound, "b1");
    assert_eq!(
        out,
        vec![
            ("content-type".to_string(), b"image/png".to_vec()),
            ("x-trace".to_string(), vec![0xff, 0x01]),
            ("host".to_string(), b"b1".to_vec()),
        ]
    );
    assert_eq!(forward_headers(&Vec::new(), "b2"), vec![("host".to_string(), b"b2".to_vec())]);
}
