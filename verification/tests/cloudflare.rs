use ddns::config::parse::{Resolv, ResolvType};
use ddns::error::Error;
use ddns::ip::Gip;
use ddns::provider::cloudflare::{
    find_zone, overwrite_and_create_record, records_api_url, request, zones_api_url,
    CloudflareResponse, PageAction, Pager, Record, RecordType, Records, ResultInfo, SyncAction,
    SyncEvent, SyncPhase, UploadMethod, Zone, FIRST_PAGE, PER_PAGE,
};

fn info(page: i32, total_pages: i32) -> ResultInfo {
    ResultInfo { page, per_page: 100, total_pages, count: 0, total_count: 0 }
}

fn zone(id: &str, name: &str) -> Zone {
    Zone {
        id: id.to_string(),
        name: name.to_string(),
        status: "active".to_string(),
        paused: false,
        zone_type: "full".to_string(),
        permissions: vec![],
    }
}

fn zones_page(zones: Vec<Zone>, page: i32, total: i32, success: bool, errors: Vec<&str>) -> CloudflareResponse {
    CloudflareResponse {
        result: zones,
        result_info: info(page, total),
        success,
        errors: errors.into_iter().map(|e| e.to_string()).collect(),
        messages: vec![],
    }
}

fn record(id: &str, name: &str, t: RecordType) -> Record {
    Record {
        id: id.to_string(),
        name: name.to_string(),
        record_type: t,
        content: "198.51.100.1".to_string(),
        proxiable: true,
        proxied: false,
        ttl: 1,
        comment: None,
        tags: vec![],
    }
}

fn records_page(records: Vec<Record>, page: i32, total: i32) -> Records {
    Records { result: records, result_info: info(page, total), success: true, errors: vec![], messages: vec![] }
}

fn resolv(target: &str) -> Resolv {
    Resolv {
        domain: "example.com".to_string(),
        rtype: ResolvType::A,
        hostname: "www".to_string(),
        target: target.to_string(),
        triggers: None,
    }
}

fn addrs() -> Gip {
    Gip { ipv4: "203.0.113.9".to_string(), ipv6: "2001:db8::9".to_string() }
}

#[test]
fn record_type_conversions() {
    assert_eq!(RecordType::from(&ResolvType::A), RecordType::A);
    assert_eq!(RecordType::from(&ResolvType::Aaaa), RecordType::Aaaa);
    assert_eq!(RecordType::from(&ResolvType::Cname), RecordType::Cname);
    assert_eq!(RecordType::from(&ResolvType::Srv), RecordType::Srv);
    assert_eq!(RecordType::A.to_string(), "A");
    assert_eq!(RecordType::Aaaa.to_string(), "AAAA");
    assert_eq!(RecordType::Cname.to_string(), "CNAME");
    assert_eq!(RecordType::Srv.to_string(), "SRV");
}

#[test]
fn api_urls() {
    assert_eq!(zones_api_url(), "https://api.cloudflare.com/client/v4/zones");
    assert_eq!(records_api_url("z1"), "https://api.cloudflare.com/client/v4/zones/z1/dns_records");
    assert_eq!(PER_PAGE, 100);
    assert_eq!(FIRST_PAGE, 1);
}

#[test]
fn pager_single_page_is_done() {
    let mut p: Pager<CloudflareResponse> = Pager::new();
    let a = p.on_page(zones_page(vec![zone("1", "a.com")], 1, 1, true, vec![]));
    assert!(matches!(a, PageAction::Done));
    let listing = p.into_result();
    assert_eq!(listing.result.len(), 1);
    assert_eq!(listing.result[0].name, "a.com");
}

#[test]
fn pager_empty_listing_is_done() {
    let mut p: Pager<CloudflareResponse> = Pager::new();
    assert!(matches!(p.on_page(zones_page(vec![], 1, 0, true, vec![])), PageAction::Done));
    assert!(p.into_result().result.is_empty());
}

#[test]
fn pager_fetches_remaining_pages_in_order() {
    let mut p: Pager<CloudflareResponse> = Pager::new();
    let a = p.on_page(zones_page(vec![zone("1", "a.com")], 1, 3, true, vec![]));
    assert!(matches!(a, PageAction::Fetch(2)));
    let a = p.on_page(zones_page(vec![zone("2", "b.com")], 2, 3, true, vec![]));
    assert!(matches!(a, PageAction::Fetch(3)));
    let a = p.on_page(zones_page(vec![zone("3", "c.com"), zone("4", "d.com")], 3, 3, true, vec![]));
    assert!(matches!(a, PageAction::Done));
    let listing = p.into_result();
    let names: Vec<&str> = listing.result.iter().map(|z| z.name.as_str()).collect();
    assert_eq!(names, vec!["a.com", "b.com", "c.com", "d.com"]);
    assert_eq!(listing.result_info.page, 1);
}

#[test]
fn pager_failed_page_fails() {
    let mut p: Pager<CloudflareResponse> = Pager::new();
    let a = p.on_page(zones_page(vec![], 1, 1, false, vec!["e1", "e2"]));
    match a {
        PageAction::Fail(e) => assert_eq!(e, Error::Response("success is false: [e1, e2]".to_string())),
        other => panic!("unexpected action {:?}", other),
    }
    let mut p: Pager<CloudflareResponse> = Pager::new();
    p.on_page(zones_page(vec![], 1, 2, true, vec![]));
    match p.on_page(zones_page(vec![], 2, 2, false, vec![])) {
        PageAction::Fail(e) => assert_eq!(e, Error::Response("success is false: []".to_string())),
        other => panic!("unexpected action {:?}", other),
    }
}

#[test]
fn find_zone_by_domain() {
    let zones = vec![zone("1", "a.com"), zone("2", "example.com"), zone("3", "example.com")];
    assert_eq!(find_zone(&zones, &"example.com".to_string()).unwrap().id, "2");
    assert_eq!(
        find_zone(&zones, &"nope.com".to_string()).unwrap_err(),
        Error::General("domain not exist: nope.com".to_string())
    );
}

#[test]
fn overwrite_existing_record() {
    let records = records_page(
        vec![
            record("r0", "www.example.com", RecordType::Aaaa),
            record("r1", "www.example.com", RecordType::A),
            record("r2", "www.example.com", RecordType::A),
        ],
        1,
        1,
    );
    let up = overwrite_and_create_record("z9", &records, &resolv("${ipv4}"), &addrs()).unwrap();
    assert_eq!(up.method, UploadMethod::Put);
    assert_eq!(up.url, "https://api.cloudflare.com/client/v4/zones/z9/dns_records/r1");
    assert_eq!(up.record.name, "www.example.com");
    assert_eq!(up.record.ttl, 1);
    assert_eq!(up.record.record_type, "A");
    assert_eq!(up.record.comment, "");
    assert_eq!(up.record.content, "203.0.113.9");
    assert!(!up.record.private_routing);
    assert!(!up.record.proxied);
}

#[test]
fn create_missing_record() {
    let records = records_page(vec![record("r0", "api.example.com", RecordType::A)], 1, 1);
    let up = overwrite_and_create_record("z9", &records, &resolv("fixed-$$"), &addrs()).unwrap();
    assert_eq!(up.method, UploadMethod::Post);
    assert_eq!(up.url, "https://api.cloudflare.com/client/v4/zones/z9/dns_records");
    assert_eq!(up.record.content, "fixed-$");
}

#[test]
fn unresolvable_target_fails_write() {
    let records = records_page(vec![], 1, 1);
    assert_eq!(
        overwrite_and_create_record("z9", &records, &resolv("bad$"), &addrs()).unwrap_err(),
        Error::General("general next char is none : 3".to_string())
    );
}

#[test]
fn sync_runs_zones_records_upload() {
    let g = addrs();
    let (mut sync, first) = request(resolv("${ipv4}"));
    match first {
        SyncAction::FetchZones { url, per_page, page } => {
            assert_eq!(url, "https://api.cloudflare.com/client/v4/zones");
            assert_eq!((per_page, page), (100, 1));
        }
        other => panic!("unexpected action {:?}", other),
    }
    let a = sync.step(SyncEvent::ZonesPage(zones_page(vec![zone("z1", "other.com")], 1, 2, true, vec![])), &g);
    assert!(matches!(a, SyncAction::FetchZones { page: 2, .. }));
    let a = sync.step(SyncEvent::ZonesPage(zones_page(vec![zone("z2", "example.com")], 2, 2, true, vec![])), &g);
    match a {
        SyncAction::FetchRecords { url, per_page, page } => {
            assert_eq!(url, "https://api.cloudflare.com/client/v4/zones/z2/dns_records");
            assert_eq!((per_page, page), (100, 1));
        }
        other => panic!("unexpected action {:?}", other),
    }
    assert_eq!(sync.phase, SyncPhase::Records);
    assert_eq!(sync.zone_id, "z2");
    let a = sync.step(SyncEvent::RecordsPage(records_page(vec![], 1, 2)), &g);
    match a {
        SyncAction::FetchRecords { url, page, .. } => {
            assert_eq!(url, "https://api.cloudflare.com/client/v4/zones/z2/dns_records");
            assert_eq!(page, 2);
        }
        other => panic!("unexpected action {:?}", other),
    }
    let a = sync.step(
        SyncEvent::RecordsPage(records_page(vec![record("r7", "www.example.com", RecordType::A)], 2, 2)),
        &g,
    );
    match a {
        SyncAction::Upload(up) => {
            assert_eq!(up.method, UploadMethod::Put);
            assert_eq!(up.url, "https://api.cloudflare.com/client/v4/zones/z2/dns_records/r7");
            assert_eq!(up.record.content, "203.0.113.9");
        }
        other => panic!("unexpected action {:?}", other),
    }
    assert_eq!(sync.phase, SyncPhase::Uploading);
    match sync.step(SyncEvent::Uploaded(true), &g) {
        SyncAction::Finished { updated, message } => {
            assert!(updated);
            assert_eq!(message, "www.example.com updated");
        }
        other => panic!("unexpected action {:?}", other),
    }
    assert_eq!(sync.phase, SyncPhase::Finished);
}

#[test]
fn sync_reports_failed_write() {
    let (mut sync, _) = request(resolv("1.1.1.1"));
    sync.step(SyncEvent::ZonesPage(zones_page(vec![zone("z2", "example.com")], 1, 1, true, vec![])), &addrs());
    sync.step(SyncEvent::RecordsPage(records_page(vec![], 1, 1)), &addrs());
    match sync.step(SyncEvent::Uploaded(false), &addrs()) {
        SyncAction::Finished { updated, message } => {
            assert!(!updated);
            assert_eq!(message, "example.com.www update fail");
        }
        other => panic!("unexpected action {:?}", other),
    }
}

#[test]
fn sync_fails_on_unknown_domain() {
    let (mut sync, _) = request(resolv("1.1.1.1"));
    match sync.step(SyncEvent::ZonesPage(zones_page(vec![zone("z1", "other.com")], 1, 1, true, vec![])), &addrs()) {
        SyncAction::Fail(e) => assert_eq!(e, Error::General("domain not exist: example.com".to_string())),
        other => panic!("unexpected action {:?}", other),
    }
    assert_eq!(sync.phase, SyncPhase::Finished);
}

#[test]
fn sync_fails_on_failed_listing() {
    let (mut sync, _) = request(resolv("1.1.1.1"));
    match sync.step(SyncEvent::ZonesPage(zones_page(vec![], 1, 1, false, vec!["denied"])), &addrs()) {
        SyncAction::Fail(e) => assert_eq!(e, Error::Response("success is false: [denied]".to_string())),
        other => panic!("unexpected action {:?}", other),
    }
    assert_eq!(sync.phase, SyncPhase::Finished);
}

#[test]
fn sync_fails_on_unresolvable_target() {
    let (mut sync, _) = request(resolv("${ipv4"));
    sync.step(SyncEvent::ZonesPage(zones_page(vec![zone("z2", "example.com")], 1, 1, true, vec![])), &addrs());
    match sync.step(SyncEvent::RecordsPage(records_page(vec![], 1, 1)), &addrs()) {
        SyncAction::Fail(e) => assert_eq!(e, Error::General("general } failed : 5".to_string())),
        other => panic!("unexpected action {:?}", other),
    }
}
